//! The structured commands exchanged with the surrounding router.
//!
//! The manager consumes channel commands from its inbound queue and emits
//! router commands (sends and local deliveries) for the host to forward.

use vstd::prelude::*;

use crate::kex::SecretKeyContext;
use crate::message::{Address, AddrView, Message, MessageView, Route, RouterAddrView};

verus! {

/// What the manager can be asked to do.
#[derive(Debug)]
pub enum ChannelCommand {
    /// Open a channel over the given route, notifying the given local return
    /// address when it is secure, optionally with a static-key context for
    /// the initiator.
    Initiate(Route, Address, Option<SecretKeyContext>),
    /// Clear all channels and leave the drain loop.
    Stop,
    /// The outbound payload path.
    SendMessage(Message),
    /// The inbound payload and handshake path.
    ReceiveMessage(Message),
}

/// The mathematical image of a [`ChannelCommand`].
pub enum ChannelCommandView {
    Initiate(Seq<RouterAddrView>, AddrView, Option<SecretKeyContext>),
    Stop,
    SendMessage(MessageView),
    ReceiveMessage(MessageView),
}

impl View for ChannelCommand {
    type V = ChannelCommandView;

    open spec fn view(&self) -> ChannelCommandView {
        match self {
            ChannelCommand::Initiate(route, addr, key) => ChannelCommandView::Initiate(
                route@,
                addr@,
                *key,
            ),
            ChannelCommand::Stop => ChannelCommandView::Stop,
            ChannelCommand::SendMessage(m) => ChannelCommandView::SendMessage(m@),
            ChannelCommand::ReceiveMessage(m) => ChannelCommandView::ReceiveMessage(m@),
        }
    }
}

/// What the manager asks the router to do.
#[derive(Debug)]
pub enum RouterCommand {
    /// Enqueue a message for outbound routing.
    SendMessage(Message),
    /// Deliver a message to a locally registered handler.
    ReceiveMessage(Message),
}

/// The mathematical image of a [`RouterCommand`].
pub enum RouterCommandView {
    SendMessage(MessageView),
    ReceiveMessage(MessageView),
}

impl View for RouterCommand {
    type V = RouterCommandView;

    open spec fn view(&self) -> RouterCommandView {
        match self {
            RouterCommand::SendMessage(m) => RouterCommandView::SendMessage(m@),
            RouterCommand::ReceiveMessage(m) => RouterCommandView::ReceiveMessage(m@),
        }
    }
}

/// A command on the process-wide bus, as far as this layer sees it.
#[derive(Debug)]
pub enum OckamCommand {
    /// A command addressed to the channel manager.
    Channel(ChannelCommand),
    /// A command addressed to the router.
    Router(RouterCommand),
}

/// The mathematical image of an [`OckamCommand`].
pub enum OckamCommandView {
    Channel(ChannelCommandView),
    Router(RouterCommandView),
}

impl View for OckamCommand {
    type V = OckamCommandView;

    open spec fn view(&self) -> OckamCommandView {
        match self {
            OckamCommand::Channel(c) => OckamCommandView::Channel(c@),
            OckamCommand::Router(c) => OckamCommandView::Router(c@),
        }
    }
}

} // verus!
