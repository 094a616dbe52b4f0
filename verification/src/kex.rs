//! The abstract key-exchange capability.
//!
//! The handshake itself is outside this layer: a strategy is an opaque,
//! deterministic state machine that consumes and produces byte strings and,
//! once complete, finalizes into directional key handles. The channel manager
//! drives it without inspecting the bytes.

use vstd::prelude::*;

use crate::error::ChannelError;
use crate::message::clone_bytes;

verus! {

/// A handle to a secret key held by the crypto provider; never the key bytes
/// themselves.
#[derive(Clone, Copy, Debug, PartialEq, Eq, Structural)]
pub struct SecretKeyContext {
    pub handle: usize,
}

/// A public key as its raw uncompressed bytes.
#[derive(Debug)]
pub struct PublicKey {
    pub bytes: Vec<u8>,
}

impl View for PublicKey {
    type V = Seq<u8>;

    open spec fn view(&self) -> Seq<u8> {
        self.bytes@
    }
}

impl Clone for PublicKey {
    fn clone(&self) -> (r: Self)
        ensures
            r@ == self@,
    {
        PublicKey { bytes: clone_bytes(&self.bytes) }
    }
}

/// What a finished handshake yields: directional AEAD key handles, the
/// transcript hash used as associated data, and the peer's static public key.
///
/// The keys are directional: the side that produced the last handshake
/// message uses one assignment and its peer the swapped one; the strategy's
/// finalize output settles which.
#[derive(Debug)]
pub struct CompletedKeyExchange {
    pub encrypt_key: SecretKeyContext,
    pub decrypt_key: SecretKeyContext,
    pub h: Vec<u8>,
    pub remote_static_public_key: PublicKey,
}

/// The mathematical image of a [`CompletedKeyExchange`].
pub struct CompletedKeyExchangeView {
    pub encrypt_key: SecretKeyContext,
    pub decrypt_key: SecretKeyContext,
    pub h: Seq<u8>,
    pub remote_static_public_key: Seq<u8>,
}

impl View for CompletedKeyExchange {
    type V = CompletedKeyExchangeView;

    open spec fn view(&self) -> CompletedKeyExchangeView {
        CompletedKeyExchangeView {
            encrypt_key: self.encrypt_key,
            decrypt_key: self.decrypt_key,
            h: self.h@,
            remote_static_public_key: self.remote_static_public_key@,
        }
    }
}

impl Clone for CompletedKeyExchange {
    fn clone(&self) -> (r: Self)
        ensures
            r@ == self@,
    {
        CompletedKeyExchange {
            encrypt_key: self.encrypt_key,
            decrypt_key: self.decrypt_key,
            h: clone_bytes(&self.h),
            remote_static_public_key: self.remote_static_public_key.clone(),
        }
    }
}

/// A stateful producer and consumer of handshake byte strings.
///
/// The two spec functions give the strategy an abstract transition relation;
/// the executable methods follow it. Feeding an empty input after the peer's
/// last message asks for the next outbound message.
pub trait KeyExchanger: Sized {
    /// Whether the handshake has run to its end, so that keys can be drawn.
    /// The default leaves it unspecified; a verified strategy overrides it.
    open spec fn complete(&self) -> bool {
        vstd::pervasive::arbitrary()
    }

    /// The transition: from the current state and an input byte string to
    /// the next state and the output byte string, where the strategy accepts
    /// the input at all. The default leaves it unspecified; a verified
    /// strategy overrides it.
    open spec fn process_spec(&self, input: Seq<u8>) -> Option<(Self, Seq<u8>)> {
        vstd::pervasive::arbitrary()
    }

    /// The finish: from a state to the state after finalizing and the keys
    /// yielded, where the strategy can finalize at all. The default leaves
    /// it unspecified; a verified strategy overrides it.
    open spec fn finalize_spec(&self) -> Option<(Self, CompletedKeyExchangeView)> {
        vstd::pervasive::arbitrary()
    }

    /// Feeds the peer's bytes in, or with an empty input asks for the next
    /// outbound handshake message.
    fn process(&mut self, data: &[u8]) -> (r: Result<Vec<u8>, ChannelError>)
        ensures
            r matches Ok(out) ==> old(self).process_spec(data@) == Some((*final(self), out@)),
    ;

    /// Whether the handshake has run to its end.
    fn is_complete(&self) -> (r: bool)
        ensures
            r == self.complete(),
    ;

    /// Draws the completed key material out of the strategy.
    fn finalize(&mut self) -> (r: Result<CompletedKeyExchange, ChannelError>)
        ensures
            r matches Ok(cke) ==> old(self).finalize_spec() == Some((*final(self), cke@)),
    ;
}

/// A maker of key-exchange strategies, one constructor per role, optionally
/// bound to a static-key context.
pub trait NewKeyExchanger<I: KeyExchanger, R: KeyExchanger> {
    /// The initiator-role strategy this maker yields for a key context.
    /// The default leaves it unspecified; a verified maker overrides it.
    open spec fn initiator_spec(&self, key_ctx: Option<SecretKeyContext>) -> I {
        vstd::pervasive::arbitrary()
    }

    /// The responder-role strategy this maker yields for a key context.
    /// The default leaves it unspecified; a verified maker overrides it.
    open spec fn responder_spec(&self, key_ctx: Option<SecretKeyContext>) -> R {
        vstd::pervasive::arbitrary()
    }

    /// Constructs an initiator-role strategy.
    fn initiator(&self, key_ctx: Option<SecretKeyContext>) -> (r: I)
        ensures
            r == self.initiator_spec(key_ctx),
    ;

    /// Constructs a responder-role strategy.
    fn responder(&self, key_ctx: Option<SecretKeyContext>) -> (r: R)
        ensures
            r == self.responder_spec(key_ctx),
    ;
}

/// The closed set of roles a channel's strategy can be in.
pub enum Agreement<I, R> {
    Initiator(I),
    Responder(R),
}

impl<I: KeyExchanger, R: KeyExchanger> KeyExchanger for Agreement<I, R> {
    open spec fn complete(&self) -> bool {
        match self {
            Agreement::Initiator(i) => i.complete(),
            Agreement::Responder(r) => r.complete(),
        }
    }

    open spec fn process_spec(&self, input: Seq<u8>) -> Option<(Self, Seq<u8>)> {
        match self {
            Agreement::Initiator(i) => match i.process_spec(input) {
                Some((s, o)) => Some((Agreement::Initiator(s), o)),
                Option::None => None,
            },
            Agreement::Responder(r) => match r.process_spec(input) {
                Some((s, o)) => Some((Agreement::Responder(s), o)),
                Option::None => None,
            },
        }
    }

    open spec fn finalize_spec(&self) -> Option<(Self, CompletedKeyExchangeView)> {
        match self {
            Agreement::Initiator(i) => match i.finalize_spec() {
                Some((s, cke)) => Some((Agreement::Initiator(s), cke)),
                Option::None => None,
            },
            Agreement::Responder(r) => match r.finalize_spec() {
                Some((s, cke)) => Some((Agreement::Responder(s), cke)),
                Option::None => None,
            },
        }
    }

    fn process(&mut self, data: &[u8]) -> (r: Result<Vec<u8>, ChannelError>) {
        match self {
            Agreement::Initiator(i) => i.process(data),
            Agreement::Responder(r) => r.process(data),
        }
    }

    fn is_complete(&self) -> (r: bool) {
        match self {
            Agreement::Initiator(i) => i.is_complete(),
            Agreement::Responder(r) => r.is_complete(),
        }
    }

    fn finalize(&mut self) -> (r: Result<CompletedKeyExchange, ChannelError>) {
        match self {
            Agreement::Initiator(i) => i.finalize(),
            Agreement::Responder(r) => r.finalize(),
        }
    }
}

} // verus!
