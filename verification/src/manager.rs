//! The channel manager.
//!
//! The manager owns the set of channels, dispatches bus messages to the right
//! channel by routing address, drives each channel through its handshake and
//! payload phases, and emits the resulting router commands into an outbox the
//! host forwards. It is a single-threaded cooperative poller: the host drains
//! its inbound command queue and hands the commands here.

use vstd::prelude::*;

use crate::channel::{Channel, ChannelView, nonce_16_to_96_spec};
use crate::codec::{dec_message, enc_message, enc_u16_le, le16, message_wf};
use crate::commands::{
    ChannelCommand, ChannelCommandView, OckamCommand, OckamCommandView, RouterCommand,
    RouterCommandView,
};
use crate::error::ChannelError;
use crate::kex::{
    Agreement, CompletedKeyExchangeView, KeyExchanger, NewKeyExchanger, SecretKeyContext,
};
use crate::message::{
    AddrView, Address, AddressType, CHANNEL_ZERO, Message, MessageType, MessageView, Route,
    RouterAddrView, RouterAddress, le_bytes_u32, u32_le_bytes, u32_to_le_vec,
};
use crate::vault::DynVault;

verus! {

/// Relies on rand::random: draws a uniformly random 32-bit identifier from
/// the thread-local generator. Nothing is promised of the value.
#[verifier::external_body]
fn random_u32() -> u32 {
    rand::random::<u32>()
}

/// The role a fresh channel's strategy is constructed in.
enum ExchangerRole {
    Initiator,
    Responder,
}

/// Whether a channel answers to the given 32-bit identifier, under either of
/// its two addresses.
pub open spec fn addr_matches<A>(c: ChannelView<A>, key: u32) -> bool {
    c.cleartext_address == key || c.ciphertext_address == key
}

/// The position of the first channel answering to the identifier, if any.
pub open spec fn first_match<A>(cs: Seq<ChannelView<A>>, key: u32) -> Option<int>
    decreases cs.len(),
{
    if cs.len() == 0 {
        None
    } else if addr_matches(cs[0], key) {
        Some(0int)
    } else {
        match first_match(cs.drop_first(), key) {
            Some(i) => Some(i + 1),
            Option::None => None,
        }
    }
}

/// No channel answers to the identifier.
pub open spec fn key_unused<A>(cs: Seq<ChannelView<A>>, key: u32) -> bool {
    forall|i: int| 0 <= i < cs.len() ==> !addr_matches(#[trigger] cs[i], key)
}

/// `first_match` finds exactly the first position that matches, and finds
/// none exactly when no position matches.
proof fn lemma_first_match<A>(cs: Seq<ChannelView<A>>, key: u32)
    ensures
        match first_match(cs, key) {
            Some(i) => 0 <= i < cs.len() && addr_matches(cs[i], key) && forall|j: int|
                0 <= j < i ==> !addr_matches(#[trigger] cs[j], key),
            Option::None => key_unused(cs, key),
        },
    decreases cs.len(),
{
    if cs.len() != 0 {
        lemma_first_match(cs.drop_first(), key);
        if !addr_matches(cs[0], key) {
            match first_match(cs.drop_first(), key) {
                Some(i) => {
                    assert forall|j: int| 0 <= j < i + 1 implies !addr_matches(
                        #[trigger] cs[j],
                        key,
                    ) by {
                        if j > 0 {
                            assert(cs.drop_first()[j - 1] == cs[j]);
                            assert(!addr_matches(cs.drop_first()[j - 1], key));
                        }
                    }
                },
                Option::None => {
                    assert forall|i: int| 0 <= i < cs.len() implies !addr_matches(
                        #[trigger] cs[i],
                        key,
                    ) by {
                        if i > 0 {
                            assert(cs.drop_first()[i - 1] == cs[i]);
                            assert(!addr_matches(cs.drop_first()[i - 1], key));
                        }
                    }
                },
            }
        }
    }
}

/// A position that matches while every earlier one does not is the first
/// match.
proof fn lemma_first_match_at<A>(cs: Seq<ChannelView<A>>, key: u32, i: int)
    requires
        0 <= i < cs.len(),
        addr_matches(cs[i], key),
        forall|j: int| 0 <= j < i ==> !addr_matches(#[trigger] cs[j], key),
    ensures
        first_match(cs, key) == Some(i),
    decreases cs.len(),
{
    if i > 0 {
        assert(forall|j: int|
            0 <= j < i - 1 ==> cs.drop_first()[j] == cs[j + 1] && !addr_matches(
                #[trigger] cs.drop_first()[j],
                key,
            ));
        assert(cs.drop_first()[i - 1] == cs[i]);
        lemma_first_match_at(cs.drop_first(), key, i - 1);
    }
}

/// A channel in a healthy state: its two addresses are distinct, neither is
/// the wire sentinel, and once the handshake has finalized it knows a route
/// of at least one hop to its peer.
pub open spec fn channel_wf<A>(c: ChannelView<A>) -> bool {
    &&& c.cleartext_address != CHANNEL_ZERO
    &&& c.ciphertext_address != CHANNEL_ZERO
    &&& c.cleartext_address != c.ciphertext_address
    &&& c.completed_key_exchange is Some ==> c.route.len() >= 1
}

/// No two channels share an address, cleartext or ciphertext.
pub open spec fn channels_distinct<A>(cs: Seq<ChannelView<A>>) -> bool {
    forall|i: int, j: int|
        0 <= i < j < cs.len() ==> {
            &&& #[trigger] cs[i].cleartext_address != #[trigger] cs[j].cleartext_address
            &&& cs[i].cleartext_address != cs[j].ciphertext_address
            &&& cs[i].ciphertext_address != cs[j].cleartext_address
            &&& cs[i].ciphertext_address != cs[j].ciphertext_address
        }
}

/// The route entry for the channel-category address with the given
/// identifier.
pub open spec fn channel_ra_view(id: u32) -> RouterAddrView {
    RouterAddrView { a_type: AddressType::Channel, address: AddrView::Channel(u32_le_bytes(id)) }
}

/// The route entry for the worker-category address with the given
/// identifier.
pub open spec fn worker_ra_view(id: u32) -> RouterAddrView {
    RouterAddrView { a_type: AddressType::Worker, address: AddrView::Worker(u32_le_bytes(id)) }
}

/// The 32-bit identifier a route entry addresses, where its identifier bytes
/// have the four-byte rendered form.
pub open spec fn addr_key(a: RouterAddrView) -> Option<u32> {
    if a.address.bytes().len() == 4 {
        Some(le_bytes_u32(a.address.bytes()))
    } else {
        None
    }
}

/// A fresh half-channel: handshake not finalized, counter at zero, no route,
/// no pending notification.
pub open spec fn fresh_channel<A>(clear: u32, cipher: u32, agreement: A) -> ChannelView<A> {
    ChannelView {
        completed_key_exchange: None,
        cleartext_address: clear,
        ciphertext_address: cipher,
        agreement,
        nonce: 0,
        recv_nonce: 0,
        route: Seq::<RouterAddrView>::empty(),
        pending: None,
    }
}

/// Replacing a channel by one under the same two addresses keeps the whole
/// table healthy.
proof fn lemma_update_preserves_wf<A>(cs: Seq<ChannelView<A>>, i: int, c: ChannelView<A>)
    requires
        forall|k: int| 0 <= k < cs.len() ==> channel_wf(#[trigger] cs[k]),
        channels_distinct(cs),
        0 <= i < cs.len(),
        c.cleartext_address == cs[i].cleartext_address,
        c.ciphertext_address == cs[i].ciphertext_address,
        channel_wf(c),
    ensures
        forall|k: int| 0 <= k < cs.update(i, c).len() ==> channel_wf(#[trigger] cs.update(i, c)[k]),
        channels_distinct(cs.update(i, c)),
{
    let post = cs.update(i, c);
    assert forall|k: int| 0 <= k < post.len() implies channel_wf(#[trigger] post[k]) by {
        if k != i {
            assert(post[k] == cs[k]);
        }
    }
    assert forall|a: int, b: int| 0 <= a < b < post.len() implies {
        &&& #[trigger] post[a].cleartext_address != #[trigger] post[b].cleartext_address
        &&& post[a].cleartext_address != post[b].ciphertext_address
        &&& post[a].ciphertext_address != post[b].cleartext_address
        &&& post[a].ciphertext_address != post[b].ciphertext_address
    } by {
        assert(post[a].cleartext_address == cs[a].cleartext_address);
        assert(post[a].ciphertext_address == cs[a].ciphertext_address);
        assert(post[b].cleartext_address == cs[b].cleartext_address);
        assert(post[b].ciphertext_address == cs[b].ciphertext_address);
    }
}

/// Writing a sequence's own element back leaves the sequence as it was.
proof fn lemma_seq_update_same<T>(s: Seq<T>, i: int)
    requires
        0 <= i < s.len(),
    ensures
        s.update(i, s[i]) == s,
{
    assert(s.update(i, s[i]) =~= s);
}

/// A sequence extended by its own empty tail is itself.
proof fn lemma_seq_skip_all<T>(s: Seq<T>)
    ensures
        s.skip(s.len() as int) == Seq::<T>::empty(),
        s + s.skip(s.len() as int) == s,
{
    assert(s.skip(s.len() as int) =~= Seq::<T>::empty());
    assert(s + s.skip(s.len() as int) =~= s);
}

/// Installing a healthy channel under two unused addresses keeps the whole
/// table healthy.
proof fn lemma_push_preserves_wf<A>(cs: Seq<ChannelView<A>>, c: ChannelView<A>)
    requires
        forall|i: int| 0 <= i < cs.len() ==> channel_wf(#[trigger] cs[i]),
        channels_distinct(cs),
        channel_wf(c),
        key_unused(cs, c.cleartext_address),
        key_unused(cs, c.ciphertext_address),
    ensures
        forall|i: int| 0 <= i < cs.push(c).len() ==> channel_wf(#[trigger] cs.push(c)[i]),
        channels_distinct(cs.push(c)),
{
    let post = cs.push(c);
    assert forall|i: int| 0 <= i < post.len() implies channel_wf(#[trigger] post[i]) by {
        if i < cs.len() {
            assert(post[i] == cs[i]);
        } else {
            assert(post[i] == c);
        }
    }
    assert forall|i: int, j: int| 0 <= i < j < post.len() implies {
        &&& #[trigger] post[i].cleartext_address != #[trigger] post[j].cleartext_address
        &&& post[i].cleartext_address != post[j].ciphertext_address
        &&& post[i].ciphertext_address != post[j].cleartext_address
        &&& post[i].ciphertext_address != post[j].ciphertext_address
    } by {
        if j < cs.len() {
            assert(post[i] == cs[i] && post[j] == cs[j]);
        } else {
            assert(post[j] == c && post[i] == cs[i]);
            assert(!addr_matches(cs[i], c.cleartext_address));
            assert(!addr_matches(cs[i], c.ciphertext_address));
        }
    }
}

/// The notification retained at initiate time: it will reach the local
/// worker at `ret` once the handshake completes, and its return route names
/// the channel's cleartext endpoint.
pub open spec fn pending_view(ret: AddrView, clear: u32) -> MessageView {
    MessageView {
        onward_route: seq![RouterAddrView { a_type: ret.kind(), address: ret }],
        return_route: seq![channel_ra_view(clear)],
        message_type: MessageType::Empty,
        message_body: Seq::<u8>::empty(),
    }
}

/// The first handshake message as put on the bus: the caller's route with
/// the wire sentinel appended, answered at the channel's ciphertext
/// endpoint.
pub open spec fn m1_view(route: Seq<RouterAddrView>, cipher: u32, m1: Seq<u8>) -> MessageView {
    MessageView {
        onward_route: route + seq![channel_ra_view(CHANNEL_ZERO)],
        return_route: seq![channel_ra_view(cipher)],
        message_type: MessageType::KeyAgreementM1,
        message_body: m1,
    }
}

/// The channel with its strategy replaced and everything else as it was.
pub open spec fn updated_agreement<A>(ch: ChannelView<A>, a: A) -> ChannelView<A> {
    ChannelView {
        completed_key_exchange: ch.completed_key_exchange,
        cleartext_address: ch.cleartext_address,
        ciphertext_address: ch.ciphertext_address,
        agreement: a,
        nonce: ch.nonce,
        recv_nonce: ch.recv_nonce,
        route: ch.route,
        pending: ch.pending,
    }
}

/// The channel after a strategy call failed: only its strategy state is
/// unaccounted for.
pub open spec fn broken_channel<A>(ch: ChannelView<A>, ch2: ChannelView<A>) -> bool {
    exists|a: A| ch2 == updated_agreement(ch, a)
}

/// The channel once its handshake finalized: keys drawn, peer route stored,
/// pending notification consumed.
pub open spec fn finalized_channel<A>(
    ch: ChannelView<A>,
    a: A,
    cke: CompletedKeyExchangeView,
    route: Seq<RouterAddrView>,
) -> ChannelView<A> {
    ChannelView {
        completed_key_exchange: Some(cke),
        cleartext_address: ch.cleartext_address,
        ciphertext_address: ch.ciphertext_address,
        agreement: a,
        nonce: ch.nonce,
        recv_nonce: ch.recv_nonce,
        route,
        pending: None,
    }
}

/// The channel with its shared counter stepped once.
pub open spec fn stepped_nonce<A>(ch: ChannelView<A>) -> ChannelView<A> {
    ChannelView {
        completed_key_exchange: ch.completed_key_exchange,
        cleartext_address: ch.cleartext_address,
        ciphertext_address: ch.ciphertext_address,
        agreement: ch.agreement,
        nonce: (ch.nonce + 1) as u16,
        recv_nonce: ch.recv_nonce,
        route: ch.route,
        pending: ch.pending,
    }
}

/// The channel with its inbound counter stepped once (dual-counter mode).
pub open spec fn stepped_recv_nonce<A>(ch: ChannelView<A>) -> ChannelView<A> {
    ChannelView {
        completed_key_exchange: ch.completed_key_exchange,
        cleartext_address: ch.cleartext_address,
        ciphertext_address: ch.ciphertext_address,
        agreement: ch.agreement,
        nonce: ch.nonce,
        recv_nonce: (ch.recv_nonce + 1) as u16,
        route: ch.route,
        pending: ch.pending,
    }
}

/// The second handshake message as put on the bus: back along the sender's
/// return route, answered at this channel's ciphertext endpoint.
pub open spec fn m2_reply_view(m: MessageView, cipher: u32, m2: Seq<u8>) -> MessageView {
    MessageView {
        onward_route: m.return_route,
        return_route: seq![channel_ra_view(cipher)],
        message_type: MessageType::KeyAgreementM2,
        message_body: m2,
    }
}

/// The third handshake message as put on the bus: back along the sender's
/// return route, answered at the entry the second message arrived on.
pub open spec fn m3_reply_view(m: MessageView, m3: Seq<u8>) -> MessageView {
    MessageView {
        onward_route: m.return_route,
        return_route: seq![m.onward_route[0]],
        message_type: MessageType::KeyAgreementM3,
        message_body: m3,
    }
}

/// The pending notification as delivered on finalization: its return route
/// becomes the peer route with the channel's cleartext endpoint in front,
/// and its body the peer's static public key.
pub open spec fn notify_view(
    p: MessageView,
    remote_key: Seq<u8>,
    route: Seq<RouterAddrView>,
    clear: u32,
) -> MessageView {
    MessageView {
        onward_route: p.onward_route,
        return_route: seq![channel_ra_view(clear)] + route,
        message_type: p.message_type,
        message_body: remote_key,
    }
}

/// The notification a responder synthesizes when it holds none: an empty
/// message to the sentinel worker address, answered at the channel's
/// cleartext endpoint.
pub open spec fn synth_notify_view(route: Seq<RouterAddrView>, clear: u32) -> MessageView {
    MessageView {
        onward_route: seq![worker_ra_view(CHANNEL_ZERO)],
        return_route: seq![channel_ra_view(clear)] + route,
        message_type: MessageType::Empty,
        message_body: Seq::<u8>::empty(),
    }
}

/// A route with one leading wire-sentinel channel entry taken off, so that
/// callers may name a peer as `[sentinel, …rest]` uniformly.
pub open spec fn peeled_route(route: Seq<RouterAddrView>) -> Seq<RouterAddrView> {
    if route.len() > 0 && route[0].a_type == AddressType::Channel && route[0].address.bytes()
        == u32_le_bytes(CHANNEL_ZERO) {
        route.drop_first()
    } else {
        route
    }
}

/// The mathematical images of a batch of commands, in order.
pub open spec fn cmd_views(cmds: Seq<OckamCommand>) -> Seq<OckamCommandView> {
    cmds.map_values(|c: OckamCommand| c@)
}

/// The command result with its success value dropped.
pub open spec fn unit_result(r: Result<bool, ChannelError>) -> Result<(), ChannelError> {
    match r {
        Ok(_) => Ok(()),
        Err(e) => Err(e),
    }
}

/// A channel manager: the sole long-term owner of this process's channels.
///
/// It is generic over the initiator- and responder-role key-exchange
/// strategies, their maker, and the crypto provider.
pub struct ChannelManager<
    I: KeyExchanger,
    R: KeyExchanger,
    E: NewKeyExchanger<I, R>,
    V: DynVault,
> {
    channels: Vec<Channel<Agreement<I, R>>>,
    vault: V,
    new_key_exchanger: E,
    resp_key_ctx: Option<SecretKeyContext>,
    init_key_ctx: Option<SecretKeyContext>,
    outbox: Vec<OckamCommand>,
    dual_counter: bool,
}

impl<I: KeyExchanger, R: KeyExchanger, E: NewKeyExchanger<I, R>, V: DynVault> ChannelManager<
    I,
    R,
    E,
    V,
> {
    /// The channels the manager holds, in creation order.
    pub closed spec fn channels_view(&self) -> Seq<ChannelView<Agreement<I, R>>> {
        self.channels@.map_values(|c: Channel<Agreement<I, R>>| c@)
    }

    /// The router commands emitted and not yet taken by the host, in
    /// emission order.
    pub closed spec fn outbox_view(&self) -> Seq<OckamCommandView> {
        self.outbox@.map_values(|c: OckamCommand| c@)
    }

    /// The crypto provider's state.
    pub closed spec fn vault_state(&self) -> V {
        self.vault
    }

    /// The strategy maker.
    pub closed spec fn kex_factory(&self) -> E {
        self.new_key_exchanger
    }

    /// The responder-side static-key context.
    pub closed spec fn resp_key(&self) -> Option<SecretKeyContext> {
        self.resp_key_ctx
    }

    /// The initiator-side static-key context.
    pub closed spec fn init_key(&self) -> Option<SecretKeyContext> {
        self.init_key_ctx
    }

    /// Whether inbound payloads count on their own counter instead of the
    /// counter shared with the outbound direction.
    pub closed spec fn dual_mode(&self) -> bool {
        self.dual_counter
    }

    /// The manager's invariant: every channel is healthy and no two share an
    /// address.
    pub open spec fn wf(&self) -> bool {
        &&& forall|i: int|
            0 <= i < self.channels_view().len() ==> channel_wf(#[trigger] self.channels_view()[i])
        &&& channels_distinct(self.channels_view())
    }

    /// A fresh manager: no channels, nothing emitted.
    pub fn new(
        vault: V,
        new_key_exchanger: E,
        resp_key_ctx: Option<SecretKeyContext>,
        init_key_ctx: Option<SecretKeyContext>,
    ) -> (r: Self)
        ensures
            r.wf(),
            r.channels_view() == Seq::<ChannelView<Agreement<I, R>>>::empty(),
            r.outbox_view() == Seq::<OckamCommandView>::empty(),
            r.vault_state() == vault,
            r.kex_factory() == new_key_exchanger,
            r.resp_key() == resp_key_ctx,
            r.init_key() == init_key_ctx,
            !r.dual_mode(),
    {
        let r = ChannelManager {
            channels: Vec::new(),
            vault,
            new_key_exchanger,
            resp_key_ctx,
            init_key_ctx,
            outbox: Vec::new(),
            dual_counter: false,
        };
        proof {
            assert(r.channels_view() =~= Seq::<ChannelView<Agreement<I, R>>>::empty());
            assert(r.outbox_view() =~= Seq::<OckamCommandView>::empty());
        }
        r
    }

    /// Looks a channel up by a 32-bit identifier, under either address.
    fn find_channel(&self, key: u32) -> (r: Option<usize>)
        ensures
            match r {
                Some(i) => i < self.channels_view().len() && first_match(self.channels_view(), key)
                    == Some(i as int),
                Option::None => first_match(self.channels_view(), key) is None,
            },
    {
        let ghost cs = self.channels_view();
        let mut i: usize = 0;
        while i < self.channels.len()
            invariant
                0 <= i <= self.channels@.len(),
                cs == self.channels_view(),
                cs.len() == self.channels@.len(),
                forall|j: int| 0 <= j < i ==> !addr_matches(#[trigger] cs[j], key),
            decreases self.channels@.len() - i,
        {
            let c = &self.channels[i];
            proof {
                assert(cs[i as int] == c@);
            }
            if c.cleartext_address == key || c.ciphertext_address == key {
                proof {
                    lemma_first_match_at(cs, key, i as int);
                }
                return Some(i);
            }
            i += 1;
        }
        proof {
            lemma_first_match(cs, key);
            if first_match(cs, key) is Some {
                let w = first_match(cs, key)->Some_0;
                assert(!addr_matches(cs[w], key));
            }
        }
        None
    }

    /// Draws a random identifier that is nonzero, unused by every channel
    /// and distinct from `forbidden`, giving up after a bounded number of
    /// tries.
    fn draw_fresh_id(&self, forbidden: Option<u32>) -> (r: Option<u32>)
        ensures
            r matches Some(c) ==> c != 0 && key_unused(self.channels_view(), c) && (
            forbidden matches Some(f) ==> c != f),
    {
        let mut tries: usize = 0;
        while tries < 16
            invariant
                tries <= 16,
            decreases 16 - tries,
        {
            let c = random_u32();
            let distinct = match forbidden {
                Some(f) => c != f,
                Option::None => true,
            };
            if c != 0 && distinct {
                match self.find_channel(c) {
                    Option::None => {
                        proof {
                            lemma_first_match(self.channels_view(), c);
                        }
                        return Some(c);
                    },
                    Some(_) => {},
                }
            }
            tries += 1;
        }
        None
    }

    /// Allocates a channel in the given role under two fresh random
    /// identifiers and installs it. Yields the new cleartext and ciphertext
    /// identifiers, or nothing when no fresh identifiers could be drawn.
    fn create_channel(&mut self, role: ExchangerRole) -> (r: Option<(u32, u32)>)
        ensures
            final(self).vault_state() == old(self).vault_state(),
            final(self).kex_factory() == old(self).kex_factory(),
            final(self).resp_key() == old(self).resp_key(),
            final(self).init_key() == old(self).init_key(),
            final(self).dual_mode() == old(self).dual_mode(),
            final(self).outbox_view() == old(self).outbox_view(),
            match r {
                Some((clear, cipher)) => {
                    let agreement = match role {
                        ExchangerRole::Initiator => Agreement::<I, R>::Initiator(
                            old(self).kex_factory().initiator_spec(old(self).init_key()),
                        ),
                        ExchangerRole::Responder => Agreement::<I, R>::Responder(
                            old(self).kex_factory().responder_spec(old(self).resp_key()),
                        ),
                    };
                    &&& clear != 0 && cipher != 0 && clear != cipher
                    &&& key_unused(old(self).channels_view(), clear)
                    &&& key_unused(old(self).channels_view(), cipher)
                    &&& final(self).channels_view() == old(self).channels_view().push(
                        fresh_channel(clear, cipher, agreement),
                    )
                },
                Option::None => final(self).channels_view() == old(self).channels_view(),
            },
            old(self).wf() ==> final(self).wf(),
    {
        let clear = match self.draw_fresh_id(None) {
            Some(c) => c,
            Option::None => {
                return None;
            },
        };
        let cipher = match self.draw_fresh_id(Some(clear)) {
            Some(c) => c,
            Option::None => {
                return None;
            },
        };
        let agreement = match role {
            ExchangerRole::Initiator => Agreement::Initiator(
                self.new_key_exchanger.initiator(self.init_key_ctx),
            ),
            ExchangerRole::Responder => Agreement::Responder(
                self.new_key_exchanger.responder(self.resp_key_ctx),
            ),
        };
        let channel = Channel::new(clear, cipher, agreement);
        let ghost pre = self.channels_view();
        self.channels.push(channel);
        proof {
            assert(self.channels_view() =~= pre.push(channel@));
            assert(channel@ == fresh_channel(clear, cipher, agreement));
            if old(self).wf() {
                let post = self.channels_view();
                assert(forall|i: int|
                    0 <= i < pre.len() ==> post[i] == #[trigger] pre[i] && channel_wf(pre[i]));
                assert(channel_wf(post[pre.len() as int]));
                assert(forall|i: int, j: int|
                    0 <= i < j < post.len() && j < pre.len() ==> {
                        &&& #[trigger] post[i].cleartext_address != #[trigger] post[j].cleartext_address
                        &&& post[i].cleartext_address != post[j].ciphertext_address
                        &&& post[i].ciphertext_address != post[j].cleartext_address
                        &&& post[i].ciphertext_address != post[j].ciphertext_address
                    });
                assert(forall|i: int|
                    0 <= i < pre.len() ==> !addr_matches(#[trigger] post[i], clear) && !addr_matches(
                        post[i],
                        cipher,
                    ));
            }
        }
        Some((clear, cipher))
    }

    /// What a successful initiate does: one fresh initiator-role channel
    /// under the fresh identifiers, holding the pending notification and the
    /// strategy's state after producing its first message; that message on
    /// the outbox; and the channel's cleartext address yielded.
    pub open spec fn initiate_ok(
        pre: Self,
        post: Self,
        route: Seq<RouterAddrView>,
        ret: AddrView,
        addr: AddrView,
        clear: u32,
        cipher: u32,
        key: Option<SecretKeyContext>,
    ) -> bool {
        let a0 = Agreement::<I, R>::Initiator(pre.kex_factory().initiator_spec(key));
        &&& ret.bytes().len() <= 255
        &&& clear != 0 && cipher != 0 && clear != cipher
        &&& key_unused(pre.channels_view(), clear)
        &&& key_unused(pre.channels_view(), cipher)
        &&& match a0.process_spec(Seq::<u8>::empty()) {
            Some((a1, m1)) => {
                &&& post.channels_view() == pre.channels_view().push(
                    ChannelView {
                        completed_key_exchange: None,
                        cleartext_address: clear,
                        ciphertext_address: cipher,
                        agreement: a1,
                        nonce: 0,
                        recv_nonce: 0,
                        route: Seq::<RouterAddrView>::empty(),
                        pending: Some(pending_view(ret, clear)),
                    },
                )
                &&& post.outbox_view() == pre.outbox_view().push(
                    OckamCommandView::Router(
                        RouterCommandView::SendMessage(m1_view(route, cipher, m1)),
                    ),
                )
                &&& addr == AddrView::Channel(u32_le_bytes(clear))
            },
            Option::None => false,
        }
    }

    /// What an initiate that the strategy refused leaves behind: the fresh
    /// channel stays installed, with its pending notification set and the
    /// strategy in whatever state it broke in; nothing is emitted.
    pub open spec fn initiate_started(
        pre: Self,
        post: Self,
        ret: AddrView,
        clear: u32,
        cipher: u32,
        a: Agreement<I, R>,
    ) -> bool {
        &&& clear != 0 && cipher != 0 && clear != cipher
        &&& key_unused(pre.channels_view(), clear)
        &&& key_unused(pre.channels_view(), cipher)
        &&& post.channels_view() == pre.channels_view().push(
            ChannelView {
                completed_key_exchange: None,
                cleartext_address: clear,
                ciphertext_address: cipher,
                agreement: a,
                nonce: 0,
                recv_nonce: 0,
                route: Seq::<RouterAddrView>::empty(),
                pending: Some(pending_view(ret, clear)),
            },
        )
        &&& post.outbox_view() == pre.outbox_view()
    }

    /// Initiates a key exchange to open a secure channel over the supplied
    /// route, answering to `return_address` once it is secure.
    ///
    /// Fails with `CantSend` when the return address does not fit a route
    /// entry, with `State` when no fresh channel identifiers could be drawn,
    /// and with the strategy's own error when it refuses to start; in the
    /// last case the allocated channel stays installed.
    fn initiate_new_channel(&mut self, route: Route, return_address: Address) -> (r: Result<
        Address,
        ChannelError,
    >)
        requires
            old(self).wf(),
        ensures
            final(self).wf(),
            final(self).vault_state() == old(self).vault_state(),
            final(self).kex_factory() == old(self).kex_factory(),
            final(self).resp_key() == old(self).resp_key(),
            final(self).init_key() == old(self).init_key(),
            final(self).dual_mode() == old(self).dual_mode(),
            match r {
                Ok(addr) => exists|clear: u32, cipher: u32|
                    Self::initiate_ok(
                        *old(self),
                        *final(self),
                        route@,
                        return_address@,
                        addr@,
                        clear,
                        cipher,
                        old(self).init_key(),
                    ),
                Err(e) => {
                    ||| {
                        &&& e == ChannelError::CantSend
                        &&& return_address@.bytes().len() > 255
                        &&& final(self).channels_view() == old(self).channels_view()
                        &&& final(self).outbox_view() == old(self).outbox_view()
                    }
                    ||| {
                        &&& e == ChannelError::State
                        &&& final(self).channels_view() == old(self).channels_view()
                        &&& final(self).outbox_view() == old(self).outbox_view()
                    }
                    ||| exists|clear: u32, cipher: u32, a: Agreement<I, R>|
                        Self::initiate_started(
                            *old(self),
                            *final(self),
                            return_address@,
                            clear,
                            cipher,
                            a,
                        )
                },
            },
    {
        let ghost route0 = route@;
        let pending_return = match RouterAddress::from_address(return_address) {
            Some(ra) => ra,
            Option::None => {
                return Err(ChannelError::CantSend);
            },
        };
        let clear = match self.draw_fresh_id(None) {
            Some(c) => c,
            Option::None => {
                return Err(ChannelError::State);
            },
        };
        let cipher = match self.draw_fresh_id(Some(clear)) {
            Some(c) => c,
            Option::None => {
                return Err(ChannelError::State);
            },
        };
        let agreement = Agreement::Initiator(self.new_key_exchanger.initiator(self.init_key_ctx));
        let mut channel = Channel::new(clear, cipher, agreement);
        let mut clear_route_addresses: Vec<RouterAddress> = Vec::new();
        clear_route_addresses.push(RouterAddress::channel_router_address_from_u32(clear));
        let mut pending_onward: Vec<RouterAddress> = Vec::new();
        pending_onward.push(pending_return);
        let pending_message = Message {
            onward_route: Route { addresses: pending_onward },
            return_route: Route { addresses: clear_route_addresses },
            message_type: MessageType::Empty,
            message_body: Vec::new(),
        };
        proof {
            assert(pending_message@.onward_route =~= pending_view(
                return_address@,
                clear,
            ).onward_route);
            assert(pending_message@.return_route =~= pending_view(
                return_address@,
                clear,
            ).return_route);
            assert(pending_message@ =~= pending_view(return_address@, clear));
        }
        channel.pending = Some(pending_message);
        let empty_input: Vec<u8> = Vec::new();
        let ka_m1 = match channel.agreement.process(empty_input.as_slice()) {
            Ok(v) => v,
            Err(e) => {
                let ghost chv = channel@;
                self.channels.push(channel);
                proof {
                    assert(self.channels_view() =~= old(self).channels_view().push(chv));
                    lemma_push_preserves_wf(old(self).channels_view(), chv);
                    assert(Self::initiate_started(
                        *old(self),
                        *self,
                        return_address@,
                        clear,
                        cipher,
                        chv.agreement,
                    ));
                }
                return Err(e);
            },
        };
        proof {
            assert(empty_input@ =~= Seq::<u8>::empty());
        }
        let mut route = route;
        route.addresses.push(RouterAddress::channel_router_address_from_u32(CHANNEL_ZERO));
        let mut m1_return: Vec<RouterAddress> = Vec::new();
        m1_return.push(RouterAddress::channel_router_address_from_u32(cipher));
        let m = Message {
            onward_route: route,
            return_route: Route { addresses: m1_return },
            message_type: MessageType::KeyAgreementM1,
            message_body: ka_m1,
        };
        let ghost m1v = m@;
        self.outbox.push(OckamCommand::Router(RouterCommand::SendMessage(m)));
        let ghost chv = channel@;
        self.channels.push(channel);
        let r = Address::ChannelAddress(u32_to_le_vec(clear));
        proof {
            let pre = *old(self);
            let post = *self;
            assert(post.channels_view() =~= pre.channels_view().push(chv));
            assert(post.outbox_view() =~= pre.outbox_view().push(
                OckamCommandView::Router(RouterCommandView::SendMessage(m1v)),
            ));
            lemma_push_preserves_wf(pre.channels_view(), chv);
            let a0 = Agreement::<I, R>::Initiator(pre.kex_factory().initiator_spec(pre.init_key()));
            assert(m1v.onward_route =~= route0 + seq![channel_ra_view(CHANNEL_ZERO)]);
            assert(m1v.return_route =~= seq![channel_ra_view(cipher)]);
            assert(m1v =~= m1_view(route0, cipher, ka_m1@));
            assert(Self::initiate_ok(
                pre,
                post,
                route0,
                return_address@,
                r@,
                clear,
                cipher,
                pre.init_key(),
            ));
        }
        Ok(r)
    }

    /// The tables are as they were: same channels, nothing newly emitted.
    pub open spec fn unchanged_tables(pre: Self, post: Self) -> bool {
        &&& post.channels_view() == pre.channels_view()
        &&& post.outbox_view() == pre.outbox_view()
    }

    /// The wire form of an outbound payload: the channel's stored peer route,
    /// answered at its ciphertext endpoint, with the counter's two
    /// little-endian bytes before the ciphertext.
    pub open spec fn send_payload_view(
        ch: ChannelView<Agreement<I, R>>,
        ct: Seq<u8>,
    ) -> MessageView {
        MessageView {
            onward_route: ch.route,
            return_route: seq![channel_ra_view(ch.ciphertext_address)],
            message_type: MessageType::Payload,
            message_body: enc_u16_le(ch.nonce) + ct,
        }
    }

    /// What the payload-send path does, case by case: no onward route fails
    /// `CantSend`; a non-payload type fails `NotImplemented`; an unknown head
    /// address fails `NotImplemented`; a channel whose handshake has not
    /// finalized drops the payload silently; an exhausted counter fails
    /// `State`; a message too wide for the wire fails `CantSend`; otherwise
    /// the head address is stripped, the message encoded and sealed under the
    /// channel's encrypt key with its current counter, the counter stepped,
    /// and the wire payload emitted.
    pub open spec fn send_post(
        pre: Self,
        post: Self,
        m: MessageView,
        r: Result<(), ChannelError>,
    ) -> bool {
        if m.onward_route.len() == 0 {
            &&& r == Err::<(), ChannelError>(ChannelError::CantSend)
            &&& Self::unchanged_tables(pre, post)
            &&& post.vault_state() == pre.vault_state()
        } else if !(m.message_type is Payload) {
            &&& r == Err::<(), ChannelError>(ChannelError::NotImplemented)
            &&& Self::unchanged_tables(pre, post)
            &&& post.vault_state() == pre.vault_state()
        } else {
            let key_opt = addr_key(m.onward_route[0]);
            let found = if key_opt is Some {
                first_match(pre.channels_view(), key_opt->Some_0)
            } else {
                None
            };
            match found {
                Option::None => {
                    &&& r == Err::<(), ChannelError>(ChannelError::NotImplemented)
                    &&& Self::unchanged_tables(pre, post)
                    &&& post.vault_state() == pre.vault_state()
                },
                Some(i) => {
                    let ch = pre.channels_view()[i];
                    let stripped = MessageView {
                        onward_route: m.onward_route.drop_first(),
                        return_route: m.return_route,
                        message_type: m.message_type,
                        message_body: m.message_body,
                    };
                    match ch.completed_key_exchange {
                        Option::None => {
                            &&& r == Ok::<(), ChannelError>(())
                            &&& Self::unchanged_tables(pre, post)
                            &&& post.vault_state() == pre.vault_state()
                        },
                        Some(cke) => if ch.nonce == 0xFFFF {
                            &&& r == Err::<(), ChannelError>(ChannelError::State)
                            &&& Self::unchanged_tables(pre, post)
                            &&& post.vault_state() == pre.vault_state()
                        } else if !message_wf(stripped) {
                            &&& r == Err::<(), ChannelError>(ChannelError::CantSend)
                            &&& Self::unchanged_tables(pre, post)
                            &&& post.vault_state() == pre.vault_state()
                        } else {
                            let ct = pre.vault_state().aead_encrypt_spec(
                                cke.encrypt_key,
                                enc_message(stripped),
                                nonce_16_to_96_spec(ch.nonce),
                                cke.h,
                            );
                            ||| {
                                &&& r == Ok::<(), ChannelError>(())
                                &&& post.channels_view() == pre.channels_view().update(
                                    i,
                                    ChannelView {
                                        completed_key_exchange: ch.completed_key_exchange,
                                        cleartext_address: ch.cleartext_address,
                                        ciphertext_address: ch.ciphertext_address,
                                        agreement: ch.agreement,
                                        nonce: (ch.nonce + 1) as u16,
                                        recv_nonce: ch.recv_nonce,
                                        route: ch.route,
                                        pending: ch.pending,
                                    },
                                )
                                &&& post.outbox_view() == pre.outbox_view().push(
                                    OckamCommandView::Router(
                                        RouterCommandView::SendMessage(
                                            Self::send_payload_view(ch, ct),
                                        ),
                                    ),
                                )
                            }
                            ||| {
                                &&& r == Err::<(), ChannelError>(ChannelError::CantSend)
                                &&& Self::unchanged_tables(pre, post)
                            }
                        },
                    }
                },
            }
        }
    }

    /// The outbound payload path: strips the channel's own address, encodes
    /// the rest, seals it under the channel's encrypt key with its current
    /// counter, steps the counter, and emits the wire payload over the
    /// channel's stored route.
    fn handle_send(&mut self, m: Message) -> (r: Result<(), ChannelError>)
        requires
            old(self).wf(),
        ensures
            final(self).wf(),
            final(self).kex_factory() == old(self).kex_factory(),
            final(self).resp_key() == old(self).resp_key(),
            final(self).init_key() == old(self).init_key(),
            final(self).dual_mode() == old(self).dual_mode(),
            Self::send_post(*old(self), *final(self), m@, r),
    {
        let ghost mv = m@;
        if m.onward_route.addresses.len() == 0 {
            proof {
                assert(mv.onward_route.len() == 0);
            }
            return Err(ChannelError::CantSend);
        }
        proof {
            assert(mv.onward_route.len() > 0);
        }
        match m.message_type {
            MessageType::Payload => {},
            _ => {
                return Err(ChannelError::NotImplemented);
            },
        }
        let head = &m.onward_route.addresses[0];
        proof {
            assert(mv.onward_route[0] == head@);
        }
        let key = match crate::message::le_vec_to_u32(head.address.bytes_ref()) {
            Some(k) => k,
            Option::None => {
                proof {
                    assert(addr_key(mv.onward_route[0]) is None);
                }
                return Err(ChannelError::NotImplemented);
            },
        };
        proof {
            assert(addr_key(mv.onward_route[0]) == Some(key));
        }
        let i = match self.find_channel(key) {
            Some(i) => i,
            Option::None => {
                return Err(ChannelError::NotImplemented);
            },
        };
        let ghost pre_vec = self.channels@;
        let ghost pre_view = self.channels_view();
        let mut ch = self.channels.remove(i);
        proof {
            assert(ch@ == pre_view[i as int]);
        }
        if ch.completed_key_exchange.is_none() {
            self.channels.insert(i, ch);
            proof {
                assert(self.channels@ =~= pre_vec);
                assert(Self::unchanged_tables(*old(self), *self));
            }
            return Ok(());
        }
        if ch.nonce == 0xFFFF {
            self.channels.insert(i, ch);
            proof {
                assert(self.channels@ =~= pre_vec);
            }
            return Err(ChannelError::State);
        }
        let mut m = m;
        m.onward_route.addresses.remove(0);
        proof {
            assert(m@.onward_route =~= mv.onward_route.drop_first());
            assert(m@ == (MessageView {
                onward_route: mv.onward_route.drop_first(),
                return_route: mv.return_route,
                message_type: mv.message_type,
                message_body: mv.message_body,
            }));
        }
        let mut m_encoded: Vec<u8> = Vec::new();
        match Message::encode(&m, &mut m_encoded) {
            Ok(()) => {},
            Err(e) => {
                self.channels.insert(i, ch);
                proof {
                    assert(self.channels@ =~= pre_vec);
                }
                return Err(e);
            },
        }
        let mut new_body: Vec<u8> = Vec::new();
        crate::codec::encode_u16_le(ch.nonce, &mut new_body);
        let nonce96 = Channel::<Agreement<I, R>>::nonce_16_to_96(ch.nonce);
        let enc_result = match &ch.completed_key_exchange {
            Some(cke) => self.vault.aead_aes_gcm_encrypt(
                cke.encrypt_key,
                m_encoded.as_slice(),
                nonce96.as_slice(),
                cke.h.as_slice(),
            ),
            Option::None => {
                return Err(ChannelError::State);
            },
        };
        let mut ct = match enc_result {
            Ok(v) => v,
            Err(_) => {
                self.channels.insert(i, ch);
                proof {
                    assert(self.channels@ =~= pre_vec);
                }
                return Err(ChannelError::CantSend);
            },
        };
        let ghost pre_ch = ch@;
        ch.nonce = ch.nonce + 1;
        new_body.append(&mut ct);
        let mut return_addresses: Vec<RouterAddress> = Vec::new();
        return_addresses.push(
            RouterAddress::channel_router_address_from_u32(ch.ciphertext_address),
        );
        let new_m = Message {
            onward_route: ch.route.clone(),
            return_route: Route { addresses: return_addresses },
            message_type: MessageType::Payload,
            message_body: new_body,
        };
        let ghost new_mv = new_m@;
        self.outbox.push(OckamCommand::Router(RouterCommand::SendMessage(new_m)));
        self.channels.insert(i, ch);
        proof {
            let pre = *old(self);
            let post = *self;
            let chv = post.channels_view()[i as int];
            assert(self.channels@ =~= pre_vec.update(i as int, self.channels@[i as int]));
            assert(post.channels_view() =~= pre_view.update(
                i as int,
                ChannelView {
                    completed_key_exchange: pre_ch.completed_key_exchange,
                    cleartext_address: pre_ch.cleartext_address,
                    ciphertext_address: pre_ch.ciphertext_address,
                    agreement: pre_ch.agreement,
                    nonce: (pre_ch.nonce + 1) as u16,
                    recv_nonce: pre_ch.recv_nonce,
                    route: pre_ch.route,
                    pending: pre_ch.pending,
                },
            ));
            assert(post.outbox_view() =~= pre.outbox_view().push(
                OckamCommandView::Router(RouterCommandView::SendMessage(new_mv)),
            ));
            let cke = pre_ch.completed_key_exchange->Some_0;
            let stripped = MessageView {
                onward_route: mv.onward_route.drop_first(),
                return_route: mv.return_route,
                message_type: mv.message_type,
                message_body: mv.message_body,
            };
            let ct_spec = pre.vault_state().aead_encrypt_spec(
                cke.encrypt_key,
                enc_message(stripped),
                nonce_16_to_96_spec(pre_ch.nonce),
                cke.h,
            );
            assert(new_mv.return_route =~= seq![channel_ra_view(pre_ch.ciphertext_address)]);
            assert(new_mv.message_body =~= enc_u16_le(pre_ch.nonce) + ct_spec);
            assert(new_mv =~= Self::send_payload_view(pre_ch, ct_spec));
            assert forall|j: int|
                0 <= j < post.channels_view().len() implies channel_wf(
                #[trigger] post.channels_view()[j],
            ) by {
                if j != i {
                    assert(post.channels_view()[j] == pre_view[j]);
                }
            }
            assert forall|a: int, b: int|
                0 <= a < b < post.channels_view().len() implies {
                    &&& #[trigger] post.channels_view()[a].cleartext_address
                        != #[trigger] post.channels_view()[b].cleartext_address
                    &&& post.channels_view()[a].cleartext_address
                        != post.channels_view()[b].ciphertext_address
                    &&& post.channels_view()[a].ciphertext_address
                        != post.channels_view()[b].cleartext_address
                    &&& post.channels_view()[a].ciphertext_address
                        != post.channels_view()[b].ciphertext_address
                } by {
                assert(pre_view[a].cleartext_address != pre_view[b].cleartext_address);
                assert(post.channels_view()[a].cleartext_address
                    == pre_view[a].cleartext_address);
                assert(post.channels_view()[a].ciphertext_address
                    == pre_view[a].ciphertext_address);
                assert(post.channels_view()[b].cleartext_address
                    == pre_view[b].cleartext_address);
                assert(post.channels_view()[b].ciphertext_address
                    == pre_view[b].ciphertext_address);
            }
        }
        Ok(())
    }

    /// What the first-handshake-message handler does to one channel: a
    /// finalized channel rejects it; otherwise the strategy consumes the
    /// bytes and produces the second message, which is sent back along the
    /// sender's return route.
    pub open spec fn m1_step(
        ch: ChannelView<Agreement<I, R>>,
        vpre: V,
        vpost: V,
        m: MessageView,
        r: Result<(), ChannelError>,
        ch2: ChannelView<Agreement<I, R>>,
        emitted: Seq<OckamCommandView>,
    ) -> bool {
        &&& vpost == vpre
        &&& if ch.completed_key_exchange is Some {
            &&& r == Err::<(), ChannelError>(ChannelError::State)
            &&& ch2 == ch
            &&& emitted == Seq::<OckamCommandView>::empty()
        } else {
            let step1 = ch.agreement.process_spec(m.message_body);
            let step2 = if step1 is Some {
                step1->Some_0.0.process_spec(Seq::<u8>::empty())
            } else {
                None
            };
            ||| {
                &&& r == Ok::<(), ChannelError>(())
                &&& step2 matches Some((a2, m2)) && ch2 == updated_agreement(ch, a2) && emitted
                    == seq![
                    OckamCommandView::Router(
                        RouterCommandView::SendMessage(m2_reply_view(m, ch.ciphertext_address, m2)),
                    ),
                ]
            }
            ||| {
                &&& r is Err
                &&& broken_channel(ch, ch2)
                &&& emitted == Seq::<OckamCommandView>::empty()
            }
        }
    }

    /// What the inbound-payload handler does to one channel: before
    /// finalization the payload is silently dropped; a body shorter than the
    /// counter prefix is refused; an exhausted counter is fatal; otherwise
    /// the body is split into its counter and ciphertext, opened under the
    /// channel's decrypt key with the counter expanded to the AEAD nonce,
    /// decoded, and delivered locally, and the channel's counter steps once.
    pub open spec fn payload_step(
        ch: ChannelView<Agreement<I, R>>,
        vpre: V,
        vpost: V,
        dual: bool,
        m: MessageView,
        r: Result<(), ChannelError>,
        ch2: ChannelView<Agreement<I, R>>,
        emitted: Seq<OckamCommandView>,
    ) -> bool {
        match ch.completed_key_exchange {
            Option::None => {
                &&& r == Ok::<(), ChannelError>(())
                &&& ch2 == ch
                &&& emitted == Seq::<OckamCommandView>::empty()
                &&& vpost == vpre
            },
            Some(cke) => if m.message_body.len() < 2 {
                &&& r == Err::<(), ChannelError>(ChannelError::RecvError)
                &&& ch2 == ch
                &&& emitted == Seq::<OckamCommandView>::empty()
                &&& vpost == vpre
            } else if (if dual { ch.recv_nonce } else { ch.nonce }) == 0xFFFF {
                &&& r == Err::<(), ChannelError>(ChannelError::State)
                &&& ch2 == ch
                &&& emitted == Seq::<OckamCommandView>::empty()
                &&& vpost == vpre
            } else {
                let n16 = le16(m.message_body);
                let plain = vpre.aead_decrypt_spec(
                    cke.decrypt_key,
                    m.message_body.skip(2),
                    nonce_16_to_96_spec(n16),
                    cke.h,
                );
                let decoded = if plain is Some {
                    dec_message(plain->Some_0)
                } else {
                    None
                };
                match decoded {
                    Some(d) => {
                        ||| {
                            &&& r == Ok::<(), ChannelError>(())
                            &&& ch2 == (if dual { stepped_recv_nonce(ch) } else { stepped_nonce(ch) })
                            &&& emitted == seq![
                                OckamCommandView::Router(RouterCommandView::ReceiveMessage(d)),
                            ]
                        }
                        ||| {
                            &&& r == Err::<(), ChannelError>(ChannelError::RecvError)
                            &&& ch2 == ch
                            &&& emitted == Seq::<OckamCommandView>::empty()
                        }
                    },
                    Option::None => {
                        &&& r == Err::<(), ChannelError>(ChannelError::RecvError)
                        &&& ch2 == ch
                        &&& emitted == Seq::<OckamCommandView>::empty()
                    },
                }
            },
        }
    }

    /// What the second-handshake-message handler does to one channel (the
    /// initiator side): it refuses an empty return route, a finalized
    /// channel, and a channel with no pending notification; otherwise the
    /// strategy consumes the bytes, produces the third message (sent back
    /// along the sender's return route) and finalizes; the peer route is
    /// stored, and the pending notification is delivered with the channel's
    /// cleartext endpoint in front of its return route and the peer's static
    /// public key as its body.
    pub open spec fn m2_step(
        ch: ChannelView<Agreement<I, R>>,
        vpre: V,
        vpost: V,
        m: MessageView,
        r: Result<(), ChannelError>,
        ch2: ChannelView<Agreement<I, R>>,
        emitted: Seq<OckamCommandView>,
    ) -> bool {
        &&& vpost == vpre
        &&& if m.return_route.len() == 0 {
            &&& r == Err::<(), ChannelError>(ChannelError::RecvError)
            &&& ch2 == ch
            &&& emitted == Seq::<OckamCommandView>::empty()
        } else if ch.completed_key_exchange is Some {
            &&& r == Err::<(), ChannelError>(ChannelError::State)
            &&& ch2 == ch
            &&& emitted == Seq::<OckamCommandView>::empty()
        } else if ch.pending is None {
            &&& r == Err::<(), ChannelError>(ChannelError::NotImplemented)
            &&& ch2 == ch
            &&& emitted == Seq::<OckamCommandView>::empty()
        } else {
            let step1 = ch.agreement.process_spec(m.message_body);
            let step2 = if step1 is Some {
                step1->Some_0.0.process_spec(Seq::<u8>::empty())
            } else {
                None
            };
            let fin = if step2 is Some {
                step2->Some_0.0.finalize_spec()
            } else {
                None
            };
            ||| {
                &&& r == Ok::<(), ChannelError>(())
                &&& step2 matches Some((a2, m3b)) && fin matches Some((a3, cke)) && ch2
                    == finalized_channel(ch, a3, cke, m.return_route) && emitted == seq![
                    OckamCommandView::Router(RouterCommandView::SendMessage(m3_reply_view(m, m3b))),
                    OckamCommandView::Router(
                        RouterCommandView::ReceiveMessage(
                            notify_view(
                                ch.pending->Some_0,
                                cke.remote_static_public_key,
                                m.return_route,
                                ch.cleartext_address,
                            ),
                        ),
                    ),
                ]
            }
            ||| {
                &&& r is Err
                &&& broken_channel(ch, ch2)
                &&& emitted == Seq::<OckamCommandView>::empty()
            }
        }
    }

    /// What the third-handshake-message handler does to one channel (the
    /// responder side): it refuses an empty return route; a finalized
    /// channel drops the message silently; otherwise the strategy consumes
    /// the bytes (its output is discarded) and finalizes, the peer route is
    /// stored, and a notification is delivered — the pending one if it
    /// exists, rewritten as on the initiator side, else a synthesized empty
    /// one.
    pub open spec fn m3_step(
        ch: ChannelView<Agreement<I, R>>,
        vpre: V,
        vpost: V,
        m: MessageView,
        r: Result<(), ChannelError>,
        ch2: ChannelView<Agreement<I, R>>,
        emitted: Seq<OckamCommandView>,
    ) -> bool {
        &&& vpost == vpre
        &&& if m.return_route.len() == 0 {
            &&& r == Err::<(), ChannelError>(ChannelError::RecvError)
            &&& ch2 == ch
            &&& emitted == Seq::<OckamCommandView>::empty()
        } else if ch.completed_key_exchange is Some {
            &&& r == Ok::<(), ChannelError>(())
            &&& ch2 == ch
            &&& emitted == Seq::<OckamCommandView>::empty()
        } else {
            let step1 = ch.agreement.process_spec(m.message_body);
            let fin = if step1 is Some {
                step1->Some_0.0.finalize_spec()
            } else {
                None
            };
            ||| {
                &&& r == Ok::<(), ChannelError>(())
                &&& fin matches Some((a2, cke)) && ch2 == finalized_channel(
                    ch,
                    a2,
                    cke,
                    m.return_route,
                ) && emitted == seq![
                    OckamCommandView::Router(
                        RouterCommandView::ReceiveMessage(
                            match ch.pending {
                                Some(p) => notify_view(
                                    p,
                                    cke.remote_static_public_key,
                                    m.return_route,
                                    ch.cleartext_address,
                                ),
                                Option::None => synth_notify_view(
                                    m.return_route,
                                    ch.cleartext_address,
                                ),
                            },
                        ),
                    ),
                ]
            }
            ||| {
                &&& r is Err
                &&& broken_channel(ch, ch2)
                &&& emitted == Seq::<OckamCommandView>::empty()
            }
        }
    }

    /// Handles the second handshake message on the channel at position `i`.
    fn handle_m2_recv(&mut self, i: usize, m: Message) -> (r: Result<(), ChannelError>)
        requires
            old(self).wf(),
            i < old(self).channels_view().len(),
            m@.onward_route.len() > 0,
        ensures
            final(self).wf(),
            final(self).kex_factory() == old(self).kex_factory(),
            final(self).resp_key() == old(self).resp_key(),
            final(self).init_key() == old(self).init_key(),
            final(self).dual_mode() == old(self).dual_mode(),
            final(self).channels_view().len() == old(self).channels_view().len(),
            final(self).channels_view() == old(self).channels_view().update(
                i as int,
                final(self).channels_view()[i as int],
            ),
            final(self).outbox_view() == old(self).outbox_view() + final(self).outbox_view().skip(
                old(self).outbox_view().len() as int,
            ),
            Self::m2_step(
                old(self).channels_view()[i as int],
                old(self).vault_state(),
                final(self).vault_state(),
                m@,
                r,
                final(self).channels_view()[i as int],
                final(self).outbox_view().skip(old(self).outbox_view().len() as int),
            ),
    {
        let ghost mv = m@;
        let ghost pre_vec = self.channels@;
        let ghost pre_view = self.channels_view();
        let ghost pre_out = self.outbox_view();
        let ghost pre_ch = pre_view[i as int];
        proof {
            lemma_seq_update_same(pre_view, i as int);
            lemma_seq_skip_all(pre_out);
        }
        if m.return_route.addresses.len() == 0 {
            return Err(ChannelError::RecvError);
        }
        let mut ch = self.channels.remove(i);
        proof {
            assert(ch@ == pre_ch);
        }
        if ch.completed_key_exchange.is_some() {
            self.channels.insert(i, ch);
            proof {
                assert(self.channels@ =~= pre_vec);
            }
            return Err(ChannelError::State);
        }
        if ch.pending.is_none() {
            self.channels.insert(i, ch);
            proof {
                assert(self.channels@ =~= pre_vec);
            }
            return Err(ChannelError::NotImplemented);
        }
        let return_route = m.return_route.clone();
        match ch.agreement.process(m.message_body.as_slice()) {
            Ok(_) => {},
            Err(e) => {
                let ghost chv = ch@;
                self.channels.insert(i, ch);
                proof {
                    assert(self.channels_view() =~= pre_view.update(i as int, chv));
                    assert(chv == updated_agreement(pre_ch, chv.agreement));
                    lemma_update_preserves_wf(pre_view, i as int, chv);
                }
                return Err(e);
            },
        }
        let empty_input: Vec<u8> = Vec::new();
        let m3b = match ch.agreement.process(empty_input.as_slice()) {
            Ok(v) => v,
            Err(e) => {
                let ghost chv = ch@;
                self.channels.insert(i, ch);
                proof {
                    assert(empty_input@ =~= Seq::<u8>::empty());
                    assert(self.channels_view() =~= pre_view.update(i as int, chv));
                    assert(chv == updated_agreement(pre_ch, chv.agreement));
                    lemma_update_preserves_wf(pre_view, i as int, chv);
                }
                return Err(e);
            },
        };
        proof {
            assert(empty_input@ =~= Seq::<u8>::empty());
        }
        let cke = match ch.agreement.finalize() {
            Ok(c) => c,
            Err(e) => {
                let ghost chv = ch@;
                self.channels.insert(i, ch);
                proof {
                    assert(self.channels_view() =~= pre_view.update(i as int, chv));
                    assert(chv == updated_agreement(pre_ch, chv.agreement));
                    lemma_update_preserves_wf(pre_view, i as int, chv);
                }
                return Err(e);
            },
        };
        let head0 = m.onward_route.addresses[0].clone();
        let mut m3_return: Vec<RouterAddress> = Vec::new();
        m3_return.push(head0);
        let m3_msg = Message {
            onward_route: m.return_route,
            return_route: Route { addresses: m3_return },
            message_type: MessageType::KeyAgreementM3,
            message_body: m3b,
        };
        let ghost m3v = m3_msg@;
        self.outbox.push(OckamCommand::Router(RouterCommand::SendMessage(m3_msg)));
        let pending_opt = ch.pending;
        ch.pending = None;
        let mut p = match pending_opt {
            Some(p) => p,
            Option::None => {
                return Err(ChannelError::NotImplemented);
            },
        };
        let ghost pv = p@;
        p.return_route = return_route.clone();
        p.return_route.addresses.insert(
            0,
            RouterAddress::channel_router_address_from_u32(ch.cleartext_address),
        );
        p.message_body = crate::message::clone_bytes(&cke.remote_static_public_key.bytes);
        let ghost notifv = p@;
        self.outbox.push(OckamCommand::Router(RouterCommand::ReceiveMessage(p)));
        let ghost ckev = cke@;
        ch.completed_key_exchange = Some(cke);
        ch.route = return_route;
        let ghost chv = ch@;
        self.channels.insert(i, ch);
        proof {
            assert(self.channels_view() =~= pre_view.update(i as int, chv));
            assert(chv == finalized_channel(pre_ch, chv.agreement, ckev, mv.return_route));
            assert(self.outbox_view() =~= pre_out.push(
                OckamCommandView::Router(RouterCommandView::SendMessage(m3v)),
            ).push(OckamCommandView::Router(RouterCommandView::ReceiveMessage(notifv))));
            let emitted = self.outbox_view().skip(pre_out.len() as int);
            assert(emitted =~= seq![
                OckamCommandView::Router(RouterCommandView::SendMessage(m3v)),
                OckamCommandView::Router(RouterCommandView::ReceiveMessage(notifv)),
            ]);
            assert(pre_out + emitted =~= self.outbox_view());
            assert(m3v.return_route =~= seq![mv.onward_route[0]]);
            assert(m3v =~= m3_reply_view(mv, m3b@));
            assert(notifv.return_route =~= seq![channel_ra_view(pre_ch.cleartext_address)]
                + mv.return_route);
            assert(notifv =~= notify_view(
                pv,
                ckev.remote_static_public_key,
                mv.return_route,
                pre_ch.cleartext_address,
            ));
            assert(pv == pre_ch.pending->Some_0);
            lemma_update_preserves_wf(pre_view, i as int, chv);
        }
        Ok(())
    }

    /// Handles the third handshake message on the channel at position `i`.
    fn handle_m3_recv(&mut self, i: usize, m: Message) -> (r: Result<(), ChannelError>)
        requires
            old(self).wf(),
            i < old(self).channels_view().len(),
        ensures
            final(self).wf(),
            final(self).kex_factory() == old(self).kex_factory(),
            final(self).resp_key() == old(self).resp_key(),
            final(self).init_key() == old(self).init_key(),
            final(self).dual_mode() == old(self).dual_mode(),
            final(self).channels_view().len() == old(self).channels_view().len(),
            final(self).channels_view() == old(self).channels_view().update(
                i as int,
                final(self).channels_view()[i as int],
            ),
            final(self).outbox_view() == old(self).outbox_view() + final(self).outbox_view().skip(
                old(self).outbox_view().len() as int,
            ),
            Self::m3_step(
                old(self).channels_view()[i as int],
                old(self).vault_state(),
                final(self).vault_state(),
                m@,
                r,
                final(self).channels_view()[i as int],
                final(self).outbox_view().skip(old(self).outbox_view().len() as int),
            ),
    {
        let ghost mv = m@;
        let ghost pre_vec = self.channels@;
        let ghost pre_view = self.channels_view();
        let ghost pre_out = self.outbox_view();
        let ghost pre_ch = pre_view[i as int];
        proof {
            lemma_seq_update_same(pre_view, i as int);
            lemma_seq_skip_all(pre_out);
        }
        if m.return_route.addresses.len() == 0 {
            return Err(ChannelError::RecvError);
        }
        let mut ch = self.channels.remove(i);
        proof {
            assert(ch@ == pre_ch);
        }
        if ch.completed_key_exchange.is_some() {
            self.channels.insert(i, ch);
            proof {
                assert(self.channels@ =~= pre_vec);
            }
            return Ok(());
        }
        match ch.agreement.process(m.message_body.as_slice()) {
            Ok(_) => {},
            Err(e) => {
                let ghost chv = ch@;
                self.channels.insert(i, ch);
                proof {
                    assert(self.channels_view() =~= pre_view.update(i as int, chv));
                    assert(chv == updated_agreement(pre_ch, chv.agreement));
                    lemma_update_preserves_wf(pre_view, i as int, chv);
                }
                return Err(e);
            },
        }
        let cke = match ch.agreement.finalize() {
            Ok(c) => c,
            Err(e) => {
                let ghost chv = ch@;
                self.channels.insert(i, ch);
                proof {
                    assert(self.channels_view() =~= pre_view.update(i as int, chv));
                    assert(chv == updated_agreement(pre_ch, chv.agreement));
                    lemma_update_preserves_wf(pre_view, i as int, chv);
                }
                return Err(e);
            },
        };
        let return_route = m.return_route;
        let pending_opt = ch.pending;
        ch.pending = None;
        let notification = match pending_opt {
            Some(mut p) => {
                let ghost pv = p@;
                p.return_route = return_route.clone();
                p.return_route.addresses.insert(
                    0,
                    RouterAddress::channel_router_address_from_u32(ch.cleartext_address),
                );
                p.message_body = crate::message::clone_bytes(&cke.remote_static_public_key.bytes);
                proof {
                    assert(p@.return_route =~= seq![channel_ra_view(pre_ch.cleartext_address)]
                        + mv.return_route);
                    assert(p@ =~= notify_view(
                        pv,
                        cke@.remote_static_public_key,
                        mv.return_route,
                        pre_ch.cleartext_address,
                    ));
                }
                p
            },
            Option::None => {
                let mut synth_onward: Vec<RouterAddress> = Vec::new();
                synth_onward.push(RouterAddress::worker_router_address_from_u32(CHANNEL_ZERO));
                let mut synth_return = return_route.clone();
                synth_return.addresses.insert(
                    0,
                    RouterAddress::channel_router_address_from_u32(ch.cleartext_address),
                );
                let synth = Message {
                    onward_route: Route { addresses: synth_onward },
                    return_route: synth_return,
                    message_type: MessageType::Empty,
                    message_body: Vec::new(),
                };
                proof {
                    assert(synth@.onward_route =~= seq![worker_ra_view(CHANNEL_ZERO)]);
                    assert(synth@.return_route =~= seq![channel_ra_view(pre_ch.cleartext_address)]
                        + mv.return_route);
                    assert(synth@ =~= synth_notify_view(mv.return_route, pre_ch.cleartext_address));
                }
                synth
            },
        };
        let ghost notifv = notification@;
        self.outbox.push(OckamCommand::Router(RouterCommand::ReceiveMessage(notification)));
        let ghost ckev = cke@;
        ch.completed_key_exchange = Some(cke);
        ch.route = return_route;
        let ghost chv = ch@;
        self.channels.insert(i, ch);
        proof {
            assert(self.channels_view() =~= pre_view.update(i as int, chv));
            assert(chv == finalized_channel(pre_ch, chv.agreement, ckev, mv.return_route));
            assert(self.outbox_view() =~= pre_out.push(
                OckamCommandView::Router(RouterCommandView::ReceiveMessage(notifv)),
            ));
            let emitted = self.outbox_view().skip(pre_out.len() as int);
            assert(emitted =~= seq![
                OckamCommandView::Router(RouterCommandView::ReceiveMessage(notifv)),
            ]);
            assert(pre_out + emitted =~= self.outbox_view());
            lemma_update_preserves_wf(pre_view, i as int, chv);
        }
        Ok(())
    }

    /// Handles the first handshake message on the channel at position `i`.
    fn handle_m1_recv(&mut self, i: usize, m: Message) -> (r: Result<(), ChannelError>)
        requires
            old(self).wf(),
            i < old(self).channels_view().len(),
        ensures
            final(self).wf(),
            final(self).kex_factory() == old(self).kex_factory(),
            final(self).resp_key() == old(self).resp_key(),
            final(self).init_key() == old(self).init_key(),
            final(self).dual_mode() == old(self).dual_mode(),
            final(self).channels_view().len() == old(self).channels_view().len(),
            final(self).channels_view() == old(self).channels_view().update(
                i as int,
                final(self).channels_view()[i as int],
            ),
            final(self).outbox_view() == old(self).outbox_view() + final(self).outbox_view().skip(
                old(self).outbox_view().len() as int,
            ),
            Self::m1_step(
                old(self).channels_view()[i as int],
                old(self).vault_state(),
                final(self).vault_state(),
                m@,
                r,
                final(self).channels_view()[i as int],
                final(self).outbox_view().skip(old(self).outbox_view().len() as int),
            ),
    {
        let ghost pre_vec = self.channels@;
        let ghost pre_view = self.channels_view();
        let ghost pre_out = self.outbox_view();
        let ghost pre_ch = pre_view[i as int];
        let mut ch = self.channels.remove(i);
        proof {
            assert(ch@ == pre_ch);
        }
        if ch.completed_key_exchange.is_some() {
            self.channels.insert(i, ch);
            proof {
                assert(self.channels@ =~= pre_vec);
                lemma_seq_update_same(pre_view, i as int);
                lemma_seq_skip_all(pre_out);
            }
            return Err(ChannelError::State);
        }
        match ch.agreement.process(m.message_body.as_slice()) {
            Ok(_) => {},
            Err(e) => {
                let ghost chv = ch@;
                self.channels.insert(i, ch);
                proof {
                    assert(self.channels@ =~= pre_vec.update(i as int, self.channels@[i as int]));
                    assert(self.channels_view() =~= pre_view.update(i as int, chv));
                    assert(chv == updated_agreement(pre_ch, chv.agreement));
                    lemma_seq_skip_all(pre_out);
                    lemma_update_preserves_wf(pre_view, i as int, chv);
                }
                return Err(e);
            },
        }
        let empty_input: Vec<u8> = Vec::new();
        let m2b = match ch.agreement.process(empty_input.as_slice()) {
            Ok(v) => v,
            Err(e) => {
                let ghost chv = ch@;
                self.channels.insert(i, ch);
                proof {
                    assert(empty_input@ =~= Seq::<u8>::empty());
                    assert(self.channels_view() =~= pre_view.update(i as int, chv));
                    assert(chv == updated_agreement(pre_ch, chv.agreement));
                    lemma_seq_skip_all(pre_out);
                    lemma_update_preserves_wf(pre_view, i as int, chv);
                }
                return Err(e);
            },
        };
        proof {
            assert(empty_input@ =~= Seq::<u8>::empty());
        }
        let mut reply_return: Vec<RouterAddress> = Vec::new();
        reply_return.push(RouterAddress::channel_router_address_from_u32(ch.ciphertext_address));
        let reply = Message {
            onward_route: m.return_route,
            return_route: Route { addresses: reply_return },
            message_type: MessageType::KeyAgreementM2,
            message_body: m2b,
        };
        let ghost replyv = reply@;
        self.outbox.push(OckamCommand::Router(RouterCommand::SendMessage(reply)));
        let ghost chv = ch@;
        self.channels.insert(i, ch);
        proof {
            assert(self.channels_view() =~= pre_view.update(i as int, chv));
            assert(chv == updated_agreement(pre_ch, chv.agreement));
            assert(self.outbox_view() =~= pre_out.push(
                OckamCommandView::Router(RouterCommandView::SendMessage(replyv)),
            ));
            let emitted = self.outbox_view().skip(pre_out.len() as int);
            assert(emitted =~= seq![
                OckamCommandView::Router(RouterCommandView::SendMessage(replyv)),
            ]);
            assert(pre_out + emitted =~= self.outbox_view());
            assert(replyv.return_route =~= seq![channel_ra_view(pre_ch.ciphertext_address)]);
            assert(replyv =~= m2_reply_view(m@, pre_ch.ciphertext_address, m2b@));
            lemma_update_preserves_wf(pre_view, i as int, chv);
        }
        Ok(())
    }

    /// Handles an inbound wire payload on the channel at position `i`.
    fn handle_payload_recv(&mut self, i: usize, m: Message) -> (r: Result<(), ChannelError>)
        requires
            old(self).wf(),
            i < old(self).channels_view().len(),
        ensures
            final(self).wf(),
            final(self).kex_factory() == old(self).kex_factory(),
            final(self).resp_key() == old(self).resp_key(),
            final(self).init_key() == old(self).init_key(),
            final(self).dual_mode() == old(self).dual_mode(),
            final(self).channels_view().len() == old(self).channels_view().len(),
            final(self).channels_view() == old(self).channels_view().update(
                i as int,
                final(self).channels_view()[i as int],
            ),
            final(self).outbox_view() == old(self).outbox_view() + final(self).outbox_view().skip(
                old(self).outbox_view().len() as int,
            ),
            final(self).dual_mode() == old(self).dual_mode(),
            Self::payload_step(
                old(self).channels_view()[i as int],
                old(self).vault_state(),
                final(self).vault_state(),
                old(self).dual_mode(),
                m@,
                r,
                final(self).channels_view()[i as int],
                final(self).outbox_view().skip(old(self).outbox_view().len() as int),
            ),
    {
        let ghost pre_vec = self.channels@;
        let ghost pre_view = self.channels_view();
        let ghost pre_out = self.outbox_view();
        let ghost pre_ch = pre_view[i as int];
        let mut ch = self.channels.remove(i);
        proof {
            assert(ch@ == pre_ch);
            lemma_seq_update_same(pre_view, i as int);
            lemma_seq_skip_all(pre_out);
        }
        if ch.completed_key_exchange.is_none() {
            self.channels.insert(i, ch);
            proof {
                assert(self.channels@ =~= pre_vec);
            }
            return Ok(());
        }
        if m.message_body.len() < 2 {
            self.channels.insert(i, ch);
            proof {
                assert(self.channels@ =~= pre_vec);
            }
            return Err(ChannelError::RecvError);
        }
        let counter = if self.dual_counter {
            ch.recv_nonce
        } else {
            ch.nonce
        };
        if counter == 0xFFFF {
            self.channels.insert(i, ch);
            proof {
                assert(self.channels@ =~= pre_vec);
            }
            return Err(ChannelError::State);
        }
        let (n16, ct) = match crate::codec::split_u16_le(&m.message_body) {
            Some(p) => p,
            Option::None => {
                self.channels.insert(i, ch);
                proof {
                    assert(self.channels@ =~= pre_vec);
                }
                return Err(ChannelError::RecvError);
            },
        };
        let nonce96 = Channel::<Agreement<I, R>>::nonce_16_to_96(n16);
        let dec_result = match &ch.completed_key_exchange {
            Some(cke) => self.vault.aead_aes_gcm_decrypt(
                cke.decrypt_key,
                ct.as_slice(),
                nonce96.as_slice(),
                cke.h.as_slice(),
            ),
            Option::None => {
                return Err(ChannelError::State);
            },
        };
        let pt = match dec_result {
            Ok(v) => v,
            Err(_) => {
                self.channels.insert(i, ch);
                proof {
                    assert(self.channels@ =~= pre_vec);
                }
                return Err(ChannelError::RecvError);
            },
        };
        let new_m = match Message::decode(&pt) {
            Ok(d) => d,
            Err(_) => {
                self.channels.insert(i, ch);
                proof {
                    assert(self.channels@ =~= pre_vec);
                }
                return Err(ChannelError::RecvError);
            },
        };
        let ghost new_mv = new_m@;
        if self.dual_counter {
            ch.recv_nonce = ch.recv_nonce + 1;
        } else {
            ch.nonce = ch.nonce + 1;
        }
        self.outbox.push(OckamCommand::Router(RouterCommand::ReceiveMessage(new_m)));
        let ghost chv = ch@;
        self.channels.insert(i, ch);
        proof {
            assert(self.channels_view() =~= pre_view.update(i as int, chv));
            assert(chv == (if old(self).dual_mode() {
                stepped_recv_nonce(pre_ch)
            } else {
                stepped_nonce(pre_ch)
            }));
            assert(self.outbox_view() =~= pre_out.push(
                OckamCommandView::Router(RouterCommandView::ReceiveMessage(new_mv)),
            ));
            let emitted = self.outbox_view().skip(pre_out.len() as int);
            assert(emitted =~= seq![
                OckamCommandView::Router(RouterCommandView::ReceiveMessage(new_mv)),
            ]);
            assert(pre_out + emitted =~= self.outbox_view());
            lemma_update_preserves_wf(pre_view, i as int, chv);
        }
        Ok(())
    }

    /// One inbound message's effect on the channel it is dispatched to, by
    /// message type; a type outside the handshake and payload set is refused.
    pub open spec fn dispatch_step(
        ch: ChannelView<Agreement<I, R>>,
        vpre: V,
        vpost: V,
        dual: bool,
        m: MessageView,
        r: Result<(), ChannelError>,
        ch2: ChannelView<Agreement<I, R>>,
        emitted: Seq<OckamCommandView>,
    ) -> bool {
        match m.message_type {
            MessageType::KeyAgreementM1 => Self::m1_step(ch, vpre, vpost, m, r, ch2, emitted),
            MessageType::KeyAgreementM2 => Self::m2_step(ch, vpre, vpost, m, r, ch2, emitted),
            MessageType::KeyAgreementM3 => Self::m3_step(ch, vpre, vpost, m, r, ch2, emitted),
            MessageType::Payload => Self::payload_step(ch, vpre, vpost, dual, m, r, ch2, emitted),
            MessageType::Empty => {
                &&& r == Err::<(), ChannelError>(ChannelError::NotImplemented)
                &&& ch2 == ch
                &&& emitted == Seq::<OckamCommandView>::empty()
                &&& vpost == vpre
            },
        }
    }

    /// An inbound message whose head was the wire sentinel: a fresh
    /// responder-role channel under fresh identifiers, and the message
    /// dispatched to it.
    pub open spec fn recv_created(
        pre: Self,
        post: Self,
        m: MessageView,
        r: Result<(), ChannelError>,
        clear: u32,
        cipher: u32,
    ) -> bool {
        let a = Agreement::<I, R>::Responder(pre.kex_factory().responder_spec(pre.resp_key()));
        let mid = pre.channels_view().push(fresh_channel(clear, cipher, a));
        let iz = pre.channels_view().len() as int;
        &&& clear != 0 && cipher != 0 && clear != cipher
        &&& key_unused(pre.channels_view(), clear)
        &&& key_unused(pre.channels_view(), cipher)
        &&& post.channels_view().len() == mid.len()
        &&& post.channels_view() == mid.update(iz, post.channels_view()[iz])
        &&& post.outbox_view() == pre.outbox_view() + post.outbox_view().skip(
            pre.outbox_view().len() as int,
        )
        &&& Self::dispatch_step(
            fresh_channel(clear, cipher, a),
            pre.vault_state(),
            post.vault_state(),
            pre.dual_mode(),
            m,
            r,
            post.channels_view()[iz],
            post.outbox_view().skip(pre.outbox_view().len() as int),
        )
    }

    /// What the receive path does: a message without an onward route is
    /// refused; a head address that is not a four-byte identifier, or that
    /// matches no channel, is silently dropped; the wire sentinel allocates
    /// a fresh responder channel (or fails `State`); otherwise the message
    /// is dispatched to the channel the head address names.
    pub open spec fn recv_post(
        pre: Self,
        post: Self,
        m: MessageView,
        r: Result<(), ChannelError>,
    ) -> bool {
        if m.onward_route.len() == 0 {
            &&& r == Err::<(), ChannelError>(ChannelError::RecvError)
            &&& Self::unchanged_tables(pre, post)
            &&& post.vault_state() == pre.vault_state()
        } else {
            match addr_key(m.onward_route[0]) {
                Option::None => {
                    &&& r == Ok::<(), ChannelError>(())
                    &&& Self::unchanged_tables(pre, post)
                    &&& post.vault_state() == pre.vault_state()
                },
                Some(k0) => if k0 != CHANNEL_ZERO {
                    match first_match(pre.channels_view(), k0) {
                        Option::None => {
                            &&& r == Ok::<(), ChannelError>(())
                            &&& Self::unchanged_tables(pre, post)
                            &&& post.vault_state() == pre.vault_state()
                        },
                        Some(i) => {
                            &&& post.channels_view().len() == pre.channels_view().len()
                            &&& post.channels_view() == pre.channels_view().update(
                                i,
                                post.channels_view()[i],
                            )
                            &&& post.outbox_view() == pre.outbox_view()
                                + post.outbox_view().skip(pre.outbox_view().len() as int)
                            &&& Self::dispatch_step(
                                pre.channels_view()[i],
                                pre.vault_state(),
                                post.vault_state(),
                                pre.dual_mode(),
                                m,
                                r,
                                post.channels_view()[i],
                                post.outbox_view().skip(pre.outbox_view().len() as int),
                            )
                        },
                    }
                } else {
                    ||| {
                        &&& r == Err::<(), ChannelError>(ChannelError::State)
                        &&& Self::unchanged_tables(pre, post)
                        &&& post.vault_state() == pre.vault_state()
                    }
                    ||| exists|clear: u32, cipher: u32|
                        Self::recv_created(pre, post, m, r, clear, cipher)
                },
            }
        }
    }

    /// The inbound path: dispatches a received message to the channel its
    /// head address names, allocating a responder channel when the head is
    /// the wire sentinel.
    fn handle_recv(&mut self, m: Message) -> (r: Result<(), ChannelError>)
        requires
            old(self).wf(),
        ensures
            final(self).wf(),
            final(self).kex_factory() == old(self).kex_factory(),
            final(self).resp_key() == old(self).resp_key(),
            final(self).init_key() == old(self).init_key(),
            final(self).dual_mode() == old(self).dual_mode(),
            Self::recv_post(*old(self), *final(self), m@, r),
    {
        let ghost mv = m@;
        if m.onward_route.addresses.len() == 0 {
            return Err(ChannelError::RecvError);
        }
        let head = &m.onward_route.addresses[0];
        proof {
            assert(mv.onward_route[0] == head@);
        }
        let key0 = match crate::message::le_vec_to_u32(head.address.bytes_ref()) {
            Some(k) => k,
            Option::None => {
                proof {
                    assert(addr_key(mv.onward_route[0]) is None);
                }
                return Ok(());
            },
        };
        proof {
            assert(addr_key(mv.onward_route[0]) == Some(key0));
        }
        if key0 == CHANNEL_ZERO {
            let (clear, cipher) = match self.create_channel(ExchangerRole::Responder) {
                Some(ids) => ids,
                Option::None => {
                    return Err(ChannelError::State);
                },
            };
            let ghost mid = *self;
            proof {
                assert(self.channels@.len() == self.channels_view().len());
                assert(self.channels_view().len() >= 1);
            }
            let i = self.channels.len() - 1;
            proof {
                assert(mid.channels_view().len() == old(self).channels_view().len() + 1);
                assert(i as int == old(self).channels_view().len());
                assert(mid.channels_view()[i as int] == fresh_channel(
                    clear,
                    cipher,
                    Agreement::<I, R>::Responder(
                        old(self).kex_factory().responder_spec(old(self).resp_key()),
                    ),
                ));
            }
            let res = match m.message_type {
                MessageType::KeyAgreementM1 => self.handle_m1_recv(i, m),
                MessageType::KeyAgreementM2 => self.handle_m2_recv(i, m),
                MessageType::KeyAgreementM3 => self.handle_m3_recv(i, m),
                MessageType::Payload => self.handle_payload_recv(i, m),
                MessageType::Empty => {
                    proof {
                        lemma_seq_update_same(mid.channels_view(), i as int);
                        lemma_seq_skip_all(mid.outbox_view());
                    }
                    Err(ChannelError::NotImplemented)
                },
            };
            proof {
                assert(Self::recv_created(*old(self), *self, mv, res, clear, cipher));
            }
            res
        } else {
            let i = match self.find_channel(key0) {
                Some(i) => i,
                Option::None => {
                    return Ok(());
                },
            };
            match m.message_type {
                MessageType::KeyAgreementM1 => self.handle_m1_recv(i, m),
                MessageType::KeyAgreementM2 => self.handle_m2_recv(i, m),
                MessageType::KeyAgreementM3 => self.handle_m3_recv(i, m),
                MessageType::Payload => self.handle_payload_recv(i, m),
                MessageType::Empty => {
                    proof {
                        lemma_seq_update_same(old(self).channels_view(), i as int);
                        lemma_seq_skip_all(old(self).outbox_view());
                    }
                    Err(ChannelError::NotImplemented)
                },
            }
        }
    }

    /// One command's effect on the manager, case by case. An initiate
    /// installs the command's key context, peels one leading wire sentinel
    /// off the route, and opens a channel; a stop clears the channel table
    /// and ends the drain; send and receive follow their paths; a command
    /// addressed to anything else is invalid.
    #[verifier::opaque]
    pub open spec fn command_post(
        pre: Self,
        post: Self,
        cmd: OckamCommandView,
        r: Result<bool, ChannelError>,
    ) -> bool {
        match cmd {
            OckamCommandView::Channel(c) => match c {
                ChannelCommandView::Initiate(route, ret, key) => {
                    &&& post.init_key() == key
                    &&& post.resp_key() == pre.resp_key()
                    &&& post.kex_factory() == pre.kex_factory()
                    &&& post.vault_state() == pre.vault_state()
                    &&& match r {
                        Ok(b) => b == true && exists|addr: AddrView, clear: u32, cipher: u32|
                            Self::initiate_ok(
                                pre,
                                post,
                                peeled_route(route),
                                ret,
                                addr,
                                clear,
                                cipher,
                                key,
                            ),
                        Err(e) => {
                            ||| {
                                &&& e == ChannelError::CantSend
                                &&& ret.bytes().len() > 255
                                &&& Self::unchanged_tables(pre, post)
                            }
                            ||| {
                                &&& e == ChannelError::State
                                &&& Self::unchanged_tables(pre, post)
                            }
                            ||| exists|clear: u32, cipher: u32, a: Agreement<I, R>|
                                Self::initiate_started(pre, post, ret, clear, cipher, a)
                        },
                    }
                },
                ChannelCommandView::Stop => {
                    &&& r == Ok::<bool, ChannelError>(false)
                    &&& post.channels_view() == Seq::<ChannelView<Agreement<I, R>>>::empty()
                    &&& post.outbox_view() == pre.outbox_view()
                    &&& post.vault_state() == pre.vault_state()
                    &&& post.kex_factory() == pre.kex_factory()
                    &&& post.resp_key() == pre.resp_key()
                    &&& post.init_key() == pre.init_key()
                },
                ChannelCommandView::SendMessage(m) => {
                    &&& post.kex_factory() == pre.kex_factory()
                    &&& post.resp_key() == pre.resp_key()
                    &&& post.init_key() == pre.init_key()
                    &&& Self::send_post(pre, post, m, unit_result(r))
                    &&& (r is Ok ==> r == Ok::<bool, ChannelError>(true))
                },
                ChannelCommandView::ReceiveMessage(m) => {
                    &&& post.kex_factory() == pre.kex_factory()
                    &&& post.resp_key() == pre.resp_key()
                    &&& post.init_key() == pre.init_key()
                    &&& Self::recv_post(pre, post, m, unit_result(r))
                    &&& (r is Ok ==> r == Ok::<bool, ChannelError>(true))
                },
            },
            OckamCommandView::Router(_) => {
                &&& r == Err::<bool, ChannelError>(ChannelError::InvalidParam(0))
                &&& Self::unchanged_tables(pre, post)
                &&& post.vault_state() == pre.vault_state()
                &&& post.kex_factory() == pre.kex_factory()
                &&& post.resp_key() == pre.resp_key()
                &&& post.init_key() == pre.init_key()
            },
        }
    }

    /// Handles one inbound command. Yields `true` when the host should keep
    /// draining its queue and `false` after a stop.
    #[verifier::rlimit(100)]
    #[verifier::spinoff_prover]
    pub fn handle_command(&mut self, cmd: OckamCommand) -> (r: Result<bool, ChannelError>)
        requires
            old(self).wf(),
        ensures
            final(self).wf(),
            final(self).dual_mode() == old(self).dual_mode(),
            Self::command_post(*old(self), *final(self), cmd@, r),
    {
        let ghost cmdv = cmd@;
        match cmd {
            OckamCommand::Channel(ChannelCommand::Initiate(route, return_address, key)) => {
                let ghost route_in = route@;
                let mut route = route;
                let mut do_peel = false;
                if route.addresses.len() > 0 {
                    let head = &route.addresses[0];
                    let is_channel = match head.a_type {
                        AddressType::Channel => true,
                        AddressType::Worker => false,
                    };
                    if is_channel {
                        let hb = head.address.bytes_ref();
                        if hb.len() == 4 && hb[0] == 0 && hb[1] == 0 && hb[2] == 0 && hb[3] == 0 {
                            do_peel = true;
                            proof {
                                assert(head@.address.bytes() =~= u32_le_bytes(CHANNEL_ZERO));
                            }
                        } else {
                            proof {
                                assert(head@.address.bytes() != u32_le_bytes(CHANNEL_ZERO));
                            }
                        }
                    }
                }
                if do_peel {
                    route.addresses.remove(0);
                    proof {
                        assert(route@ =~= peeled_route(route_in));
                    }
                } else {
                    proof {
                        assert(route@ =~= peeled_route(route_in));
                    }
                }
                self.init_key_ctx = key;
                let ghost mid = *self;
                let ghost peeled = route@;
                match self.initiate_new_channel(route, return_address) {
                    Ok(a) => {
                        proof {
                            reveal(ChannelManager::command_post);
                            let (clear, cipher) = choose|clear: u32, cipher: u32|
                                Self::initiate_ok(
                                    mid,
                                    *self,
                                    peeled,
                                    return_address@,
                                    a@,
                                    clear,
                                    cipher,
                                    mid.init_key(),
                                );
                            assert(Self::initiate_ok(
                                *old(self),
                                *self,
                                peeled_route(route_in),
                                return_address@,
                                a@,
                                clear,
                                cipher,
                                key,
                            ));
                            assert(cmdv matches OckamCommandView::Channel(
                                ChannelCommandView::Initiate(r0, ret0, k0),
                            ) && r0 == route_in && ret0 == return_address@ && k0 == key);
                            assert(Self::command_post(*old(self), *self, cmdv, Ok(true)));
                        }
                        return Ok(true);
                    },
                    Err(e) => {
                        proof {
                            if exists|clear: u32, cipher: u32, a: Agreement<I, R>|
                                Self::initiate_started(
                                    mid,
                                    *self,
                                    return_address@,
                                    clear,
                                    cipher,
                                    a,
                                ) {
                                let (clear, cipher, a) = choose|
                                    clear: u32,
                                    cipher: u32,
                                    a: Agreement<I, R>,
                                |
                                    Self::initiate_started(
                                        mid,
                                        *self,
                                        return_address@,
                                        clear,
                                        cipher,
                                        a,
                                    );
                                assert(Self::initiate_started(
                                    *old(self),
                                    *self,
                                    return_address@,
                                    clear,
                                    cipher,
                                    a,
                                ));
                            }
                            assert(Self::command_post(*old(self), *self, cmdv, Err(e))) by {
                                reveal(ChannelManager::command_post);
                            }
                        }
                        return Err(e);
                    },
                }
            },
            OckamCommand::Channel(ChannelCommand::Stop) => {
                self.channels.clear();
                proof {
                    assert(self.channels_view() =~= Seq::<ChannelView<Agreement<I, R>>>::empty());
                    assert(Self::command_post(*old(self), *self, cmdv, Ok(false))) by {
                        reveal(ChannelManager::command_post);
                    }
                }
                return Ok(false);
            },
            OckamCommand::Channel(ChannelCommand::SendMessage(m)) => {
                let ghost mv = m@;
                match self.handle_send(m) {
                    Ok(()) => {
                        proof {
                            assert(unit_result(Ok::<bool, ChannelError>(true)) == Ok::<(), ChannelError>(()));
                            assert(Self::command_post(*old(self), *self, cmdv, Ok(true))) by {
                                reveal(ChannelManager::command_post);
                            }
                        }
                        return Ok(true);
                    },
                    Err(e) => {
                        proof {
                            assert(unit_result(Err::<bool, ChannelError>(e)) == Err::<(), ChannelError>(e));
                            assert(Self::command_post(*old(self), *self, cmdv, Err(e))) by {
                                reveal(ChannelManager::command_post);
                            }
                        }
                        return Err(e);
                    },
                }
            },
            OckamCommand::Channel(ChannelCommand::ReceiveMessage(m)) => {
                let ghost mv = m@;
                match self.handle_recv(m) {
                    Ok(()) => {
                        proof {
                            assert(unit_result(Ok::<bool, ChannelError>(true)) == Ok::<(), ChannelError>(()));
                            assert(Self::command_post(*old(self), *self, cmdv, Ok(true))) by {
                                reveal(ChannelManager::command_post);
                            }
                        }
                        return Ok(true);
                    },
                    Err(e) => {
                        proof {
                            assert(unit_result(Err::<bool, ChannelError>(e)) == Err::<(), ChannelError>(e));
                            assert(Self::command_post(*old(self), *self, cmdv, Err(e))) by {
                                reveal(ChannelManager::command_post);
                            }
                        }
                        return Err(e);
                    },
                }
            },
            OckamCommand::Router(_) => {
                proof {
                    assert(Self::command_post(
                        *old(self),
                        *self,
                        cmdv,
                        Err(ChannelError::InvalidParam(0)),
                    )) by {
                        reveal(ChannelManager::command_post);
                    }
                }
                return Err(ChannelError::InvalidParam(0));
            },
        }
    }

    /// The manager walked the commands in order, each step following
    /// [`Self::command_post`] and continuing.
    pub open spec fn stepped_through(pre: Self, post: Self, cmds: Seq<OckamCommandView>) -> bool
        decreases cmds.len(),
    {
        if cmds.len() == 0 {
            post == pre
        } else {
            exists|mid: Self|
                {
                    &&& #[trigger] Self::command_post(pre, mid, cmds[0], Ok(true))
                    &&& Self::stepped_through(mid, post, cmds.drop_first())
                }
        }
    }

    /// What a whole drain does: commands are handled in order, each step
    /// following [`Self::command_post`]; the first error ends the drain and
    /// is returned; a stop ends it with `true`, discarding what follows; and
    /// a drain that runs out of commands yields `true`.
    pub open spec fn drained(
        pre: Self,
        post: Self,
        cmds: Seq<OckamCommandView>,
        r: Result<bool, ChannelError>,
    ) -> bool
        decreases cmds.len(),
    {
        if cmds.len() == 0 {
            r == Ok::<bool, ChannelError>(true) && post == pre
        } else {
            exists|mid: Self, r0: Result<bool, ChannelError>|
                {
                    &&& #[trigger] Self::command_post(pre, mid, cmds[0], r0)
                    &&& match r0 {
                        Ok(true) => Self::drained(mid, post, cmds.drop_first(), r),
                        Ok(false) => r == Ok::<bool, ChannelError>(true) && post == mid,
                        Err(e) => r == Err::<bool, ChannelError>(e) && post == mid,
                    }
                }
        }
    }

    /// A walk followed by a drain is a drain of the concatenation.
    proof fn lemma_drained_compose(
        pre: Self,
        mid: Self,
        post: Self,
        p: Seq<OckamCommandView>,
        suffix: Seq<OckamCommandView>,
        r: Result<bool, ChannelError>,
    )
        requires
            Self::stepped_through(pre, mid, p),
            Self::drained(mid, post, suffix, r),
        ensures
            Self::drained(pre, post, p + suffix, r),
        decreases p.len(),
    {
        if p.len() == 0 {
            assert(p + suffix =~= suffix);
        } else {
            let m1 = choose|m1: Self|
                {
                    &&& #[trigger] Self::command_post(pre, m1, p[0], Ok(true))
                    &&& Self::stepped_through(m1, mid, p.drop_first())
                };
            Self::lemma_drained_compose(m1, mid, post, p.drop_first(), suffix, r);
            assert((p + suffix).drop_first() =~= p.drop_first() + suffix);
            assert((p + suffix)[0] == p[0]);
        }
    }

    /// One more continuing step extends a walk.
    proof fn lemma_stepped_snoc(
        pre: Self,
        mid: Self,
        post: Self,
        p: Seq<OckamCommandView>,
        c: OckamCommandView,
    )
        requires
            Self::stepped_through(pre, mid, p),
            Self::command_post(mid, post, c, Ok(true)),
        ensures
            Self::stepped_through(pre, post, p.push(c)),
        decreases p.len(),
    {
        if p.len() == 0 {
            assert(p.push(c).drop_first() =~= Seq::<OckamCommandView>::empty());
            assert(p.push(c)[0] == c);
            assert(Self::command_post(pre, post, p.push(c)[0], Ok(true)));
            assert(Self::stepped_through(post, post, p.push(c).drop_first()));
        } else {
            let m1 = choose|m1: Self|
                {
                    &&& #[trigger] Self::command_post(pre, m1, p[0], Ok(true))
                    &&& Self::stepped_through(m1, mid, p.drop_first())
                };
            Self::lemma_stepped_snoc(m1, mid, post, p.drop_first(), c);
            assert(p.push(c).drop_first() =~= p.drop_first().push(c));
            assert(p.push(c)[0] == p[0]);
            assert(Self::command_post(pre, m1, p.push(c)[0], Ok(true)));
            assert(Self::stepped_through(m1, post, p.push(c).drop_first()));
        }
    }

    /// Drains a batch of inbound commands in arrival order. Processing stops
    /// at the first error, which is returned, or after a stop command, whose
    /// later batch-mates are discarded; otherwise every command is handled
    /// and `true` says the host should keep scheduling.
    pub fn poll(&mut self, commands: Vec<OckamCommand>) -> (r: Result<bool, ChannelError>)
        requires
            old(self).wf(),
        ensures
            final(self).wf(),
            final(self).dual_mode() == old(self).dual_mode(),
            r matches Ok(b) ==> b == true,
            Self::drained(*old(self), *final(self), cmd_views(commands@), r),
    {
        let ghost all = cmd_views(commands@);
        let ghost mut done = Seq::<OckamCommandView>::empty();
        let mut queue = commands;
        proof {
            assert(all =~= done + cmd_views(queue@));
        }
        #[verifier::loop_isolation(false)]
        while queue.len() > 0
            invariant
                self.wf(),
                self.dual_mode() == old(self).dual_mode(),
                Self::stepped_through(*old(self), *self, done),
                all == done + cmd_views(queue@),
            decreases queue@.len(),
        {
            let ghost pre_iter = *self;
            let ghost rest_pre = cmd_views(queue@);
            let cmd = queue.remove(0);
            let ghost cv = cmd@;
            proof {
                assert(rest_pre[0] == cv);
                assert(cmd_views(queue@) =~= rest_pre.drop_first());
            }
            match self.handle_command(cmd) {
                Ok(true) => {
                    proof {
                        Self::lemma_stepped_snoc(*old(self), pre_iter, *self, done, cv);
                        done = done.push(cv);
                        assert(all =~= done + cmd_views(queue@));
                    }
                },
                Ok(false) => {
                    proof {
                        assert(Self::command_post(pre_iter, *self, rest_pre[0], Ok(false)));
                        assert(Self::drained(pre_iter, *self, rest_pre, Ok(true)));
                        Self::lemma_drained_compose(
                            *old(self),
                            pre_iter,
                            *self,
                            done,
                            rest_pre,
                            Ok(true),
                        );
                        assert(done + rest_pre =~= all);
                    }
                    return Ok(true);
                },
                Err(e) => {
                    proof {
                        assert(Self::command_post(pre_iter, *self, rest_pre[0], Err(e)));
                        assert(Self::drained(pre_iter, *self, rest_pre, Err(e)));
                        Self::lemma_drained_compose(
                            *old(self),
                            pre_iter,
                            *self,
                            done,
                            rest_pre,
                            Err(e),
                        );
                        assert(done + rest_pre =~= all);
                    }
                    return Err(e);
                },
            }
        }
        proof {
            assert(cmd_views(queue@) =~= Seq::<OckamCommandView>::empty());
            assert(done =~= all);
            assert(Self::drained(*self, *self, Seq::<OckamCommandView>::empty(), Ok(true)));
            Self::lemma_drained_compose(
                *old(self),
                *self,
                *self,
                done,
                Seq::<OckamCommandView>::empty(),
                Ok(true),
            );
            assert(done + Seq::<OckamCommandView>::empty() =~= all);
        }
        Ok(true)
    }

    /// Hands the emitted router commands to the host, in emission order,
    /// leaving the outbox empty.
    pub fn take_outbox(&mut self) -> (r: Vec<OckamCommand>)
        ensures
            r@.map_values(|c: OckamCommand| c@) == old(self).outbox_view(),
            final(self).outbox_view() == Seq::<OckamCommandView>::empty(),
            final(self).channels_view() == old(self).channels_view(),
            final(self).vault_state() == old(self).vault_state(),
            final(self).kex_factory() == old(self).kex_factory(),
            final(self).resp_key() == old(self).resp_key(),
            final(self).init_key() == old(self).init_key(),
            final(self).dual_mode() == old(self).dual_mode(),
            old(self).wf() ==> final(self).wf(),
    {
        let mut out: Vec<OckamCommand> = Vec::new();
        core::mem::swap(&mut out, &mut self.outbox);
        proof {
            assert(self.outbox_view() =~= Seq::<OckamCommandView>::empty());
        }
        out
    }

    /// The number of channels currently installed.
    pub fn channel_count(&self) -> (r: usize)
        ensures
            r == self.channels_view().len(),
    {
        proof {
            assert(self.channels@.len() == self.channels_view().len());
        }
        self.channels.len()
    }

    /// The two identifiers of the channel at a position: cleartext first,
    /// then ciphertext.
    pub fn channel_addresses(&self, i: usize) -> (r: (u32, u32))
        requires
            i < self.channels_view().len(),
        ensures
            r.0 == self.channels_view()[i as int].cleartext_address,
            r.1 == self.channels_view()[i as int].ciphertext_address,
    {
        proof {
            assert(self.channels@.len() == self.channels_view().len());
        }
        let c = &self.channels[i];
        proof {
            assert(self.channels_view()[i as int] == c@);
        }
        (c.cleartext_address, c.ciphertext_address)
    }

    /// Whether the channel the identifier names has finalized its handshake;
    /// nothing when no channel answers to it.
    pub fn channel_is_complete(&self, key: u32) -> (r: Option<bool>)
        ensures
            match r {
                Some(b) => first_match(self.channels_view(), key) matches Some(i) && b == (
                self.channels_view()[i].completed_key_exchange is Some),
                Option::None => first_match(self.channels_view(), key) is None,
            },
    {
        let i = match self.find_channel(key) {
            Some(i) => i,
            Option::None => {
                return None;
            },
        };
        proof {
            assert(self.channels@.len() == self.channels_view().len());
        }
        let c = &self.channels[i];
        proof {
            assert(self.channels_view()[i as int] == c@);
        }
        Some(c.completed_key_exchange.is_some())
    }

    /// The counter of the channel the identifier names; nothing when no
    /// channel answers to it.
    pub fn channel_nonce(&self, key: u32) -> (r: Option<u16>)
        ensures
            match r {
                Some(n) => first_match(self.channels_view(), key) matches Some(i) && n
                    == self.channels_view()[i].nonce,
                Option::None => first_match(self.channels_view(), key) is None,
            },
    {
        let i = match self.find_channel(key) {
            Some(i) => i,
            Option::None => {
                return None;
            },
        };
        proof {
            assert(self.channels@.len() == self.channels_view().len());
        }
        let c = &self.channels[i];
        proof {
            assert(self.channels_view()[i as int] == c@);
        }
        Some(c.nonce)
    }

    /// Switches the corrected dual-counter mode on or off: with it on,
    /// inbound payloads count on each channel's own inbound counter instead
    /// of the counter shared with the outbound direction.
    pub fn set_dual_counter_mode(&mut self, on: bool)
        ensures
            final(self).dual_mode() == on,
            final(self).channels_view() == old(self).channels_view(),
            final(self).outbox_view() == old(self).outbox_view(),
            final(self).vault_state() == old(self).vault_state(),
            final(self).kex_factory() == old(self).kex_factory(),
            final(self).resp_key() == old(self).resp_key(),
            final(self).init_key() == old(self).init_key(),
            old(self).wf() ==> final(self).wf(),
    {
        self.dual_counter = on;
    }

    /// The inbound counter of the channel the identifier names; nothing when
    /// no channel answers to it.
    pub fn channel_recv_nonce(&self, key: u32) -> (r: Option<u16>)
        ensures
            match r {
                Some(n) => first_match(self.channels_view(), key) matches Some(i) && n
                    == self.channels_view()[i].recv_nonce,
                Option::None => first_match(self.channels_view(), key) is None,
            },
    {
        let i = match self.find_channel(key) {
            Some(i) => i,
            Option::None => {
                return None;
            },
        };
        proof {
            assert(self.channels@.len() == self.channels_view().len());
        }
        let c = &self.channels[i];
        proof {
            assert(self.channels_view()[i as int] == c@);
        }
        Some(c.recv_nonce)
    }

    /// The number of hops in the stored peer route of the channel the
    /// identifier names; nothing when no channel answers to it.
    pub fn channel_route_len(&self, key: u32) -> (r: Option<usize>)
        ensures
            match r {
                Some(n) => first_match(self.channels_view(), key) matches Some(i) && n
                    == self.channels_view()[i].route.len(),
                Option::None => first_match(self.channels_view(), key) is None,
            },
    {
        let i = match self.find_channel(key) {
            Some(i) => i,
            Option::None => {
                return None;
            },
        };
        proof {
            assert(self.channels@.len() == self.channels_view().len());
        }
        let c = &self.channels[i];
        proof {
            assert(self.channels_view()[i as int] == c@);
        }
        Some(c.route.addresses.len())
    }

    /// Law: at every instant, a channel that has completed its key exchange
    /// knows a route of at least one hop to its peer.
    pub proof fn lemma_completed_channel_has_route(&self, i: int)
        requires
            self.wf(),
            0 <= i < self.channels_view().len(),
            self.channels_view()[i].completed_key_exchange is Some,
        ensures
            self.channels_view()[i].route.len() >= 1,
    {
    }

    /// Law: within one manager, no two channels share a cleartext or
    /// ciphertext address, a channel's own two addresses differ, and neither
    /// is the wire sentinel.
    pub proof fn lemma_addresses_unique(&self, i: int, j: int)
        requires
            self.wf(),
            0 <= i < j < self.channels_view().len(),
        ensures
            self.channels_view()[i].cleartext_address != self.channels_view()[j].cleartext_address,
            self.channels_view()[i].cleartext_address != self.channels_view()[j].ciphertext_address,
            self.channels_view()[i].ciphertext_address != self.channels_view()[j].cleartext_address,
            self.channels_view()[i].ciphertext_address
                != self.channels_view()[j].ciphertext_address,
            self.channels_view()[i].cleartext_address != self.channels_view()[i].ciphertext_address,
            self.channels_view()[i].cleartext_address != CHANNEL_ZERO,
            self.channels_view()[i].ciphertext_address != CHANNEL_ZERO,
    {
    }
}

} // verus!
