//! One party's half of a secure channel.
//!
//! A channel holds its handshake strategy, the completed key material once
//! the handshake finalizes, a 16-bit counter nonce, the route to the peer's
//! ciphertext endpoint, and the notification retained from the initiate call.
//! It also owns the nonce conversions: the wire carries the counter as two
//! little-endian bytes, while the AEAD nonce is ten zero bytes followed by
//! the counter's two big-endian bytes.

use vstd::prelude::*;

use crate::kex::{CompletedKeyExchange, CompletedKeyExchangeView};
use crate::message::{AddrView, Address, Message, MessageView, Route, RouterAddrView, u32_le_bytes,
    u32_to_le_vec};

verus! {

/// One party's half of a secure channel, generic over its handshake
/// strategy.
///
/// `nonce` counts this side's AEAD operations; in the corrected dual-counter
/// mode the inbound direction counts on `recv_nonce` instead, so that each
/// direction's counter is independent.
pub struct Channel<A> {
    pub completed_key_exchange: Option<CompletedKeyExchange>,
    pub cleartext_address: u32,
    pub ciphertext_address: u32,
    pub agreement: A,
    pub nonce: u16,
    pub recv_nonce: u16,
    pub route: Route,
    pub pending: Option<Message>,
}

/// The mathematical image of a [`Channel`].
pub struct ChannelView<A> {
    pub completed_key_exchange: Option<CompletedKeyExchangeView>,
    pub cleartext_address: u32,
    pub ciphertext_address: u32,
    pub agreement: A,
    pub nonce: u16,
    pub recv_nonce: u16,
    pub route: Seq<RouterAddrView>,
    pub pending: Option<MessageView>,
}

impl<A> View for Channel<A> {
    type V = ChannelView<A>;

    open spec fn view(&self) -> ChannelView<A> {
        ChannelView {
            completed_key_exchange: match self.completed_key_exchange {
                Some(cke) => Some(cke@),
                Option::None => None,
            },
            cleartext_address: self.cleartext_address,
            ciphertext_address: self.ciphertext_address,
            agreement: self.agreement,
            nonce: self.nonce,
            recv_nonce: self.recv_nonce,
            route: self.route@,
            pending: match self.pending {
                Some(m) => Some(m@),
                Option::None => None,
            },
        }
    }
}

/// The 12-byte AEAD nonce a 16-bit counter expands to: ten zero bytes, then
/// the counter big-endian.
pub open spec fn nonce_16_to_96_spec(n16: u16) -> Seq<u8> {
    seq![0u8, 0u8, 0u8, 0u8, 0u8, 0u8, 0u8, 0u8, 0u8, 0u8, (n16 / 256) as u8, (n16 % 256) as u8]
}

/// The 16-bit counter a 12-byte AEAD nonce carries in its last two bytes,
/// big-endian.
pub open spec fn nonce_from_96_spec(n: Seq<u8>) -> u16
    recommends
        n.len() == 12,
{
    (n[10] * 256 + n[11]) as u16
}

/// Reading the counter back out of its 12-byte AEAD expansion yields the
/// counter.
pub proof fn lemma_nonce_round_trip(n16: u16)
    ensures
        nonce_from_96_spec(nonce_16_to_96_spec(n16)) == n16,
{
    let hi = (n16 / 256) as u8;
    let lo = (n16 % 256) as u8;
    assert(nonce_16_to_96_spec(n16)[10] == hi);
    assert(nonce_16_to_96_spec(n16)[11] == lo);
    assert(hi * 256 + lo == n16) by (nonlinear_arith)
        requires
            hi == n16 / 256 && lo == n16 % 256,
    ;
}

impl<A> Channel<A> {
    /// A fresh channel: handshake not finalized, counter at zero, no route,
    /// no pending notification.
    pub fn new(cleartext_address: u32, ciphertext_address: u32, agreement: A) -> (r: Self)
        ensures
            r@.completed_key_exchange is None,
            r@.cleartext_address == cleartext_address,
            r@.ciphertext_address == ciphertext_address,
            r@.agreement == agreement,
            r@.nonce == 0,
            r@.recv_nonce == 0,
            r@.route == Seq::<RouterAddrView>::empty(),
            r@.pending is None,
    {
        let r = Channel {
            cleartext_address,
            ciphertext_address,
            agreement,
            completed_key_exchange: None,
            nonce: 0,
            recv_nonce: 0,
            route: Route { addresses: Vec::new() },
            pending: None,
        };
        proof {
            assert(r@.route =~= Seq::<RouterAddrView>::empty());
        }
        r
    }

    /// The channel's cleartext endpoint, as a bus address.
    pub fn as_cleartext_address(&self) -> (r: Address)
        ensures
            r@ == AddrView::Channel(u32_le_bytes(self@.cleartext_address)),
    {
        Address::ChannelAddress(u32_to_le_vec(self.cleartext_address))
    }

    /// The channel's ciphertext endpoint, as a bus address.
    pub fn as_ciphertext_address(&self) -> (r: Address)
        ensures
            r@ == AddrView::Channel(u32_le_bytes(self@.ciphertext_address)),
    {
        Address::ChannelAddress(u32_to_le_vec(self.ciphertext_address))
    }

    /// Expands a 16-bit counter to the 12-byte AEAD nonce.
    pub fn nonce_16_to_96(n16: u16) -> (r: [u8; 12])
        ensures
            r@ == nonce_16_to_96_spec(n16),
    {
        let r: [u8; 12] = [
            0,
            0,
            0,
            0,
            0,
            0,
            0,
            0,
            0,
            0,
            (n16 / 256) as u8,
            (n16 % 256) as u8,
        ];
        proof {
            assert(r@ =~= nonce_16_to_96_spec(n16));
        }
        r
    }

    /// Reads the 16-bit counter back out of a 12-byte AEAD nonce.
    pub fn nonce_from_96(n: &[u8; 12]) -> (r: u16)
        ensures
            r == nonce_from_96_spec(n@),
    {
        (n[10] as u16) * 256 + (n[11] as u16)
    }
}

} // verus!
