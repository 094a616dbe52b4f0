//! The on-bus data model: addresses, routes and messages.
//!
//! An address is a category (channel or worker) together with an opaque byte
//! identifier. Channel addresses carry the four-byte little-endian rendering
//! of a 32-bit identifier; the all-zero identifier is the wire sentinel that
//! asks the receiving side to allocate a fresh channel.

use vstd::prelude::*;

verus! {

/// The sentinel channel identifier: "a new channel is being initiated; the
/// responder shall allocate one". It is only ever a wire value, never the
/// stored address of a live channel.
pub const CHANNEL_ZERO: u32 = 0;

/// The categories an on-bus address can belong to.
#[derive(Clone, Copy, Debug, PartialEq, Eq, Structural)]
pub enum AddressType {
    Channel,
    Worker,
}

/// An address: a category together with an opaque byte identifier.
#[derive(Debug)]
pub enum Address {
    ChannelAddress(Vec<u8>),
    WorkerAddress(Vec<u8>),
}

/// The mathematical image of an [`Address`].
pub enum AddrView {
    Channel(Seq<u8>),
    Worker(Seq<u8>),
}

impl AddrView {
    /// The identifier bytes, whatever the category.
    pub open spec fn bytes(self) -> Seq<u8> {
        match self {
            AddrView::Channel(b) => b,
            AddrView::Worker(b) => b,
        }
    }

    /// The category of the address.
    pub open spec fn kind(self) -> AddressType {
        match self {
            AddrView::Channel(_) => AddressType::Channel,
            AddrView::Worker(_) => AddressType::Worker,
        }
    }
}

impl View for Address {
    type V = AddrView;

    open spec fn view(&self) -> AddrView {
        match self {
            Address::ChannelAddress(v) => AddrView::Channel(v@),
            Address::WorkerAddress(v) => AddrView::Worker(v@),
        }
    }
}

/// Copies a byte vector; the copy renders the same sequence.
pub fn clone_bytes(v: &Vec<u8>) -> (r: Vec<u8>)
    ensures
        r@ == v@,
{
    let r = v.clone();
    proof {
        assert(r@ =~= v@);
    }
    r
}

/// Compares two byte vectors element by element.
pub fn bytes_eq(a: &Vec<u8>, b: &Vec<u8>) -> (r: bool)
    ensures
        r == (a@ == b@),
{
    if a.len() != b.len() {
        proof {
            assert(a@ != b@) by {
                assert(a@.len() != b@.len());
            }
        }
        return false;
    }
    let mut i: usize = 0;
    while i < a.len()
        invariant
            0 <= i <= a@.len(),
            a@.len() == b@.len(),
            forall|j: int| 0 <= j < i ==> a@[j] == b@[j],
        decreases a@.len() - i,
    {
        if a[i] != b[i] {
            return false;
        }
        i += 1;
    }
    proof {
        assert(a@ =~= b@);
    }
    true
}

impl Clone for Address {
    fn clone(&self) -> (r: Self)
        ensures
            r@ == self@,
    {
        match self {
            Address::ChannelAddress(v) => Address::ChannelAddress(clone_bytes(v)),
            Address::WorkerAddress(v) => Address::WorkerAddress(clone_bytes(v)),
        }
    }
}

impl PartialEq for Address {
    fn eq(&self, o: &Address) -> (r: bool) {
        match (self, o) {
            (Address::ChannelAddress(a), Address::ChannelAddress(b)) => bytes_eq(a, b),
            (Address::WorkerAddress(a), Address::WorkerAddress(b)) => bytes_eq(a, b),
            _ => false,
        }
    }
}

impl vstd::std_specs::cmp::PartialEqSpecImpl for Address {
    open spec fn obeys_eq_spec() -> bool {
        true
    }

    open spec fn eq_spec(&self, o: &Address) -> bool {
        self@ == o@
    }
}

impl Address {
    /// The identifier bytes of the address.
    pub fn bytes_ref(&self) -> (r: &Vec<u8>)
        ensures
            r@ == self@.bytes(),
    {
        match self {
            Address::ChannelAddress(v) => v,
            Address::WorkerAddress(v) => v,
        }
    }

    /// The category of the address.
    pub fn address_type(&self) -> (r: AddressType)
        ensures
            r == self@.kind(),
    {
        match self {
            Address::ChannelAddress(_) => AddressType::Channel,
            Address::WorkerAddress(_) => AddressType::Worker,
        }
    }
}

/// The little-endian four-byte rendering of a 32-bit identifier.
pub open spec fn u32_le_bytes(n: u32) -> Seq<u8> {
    seq![
        (n % 256) as u8,
        ((n / 256) % 256) as u8,
        ((n / 65536) % 256) as u8,
        ((n / 16777216) % 256) as u8,
    ]
}

/// The 32-bit identifier a little-endian four-byte rendering stands for.
pub open spec fn le_bytes_u32(b: Seq<u8>) -> u32
    recommends
        b.len() == 4,
{
    (b[0] + b[1] * 256 + b[2] * 65536 + b[3] * 16777216) as u32
}

/// Renders a 32-bit identifier as its four little-endian bytes.
pub fn u32_to_le_vec(n: u32) -> (v: Vec<u8>)
    ensures
        v@ == u32_le_bytes(n),
{
    let mut v: Vec<u8> = Vec::new();
    v.push((n % 256) as u8);
    v.push(((n / 256) % 256) as u8);
    v.push(((n / 65536) % 256) as u8);
    v.push(((n / 16777216) % 256) as u8);
    proof {
        assert(v@ =~= u32_le_bytes(n));
    }
    v
}

/// Reads a 32-bit identifier from a four-byte little-endian rendering.
pub fn le_vec_to_u32(b: &Vec<u8>) -> (n: Option<u32>)
    ensures
        match n {
            Some(v) => b@.len() == 4 && v == le_bytes_u32(b@),
            None => b@.len() != 4,
        },
{
    if b.len() != 4 {
        return None;
    }
    let n: u32 = (b[0] as u32) + (b[1] as u32) * 256 + (b[2] as u32) * 65536 + (b[3] as u32)
        * 16777216;
    Some(n)
}

/// A categorised address as it stands in a route.
#[derive(Debug)]
pub struct RouterAddress {
    pub a_type: AddressType,
    pub address: Address,
}

/// The mathematical image of a [`RouterAddress`].
pub struct RouterAddrView {
    pub a_type: AddressType,
    pub address: AddrView,
}

impl RouterAddrView {
    /// Well-formed: the category tag agrees with the address and the
    /// identifier fits the wire encoding.
    pub open spec fn wf(self) -> bool {
        &&& self.a_type == self.address.kind()
        &&& self.address.bytes().len() <= 255
    }
}

impl View for RouterAddress {
    type V = RouterAddrView;

    open spec fn view(&self) -> RouterAddrView {
        RouterAddrView { a_type: self.a_type, address: self.address@ }
    }
}

impl Clone for RouterAddress {
    fn clone(&self) -> (r: Self)
        ensures
            r@ == self@,
    {
        RouterAddress { a_type: self.a_type, address: self.address.clone() }
    }
}

impl PartialEq for RouterAddress {
    fn eq(&self, o: &RouterAddress) -> (r: bool) {
        self.a_type == o.a_type && self.address == o.address
    }
}

impl vstd::std_specs::cmp::PartialEqSpecImpl for RouterAddress {
    open spec fn obeys_eq_spec() -> bool {
        true
    }

    open spec fn eq_spec(&self, o: &RouterAddress) -> bool {
        self@ == o@
    }
}

impl RouterAddress {
    /// Wraps an address with its category tag, provided the identifier fits
    /// the wire encoding.
    pub fn from_address(address: Address) -> (r: Option<RouterAddress>)
        ensures
            match r {
                Some(ra) => address@.bytes().len() <= 255 && ra@ == (RouterAddrView {
                    a_type: address@.kind(),
                    address: address@,
                }) && ra@.wf(),
                None => address@.bytes().len() > 255,
            },
    {
        if address.bytes_ref().len() > 255 {
            return None;
        }
        let a_type = address.address_type();
        Some(RouterAddress { a_type, address })
    }

    /// The route entry for the channel address with the given identifier.
    pub fn channel_router_address_from_u32(id: u32) -> (r: RouterAddress)
        ensures
            r@ == (RouterAddrView {
                a_type: AddressType::Channel,
                address: AddrView::Channel(u32_le_bytes(id)),
            }),
            r@.wf(),
    {
        RouterAddress {
            a_type: AddressType::Channel,
            address: Address::ChannelAddress(u32_to_le_vec(id)),
        }
    }

    /// The route entry for the worker address with the given identifier.
    pub fn worker_router_address_from_u32(id: u32) -> (r: RouterAddress)
        ensures
            r@ == (RouterAddrView {
                a_type: AddressType::Worker,
                address: AddrView::Worker(u32_le_bytes(id)),
            }),
            r@.wf(),
    {
        RouterAddress {
            a_type: AddressType::Worker,
            address: Address::WorkerAddress(u32_to_le_vec(id)),
        }
    }
}

/// An ordered sequence of addresses; the first element is the next hop and
/// the last is the final destination.
#[derive(Debug)]
pub struct Route {
    pub addresses: Vec<RouterAddress>,
}

impl View for Route {
    type V = Seq<RouterAddrView>;

    open spec fn view(&self) -> Seq<RouterAddrView> {
        self.addresses@.map_values(|a: RouterAddress| a@)
    }
}

impl Clone for Route {
    fn clone(&self) -> (r: Self)
        ensures
            r@ == self@,
    {
        let mut addresses: Vec<RouterAddress> = Vec::new();
        let mut i: usize = 0;
        while i < self.addresses.len()
            invariant
                0 <= i <= self.addresses@.len(),
                addresses@.len() == i,
                forall|j: int| 0 <= j < i ==> addresses@[j]@ == self.addresses@[j]@,
            decreases self.addresses@.len() - i,
        {
            addresses.push(self.addresses[i].clone());
            i += 1;
        }
        let r = Route { addresses };
        proof {
            assert(r@ =~= self@);
        }
        r
    }
}

impl PartialEq for Route {
    fn eq(&self, o: &Route) -> (r: bool) {
        if self.addresses.len() != o.addresses.len() {
            proof {
                assert(self@.len() == self.addresses@.len());
                assert(o@.len() == o.addresses@.len());
            }
            return false;
        }
        let mut i: usize = 0;
        while i < self.addresses.len()
            invariant
                0 <= i <= self.addresses@.len(),
                self.addresses@.len() == o.addresses@.len(),
                forall|j: int| 0 <= j < i ==> self@[j] == o@[j],
        decreases self.addresses@.len() - i,
        {
            if !(self.addresses[i] == o.addresses[i]) {
                proof {
                    assert(self@[i as int] != o@[i as int]);
                }
                return false;
            }
            i += 1;
        }
        proof {
            assert(self@ =~= o@);
        }
        true
    }
}

impl vstd::std_specs::cmp::PartialEqSpecImpl for Route {
    open spec fn obeys_eq_spec() -> bool {
        true
    }

    open spec fn eq_spec(&self, o: &Route) -> bool {
        self@ == o@
    }
}

/// The kinds of message the bus carries for this layer.
#[derive(Clone, Copy, Debug, PartialEq, Eq, Structural)]
pub enum MessageType {
    Empty,
    Payload,
    KeyAgreementM1,
    KeyAgreementM2,
    KeyAgreementM3,
}

/// A bus message: two routes, a type tag and an opaque body.
#[derive(Debug)]
pub struct Message {
    pub onward_route: Route,
    pub return_route: Route,
    pub message_type: MessageType,
    pub message_body: Vec<u8>,
}

/// The mathematical image of a [`Message`].
pub struct MessageView {
    pub onward_route: Seq<RouterAddrView>,
    pub return_route: Seq<RouterAddrView>,
    pub message_type: MessageType,
    pub message_body: Seq<u8>,
}

impl View for Message {
    type V = MessageView;

    open spec fn view(&self) -> MessageView {
        MessageView {
            onward_route: self.onward_route@,
            return_route: self.return_route@,
            message_type: self.message_type,
            message_body: self.message_body@,
        }
    }
}

impl Clone for Message {
    fn clone(&self) -> (r: Self)
        ensures
            r@ == self@,
    {
        Message {
            onward_route: self.onward_route.clone(),
            return_route: self.return_route.clone(),
            message_type: self.message_type,
            message_body: clone_bytes(&self.message_body),
        }
    }
}

impl PartialEq for Message {
    fn eq(&self, o: &Message) -> (r: bool) {
        self.onward_route == o.onward_route && self.return_route == o.return_route
            && self.message_type == o.message_type && bytes_eq(&self.message_body, &o.message_body)
    }
}

impl vstd::std_specs::cmp::PartialEqSpecImpl for Message {
    open spec fn obeys_eq_spec() -> bool {
        true
    }

    open spec fn eq_spec(&self, o: &Message) -> bool {
        self@ == o@
    }
}

} // verus!
