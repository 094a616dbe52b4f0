use secure_channel::channel::Channel;
use secure_channel::codec::{encode_u16_le, split_u16_le};
use secure_channel::error::ChannelError;
use secure_channel::kex::{Agreement, CompletedKeyExchange};
use secure_channel::message::{Address, Message, MessageType, Route, RouterAddress};

type PlainChannel = Channel<Agreement<NoKex, NoKex>>;

/// A placeholder strategy type: these tests never run a handshake.
struct NoKex;

impl secure_channel::kex::KeyExchanger for NoKex {
    fn process(&mut self, _data: &[u8]) -> Result<Vec<u8>, ChannelError> {
        Err(ChannelError::State)
    }

    fn is_complete(&self) -> bool {
        false
    }

    fn finalize(&mut self) -> Result<CompletedKeyExchange, ChannelError> {
        Err(ChannelError::State)
    }
}

fn channel_ra(id: u32) -> RouterAddress {
    RouterAddress::channel_router_address_from_u32(id)
}

fn worker_ra(bytes: Vec<u8>) -> RouterAddress {
    RouterAddress::from_address(Address::WorkerAddress(bytes)).unwrap()
}

fn sample_message() -> Message {
    Message {
        onward_route: Route { addresses: vec![channel_ra(0xdeadbeef), worker_ra(vec![1, 2, 3])] },
        return_route: Route { addresses: vec![channel_ra(7)] },
        message_type: MessageType::Payload,
        message_body: vec![9, 8, 7, 6, 5],
    }
}

#[test]
fn message_round_trip() {
    let m = sample_message();
    let mut encoded: Vec<u8> = Vec::new();
    Message::encode(&m, &mut encoded).unwrap();
    let decoded = Message::decode(&encoded).unwrap();
    assert_eq!(decoded, m);
}

#[test]
fn message_round_trip_empty_routes_and_body() {
    let m = Message {
        onward_route: Route { addresses: vec![] },
        return_route: Route { addresses: vec![] },
        message_type: MessageType::Empty,
        message_body: vec![],
    };
    let mut encoded: Vec<u8> = Vec::new();
    Message::encode(&m, &mut encoded).unwrap();
    let decoded = Message::decode(&encoded).unwrap();
    assert_eq!(decoded, m);
}

#[test]
fn message_encoding_is_exact() {
    let m = Message {
        onward_route: Route { addresses: vec![channel_ra(0x04030201)] },
        return_route: Route { addresses: vec![] },
        message_type: MessageType::KeyAgreementM1,
        message_body: vec![0xaa, 0xbb],
    };
    let mut encoded: Vec<u8> = Vec::new();
    Message::encode(&m, &mut encoded).unwrap();
    // one onward entry (category, length, four identifier bytes), an empty
    // return route, the type byte and the body
    assert_eq!(encoded, vec![1, 1, 4, 1, 2, 3, 4, 0, 2, 0xaa, 0xbb]);
}

#[test]
fn decode_refuses_truncated_buffers() {
    let m = sample_message();
    let mut encoded: Vec<u8> = Vec::new();
    Message::encode(&m, &mut encoded).unwrap();
    // the type byte sits right before the body; cutting above it breaks a route
    let cut = encoded[..3].to_vec();
    assert_eq!(Message::decode(&cut), Err(ChannelError::RecvError));
    assert_eq!(Message::decode(&Vec::new()), Err(ChannelError::RecvError));
}

#[test]
fn decode_refuses_bad_tags() {
    // a route entry with category byte 9 exists in no message
    let bad = vec![1, 9, 0, 0, 0];
    assert_eq!(Message::decode(&bad), Err(ChannelError::RecvError));
    // a message type byte 9 exists in no message
    let bad_type = vec![0, 0, 9];
    assert_eq!(Message::decode(&bad_type), Err(ChannelError::RecvError));
}

#[test]
fn encode_refuses_oversized_route() {
    let mut addresses = Vec::new();
    for i in 0..256u32 {
        addresses.push(channel_ra(i + 1));
    }
    let m = Message {
        onward_route: Route { addresses },
        return_route: Route { addresses: vec![] },
        message_type: MessageType::Payload,
        message_body: vec![],
    };
    let mut encoded: Vec<u8> = Vec::new();
    assert_eq!(Message::encode(&m, &mut encoded), Err(ChannelError::CantSend));
    assert!(encoded.is_empty());
}

#[test]
fn u16_wire_form_is_little_endian() {
    let mut out: Vec<u8> = Vec::new();
    encode_u16_le(0x0102, &mut out);
    assert_eq!(out, vec![0x02, 0x01]);
    let (n, rest) = split_u16_le(&vec![0x02, 0x01, 0xff, 0xee]).unwrap();
    assert_eq!(n, 0x0102);
    assert_eq!(rest, vec![0xff, 0xee]);
    assert!(split_u16_le(&vec![0x02]).is_none());
}

#[test]
fn nonce_expansion_is_big_endian_in_zero_padded_field() {
    let n = PlainChannel::nonce_16_to_96(0x0102);
    assert_eq!(n, [0, 0, 0, 0, 0, 0, 0, 0, 0, 0, 0x01, 0x02]);
}

#[test]
fn nonce_round_trip() {
    for n16 in [0u16, 1, 0x0102, 0xfffe, 0xffff] {
        let expanded = PlainChannel::nonce_16_to_96(n16);
        assert_eq!(PlainChannel::nonce_from_96(&expanded), n16);
    }
}

#[test]
fn channel_addresses_render_little_endian() {
    let ch: PlainChannel = Channel::new(0x04030201, 0x0d0c0b0a, Agreement::Initiator(NoKex));
    assert_eq!(ch.as_cleartext_address(), Address::ChannelAddress(vec![1, 2, 3, 4]));
    assert_eq!(ch.as_ciphertext_address(), Address::ChannelAddress(vec![0x0a, 0x0b, 0x0c, 0x0d]));
}

#[test]
fn validate_public_key_accepts_exact_match() {
    assert!(secure_channel::config::validate_public_key("abc", b"abc".to_vec()).is_ok());
    assert!(secure_channel::config::validate_public_key("abc", b"abd".to_vec()).is_err());
    assert!(secure_channel::config::validate_public_key("abc", b"ab".to_vec()).is_err());
    assert_eq!(
        secure_channel::config::validate_public_key("x", b"y".to_vec()),
        Err("remote public key mismatch".to_string())
    );
}
