use secure_channel::commands::{ChannelCommand, OckamCommand, RouterCommand};
use secure_channel::error::ChannelError;
use secure_channel::kex::{
    CompletedKeyExchange, KeyExchanger, NewKeyExchanger, PublicKey, SecretKeyContext,
};
use secure_channel::manager::ChannelManager;
use secure_channel::message::{
    Address, Message, MessageType, Route, RouterAddress, CHANNEL_ZERO,
};
use secure_channel::vault::{DynVault, VaultFailError};

const INITIATOR_STATIC: &[u8] = b"initiator-static-key";
const RESPONDER_STATIC: &[u8] = b"responder-static-key";

/// A deterministic stand-in for the three-message handshake: fixed byte
/// strings as messages, paired key handles on finalize.
struct MockInitiator {
    step: u8,
}

struct MockResponder {
    step: u8,
}

fn initiator_keys() -> CompletedKeyExchange {
    CompletedKeyExchange {
        encrypt_key: SecretKeyContext { handle: 42 },
        decrypt_key: SecretKeyContext { handle: 43 },
        h: vec![0xaa; 32],
        remote_static_public_key: PublicKey { bytes: RESPONDER_STATIC.to_vec() },
    }
}

fn responder_keys() -> CompletedKeyExchange {
    CompletedKeyExchange {
        encrypt_key: SecretKeyContext { handle: 43 },
        decrypt_key: SecretKeyContext { handle: 42 },
        h: vec![0xaa; 32],
        remote_static_public_key: PublicKey { bytes: INITIATOR_STATIC.to_vec() },
    }
}

impl KeyExchanger for MockInitiator {
    fn process(&mut self, data: &[u8]) -> Result<Vec<u8>, ChannelError> {
        match (self.step, data) {
            (0, b"") => {
                self.step = 1;
                Ok(b"handshake-m1".to_vec())
            }
            (1, b"handshake-m2") => {
                self.step = 2;
                Ok(Vec::new())
            }
            (2, b"") => {
                self.step = 3;
                Ok(b"handshake-m3".to_vec())
            }
            _ => Err(ChannelError::State),
        }
    }

    fn is_complete(&self) -> bool {
        self.step >= 3
    }

    fn finalize(&mut self) -> Result<CompletedKeyExchange, ChannelError> {
        if self.step >= 3 {
            Ok(initiator_keys())
        } else {
            Err(ChannelError::State)
        }
    }
}

impl KeyExchanger for MockResponder {
    fn process(&mut self, data: &[u8]) -> Result<Vec<u8>, ChannelError> {
        match (self.step, data) {
            (0, b"handshake-m1") => {
                self.step = 1;
                Ok(Vec::new())
            }
            (1, b"") => {
                self.step = 2;
                Ok(b"handshake-m2".to_vec())
            }
            (2, b"handshake-m3") => {
                self.step = 3;
                Ok(Vec::new())
            }
            _ => Err(ChannelError::State),
        }
    }

    fn is_complete(&self) -> bool {
        self.step >= 3
    }

    fn finalize(&mut self) -> Result<CompletedKeyExchange, ChannelError> {
        if self.step >= 3 {
            Ok(responder_keys())
        } else {
            Err(ChannelError::State)
        }
    }
}

struct MockFactory;

impl NewKeyExchanger<MockInitiator, MockResponder> for MockFactory {
    fn initiator(&self, _key_ctx: Option<SecretKeyContext>) -> MockInitiator {
        MockInitiator { step: 0 }
    }

    fn responder(&self, _key_ctx: Option<SecretKeyContext>) -> MockResponder {
        MockResponder { step: 0 }
    }
}

/// A toy AEAD: a keystream xor keyed by the session half of the handle, and
/// a 4-byte checksum tag over key, nonce, associated data and plaintext.
/// Paired handles (2s, 2s+1) share a session, so what one side seals under
/// its encrypt key the other opens under its decrypt key.
struct MockVault;

fn keystream_byte(session: u8, nonce: &[u8], i: usize) -> u8 {
    session ^ nonce[nonce.len() - 1] ^ nonce[nonce.len() - 2] ^ (i as u8).wrapping_mul(7)
}

fn tag(session: u8, pt: &[u8], nonce: &[u8], aad: &[u8]) -> [u8; 4] {
    let mut acc: u8 = session;
    for b in pt {
        acc = acc.wrapping_add(*b);
    }
    for b in aad {
        acc = acc.wrapping_mul(3).wrapping_add(*b);
    }
    let n = nonce[nonce.len() - 1];
    [acc, acc ^ n, acc.wrapping_add(n), acc ^ 0x5a]
}

impl DynVault for MockVault {
    fn aead_aes_gcm_encrypt(
        &mut self,
        context: SecretKeyContext,
        plaintext: &[u8],
        nonce: &[u8],
        aad: &[u8],
    ) -> Result<Vec<u8>, VaultFailError> {
        let session = (context.handle / 2) as u8;
        let mut out: Vec<u8> = plaintext
            .iter()
            .enumerate()
            .map(|(i, b)| b ^ keystream_byte(session, nonce, i))
            .collect();
        out.extend_from_slice(&tag(session, plaintext, nonce, aad));
        Ok(out)
    }

    fn aead_aes_gcm_decrypt(
        &mut self,
        context: SecretKeyContext,
        cipher_text: &[u8],
        nonce: &[u8],
        aad: &[u8],
    ) -> Result<Vec<u8>, VaultFailError> {
        if cipher_text.len() < 4 {
            return Err(VaultFailError);
        }
        let session = (context.handle / 2) as u8;
        let body = &cipher_text[..cipher_text.len() - 4];
        let pt: Vec<u8> = body
            .iter()
            .enumerate()
            .map(|(i, b)| b ^ keystream_byte(session, nonce, i))
            .collect();
        if tag(session, &pt, nonce, aad) != cipher_text[cipher_text.len() - 4..] {
            return Err(VaultFailError);
        }
        Ok(pt)
    }
}

type Manager = ChannelManager<MockInitiator, MockResponder, MockFactory, MockVault>;

fn new_manager() -> Manager {
    ChannelManager::new(MockVault, MockFactory, None, None)
}

fn channel_ra(id: u32) -> RouterAddress {
    RouterAddress::channel_router_address_from_u32(id)
}

fn worker_address(bytes: &[u8]) -> Address {
    Address::WorkerAddress(bytes.to_vec())
}

/// Splits a manager's outbox into messages sent onward and messages
/// delivered locally.
fn drain(mgr: &mut Manager) -> (Vec<Message>, Vec<Message>) {
    let mut sent = Vec::new();
    let mut delivered = Vec::new();
    for cmd in mgr.take_outbox() {
        match cmd {
            OckamCommand::Router(RouterCommand::SendMessage(m)) => sent.push(m),
            OckamCommand::Router(RouterCommand::ReceiveMessage(m)) => delivered.push(m),
            _ => panic!("manager emitted a non-router command"),
        }
    }
    (sent, delivered)
}

/// Hands a message from one manager's wire output to the other manager,
/// dropping a leading transport hop when one is present.
fn deliver(mgr: &mut Manager, mut m: Message) -> Result<bool, ChannelError> {
    if m.onward_route.addresses.len() >= 2 {
        m.onward_route.addresses.remove(0);
    }
    mgr.handle_command(OckamCommand::Channel(ChannelCommand::ReceiveMessage(m)))
}

/// Runs the whole three-message handshake between a fresh initiator and a
/// fresh responder, returning the two managers, the initiator-side
/// notification, and the initiator's channel identifiers.
fn run_handshake(route: Vec<RouterAddress>) -> (Manager, Manager, Message, (u32, u32)) {
    let mut alice = new_manager();
    let mut bob = new_manager();

    let worker_a = worker_address(b"\x01\x24\x20\x20");
    alice
        .handle_command(OckamCommand::Channel(ChannelCommand::Initiate(
            Route { addresses: route },
            worker_a,
            None,
        )))
        .unwrap();
    assert_eq!(alice.channel_count(), 1);
    let a_ids = alice.channel_addresses(0);

    let (sent, delivered) = drain(&mut alice);
    assert_eq!(sent.len(), 1);
    assert!(delivered.is_empty());
    let m1 = sent.into_iter().next().unwrap();
    assert_eq!(m1.message_type, MessageType::KeyAgreementM1);
    assert_eq!(m1.message_body, b"handshake-m1".to_vec());
    // the wire sentinel rides at the end of the onward route
    assert_eq!(
        m1.onward_route.addresses.last().unwrap(),
        &channel_ra(CHANNEL_ZERO)
    );

    deliver(&mut bob, m1).unwrap();
    assert_eq!(bob.channel_count(), 1);
    let (sent, delivered) = drain(&mut bob);
    assert_eq!(sent.len(), 1);
    assert!(delivered.is_empty());
    let m2 = sent.into_iter().next().unwrap();
    assert_eq!(m2.message_type, MessageType::KeyAgreementM2);

    deliver(&mut alice, m2).unwrap();
    let (sent, mut delivered) = drain(&mut alice);
    assert_eq!(sent.len(), 1);
    assert_eq!(delivered.len(), 1);
    let m3 = sent.into_iter().next().unwrap();
    assert_eq!(m3.message_type, MessageType::KeyAgreementM3);
    let notification = delivered.pop().unwrap();

    deliver(&mut bob, m3).unwrap();
    let (sent, delivered) = drain(&mut bob);
    assert!(sent.is_empty());
    assert_eq!(delivered.len(), 1);

    (alice, bob, notification, a_ids)
}

#[test]
fn happy_path_handshake() {
    let (alice, bob, notification, (a_clear, a_cipher)) =
        run_handshake(vec![channel_ra(0x0b0b)]);

    assert_eq!(alice.channel_is_complete(a_clear), Some(true));
    assert_eq!(alice.channel_is_complete(a_cipher), Some(true));
    let (b_clear, b_cipher) = bob.channel_addresses(0);
    assert_eq!(bob.channel_is_complete(b_cipher), Some(true));
    assert_eq!(bob.channel_is_complete(b_clear), Some(true));

    // the worker learns the channel's cleartext endpoint and the peer's
    // static public key
    assert_eq!(notification.return_route.addresses[0], channel_ra(a_clear));
    assert_eq!(notification.message_body, RESPONDER_STATIC.to_vec());
    assert_eq!(notification.message_type, MessageType::Empty);
}

#[test]
fn channel_zero_prefix_is_peeled() {
    let (alice, _bob, notification, (a_clear, _)) =
        run_handshake(vec![channel_ra(CHANNEL_ZERO), channel_ra(0x0b0b)]);
    assert_eq!(alice.channel_is_complete(a_clear), Some(true));
    assert_eq!(notification.return_route.addresses[0], channel_ra(a_clear));
    assert_eq!(notification.message_body, RESPONDER_STATIC.to_vec());
}

fn payload_to(addr: u32, body: &[u8]) -> Message {
    Message {
        onward_route: Route { addresses: vec![channel_ra(addr)] },
        return_route: Route { addresses: vec![] },
        message_type: MessageType::Payload,
        message_body: body.to_vec(),
    }
}

#[test]
fn payload_before_finalize_is_dropped_silently() {
    let mut alice = new_manager();
    alice
        .handle_command(OckamCommand::Channel(ChannelCommand::Initiate(
            Route { addresses: vec![channel_ra(0x0b0b)] },
            worker_address(b"\x01\x24\x20\x20"),
            None,
        )))
        .unwrap();
    let (a_clear, _) = alice.channel_addresses(0);
    drain(&mut alice);

    let r = alice.poll(vec![OckamCommand::Channel(ChannelCommand::SendMessage(
        payload_to(a_clear, b"too early"),
    ))]);
    assert_eq!(r, Ok(true));
    let (sent, delivered) = drain(&mut alice);
    assert!(sent.is_empty());
    assert!(delivered.is_empty());
}

#[test]
fn payload_round_trip_both_directions() {
    let (mut alice, mut bob, _, (a_clear, a_cipher)) = run_handshake(vec![channel_ra(0x0b0b)]);
    let (b_clear, _b_cipher) = bob.channel_addresses(0);

    // alice seals a payload; bob opens it and delivers the original message
    let body = b"attack at dawn".to_vec();
    alice
        .handle_command(OckamCommand::Channel(ChannelCommand::SendMessage(payload_to(
            a_clear, &body,
        ))))
        .unwrap();
    let (sent, _) = drain(&mut alice);
    assert_eq!(sent.len(), 1);
    let wire = sent.into_iter().next().unwrap();
    assert_eq!(wire.message_type, MessageType::Payload);
    // the wire body is the two-byte counter then ciphertext: never the plaintext
    assert_eq!(&wire.message_body[..2], &[0, 0]);
    assert!(wire.message_body.len() > body.len());
    assert_eq!(wire.return_route.addresses[0], channel_ra(a_cipher));

    deliver(&mut bob, wire).unwrap();
    let (sent, delivered) = drain(&mut bob);
    assert!(sent.is_empty());
    assert_eq!(delivered.len(), 1);
    let got = delivered.into_iter().next().unwrap();
    assert_eq!(got.message_body, body);
    assert_eq!(got.message_type, MessageType::Payload);
    // the head the sender stripped stays stripped
    assert!(got.onward_route.addresses.is_empty());

    // and the other direction
    let reply = b"retreat at dusk".to_vec();
    bob.handle_command(OckamCommand::Channel(ChannelCommand::SendMessage(payload_to(
        b_clear, &reply,
    ))))
    .unwrap();
    let (sent, _) = drain(&mut bob);
    assert_eq!(sent.len(), 1);
    deliver(&mut alice, sent.into_iter().next().unwrap()).unwrap();
    let (_, delivered) = drain(&mut alice);
    assert_eq!(delivered.len(), 1);
    assert_eq!(delivered[0].message_body, reply);
}

#[test]
fn nonces_step_after_each_operation() {
    let (mut alice, mut bob, _, (a_clear, _)) = run_handshake(vec![channel_ra(0x0b0b)]);
    assert_eq!(alice.channel_nonce(a_clear), Some(0));

    alice
        .handle_command(OckamCommand::Channel(ChannelCommand::SendMessage(payload_to(
            a_clear, b"one",
        ))))
        .unwrap();
    assert_eq!(alice.channel_nonce(a_clear), Some(1));

    let (sent, _) = drain(&mut alice);
    let (b_clear, _) = bob.channel_addresses(0);
    assert_eq!(bob.channel_nonce(b_clear), Some(0));
    deliver(&mut bob, sent.into_iter().next().unwrap()).unwrap();
    assert_eq!(bob.channel_nonce(b_clear), Some(1));
}

#[test]
fn dual_counter_mode_counts_directions_apart() {
    let (mut alice, mut bob, _, (a_clear, _)) = run_handshake(vec![channel_ra(0x0b0b)]);
    let (b_clear, _) = bob.channel_addresses(0);
    bob.set_dual_counter_mode(true);

    for _ in 0..2 {
        alice
            .handle_command(OckamCommand::Channel(ChannelCommand::SendMessage(payload_to(
                a_clear, b"tick",
            ))))
            .unwrap();
        let (sent, _) = drain(&mut alice);
        deliver(&mut bob, sent.into_iter().next().unwrap()).unwrap();
    }

    // bob's outbound counter is untouched; the inbound one counted both
    assert_eq!(bob.channel_nonce(b_clear), Some(0));
    assert_eq!(bob.channel_recv_nonce(b_clear), Some(2));
    // the shared-counter sender counted its own sends
    assert_eq!(alice.channel_nonce(a_clear), Some(2));
    assert_eq!(alice.channel_recv_nonce(a_clear), Some(0));

    // interoperation is unaffected: bob still opens alice's payloads, since
    // the AEAD nonce always comes off the wire
    let (_, delivered) = drain(&mut bob);
    assert_eq!(delivered.len(), 2);
    assert_eq!(delivered[0].message_body, b"tick".to_vec());
}

#[test]
fn unknown_channel_inbound_is_dropped_silently() {
    let mut alice = new_manager();
    let r = alice.poll(vec![OckamCommand::Channel(ChannelCommand::ReceiveMessage(
        payload_to(0x12345678, b"to nobody"),
    ))]);
    assert_eq!(r, Ok(true));
    let (sent, delivered) = drain(&mut alice);
    assert!(sent.is_empty());
    assert!(delivered.is_empty());
}

#[test]
fn stop_clears_all_channels() {
    let (mut alice, _bob, _, (a_clear, _)) = run_handshake(vec![channel_ra(0x0b0b)]);
    // a second channel
    alice
        .handle_command(OckamCommand::Channel(ChannelCommand::Initiate(
            Route { addresses: vec![channel_ra(0x0b0b)] },
            worker_address(b"\x99"),
            None,
        )))
        .unwrap();
    assert_eq!(alice.channel_count(), 2);
    drain(&mut alice);

    let r = alice.poll(vec![OckamCommand::Channel(ChannelCommand::Stop)]);
    assert_eq!(r, Ok(true));
    assert_eq!(alice.channel_count(), 0);

    // payloads to the now-unknown addresses are silently dropped
    let r = alice.poll(vec![OckamCommand::Channel(ChannelCommand::ReceiveMessage(
        payload_to(a_clear, b"late"),
    ))]);
    assert_eq!(r, Ok(true));
    let (sent, delivered) = drain(&mut alice);
    assert!(sent.is_empty());
    assert!(delivered.is_empty());
}

#[test]
fn thousand_channels_get_distinct_addresses() {
    let mut alice = new_manager();
    for _ in 0..1000 {
        alice
            .handle_command(OckamCommand::Channel(ChannelCommand::Initiate(
                Route { addresses: vec![channel_ra(0x0b0b)] },
                worker_address(b"\x01"),
                None,
            )))
            .unwrap();
    }
    assert_eq!(alice.channel_count(), 1000);
    let mut seen = std::collections::BTreeSet::new();
    for i in 0..1000 {
        let (clear, cipher) = alice.channel_addresses(i);
        assert_ne!(clear, CHANNEL_ZERO);
        assert_ne!(cipher, CHANNEL_ZERO);
        assert!(seen.insert(clear), "cleartext address reused");
        assert!(seen.insert(cipher), "ciphertext address reused");
    }
}

#[test]
fn error_paths_surface_the_right_kinds() {
    let mut alice = new_manager();

    // a send with no onward route cannot be routed
    let no_route = Message {
        onward_route: Route { addresses: vec![] },
        return_route: Route { addresses: vec![] },
        message_type: MessageType::Payload,
        message_body: vec![],
    };
    assert_eq!(
        alice.handle_command(OckamCommand::Channel(ChannelCommand::SendMessage(no_route))),
        Err(ChannelError::CantSend)
    );

    // a receive with no onward route cannot be dispatched
    let no_route = Message {
        onward_route: Route { addresses: vec![] },
        return_route: Route { addresses: vec![] },
        message_type: MessageType::Payload,
        message_body: vec![],
    };
    assert_eq!(
        alice.handle_command(OckamCommand::Channel(ChannelCommand::ReceiveMessage(no_route))),
        Err(ChannelError::RecvError)
    );

    // a send to an unknown channel is not supported
    assert_eq!(
        alice.handle_command(OckamCommand::Channel(ChannelCommand::SendMessage(payload_to(
            0x1111, b"x",
        )))),
        Err(ChannelError::NotImplemented)
    );

    // a command addressed to anything but the channel manager is invalid
    let stray = Message {
        onward_route: Route { addresses: vec![] },
        return_route: Route { addresses: vec![] },
        message_type: MessageType::Empty,
        message_body: vec![],
    };
    assert_eq!(
        alice.handle_command(OckamCommand::Router(RouterCommand::SendMessage(stray))),
        Err(ChannelError::InvalidParam(0))
    );

    // a second handshake message on a finalized channel is a state error
    let (mut alice, _bob, _, (_, a_cipher)) = run_handshake(vec![channel_ra(0x0b0b)]);
    let stale_m2 = Message {
        onward_route: Route { addresses: vec![channel_ra(a_cipher)] },
        return_route: Route { addresses: vec![channel_ra(0x7777)] },
        message_type: MessageType::KeyAgreementM2,
        message_body: b"handshake-m2".to_vec(),
    };
    assert_eq!(
        alice.handle_command(OckamCommand::Channel(ChannelCommand::ReceiveMessage(stale_m2))),
        Err(ChannelError::State)
    );

    // an inbound payload shorter than its counter prefix is malformed
    let (mut alice, _bob, _, (a_clear, _)) = run_handshake(vec![channel_ra(0x0b0b)]);
    assert_eq!(
        alice.handle_command(OckamCommand::Channel(ChannelCommand::ReceiveMessage(
            payload_to(a_clear, b"\x01"),
        ))),
        Err(ChannelError::RecvError)
    );
}

#[test]
fn completed_channel_knows_its_route() {
    let (alice, bob, _, (a_clear, _)) = run_handshake(vec![channel_ra(0x0b0b)]);
    // once the key exchange is complete, a route of at least one hop is stored
    assert!(alice.channel_route_len(a_clear).unwrap() >= 1);
    let (b_clear, _) = bob.channel_addresses(0);
    assert!(bob.channel_route_len(b_clear).unwrap() >= 1);
}

#[test]
fn finished_handshake_ignores_a_repeated_final_message() {
    let (mut alice, mut bob, _, _) = run_handshake(vec![channel_ra(0x0b0b)]);
    let (_, b_cipher) = bob.channel_addresses(0);
    // a repeated third message on a finalized channel is dropped silently
    let stale_m3 = Message {
        onward_route: Route { addresses: vec![channel_ra(b_cipher)] },
        return_route: Route { addresses: vec![channel_ra(0x7777)] },
        message_type: MessageType::KeyAgreementM3,
        message_body: b"handshake-m3".to_vec(),
    };
    assert_eq!(
        bob.handle_command(OckamCommand::Channel(ChannelCommand::ReceiveMessage(stale_m3))),
        Ok(true)
    );
    let (sent, delivered) = drain(&mut bob);
    assert!(sent.is_empty());
    assert!(delivered.is_empty());
    // while a repeated first message is rejected with a state error
    let stale_m1 = Message {
        onward_route: Route { addresses: vec![channel_ra(b_cipher)] },
        return_route: Route { addresses: vec![channel_ra(0x7777)] },
        message_type: MessageType::KeyAgreementM1,
        message_body: b"handshake-m1".to_vec(),
    };
    assert_eq!(
        bob.handle_command(OckamCommand::Channel(ChannelCommand::ReceiveMessage(stale_m1))),
        Err(ChannelError::State)
    );
    let _ = alice;
}

#[test]
fn tampered_payload_is_refused() {
    let (mut alice, mut bob, _, (a_clear, _)) = run_handshake(vec![channel_ra(0x0b0b)]);
    alice
        .handle_command(OckamCommand::Channel(ChannelCommand::SendMessage(payload_to(
            a_clear, b"genuine",
        ))))
        .unwrap();
    let (sent, _) = drain(&mut alice);
    let mut wire = sent.into_iter().next().unwrap();
    let last = wire.message_body.len() - 1;
    wire.message_body[last] ^= 0xff;
    assert_eq!(deliver(&mut bob, wire), Err(ChannelError::RecvError));
    let (sent, delivered) = drain(&mut bob);
    assert!(sent.is_empty());
    assert!(delivered.is_empty());
}
