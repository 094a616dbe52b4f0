//! A secure-channel layer for an address-routed message bus.
//!
//! A channel manager creates, tracks and retires secure channels. Each
//! channel is driven through a three-message key-agreement handshake by an
//! abstract key-exchange strategy; once the handshake finalizes, user
//! payloads are transformed between a cleartext bus representation and a
//! ciphertext wire representation (a 16-bit counter nonce followed by the
//! AEAD ciphertext and tag), keyed through an abstract crypto provider.

pub mod channel;
pub mod codec;
pub mod commands;
pub mod config;
pub mod error;
pub mod kex;
pub mod manager;
pub mod message;
pub mod vault;
