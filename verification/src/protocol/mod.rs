pub mod clipboard;
pub mod handshake;
pub mod wire;
