//! Clipboard sharing between computers: the wire protocol, the rules that
//! decide what is shared, and the platform-independent parts of the
//! clipboard back ends.

pub mod protocol;
pub mod clipboard;
pub mod connection;
pub mod text;
pub mod settings;
pub mod config;
pub mod routing;
pub mod entries;
pub mod platform;
pub mod util;
