//! A reconnecting chat client's core: the packet grammar of the wire, the
//! framing and session rules of the connection, and the registry of word wars
//! with their pending notifications.

pub mod bytes;
pub mod clock;
pub mod hooks;
pub mod packet;
pub mod request;
pub mod session;
pub mod war;
pub mod wars;
pub mod wire;
pub mod wordwar;
