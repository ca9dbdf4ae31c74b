//! Networking core of a lightweight game-protocol server: the wire codec,
//! frame assembly, connection and listener decisions, the connection
//! registry, coordinated shutdown and the fixed-rate tick clock.
//!
//! The crate holds the logic only. Sockets, tasks, clocks and logs belong to
//! the program around it, which hands events in and acts on what comes back.

pub mod network;
pub mod packet_buffer;
pub mod shutdown;
pub mod tick;

pub use packet_buffer::read::ByteLimitCheck;
pub use packet_buffer::read::PacketBufferRead;
pub use packet_buffer::write::PacketBufferWrite;
pub use packet_buffer::ErrorKind;
pub use packet_buffer::PacketBufferError;
