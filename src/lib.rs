//! A small topic broker: a streaming command decoder for its wire protocol,
//! per-topic subscriber registries with fan-out, and the per-connection
//! decisions that tie them together.

pub mod channel;
pub mod decimal;
pub mod message;
pub mod protocol;
pub mod session;
pub mod table;
pub mod util;
