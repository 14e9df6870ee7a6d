//! State machines of a light client: the engine that drives one multi-stream peer connection,
//! and the composite that coordinates the chain syncing strategies, with the framing of the
//! streams and the tables that they keep their records in.

pub mod envelope;
pub mod leb128;
pub mod multi_stream;
pub mod read_write;
pub mod sync;
pub mod table;
