//! Record-parsing core of a reader for the ROS bag binary log format: a bounds-checked
//! cursor over a byte buffer, the two-phase (header, then data) record protocol, the
//! chunk record, and the traversals of the records nested in a chunk.
pub mod chunk;
pub mod cursor;
pub mod error;
pub mod header;
pub mod msg_iter;
pub mod records;

pub use chunk::{Chunk, ChunkHeader, Compression};
pub use cursor::Cursor;
pub use error::{Error, OutOfBounds};
pub use msg_iter::{ChunkMessagesIterator, ChunkRecordsIterator};
pub use records::{ChunkRecord, RecordKind};
