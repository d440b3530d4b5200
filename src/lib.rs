//! Request logging core: canonical records, time partitions, binary encoding
//! and length-framed storage of records.

pub mod text;
pub mod partition;
pub mod record;
pub mod encode;
pub mod frame;
pub mod ingest;
pub mod service;
pub mod store;

pub use encode::{json_to_bytes, status_code, LogError};
pub use frame::{frame_record, split_records};
pub use ingest::{capture_time, entry_for, log_msgpack, prepare_log_entry, LogEntry, PartitionKey};
pub use partition::{date, date_hour_min, LocalTime};
pub use record::{append_str, build_record};
pub use service::{add, concat_host_port, echo, hi};
pub use store::MemoryStore;
