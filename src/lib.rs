//! A partitioned, append-only message broker: streams hold topics, topics hold
//! partitions and consumer groups, partitions hold segments of messages.
//!
//! The wire formats (commands, poll responses, segment logs and their sparse indexes)
//! are encoded and decoded here with proofs that each reads back what was written;
//! transport, clocks and files are left to the caller.

pub mod bytes;
pub mod checksum;
pub mod clients;
pub mod command;
pub mod consumer_group;
pub mod consumer_type;
pub mod error;
pub mod get_offset;
pub mod index;
pub mod message;
pub mod metadata;
pub mod partition;
pub mod poll;
pub mod send;
pub mod store_offset;
pub mod system;
pub mod text;
pub mod topic;
