//! Plain-data counterparts of the messages of the serialized graph format.

pub mod node_def;
pub mod resource_handle;
pub mod tensor;
pub mod types;
