//! A message queue core: the keys under which messages and topic lists are
//! stored, the store commands that publishing and reading issue, and the
//! registry of subscribers per topic.

pub mod connection;
pub mod ids;
pub mod keys;
pub mod message;
pub mod registry;
pub mod retrieval;
pub mod queue;
pub mod store;

pub use message::{AckMessage, Message};
pub use registry::TopicRegistry;
pub use store::StoreCommand;
