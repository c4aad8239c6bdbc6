//! A personal task tracker library: task records, a serialized-file store
//! with an in-memory cache, and the configuration that selects a storage
//! backend from a connection URL.

pub mod arguments;
pub mod codec;
pub mod config;
pub mod error;
pub mod paths;
pub mod persistence;
pub mod task;
pub mod tasks;

pub use persistence::Repository;
pub use persistence::file_repository::FileRepository;
pub use tasks::new_task::NewTask;
pub use tasks::task::Task;
