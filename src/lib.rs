//! Sandboxed project file access and external worker invocation for a
//! desktop script-writing tool.
//!
//! Paths from clients are resolved lexically below a project root
//! (`sandbox`), directory listings are filtered and ordered (`tree`),
//! imported files get collision-free names (`assets`), and the worker process
//! is described and its answers judged (`worker`, `dispatch`).

pub mod error;
pub mod text;
pub mod order;
pub mod sandbox;
pub mod tree;
pub mod assets;
pub mod worker;
pub mod dispatch;
pub mod filesystem;
pub mod models;
pub mod api;
