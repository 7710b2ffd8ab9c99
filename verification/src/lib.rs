pub mod models;
pub mod codec;
pub mod dispatch;
pub mod project;
pub mod store;
