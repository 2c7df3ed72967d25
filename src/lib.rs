pub mod entry;
pub mod range;
pub mod session;
pub mod sink;
