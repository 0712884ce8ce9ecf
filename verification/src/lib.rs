pub mod decode;
pub mod elem;
pub mod format;
pub mod sink;
