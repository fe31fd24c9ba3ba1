pub mod args;
pub mod errors;
pub mod laws;
pub mod log;
pub mod storage;

pub use args::Args;
pub use errors::ArgsParseError;
pub use errors::UnknownAction;
pub use storage::KVAction;
pub use storage::KVStorage;
