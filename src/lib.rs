//! Fetching a path of a parameter store page by page, and turning the
//! parameters found there into environment variables for a child process.

pub mod env_map;
pub mod fetch;
pub mod mapping;
pub mod parameter;

pub use env_map::EnvMap;
pub use fetch::{FetchError, FetchStatus, Page, PageRequest, ParameterFetch};
pub use mapping::{build_env_map, variable_name, EnvError};
pub use parameter::{EnvArgs, Parameter};
