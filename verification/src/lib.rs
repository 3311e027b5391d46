//! A package manager for the npm registry: the data model, version
//! resolution, dependency bookkeeping and the rules of its commands.
pub mod bindings;
pub mod cli;
pub mod config;
pub mod downloader;
pub mod error;
pub mod package;
pub mod registry;
pub mod resolver;
pub mod strmap;
pub mod text;

pub use config::Config;
pub use downloader::Downloader;
pub use error::CNodeError;
pub use package::Package;
pub use registry::Registry;
pub use resolver::Resolver;
pub use strmap::StringMap;
