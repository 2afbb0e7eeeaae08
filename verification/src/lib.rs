pub mod brew;
pub mod cli;
pub mod commands;
pub mod config;
pub mod defaults;
pub mod domains;
pub mod exec;
pub mod external;
pub mod logging;
pub mod number;
pub mod snapshot;
pub mod system;
pub mod text;
pub mod value;
pub mod vars;
pub mod version;
