pub mod cli;
pub mod fixture;
pub mod reader;
pub mod text;
pub mod units;

pub use cli::is_help_flag;
pub use fixture::{fixture_file_name, fixture_path};
