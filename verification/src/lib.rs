//! Application catalogue logic for a Windows launcher.
pub mod text;
pub mod number;
pub mod env;
pub mod display_icon;
pub mod cache_key;
pub mod powershell;
pub mod paths;
pub mod order;
pub mod registry;
pub mod apps;
pub mod launch;
