pub mod json;
pub mod text;
pub mod paths;
pub mod ids;
pub mod decimal;
pub mod copy_map;
pub mod time;
pub mod vscode_session;
pub mod vscode_ext;
pub mod account_profile;
pub mod copy_step;
