//! Exporting and importing the router's initial configuration file.
use vstd::prelude::*;

use crate::render::push_str;
use crate::text::string_from_chars;

verus! {

/// An exported configuration file: its suggested name, version and text.
#[derive(Debug, Clone)]
pub struct ExportInitConfigResponse {
    pub filename: String,
    pub version: String,
    pub content: String,
}

/// Whether an import only checks the file.
#[derive(Debug, Clone, Copy, PartialEq, Eq, Structural)]
pub struct ImportInitConfigQuery {
    pub upload_only: bool,
}

/// The outcome of an import: the file's version, and the name it was stored
/// under unless it was only checked.
#[derive(Debug, Clone)]
pub struct ImportInitConfigResponse {
    pub version: String,
    pub filename: Option<String>,
    pub upload_only: bool,
}

/// Imports only check the file unless asked otherwise.
pub fn default_upload_only() -> (r: bool)
    ensures
        r,
{
    true
}

/// The name of an exported configuration file of a version.
pub fn init_config_filename(version: &str) -> (r: String)
    ensures
        r@ == "landscape_init_v"@ + version@ + ".toml"@,
{
    let mut text: Vec<char> = Vec::new();
    push_str(&mut text, "landscape_init_v");
    push_str(&mut text, version);
    push_str(&mut text, ".toml");
    string_from_chars(text.as_slice())
}

} // verus!
