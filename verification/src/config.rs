//! The user's settings and the choices made from them.
use vstd::prelude::*;
use crate::text::{copy_text, opt_view};

verus! {

/// The colors of the dashboard, as named in the settings.
#[derive(Debug, Clone)]
pub struct ThemeConfig {
    pub active_border: String,
    pub highlight_bg: String,
    pub highlight_fg: String,
}

/// The user's settings.
#[derive(Debug, Clone)]
pub struct Config {
    pub editor: Option<String>,
    pub db_path: Option<String>,
    pub syntax_highlighting: Option<bool>,
    pub theme: ThemeConfig,
}

impl Default for Config {
    /// No editor and no store path set, highlighting on, a yellow active
    /// border and black on cyan for the selection.
    fn default() -> (r: Config)
        ensures
            r.editor is None,
            r.db_path is None,
            r.syntax_highlighting == Some(true),
            r.theme.active_border@ == "yellow"@,
            r.theme.highlight_bg@ == "cyan"@,
            r.theme.highlight_fg@ == "black"@,
    {
        Config {
            editor: None,
            db_path: None,
            syntax_highlighting: Some(true),
            theme: ThemeConfig {
                active_border: copy_text("yellow"),
                highlight_bg: copy_text("cyan"),
                highlight_fg: copy_text("black"),
            },
        }
    }
}

/// The store's path when one is set: the settings' path first, then the
/// one from the environment (`JOTUN_DB_PATH`). `None` means the default
/// place in the user's data directory.
pub fn explicit_db_path(config: &Config, from_env: Option<String>) -> (r: Option<String>)
    ensures
        opt_view(r) == match config.db_path {
            Some(p) => Some(p@),
            None => opt_view(from_env),
        },
{
    match &config.db_path {
        Some(p) => Some(p.clone()),
        None => from_env,
    }
}

/// The editor to run: the one in the settings, else `$VISUAL`, else
/// `$EDITOR`, else `nano`.
pub fn choose_editor(config: &Config, visual: Option<String>, editor: Option<String>) -> (r: String)
    ensures
        r@ == match config.editor {
            Some(e) => e@,
            None => match visual {
                Some(v) => v@,
                None => match editor {
                    Some(e) => e@,
                    None => "nano"@,
                },
            },
        },
{
    match &config.editor {
        Some(e) => e.clone(),
        None => match visual {
            Some(v) => v,
            None => match editor {
                Some(e) => e,
                None => copy_text("nano"),
            },
        },
    }
}

/// Whether an editor that could not be started gives way to `nano`: every
/// editor but `nano` itself.
pub fn falls_back_to_nano(preferred: &str) -> (r: bool)
    ensures
        r == (preferred@ != "nano"@),
{
    !crate::text::text_eq(preferred, "nano")
}

} // verus!
