//! What the settings window says about loading and saving.

use crate::settings::SettingsError;
use vstd::prelude::*;
use vstd::string::*;

verus! {

/// What an error about the configuration file at `path` says, with the reason behind it where there
/// is one.
pub open spec fn error_message(error: SettingsError, path: Seq<char>) -> Seq<char> {
    match error {
        SettingsError::Unparsable { reason } => "failed to parse config file "@ + path + ": "@
            + reason@,
        SettingsError::RootNotObject => "config root is not an object"@,
        SettingsError::NotAnObject { key } => "config key '"@ + key@ + "' is not an object"@,
        SettingsError::SourcesNotArray => "image.sources is not an array"@,
        SettingsError::Unprintable { reason } => "failed to serialize config: "@ + reason@,
    }
}

impl SettingsError {
    /// What the error says about the configuration file at `path`.
    pub fn message(&self, path: &str) -> (r: String)
        ensures
            r@ == error_message(*self, path@),
    {
        match self {
            SettingsError::Unparsable { reason } => {
                let mut r = "failed to parse config file ".to_owned();
                r.append(path);
                r.append(": ");
                r.append(reason.as_str());
                r
            },
            SettingsError::RootNotObject => "config root is not an object".to_owned(),
            SettingsError::NotAnObject { key } => {
                let mut r = "config key '".to_owned();
                r.append(key.as_str());
                r.append("' is not an object");
                r
            },
            SettingsError::SourcesNotArray => "image.sources is not an array".to_owned(),
            SettingsError::Unprintable { reason } => {
                let mut r = "failed to serialize config: ".to_owned();
                r.append(reason.as_str());
                r
            },
        }
    }
}

/// What the window does after an action: the line it shows from then on, where there is a new one,
/// and whether the main loop is told to reload the configuration.
#[derive(Debug)]
pub struct WindowReply {
    pub status: Option<String>,
    pub reload: bool,
}

/// A line that ends in an error.
pub open spec fn failure_line(lead: Seq<char>, error: Seq<char>) -> Option<Seq<char>> {
    Some(lead + error)
}

fn failure(lead: &str, error: &String) -> (r: WindowReply)
    ensures
        crate::text::opt_text(r.status) == failure_line(lead@, error@),
        !r.reload,
{
    let mut status = lead.to_owned();
    status.append(error.as_str());
    WindowReply { status: Some(status), reload: false }
}

/// The window opens: it shows defaults where the configuration cannot be parsed.
pub fn opened(parsed: bool) -> (r: WindowReply)
    ensures
        crate::text::opt_text(r.status) == if parsed {
            None
        } else {
            Some("配置解析失败，显示默认值。"@)
        },
        !r.reload,
{
    if parsed {
        WindowReply { status: None, reload: false }
    } else {
        WindowReply { status: Some("配置解析失败，显示默认值。".to_owned()), reload: false }
    }
}

/// The user saved.
pub fn saved(outcome: &Result<(), String>) -> (r: WindowReply)
    ensures
        crate::text::opt_text(r.status) == match *outcome {
            Ok(_) => Some("已保存并重载配置。"@),
            Err(error) => failure_line("保存失败: "@, error@),
        },
        r.reload <==> *outcome is Ok,
{
    match outcome {
        Ok(_) => WindowReply { status: Some("已保存并重载配置。".to_owned()), reload: true },
        Err(error) => failure("保存失败: ", error),
    }
}

/// The user loaded the configuration into the window again.
pub fn reloaded(outcome: &Result<(), String>) -> (r: WindowReply)
    ensures
        crate::text::opt_text(r.status) == match *outcome {
            Ok(_) => Some("已重新载入配置。"@),
            Err(error) => failure_line("重载失败: "@, error@),
        },
        !r.reload,
{
    match outcome {
        Ok(_) => WindowReply { status: Some("已重新载入配置。".to_owned()), reload: false },
        Err(error) => failure("重载失败: ", error),
    }
}

/// The user opened the configuration file elsewhere.
pub fn file_opened(outcome: &Result<(), String>) -> (r: WindowReply)
    ensures
        crate::text::opt_text(r.status) == match *outcome {
            Ok(_) => None,
            Err(error) => failure_line("打开配置文件失败: "@, error@),
        },
        !r.reload,
{
    match outcome {
        Ok(_) => WindowReply { status: None, reload: false },
        Err(error) => failure("打开配置文件失败: ", error),
    }
}

} // verus!
