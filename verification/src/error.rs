//! Error types of the library and their messages.

use vstd::prelude::*;

use crate::text::{owned, push_text};

verus! {

/// What can go wrong while reading or rewriting `loginusers.vdf`.
#[derive(Clone, Copy, Debug, PartialEq, Eq, Structural)]
pub enum VdfError {
    /// A token was expected but the input ended.
    UnexpectedEnd,
    /// A token was expected but another character stood there.
    UnexpectedByte { expected: char, found: char },
    /// The input ended inside a quoted string.
    UnterminatedString,
    /// The input ended right after a backslash inside a quoted string.
    UnterminatedEscape,
    /// Something other than whitespace follows the last top-level field.
    TrailingContent,
    /// No top-level field is named `users`.
    MissingUsers,
    /// The first top-level field named `users` holds a text, not an object.
    UsersNotObject,
    /// No remembered account matches the selector.
    AccountNotFound,
}

/// Errors of the three commands.
#[derive(Clone, Debug, PartialEq, Eq)]
pub enum AppError {
    /// `loginusers.vdf` could not be read or rewritten.
    Vdf(VdfError),
    /// Neither an override nor the registry names the Steam directory.
    SteamPathMissing,
    /// Neither an override nor the registry names the Steam executable.
    SteamExeMissing,
    /// The resolved Steam directory is not a directory.
    SteamPathNotFound(String),
    /// The resolved Steam executable is not a file.
    SteamExeNotFound(String),
    /// `loginusers.vdf` does not exist at the given path.
    LoginUsersMissing(String),
    /// No remembered account matches the selector.
    AccountNotFound,
    /// The selected account has no `AccountName`.
    MissingAccountName,
    /// Express mode needs `RememberPassword=1`; the named account does not have it.
    RememberPasswordRequired(String),
    /// Steam did not exit even after being killed.
    SteamStillRunning,
    /// A registry, process or file service failed, with its message.
    Service(String),
}

/// What `{:?}` writes for a character.
pub uninterp spec fn debug_char_text(c: char) -> Seq<char>;

/// `<char as Debug>::fmt`, through `format!("{:?}", c)`: the character between single
/// quotes, escaped as `char::escape_debug` does. For ASCII the result is stated: `\0`, `\t`,
/// `\r`, `\n`, `\\` and `\'` are escaped, the other printable characters (space to `~`)
/// stand for themselves. For other characters it depends on Unicode's printable and
/// grapheme-extend tables, and only its name is given.
#[verifier::external_body]
fn debug_char(c: char) -> (r: String)
    ensures
        r@ == debug_char_text(c),
        c == '\0' ==> r@ == "'\\0'"@,
        c == '\t' ==> r@ == "'\\t'"@,
        c == '\r' ==> r@ == "'\\r'"@,
        c == '\n' ==> r@ == "'\\n'"@,
        c == '\\' ==> r@ == "'\\\\'"@,
        c == '\'' ==> r@ == "'\\''"@,
        ' ' <= c <= '~' && c != '\\' && c != '\'' ==> r@ == seq!['\'', c, '\''],
{
    format!("{:?}", c)
}

pub open spec fn vdf_error_message(e: VdfError) -> Seq<char> {
    match e {
        VdfError::UnexpectedEnd => "Unexpected end of file"@,
        VdfError::UnexpectedByte { expected, found } => "Expected byte "@ + debug_char_text(
            expected,
        ) + ", found "@ + debug_char_text(found),
        VdfError::UnterminatedString => "Unexpected end of file while parsing VDF string"@,
        VdfError::UnterminatedEscape => "Unexpected end of file while parsing escaped VDF string"@,
        VdfError::TrailingContent => "Unexpected trailing content in loginusers.vdf"@,
        VdfError::MissingUsers => "Top-level \"users\" object is missing from loginusers.vdf"@,
        VdfError::UsersNotObject => "Top-level \"users\" entry must be an object"@,
        VdfError::AccountNotFound => "Target account was not found in loginusers.vdf"@,
    }
}

pub open spec fn app_error_message(e: AppError) -> Seq<char> {
    match e {
        AppError::Vdf(v) => vdf_error_message(v),
        AppError::SteamPathMissing =>
            "SteamPath is missing. Pass --steam-dir or ensure HKCU\\Software\\Valve\\Steam\\SteamPath exists."@,
        AppError::SteamExeMissing =>
            "SteamExe is missing. Pass --steam-exe or ensure HKCU\\Software\\Valve\\Steam\\SteamExe exists."@,
        AppError::SteamPathNotFound(path) => "SteamPath was not found at "@ + path@,
        AppError::SteamExeNotFound(path) => "SteamExe was not found at "@ + path@,
        AppError::LoginUsersMissing(path) => path@ + " was not found"@,
        AppError::AccountNotFound => "Target account was not found in loginusers.vdf"@,
        AppError::MissingAccountName =>
            "Target account is missing AccountName and cannot become AutoLoginUser"@,
        AppError::RememberPasswordRequired(name) => "Account "@ + name@
            + " does not have RememberPassword=1 and cannot use express mode"@,
        AppError::SteamStillRunning => "Steam processes are still running after force kill"@,
        AppError::Service(message) => message@,
    }
}

impl VdfError {
    /// The human-readable message of the error.
    pub fn message(&self) -> (r: String)
        ensures
            r@ == vdf_error_message(*self),
    {
        match self {
            VdfError::UnexpectedEnd => owned("Unexpected end of file"),
            VdfError::UnexpectedByte { expected, found } => {
                let mut out = owned("Expected byte ");
                let shown = debug_char(*expected);
                push_text(&mut out, shown.as_str());
                push_text(&mut out, ", found ");
                let shown = debug_char(*found);
                push_text(&mut out, shown.as_str());
                out
            },
            VdfError::UnterminatedString => owned("Unexpected end of file while parsing VDF string"),
            VdfError::UnterminatedEscape => owned(
                "Unexpected end of file while parsing escaped VDF string",
            ),
            VdfError::TrailingContent => owned("Unexpected trailing content in loginusers.vdf"),
            VdfError::MissingUsers => owned(
                "Top-level \"users\" object is missing from loginusers.vdf",
            ),
            VdfError::UsersNotObject => owned("Top-level \"users\" entry must be an object"),
            VdfError::AccountNotFound => owned("Target account was not found in loginusers.vdf"),
        }
    }
}

impl AppError {
    /// The human-readable message of the error.
    pub fn message(&self) -> (r: String)
        ensures
            r@ == app_error_message(*self),
    {
        match self {
            AppError::Vdf(v) => v.message(),
            AppError::SteamPathMissing => owned(
                "SteamPath is missing. Pass --steam-dir or ensure HKCU\\Software\\Valve\\Steam\\SteamPath exists.",
            ),
            AppError::SteamExeMissing => owned(
                "SteamExe is missing. Pass --steam-exe or ensure HKCU\\Software\\Valve\\Steam\\SteamExe exists.",
            ),
            AppError::SteamPathNotFound(path) => {
                let mut out = owned("SteamPath was not found at ");
                push_text(&mut out, path.as_str());
                out
            },
            AppError::SteamExeNotFound(path) => {
                let mut out = owned("SteamExe was not found at ");
                push_text(&mut out, path.as_str());
                out
            },
            AppError::LoginUsersMissing(path) => {
                let mut out = owned(path.as_str());
                push_text(&mut out, " was not found");
                out
            },
            AppError::AccountNotFound => owned("Target account was not found in loginusers.vdf"),
            AppError::MissingAccountName => owned(
                "Target account is missing AccountName and cannot become AutoLoginUser",
            ),
            AppError::RememberPasswordRequired(name) => {
                let mut out = owned("Account ");
                push_text(&mut out, name.as_str());
                push_text(&mut out, " does not have RememberPassword=1 and cannot use express mode");
                out
            },
            AppError::SteamStillRunning => owned(
                "Steam processes are still running after force kill",
            ),
            AppError::Service(message) => owned(message.as_str()),
        }
    }
}

} // verus!
