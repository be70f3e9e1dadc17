//! The registry values that Steam keeps under `HKCU\Software\Valve\Steam`.

use vstd::prelude::*;

use crate::app::ServiceCall;
use crate::error::AppError;
use crate::text::{is_blank, trim};

verus! {

/// Access to `SteamPath`, `SteamExe` and `AutoLoginUser`. A missing or blank value reads
/// as `None`.
pub trait RegistryStore {
    /// What `read_steam_path` gives in the store's present state. An implementation that
    /// Verus checks defines it; the default says nothing.
    closed spec fn steam_path_answer(&self) -> Result<Option<String>, AppError> {
        arbitrary()
    }

    /// What `read_steam_exe` gives in the store's present state.
    closed spec fn steam_exe_answer(&self) -> Result<Option<String>, AppError> {
        arbitrary()
    }

    /// What `read_auto_login_user` gives in the store's present state.
    closed spec fn auto_login_user_answer(&self) -> Result<Option<String>, AppError> {
        arbitrary()
    }

    /// The writes made to this store so far, each with its value and answer, oldest first.
    closed spec fn writes(&self) -> Seq<ServiceCall> {
        arbitrary()
    }

    fn read_steam_path(&self) -> (r: Result<Option<String>, AppError>)
        ensures
            r == self.steam_path_answer(),
    ;

    fn read_steam_exe(&self) -> (r: Result<Option<String>, AppError>)
        ensures
            r == self.steam_exe_answer(),
    ;

    fn read_auto_login_user(&self) -> (r: Result<Option<String>, AppError>)
        ensures
            r == self.auto_login_user_answer(),
    ;

    fn write_auto_login_user(&mut self, value: &str) -> (r: Result<(), AppError>)
        ensures
            final(self).writes() == old(self).writes().push(
                ServiceCall::WriteAutoLoginUser(value@, r),
            ),
    ;
}

/// A stored string value as the switcher sees it: a value that is empty or only
/// whitespace counts as absent.
pub open spec fn meaningful_value(value: Option<String>) -> Option<Seq<char>> {
    match value {
        Some(v) => if trim(v@).len() == 0 {
            None
        } else {
            Some(v@)
        },
        None => None,
    }
}

/// Drops a blank registry value.
pub fn registry_value_text(value: Option<String>) -> (r: Option<String>)
    ensures
        match r {
            Some(v) => meaningful_value(value) == Some(v@),
            None => meaningful_value(value) == None::<Seq<char>>,
        },
{
    match value {
        Some(v) => {
            if is_blank(v.as_str()) {
                None
            } else {
                Some(v)
            }
        },
        None => None,
    }
}

} // verus!
