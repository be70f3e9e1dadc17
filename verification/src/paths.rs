//! Where Steam lives: explicit overrides first, then the registry, never a guess.
//!
//! Paths are Windows paths held as text; `\` separates components.

use vstd::prelude::*;
use vstd::string::StrSliceExecFns;

use crate::error::AppError;
use crate::registry::RegistryStore;
use crate::text::{owned, push_char, push_text};

verus! {

/// Paths given on the command line, which take priority over the registry.
#[derive(Clone, Debug)]
pub struct PathOverrides {
    pub steam_dir: Option<String>,
    pub steam_exe: Option<String>,
}

impl Default for PathOverrides {
    /// No override: both paths come from the registry.
    fn default() -> (r: Self)
        ensures
            r.steam_dir is None,
            r.steam_exe is None,
    {
        PathOverrides { steam_dir: None, steam_exe: None }
    }
}

/// Everything `refresh` and `start` need to know about the installation.
#[derive(Clone, Debug)]
pub struct ResolvedSteamPaths {
    pub steam_dir: String,
    pub steam_exe: String,
    pub loginusers_vdf: String,
}

/// What `login-new` needs: only the executable.
#[derive(Clone, Debug)]
pub struct ResolvedLaunchPaths {
    pub steam_exe: String,
}

pub open spec fn is_separator(c: char) -> bool {
    c == '\\' || c == '/'
}

/// A bare drive such as `C:`, to which a relative component is appended without separator.
pub open spec fn is_bare_drive(p: Seq<char>) -> bool {
    p.len() == 2 && (('a' <= p[0] && p[0] <= 'z') || ('A' <= p[0] && p[0] <= 'Z')) && p[1] == ':'
}

/// `Path::join` on Windows for a relative component: a backslash goes between them unless
/// the base is empty, already ends with a separator, or is a bare drive.
pub open spec fn join_path(base: Seq<char>, component: Seq<char>) -> Seq<char> {
    if base.len() == 0 || is_separator(base.last()) || is_bare_drive(base) {
        base + component
    } else {
        base + seq!['\\'] + component
    }
}

/// `<steam dir>\config\loginusers.vdf`.
pub open spec fn loginusers_path(steam_dir: Seq<char>) -> Seq<char> {
    join_path(join_path(steam_dir, "config"@), "loginusers.vdf"@)
}

pub open spec fn text_of_option(t: Option<String>) -> Option<Seq<char>> {
    match t {
        Some(s) => Some(s@),
        None => None,
    }
}

/// The override when there is one, else what the registry holds.
pub open spec fn preferred(overridden: Option<String>, stored: Option<String>) -> Option<Seq<char>> {
    match overridden {
        Some(s) => Some(s@),
        None => text_of_option(stored),
    }
}

pub fn join_path_text(base: &str, component: &str) -> (r: String)
    ensures
        r@ == join_path(base@, component@),
{
    let mut out = owned(base);
    let n = base.unicode_len();
    let plain = if n == 0 {
        true
    } else {
        let last = base.get_char(n - 1);
        if last == '\\' || last == '/' {
            true
        } else if n == 2 {
            let d = base.get_char(0);
            (('a' <= d && d <= 'z') || ('A' <= d && d <= 'Z')) && base.get_char(1) == ':'
        } else {
            false
        }
    };
    if !plain {
        push_char(&mut out, '\\');
    }
    push_text(&mut out, component);
    out
}

fn prefer(overridden: &Option<String>, stored: Option<String>) -> (r: Option<String>)
    ensures
        text_of_option(r) == preferred(*overridden, stored),
{
    match overridden {
        Some(s) => Some(s.clone()),
        None => stored,
    }
}

/// The paths that overrides and registry values give: each override wins over the registry
/// value; a directory or executable that neither gives is an error, the directory first.
pub fn steam_paths_from(
    overrides: &PathOverrides,
    registry_dir: Option<String>,
    registry_exe: Option<String>,
) -> (r: Result<ResolvedSteamPaths, AppError>)
    ensures
        match preferred(overrides.steam_dir, registry_dir) {
            None => r == Err::<ResolvedSteamPaths, AppError>(AppError::SteamPathMissing),
            Some(dir) => match preferred(overrides.steam_exe, registry_exe) {
                None => r == Err::<ResolvedSteamPaths, AppError>(AppError::SteamExeMissing),
                Some(exe) => r matches Ok(p) && p.steam_dir@ == dir && p.steam_exe@ == exe
                    && p.loginusers_vdf@ == loginusers_path(dir),
            },
        },
{
    let steam_dir = match prefer(&overrides.steam_dir, registry_dir) {
        Some(d) => d,
        None => {
            return Err(AppError::SteamPathMissing);
        },
    };
    let steam_exe = match prefer(&overrides.steam_exe, registry_exe) {
        Some(e) => e,
        None => {
            return Err(AppError::SteamExeMissing);
        },
    };
    let config = join_path_text(steam_dir.as_str(), "config");
    let loginusers_vdf = join_path_text(config.as_str(), "loginusers.vdf");
    Ok(ResolvedSteamPaths { steam_dir, steam_exe, loginusers_vdf })
}

/// The executable that the override or the registry value gives.
pub fn launch_paths_from(overrides: &PathOverrides, registry_exe: Option<String>) -> (r: Result<
    ResolvedLaunchPaths,
    AppError,
>)
    ensures
        match preferred(overrides.steam_exe, registry_exe) {
            None => r == Err::<ResolvedLaunchPaths, AppError>(AppError::SteamExeMissing),
            Some(exe) => r matches Ok(p) && p.steam_exe@ == exe,
        },
{
    match prefer(&overrides.steam_exe, registry_exe) {
        Some(steam_exe) => Ok(ResolvedLaunchPaths { steam_exe }),
        None => Err(AppError::SteamExeMissing),
    }
}

/// The directory and executable that `resolve_steam_paths` settles on, from the overrides
/// and what the registry answers for `SteamPath` and `SteamExe`: an override is taken as it
/// is; without one the registry's answer is used, its error passed on and its absence an
/// error; the directory is settled before the executable is looked at.
pub open spec fn resolved_paths(
    overrides: PathOverrides,
    dir_answer: Result<Option<String>, AppError>,
    exe_answer: Result<Option<String>, AppError>,
) -> Result<(Seq<char>, Seq<char>), AppError> {
    match resolved_path(overrides.steam_dir, dir_answer, AppError::SteamPathMissing) {
        Err(e) => Err(e),
        Ok(dir) => match resolved_path(overrides.steam_exe, exe_answer, AppError::SteamExeMissing) {
            Err(e) => Err(e),
            Ok(exe) => Ok((dir, exe)),
        },
    }
}

/// One path: the override when there is one, else the registry's answer, whose absence is
/// `missing`.
pub open spec fn resolved_path(
    overridden: Option<String>,
    answer: Result<Option<String>, AppError>,
    missing: AppError,
) -> Result<Seq<char>, AppError> {
    match overridden {
        Some(p) => Ok(p@),
        None => match answer {
            Err(e) => Err(e),
            Ok(None) => Err(missing),
            Ok(Some(p)) => Ok(p@),
        },
    }
}

/// Without an override each path is the registry's value, and with one the override wins:
/// when the directory is not overridden and the registry holds `d`, the directory is `d`
/// whenever an executable comes from the override or from the registry; an executable
/// override is taken as given, a registry executable when there is none; a directory that
/// neither gives is `SteamPathMissing`, whatever the executable.
pub proof fn lemma_registry_fills_missing_paths(
    overrides: PathOverrides,
    dir_answer: Result<Option<String>, AppError>,
    exe_answer: Result<Option<String>, AppError>,
)
    ensures
        overrides.steam_dir is None ==> (dir_answer matches Ok(Some(d)) ==> {
            &&& (overrides.steam_exe matches Some(e) ==> resolved_paths(overrides, dir_answer, exe_answer)
                == Ok::<(Seq<char>, Seq<char>), AppError>((d@, e@)))
            &&& (overrides.steam_exe is None ==> (exe_answer matches Ok(Some(x)) ==> resolved_paths(
                overrides,
                dir_answer,
                exe_answer,
            ) == Ok::<(Seq<char>, Seq<char>), AppError>((d@, x@))))
        }),
        overrides.steam_dir matches Some(d) ==> {
            &&& (overrides.steam_exe matches Some(e) ==> resolved_paths(overrides, dir_answer, exe_answer)
                == Ok::<(Seq<char>, Seq<char>), AppError>((d@, e@)))
            &&& (overrides.steam_exe is None ==> (exe_answer matches Ok(Some(x)) ==> resolved_paths(
                overrides,
                dir_answer,
                exe_answer,
            ) == Ok::<(Seq<char>, Seq<char>), AppError>((d@, x@))))
        },
        overrides.steam_dir is None && dir_answer == Ok::<Option<String>, AppError>(None)
            ==> resolved_paths(overrides, dir_answer, exe_answer) == Err::<
            (Seq<char>, Seq<char>),
            AppError,
        >(AppError::SteamPathMissing),
{
}

/// Resolves the installation paths. The registry is read only for a path that has no
/// override: first the directory, and then, once a directory is known, the executable; a
/// failed read is passed on.
pub fn resolve_steam_paths<R: RegistryStore>(overrides: &PathOverrides, registry: &R) -> (r: Result<
    ResolvedSteamPaths,
    AppError,
>)
    ensures
        match resolved_paths(*overrides, registry.steam_path_answer(), registry.steam_exe_answer()) {
            Ok((dir, exe)) => r matches Ok(p) && p.steam_dir@ == dir && p.steam_exe@ == exe
                && p.loginusers_vdf@ == loginusers_path(dir),
            Err(e) => r == Err::<ResolvedSteamPaths, AppError>(e),
        },
        r matches Ok(p) ==> {
            &&& (overrides.steam_dir matches Some(d) ==> p.steam_dir@ == d@)
            &&& (overrides.steam_exe matches Some(e) ==> p.steam_exe@ == e@)
            &&& p.loginusers_vdf@ == loginusers_path(p.steam_dir@)
        },
        overrides.steam_dir matches Some(d) ==> overrides.steam_exe matches Some(e) ==> r matches Ok(
            p,
        ) && p.steam_dir@ == d@ && p.steam_exe@ == e@ && p.loginusers_vdf@ == loginusers_path(d@),
{
    let registry_dir = match &overrides.steam_dir {
        Some(_) => None,
        None => registry.read_steam_path()?,
    };
    if overrides.steam_dir.is_none() && registry_dir.is_none() {
        return Err(AppError::SteamPathMissing);
    }
    let registry_exe = match &overrides.steam_exe {
        Some(_) => None,
        None => registry.read_steam_exe()?,
    };
    steam_paths_from(overrides, registry_dir, registry_exe)
}

/// Resolves the executable: the override, else the registry value, which is read only
/// when there is no override.
pub fn resolve_launch_paths<R: RegistryStore>(overrides: &PathOverrides, registry: &R) -> (r: Result<
    ResolvedLaunchPaths,
    AppError,
>)
    ensures
        match resolved_path(overrides.steam_exe, registry.steam_exe_answer(), AppError::SteamExeMissing) {
            Ok(exe) => r matches Ok(p) && p.steam_exe@ == exe,
            Err(e) => r == Err::<ResolvedLaunchPaths, AppError>(e),
        },
        r matches Ok(p) ==> (overrides.steam_exe matches Some(e) ==> p.steam_exe@ == e@),
        overrides.steam_exe matches Some(e) ==> r matches Ok(p) && p.steam_exe@ == e@,
{
    let registry_exe = match &overrides.steam_exe {
        Some(_) => None,
        None => registry.read_steam_exe()?,
    };
    launch_paths_from(overrides, registry_exe)
}

} // verus!
