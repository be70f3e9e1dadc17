//! The three commands, `refresh`, `login-new` and `start`, over abstract registry, process
//! and file services.
//!
//! What each command decides from what it has read stands in a function of its own with an
//! exact contract (`list_accounts`, `select_start_target`, `switch_document`); the commands
//! call the services and those functions in the order that keeps Steam stopped while its
//! state is rewritten. Every call that a command makes on a service goes through a method of
//! `App` that makes the call and records it, with its answer, in a ghost log (`App::log`).
//! Each command's contract says, for the answers recorded, which calls it made in which
//! order and what it returned (`refresh_run`, `login_new_run`, `start_run`), and that each
//! service recorded exactly the calls of the log that went to it (`recorded_after`); the laws
//! `lemma_login_new_stops_steam_first`, `lemma_start_stops_steam_first`,
//! `lemma_login_new_leaves_loginusers_alone`, `lemma_login_new_waits_in_full` and
//! `lemma_start_waits_in_full` follow from them.

use vstd::prelude::*;

use crate::error::{AppError, VdfError};
use crate::loginusers_vdf::{
    LoginUsersVdf, account_record, account_records, activate_root, activated_record, first_selected,
    first_selected_member, text_view,
    users_fields,
};
use crate::paths::{
    PathOverrides, ResolvedSteamPaths, launch_paths_from, steam_paths_from, loginusers_path, text_of_option,
};
use crate::process_control::{ProcessController, steam_process_names};
use crate::registry::RegistryStore;
use crate::steam::{
    AccountRecord, AccountSelector, StartMode, SteamAccount, records, selects,
    sort_accounts, stable_sorted,
};
use crate::text::{decimal, owned, push_text, wide_decimal_text};
use crate::vdf_parse::document_fields;
use crate::vdf_render::render_fields;

verus! {

/// Seconds to wait for Steam to exit, after the shutdown request and again after killing it.
pub const SHUTDOWN_TIMEOUT_SECS: u64 = 5;

/// Reading and atomically replacing files.
pub trait FileStore {
    /// What `path_exists` gives for `path` in the store's present state. An implementation
    /// that Verus checks defines it; the default says nothing.
    closed spec fn exists_answer(&self, path: Seq<char>) -> bool {
        arbitrary()
    }

    /// What `read_to_string` gives for `path` in the store's present state.
    closed spec fn read_answer(&self, path: Seq<char>) -> Result<String, AppError> {
        arbitrary()
    }

    /// The writes made to this store so far, each with its path, text and answer, oldest
    /// first.
    closed spec fn writes(&self) -> Seq<ServiceCall> {
        arbitrary()
    }

    fn path_exists(&self, path: &str) -> (r: bool)
        ensures
            r == self.exists_answer(path@),
    ;

    fn read_to_string(&self, path: &str) -> (r: Result<String, AppError>)
        ensures
            r == self.read_answer(path@),
    ;

    /// Writes `contents` to a temporary file beside `path`, then replaces `path` with it;
    /// on failure `path` is left as it was.
    fn write_atomic_string(&mut self, path: &str, contents: &str) -> (r: Result<(), AppError>)
        ensures
            final(self).writes() == old(self).writes().push(
                ServiceCall::WriteFile(path@, contents@, r),
            ),
    ;
}

/// The name of the temporary file that an atomic write of `file_name` goes through first:
/// `<file_name>.<nonce>.tmp`, the nonce being the time of the write in nanoseconds.
pub fn temp_file_name(file_name: &str, nonce: u128) -> (r: String)
    ensures
        r@ == file_name@ + "."@ + decimal(nonce as nat) + ".tmp"@,
{
    let mut out = owned(file_name);
    push_text(&mut out, ".");
    let digits = wide_decimal_text(nonce);
    push_text(&mut out, digits.as_str());
    push_text(&mut out, ".tmp");
    out
}

/// `Path::is_file`: whether a regular file exists at the path. The answer depends on the
/// disk, so nothing is claimed of it.
#[verifier::external_body]
fn path_is_file(path: &str) -> bool {
    std::path::Path::new(path).is_file()
}

/// `Path::is_dir`: whether a directory exists at the path. The answer depends on the disk,
/// so nothing is claimed of it.
#[verifier::external_body]
fn path_is_dir(path: &str) -> bool {
    std::path::Path::new(path).is_dir()
}

/// Fails unless the Steam executable exists as a file.
pub fn validate_existing_file(path: &str) -> (r: Result<(), AppError>)
    ensures
        r matches Err(e) ==> e matches AppError::SteamExeNotFound(p) && p@ == path@,
{
    if path_is_file(path) {
        Ok(())
    } else {
        Err(AppError::SteamExeNotFound(owned(path)))
    }
}

/// Fails unless the Steam directory exists as a directory.
pub fn validate_existing_dir(path: &str) -> (r: Result<(), AppError>)
    ensures
        r matches Err(e) ==> e matches AppError::SteamPathNotFound(p) && p@ == path@,
{
    if path_is_dir(path) {
        Ok(())
    } else {
        Err(AppError::SteamPathNotFound(owned(path)))
    }
}

/// The account to switch to and how to start it.
#[derive(Clone, Debug)]
pub struct StartRequest {
    pub selector: AccountSelector,
    pub mode: StartMode,
}

/// The listing of a `loginusers.vdf` text: its accounts, marked against the auto-login
/// user, stably sorted in the listing order.
pub open spec fn listing_of(
    text: Seq<char>,
    auto_login_user: Option<Seq<char>>,
    listed: Seq<SteamAccount>,
) -> bool {
    match document_fields(text) {
        Ok(doc) => match users_fields(doc) {
            Ok(members) => exists|unsorted: Seq<SteamAccount>, order: Seq<int>|
                {
                    &&& records(unsorted) == account_records(members, auto_login_user)
                    &&& forall|i: int|
                        0 <= i < unsorted.len() ==> (#[trigger] unsorted[i]).time_consistent()
                    &&& stable_sorted(unsorted, listed, order)
                },
            Err(_) => false,
        },
        Err(_) => false,
    }
}

/// The error of a listing, if any.
pub open spec fn listing_error(text: Seq<char>) -> Option<VdfError> {
    match document_fields(text) {
        Ok(doc) => match users_fields(doc) {
            Ok(_) => None,
            Err(e) => Some(e),
        },
        Err(e) => Some(e),
    }
}

/// Lists the accounts of a `loginusers.vdf` text in the listing order.
pub fn list_accounts(content: &str, auto_login_user: Option<&str>) -> (r: Result<
    Vec<SteamAccount>,
    AppError,
>)
    ensures
        match listing_error(content@) {
            Some(e) => r == Err::<Vec<SteamAccount>, AppError>(AppError::Vdf(e)),
            None => r matches Ok(v) && listing_of(
                content@,
                text_view(auto_login_user),
                v@,
            ),
        },
{
    let vdf = match LoginUsersVdf::parse(content) {
        Ok(v) => v,
        Err(e) => {
            return Err(AppError::Vdf(e));
        },
    };
    let mut accounts = match vdf.accounts(auto_login_user) {
        Ok(a) => a,
        Err(e) => {
            return Err(AppError::Vdf(e));
        },
    };
    let ghost unsorted = accounts@;
    sort_accounts(&mut accounts);
    proof {
        let order = choose|order: Seq<int>| stable_sorted(unsorted, accounts@, order);
        assert(forall|i: int|
            0 <= i < unsorted.len() ==> (#[trigger] unsorted[i]).time_consistent());
        assert(records(unsorted) == account_records(
            users_fields(vdf@).unwrap(),
            text_view(auto_login_user),
        ));
    }
    Ok(accounts)
}

/// The target of a switch: the first account that the selector designates, which must have
/// an account name and, for express mode, a remembered password.
pub open spec fn start_target(accounts: Seq<AccountRecord>, request: StartRequest) -> Result<
    int,
    AppError,
> {
    match first_selected(accounts, request.selector) {
        None => Err(AppError::AccountNotFound),
        Some(i) => if accounts[i].account_name.len() == 0 {
            Err(AppError::MissingAccountName)
        } else if request.mode == StartMode::Express && !accounts[i].remember_password {
            Err(AppError::RememberPasswordRequired(arbitrary()))
        } else {
            Ok(i)
        },
    }
}

/// What the check before a switch accepts, stated on the accounts and the request: the
/// target is the first account that the selector designates; it is accepted exactly when
/// it has an account name and, in express mode only, a remembered password. An offline
/// start never asks for a remembered password. A target without a name is refused as such,
/// and so is, in express mode, a named target without a remembered password; no target at
/// all is `AccountNotFound`.
pub proof fn lemma_start_target_rules(accounts: Seq<AccountRecord>, request: StartRequest)
    ensures
        start_target(accounts, request) matches Ok(i) ==> {
            &&& 0 <= i < accounts.len()
            &&& selects(request.selector, accounts[i])
            &&& forall|j: int| 0 <= j < i ==> !selects(request.selector, #[trigger] accounts[j])
            &&& accounts[i].account_name.len() > 0
            &&& (request.mode == StartMode::Express ==> accounts[i].remember_password)
        },
        forall|i: int|
            0 <= i < accounts.len() && selects(request.selector, #[trigger] accounts[i]) && (forall|
                j: int,
            |
                0 <= j < i ==> !selects(request.selector, #[trigger] accounts[j]))
                && accounts[i].account_name.len() > 0 && (request.mode == StartMode::Offline
                || accounts[i].remember_password) ==> start_target(accounts, request) == Ok::<
                int,
                AppError,
            >(i),
        (forall|i: int| 0 <= i < accounts.len() ==> !selects(request.selector, #[trigger] accounts[i]))
            ==> start_target(accounts, request) == Err::<int, AppError>(AppError::AccountNotFound),
        forall|i: int|
            0 <= i < accounts.len() && selects(request.selector, #[trigger] accounts[i]) && (forall|
                j: int,
            |
                0 <= j < i ==> !selects(request.selector, #[trigger] accounts[j])) ==> {
                &&& accounts[i].account_name.len() == 0 ==> start_target(accounts, request)
                    == Err::<int, AppError>(AppError::MissingAccountName)
                &&& accounts[i].account_name.len() > 0 && request.mode == StartMode::Express
                    && !accounts[i].remember_password ==> start_target(
                    accounts,
                    request,
                ) matches Err(AppError::RememberPasswordRequired(_))
            },
{
    crate::loginusers_vdf::lemma_first_selected_from(accounts, request.selector, 0);
    assert forall|i: int|
        0 <= i < accounts.len() && selects(request.selector, #[trigger] accounts[i]) && (forall|
            j: int,
        |
            0 <= j < i ==> !selects(request.selector, #[trigger] accounts[j]))
            && accounts[i].account_name.len() > 0 && (request.mode == StartMode::Offline
            || accounts[i].remember_password) implies start_target(accounts, request) == Ok::<
            int,
            AppError,
        >(i) by {
        match first_selected(accounts, request.selector) {
            Some(k) => {
                if k < i {
                    assert(!selects(request.selector, accounts[k]));
                }
                if k > i {
                    assert(!selects(request.selector, accounts[i]));
                }
            },
            None => {
                assert(!selects(request.selector, accounts[i]));
            },
        }
    }
    assert forall|i: int|
        0 <= i < accounts.len() && selects(request.selector, #[trigger] accounts[i]) && (forall|
            j: int,
        |
            0 <= j < i ==> !selects(request.selector, #[trigger] accounts[j])) implies first_selected(
        accounts,
        request.selector,
    ) == Some(i) by {
        match first_selected(accounts, request.selector) {
            Some(k) => {
                if k < i {
                    assert(!selects(request.selector, accounts[k]));
                }
                if k > i {
                    assert(!selects(request.selector, accounts[i]));
                }
            },
            None => {
                assert(!selects(request.selector, accounts[i]));
            },
        }
    }
    if forall|i: int| 0 <= i < accounts.len() ==> !selects(request.selector, #[trigger] accounts[i]) {
        if let Some(k) = first_selected(accounts, request.selector) {
            assert(!selects(request.selector, accounts[k]));
        }
    }
}

/// Chooses the account to switch to; the result is its position in `accounts`.
pub fn select_start_target(accounts: &Vec<SteamAccount>, request: &StartRequest) -> (r: Result<
    usize,
    AppError,
>)
    ensures
        match start_target(records(accounts@), *request) {
            Ok(i) => r == Ok::<usize, AppError>(i as usize),
            Err(AppError::RememberPasswordRequired(_)) => r matches Err(
                AppError::RememberPasswordRequired(name),
            ) && ({
                let i = first_selected(records(accounts@), request.selector).unwrap();
                name@ == accounts@[i].account_name@
            }),
            Err(e) => r == Err::<usize, AppError>(e),
        },
        r matches Ok(i) ==> i < accounts@.len(),
{
    let ghost all = records(accounts@);
    let n = accounts.len();
    let mut k: usize = 0;
    while k < n
        invariant
            n == accounts@.len(),
            all == records(accounts@),
            k <= n,
            first_selected(all, request.selector) == crate::loginusers_vdf::first_selected_from(
                all,
                request.selector,
                k as int,
            ),
        ensures
            k <= n,
            first_selected(all, request.selector) == crate::loginusers_vdf::first_selected_from(
                all,
                request.selector,
                k as int,
            ),
            k < n ==> selects(request.selector, all[k as int]),
        decreases n - k,
    {
        if accounts[k].matches(&request.selector) {
            break;
        }
        k = k + 1;
    }
    if k == n {
        return Err(AppError::AccountNotFound);
    }
    assert(first_selected(all, request.selector) == Some(k as int));
    let target = &accounts[k];
    if target.account_name.as_str().is_empty() {
        return Err(AppError::MissingAccountName);
    }
    if request.mode == StartMode::Express && !target.remember_password {
        return Err(AppError::RememberPasswordRequired(target.account_name.clone()));
    }
    Ok(k)
}

/// The text that switching a `loginusers.vdf` text writes back.
pub open spec fn switched_text(text: Seq<char>, request: StartRequest) -> Seq<char> {
    match document_fields(text) {
        Ok(doc) => match users_fields(doc) {
            Ok(members) => match first_selected_member(members, request.selector) {
                Some(m) => render_fields(
                    activate_root(doc, account_record(members[m], None)->Some_0.steam_id64, request.mode),
                    Seq::empty(),
                ),
                None => Seq::empty(),
            },
            Err(_) => Seq::empty(),
        },
        Err(_) => Seq::empty(),
    }
}

/// The account that switching a `loginusers.vdf` text returns, marked against
/// `auto_login_user`.
pub open spec fn switched_account(
    text: Seq<char>,
    request: StartRequest,
    auto_login_user: Seq<char>,
) -> AccountRecord {
    match document_fields(text) {
        Ok(doc) => match users_fields(doc) {
            Ok(members) => match first_selected_member(members, request.selector) {
                Some(m) => activated_record(
                    account_record(members[m], None)->Some_0,
                    request.mode,
                    auto_login_user,
                ),
                None => arbitrary(),
            },
            Err(_) => arbitrary(),
        },
        Err(_) => arbitrary(),
    }
}

/// The error of a switch, if any.
pub open spec fn switch_error(text: Seq<char>, selector: AccountSelector) -> Option<VdfError> {
    match document_fields(text) {
        Ok(doc) => match users_fields(doc) {
            Ok(members) => match first_selected_member(members, selector) {
                Some(_) => None,
                None => Some(VdfError::AccountNotFound),
            },
            Err(e) => Some(e),
        },
        Err(e) => Some(e),
    }
}

/// Switches a `loginusers.vdf` text to the requested account and mode; gives the text to
/// write back and the switched account.
pub fn switch_document(content: &str, request: &StartRequest, auto_login_user: &str) -> (r: Result<
    (String, SteamAccount),
    AppError,
>)
    ensures
        match switch_error(content@, request.selector) {
            Some(e) => r == Err::<(String, SteamAccount), AppError>(AppError::Vdf(e)),
            None => r matches Ok((text, updated)) && text@ == switched_text(content@, *request)
                && updated.record() == switched_account(content@, *request, auto_login_user@)
                && updated.time_consistent(),
        },
{
    let mut vdf = match LoginUsersVdf::parse(content) {
        Ok(v) => v,
        Err(e) => {
            return Err(AppError::Vdf(e));
        },
    };
    let updated = match vdf.set_active_account(&request.selector, request.mode, auto_login_user) {
        Ok(a) => a,
        Err(e) => {
            return Err(AppError::Vdf(e));
        },
    };
    let text = vdf.render();
    Ok((text, updated))
}

// ---------------------------------------------------------------------------
// The calls that the commands make, and what they decide from the answers
// ---------------------------------------------------------------------------

/// A call that a command made on its services or on the disk, with its arguments and the
/// answer it got, in the order in which it was made.
pub enum ServiceCall {
    /// `RegistryStore::read_steam_path` and its answer.
    ReadSteamPath(Result<Option<String>, AppError>),
    /// `RegistryStore::read_steam_exe` and its answer.
    ReadSteamExe(Result<Option<String>, AppError>),
    /// `RegistryStore::read_auto_login_user` and its answer.
    ReadAutoLoginUser(Result<Option<String>, AppError>),
    /// `validate_existing_dir` of the path and its answer.
    CheckDir(Seq<char>, Result<(), AppError>),
    /// `validate_existing_file` of the path and its answer.
    CheckFile(Seq<char>, Result<(), AppError>),
    /// `FileStore::path_exists` of the path and its answer.
    PathExists(Seq<char>, bool),
    /// `FileStore::read_to_string` of the path and its answer.
    ReadFile(Seq<char>, Result<String, AppError>),
    /// `ProcessController::is_running` on the process names, and its answer.
    CheckRunning(Seq<Seq<char>>, Result<bool, AppError>),
    /// `ProcessController::shutdown_steam` with the executable and its answer.
    RequestShutdown(Seq<char>, Result<(), AppError>),
    /// `ProcessController::wait_for_exit` on the process names for the timeout in seconds,
    /// and its answer.
    WaitForExit(Seq<Seq<char>>, u64, Result<bool, AppError>),
    /// `ProcessController::force_kill` on the process names, and its answer.
    ForceKill(Seq<Seq<char>>, Result<(), AppError>),
    /// `FileStore::write_atomic_string` of the path with the text, and its answer.
    WriteFile(Seq<char>, Seq<char>, Result<(), AppError>),
    /// `RegistryStore::write_auto_login_user` with the value, and its answer.
    WriteAutoLoginUser(Seq<char>, Result<(), AppError>),
    /// `ProcessController::launch_steam` with the executable, and its answer.
    Launch(Seq<char>, Result<(), AppError>),
}

/// Where a command stands after one of its steps, read off the calls from a position on:
/// it goes on at a later position with what the step gave; it stops with an error after
/// the calls up to `end`; or the calls are not what the step makes.
pub enum Flow<T> {
    Next(int, T),
    Stop(int, AppError),
    Bad,
}

/// A command whose step stopped: the calls end there and the command gives that error.
pub open spec fn halted<T, X>(calls: Seq<ServiceCall>, flow: Flow<T>, r: Result<X, AppError>) -> bool {
    match flow {
        Flow::Stop(end, e) => end == calls.len() && r == Err::<X, AppError>(e),
        _ => false,
    }
}

/// The Steam directory: the override, else `SteamPath` read from the registry.
pub open spec fn dir_step(calls: Seq<ServiceCall>, p: int, overrides: PathOverrides) -> Flow<Seq<char>> {
    match overrides.steam_dir {
        Some(d) => Flow::Next(p, d@),
        None => if 0 <= p < calls.len() {
            match calls[p] {
                ServiceCall::ReadSteamPath(Ok(Some(v))) => Flow::Next(p + 1, v@),
                ServiceCall::ReadSteamPath(Ok(None)) => Flow::Stop(p + 1, AppError::SteamPathMissing),
                ServiceCall::ReadSteamPath(Err(e)) => Flow::Stop(p + 1, e),
                _ => Flow::Bad,
            }
        } else {
            Flow::Bad
        },
    }
}

/// The Steam executable: the override, else `SteamExe` read from the registry.
pub open spec fn exe_step(calls: Seq<ServiceCall>, p: int, overrides: PathOverrides) -> Flow<Seq<char>> {
    match overrides.steam_exe {
        Some(e) => Flow::Next(p, e@),
        None => if 0 <= p < calls.len() {
            match calls[p] {
                ServiceCall::ReadSteamExe(Ok(Some(v))) => Flow::Next(p + 1, v@),
                ServiceCall::ReadSteamExe(Ok(None)) => Flow::Stop(p + 1, AppError::SteamExeMissing),
                ServiceCall::ReadSteamExe(Err(e)) => Flow::Stop(p + 1, e),
                _ => Flow::Bad,
            }
        } else {
            Flow::Bad
        },
    }
}

/// The check that the directory exists.
pub open spec fn dir_check_step(calls: Seq<ServiceCall>, p: int, dir: Seq<char>) -> Flow<()> {
    if 0 <= p < calls.len() {
        match calls[p] {
            ServiceCall::CheckDir(q, Ok(_)) => if q == dir {
                Flow::Next(p + 1, ())
            } else {
                Flow::Bad
            },
            ServiceCall::CheckDir(q, Err(e)) => if q == dir && (e matches AppError::SteamPathNotFound(x) && x@ == dir) {
                Flow::Stop(p + 1, e)
            } else {
                Flow::Bad
            },
            _ => Flow::Bad,
        }
    } else {
        Flow::Bad
    }
}

/// The check that the executable exists.
pub open spec fn file_check_step(calls: Seq<ServiceCall>, p: int, exe: Seq<char>) -> Flow<()> {
    if 0 <= p < calls.len() {
        match calls[p] {
            ServiceCall::CheckFile(q, Ok(_)) => if q == exe {
                Flow::Next(p + 1, ())
            } else {
                Flow::Bad
            },
            ServiceCall::CheckFile(q, Err(e)) => if q == exe && (e matches AppError::SteamExeNotFound(x) && x@ == exe) {
                Flow::Stop(p + 1, e)
            } else {
                Flow::Bad
            },
            _ => Flow::Bad,
        }
    } else {
        Flow::Bad
    }
}

/// The paths of `refresh` and `start`: directory, executable, then the checks that both
/// exist; gives the directory and the executable.
pub open spec fn steam_paths_step(calls: Seq<ServiceCall>, p: int, overrides: PathOverrides) -> Flow<
    (Seq<char>, Seq<char>),
> {
    match dir_step(calls, p, overrides) {
        Flow::Next(p1, dir) => match exe_step(calls, p1, overrides) {
            Flow::Next(p2, exe) => match dir_check_step(calls, p2, dir) {
                Flow::Next(p3, _) => match file_check_step(calls, p3, exe) {
                    Flow::Next(p4, _) => Flow::Next(p4, (dir, exe)),
                    Flow::Stop(end, e) => Flow::Stop(end, e),
                    Flow::Bad => Flow::Bad,
                },
                Flow::Stop(end, e) => Flow::Stop(end, e),
                Flow::Bad => Flow::Bad,
            },
            Flow::Stop(end, e) => Flow::Stop(end, e),
            Flow::Bad => Flow::Bad,
        },
        Flow::Stop(end, e) => Flow::Stop(end, e),
        Flow::Bad => Flow::Bad,
    }
}

/// Whether `loginusers.vdf` exists.
pub open spec fn exists_step(calls: Seq<ServiceCall>, p: int, path: Seq<char>) -> Flow<bool> {
    if 0 <= p < calls.len() {
        match calls[p] {
            ServiceCall::PathExists(q, b) => if q == path {
                Flow::Next(p + 1, b)
            } else {
                Flow::Bad
            },
            _ => Flow::Bad,
        }
    } else {
        Flow::Bad
    }
}

/// The `AutoLoginUser` value.
pub open spec fn auto_step(calls: Seq<ServiceCall>, p: int) -> Flow<Option<Seq<char>>> {
    if 0 <= p < calls.len() {
        match calls[p] {
            ServiceCall::ReadAutoLoginUser(Ok(v)) => Flow::Next(p + 1, text_of_option(v)),
            ServiceCall::ReadAutoLoginUser(Err(e)) => Flow::Stop(p + 1, e),
            _ => Flow::Bad,
        }
    } else {
        Flow::Bad
    }
}

/// The text of a file.
pub open spec fn read_step(calls: Seq<ServiceCall>, p: int, path: Seq<char>) -> Flow<Seq<char>> {
    if 0 <= p < calls.len() {
        match calls[p] {
            ServiceCall::ReadFile(q, Ok(t)) => if q == path {
                Flow::Next(p + 1, t@)
            } else {
                Flow::Bad
            },
            ServiceCall::ReadFile(q, Err(e)) => if q == path {
                Flow::Stop(p + 1, e)
            } else {
                Flow::Bad
            },
            _ => Flow::Bad,
        }
    } else {
        Flow::Bad
    }
}

/// Steam's process names as text.
pub open spec fn steam_names() -> Seq<Seq<char>> {
    seq!["steam.exe"@, "steamservice.exe"@, "steamwebhelper.exe"@]
}

/// The names of a list of process names, as text.
pub open spec fn names_text(names: Seq<&str>) -> Seq<Seq<char>> {
    names.map_values(|n: &str| n@)
}

/// The answer of `is_running` asked about Steam's processes.
pub open spec fn running_answer(c: ServiceCall) -> Option<Result<bool, AppError>> {
    match c {
        ServiceCall::CheckRunning(names, r) => if names == steam_names() {
            Some(r)
        } else {
            None
        },
        _ => None,
    }
}

/// The answer of the shutdown request made with `exe`.
pub open spec fn shutdown_answer(c: ServiceCall, exe: Seq<char>) -> Option<Result<(), AppError>> {
    match c {
        ServiceCall::RequestShutdown(x, r) => if x == exe {
            Some(r)
        } else {
            None
        },
        _ => None,
    }
}

/// The answer of `wait_for_exit` on Steam's processes for `SHUTDOWN_TIMEOUT_SECS`.
pub open spec fn wait_answer(c: ServiceCall) -> Option<Result<bool, AppError>> {
    match c {
        ServiceCall::WaitForExit(names, timeout, r) => if names == steam_names() && timeout
            == SHUTDOWN_TIMEOUT_SECS {
            Some(r)
        } else {
            None
        },
        _ => None,
    }
}

/// The answer of `force_kill` on Steam's processes.
pub open spec fn kill_answer(c: ServiceCall) -> Option<Result<(), AppError>> {
    match c {
        ServiceCall::ForceKill(names, r) => if names == steam_names() {
            Some(r)
        } else {
            None
        },
        _ => None,
    }
}

/// Stopping Steam: ask whether `steam.exe`, `steamservice.exe` or `steamwebhelper.exe`
/// runs; nothing more when none does; else a shutdown request with the executable and a
/// wait of `SHUTDOWN_TIMEOUT_SECS` seconds for them; when the wait runs out, a kill of them
/// and a second such wait, after which Steam still running is the error
/// `SteamStillRunning`. A failed call stops the command with its error.
pub open spec fn shutdown_step(calls: Seq<ServiceCall>, p: int, exe: Seq<char>) -> Flow<()> {
    if !(0 <= p < calls.len()) {
        Flow::Bad
    } else {
        match running_answer(calls[p]) {
            Some(Err(e)) => Flow::Stop(p + 1, e),
            Some(Ok(false)) => Flow::Next(p + 1, ()),
            Some(Ok(true)) => if p + 1 < calls.len() {
                match shutdown_answer(calls[p + 1], exe) {
                    Some(Err(e)) => Flow::Stop(p + 2, e),
                    Some(Ok(_)) => if p + 2 < calls.len() {
                        match wait_answer(calls[p + 2]) {
                            Some(Err(e)) => Flow::Stop(p + 3, e),
                            Some(Ok(true)) => Flow::Next(p + 3, ()),
                            Some(Ok(false)) => if p + 3 < calls.len() {
                                match kill_answer(calls[p + 3]) {
                                    Some(Err(e)) => Flow::Stop(p + 4, e),
                                    Some(Ok(_)) => if p + 4 < calls.len() {
                                        match wait_answer(calls[p + 4]) {
                                            Some(Err(e)) => Flow::Stop(p + 5, e),
                                            Some(Ok(true)) => Flow::Next(p + 5, ()),
                                            Some(Ok(false)) => Flow::Stop(
                                                p + 5,
                                                AppError::SteamStillRunning,
                                            ),
                                            None => Flow::Bad,
                                        }
                                    } else {
                                        Flow::Bad
                                    },
                                    None => Flow::Bad,
                                }
                            } else {
                                Flow::Bad
                            },
                            None => Flow::Bad,
                        }
                    } else {
                        Flow::Bad
                    },
                    None => Flow::Bad,
                }
            } else {
                Flow::Bad
            },
            None => Flow::Bad,
        }
    }
}

/// A call that changes what Steam will do, with its arguments; it stops the command with
/// its error when it fails.
pub open spec fn change_step(calls: Seq<ServiceCall>, p: int, expected: spec_fn(ServiceCall) -> bool) -> Flow<()> {
    if 0 <= p < calls.len() && expected(calls[p]) {
        match calls[p] {
            ServiceCall::WriteFile(_, _, Err(e)) => Flow::Stop(p + 1, e),
            ServiceCall::WriteAutoLoginUser(_, Err(e)) => Flow::Stop(p + 1, e),
            ServiceCall::Launch(_, Err(e)) => Flow::Stop(p + 1, e),
            _ => Flow::Next(p + 1, ()),
        }
    } else {
        Flow::Bad
    }
}

pub open spec fn writes_file(path: Seq<char>, text: Seq<char>) -> spec_fn(ServiceCall) -> bool {
    |c: ServiceCall| c matches ServiceCall::WriteFile(q, t, _) && q == path && t == text
}

pub open spec fn writes_auto_login_user(value: Seq<char>) -> spec_fn(ServiceCall) -> bool {
    |c: ServiceCall| c matches ServiceCall::WriteAutoLoginUser(v, _) && v == value
}

pub open spec fn launches(exe: Seq<char>) -> spec_fn(ServiceCall) -> bool {
    |c: ServiceCall| c matches ServiceCall::Launch(x, _) && x == exe
}

/// What `refresh` does with the answers it got: resolve and check the paths, look for
/// `loginusers.vdf` under the directory (none: no accounts), read `AutoLoginUser` and the
/// file, and list its accounts.
pub open spec fn refresh_run(
    calls: Seq<ServiceCall>,
    overrides: PathOverrides,
    r: Result<Vec<SteamAccount>, AppError>,
) -> bool {
    match steam_paths_step(calls, 0, overrides) {
        Flow::Next(p1, paths) => {
            let path = loginusers_path(paths.0);
            match exists_step(calls, p1, path) {
                Flow::Next(p2, false) => p2 == calls.len() && (r matches Ok(v) && v@.len() == 0),
                Flow::Next(p2, true) => match auto_step(calls, p2) {
                    Flow::Next(p3, auto) => match read_step(calls, p3, path) {
                        Flow::Next(p4, text) => p4 == calls.len() && match listing_error(text) {
                            Some(e) => r == Err::<Vec<SteamAccount>, AppError>(AppError::Vdf(e)),
                            None => r matches Ok(v) && listing_of(text, auto, v@),
                        },
                        other => halted(calls, other, r),
                    },
                    other => halted(calls, other, r),
                },
                other => halted(calls, other, r),
            }
        },
        other => halted(calls, other, r),
    }
}

/// What `login-new` does with the answers it got: resolve and check the executable, stop
/// Steam, clear `AutoLoginUser`, start Steam.
pub open spec fn login_new_run(
    calls: Seq<ServiceCall>,
    overrides: PathOverrides,
    r: Result<(), AppError>,
) -> bool {
    match exe_step(calls, 0, overrides) {
        Flow::Next(p1, exe) => match file_check_step(calls, p1, exe) {
            Flow::Next(p2, _) => match shutdown_step(calls, p2, exe) {
                Flow::Next(p3, _) => match change_step(
                    calls,
                    p3,
                    writes_auto_login_user(Seq::empty()),
                ) {
                    Flow::Next(p4, _) => match change_step(calls, p4, launches(exe)) {
                        Flow::Next(p5, _) => p5 == calls.len() && r is Ok,
                        other => halted(calls, other, r),
                    },
                    other => halted(calls, other, r),
                },
                other => halted(calls, other, r),
            },
            other => halted(calls, other, r),
        },
        other => halted(calls, other, r),
    }
}

/// What the check before a switch gives for the first text read: the accepted account, or
/// the error that stops `start` before Steam is touched.
pub open spec fn preflight(text: Seq<char>, auto: Option<Seq<char>>, request: StartRequest) -> Result<
    AccountRecord,
    AppError,
> {
    match document_fields(text) {
        Ok(doc) => match users_fields(doc) {
            Ok(members) => {
                let accounts = account_records(members, auto);
                match start_target(accounts, request) {
                    Ok(i) => Ok(accounts[i]),
                    Err(AppError::RememberPasswordRequired(_)) => Err(
                        AppError::RememberPasswordRequired(arbitrary()),
                    ),
                    Err(e) => Err(e),
                }
            },
            Err(e) => Err(AppError::Vdf(e)),
        },
        Err(e) => Err(AppError::Vdf(e)),
    }
}

/// The error of `start` matches what the check before the switch refused; a refused
/// remembered password names the account.
pub open spec fn preflight_refused(
    text: Seq<char>,
    auto: Option<Seq<char>>,
    request: StartRequest,
    e: AppError,
) -> bool {
    match preflight(text, auto, request) {
        Err(AppError::RememberPasswordRequired(_)) => e matches AppError::RememberPasswordRequired(
            name,
        ) && name@ == account_records(
            users_fields(document_fields(text)->Ok_0)->Ok_0,
            auto,
        )[first_selected(
            account_records(users_fields(document_fields(text)->Ok_0)->Ok_0, auto),
            request.selector,
        )->Some_0].account_name,
        Err(x) => e == x,
        Ok(_) => false,
    }
}

/// What `start` does with the answers it got: resolve and check the paths, then go on as
/// `start_from_file` says with `loginusers.vdf` under the directory.
pub open spec fn start_run(
    calls: Seq<ServiceCall>,
    overrides: PathOverrides,
    request: StartRequest,
    r: Result<SteamAccount, AppError>,
) -> bool {
    match steam_paths_step(calls, 0, overrides) {
        Flow::Next(p1, paths) => start_from_file(
            calls,
            p1,
            loginusers_path(paths.0),
            paths.1,
            request,
            r,
        ),
        other => halted(calls, other, r),
    }
}

/// `start` from the paths on: find `loginusers.vdf`, read `AutoLoginUser` and the file and
/// check the target; then go on as `start_after_check` says with the target's name.
pub open spec fn start_from_file(
    calls: Seq<ServiceCall>,
    p1: int,
    path: Seq<char>,
    exe: Seq<char>,
    request: StartRequest,
    r: Result<SteamAccount, AppError>,
) -> bool {
    match exists_step(calls, p1, path) {
        Flow::Next(p2, false) => p2 == calls.len() && (r matches Err(
            AppError::LoginUsersMissing(x),
        ) && x@ == path),
        Flow::Next(p2, true) => match auto_step(calls, p2) {
            Flow::Next(p3, auto) => match read_step(calls, p3, path) {
                Flow::Next(p4, first) => match preflight(first, auto, request) {
                    Err(_) => p4 == calls.len() && (r matches Err(e) && preflight_refused(
                        first,
                        auto,
                        request,
                        e,
                    )),
                    Ok(target) => start_after_check(
                        calls,
                        p4,
                        path,
                        exe,
                        request,
                        target.account_name,
                        r,
                    ),
                },
                other => halted(calls, other, r),
            },
            other => halted(calls, other, r),
        },
        other => halted(calls, other, r),
    }
}

/// `start` once the target `name` passed the check: stop Steam, read the file again, write
/// back its switched text, set `AutoLoginUser` to `name`, start Steam; the result is the
/// switched account.
pub open spec fn start_after_check(
    calls: Seq<ServiceCall>,
    p4: int,
    path: Seq<char>,
    exe: Seq<char>,
    request: StartRequest,
    name: Seq<char>,
    r: Result<SteamAccount, AppError>,
) -> bool {
    match shutdown_step(calls, p4, exe) {
        Flow::Next(p5, _) => match read_step(calls, p5, path) {
            Flow::Next(p6, text) => match switch_error(text, request.selector) {
                Some(e) => p6 == calls.len() && r == Err::<SteamAccount, AppError>(
                    AppError::Vdf(e),
                ),
                None => start_writes(calls, p6, path, exe, request, name, text, r),
            },
            other => halted(calls, other, r),
        },
        other => halted(calls, other, r),
    }
}

/// The writes of `start` and the launch, after the second read gave `text`.
pub open spec fn start_writes(
    calls: Seq<ServiceCall>,
    p6: int,
    path: Seq<char>,
    exe: Seq<char>,
    request: StartRequest,
    name: Seq<char>,
    text: Seq<char>,
    r: Result<SteamAccount, AppError>,
) -> bool {
    match change_step(calls, p6, writes_file(path, switched_text(text, request))) {
        Flow::Next(p7, _) => match change_step(calls, p7, writes_auto_login_user(name)) {
            Flow::Next(p8, _) => match change_step(calls, p8, launches(exe)) {
                Flow::Next(p9, _) => p9 == calls.len() && (r matches Ok(u) && u.record()
                    == switched_account(text, request, name) && u.time_consistent()),
                other => halted(calls, other, r),
            },
            other => halted(calls, other, r),
        },
        other => halted(calls, other, r),
    }
}

/// The calls that a command added to a log.
pub open spec fn added_calls(before: Seq<ServiceCall>, after: Seq<ServiceCall>) -> Seq<ServiceCall> {
    after.skip(before.len() as int)
}

/// `after` is `before` followed by more calls.
pub open spec fn extends(before: Seq<ServiceCall>, after: Seq<ServiceCall>) -> bool {
    before.len() <= after.len() && after.take(before.len() as int) == before
}

/// The calls that go to the process controller.
pub open spec fn made_on_processes() -> spec_fn(ServiceCall) -> bool {
    |c: ServiceCall|
        c is CheckRunning || c is RequestShutdown || c is WaitForExit || c is ForceKill
            || c is Launch
}

/// The writes that go to the registry.
pub open spec fn registry_write() -> spec_fn(ServiceCall) -> bool {
    |c: ServiceCall| c is WriteAutoLoginUser
}

/// The writes that go to the file store.
pub open spec fn file_write() -> spec_fn(ServiceCall) -> bool {
    |c: ServiceCall| c is WriteFile
}

/// What the services record, the process controller's calls, the registry's writes and the
/// file store's writes, after `calls` were made on them from `before`: each keeps, in
/// order, exactly the calls of `calls` that went to it.
pub open spec fn recorded_after(
    before: (Seq<ServiceCall>, Seq<ServiceCall>, Seq<ServiceCall>),
    calls: Seq<ServiceCall>,
) -> (Seq<ServiceCall>, Seq<ServiceCall>, Seq<ServiceCall>) {
    (
        before.0 + calls.filter(made_on_processes()),
        before.1 + calls.filter(registry_write()),
        before.2 + calls.filter(file_write()),
    )
}

proof fn lemma_filter_one(c: ServiceCall, keep: spec_fn(ServiceCall) -> bool)
    ensures
        seq![c].filter(keep) == if keep(c) {
            seq![c]
        } else {
            Seq::<ServiceCall>::empty()
        },
{
    reveal_with_fuel(Seq::filter, 2);
    assert(seq![c].drop_last() =~= Seq::<ServiceCall>::empty());
    assert(Seq::<ServiceCall>::empty().push(c) =~= seq![c]);
}

/// A call recorded by the service it went to, and by no other.
proof fn lemma_record_call(
    before: (Seq<ServiceCall>, Seq<ServiceCall>, Seq<ServiceCall>),
    c: ServiceCall,
    after: (Seq<ServiceCall>, Seq<ServiceCall>, Seq<ServiceCall>),
)
    requires
        after.0 == if made_on_processes()(c) {
            before.0.push(c)
        } else {
            before.0
        },
        after.1 == if registry_write()(c) {
            before.1.push(c)
        } else {
            before.1
        },
        after.2 == if file_write()(c) {
            before.2.push(c)
        } else {
            before.2
        },
    ensures
        after == recorded_after(before, seq![c]),
{
    lemma_filter_one(c, made_on_processes());
    lemma_filter_one(c, registry_write());
    lemma_filter_one(c, file_write());
    assert(after.0 =~= before.0 + seq![c].filter(made_on_processes()));
    assert(after.1 =~= before.1 + seq![c].filter(registry_write()));
    assert(after.2 =~= before.2 + seq![c].filter(file_write()));
}

proof fn lemma_records_none(before: (Seq<ServiceCall>, Seq<ServiceCall>, Seq<ServiceCall>))
    ensures
        recorded_after(before, Seq::empty()) == before,
{
    reveal(Seq::filter);
    assert(before.0 + Seq::<ServiceCall>::empty().filter(made_on_processes()) =~= before.0);
    assert(before.1 + Seq::<ServiceCall>::empty().filter(registry_write()) =~= before.1);
    assert(before.2 + Seq::<ServiceCall>::empty().filter(file_write()) =~= before.2);
}

/// Calls made in two stretches are recorded as if made in one.
proof fn lemma_records_join(
    before: (Seq<ServiceCall>, Seq<ServiceCall>, Seq<ServiceCall>),
    x: Seq<ServiceCall>,
    y: Seq<ServiceCall>,
)
    ensures
        recorded_after(recorded_after(before, x), y) == recorded_after(before, x + y),
{
    Seq::<ServiceCall>::filter_distributes_over_add(x, y, made_on_processes());
    Seq::<ServiceCall>::filter_distributes_over_add(x, y, registry_write());
    Seq::<ServiceCall>::filter_distributes_over_add(x, y, file_write());
    assert(before.0 + x.filter(made_on_processes()) + y.filter(made_on_processes()) =~= before.0
        + (x + y).filter(made_on_processes()));
    assert(before.1 + x.filter(registry_write()) + y.filter(registry_write()) =~= before.1 + (x
        + y).filter(registry_write()));
    assert(before.2 + x.filter(file_write()) + y.filter(file_write()) =~= before.2 + (x
        + y).filter(file_write()));
}

/// One more call after `x + y`.
proof fn lemma_records_step(
    before: (Seq<ServiceCall>, Seq<ServiceCall>, Seq<ServiceCall>),
    x: Seq<ServiceCall>,
    y: Seq<ServiceCall>,
    c: ServiceCall,
)
    ensures
        recorded_after(recorded_after(before, x + y), seq![c]) == recorded_after(before, x + y.push(c)),
{
    lemma_records_push(before, x + y, c);
    assert((x + y).push(c) =~= x + y.push(c));
}

/// One more call after `added`.
proof fn lemma_records_push(
    before: (Seq<ServiceCall>, Seq<ServiceCall>, Seq<ServiceCall>),
    added: Seq<ServiceCall>,
    c: ServiceCall,
)
    ensures
        recorded_after(recorded_after(before, added), seq![c]) == recorded_after(before, added.push(c)),
{
    lemma_records_join(before, added, seq![c]);
    assert(added + seq![c] =~= added.push(c));
}

/// The calls that the commands made on their services, oldest first. Only the methods of
/// `App` add to it; elsewhere it can only be read, through its view.
pub struct CallLog {
    calls: Ghost<Seq<ServiceCall>>,
}

impl View for CallLog {
    type V = Seq<ServiceCall>;

    closed spec fn view(&self) -> Seq<ServiceCall> {
        self.calls@
    }
}

/// The command service: registry, processes and files, and the calls made on them.
pub struct App<R, P, F> {
    pub registry: R,
    pub processes: P,
    pub files: F,
    /// Every service call of a command goes through one of the methods below, which makes
    /// the call and records it here with its answer.
    pub log: CallLog,
}

impl<R: RegistryStore, P: ProcessController, F: FileStore> App<R, P, F> {
    pub open spec fn calls(&self) -> Seq<ServiceCall> {
        self.log@
    }

    /// What the services have recorded: the process controller's calls, the registry's
    /// writes and the file store's writes.
    pub open spec fn service_records(&self) -> (Seq<ServiceCall>, Seq<ServiceCall>, Seq<ServiceCall>) {
        (self.processes.history(), self.registry.writes(), self.files.writes())
    }

    pub fn new(registry: R, processes: P, files: F) -> (r: Self)
        ensures
            r.registry == registry,
            r.processes == processes,
            r.files == files,
            r.calls() == Seq::<ServiceCall>::empty(),
    {
        App { registry, processes, files, log: CallLog { calls: Ghost(Seq::empty()) } }
    }

    // --- the service calls, each recorded with its answer ---

    fn read_steam_path(&mut self) -> (r: Result<Option<String>, AppError>)
        ensures
            final(self).calls() == old(self).calls().push(ServiceCall::ReadSteamPath(r)),
            final(self).service_records() == recorded_after(
                old(self).service_records(),
                seq![ServiceCall::ReadSteamPath(r)],
            ),
            r == old(self).registry.steam_path_answer(),
    {
        let ghost before = self.service_records();
        let r = self.registry.read_steam_path();
        proof {
            self.log.calls@ = self.log.calls@.push(ServiceCall::ReadSteamPath(r));
            lemma_record_call(before, ServiceCall::ReadSteamPath(r), self.service_records());
        }
        r
    }

    fn read_steam_exe(&mut self) -> (r: Result<Option<String>, AppError>)
        ensures
            final(self).calls() == old(self).calls().push(ServiceCall::ReadSteamExe(r)),
            final(self).service_records() == recorded_after(
                old(self).service_records(),
                seq![ServiceCall::ReadSteamExe(r)],
            ),
            r == old(self).registry.steam_exe_answer(),
    {
        let ghost before = self.service_records();
        let r = self.registry.read_steam_exe();
        proof {
            self.log.calls@ = self.log.calls@.push(ServiceCall::ReadSteamExe(r));
            lemma_record_call(before, ServiceCall::ReadSteamExe(r), self.service_records());
        }
        r
    }

    fn read_auto_login_user(&mut self) -> (r: Result<Option<String>, AppError>)
        ensures
            final(self).calls() == old(self).calls().push(ServiceCall::ReadAutoLoginUser(r)),
            final(self).service_records() == recorded_after(
                old(self).service_records(),
                seq![ServiceCall::ReadAutoLoginUser(r)],
            ),
            r == old(self).registry.auto_login_user_answer(),
    {
        let ghost before = self.service_records();
        let r = self.registry.read_auto_login_user();
        proof {
            self.log.calls@ = self.log.calls@.push(ServiceCall::ReadAutoLoginUser(r));
            lemma_record_call(before, ServiceCall::ReadAutoLoginUser(r), self.service_records());
        }
        r
    }

    fn check_dir(&mut self, path: &str) -> (r: Result<(), AppError>)
        ensures
            final(self).calls() == old(self).calls().push(ServiceCall::CheckDir(path@, r)),
            r matches Err(e) ==> e matches AppError::SteamPathNotFound(p) && p@ == path@,
            final(self).service_records() == recorded_after(
                old(self).service_records(),
                seq![ServiceCall::CheckDir(path@, r)],
            ),
    {
        let ghost before = self.service_records();
        let r = validate_existing_dir(path);
        proof {
            self.log.calls@ = self.log.calls@.push(ServiceCall::CheckDir(path@, r));
            lemma_record_call(before, ServiceCall::CheckDir(path@, r), self.service_records());
        }
        r
    }

    fn check_file(&mut self, path: &str) -> (r: Result<(), AppError>)
        ensures
            final(self).calls() == old(self).calls().push(ServiceCall::CheckFile(path@, r)),
            r matches Err(e) ==> e matches AppError::SteamExeNotFound(p) && p@ == path@,
            final(self).service_records() == recorded_after(
                old(self).service_records(),
                seq![ServiceCall::CheckFile(path@, r)],
            ),
    {
        let ghost before = self.service_records();
        let r = validate_existing_file(path);
        proof {
            self.log.calls@ = self.log.calls@.push(ServiceCall::CheckFile(path@, r));
            lemma_record_call(before, ServiceCall::CheckFile(path@, r), self.service_records());
        }
        r
    }

    fn path_exists(&mut self, path: &str) -> (r: bool)
        ensures
            final(self).calls() == old(self).calls().push(ServiceCall::PathExists(path@, r)),
            final(self).service_records() == recorded_after(
                old(self).service_records(),
                seq![ServiceCall::PathExists(path@, r)],
            ),
            r == old(self).files.exists_answer(path@),
    {
        let ghost before = self.service_records();
        let r = self.files.path_exists(path);
        proof {
            self.log.calls@ = self.log.calls@.push(ServiceCall::PathExists(path@, r));
            lemma_record_call(before, ServiceCall::PathExists(path@, r), self.service_records());
        }
        r
    }

    fn read_file(&mut self, path: &str) -> (r: Result<String, AppError>)
        ensures
            final(self).calls() == old(self).calls().push(ServiceCall::ReadFile(path@, r)),
            final(self).service_records() == recorded_after(
                old(self).service_records(),
                seq![ServiceCall::ReadFile(path@, r)],
            ),
            r == old(self).files.read_answer(path@),
    {
        let ghost before = self.service_records();
        let r = self.files.read_to_string(path);
        proof {
            self.log.calls@ = self.log.calls@.push(ServiceCall::ReadFile(path@, r));
            lemma_record_call(before, ServiceCall::ReadFile(path@, r), self.service_records());
        }
        r
    }

    fn check_running(&mut self, names: &[&str]) -> (r: Result<bool, AppError>)
        ensures
            final(self).calls() == old(self).calls().push(
                ServiceCall::CheckRunning(names_text(names@), r),
            ),
            final(self).service_records() == recorded_after(
                old(self).service_records(),
                seq![ServiceCall::CheckRunning(names_text(names@), r)],
            ),
    {
        let ghost before = self.service_records();
        let r = self.processes.is_running(names);
        proof {
            self.log.calls@ = self.log.calls@.push(ServiceCall::CheckRunning(names_text(names@), r));
            lemma_record_call(before, ServiceCall::CheckRunning(names_text(names@), r), self.service_records());
        }
        r
    }

    fn request_shutdown(&mut self, steam_exe: &str) -> (r: Result<(), AppError>)
        ensures
            final(self).calls() == old(self).calls().push(
                ServiceCall::RequestShutdown(steam_exe@, r),
            ),
            final(self).service_records() == recorded_after(
                old(self).service_records(),
                seq![ServiceCall::RequestShutdown(steam_exe@, r)],
            ),
    {
        let ghost before = self.service_records();
        let r = self.processes.shutdown_steam(steam_exe);
        proof {
            self.log.calls@ = self.log.calls@.push(ServiceCall::RequestShutdown(steam_exe@, r));
            lemma_record_call(before, ServiceCall::RequestShutdown(steam_exe@, r), self.service_records());
        }
        r
    }

    fn wait_for_exit(&mut self, names: &[&str], timeout_secs: u64) -> (r: Result<bool, AppError>)
        ensures
            final(self).calls() == old(self).calls().push(
                ServiceCall::WaitForExit(names_text(names@), timeout_secs, r),
            ),
            final(self).service_records() == recorded_after(
                old(self).service_records(),
                seq![ServiceCall::WaitForExit(names_text(names@), timeout_secs, r)],
            ),
    {
        let ghost before = self.service_records();
        let r = self.processes.wait_for_exit(names, timeout_secs);
        proof {
            self.log.calls@ = self.log.calls@.push(ServiceCall::WaitForExit(names_text(names@), timeout_secs, r));
            lemma_record_call(before, ServiceCall::WaitForExit(names_text(names@), timeout_secs, r), self.service_records());
        }
        r
    }

    fn force_kill(&mut self, names: &[&str]) -> (r: Result<(), AppError>)
        ensures
            final(self).calls() == old(self).calls().push(
                ServiceCall::ForceKill(names_text(names@), r),
            ),
            final(self).service_records() == recorded_after(
                old(self).service_records(),
                seq![ServiceCall::ForceKill(names_text(names@), r)],
            ),
    {
        let ghost before = self.service_records();
        let r = self.processes.force_kill(names);
        proof {
            self.log.calls@ = self.log.calls@.push(ServiceCall::ForceKill(names_text(names@), r));
            lemma_record_call(before, ServiceCall::ForceKill(names_text(names@), r), self.service_records());
        }
        r
    }

    fn write_file(&mut self, path: &str, contents: &str) -> (r: Result<(), AppError>)
        ensures
            final(self).calls() == old(self).calls().push(
                ServiceCall::WriteFile(path@, contents@, r),
            ),
            final(self).service_records() == recorded_after(
                old(self).service_records(),
                seq![ServiceCall::WriteFile(path@, contents@, r)],
            ),
    {
        let ghost before = self.service_records();
        let r = self.files.write_atomic_string(path, contents);
        proof {
            self.log.calls@ = self.log.calls@.push(ServiceCall::WriteFile(path@, contents@, r));
            lemma_record_call(before, ServiceCall::WriteFile(path@, contents@, r), self.service_records());
        }
        r
    }

    fn write_auto_login_user(&mut self, value: &str) -> (r: Result<(), AppError>)
        ensures
            final(self).calls() == old(self).calls().push(
                ServiceCall::WriteAutoLoginUser(value@, r),
            ),
            final(self).service_records() == recorded_after(
                old(self).service_records(),
                seq![ServiceCall::WriteAutoLoginUser(value@, r)],
            ),
    {
        let ghost before = self.service_records();
        let r = self.registry.write_auto_login_user(value);
        proof {
            self.log.calls@ = self.log.calls@.push(ServiceCall::WriteAutoLoginUser(value@, r));
            lemma_record_call(before, ServiceCall::WriteAutoLoginUser(value@, r), self.service_records());
        }
        r
    }

    fn launch(&mut self, steam_exe: &str) -> (r: Result<(), AppError>)
        ensures
            final(self).calls() == old(self).calls().push(ServiceCall::Launch(steam_exe@, r)),
            final(self).service_records() == recorded_after(
                old(self).service_records(),
                seq![ServiceCall::Launch(steam_exe@, r)],
            ),
    {
        let ghost before = self.service_records();
        let r = self.processes.launch_steam(steam_exe);
        proof {
            self.log.calls@ = self.log.calls@.push(ServiceCall::Launch(steam_exe@, r));
            lemma_record_call(before, ServiceCall::Launch(steam_exe@, r), self.service_records());
        }
        r
    }

    // --- the steps that more than one command takes ---

    /// Resolves and checks the installation paths: the directory (override, else
    /// `SteamPath`), then the executable (override, else `SteamExe`), then that both exist.
    fn steam_paths(&mut self, overrides: &PathOverrides) -> (r: Result<ResolvedSteamPaths, AppError>)
        ensures
            extends(old(self).calls(), final(self).calls()),
            forall|rest: Seq<ServiceCall>|
                #[trigger] steam_paths_step(
                    added_calls(old(self).calls(), final(self).calls()) + rest,
                    0,
                    *overrides,
                ) == match r {
                    Ok(p) => Flow::Next(
                        added_calls(old(self).calls(), final(self).calls()).len() as int,
                        (p.steam_dir@, p.steam_exe@),
                    ),
                    Err(e) => Flow::Stop(
                        added_calls(old(self).calls(), final(self).calls()).len() as int,
                        e,
                    ),
                },
            r matches Ok(p) ==> p.loginusers_vdf@ == loginusers_path(p.steam_dir@),
            final(self).service_records() == recorded_after(
                old(self).service_records(),
                added_calls(old(self).calls(), final(self).calls()),
            ),
    {
        let ghost start = self.log@;
        let ghost rec0 = self.service_records();
        let ghost mut added: Seq<ServiceCall> = Seq::empty();
        proof {
            assert(self.log@ =~= start + added);
            lemma_appended(start, added);
            lemma_records_none(rec0);
        }
        let registry_dir = match &overrides.steam_dir {
            Some(_) => None,
            None => {
                let read = self.read_steam_path();
                proof {
                    lemma_records_push(rec0, added, ServiceCall::ReadSteamPath(read));
                    added = added.push(ServiceCall::ReadSteamPath(read));
                    assert(self.log@ =~= start + added);
                    lemma_appended(start, added);
                }
                read?
            },
        };
        if overrides.steam_dir.is_none() && registry_dir.is_none() {
            return Err(AppError::SteamPathMissing);
        }
        let registry_exe = match &overrides.steam_exe {
            Some(_) => None,
            None => {
                let read = self.read_steam_exe();
                proof {
                    lemma_records_push(rec0, added, ServiceCall::ReadSteamExe(read));
                    added = added.push(ServiceCall::ReadSteamExe(read));
                    assert(self.log@ =~= start + added);
                    lemma_appended(start, added);
                }
                read?
            },
        };
        let paths = steam_paths_from(overrides, registry_dir, registry_exe)?;
        let checked = self.check_dir(paths.steam_dir.as_str());
        proof {
            lemma_records_push(rec0, added, ServiceCall::CheckDir(paths.steam_dir@, checked));
            added = added.push(ServiceCall::CheckDir(paths.steam_dir@, checked));
            assert(self.log@ =~= start + added);
            lemma_appended(start, added);
        }
        checked?;
        let checked = self.check_file(paths.steam_exe.as_str());
        proof {
            lemma_records_push(rec0, added, ServiceCall::CheckFile(paths.steam_exe@, checked));
            added = added.push(ServiceCall::CheckFile(paths.steam_exe@, checked));
            assert(self.log@ =~= start + added);
            lemma_appended(start, added);
        }
        checked?;
        Ok(paths)
    }

    /// Stops Steam when it runs: asks it to shut down, waits, kills what is left, waits
    /// again; fails when processes still run after that.
    fn shutdown_running_steam(&mut self, steam_exe: &str) -> (r: Result<(), AppError>)
        ensures
            extends(old(self).calls(), final(self).calls()),
            forall|before: Seq<ServiceCall>, rest: Seq<ServiceCall>|
                #[trigger] shutdown_step(
                    before + added_calls(old(self).calls(), final(self).calls()) + rest,
                    before.len() as int,
                    steam_exe@,
                ) == match r {
                    Ok(_) => Flow::Next(
                        (before.len() + added_calls(old(self).calls(), final(self).calls()).len()) as int,
                        (),
                    ),
                    Err(e) => Flow::Stop(
                        (before.len() + added_calls(old(self).calls(), final(self).calls()).len()) as int,
                        e,
                    ),
                },
            final(self).service_records() == recorded_after(
                old(self).service_records(),
                added_calls(old(self).calls(), final(self).calls()),
            ),
    {
        let ghost start = self.log@;
        let ghost rec0 = self.service_records();
        let ghost mut added: Seq<ServiceCall> = Seq::empty();
        let names = steam_process_names();
        let listed: &[&str] = &names;
        proof {
            reveal_strlit("steam.exe");
            reveal_strlit("steamservice.exe");
            reveal_strlit("steamwebhelper.exe");
            assert(names_text(listed@) =~= steam_names());
            lemma_records_none(rec0);
        }
        let running = self.check_running(listed);
        proof {
            lemma_records_push(rec0, added, ServiceCall::CheckRunning(steam_names(), running));
            added = added.push(ServiceCall::CheckRunning(steam_names(), running));
            assert(self.log@ =~= start + added);
            lemma_appended(start, added);
        }
        let running = running?;
        if !running {
            return Ok(());
        }
        let requested = self.request_shutdown(steam_exe);
        proof {
            lemma_records_push(rec0, added, ServiceCall::RequestShutdown(steam_exe@, requested));
            added = added.push(ServiceCall::RequestShutdown(steam_exe@, requested));
            assert(self.log@ =~= start + added);
            lemma_appended(start, added);
        }
        requested?;
        let exited = self.wait_for_exit(listed, SHUTDOWN_TIMEOUT_SECS);
        proof {
            lemma_records_push(rec0, added, ServiceCall::WaitForExit(steam_names(), SHUTDOWN_TIMEOUT_SECS, exited));
            added = added.push(ServiceCall::WaitForExit(steam_names(), SHUTDOWN_TIMEOUT_SECS, exited));
            assert(self.log@ =~= start + added);
            lemma_appended(start, added);
        }
        if exited? {
            return Ok(());
        }
        let killed = self.force_kill(listed);
        proof {
            lemma_records_push(rec0, added, ServiceCall::ForceKill(steam_names(), killed));
            added = added.push(ServiceCall::ForceKill(steam_names(), killed));
            assert(self.log@ =~= start + added);
            lemma_appended(start, added);
        }
        killed?;
        let gone = self.wait_for_exit(listed, SHUTDOWN_TIMEOUT_SECS);
        proof {
            lemma_records_push(rec0, added, ServiceCall::WaitForExit(steam_names(), SHUTDOWN_TIMEOUT_SECS, gone));
            added = added.push(ServiceCall::WaitForExit(steam_names(), SHUTDOWN_TIMEOUT_SECS, gone));
            assert(self.log@ =~= start + added);
            lemma_appended(start, added);
        }
        if gone? {
            return Ok(());
        }
        Err(AppError::SteamStillRunning)
    }

    // --- the commands ---

    /// Lists the remembered accounts in the listing order; an installation without
    /// `loginusers.vdf` has none.
    pub fn refresh(&mut self, overrides: PathOverrides) -> (r: Result<Vec<SteamAccount>, AppError>)
        ensures
            extends(old(self).calls(), final(self).calls()),
            refresh_run(added_calls(old(self).calls(), final(self).calls()), overrides, r),
            final(self).service_records() == recorded_after(
                old(self).service_records(),
                added_calls(old(self).calls(), final(self).calls()),
            ),
    {
        let ghost start = self.log@;
        let ghost rec0 = self.service_records();
        let resolved = self.steam_paths(&overrides);
        let ghost a = added_calls(start, self.log@);
        proof {
            lemma_split(start, self.log@);
            lemma_appended(start, a);
            assert(a + Seq::<ServiceCall>::empty() =~= a);
            assert(steam_paths_step(a + Seq::<ServiceCall>::empty(), 0, overrides) == steam_paths_step(a, 0, overrides));
        }
        let paths = resolved?;
        let ghost dir = paths.steam_dir@;
        let ghost exe = paths.steam_exe@;
        let path = paths.loginusers_vdf.as_str();
        let present = self.path_exists(path);
        let ghost mut tail: Seq<ServiceCall> = seq![ServiceCall::PathExists(path@, present)];
        proof {
            lemma_records_join(rec0, a, tail);
            assert(self.log@ =~= start + (a + tail));
            lemma_appended(start, a + tail);
            assert(steam_paths_step(a + tail, 0, overrides) == Flow::Next(a.len() as int, (dir, exe)));
        }
        if !present {
            return Ok(Vec::new());
        }
        let read_auto = self.read_auto_login_user();
        proof {
            lemma_records_step(rec0, a, tail, ServiceCall::ReadAutoLoginUser(read_auto));
            tail = tail.push(ServiceCall::ReadAutoLoginUser(read_auto));
            assert(self.log@ =~= start + (a + tail));
            lemma_appended(start, a + tail);
            assert(steam_paths_step(a + tail, 0, overrides) == Flow::Next(a.len() as int, (dir, exe)));
        }
        let auto_login_user = read_auto?;
        let read = self.read_file(path);
        proof {
            lemma_records_step(rec0, a, tail, ServiceCall::ReadFile(path@, read));
            tail = tail.push(ServiceCall::ReadFile(path@, read));
            assert(self.log@ =~= start + (a + tail));
            lemma_appended(start, a + tail);
            assert(steam_paths_step(a + tail, 0, overrides) == Flow::Next(a.len() as int, (dir, exe)));
        }
        let content = read?;
        let auto: Option<&str> = match &auto_login_user {
            Some(a) => Some(a.as_str()),
            None => None,
        };
        assert(text_view(auto) == text_of_option(auto_login_user));
        list_accounts(content.as_str(), auto)
    }

    /// Clears `AutoLoginUser` and restarts Steam into its new-login flow; `loginusers.vdf`
    /// is not touched.
    pub fn login_new(&mut self, overrides: PathOverrides) -> (r: Result<(), AppError>)
        ensures
            extends(old(self).calls(), final(self).calls()),
            login_new_run(added_calls(old(self).calls(), final(self).calls()), overrides, r),
            final(self).service_records() == recorded_after(
                old(self).service_records(),
                added_calls(old(self).calls(), final(self).calls()),
            ),
    {
        let ghost start = self.log@;
        let ghost rec0 = self.service_records();
        let ghost mut added: Seq<ServiceCall> = Seq::empty();
        proof {
            assert(self.log@ =~= start + added);
            lemma_appended(start, added);
            lemma_records_none(rec0);
        }
        let registry_exe = match &overrides.steam_exe {
            Some(_) => None,
            None => {
                let read = self.read_steam_exe();
                proof {
                    lemma_records_push(rec0, added, ServiceCall::ReadSteamExe(read));
                    added = added.push(ServiceCall::ReadSteamExe(read));
                    assert(self.log@ =~= start + added);
                    lemma_appended(start, added);
                }
                read?
            },
        };
        let paths = launch_paths_from(&overrides, registry_exe)?;
        let exe = paths.steam_exe.as_str();
        let checked = self.check_file(exe);
        proof {
            lemma_records_push(rec0, added, ServiceCall::CheckFile(exe@, checked));
            added = added.push(ServiceCall::CheckFile(exe@, checked));
            assert(self.log@ =~= start + added);
            lemma_appended(start, added);
        }
        checked?;
        let ghost pre = added;
        let stopped = self.shutdown_running_steam(exe);
        let ghost s = added_calls(start + pre, self.log@);
        proof {
            lemma_split(start + pre, self.log@);
            lemma_records_join(rec0, pre, s);
            added = pre + s;
            assert(self.log@ =~= start + added);
            lemma_appended(start, added);
            assert(pre + s + Seq::<ServiceCall>::empty() =~= added);
            assert(shutdown_step(pre + s + Seq::<ServiceCall>::empty(), pre.len() as int, exe@)
                == shutdown_step(added, pre.len() as int, exe@));
        }
        stopped?;
        let cleared = self.write_auto_login_user("");
        proof {
            reveal_strlit("");
            assert(""@ =~= Seq::<char>::empty());
            let tail = seq![ServiceCall::WriteAutoLoginUser(Seq::empty(), cleared)];
            lemma_records_push(rec0, added, ServiceCall::WriteAutoLoginUser(Seq::empty(), cleared));
            added = added.push(ServiceCall::WriteAutoLoginUser(Seq::empty(), cleared));
            assert(self.log@ =~= start + added);
            lemma_appended(start, added);
            assert(added =~= pre + s + tail);
            assert(shutdown_step(pre + s + tail, pre.len() as int, exe@) == Flow::Next(
                (pre.len() + s.len()) as int,
                (),
            ));
        }
        cleared?;
        let launched = self.launch(exe);
        proof {
            let tail = seq![
                ServiceCall::WriteAutoLoginUser(Seq::empty(), cleared),
                ServiceCall::Launch(exe@, launched),
            ];
            lemma_records_push(rec0, added, ServiceCall::Launch(exe@, launched));
            added = added.push(ServiceCall::Launch(exe@, launched));
            assert(self.log@ =~= start + added);
            lemma_appended(start, added);
            assert(added =~= pre + s + tail);
            assert(shutdown_step(pre + s + tail, pre.len() as int, exe@) == Flow::Next(
                (pre.len() + s.len()) as int,
                (),
            ));
        }
        launched?;
        Ok(())
    }


    /// Switches to a remembered account: checks the target first, stops Steam, rewrites
    /// `loginusers.vdf`, sets `AutoLoginUser` to the account name and starts Steam.
    pub fn start(&mut self, overrides: PathOverrides, request: StartRequest) -> (r: Result<
        SteamAccount,
        AppError,
    >)
        ensures
            extends(old(self).calls(), final(self).calls()),
            start_run(added_calls(old(self).calls(), final(self).calls()), overrides, request, r),
            final(self).service_records() == recorded_after(
                old(self).service_records(),
                added_calls(old(self).calls(), final(self).calls()),
            ),
    {
        let ghost start = self.log@;
        let ghost rec0 = self.service_records();
        let resolved = self.steam_paths(&overrides);
        let ghost a = added_calls(start, self.log@);
        proof {
            lemma_split(start, self.log@);
            lemma_appended(start, a);
            assert(a + Seq::<ServiceCall>::empty() =~= a);
            assert(steam_paths_step(a + Seq::<ServiceCall>::empty(), 0, overrides) == steam_paths_step(a, 0, overrides));
        }
        let paths = resolved?;
        let ghost dir = paths.steam_dir@;
        let ghost exe = paths.steam_exe@;
        let result = self.start_with_file(paths.loginusers_vdf.as_str(), paths.steam_exe.as_str(), &request);
        let ghost c = added_calls(start + a, self.log@);
        proof {
            lemma_split(start + a, self.log@);
            lemma_records_join(rec0, a, c);
            assert(self.log@ =~= start + (a + c));
            lemma_appended(start, a + c);
            assert(steam_paths_step(a + c, 0, overrides) == Flow::Next(a.len() as int, (dir, exe)));
            assert(start_from_file(a + c, a.len() as int, paths.loginusers_vdf@, exe, request, result));
        }
        result
    }

    /// `start` from the paths on.
    #[verifier::spinoff_prover]
    #[verifier::rlimit(40)]
    fn start_with_file(&mut self, path: &str, exe: &str, request: &StartRequest) -> (r: Result<
        SteamAccount,
        AppError,
    >)
        ensures
            extends(old(self).calls(), final(self).calls()),
            forall|before: Seq<ServiceCall>|
                #[trigger] start_from_file(
                    before + added_calls(old(self).calls(), final(self).calls()),
                    before.len() as int,
                    path@,
                    exe@,
                    *request,
                    r,
                ),
            final(self).service_records() == recorded_after(
                old(self).service_records(),
                added_calls(old(self).calls(), final(self).calls()),
            ),
    {
        let ghost start = self.log@;
        let ghost rec0 = self.service_records();
        let present = self.path_exists(path);
        let ghost mut tail: Seq<ServiceCall> = seq![ServiceCall::PathExists(path@, present)];
        proof {
            assert(self.log@ =~= start + tail);
            lemma_appended(start, tail);
        }
        if !present {
            return Err(AppError::LoginUsersMissing(owned(path)));
        }
        let read_auto = self.read_auto_login_user();
        proof {
            lemma_records_push(rec0, tail, ServiceCall::ReadAutoLoginUser(read_auto));
            tail = tail.push(ServiceCall::ReadAutoLoginUser(read_auto));
            assert(self.log@ =~= start + tail);
            lemma_appended(start, tail);
        }
        let auto_login_user = read_auto?;
        let read = self.read_file(path);
        proof {
            lemma_records_push(rec0, tail, ServiceCall::ReadFile(path@, read));
            tail = tail.push(ServiceCall::ReadFile(path@, read));
            assert(self.log@ =~= start + tail);
            lemma_appended(start, tail);
        }
        let first = read?;
        let auto: Option<&str> = match &auto_login_user {
            Some(x) => Some(x.as_str()),
            None => None,
        };
        assert(text_view(auto) == text_of_option(auto_login_user));
        let vdf = match LoginUsersVdf::parse(first.as_str()) {
            Ok(v) => v,
            Err(e) => {
                return Err(AppError::Vdf(e));
            },
        };
        let preflight_accounts = match vdf.accounts(auto) {
            Ok(v) => v,
            Err(e) => {
                return Err(AppError::Vdf(e));
            },
        };
        let chosen = select_start_target(&preflight_accounts, request);
        proof {
            let accounts = records(preflight_accounts@);
            crate::loginusers_vdf::lemma_first_selected(accounts, request.selector);
            lemma_start_target_rules(accounts, *request);
            if let Ok(index) = chosen {
                assert(start_target(accounts, *request) == Ok::<int, AppError>(index as int));
            }
        }
        let index = chosen?;
        let target_name = preflight_accounts[index].account_name.clone();
        proof {
            assert(preflight(first@, text_of_option(auto_login_user), *request) == Ok::<
                AccountRecord,
                AppError,
            >(records(preflight_accounts@)[index as int]));
        }
        let ghost pre = tail;
        let result = self.start_checked(path, exe, request, target_name.as_str());
        let ghost c = added_calls(start + pre, self.log@);
        proof {
            lemma_split(start + pre, self.log@);
            lemma_records_join(rec0, pre, c);
            assert(self.log@ =~= start + (pre + c));
            lemma_appended(start, pre + c);
            assert forall|before: Seq<ServiceCall>| #[trigger] start_from_file(
                before + (pre + c),
                before.len() as int,
                path@,
                exe@,
                *request,
                result,
            ) by {
                assert(before + (pre + c) =~= (before + pre) + c);
                assert(start_after_check((before + pre) + c, (before + pre).len() as int, path@, exe@, *request, target_name@, result));
            }
        }
        result
    }

    /// `start` once the target passed the check.
    #[verifier::spinoff_prover]
    #[verifier::rlimit(40)]
    fn start_checked(&mut self, path: &str, exe: &str, request: &StartRequest, name: &str) -> (r: Result<
        SteamAccount,
        AppError,
    >)
        ensures
            extends(old(self).calls(), final(self).calls()),
            forall|before: Seq<ServiceCall>|
                #[trigger] start_after_check(
                    before + added_calls(old(self).calls(), final(self).calls()),
                    before.len() as int,
                    path@,
                    exe@,
                    *request,
                    name@,
                    r,
                ),
            final(self).service_records() == recorded_after(
                old(self).service_records(),
                added_calls(old(self).calls(), final(self).calls()),
            ),
    {
        let ghost start = self.log@;
        let ghost rec0 = self.service_records();
        let stopped = self.shutdown_running_steam(exe);
        let ghost s = added_calls(start, self.log@);
        proof {
            lemma_split(start, self.log@);
            lemma_appended(start, s);
            assert(s + Seq::<ServiceCall>::empty() =~= s);
            if stopped is Err {
                let e = stopped->Err_0;
                assert forall|before: Seq<ServiceCall>| #[trigger] start_after_check(
                    before + s,
                    before.len() as int,
                    path@,
                    exe@,
                    *request,
                    name@,
                    Err::<SteamAccount, AppError>(e),
                ) by {
                    assert(before + s =~= before + s + Seq::<ServiceCall>::empty());
                    assert(shutdown_step(before + s + Seq::<ServiceCall>::empty(), before.len() as int, exe@) == shutdown_step(before + s, before.len() as int, exe@));
                }
            }
        }
        stopped?;
        let ghost mut after: Seq<ServiceCall> = Seq::empty();
        let reread = self.read_file(path);
        proof {
            lemma_records_step(rec0, s, after, ServiceCall::ReadFile(path@, reread));
            after = after.push(ServiceCall::ReadFile(path@, reread));
            assert(self.log@ =~= start + (s + after));
            lemma_appended(start, s + after);
            assert forall|before: Seq<ServiceCall>| #[trigger] shutdown_step(before + s + after, before.len() as int, exe@) == Flow::Next((before.len() + s.len()) as int, ()) by {}
        }
        let content = reread?;
        let text = content.as_str();
        let switched = switch_document(text, request, name);
        let (rendered, updated) = switched?;
        let written = self.write_file(path, rendered.as_str());
        proof {
            lemma_records_step(rec0, s, after, ServiceCall::WriteFile(path@, rendered@, written));
            after = after.push(ServiceCall::WriteFile(path@, rendered@, written));
            assert(self.log@ =~= start + (s + after));
            lemma_appended(start, s + after);
            assert forall|before: Seq<ServiceCall>| #[trigger] shutdown_step(before + s + after, before.len() as int, exe@) == Flow::Next((before.len() + s.len()) as int, ()) by {}
        }
        written?;
        let set = self.write_auto_login_user(name);
        proof {
            lemma_records_step(rec0, s, after, ServiceCall::WriteAutoLoginUser(name@, set));
            after = after.push(ServiceCall::WriteAutoLoginUser(name@, set));
            assert(self.log@ =~= start + (s + after));
            lemma_appended(start, s + after);
            assert forall|before: Seq<ServiceCall>| #[trigger] shutdown_step(before + s + after, before.len() as int, exe@) == Flow::Next((before.len() + s.len()) as int, ()) by {}
        }
        set?;
        let launched = self.launch(exe);
        proof {
            lemma_records_step(rec0, s, after, ServiceCall::Launch(exe@, launched));
            after = after.push(ServiceCall::Launch(exe@, launched));
            assert(self.log@ =~= start + (s + after));
            lemma_appended(start, s + after);
            assert forall|before: Seq<ServiceCall>| #[trigger] shutdown_step(before + s + after, before.len() as int, exe@) == Flow::Next((before.len() + s.len()) as int, ()) by {}
        }
        launched?;
        Ok(updated)
    }
}

// ---------------------------------------------------------------------------
// Steam is stopped before anything changes
// ---------------------------------------------------------------------------

/// A call that changes what Steam will find or do: a file or registry write, or a launch.
pub open spec fn is_state_change(c: ServiceCall) -> bool {
    c is WriteFile || c is WriteAutoLoginUser || c is Launch
}

/// An answer that none of Steam's processes runs: `is_running` on Steam's names said no,
/// or a wait of `SHUTDOWN_TIMEOUT_SECS` seconds for them ended with all gone.
pub open spec fn reports_stopped(c: ServiceCall) -> bool {
    running_answer(c) == Some(Ok::<bool, AppError>(false)) || wait_answer(c) == Some(
        Ok::<bool, AppError>(true),
    )
}

/// Every call that changes Steam's state comes after an answer that Steam does not run.
pub open spec fn changes_after_stop(calls: Seq<ServiceCall>) -> bool {
    forall|k: int|
        0 <= k < calls.len() && #[trigger] is_state_change(calls[k]) ==> exists|j: int|
            0 <= j < k && #[trigger] reports_stopped(calls[j])
}

pub open spec fn no_change_between(calls: Seq<ServiceCall>, i: int, j: int) -> bool {
    forall|k: int| i <= k < j ==> !is_state_change(#[trigger] calls[k])
}

/// Up to `q` nothing changes, and the calls end at `q` or Steam was reported stopped just
/// before it.
pub open spec fn stopped_by(calls: Seq<ServiceCall>, q: int) -> bool {
    &&& 0 <= q <= calls.len()
    &&& no_change_between(calls, 0, q)
    &&& (q == calls.len() || (q > 0 && reports_stopped(calls[q - 1])))
}

proof fn lemma_stopped_by(calls: Seq<ServiceCall>, q: int)
    requires
        stopped_by(calls, q),
    ensures
        changes_after_stop(calls),
{
    assert forall|k: int| 0 <= k < calls.len() && #[trigger] is_state_change(calls[k]) implies exists|
        j: int,
    | 0 <= j < k && #[trigger] reports_stopped(calls[j]) by {
        assert(k >= q);
        assert(reports_stopped(calls[q - 1]));
    }
}

/// A step that reads one call: what it reads does not change Steam's state.
pub open spec fn quiet_flow<T>(calls: Seq<ServiceCall>, p: int, flow: Flow<T>) -> bool {
    match flow {
        Flow::Next(q, _) => p <= q <= calls.len() && no_change_between(calls, p, q),
        Flow::Stop(end, _) => p <= end <= calls.len() && no_change_between(calls, p, end),
        Flow::Bad => true,
    }
}

proof fn lemma_quiet_steps(calls: Seq<ServiceCall>, p: int, overrides: PathOverrides, path: Seq<char>)
    requires
        0 <= p <= calls.len(),
    ensures
        quiet_flow(calls, p, dir_step(calls, p, overrides)),
        quiet_flow(calls, p, exe_step(calls, p, overrides)),
        quiet_flow(calls, p, dir_check_step(calls, p, path)),
        quiet_flow(calls, p, file_check_step(calls, p, path)),
        quiet_flow(calls, p, exists_step(calls, p, path)),
        quiet_flow(calls, p, auto_step(calls, p)),
        quiet_flow(calls, p, read_step(calls, p, path)),
{
}

proof fn lemma_quiet_join(calls: Seq<ServiceCall>, i: int, j: int, k: int)
    requires
        no_change_between(calls, i, j),
        no_change_between(calls, j, k),
    ensures
        no_change_between(calls, i, k),
{
}

proof fn lemma_quiet_paths(calls: Seq<ServiceCall>, overrides: PathOverrides)
    ensures
        quiet_flow(calls, 0, steam_paths_step(calls, 0, overrides)),
{
    lemma_quiet_steps(calls, 0, overrides, Seq::empty());
    if let Flow::Next(p1, dir) = dir_step(calls, 0, overrides) {
        lemma_quiet_steps(calls, p1, overrides, dir);
        if let Flow::Next(p2, exe) = exe_step(calls, p1, overrides) {
            lemma_quiet_steps(calls, p2, overrides, dir);
            if let Flow::Next(p3, _) = dir_check_step(calls, p2, dir) {
                lemma_quiet_steps(calls, p3, overrides, exe);
            }
        }
    }
}

proof fn lemma_quiet_shutdown(calls: Seq<ServiceCall>, p: int, exe: Seq<char>)
    requires
        0 <= p,
    ensures
        quiet_flow(calls, p, shutdown_step(calls, p, exe)),
        shutdown_step(calls, p, exe) matches Flow::Next(q, _) ==> q > 0 && reports_stopped(
            calls[q - 1],
        ),
{
}

/// `login-new` changes nothing before Steam was reported stopped: the registry write and
/// the launch come after an answer that Steam does not run.
pub proof fn lemma_login_new_stops_steam_first(
    calls: Seq<ServiceCall>,
    overrides: PathOverrides,
    r: Result<(), AppError>,
)
    requires
        login_new_run(calls, overrides, r),
    ensures
        changes_after_stop(calls),
{
    lemma_quiet_steps(calls, 0, overrides, Seq::empty());
    match exe_step(calls, 0, overrides) {
        Flow::Next(p1, exe) => {
            lemma_quiet_steps(calls, p1, overrides, exe);
            match file_check_step(calls, p1, exe) {
                Flow::Next(p2, _) => {
                    lemma_quiet_shutdown(calls, p2, exe);
                    lemma_quiet_join(calls, 0, p1, p2);
                    match shutdown_step(calls, p2, exe) {
                        Flow::Next(p3, _) => {
                            lemma_quiet_join(calls, 0, p2, p3);
                            lemma_stopped_by(calls, p3);
                        },
                        Flow::Stop(end, _) => {
                            lemma_quiet_join(calls, 0, p2, end);
                            lemma_stopped_by(calls, end);
                        },
                        Flow::Bad => {},
                    }
                },
                Flow::Stop(end, _) => {
                    lemma_quiet_join(calls, 0, p1, end);
                    lemma_stopped_by(calls, end);
                },
                Flow::Bad => {},
            }
        },
        Flow::Stop(end, _) => {
            lemma_stopped_by(calls, end);
        },
        Flow::Bad => {},
    }
}

/// The calls that `login-new` makes never write `loginusers.vdf`, and the only registry
/// write clears `AutoLoginUser`.
pub open spec fn leaves_loginusers_alone(calls: Seq<ServiceCall>) -> bool {
    forall|k: int|
        0 <= k < calls.len() ==> !(#[trigger] calls[k] is WriteFile) && (calls[k] matches ServiceCall::WriteAutoLoginUser(
            v,
            _,
        ) ==> v.len() == 0)
}

/// `login-new` only clears `AutoLoginUser`; it never writes `loginusers.vdf`.
pub proof fn lemma_login_new_leaves_loginusers_alone(
    calls: Seq<ServiceCall>,
    overrides: PathOverrides,
    r: Result<(), AppError>,
)
    requires
        login_new_run(calls, overrides, r),
    ensures
        leaves_loginusers_alone(calls),
{
    lemma_quiet_steps(calls, 0, overrides, Seq::empty());
    if let Flow::Next(p1, exe) = exe_step(calls, 0, overrides) {
        lemma_quiet_steps(calls, p1, overrides, exe);
        if let Flow::Next(p2, _) = file_check_step(calls, p1, exe) {
            lemma_quiet_shutdown(calls, p2, exe);
            lemma_quiet_join(calls, 0, p1, p2);
            if let Flow::Next(p3, _) = shutdown_step(calls, p2, exe) {
                lemma_quiet_join(calls, 0, p2, p3);
                assert forall|k: int| 0 <= k < calls.len() implies !(#[trigger] calls[k] is WriteFile)
                    && (calls[k] matches ServiceCall::WriteAutoLoginUser(v, _) ==> v.len() == 0) by {
                    if k < p3 {
                        assert(!is_state_change(calls[k]));
                    } else if k == p3 {
                        assert(writes_auto_login_user(Seq::empty())(calls[k]));
                    } else {
                        assert(k == p3 + 1);
                        assert(launches(exe)(calls[k]));
                    }
                }
            } else if let Flow::Stop(end, _) = shutdown_step(calls, p2, exe) {
                lemma_quiet_join(calls, 0, p2, end);
            }
        } else if let Flow::Stop(end, _) = file_check_step(calls, p1, exe) {
            lemma_quiet_join(calls, 0, p1, end);
        }
    }
}

/// `start` changes nothing before Steam was reported stopped: the file write, the registry
/// write and the launch come after an answer that Steam does not run; a start refused by
/// its checks changes nothing at all.
pub proof fn lemma_start_stops_steam_first(
    calls: Seq<ServiceCall>,
    overrides: PathOverrides,
    request: StartRequest,
    r: Result<SteamAccount, AppError>,
)
    requires
        start_run(calls, overrides, request, r),
    ensures
        changes_after_stop(calls),
{
    lemma_quiet_paths(calls, overrides);
    match steam_paths_step(calls, 0, overrides) {
        Flow::Next(p1, paths) => {
            let path = loginusers_path(paths.0);
            lemma_quiet_steps(calls, p1, overrides, path);
            match exists_step(calls, p1, path) {
                Flow::Next(p2, present) => {
                    lemma_quiet_join(calls, 0, p1, p2);
                    if !present {
                        lemma_stopped_by(calls, p2);
                    } else {
                        lemma_quiet_steps(calls, p2, overrides, path);
                        match auto_step(calls, p2) {
                            Flow::Next(p3, auto) => {
                                lemma_quiet_join(calls, 0, p2, p3);
                                lemma_quiet_steps(calls, p3, overrides, path);
                                match read_step(calls, p3, path) {
                                    Flow::Next(p4, first) => {
                                        lemma_quiet_join(calls, 0, p3, p4);
                                        match preflight(first, auto, request) {
                                            Err(_) => {
                                                lemma_stopped_by(calls, p4);
                                            },
                                            Ok(_) => {
                                                lemma_quiet_shutdown(calls, p4, paths.1);
                                                match shutdown_step(calls, p4, paths.1) {
                                                    Flow::Next(p5, _) => {
                                                        lemma_quiet_join(calls, 0, p4, p5);
                                                        lemma_stopped_by(calls, p5);
                                                    },
                                                    Flow::Stop(end, _) => {
                                                        lemma_quiet_join(calls, 0, p4, end);
                                                        lemma_stopped_by(calls, end);
                                                    },
                                                    Flow::Bad => {},
                                                }
                                            },
                                        }
                                    },
                                    Flow::Stop(end, _) => {
                                        lemma_quiet_join(calls, 0, p3, end);
                                        lemma_stopped_by(calls, end);
                                    },
                                    Flow::Bad => {},
                                }
                            },
                            Flow::Stop(end, _) => {
                                lemma_quiet_join(calls, 0, p2, end);
                                lemma_stopped_by(calls, end);
                            },
                            Flow::Bad => {},
                        }
                    }
                },
                Flow::Stop(end, _) => {
                    lemma_quiet_join(calls, 0, p1, end);
                    lemma_stopped_by(calls, end);
                },
                Flow::Bad => {},
            }
        },
        Flow::Stop(end, _) => {
            lemma_stopped_by(calls, end);
        },
        Flow::Bad => {},
    }
}

// ---------------------------------------------------------------------------
// Steam gets the full time to exit
// ---------------------------------------------------------------------------

/// A wait asks for five seconds on Steam's process names.
pub open spec fn full_wait(c: ServiceCall) -> bool {
    c matches ServiceCall::WaitForExit(names, timeout, _) ==> names == steam_names() && timeout
        == 5
}

/// A kill comes right after a shutdown request that went through and a wait that reported
/// Steam's processes still running.
pub open spec fn kill_after_failed_wait(calls: Seq<ServiceCall>, k: int) -> bool {
    calls[k] is ForceKill ==> 2 <= k && (calls[k - 2] matches ServiceCall::RequestShutdown(
        _,
        Ok(_),
    )) && (calls[k - 1] matches ServiceCall::WaitForExit(_, _, Ok(false)))
}

/// A shutdown request comes right after a check that found Steam running.
pub open spec fn request_after_running(calls: Seq<ServiceCall>, k: int) -> bool {
    calls[k] is RequestShutdown ==> 1 <= k && (calls[k - 1] matches ServiceCall::CheckRunning(
        _,
        Ok(true),
    ))
}

/// A wait that found Steam's processes still running is followed by a kill, unless it came
/// right after one.
pub open spec fn kill_follows_failed_wait(calls: Seq<ServiceCall>, k: int) -> bool {
    (calls[k] matches ServiceCall::WaitForExit(_, _, Ok(false))) ==> (k + 1 < calls.len()
        && calls[k + 1] is ForceKill) || (1 <= k && calls[k - 1] is ForceKill)
}

/// The calls from `i` to `j` stop Steam in order: a request only when it runs, waits in
/// full, a kill only after a failed wait and after every failed first wait.
pub open spec fn full_waits_between(calls: Seq<ServiceCall>, i: int, j: int) -> bool {
    forall|k: int|
        i <= k < j ==> full_wait(#[trigger] calls[k]) && kill_after_failed_wait(calls, k)
            && request_after_running(calls, k) && kill_follows_failed_wait(calls, k)
}

/// Steam is stopped in order: a shutdown request only right after a check that found it
/// running; a kill only right after a request that went through and a wait that found it
/// still running; and after such a first wait always a kill.
pub open spec fn stops_in_order(calls: Seq<ServiceCall>) -> bool {
    forall|k: int|
        0 <= k < calls.len() ==> #[trigger] kill_after_failed_wait(calls, k)
            && request_after_running(calls, k) && kill_follows_failed_wait(calls, k)
}

/// Every wait among the calls asks for five seconds on Steam's process names.
pub open spec fn waits_are_full(calls: Seq<ServiceCall>) -> bool {
    forall|k: int| 0 <= k < calls.len() ==> full_wait(#[trigger] calls[k])
}


/// The calls that a step reads make only full waits.
pub open spec fn full_wait_flow<T>(calls: Seq<ServiceCall>, p: int, flow: Flow<T>) -> bool {
    match flow {
        Flow::Next(q, _) => p <= q <= calls.len() && full_waits_between(calls, p, q),
        Flow::Stop(end, _) => p <= end <= calls.len() && full_waits_between(calls, p, end),
        Flow::Bad => true,
    }
}

proof fn lemma_full_wait_steps(
    calls: Seq<ServiceCall>,
    p: int,
    overrides: PathOverrides,
    path: Seq<char>,
    text: Seq<char>,
)
    requires
        0 <= p <= calls.len(),
    ensures
        full_wait_flow(calls, p, dir_step(calls, p, overrides)),
        full_wait_flow(calls, p, exe_step(calls, p, overrides)),
        full_wait_flow(calls, p, dir_check_step(calls, p, path)),
        full_wait_flow(calls, p, file_check_step(calls, p, path)),
        full_wait_flow(calls, p, exists_step(calls, p, path)),
        full_wait_flow(calls, p, auto_step(calls, p)),
        full_wait_flow(calls, p, read_step(calls, p, path)),
        full_wait_flow(calls, p, shutdown_step(calls, p, path)),
        full_wait_flow(calls, p, change_step(calls, p, writes_file(path, text))),
        full_wait_flow(calls, p, change_step(calls, p, writes_auto_login_user(text))),
        full_wait_flow(calls, p, change_step(calls, p, launches(path))),
{
}

proof fn lemma_full_waits_join(calls: Seq<ServiceCall>, i: int, j: int, k: int)
    requires
        full_waits_between(calls, i, j),
        full_waits_between(calls, j, k),
    ensures
        full_waits_between(calls, i, k),
{
}

/// Every wait that `login-new` makes, and so every wait that its process controller is
/// asked for, is for five seconds on Steam's process names; and it stops Steam in order:
/// the shutdown request only when Steam runs, the kill only right after a request that went
/// through and a wait that found Steam still running, and always after such a first wait.
pub proof fn lemma_login_new_waits_in_full(
    calls: Seq<ServiceCall>,
    overrides: PathOverrides,
    r: Result<(), AppError>,
)
    requires
        login_new_run(calls, overrides, r),
    ensures
        waits_are_full(calls),
        stops_in_order(calls),
        waits_are_full(calls.filter(made_on_processes())),
{
    let e = Seq::<char>::empty();
    lemma_full_wait_steps(calls, 0, overrides, e, e);
    if let Flow::Next(p1, exe) = exe_step(calls, 0, overrides) {
        lemma_full_wait_steps(calls, p1, overrides, exe, e);
        if let Flow::Next(p2, _) = file_check_step(calls, p1, exe) {
            lemma_full_wait_steps(calls, p2, overrides, exe, e);
            lemma_full_waits_join(calls, 0, p1, p2);
            if let Flow::Next(p3, _) = shutdown_step(calls, p2, exe) {
                lemma_full_waits_join(calls, 0, p2, p3);
                lemma_full_wait_steps(calls, p3, overrides, exe, e);
                if let Flow::Next(p4, _) = change_step(calls, p3, writes_auto_login_user(e)) {
                    lemma_full_waits_join(calls, 0, p3, p4);
                    lemma_full_wait_steps(calls, p4, overrides, exe, e);
                    if let Flow::Next(p5, _) = change_step(calls, p4, launches(exe)) {
                        lemma_full_waits_join(calls, 0, p4, p5);
                    } else if let Flow::Stop(end, _) = change_step(calls, p4, launches(exe)) {
                        lemma_full_waits_join(calls, 0, p4, end);
                    }
                } else if let Flow::Stop(end, _) = change_step(calls, p3, writes_auto_login_user(e)) {
                    lemma_full_waits_join(calls, 0, p3, end);
                }
            } else if let Flow::Stop(end, _) = shutdown_step(calls, p2, exe) {
                lemma_full_waits_join(calls, 0, p2, end);
            }
        } else if let Flow::Stop(end, _) = file_check_step(calls, p1, exe) {
            lemma_full_waits_join(calls, 0, p1, end);
        }
    }
    lemma_full_waits_kept(calls);
}

/// Every wait that `start` makes, and so every wait that its process controller is asked
/// for, is for five seconds on Steam's process names; and it stops Steam in order: the
/// shutdown request only when Steam runs, the kill only right after a request that went
/// through and a wait that found Steam still running, and always after such a first wait.
pub proof fn lemma_start_waits_in_full(
    calls: Seq<ServiceCall>,
    overrides: PathOverrides,
    request: StartRequest,
    r: Result<SteamAccount, AppError>,
)
    requires
        start_run(calls, overrides, request, r),
    ensures
        waits_are_full(calls),
        stops_in_order(calls),
        waits_are_full(calls.filter(made_on_processes())),
{
    let e = Seq::<char>::empty();
    lemma_full_wait_steps(calls, 0, overrides, e, e);
    match dir_step(calls, 0, overrides) {
        Flow::Next(p1, dir) => {
            lemma_full_wait_steps(calls, p1, overrides, dir, e);
            match exe_step(calls, p1, overrides) {
                Flow::Next(p2, exe) => {
                    lemma_full_waits_join(calls, 0, p1, p2);
                    lemma_full_wait_steps(calls, p2, overrides, dir, e);
                    match dir_check_step(calls, p2, dir) {
                        Flow::Next(p3, _) => {
                            lemma_full_waits_join(calls, 0, p2, p3);
                            lemma_full_wait_steps(calls, p3, overrides, exe, e);
                            match file_check_step(calls, p3, exe) {
                                Flow::Next(q, _) => {
                                    lemma_full_waits_join(calls, 0, p3, q);
                                    lemma_start_from_file_waits(
                                        calls,
                                        q,
                                        loginusers_path(dir),
                                        exe,
                                        request,
                                        r,
                                    );
                                    lemma_full_waits_join(calls, 0, q, calls.len() as int);
                                },
                                Flow::Stop(end, _) => lemma_full_waits_join(calls, 0, p3, end),
                                Flow::Bad => {},
                            }
                        },
                        Flow::Stop(end, _) => lemma_full_waits_join(calls, 0, p2, end),
                        Flow::Bad => {},
                    }
                },
                Flow::Stop(end, _) => lemma_full_waits_join(calls, 0, p1, end),
                Flow::Bad => {},
            }
        },
        _ => {},
    }
    lemma_full_waits_kept(calls);
}

proof fn lemma_start_from_file_waits(
    calls: Seq<ServiceCall>,
    p1: int,
    path: Seq<char>,
    exe: Seq<char>,
    request: StartRequest,
    r: Result<SteamAccount, AppError>,
)
    requires
        0 <= p1 <= calls.len(),
        start_from_file(calls, p1, path, exe, request, r),
    ensures
        full_waits_between(calls, p1, calls.len() as int),
{
    let e = Seq::<char>::empty();
    lemma_full_wait_steps(calls, p1, PathOverrides { steam_dir: None, steam_exe: None }, path, e);
    match exists_step(calls, p1, path) {
        Flow::Next(p2, present) => {
            if present {
                lemma_full_wait_steps(calls, p2, PathOverrides { steam_dir: None, steam_exe: None }, path, e);
                match auto_step(calls, p2) {
                    Flow::Next(p3, auto) => {
                        lemma_full_waits_join(calls, p1, p2, p3);
                        lemma_full_wait_steps(calls, p3, PathOverrides { steam_dir: None, steam_exe: None }, path, e);
                        match read_step(calls, p3, path) {
                            Flow::Next(p4, first) => {
                                lemma_full_waits_join(calls, p1, p3, p4);
                                if let Ok(target) = preflight(first, auto, request) {
                                    lemma_after_check_waits(calls, p4, path, exe, request, target.account_name, r);
                                    lemma_full_waits_join(calls, p1, p4, calls.len() as int);
                                }
                            },
                            Flow::Stop(end, _) => lemma_full_waits_join(calls, p1, p3, end),
                            Flow::Bad => {},
                        }
                    },
                    Flow::Stop(end, _) => lemma_full_waits_join(calls, p1, p2, end),
                    Flow::Bad => {},
                }
            }
        },
        _ => {},
    }
}

proof fn lemma_after_check_waits(
    calls: Seq<ServiceCall>,
    p4: int,
    path: Seq<char>,
    exe: Seq<char>,
    request: StartRequest,
    name: Seq<char>,
    r: Result<SteamAccount, AppError>,
)
    requires
        0 <= p4 <= calls.len(),
        start_after_check(calls, p4, path, exe, request, name, r),
    ensures
        full_waits_between(calls, p4, calls.len() as int),
{
    let o = PathOverrides { steam_dir: None, steam_exe: None };
    let e = Seq::<char>::empty();
    lemma_full_wait_steps(calls, p4, o, exe, e);
    match shutdown_step(calls, p4, exe) {
        Flow::Next(p5, _) => {
            lemma_full_wait_steps(calls, p5, o, path, e);
            match read_step(calls, p5, path) {
                Flow::Next(p6, text) => {
                    lemma_full_waits_join(calls, p4, p5, p6);
                    if switch_error(text, request.selector) is None {
                        let switched = switched_text(text, request);
                        lemma_full_wait_steps(calls, p6, o, path, switched);
                        match change_step(calls, p6, writes_file(path, switched)) {
                            Flow::Next(p7, _) => {
                                lemma_full_waits_join(calls, p4, p6, p7);
                                lemma_full_wait_steps(calls, p7, o, exe, name);
                                match change_step(calls, p7, writes_auto_login_user(name)) {
                                    Flow::Next(p8, _) => {
                                        lemma_full_waits_join(calls, p4, p7, p8);
                                        lemma_full_wait_steps(calls, p8, o, exe, name);
                                        match change_step(calls, p8, launches(exe)) {
                                            Flow::Next(p9, _) => lemma_full_waits_join(calls, p4, p8, p9),
                                            Flow::Stop(end, _) => lemma_full_waits_join(calls, p4, p8, end),
                                            Flow::Bad => {},
                                        }
                                    },
                                    Flow::Stop(end, _) => lemma_full_waits_join(calls, p4, p7, end),
                                    Flow::Bad => {},
                                }
                            },
                            Flow::Stop(end, _) => lemma_full_waits_join(calls, p4, p6, end),
                            Flow::Bad => {},
                        }
                    }
                },
                Flow::Stop(end, _) => lemma_full_waits_join(calls, p4, p5, end),
                Flow::Bad => {},
            }
        },
        _ => {},
    }
}

/// The calls kept for the process controller keep their waits.
proof fn lemma_full_waits_kept(calls: Seq<ServiceCall>)
    requires
        waits_are_full(calls),
    ensures
        waits_are_full(calls.filter(made_on_processes())),
{
    let kept = calls.filter(made_on_processes());
    assert forall|k: int| 0 <= k < kept.len() implies full_wait(#[trigger] kept[k]) by {
        assert(kept.contains(kept[k]));
        calls.lemma_filter_contains_rev(made_on_processes(), kept[k]);
        let j = choose|j: int| 0 <= j < calls.len() && calls[j] == kept[k];
        assert(full_wait(calls[j]));
    }
}

/// `after` splits into `before` and what was added to it.
proof fn lemma_split(before: Seq<ServiceCall>, after: Seq<ServiceCall>)
    requires
        extends(before, after),
    ensures
        after == before + added_calls(before, after),
{
    assert(after =~= before + added_calls(before, after));
}

proof fn lemma_appended(before: Seq<ServiceCall>, extra: Seq<ServiceCall>)
    ensures
        extends(before, before + extra),
        added_calls(before, before + extra) == extra,
{
    assert((before + extra).take(before.len() as int) =~= before);
    assert((before + extra).skip(before.len() as int) =~= extra);
}

} // verus!
