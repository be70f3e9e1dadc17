use std::collections::HashMap;

use ac_switch_rust::app::temp_file_name;
use ac_switch_rust::paths::join_path_text;
use ac_switch_rust::{
    AccountSelector, App, AppError, FileStore, PathOverrides, ProcessController, RegistryStore,
    StartMode, StartRequest,
};

const MULTI_USER: &str = "\"users\"\n{\n\t\"76561198000000001\"\n\t{\n\t\t\"AccountName\"\t\t\"alpha_user\"\n\t\t\"PersonaName\"\t\t\"Alpha\"\n\t\t\"RememberPassword\"\t\t\"1\"\n\t\t\"mostrecent\"\t\t\"1\"\n\t\t\"WantsOfflineMode\"\t\t\"0\"\n\t\t\"Timestamp\"\t\t\"1700000000\"\n\t}\n\t\"76561198000000002\"\n\t{\n\t\t\"AccountName\"\t\t\"beta_user\"\n\t\t\"PersonaName\"\t\t\"Beta\"\n\t\t\"RememberPassword\"\t\t\"0\"\n\t\t\"MostRecent\"\t\t\"0\"\n\t\t\"Timestamp\"\t\t\"1600000000\"\n\t\t\"CustomValue\"\t\t\"keep-me\"\n\t}\n}\n";

#[derive(Default)]
struct MockRegistry {
    steam_path: Option<String>,
    steam_exe: Option<String>,
    auto_login_user: Option<String>,
    writes: Vec<String>,
}

impl RegistryStore for MockRegistry {
    fn read_steam_path(&self) -> Result<Option<String>, AppError> {
        Ok(self.steam_path.clone())
    }

    fn read_steam_exe(&self) -> Result<Option<String>, AppError> {
        Ok(self.steam_exe.clone())
    }

    fn read_auto_login_user(&self) -> Result<Option<String>, AppError> {
        Ok(self.auto_login_user.clone())
    }

    fn write_auto_login_user(&mut self, value: &str) -> Result<(), AppError> {
        self.auto_login_user = if value.is_empty() { None } else { Some(value.to_owned()) };
        self.writes.push(value.to_owned());
        Ok(())
    }
}

#[derive(Default)]
struct MockProcessController {
    log: Vec<String>,
    wait_results: Vec<bool>,
}

impl ProcessController for MockProcessController {
    fn is_running(&mut self, _process_names: &[&str]) -> Result<bool, AppError> {
        Ok(true)
    }

    fn shutdown_steam(&mut self, steam_exe: &str) -> Result<(), AppError> {
        self.log.push(format!("shutdown:{}", steam_exe));
        Ok(())
    }

    fn wait_for_exit(&mut self, _process_names: &[&str], _timeout_secs: u64) -> Result<bool, AppError> {
        Ok(self.wait_results.pop().unwrap_or(true))
    }

    fn force_kill(&mut self, _process_names: &[&str]) -> Result<(), AppError> {
        self.log.push("force_kill".to_owned());
        Ok(())
    }

    fn launch_steam(&mut self, steam_exe: &str) -> Result<(), AppError> {
        self.log.push(format!("launch:{}", steam_exe));
        Ok(())
    }
}

#[derive(Default)]
struct MockIdleProcessController {
    log: Vec<String>,
}

impl ProcessController for MockIdleProcessController {
    fn is_running(&mut self, _process_names: &[&str]) -> Result<bool, AppError> {
        Ok(false)
    }

    fn shutdown_steam(&mut self, steam_exe: &str) -> Result<(), AppError> {
        self.log.push(format!("shutdown:{}", steam_exe));
        Ok(())
    }

    fn wait_for_exit(&mut self, _process_names: &[&str], _timeout_secs: u64) -> Result<bool, AppError> {
        Ok(true)
    }

    fn force_kill(&mut self, _process_names: &[&str]) -> Result<(), AppError> {
        self.log.push("force_kill".to_owned());
        Ok(())
    }

    fn launch_steam(&mut self, steam_exe: &str) -> Result<(), AppError> {
        self.log.push(format!("launch:{}", steam_exe));
        Ok(())
    }
}

#[derive(Default)]
struct MockFileStore {
    files: HashMap<String, String>,
    writes: Vec<(String, String)>,
}

impl FileStore for MockFileStore {
    fn path_exists(&self, path: &str) -> bool {
        self.files.contains_key(path)
    }

    fn read_to_string(&self, path: &str) -> Result<String, AppError> {
        self.files
            .get(path)
            .cloned()
            .ok_or_else(|| AppError::Service(format!("Missing mock file {}", path)))
    }

    fn write_atomic_string(&mut self, path: &str, contents: &str) -> Result<(), AppError> {
        self.files.insert(path.to_owned(), contents.to_owned());
        self.writes.push((path.to_owned(), contents.to_owned()));
        Ok(())
    }
}

/// A directory that exists while the tests run.
fn temp_dir() -> String {
    "/".to_owned()
}

/// A file that exists while the tests run: the test executable itself.
fn host_exe() -> String {
    "/proc/self/exe".to_owned()
}

fn build_app(
    auto_login_user: Option<&str>,
    include_vdf: bool,
) -> (App<MockRegistry, MockProcessController, MockFileStore>, String) {
    let steam_dir = temp_dir();
    let steam_exe = host_exe();
    let loginusers = join_path_text(&join_path_text(&steam_dir, "config"), "loginusers.vdf");

    let registry = MockRegistry {
        steam_path: Some(steam_dir.clone()),
        steam_exe: Some(steam_exe),
        auto_login_user: auto_login_user.map(str::to_owned),
        writes: Vec::new(),
    };

    let mut files = MockFileStore::default();
    if include_vdf {
        files.files.insert(loginusers.clone(), MULTI_USER.to_owned());
    }

    (App::new(registry, MockProcessController::default(), files), loginusers)
}

#[test]
fn login_new_clears_registry_without_touching_vdf() {
    let (mut app, loginusers) = build_app(Some("alpha_user"), true);

    app.login_new(PathOverrides::default()).expect("login-new should succeed");

    assert_eq!(app.registry.writes, vec![String::new()]);
    assert!(app.files.writes.is_empty());
    assert_eq!(app.files.files.get(&loginusers).expect("fixture should still exist"), MULTI_USER);
}

#[test]
fn start_express_requires_remember_password() {
    let (mut app, _) = build_app(Some("alpha_user"), true);

    let error = app
        .start(
            PathOverrides::default(),
            StartRequest {
                selector: AccountSelector::AccountName("beta_user".to_owned()),
                mode: StartMode::Express,
            },
        )
        .expect_err("express mode should fail for non-remembered account");

    assert!(error.message().contains("RememberPassword=1"));
    assert!(app.files.writes.is_empty());
    assert!(app.registry.writes.is_empty());
}

#[test]
fn start_offline_updates_vdf_and_launches() {
    let (mut app, loginusers) = build_app(Some("alpha_user"), true);

    let updated = app
        .start(
            PathOverrides::default(),
            StartRequest { selector: AccountSelector::SteamId64(76561198000000001), mode: StartMode::Offline },
        )
        .expect("offline start should succeed");

    assert!(updated.most_recent);
    assert!(updated.wants_offline_mode);
    assert_eq!(app.registry.writes, vec!["alpha_user".to_owned()]);
    assert_eq!(app.processes.log.len(), 2);

    let written = app.files.files.get(&loginusers).expect("updated vdf should exist");
    assert!(written.contains("\"WantsOfflineMode\"\t\t\"1\""));
    assert!(written.contains("\"SkipOfflineModeWarning\"\t\t\"1\""));
}

#[test]
fn start_express_by_account_name_updates_online_mode() {
    let (mut app, loginusers) = build_app(Some("beta_user"), true);

    let updated = app
        .start(
            PathOverrides::default(),
            StartRequest {
                selector: AccountSelector::AccountName("alpha_user".to_owned()),
                mode: StartMode::Express,
            },
        )
        .expect("express start should succeed");

    assert_eq!(updated.account_name, "alpha_user");
    assert!(!updated.wants_offline_mode);
    assert_eq!(app.registry.writes, vec!["alpha_user".to_owned()]);

    let written = app.files.files.get(&loginusers).expect("updated vdf should exist");
    assert!(written.contains("\"WantsOfflineMode\"\t\t\"0\""));
}

#[test]
fn login_new_skips_shutdown_when_steam_is_not_running() {
    let steam_dir = temp_dir();
    let steam_exe = host_exe();
    let registry = MockRegistry {
        steam_path: Some(steam_dir),
        steam_exe: Some(steam_exe.clone()),
        auto_login_user: Some("alpha_user".to_owned()),
        writes: Vec::new(),
    };
    let files = MockFileStore::default();
    let mut app = App::new(registry, MockIdleProcessController::default(), files);

    app.login_new(PathOverrides::default()).expect("login-new should succeed");

    assert_eq!(app.processes.log, vec![format!("launch:{}", steam_exe)]);
    assert_eq!(app.registry.writes, vec![String::new()]);
}

#[test]
fn refresh_sorts_accounts_and_marks_auto_login_user() {
    let (mut app, _) = build_app(Some("alpha_user"), true);

    let accounts = app.refresh(PathOverrides::default()).expect("refresh should succeed");

    assert_eq!(accounts.len(), 2);
    assert_eq!(accounts[0].account_name, "alpha_user");
    assert!(accounts[0].is_auto_login_user);
    assert_eq!(accounts[1].account_name, "beta_user");
    assert!(!accounts[1].is_auto_login_user);
}

#[test]
fn refresh_returns_empty_when_loginusers_vdf_is_missing() {
    let (mut app, _) = build_app(Some("alpha_user"), false);

    let accounts = app.refresh(PathOverrides::default()).expect("refresh should succeed");

    assert!(accounts.is_empty());
}

#[test]
fn start_force_kills_after_shutdown_timeout_then_continues() {
    let (mut app, _) = build_app(Some("alpha_user"), true);
    app.processes.wait_results = vec![true, false];

    let updated = app
        .start(
            PathOverrides::default(),
            StartRequest { selector: AccountSelector::SteamId64(76561198000000001), mode: StartMode::Offline },
        )
        .expect("offline start should succeed after force kill");

    assert_eq!(updated.account_name, "alpha_user");
    assert_eq!(
        app.processes.log,
        vec![
            format!("shutdown:{}", app.registry.steam_exe.as_ref().expect("steam exe")),
            String::from("force_kill"),
            format!("launch:{}", app.registry.steam_exe.as_ref().expect("steam exe")),
        ]
    );
    assert_eq!(app.registry.writes, vec!["alpha_user".to_owned()]);
}

#[test]
fn start_fails_if_processes_still_exist_after_force_kill() {
    let (mut app, _) = build_app(Some("alpha_user"), true);
    app.processes.wait_results = vec![false, false];

    let error = app
        .start(
            PathOverrides::default(),
            StartRequest { selector: AccountSelector::SteamId64(76561198000000001), mode: StartMode::Offline },
        )
        .expect_err("start should fail if steam is still running");

    assert!(error.message().contains("still running after force kill"));
    assert!(app.registry.writes.is_empty());
    assert!(app.files.writes.is_empty());
    assert_eq!(
        app.processes.log,
        vec![
            format!("shutdown:{}", app.registry.steam_exe.as_ref().expect("steam exe")),
            String::from("force_kill"),
        ]
    );
}

#[test]
fn start_without_loginusers_vdf_fails_before_anything_happens() {
    let (mut app, loginusers) = build_app(Some("alpha_user"), false);
    let error = app
        .start(
            PathOverrides::default(),
            StartRequest { selector: AccountSelector::SteamId64(1), mode: StartMode::Offline },
        )
        .expect_err("no file");
    assert_eq!(error, AppError::LoginUsersMissing(loginusers));
    assert!(app.processes.log.is_empty());
}

#[test]
fn start_rejects_unknown_account_and_missing_directory() {
    let (mut app, _) = build_app(None, true);
    let error = app
        .start(
            PathOverrides::default(),
            StartRequest { selector: AccountSelector::AccountName("nobody".to_owned()), mode: StartMode::Offline },
        )
        .expect_err("unknown account");
    assert_eq!(error, AppError::AccountNotFound);
    assert!(app.processes.log.is_empty());

    let overrides = PathOverrides { steam_dir: Some("/definitely/not/here".to_owned()), steam_exe: None };
    let error = app.refresh(overrides).expect_err("missing directory");
    assert_eq!(error, AppError::SteamPathNotFound("/definitely/not/here".to_owned()));
    assert_eq!(error.message(), "SteamPath was not found at /definitely/not/here");
}

#[test]
fn temporary_file_sits_beside_the_target_with_the_nonce() {
    assert_eq!(temp_file_name("loginusers.vdf", 1700000000123456789), "loginusers.vdf.1700000000123456789.tmp");
    assert_eq!(temp_file_name("a", 0), "a.0.tmp");
    assert_eq!(temp_file_name("x.vdf", u128::MAX), format!("x.vdf.{}.tmp", u128::MAX));
}
