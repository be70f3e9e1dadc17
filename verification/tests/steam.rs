use ac_switch_rust::paths::{join_path_text, steam_paths_from};
use ac_switch_rust::steam::{compare_accounts, Precedence};
use ac_switch_rust::{
    format_timestamp, resolve_launch_paths, resolve_steam_paths, sort_accounts, AccountSelector, AppError,
    PathOverrides, RegistryStore, SteamAccount,
};

#[derive(Default)]
struct MockRegistry {
    steam_path: Option<String>,
    steam_exe: Option<String>,
}

impl RegistryStore for MockRegistry {
    fn read_steam_path(&self) -> Result<Option<String>, AppError> {
        Ok(self.steam_path.clone())
    }

    fn read_steam_exe(&self) -> Result<Option<String>, AppError> {
        Ok(self.steam_exe.clone())
    }

    fn read_auto_login_user(&self) -> Result<Option<String>, AppError> {
        Ok(None)
    }

    fn write_auto_login_user(&mut self, _value: &str) -> Result<(), AppError> {
        Ok(())
    }
}

#[test]
fn explicit_overrides_take_priority_over_registry() {
    let registry = MockRegistry {
        steam_path: Some(r"C:\RegistrySteam".to_owned()),
        steam_exe: Some(r"C:\RegistrySteam\steam.exe".to_owned()),
    };
    let overrides = PathOverrides {
        steam_dir: Some(r"D:\CustomSteam".to_owned()),
        steam_exe: Some(r"D:\CustomSteam\steam.exe".to_owned()),
    };

    let resolved = resolve_steam_paths(&overrides, &registry).expect("paths should resolve");

    assert_eq!(resolved.steam_dir, r"D:\CustomSteam");
    assert_eq!(resolved.steam_exe, r"D:\CustomSteam\steam.exe");
    assert_eq!(resolved.loginusers_vdf, r"D:\CustomSteam\config\loginusers.vdf");
}

#[test]
fn registry_is_used_when_overrides_are_missing() {
    let registry = MockRegistry {
        steam_path: Some(r"C:\RegistrySteam".to_owned()),
        steam_exe: Some(r"C:\RegistrySteam\steam.exe".to_owned()),
    };

    let resolved = resolve_steam_paths(&PathOverrides::default(), &registry).expect("paths should resolve");

    assert_eq!(resolved.steam_dir, r"C:\RegistrySteam");
    assert_eq!(resolved.steam_exe, r"C:\RegistrySteam\steam.exe");
}

#[test]
fn missing_paths_are_reported_directory_first() {
    let registry = MockRegistry::default();
    assert_eq!(
        resolve_steam_paths(&PathOverrides::default(), &registry).unwrap_err(),
        AppError::SteamPathMissing
    );
    let overrides = PathOverrides { steam_dir: Some(r"D:\S".to_owned()), steam_exe: None };
    assert_eq!(resolve_steam_paths(&overrides, &registry).unwrap_err(), AppError::SteamExeMissing);
    assert_eq!(
        resolve_launch_paths(&PathOverrides::default(), &registry).unwrap_err(),
        AppError::SteamExeMissing
    );
    assert_eq!(
        steam_paths_from(&PathOverrides::default(), None, Some("x".to_owned())).unwrap_err(),
        AppError::SteamPathMissing
    );
}

#[test]
fn joins_follow_windows_rules() {
    assert_eq!(join_path_text(r"C:\Steam", "config"), r"C:\Steam\config");
    assert_eq!(join_path_text(r"C:\Steam\", "config"), r"C:\Steam\config");
    assert_eq!(join_path_text("C:/Steam/", "config"), "C:/Steam/config");
    assert_eq!(join_path_text("C:", "config"), "C:config");
    assert_eq!(join_path_text("", "config"), "config");
}

fn account(id: u64, name: &str, recent: bool, remember: bool, ts: i64) -> SteamAccount {
    SteamAccount {
        steam_id64: id,
        account_name: name.to_owned(),
        persona_name: String::new(),
        remember_password: remember,
        most_recent: recent,
        wants_offline_mode: false,
        last_login_timestamp: ts,
        last_login_time: String::new(),
        is_auto_login_user: false,
    }
}

#[test]
fn sorting_follows_the_listing_order_and_is_stable() {
    let mut accounts = vec![
        account(1, "b", false, false, 10),
        account(2, "a", false, false, 10),
        account(3, "z", false, true, 5),
        account(4, "y", true, false, 1),
        account(5, "a", false, false, 10),
        account(6, "c", false, false, 20),
    ];
    sort_accounts(&mut accounts);
    let order: Vec<u64> = accounts.iter().map(|a| a.steam_id64).collect();
    assert_eq!(order, vec![4, 3, 6, 2, 5, 1]);
}

#[test]
fn comparison_names_ties() {
    let a = account(1, "same", true, true, 3);
    let b = account(2, "same", true, true, 3);
    assert_eq!(compare_accounts(&a, &b), Precedence::Tied);
    let c = account(3, "samf", true, true, 3);
    assert_eq!(compare_accounts(&a, &c), Precedence::Before);
    assert_eq!(compare_accounts(&c, &a), Precedence::After);
}

#[test]
fn selectors_match_by_name_or_id() {
    let a = account(7, "alpha", false, false, 0);
    assert!(a.matches(&AccountSelector::AccountName("alpha".to_owned())));
    assert!(!a.matches(&AccountSelector::AccountName("Alpha".to_owned())));
    assert!(a.matches(&AccountSelector::SteamId64(7)));
    assert!(!a.matches(&AccountSelector::SteamId64(8)));
}

#[test]
fn timestamps_that_are_not_positive_show_nothing() {
    assert_eq!(format_timestamp(0), "");
    assert_eq!(format_timestamp(-1), "");
    assert_eq!(format_timestamp(1_700_000_000).len(), 19);
}

#[test]
fn login_times_have_the_date_time_shape() {
    for ts in [1_i64, 1_700_000_000, 253_402_214_399] {
        let text = format_timestamp(ts);
        let chars: Vec<char> = text.chars().collect();
        assert_eq!(chars.len(), 19, "{text}");
        for (i, c) in chars.iter().enumerate() {
            match i {
                4 | 7 => assert_eq!(*c, '-'),
                10 => assert_eq!(*c, ' '),
                13 | 16 => assert_eq!(*c, ':'),
                _ => assert!(c.is_ascii_digit(), "{text}"),
            }
        }
    }
}

struct FailingRegistry;

impl RegistryStore for FailingRegistry {
    fn read_steam_path(&self) -> Result<Option<String>, AppError> {
        Err(AppError::Service("registry unavailable".to_owned()))
    }

    fn read_steam_exe(&self) -> Result<Option<String>, AppError> {
        Err(AppError::Service("registry unavailable".to_owned()))
    }

    fn read_auto_login_user(&self) -> Result<Option<String>, AppError> {
        Err(AppError::Service("registry unavailable".to_owned()))
    }

    fn write_auto_login_user(&mut self, _value: &str) -> Result<(), AppError> {
        Err(AppError::Service("registry unavailable".to_owned()))
    }
}

#[test]
fn overrides_are_used_instead_of_reading_the_registry() {
    let overrides = PathOverrides {
        steam_dir: Some(r"D:\CustomSteam".to_owned()),
        steam_exe: Some(r"D:\CustomSteam\steam.exe".to_owned()),
    };
    let resolved = resolve_steam_paths(&overrides, &FailingRegistry).expect("overrides suffice");
    assert_eq!(resolved.loginusers_vdf, r"D:\CustomSteam\config\loginusers.vdf");
    let launch = resolve_launch_paths(&overrides, &FailingRegistry).expect("override suffices");
    assert_eq!(launch.steam_exe, r"D:\CustomSteam\steam.exe");
    let only_dir = PathOverrides { steam_dir: Some(r"D:\CustomSteam".to_owned()), steam_exe: None };
    assert_eq!(
        resolve_steam_paths(&only_dir, &FailingRegistry).err(),
        Some(AppError::Service("registry unavailable".to_owned()))
    );
}

#[test]
fn sorting_twice_changes_nothing() {
    let mut accounts = vec![
        account(3, "c", false, true, 5),
        account(1, "a", true, false, 1),
        account(2, "b", false, true, 5),
        account(4, "b", false, true, 5),
    ];
    sort_accounts(&mut accounts);
    let once = accounts.clone();
    sort_accounts(&mut accounts);
    assert_eq!(accounts, once);
}

fn civil_seconds(text: &str) -> i64 {
    let n = |a: usize, b: usize| text[a..b].parse::<i64>().expect("digits");
    let (y, m, d) = (n(0, 4), n(5, 7), n(8, 10));
    let (yy, mm) = if m <= 2 { (y - 1, m + 9) } else { (y, m - 3) };
    let era = yy.div_euclid(400);
    let yoe = yy - era * 400;
    let doy = (153 * mm + 2) / 5 + d - 1;
    let doe = yoe * 365 + yoe / 4 - yoe / 100 + doy;
    let days = era * 146097 + doe - 719468;
    days * 86400 + n(11, 13) * 3600 + n(14, 16) * 60 + n(17, 19)
}

#[test]
fn login_time_is_the_timestamp_in_some_time_zone() {
    for ts in [1_i64, 86_399, 1_700_000_000, 253_402_214_399] {
        let text = format_timestamp(ts);
        assert!((civil_seconds(&text) - ts).abs() < 86_400, "{text}");
    }
}
