use ac_switch_rust::presentation::{bool_digit, display_or_dash, mode_label, render_account_table, switch_summary};
use ac_switch_rust::process_control::{
    is_listed_process, lower_names, needs_plain_kill, next_wait_step, steam_process_names, WaitStep,
};
use ac_switch_rust::registry::registry_value_text;
use ac_switch_rust::text::{decimal_text, eq_ignore_ascii_case, parse_i64, parse_u64, text_before, trimmed_equals};
use ac_switch_rust::{StartMode, SteamAccount, VdfError};

#[test]
fn unsigned_decimals_follow_str_parse() {
    assert_eq!(parse_u64("76561198000000001"), Some(76561198000000001));
    assert_eq!(parse_u64("+12"), Some(12));
    assert_eq!(parse_u64("007"), Some(7));
    assert_eq!(parse_u64("18446744073709551615"), Some(u64::MAX));
    assert_eq!(parse_u64("18446744073709551616"), None);
    assert_eq!(parse_u64(""), None);
    assert_eq!(parse_u64("+"), None);
    assert_eq!(parse_u64("-1"), None);
    assert_eq!(parse_u64("1 "), None);
    for s in ["0", "1", "+9", "123456", "99999999999999999999", "a1", "1a"] {
        assert_eq!(parse_u64(s), s.parse::<u64>().ok(), "{}", s);
    }
}

#[test]
fn signed_decimals_follow_str_parse() {
    for s in [
        "0", "-0", "+5", "-5", "9223372036854775807", "9223372036854775808", "-9223372036854775808",
        "-9223372036854775809", "", "-", "+", "--1", "1700000000", "x",
    ] {
        assert_eq!(parse_i64(s), s.parse::<i64>().ok(), "{}", s);
    }
}

#[test]
fn decimal_rendering_matches_to_string() {
    for n in [0u64, 7, 10, 76561198000000001, u64::MAX] {
        assert_eq!(decimal_text(n), n.to_string());
        assert_eq!(parse_u64(&decimal_text(n)), Some(n));
    }
}

#[test]
fn case_insensitive_keys() {
    assert!(eq_ignore_ascii_case("MostRecent", "mostrecent"));
    assert!(eq_ignore_ascii_case("USERS", "users"));
    assert!(!eq_ignore_ascii_case("users", "user"));
    assert!(!eq_ignore_ascii_case("é", "É"));
}

#[test]
fn trimming_uses_unicode_whitespace() {
    assert!(trimmed_equals(" 1\t", "1"));
    assert!(trimmed_equals("\u{a0}true\u{3000}", "true"));
    assert!(!trimmed_equals("1 0", "1"));
    assert!(trimmed_equals("   ", ""));
}

#[test]
fn text_order_is_lexicographic() {
    assert!(text_before("a", "b"));
    assert!(text_before("ab", "abc"));
    assert!(!text_before("abc", "ab"));
    assert!(!text_before("a", "a"));
    assert!(text_before("Z", "a"));
}

#[test]
fn registry_values_that_are_blank_are_absent() {
    assert_eq!(registry_value_text(None), None);
    assert_eq!(registry_value_text(Some("  ".to_owned())), None);
    assert_eq!(registry_value_text(Some(String::new())), None);
    assert_eq!(registry_value_text(Some(r"C:\Steam".to_owned())), Some(r"C:\Steam".to_owned()));
}

#[test]
fn process_names_match_ignoring_ascii_case() {
    let names = lower_names(&steam_process_names());
    assert_eq!(names, vec!["steam.exe", "steamservice.exe", "steamwebhelper.exe"]);
    assert!(is_listed_process(&names, "Steam.EXE"));
    assert!(is_listed_process(&names, "steamwebhelper.exe"));
    assert!(!is_listed_process(&names, "steam"));
}

#[test]
fn small_presentation_helpers() {
    assert_eq!(bool_digit(true), "1");
    assert_eq!(bool_digit(false), "0");
    assert_eq!(display_or_dash(""), "-");
    assert_eq!(display_or_dash("x"), "x");
    assert_eq!(mode_label(StartMode::Express), "express");
    assert_eq!(mode_label(StartMode::Offline), "offline");
}

fn sample() -> SteamAccount {
    SteamAccount {
        steam_id64: 76561198000000001,
        account_name: "alpha_user".to_owned(),
        persona_name: String::new(),
        remember_password: true,
        most_recent: true,
        wants_offline_mode: false,
        last_login_timestamp: 0,
        last_login_time: String::new(),
        is_auto_login_user: true,
    }
}

#[test]
fn account_table_pads_columns() {
    assert_eq!(render_account_table(&Vec::new()), "No remembered Steam accounts found.\n");
    let table = render_account_table(&vec![sample()]);
    let expected = String::new()
        + "steam_id64        account_name persona_name remember_password most_recent wants_offline_mode last_login_time is_auto_login_user \n"
        + "----------------- ------------ ------------ ----------------- ----------- ------------------ --------------- ------------------ \n"
        + "76561198000000001 alpha_user   -            1                 1           0                  -               1                  \n";
    assert_eq!(table, expected);
}

#[test]
fn switch_message() {
    assert_eq!(
        switch_summary(&sample(), StartMode::Offline),
        "Steam switched to alpha_user (76561198000000001) in offline mode."
    );
}

#[test]
fn error_messages() {
    assert_eq!(
        VdfError::UnexpectedByte { expected: '"', found: '}' }.message(),
        "Expected byte '\"', found '}'"
    );
    assert_eq!(
        VdfError::UnexpectedByte { expected: '{', found: '\\' }.message(),
        "Expected byte '{', found '\\\\'"
    );
    assert_eq!(
        VdfError::UnexpectedByte { expected: '{', found: '\'' }.message(),
        "Expected byte '{', found '\\''"
    );
    assert_eq!(VdfError::MissingUsers.message(), "Top-level \"users\" object is missing from loginusers.vdf");
}

#[test]
fn waiting_stops_when_steam_exits_or_the_deadline_passes() {
    assert_eq!(next_wait_step(false, true), WaitStep::Exited);
    assert_eq!(next_wait_step(false, false), WaitStep::Exited);
    assert_eq!(next_wait_step(true, true), WaitStep::Sleep);
    assert_eq!(next_wait_step(true, false), WaitStep::GiveUp);
}

#[test]
fn a_failed_kill_signal_falls_back_to_a_plain_kill() {
    assert!(needs_plain_kill(Some(false)));
    assert!(!needs_plain_kill(Some(true)));
    assert!(!needs_plain_kill(None));
}
