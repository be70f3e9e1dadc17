use ac_switch_rust::{AccountSelector, LoginUsersVdf, StartMode, VdfError};

const MULTI_USER: &str = "\"users\"\n{\n\t\"76561198000000001\"\n\t{\n\t\t\"AccountName\"\t\t\"alpha_user\"\n\t\t\"PersonaName\"\t\t\"Alpha\"\n\t\t\"RememberPassword\"\t\t\"1\"\n\t\t\"mostrecent\"\t\t\"1\"\n\t\t\"WantsOfflineMode\"\t\t\"0\"\n\t\t\"Timestamp\"\t\t\"1700000000\"\n\t}\n\t\"76561198000000002\"\n\t{\n\t\t\"AccountName\"\t\t\"beta_user\"\n\t\t\"PersonaName\"\t\t\"Beta\"\n\t\t\"RememberPassword\"\t\t\"0\"\n\t\t\"MostRecent\"\t\t\"0\"\n\t\t\"Timestamp\"\t\t\"1600000000\"\n\t\t\"CustomValue\"\t\t\"keep-me\"\n\t}\n}\n";

const OFFLINE_USER: &str = "\u{feff}\"users\"\n{\n\t\"76561198000000003\"\n\t{\n\t\t\"AccountName\"\t\t\"gamma_user\"\n\t\t\"PersonaName\"\t\t\"Gamma\"\n\t\t\"RememberPassword\"\t\t\"1\"\n\t\t\"MostRecent\"\t\t\"1\"\n\t\t\"WantsOfflineMode\"\t\t\"1\"\n\t\t\"SkipOfflineModeWarning\"\t\t\"1\"\n\t\t\"Timestamp\"\t\t\"1650000000\"\n\t}\n}\n";

#[test]
fn parses_mixed_case_loginusers() {
    let vdf = LoginUsersVdf::parse(MULTI_USER).expect("fixture should parse");
    let accounts = vdf.accounts(Some("alpha_user")).expect("accounts should parse");

    assert_eq!(accounts.len(), 2);
    assert_eq!(accounts[0].steam_id64, 76561198000000001);
    assert_eq!(accounts[0].account_name, "alpha_user");
    assert!(accounts[0].remember_password);
    assert!(accounts[0].most_recent);
    assert!(!accounts[0].wants_offline_mode);
    assert!(accounts[0].is_auto_login_user);

    assert_eq!(accounts[1].steam_id64, 76561198000000002);
    assert_eq!(accounts[1].account_name, "beta_user");
    assert!(!accounts[1].remember_password);
}

#[test]
fn rewrites_only_target_fields_and_preserves_unknown_values() {
    let mut vdf = LoginUsersVdf::parse(MULTI_USER).expect("fixture should parse");
    let selected = vdf
        .set_active_account(
            &AccountSelector::AccountName("beta_user".to_owned()),
            StartMode::Offline,
            "beta_user",
        )
        .expect("account should be updated");

    let rendered = vdf.render();
    assert_eq!(selected.account_name, "beta_user");
    assert!(selected.most_recent);
    assert!(selected.wants_offline_mode);
    assert!(rendered.contains("\"CustomValue\"\t\t\"keep-me\""));
    assert!(rendered.contains("\"mostrecent\"\t\t\"0\""));
    assert!(rendered.contains("\"MostRecent\"\t\t\"1\""));
    assert!(rendered.contains("\"WantsOfflineMode\"\t\t\"1\""));
    assert!(rendered.contains("\"SkipOfflineModeWarning\"\t\t\"1\""));
}

#[test]
fn parses_utf8_bom_fixture() {
    let vdf = LoginUsersVdf::parse(OFFLINE_USER).expect("bom fixture should parse");
    let accounts = vdf.accounts(Some("gamma_user")).expect("accounts should parse");

    assert_eq!(accounts.len(), 1);
    assert_eq!(accounts[0].account_name, "gamma_user");
    assert!(accounts[0].most_recent);
    assert!(accounts[0].wants_offline_mode);
    assert!(accounts[0].is_auto_login_user);
}

#[test]
fn rendering_reads_back_as_the_same_document() {
    let vdf = LoginUsersVdf::parse(MULTI_USER).expect("fixture should parse");
    let rendered = vdf.render();
    assert_eq!(rendered, MULTI_USER);
    let again = LoginUsersVdf::parse(&rendered).expect("rendering should parse");
    assert_eq!(again.render(), rendered);
}

#[test]
fn rendering_drops_the_byte_order_mark_and_comments() {
    let input = "\u{feff}// leading comment\n\"users\" // after key\n{\n}\n";
    let vdf = LoginUsersVdf::parse(input).expect("comments are whitespace");
    assert_eq!(vdf.render(), "\"users\"\n{\n}\n");
}

#[test]
fn escapes_round_trip() {
    let input = "\"users\"\n{\n\t\"1\"\n\t{\n\t\t\"AccountName\"\t\t\"a\\\"b\\\\c\"\n\t}\n}\n";
    let vdf = LoginUsersVdf::parse(input).expect("escapes parse");
    let accounts = vdf.accounts(None).expect("accounts");
    assert_eq!(accounts[0].account_name, "a\"b\\c");
    assert_eq!(vdf.render(), input);
}

#[test]
fn escape_sequences_are_decoded() {
    let input = "\"users\" { \"5\" { \"PersonaName\" \"x\\ty\\nz\\q\" } }";
    let vdf = LoginUsersVdf::parse(input).expect("parses");
    let accounts = vdf.accounts(None).expect("accounts");
    assert_eq!(accounts[0].persona_name, "x\ty\nzq");
}

#[test]
fn parse_errors_name_the_problem() {
    assert!(matches!(LoginUsersVdf::parse("\"users\" {"), Err(VdfError::UnexpectedEnd)));
    assert!(matches!(LoginUsersVdf::parse("\"users"), Err(VdfError::UnterminatedString)));
    assert!(matches!(LoginUsersVdf::parse("\"users\\"), Err(VdfError::UnterminatedEscape)));
    assert!(matches!(
        LoginUsersVdf::parse("users"),
        Err(VdfError::UnexpectedByte { expected: '"', found: 'u' })
    ));
    assert!(matches!(
        LoginUsersVdf::parse("}"),
        Err(VdfError::UnexpectedByte { expected: '"', found: '}' })
    ));
}

#[test]
fn missing_or_textual_users_is_an_error() {
    let vdf = LoginUsersVdf::parse("\"other\" { }").expect("parses");
    assert!(matches!(vdf.accounts(None), Err(VdfError::MissingUsers)));
    let vdf = LoginUsersVdf::parse("\"Users\" \"text\" \"users\" { }").expect("parses");
    assert!(matches!(vdf.accounts(None), Err(VdfError::UsersNotObject)));
}

#[test]
fn non_numeric_and_textual_members_are_not_accounts() {
    let input = "\"USERS\" { \"abc\" { \"AccountName\" \"x\" } \"7\" \"text\" \"+8\" { } \"-9\" { } }";
    let vdf = LoginUsersVdf::parse(input).expect("parses");
    let accounts = vdf.accounts(Some("")).expect("accounts");
    assert_eq!(accounts.len(), 1);
    assert_eq!(accounts[0].steam_id64, 8);
    assert_eq!(accounts[0].account_name, "");
    assert!(!accounts[0].is_auto_login_user);
    assert_eq!(accounts[0].last_login_timestamp, 0);
    assert_eq!(accounts[0].last_login_time, "");
}

#[test]
fn flags_accept_trimmed_true_words() {
    let input = "\"users\" { \"1\" { \"RememberPassword\" \" true \" \"MostRecent\" \"TRUE\" \"WantsOfflineMode\" \"yes\" \"Timestamp\" \"-5\" } }";
    let vdf = LoginUsersVdf::parse(input).expect("parses");
    let accounts = vdf.accounts(None).expect("accounts");
    assert!(accounts[0].remember_password);
    assert!(accounts[0].most_recent);
    assert!(!accounts[0].wants_offline_mode);
    assert_eq!(accounts[0].last_login_timestamp, -5);
    assert_eq!(accounts[0].last_login_time, "");
}

#[test]
fn switching_to_an_unknown_account_changes_nothing() {
    let mut vdf = LoginUsersVdf::parse(MULTI_USER).expect("fixture should parse");
    let before = vdf.render();
    let result = vdf.set_active_account(&AccountSelector::SteamId64(42), StartMode::Express, "x");
    assert!(matches!(result, Err(VdfError::AccountNotFound)));
    assert_eq!(vdf.render(), before);
}

#[test]
fn switching_reads_back_the_new_most_recent_account() {
    let mut vdf = LoginUsersVdf::parse(MULTI_USER).expect("fixture should parse");
    let updated = vdf
        .set_active_account(&AccountSelector::SteamId64(76561198000000002), StartMode::Express, "alpha_user")
        .expect("switch");
    assert!(!updated.is_auto_login_user);
    assert!(!updated.wants_offline_mode);
    let accounts = vdf.accounts(None).expect("accounts");
    assert!(!accounts[0].most_recent);
    assert!(accounts[1].most_recent);
    assert!(!accounts[1].wants_offline_mode);
    assert_eq!(accounts[1].persona_name, "Beta");
    let rendered = vdf.render();
    assert!(rendered.contains("\"CustomValue\"\t\t\"keep-me\"\n\t\t\"WantsOfflineMode\"\t\t\"0\"\n"));
}

#[test]
fn written_switch_reads_back_from_its_text() {
    let mut vdf = LoginUsersVdf::parse(MULTI_USER).expect("fixture should parse");
    vdf.set_active_account(&AccountSelector::AccountName("beta_user".to_owned()), StartMode::Offline, "beta_user")
        .expect("switch");
    let written = vdf.render();
    let reread = LoginUsersVdf::parse(&written).expect("written text should parse");
    assert_eq!(reread.render(), written);
    let accounts = reread.accounts(None).expect("accounts");
    assert_eq!(accounts.len(), 2);
    assert!(!accounts[0].most_recent);
    assert!(!accounts[0].wants_offline_mode);
    assert!(accounts[1].most_recent);
    assert!(accounts[1].wants_offline_mode);
    assert_eq!(accounts[1].account_name, "beta_user");
    assert_eq!(accounts[1].last_login_timestamp, 1600000000);
}

#[test]
fn text_beyond_ascii_survives_a_rewrite() {
    let input = "\"users\"{\"1\"{\"PersonaName\"\"\u{e9}\"}}";
    let vdf = LoginUsersVdf::parse(input).expect("parse");
    let accounts = vdf.accounts(None).expect("accounts");
    assert_eq!(accounts[0].persona_name, "\u{e9}");
    assert_eq!(vdf.render(), "\"users\"\n{\n\t\"1\"\n\t{\n\t\t\"PersonaName\"\t\t\"\u{e9}\"\n\t}\n}\n");
}

#[test]
fn the_switch_rewrites_the_member_the_account_was_read_from() {
    let mut vdf = LoginUsersVdf::parse("\"users\"{\"02\"{\"AccountName\"\"b\"}}").expect("parse");
    let updated = vdf.set_active_account(&AccountSelector::SteamId64(2), StartMode::Express, "b").expect("switch");
    assert!(updated.most_recent);
    assert!(updated.is_auto_login_user);
    let accounts = vdf.accounts(None).expect("accounts");
    assert!(accounts[0].most_recent);
    assert!(!accounts[0].wants_offline_mode);
}

#[test]
fn a_byte_order_mark_reads_like_none() {
    let plain = LoginUsersVdf::parse(MULTI_USER).expect("plain");
    let marked = LoginUsersVdf::parse(&format!("\u{feff}{}", MULTI_USER)).expect("marked");
    assert_eq!(plain.render(), marked.render());
}

#[test]
fn switching_twice_changes_nothing_more() {
    let mut vdf = LoginUsersVdf::parse(MULTI_USER).expect("parse");
    let selector = AccountSelector::AccountName("beta_user".to_owned());
    vdf.set_active_account(&selector, StartMode::Offline, "beta_user").expect("first");
    let once = vdf.render();
    vdf.set_active_account(&selector, StartMode::Offline, "beta_user").expect("second");
    assert_eq!(vdf.render(), once);
}

#[test]
fn every_member_under_the_target_id_becomes_the_target() {
    let input = "\"users\"{\"2\"{\"AccountName\"\"b\"}\"02\"{\"AccountName\"\"b2\"}\"3\"{\"AccountName\"\"c\"\"MostRecent\"\"1\"}}";
    let mut vdf = LoginUsersVdf::parse(input).expect("parse");
    let updated = vdf.set_active_account(&AccountSelector::SteamId64(2), StartMode::Offline, "b").expect("switch");
    assert_eq!(updated.account_name, "b");
    let accounts = vdf.accounts(None).expect("accounts");
    assert!(accounts[0].most_recent && accounts[0].wants_offline_mode);
    assert!(accounts[1].most_recent && accounts[1].wants_offline_mode);
    assert!(!accounts[2].most_recent);
}

#[test]
fn switching_twice_returns_the_same_account() {
    let mut vdf = LoginUsersVdf::parse(MULTI_USER).expect("parse");
    let selector = AccountSelector::SteamId64(76561198000000002);
    let first = vdf.set_active_account(&selector, StartMode::Express, "beta_user").expect("first");
    let second = vdf.set_active_account(&selector, StartMode::Express, "beta_user").expect("second");
    assert_eq!(first, second);
}
