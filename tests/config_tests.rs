use secmanager::config::{header_name, profile_names, Config};
use secmanager::text::decimal_string;

#[test]
fn profiles_from_both_files() {
    let config = "[default]\nregion = eu-west-1\n[profile dev]\n[ profile  prod ]\n  [profile qa]  \r\n[broken\n[]\n";
    let credentials = "[default]\naws_access_key_id = x\n[ci]\n";
    assert_eq!(
        profile_names(config, credentials),
        vec!["default", "dev", "profile  prod", "qa", "ci"]
    );
}

#[test]
fn profiles_default_when_none() {
    assert_eq!(profile_names("", ""), vec!["default"]);
    assert_eq!(profile_names("key = value\n", "[ ]\n"), vec!["default"]);
}

#[test]
fn credentials_keep_profile_prefix() {
    assert_eq!(profile_names("", "[profile x]\n"), vec!["profile x"]);
}

#[test]
fn header_lines() {
    assert_eq!(header_name("[profile a]", true).as_deref(), Some("a"));
    assert_eq!(header_name("[profile a]", false).as_deref(), Some("profile a"));
    assert_eq!(header_name("  [ b ]\t", false).as_deref(), Some("b"));
    assert_eq!(header_name("[profile ]", true).as_deref(), Some(""));
    assert_eq!(header_name("x = [y]", true), None);
    assert_eq!(header_name("[", true), None);
}

#[test]
fn snapshot_file_names() {
    assert_eq!(Config::secrets_cache_path("a b"), "secrets_a b.json");
}

#[test]
fn decimal_numbers() {
    assert_eq!(decimal_string(0), "0");
    assert_eq!(decimal_string(7), "7");
    assert_eq!(decimal_string(10), "10");
    assert_eq!(decimal_string(1234), "1234");
    assert_eq!(decimal_string(usize::MAX), usize::MAX.to_string());
}
