use soar::paths::{build_path, env_lookup, home_config_path, home_data_path, home_path};
use soar::paths::get_platform;
use soar::units::{format_bytes, parse_content_length, parse_duration, parse_size};

fn env(pairs: &[(&str, &str)]) -> Vec<(String, String)> {
    pairs.iter().map(|(k, v)| (k.to_string(), v.to_string())).collect()
}

#[test]
fn format_bytes_plain() {
    assert_eq!(format_bytes(0), "0 B");
    assert_eq!(format_bytes(1023), "1023 B");
}

#[test]
fn format_bytes_scaled() {
    assert_eq!(format_bytes(1024), "1.00 KiB");
    assert_eq!(format_bytes(1536), "1.50 KiB");
    assert_eq!(format_bytes(4 * 1024 * 1024), "4.00 MiB");
    assert_eq!(format_bytes(2 * 1024 * 1024), "2.00 MiB");
    assert_eq!(format_bytes(6 * 1024 * 1024), "6.00 MiB");
    assert_eq!(format_bytes(3 * 1024 * 1024 * 1024), "3.00 GiB");
    // an exact half hundredth rounds to even, as the two-decimal float
    // display of 1.125 does
    assert_eq!(format_bytes(1152), "1.12 KiB");
    assert_eq!(format_bytes(1178), "1.15 KiB");
}

#[test]
fn parse_size_decimal_units() {
    assert_eq!(parse_size("10B"), Some(10));
    assert_eq!(parse_size("1.5MB"), Some(1_500_000));
    assert_eq!(parse_size("2KB"), Some(2_000));
    assert_eq!(parse_size("3GB"), Some(3_000_000_000));
}

#[test]
fn parse_size_binary_suffixes_never_match() {
    // the unit table is matched against the upper-cased input, so its
    // mixed-case binary rows are unreachable
    assert_eq!(parse_size("512 KiB"), None);
    assert_eq!(parse_size("1MiB"), None);
    assert_eq!(parse_size("1.5kib"), None);
}

#[test]
fn parse_size_rejects() {
    assert_eq!(parse_size("abc"), None);
    assert_eq!(parse_size("1.5"), None);
    assert_eq!(parse_size(""), None);
    assert_eq!(parse_size("MB"), None);
}

#[test]
fn parse_duration_units() {
    assert_eq!(parse_duration("30s"), Some(30_000));
    assert_eq!(parse_duration("2m"), Some(120_000));
    assert_eq!(parse_duration("2h"), Some(7_200_000));
    assert_eq!(parse_duration("1d"), Some(86_400_000));
}

#[test]
fn parse_duration_rejects() {
    assert_eq!(parse_duration("10x"), None);
    assert_eq!(parse_duration("s"), None);
    assert_eq!(parse_duration(""), None);
    assert_eq!(parse_duration("10"), None);
    // leading whitespace empties the digit run
    assert_eq!(parse_duration(" 2h"), None);
    // trailing whitespace is trimmed
    assert_eq!(parse_duration("2h "), Some(7_200_000));
}

#[test]
fn env_lookup_first_binding_wins() {
    let e = env(&[("A", "1"), ("A", "2"), ("B", "3")]);
    assert_eq!(env_lookup(&e, "A"), Some("1".to_string()));
    assert_eq!(env_lookup(&e, "B"), Some("3".to_string()));
    assert_eq!(env_lookup(&e, "C"), None);
}

#[test]
fn home_path_resolution_order() {
    let e = env(&[("HOME", "/home/alice")]);
    assert_eq!(home_path(&e, None), Some("/home/alice".to_string()));
    let e2 = env(&[("USER", "bob")]);
    assert_eq!(home_path(&e2, None), Some("/home/bob".to_string()));
    let e3 = env(&[("LOGNAME", "carol")]);
    assert_eq!(home_path(&e3, None), Some("/home/carol".to_string()));
    let e4 = env(&[]);
    assert_eq!(home_path(&e4, Some("dave".to_string())), Some("/home/dave".to_string()));
    assert_eq!(home_path(&e4, None), None);
}

#[test]
fn xdg_paths_fall_back_to_home() {
    let e = env(&[("XDG_CONFIG_HOME", "/cfg")]);
    assert_eq!(home_config_path(&e, "/home/u"), "/cfg");
    let e2 = env(&[]);
    assert_eq!(home_config_path(&e2, "/home/u"), "/home/u/.config");
    assert_eq!(home_data_path(&e2, "/home/u"), "/home/u/.local/share");
}

#[test]
fn build_path_expansions() {
    let e = env(&[("FOO", "/x")]);
    assert_eq!(build_path("$FOO/bar", &e, "/home/u"), Ok("/x/bar".to_string()));
    assert_eq!(build_path("~/y", &e, "/home/u"), Ok("/home/u/y".to_string()));
    assert_eq!(build_path("$HOME/z", &e, "/home/u"), Ok("/home/u/z".to_string()));
    assert_eq!(build_path("a$b", &e, "/h"), Err(soar::error::SoarError::Config));
    assert_eq!(build_path("plain", &e, "/h"), Ok("plain".to_string()));
    // a `$` not followed by a name character stands for itself
    assert_eq!(build_path("a$ b", &e, "/h"), Ok("a$ b".to_string()));
}

#[test]
fn build_path_undefined_var_is_fatal() {
    let e = env(&[]);
    assert_eq!(build_path("$UNDEFINED", &e, "/h"), Err(soar::error::SoarError::Config));
}

#[test]
fn content_length_parsing() {
    assert_eq!(parse_content_length(Some(&"1234".to_string())), Ok(1234));
    assert!(parse_content_length(Some(&"12x4".to_string())).is_err());
    assert!(parse_content_length(Some(&"".to_string())).is_err());
    assert!(parse_content_length(None).is_err());
}

#[test]
fn platform_string_capitalizes_os() {
    assert_eq!(get_platform("x86_64", "linux"), "x86_64-Linux");
    assert_eq!(get_platform("aarch64", "linux"), "aarch64-Linux");
}
