//! Tests for the server housekeeping helpers.

use proxmox_core::{
    ctrl_sock_from_pid, extract_cookie, fail_on_shutdown, i64_dec_string, normalize_uri_path,
    our_ctrl_sock, parse_pid, pid_file_contents, request_shutdown, shutdown_requested,
    ShutdownFlag,
};

#[test]
fn decimal_rendering() {
    assert_eq!(i64_dec_string(0), "0");
    assert_eq!(i64_dec_string(7), "7");
    assert_eq!(i64_dec_string(1234567890), "1234567890");
    assert_eq!(i64_dec_string(-42), "-42");
    assert_eq!(i64_dec_string(i64::MIN), "-9223372036854775808");
    assert_eq!(i64_dec_string(i64::MAX), "9223372036854775807");
}

#[test]
fn control_socket_paths() {
    assert_eq!(
        ctrl_sock_from_pid(1234),
        "\0/run/proxmox-backup/control-1234.sock"
    );
    assert_eq!(
        ctrl_sock_from_pid(-1),
        "\0/run/proxmox-backup/control--1.sock"
    );
    assert_eq!(our_ctrl_sock(77), ctrl_sock_from_pid(77));
}

#[test]
fn pid_file_round_trip() {
    let contents = pid_file_contents(4242);
    assert_eq!(contents, "4242\n");
    assert_eq!(parse_pid(&contents).unwrap(), 4242);
}

#[test]
fn parse_pid_accepts_trimmed_decimals() {
    assert_eq!(parse_pid("42").unwrap(), 42);
    assert_eq!(parse_pid(" \t42\n").unwrap(), 42);
    assert_eq!(parse_pid("-7").unwrap(), -7);
    assert_eq!(parse_pid("+9").unwrap(), 9);
    assert_eq!(parse_pid("2147483647").unwrap(), 2147483647);
    assert_eq!(parse_pid("-2147483648").unwrap(), -2147483648);
}

#[test]
fn parse_pid_rejects_garbage() {
    assert!(parse_pid("").is_err());
    assert!(parse_pid("   ").is_err());
    assert!(parse_pid("abc").is_err());
    assert!(parse_pid("12a").is_err());
    assert!(parse_pid("+").is_err());
    assert!(parse_pid("2147483648").is_err());
    assert!(parse_pid("-2147483649").is_err());
    assert!(parse_pid("99999999999999999999").is_err());
    let err = parse_pid("x").unwrap_err();
    assert_eq!(err.message, "could not parse pid");
}

#[test]
fn normalize_uri_path_removes_empty_components() {
    let (path, components) = normalize_uri_path("/api2//json/nodes/").unwrap();
    assert_eq!(path, "/api2/json/nodes");
    assert_eq!(components, vec!["api2", "json", "nodes"]);

    let (path, components) = normalize_uri_path("").unwrap();
    assert_eq!(path, "");
    assert!(components.is_empty());
}

#[test]
fn normalize_uri_path_rejects_hidden_components() {
    assert!(normalize_uri_path("/api2/.hidden").is_err());
    assert!(normalize_uri_path("/..").is_err());
    assert!(normalize_uri_path(".").is_err());
    let err = normalize_uri_path("/a/./b").unwrap_err();
    assert_eq!(err.message, "Path contains illegal components.");
}

#[test]
fn shutdown_flag_lifecycle() {
    let mut flag = ShutdownFlag::new();
    assert!(!shutdown_requested(&flag));
    assert!(fail_on_shutdown(&flag).is_ok());
    request_shutdown(&mut flag);
    assert!(shutdown_requested(&flag));
    let err = fail_on_shutdown(&flag).unwrap_err();
    assert_eq!(err.message, "Server shutdown requested - aborting task");
}

#[test]
fn extract_cookie_finds_and_decodes() {
    let header = "lang=en; ticket=PVE%3Aroot%40pam; theme=dark";
    assert_eq!(extract_cookie(header, "ticket").unwrap(), "PVE:root@pam");
    assert_eq!(extract_cookie(header, "lang").unwrap(), "en");
    assert_eq!(extract_cookie(header, "theme").unwrap(), "dark");
    assert_eq!(extract_cookie(header, "missing"), None);
    // a segment without `=` is a format error
    assert_eq!(extract_cookie("lang; ticket=x", "ticket"), None);
    // unencoded percent signs pass through
    assert_eq!(extract_cookie("a=100%", "a").unwrap(), "100%");
}
