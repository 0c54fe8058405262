use patch_hub::text::{expand_tilde, join_path, str_less, trim, wrapped_rows};

#[test]
fn str_less_orders_dates() {
    assert!(str_less("2024-01-01T10:00:00Z", "2024-02-01T09:00:00Z"));
    assert!(!str_less("2024-02-01T09:00:00Z", "2024-01-01T10:00:00Z"));
    assert!(!str_less("2024-01-01", "2024-01-01"));
    assert!(str_less("", "a"));
    assert!(!str_less("a", ""));
    assert!(str_less("a", "ab"));
    assert!(str_less("Z", "a"));
}

#[test]
fn trim_removes_unicode_white_space() {
    assert_eq!(trim("  Add hello.txt \n"), "Add hello.txt");
    assert_eq!(trim("\u{3000}x y\u{85}"), "x y");
    assert_eq!(trim(" \t\r\n "), "");
    assert_eq!(trim(""), "");
    assert_eq!(trim("plain"), "plain");
}

#[test]
fn join_path_like_pathbuf() {
    assert_eq!(join_path("/home/me", "linux"), "/home/me/linux");
    assert_eq!(join_path("/home/me/", "linux"), "/home/me/linux");
    assert_eq!(join_path("/home/me", "/srv/linux"), "/srv/linux");
    assert_eq!(join_path("", "linux"), "linux");
    assert_eq!(join_path("/home/me", ""), "/home/me/");
}

#[test]
fn expand_tilde_uses_home() {
    assert_eq!(expand_tilde("~/src/linux", Some("/home/me")), "/home/me/src/linux");
    assert_eq!(expand_tilde("~/src/linux", None), "~/src/linux");
    assert_eq!(expand_tilde("/opt/linux", Some("/home/me")), "/opt/linux");
    assert_eq!(expand_tilde("~linux", Some("/home/me")), "~linux");
    assert_eq!(expand_tilde("~/", Some("/home/me")), "/home/me/");
}

#[test]
fn wrapped_rows_counts_lines() {
    assert_eq!(wrapped_rows("", 10), Some(0));
    assert_eq!(wrapped_rows("abc", 2), Some(2));
    assert_eq!(wrapped_rows("abcd", 2), Some(2));
    assert_eq!(wrapped_rows("a\n\nbc", 1), Some(4));
    assert_eq!(wrapped_rows("a\r\n", 1), Some(1));
    assert_eq!(wrapped_rows("a\r", 1), Some(2));
    assert_eq!(wrapped_rows("\u{e9}", 1), Some(2));
    assert_eq!(wrapped_rows("line one\nline two\n", 100), Some(2));
}

#[test]
fn wrapped_rows_overflow() {
    // One line's row count is cut to 16 bits; the sum must fit in 16 bits.
    let long = "x".repeat(70000);
    assert_eq!(wrapped_rows(&long, 1), Some(4464));
    assert_eq!(wrapped_rows(&long, 2), Some(35000));
    let two = format!("{}\n{}", "x".repeat(40000), "y".repeat(40000));
    assert_eq!(wrapped_rows(&two, 1), None);
    assert_eq!(wrapped_rows(&two, 2), Some(40000));
}
