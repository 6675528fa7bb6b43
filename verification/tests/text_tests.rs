use dipbot::text::{
    ellipsize, i64_text, initial_letter, parse_u64, preferred_name, replace_text,
    strip_point_zero, truncate_text, u64_text,
};

#[test]
fn decimal_text_of_ids() {
    assert_eq!(u64_text(0), "0");
    assert_eq!(u64_text(7), "7");
    assert_eq!(u64_text(1182260148501225552), "1182260148501225552");
    assert_eq!(u64_text(u64::MAX), u64::MAX.to_string());
}

#[test]
fn decimal_text_of_signed_numbers() {
    assert_eq!(i64_text(0), "0");
    assert_eq!(i64_text(1725029869), "1725029869");
    assert_eq!(i64_text(-42), "-42");
    assert_eq!(i64_text(i64::MIN), i64::MIN.to_string());
    assert_eq!(i64_text(i64::MAX), i64::MAX.to_string());
}

#[test]
fn parse_accepts_what_std_accepts() {
    assert_eq!(parse_u64("1110754252315435070"), Some(1110754252315435070));
    assert_eq!(parse_u64("+15"), Some(15));
    assert_eq!(parse_u64("0"), Some(0));
    assert_eq!(parse_u64("18446744073709551615"), Some(u64::MAX));
}

#[test]
fn parse_rejects_what_std_rejects() {
    for text in ["", "+", "-1", "12a", " 12", "18446744073709551616", "99999999999999999999999"] {
        assert_eq!(parse_u64(text), None, "{text}");
        assert!(text.parse::<u64>().is_err());
    }
}

#[test]
fn parse_reads_back_written_ids() {
    for n in [0u64, 1, 9, 10, 99, 100, 123456789, u64::MAX - 1, u64::MAX] {
        assert_eq!(parse_u64(&u64_text(n)), Some(n));
    }
}

#[test]
fn truncate_cuts_at_bytes() {
    assert_eq!(truncate_text("hello", 3), "hel");
    assert_eq!(truncate_text("hello", 5), "hello");
    assert_eq!(truncate_text("hello", 50), "hello");
    assert_eq!(truncate_text("héllo", 3), "hé");
    assert_eq!(truncate_text("日本語", 3), "日");
}

#[test]
fn ellipsize_shortens_long_names() {
    assert_eq!(ellipsize("short", 32), "short");
    let long = "abcdefghijklmnopqrstuvwxyz0123456789";
    assert_eq!(ellipsize(long, 32), "abcdefghijklmnopqrstuvwxyz012...");
    assert_eq!(ellipsize(long, 32).chars().count(), 32);
    assert_eq!(ellipsize("exactly-ten", 11), "exactly-ten");
    assert_eq!(ellipsize("exactly-ten!", 11), "exactly-...");
}

#[test]
fn ellipsize_counts_bytes_when_cutting() {
    let accented = "é".repeat(40);
    assert_eq!(ellipsize(&accented, 33), format!("{}...", "é".repeat(15)));
}

#[test]
fn ellipsize_twice_is_once() {
    let long = "a name that is much longer than twenty five";
    let once = ellipsize(long, 25);
    assert_eq!(ellipsize(&once, 25), once);
}

#[test]
fn preferred_name_order() {
    let nick = Some("Nick".to_string());
    let disp = Some("Display".to_string());
    let glob = Some("Global".to_string());
    let user = "user".to_string();
    assert_eq!(preferred_name(&nick, &disp, &glob, &user), "Nick");
    assert_eq!(preferred_name(&None, &disp, &glob, &user), "Display");
    assert_eq!(preferred_name(&None, &None, &glob, &user), "Global");
    assert_eq!(preferred_name(&None, &None, &None, &user), "user");
}

#[test]
fn initial_is_upper_case() {
    assert_eq!(initial_letter("dip"), 'D');
    assert_eq!(initial_letter("Zed"), 'Z');
    assert_eq!(initial_letter("7up"), '7');
    assert_eq!(initial_letter("élan"), 'é');
}

#[test]
fn replace_matches_std() {
    for (s, p, r) in [
        ("1,234.0", ".0", ""),
        ("1.05K", ".0", ""),
        ("..00", ".0", ""),
        ("https://cdn/a.png?size=1024", "?size=1024", "?size=80"),
        ("aaaa", "aa", "b"),
        ("", "x", "y"),
    ] {
        assert_eq!(replace_text(s, p, r), s.replace(p, r));
    }
    assert_eq!(strip_point_zero("#1.0"), "#1");
    assert_eq!(strip_point_zero("..00"), ".0");
}
