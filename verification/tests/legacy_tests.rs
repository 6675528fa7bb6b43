use dipbot::legacy::{
    counts_in_game_history, history_days, is_server_document, legacy_profile, ColumnValue,
    LegacyMember,
};

fn member(guild_avatar: Option<&str>, user_avatar: Option<&str>) -> LegacyMember {
    LegacyMember {
        username: "dip".to_string(),
        display_name: "Dip".to_string(),
        global_name: Some("Dipper".to_string()),
        nickname: None,
        guild_avatar: guild_avatar.map(|s| s.to_string()),
        user_avatar: user_avatar.map(|s| s.to_string()),
        guild_banner: None,
        user_banner: Some("banner".to_string()),
        joined_at_ms: 10,
        created_at_ms: 5,
    }
}

fn written(v: &ColumnValue<Option<String>>) -> Option<Option<&str>> {
    match v {
        ColumnValue::Write(x) => Some(x.as_deref()),
        ColumnValue::Keep => None,
    }
}

#[test]
fn member_profile_is_written() {
    let p = legacy_profile(Some(member(Some("g"), Some("u"))), "old".to_string(), Some("s".to_string()));
    assert_eq!(p.username, "dip");
    assert!(!p.user_left);
    assert_eq!(written(&p.display_name), Some(Some("Dip")));
    assert_eq!(written(&p.global_name), Some(Some("Dipper")));
    assert_eq!(written(&p.nickname), Some(None));
    assert_eq!(written(&p.avatar), Some(Some("g")));
    assert_eq!(written(&p.banner), Some(Some("banner")));
    assert!(matches!(p.join_date_ms, ColumnValue::Write(10)));
    assert!(matches!(p.creation_date_ms, ColumnValue::Write(5)));
}

#[test]
fn avatar_falls_back_to_account_then_store() {
    let p = legacy_profile(Some(member(None, Some("u"))), "old".to_string(), Some("s".to_string()));
    assert_eq!(written(&p.avatar), Some(Some("u")));
    let p = legacy_profile(Some(member(None, None)), "old".to_string(), Some("s".to_string()));
    assert_eq!(written(&p.avatar), Some(Some("s")));
}

#[test]
fn members_gone_keep_their_columns() {
    let p = legacy_profile(None, "old".to_string(), Some("s".to_string()));
    assert_eq!(p.username, "old");
    assert!(p.user_left);
    assert_eq!(written(&p.avatar), None);
    assert_eq!(written(&p.display_name), None);
    assert!(matches!(p.join_date_ms, ColumnValue::Keep));
}

#[test]
fn server_document_and_skipped_titles() {
    assert!(is_server_document("1110754252315435070", "1110754252315435070"));
    assert!(!is_server_document("1", "1110754252315435070"));
    assert!(!counts_in_game_history("Rainbow Six Siege"));
    assert!(counts_in_game_history("Minecraft"));
}

#[test]
fn legacy_dates_are_read() {
    let dates = vec!["Mon Jan 01 2024".to_string(), "Sun Dec 31 2023".to_string()];
    assert_eq!(history_days(&dates), Some(vec![738886, 738885]));
    assert_eq!(history_days(&vec![]), Some(vec![]));
    assert_eq!(history_days(&vec!["2024-01-01".to_string()]), None);
}
