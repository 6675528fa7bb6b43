use dipbot::events::{
    apply_guild_update, guild_create_row, is_excluded_activity, leave_notice,
    member_update_profile, message_counts_toward, new_user, next_activity_lookup,
    next_message_count, presence_counts, start_activity_lookup, tracked_activities, ActivityInfo, ActivityLookup,
    ActivityRecord, GuildRecord, LeaveNotice, MemberFacts,
};

fn guild(leave_log: Option<&str>) -> GuildRecord {
    GuildRecord {
        guild_id: "1110754252315435070".to_string(),
        name: "Dip Land".to_string(),
        icon: None,
        banner: None,
        stat_exclusion_channels: vec!["42".to_string()],
        join_log: Some("7".to_string()),
        leave_log: leave_log.map(|s| s.to_string()),
    }
}

#[test]
fn new_servers_are_not_written() {
    assert!(guild_create_row(5, "s".to_string(), None, None, Some(true)).is_none());
}

#[test]
fn known_servers_are_written() {
    for is_new in [None, Some(false)] {
        let row = guild_create_row(
            1182260148501225552,
            "Test".to_string(),
            Some("icon".to_string()),
            None,
            is_new,
        )
        .unwrap();
        assert_eq!(row.guild_id, "1182260148501225552");
        assert_eq!(row.name, "Test");
        assert_eq!(row.icon.as_deref(), Some("icon"));
        assert_eq!(row.banner, None);
        assert!(row.stat_exclusion_channels.is_empty());
    }
}

#[test]
fn guild_update_replaces_name_and_icon_only() {
    let g = apply_guild_update(guild(Some("9")), "New".to_string(), Some("i".to_string()));
    assert_eq!(g.name, "New");
    assert_eq!(g.icon.as_deref(), Some("i"));
    assert_eq!(g.guild_id, "1110754252315435070");
    assert_eq!(g.stat_exclusion_channels, vec!["42".to_string()]);
    assert_eq!(g.join_log.as_deref(), Some("7"));
    assert_eq!(g.leave_log.as_deref(), Some("9"));
}

#[test]
fn leave_notice_text() {
    match leave_notice(&Some(guild(Some("1182260148501225553"))), "dip", 123, 1600000000, 1725029869, 1725029870) {
        LeaveNotice::Send { channel_id, author, description } => {
            assert_eq!(channel_id, 1182260148501225553);
            assert_eq!(author, "dip (123) Left");
            assert_eq!(
                description,
                "Created: <t:1600000000:f> (<t:1600000000:R>) \nLeft: <t:1725029869:f> (<t:1725029870:R>)"
            );
        }
        _ => panic!("expected a notice"),
    }
}

#[test]
fn leave_notice_needs_a_log_channel() {
    assert!(matches!(leave_notice(&None, "dip", 1, 0, 0, 0), LeaveNotice::Silent));
    assert!(matches!(leave_notice(&Some(guild(None)), "dip", 1, 0, 0, 0), LeaveNotice::Silent));
    assert!(matches!(
        leave_notice(&Some(guild(Some("general"))), "dip", 1, 0, 0, 0),
        LeaveNotice::BadChannel
    ));
    assert!(matches!(leave_notice(&Some(guild(Some("0"))), "dip", 1, 0, 0, 0), LeaveNotice::BadChannel));
}

#[test]
fn member_update_sets_every_profile_field() {
    let p = member_update_profile(
        "user".to_string(),
        "Shown".to_string(),
        None,
        Some("nick".to_string()),
        Some("a.png".to_string()),
        None,
    );
    assert_eq!(p.username, "user");
    assert_eq!(p.display_name.as_deref(), Some("Shown"));
    assert_eq!(p.global_name, None);
    assert_eq!(p.nickname.as_deref(), Some("nick"));
    assert_eq!(p.avatar.as_deref(), Some("a.png"));
    assert_eq!(p.banner, None);
}

#[test]
fn new_user_rows() {
    let with_member = new_user(
        1,
        2,
        "u".to_string(),
        "U".to_string(),
        Some("g".to_string()),
        None,
        None,
        1500,
        Some(MemberFacts { joined_at_ms: 2500, nickname: Some("n".to_string()) }),
    );
    assert_eq!(with_member.guild_id, "1");
    assert_eq!(with_member.user_id, "2");
    assert_eq!(with_member.message_count, 0);
    assert_eq!(with_member.join_date_ms, 2500);
    assert_eq!(with_member.creation_date_ms, 1500);
    assert_eq!(with_member.profile.nickname.as_deref(), Some("n"));
    assert_eq!(with_member.profile.display_name.as_deref(), Some("U"));
    let without = new_user(1, 2, "u".to_string(), "U".to_string(), None, None, None, 1500, None);
    assert_eq!(without.join_date_ms, 0);
    assert_eq!(without.profile.nickname, None);
}

#[test]
fn bot_messages_do_not_count() {
    assert_eq!(message_counts_toward(true, false, Some(1)), None);
    assert_eq!(message_counts_toward(false, true, Some(1)), None);
    assert_eq!(message_counts_toward(false, false, None), None);
    assert_eq!(message_counts_toward(false, false, Some(1)), Some(1));
    assert_eq!(next_message_count(41), 42);
}

fn activity(playing: bool, app: bool, name: &str) -> ActivityInfo {
    ActivityInfo { playing, has_application: app, name: name.to_string() }
}

#[test]
fn only_tracked_games_are_recorded() {
    let list = vec![
        activity(true, true, "Minecraft"),
        activity(false, true, "Spotify"),
        activity(true, false, "Custom Status"),
        activity(true, true, "CurseForge"),
        activity(true, true, "Valorant Tracker App"),
        activity(true, true, "Terraria"),
    ];
    assert_eq!(tracked_activities(&list, true), vec!["Minecraft", "Terraria"]);
    assert!(tracked_activities(&list, false).is_empty());
}

#[test]
fn excluded_names() {
    for name in ["Curseforge", "CurseForge", "Screen Recording with Medal", "Valorant Tracker App"] {
        assert!(is_excluded_activity(name));
    }
    assert!(!is_excluded_activity("curseforge"));
    assert!(!is_excluded_activity("Minecraft"));
}

#[test]
fn activity_lookup_goes_name_alias_insert() {
    let step = start_activity_lookup("Terraria");
    assert!(matches!(&step, ActivityLookup::ByName(n) if n == "Terraria"));
    let step = next_activity_lookup(step, None);
    assert!(matches!(&step, ActivityLookup::ByAlias(n) if n == "Terraria"));
    let step = next_activity_lookup(step, None);
    assert!(matches!(&step, ActivityLookup::Insert(n) if n == "Terraria"));
}

#[test]
fn activity_lookup_stops_when_found() {
    let rec = ActivityRecord { id: 3, name: "Minecraft".to_string(), alias: None };
    let step = next_activity_lookup(start_activity_lookup("Minecraft"), Some(rec));
    assert!(matches!(step, ActivityLookup::Found(r) if r.id == 3));
    let alias = ActivityRecord {
        id: 4,
        name: "Counter-Strike 2".to_string(),
        alias: Some(vec!["CS2".to_string()]),
    };
    let step = next_activity_lookup(start_activity_lookup("CS2"), None);
    let step = next_activity_lookup(step, Some(alias));
    assert!(matches!(step, ActivityLookup::Found(r) if r.id == 4));
}

#[test]
fn presences_of_bots_and_system_are_ignored() {
    assert!(presence_counts(false, false));
    assert!(!presence_counts(true, false));
    assert!(!presence_counts(false, true));
    assert!(!presence_counts(true, true));
}
