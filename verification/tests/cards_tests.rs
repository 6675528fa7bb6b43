use dipbot::cards::{
    activity_label, card_date_text, card_header_names, count_label, leaderboard_name,
    place_label, rank_label, small_picture_url, board_count_label, member_count_label,
};

#[test]
fn header_names_are_shortened() {
    let (display, user) = card_header_names("Short", "dip");
    assert_eq!((display.as_str(), user.as_str()), ("Short", "dip"));
    // a 10-character username leaves room for 26 characters of display name
    let long_display = "A".repeat(30);
    let (display, user) = card_header_names(&long_display, "abcdefghij");
    assert_eq!(display, format!("{}...", "A".repeat(23)));
    assert_eq!(user, "abcdefghij");
    let (_, user) = card_header_names("x", "abcdefghijklmnopqrstuvwxyz");
    assert_eq!(user, "abcdefghijklmnopqrstu...");
}

#[test]
fn leaderboard_names() {
    let long = "n".repeat(40);
    assert_eq!(leaderboard_name(&None, &Some(long), &None, &"u".to_string()), format!("{}...", "n".repeat(29)));
    assert_eq!(leaderboard_name(&None, &None, &None, &"u".to_string()), "u");
}

#[test]
fn activity_labels() {
    assert_eq!(activity_label(&None), "No Data");
    assert_eq!(activity_label(&Some("Minecraft".to_string())), "Minecraft");
    assert_eq!(
        activity_label(&Some("Tom Clancy's Rainbow Six Siege X".to_string())),
        "Tom Clancy's Rainbow S..."
    );
}

#[test]
fn place_labels() {
    assert_eq!(place_label(0), "#1");
    assert_eq!(place_label(9), "#10");
}

#[test]
fn rank_and_count_labels() {
    assert_eq!(rank_label(1), "#1");
    assert_eq!(rank_label(12), "#12");
    assert_eq!(board_count_label(1234567), "1,234,567");
    assert_eq!(board_count_label(0), "0");
    assert_eq!(count_label(0), "0");
    assert_eq!(count_label(999), "999");
    assert_eq!(count_label(1500), "1.5K");
}

#[test]
fn card_dates() {
    assert_eq!(card_date_text(None).as_deref(), Some("No Data"));
    assert_eq!(card_date_text(Some(0)).as_deref(), Some("No Data"));
    assert_eq!(card_date_text(Some(1_704_067_200_000)).as_deref(), Some("Jan 01, 2024"));
    assert_eq!(card_date_text(Some(i64::MAX)), None);
}

#[test]
fn picture_addresses_ask_for_small_pictures() {
    assert_eq!(
        small_picture_url("https://cdn.discordapp.com/avatars/1/a.png?size=1024"),
        "https://cdn.discordapp.com/avatars/1/a.png?size=80"
    );
    assert_eq!(small_picture_url("https://x/a.png"), "https://x/a.png");
}

#[test]
fn member_count_header() {
    assert_eq!(member_count_label(0), "0 Members");
    assert_eq!(member_count_label(1234), "1234 Members");
}
