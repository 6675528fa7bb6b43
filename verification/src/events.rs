//! The decisions the bot makes on Discord events: which rows to write and which messages
//! to send. Reading and writing the database and talking to Discord are left to the caller.

use vstd::prelude::*;
use vstd::string::*;
use crate::text::{
    decimal, signed_decimal, u64_text, i64_text, parse_u64, parsed_u64, opt_view,
    lemma_parse_u64_of_text,
};

verus! {

// ---------------------------------------------------------------------------
// Servers
// ---------------------------------------------------------------------------

/// A server as the database keeps it.
pub struct GuildRecord {
    pub guild_id: String,
    pub name: String,
    pub icon: Option<String>,
    pub banner: Option<String>,
    pub stat_exclusion_channels: Vec<String>,
    pub join_log: Option<String>,
    pub leave_log: Option<String>,
}

/// The values written when the bot sees a server: on a new row they are stored with an
/// empty list of excluded channels and no log channels; on an existing row only the name,
/// icon and banner are replaced.
pub struct GuildUpsert {
    pub guild_id: String,
    pub name: String,
    pub icon: Option<String>,
    pub banner: Option<String>,
    pub stat_exclusion_channels: Vec<String>,
}

/// What to write when a server becomes available: nothing for a server the bot has just
/// joined (`is_new` is `Some(true)`), else the server's id, name, icon and banner.
pub fn guild_create_row(
    guild_id: u64,
    name: String,
    icon: Option<String>,
    banner: Option<String>,
    is_new: Option<bool>,
) -> (r: Option<GuildUpsert>)
    ensures
        r is None <==> is_new == Some(true),
        r matches Some(row) ==> {
            &&& row.guild_id@ == decimal(guild_id as nat)
            &&& row.name == name
            &&& row.icon == icon
            &&& row.banner == banner
            &&& row.stat_exclusion_channels@.len() == 0
        },
{
    if is_new == Some(true) {
        return None;
    }
    Some(
        GuildUpsert {
            guild_id: u64_text(guild_id),
            name,
            icon,
            banner,
            stat_exclusion_channels: Vec::new(),
        },
    )
}

/// A server row after the server has been renamed or given a new icon: the name and icon
/// are replaced and everything else is kept.
pub fn apply_guild_update(record: GuildRecord, name: String, icon: Option<String>) -> (r:
    GuildRecord)
    ensures
        r.name == name,
        r.icon == icon,
        r.guild_id == record.guild_id,
        r.banner == record.banner,
        r.stat_exclusion_channels == record.stat_exclusion_channels,
        r.join_log == record.join_log,
        r.leave_log == record.leave_log,
{
    GuildRecord { name, icon, ..record }
}

// ---------------------------------------------------------------------------
// Members leaving
// ---------------------------------------------------------------------------

/// What to do when a member leaves a server.
pub enum LeaveNotice {
    /// The server is unknown or has no leave log: nothing is sent.
    Silent,
    /// The leave log does not name a channel (it is not a non-zero number).
    BadChannel,
    /// Send an embed with this author line and description to the channel.
    Send { channel_id: u64, author: String, description: String },
}

/// The author line of a leave notice: `<name> (<id>) Left`.
pub open spec fn leave_author(name: Seq<char>, user_id: u64) -> Seq<char> {
    name + " ("@ + decimal(user_id as nat) + ") Left"@
}

/// The description of a leave notice: when the account was created and when it left, each
/// as a Discord full date and as a relative time.
pub open spec fn leave_description(created: i64, left_full: i64, left_relative: i64) -> Seq<char> {
    "Created: <t:"@ + signed_decimal(created as int) + ":f> (<t:"@ + signed_decimal(created as int)
        + ":R>) \nLeft: <t:"@ + signed_decimal(left_full as int) + ":f> (<t:"@ + signed_decimal(
        left_relative as int,
    ) + ":R>)"@
}

/// What to send when a member leaves a server. `created` is when the account was made and
/// `left_full`, `left_relative` the two readings of the clock written into the notice (all in
/// seconds since 1970).
pub fn leave_notice(
    guild: &Option<GuildRecord>,
    user_name: &str,
    user_id: u64,
    created: i64,
    left_full: i64,
    left_relative: i64,
) -> (r: LeaveNotice)
    ensures
        guild is None ==> r is Silent,
        guild matches Some(g) ==> {
            match g.leave_log {
                None => r is Silent,
                Some(log) => match parsed_u64(log@) {
                    Some(id) if id != 0 => r matches LeaveNotice::Send { channel_id, author, description }
                        && channel_id == id
                        && author@ == leave_author(user_name@, user_id)
                        && description@ == leave_description(created, left_full, left_relative),
                    _ => r is BadChannel,
                },
            }
        },
{
    let g = match guild {
        Some(g) => g,
        None => return LeaveNotice::Silent,
    };
    let log = match &g.leave_log {
        Some(log) => log,
        None => return LeaveNotice::Silent,
    };
    let channel_id = match parse_u64(log.as_str()) {
        Some(id) => id,
        None => return LeaveNotice::BadChannel,
    };
    if channel_id == 0 {
        return LeaveNotice::BadChannel;
    }
    proof {
        reveal_strlit(" (");
        reveal_strlit(") Left");
        reveal_strlit("Created: <t:");
        reveal_strlit(":f> (<t:");
        reveal_strlit(":R>) \nLeft: <t:");
        reveal_strlit(":R>)");
    }
    let id_text = u64_text(user_id);
    let author = String::from_str(user_name).concat(" (").concat(id_text.as_str()).concat(
        ") Left",
    );
    let created_text = i64_text(created);
    let full_text = i64_text(left_full);
    let relative_text = i64_text(left_relative);
    let description = String::from_str("Created: <t:").concat(created_text.as_str()).concat(
        ":f> (<t:",
    ).concat(created_text.as_str()).concat(":R>) \nLeft: <t:").concat(full_text.as_str()).concat(
        ":f> (<t:",
    ).concat(relative_text.as_str()).concat(":R>)");
    LeaveNotice::Send { channel_id, author, description }
}

// ---------------------------------------------------------------------------
// Members
// ---------------------------------------------------------------------------

/// How a member presents themselves; the part of a member row that follows their profile.
pub struct UserProfile {
    pub username: String,
    pub display_name: Option<String>,
    pub global_name: Option<String>,
    pub nickname: Option<String>,
    pub avatar: Option<String>,
    pub banner: Option<String>,
}

/// The profile written when a member's profile changes: every profile field is replaced by
/// the member's current value, the display name always being present.
pub fn member_update_profile(
    username: String,
    display_name: String,
    global_name: Option<String>,
    nickname: Option<String>,
    avatar: Option<String>,
    banner: Option<String>,
) -> (r: UserProfile)
    ensures
        r.username == username,
        r.display_name == Some(display_name),
        r.global_name == global_name,
        r.nickname == nickname,
        r.avatar == avatar,
        r.banner == banner,
{
    UserProfile { username, display_name: Some(display_name), global_name, nickname, avatar, banner }
}

/// What is known of a user as a member of the server, when the server answered.
pub struct MemberFacts {
    pub joined_at_ms: i64,
    pub nickname: Option<String>,
}

/// The row written for a user the bot has not seen in a server before.
pub struct NewUser {
    pub guild_id: String,
    pub user_id: String,
    pub profile: UserProfile,
    pub message_count: i64,
    pub join_date_ms: i64,
    pub creation_date_ms: i64,
}

/// The row for a user first seen in a server: ids as decimal text, the user's profile (with
/// the server nickname when the server knew the member), no messages yet, the account's
/// creation time, and the time the member joined (the start of 1970 when the server did not
/// answer).
pub fn new_user(
    guild_id: u64,
    user_id: u64,
    username: String,
    display_name: String,
    global_name: Option<String>,
    avatar: Option<String>,
    banner: Option<String>,
    created_at_ms: i64,
    member: Option<MemberFacts>,
) -> (r: NewUser)
    ensures
        r.guild_id@ == decimal(guild_id as nat),
        r.user_id@ == decimal(user_id as nat),
        r.profile.username == username,
        r.profile.display_name == Some(display_name),
        r.profile.global_name == global_name,
        r.profile.avatar == avatar,
        r.profile.banner == banner,
        r.message_count == 0,
        r.creation_date_ms == created_at_ms,
        member is None ==> r.join_date_ms == 0 && r.profile.nickname is None,
        member matches Some(m) ==> r.join_date_ms == m.joined_at_ms && r.profile.nickname
            == m.nickname,
{
    let (join_date_ms, nickname) = match member {
        Some(m) => (m.joined_at_ms, m.nickname),
        None => (0, None),
    };
    NewUser {
        guild_id: u64_text(guild_id),
        user_id: u64_text(user_id),
        profile: UserProfile {
            username,
            display_name: Some(display_name),
            global_name,
            nickname,
            avatar,
            banner,
        },
        message_count: 0,
        join_date_ms,
        creation_date_ms: created_at_ms,
    }
}

// ---------------------------------------------------------------------------
// Messages
// ---------------------------------------------------------------------------

/// The server whose statistics a message counts toward: none for messages of bots, of the
/// system, or outside a server.
pub fn message_counts_toward(author_bot: bool, author_system: bool, guild_id: Option<u64>) -> (r:
    Option<u64>)
    ensures
        r == (if author_bot || author_system {
            None
        } else {
            guild_id
        }),
{
    if author_bot || author_system {
        return None;
    }
    guild_id
}

/// Whether a user's presence is recorded: not for bots or the system user.
pub fn presence_counts(user_bot: bool, user_system: bool) -> (r: bool)
    ensures
        r == !(user_bot || user_system),
{
    !(user_bot || user_system)
}

/// A member's message count after one more message.
pub fn next_message_count(count: i64) -> (r: i64)
    requires
        count < i64::MAX,
    ensures
        r == count + 1,
{
    count + 1
}

// ---------------------------------------------------------------------------
// Presence: which games are recorded
// ---------------------------------------------------------------------------

/// Names of activities that are never recorded as games.
pub open spec fn excluded_activity(name: Seq<char>) -> bool {
    ||| name == "Curseforge"@
    ||| name == "CurseForge"@
    ||| name == "Screen Recording with Medal"@
    ||| name == "Valorant Tracker App"@
}

/// Whether an activity name is one that is never recorded as a game.
pub fn is_excluded_activity(name: &str) -> (r: bool)
    ensures
        r == excluded_activity(name@),
{
    let n = String::from_str(name);
    n == String::from_str("Curseforge") || n == String::from_str("CurseForge") || n
        == String::from_str("Screen Recording with Medal") || n == String::from_str(
        "Valorant Tracker App",
    )
}

/// One activity of a member's presence.
pub struct ActivityInfo {
    /// The activity is of the kind "playing".
    pub playing: bool,
    /// The activity comes from an application (it has an application id).
    pub has_application: bool,
    pub name: String,
}

/// Whether an activity is recorded as a game: a playing activity of an application, not
/// excluded by name, of a member who lets the bot record games.
pub open spec fn is_tracked(a: ActivityInfo, game_data: bool) -> bool {
    a.playing && game_data && a.has_application && !excluded_activity(a.name@)
}

/// Holds of the activities recorded as games.
pub open spec fn tracked_by(game_data: bool) -> spec_fn(ActivityInfo) -> bool {
    |a: ActivityInfo| is_tracked(a, game_data)
}

/// The names of a list of activities.
pub open spec fn activity_names(s: Seq<ActivityInfo>) -> Seq<String> {
    s.map_values(|a: ActivityInfo| a.name)
}

/// Whether `name` is the name of an activity of `s` that is a game to record: of the kind
/// "playing", from an application, not excluded by name, for a member who lets the bot record
/// games.
pub open spec fn is_game_of(s: Seq<ActivityInfo>, name: String, game_data: bool) -> bool {
    exists|j: int| {
        &&& 0 <= j < s.len()
        &&& #[trigger] s[j].name == name
        &&& s[j].playing
        &&& s[j].has_application
        &&& game_data
        &&& !excluded_activity(s[j].name@)
    }
}

/// The names of the activities of a presence that are recorded as games, in order.
pub fn tracked_activities(activities: &Vec<ActivityInfo>, game_data: bool) -> (r: Vec<String>)
    ensures
        r@ == activity_names(activities@.filter(tracked_by(game_data))),
        forall|i: int| 0 <= i < r@.len() ==> is_game_of(activities@, #[trigger] r@[i], game_data),
        forall|j: int| {
            &&& 0 <= j < activities@.len()
            &&& activities@[j].playing
            &&& activities@[j].has_application
            &&& game_data
            &&& !excluded_activity(activities@[j].name@)
        } ==> r@.contains(#[trigger] activities@[j].name),
{
    let mut out: Vec<String> = Vec::new();
    let mut i: usize = 0;
    while i < activities.len()
        invariant
            i <= activities@.len(),
            out@ == activity_names(activities@.take(i as int).filter(tracked_by(game_data))),
        decreases activities@.len() - i,
    {
        let a = &activities[i];
        let keep = a.playing && game_data && a.has_application && !is_excluded_activity(
            a.name.as_str(),
        );
        proof {
            assert(activities@.take(i + 1) =~= activities@.take(i as int).push(activities@[i as int]));
            activities@.take(i as int).lemma_filter_push(activities@[i as int], tracked_by(game_data));
        }
        if keep {
            out.push(a.name.clone());
            proof {
                let f = activities@.take(i as int).filter(tracked_by(game_data));
                assert(activity_names(f.push(activities@[i as int])) =~= activity_names(f).push(
                    activities@[i as int].name,
                ));
            }
        }
        i = i + 1;
    }
    assert(activities@.take(activities@.len() as int) =~= activities@);
    proof {
        let f = activities@.filter(tracked_by(game_data));
        assert forall|i: int| 0 <= i < out@.len() implies is_game_of(activities@, #[trigger] out@[i], game_data) by {
            activities@.lemma_filter_pred(tracked_by(game_data), i);
            assert(f.contains(f[i]));
            activities@.lemma_filter_contains_rev(tracked_by(game_data), f[i]);
            let j = choose|j: int| 0 <= j < activities@.len() && activities@[j] == f[i];
            assert(out@[i] == f[i].name);
            assert(activities@[j].name == out@[i]);
        }
        assert forall|j: int| {
            &&& 0 <= j < activities@.len()
            &&& activities@[j].playing
            &&& activities@[j].has_application
            &&& game_data
            &&& !excluded_activity(activities@[j].name@)
        } implies out@.contains(#[trigger] activities@[j].name) by {
            activities@.lemma_filter_contains(tracked_by(game_data), j);
            let k = choose|k: int| 0 <= k < f.len() && f[k] == activities@[j];
            assert(out@[k] == activities@[j].name);
        }
    }
    out
}

/// Law: a presence activity is recorded as a game exactly when it is of the kind "playing",
/// comes from an application, has a name that is not excluded, and the member lets the bot
/// record games; the names never recorded are the four excluded ones.
pub proof fn lemma_tracked_activity(a: ActivityInfo, game_data: bool)
    ensures
        is_tracked(a, game_data) ==> a.playing && a.has_application && game_data,
        is_tracked(a, game_data) <== a.playing && a.has_application && game_data
            && !excluded_activity(a.name@),
        !a.playing ==> !is_tracked(a, game_data),
        !a.has_application ==> !is_tracked(a, game_data),
        !game_data ==> !is_tracked(a, game_data),
        excluded_activity(a.name@) <==> (a.name@ == "Curseforge"@ || a.name@ == "CurseForge"@
            || a.name@ == "Screen Recording with Medal"@ || a.name@ == "Valorant Tracker App"@),
{
}

// ---------------------------------------------------------------------------
// Finding or creating an activity
// ---------------------------------------------------------------------------

/// A game as the database keeps it.
pub struct ActivityRecord {
    pub id: i32,
    pub name: String,
    pub alias: Option<Vec<String>>,
}

/// The next step of finding the database row of a game by its name.
pub enum ActivityLookup {
    /// Look for a game with this name.
    ByName(String),
    /// Look for a game with this name among its aliases.
    ByAlias(String),
    /// No game has this name: add one.
    Insert(String),
    /// The game's row.
    Found(ActivityRecord),
}

/// Whether the step asks the database a question.
pub open spec fn is_query(step: ActivityLookup) -> bool {
    step is ByName || step is ByAlias
}

/// The step after a question to the database has been answered.
pub open spec fn lookup_after(step: ActivityLookup, answer: Option<ActivityRecord>) -> ActivityLookup {
    match answer {
        Some(rec) => ActivityLookup::Found(rec),
        None => match step {
            ActivityLookup::ByName(n) => ActivityLookup::ByAlias(n),
            ActivityLookup::ByAlias(n) => ActivityLookup::Insert(n),
            other => other,
        },
    }
}

/// The first step of finding a game: look it up by name.
pub fn start_activity_lookup(name: &str) -> (r: ActivityLookup)
    ensures
        r matches ActivityLookup::ByName(n) && n@ == name@,
{
    ActivityLookup::ByName(String::from_str(name))
}

/// The step after the database has answered a question: a game that was found is the
/// result; a name not found among names is looked for among aliases, and one found in
/// neither is added.
pub fn next_activity_lookup(step: ActivityLookup, answer: Option<ActivityRecord>) -> (r:
    ActivityLookup)
    requires
        is_query(step),
    ensures
        r == lookup_after(step, answer),
{
    match answer {
        Some(rec) => ActivityLookup::Found(rec),
        None => match step {
            ActivityLookup::ByName(n) => ActivityLookup::ByAlias(n),
            ActivityLookup::ByAlias(n) => ActivityLookup::Insert(n),
            other => other,
        },
    }
}

/// Law: a game is found or added after at most two questions, and it is only added after
/// its name was looked for both among names and among aliases.
pub proof fn lemma_activity_lookup_ends(name: String, a1: Option<ActivityRecord>, a2: Option<ActivityRecord>)
    ensures
        !is_query(lookup_after(lookup_after(ActivityLookup::ByName(name), a1), a2))
            || !is_query(lookup_after(ActivityLookup::ByName(name), a1)),
        lookup_after(ActivityLookup::ByName(name), a1) is Insert ==> false,
        lookup_after(lookup_after(ActivityLookup::ByName(name), a1), a2) matches ActivityLookup::Insert(n)
            ==> a1 is None && a2 is None && n == name,
        a1 matches Some(rec) ==> lookup_after(ActivityLookup::ByName(name), a1)
            == ActivityLookup::Found(rec),
        a1 is None ==> lookup_after(ActivityLookup::ByName(name), a1) == ActivityLookup::ByAlias(
            name,
        ),
        a2 matches Some(rec) ==> lookup_after(ActivityLookup::ByAlias(name), a2)
            == ActivityLookup::Found(rec),
        a2 is None ==> lookup_after(ActivityLookup::ByAlias(name), a2) == ActivityLookup::Insert(
            name,
        ),
{
}

/// Law: the author line of a leave notice begins with the member's name, ends with
/// `) Left`, and the number between the brackets reads back as the member's id.
pub proof fn lemma_leave_author_names_member(name: Seq<char>, user_id: u64)
    ensures
        leave_author(name, user_id).take(name.len() as int) == name,
        leave_author(name, user_id).skip(leave_author(name, user_id).len() - 6) == ") Left"@,
        parsed_u64(
            leave_author(name, user_id).subrange(
                name.len() + 2int,
                leave_author(name, user_id).len() - 6,
            ),
        ) == Some(user_id),
{
    reveal_strlit(" (");
    reveal_strlit(") Left");
    let a = leave_author(name, user_id);
    let d = decimal(user_id as nat);
    assert(a =~= name + " ("@ + d + ") Left"@);
    assert(a.take(name.len() as int) =~= name);
    assert(a.skip(a.len() - 6) =~= ") Left"@);
    assert(a.subrange(name.len() + 2int, a.len() - 6) =~= d);
    lemma_parse_u64_of_text(user_id);
}

} // verus!
