//! Rules for carrying members over from the legacy statistics store: which documents are
//! skipped, which profile fields are written, and how the legacy history dates are read.

use vstd::prelude::*;
use vstd::string::*;
use chrono::Datelike;

verus! {

/// A column value of a row to write: a value, or left as the database has it.
pub enum ColumnValue<T> {
    Write(T),
    Keep,
}

/// What the server says of a member being carried over.
pub struct LegacyMember {
    pub username: String,
    pub display_name: String,
    pub global_name: Option<String>,
    pub nickname: Option<String>,
    /// The member's avatar in this server, if they set one.
    pub guild_avatar: Option<String>,
    /// The account's avatar.
    pub user_avatar: Option<String>,
    /// The member's banner in this server, if they set one.
    pub guild_banner: Option<String>,
    /// The account's banner.
    pub user_banner: Option<String>,
    pub joined_at_ms: i64,
    pub created_at_ms: i64,
}

/// The profile columns written for a member carried over.
pub struct LegacyProfile {
    pub username: String,
    pub display_name: ColumnValue<Option<String>>,
    pub global_name: ColumnValue<Option<String>>,
    pub nickname: ColumnValue<Option<String>>,
    pub avatar: ColumnValue<Option<String>>,
    pub banner: ColumnValue<Option<String>>,
    pub join_date_ms: ColumnValue<i64>,
    pub creation_date_ms: ColumnValue<i64>,
    pub user_left: bool,
}

/// The avatar written for a member: the one set in the server, else the account's, else
/// the one the legacy store kept.
pub open spec fn chosen_avatar(m: LegacyMember, stored: Option<String>) -> Option<String> {
    match m.guild_avatar {
        Some(a) => Some(a),
        None => match m.user_avatar {
            Some(a) => Some(a),
            None => stored,
        },
    }
}

/// The banner written for a member: the one set in the server, else the account's.
pub open spec fn chosen_banner(m: LegacyMember) -> Option<String> {
    match m.guild_banner {
        Some(b) => Some(b),
        None => m.user_banner,
    }
}

/// Law: the pictures written for a member carried over. A picture set in the server wins
/// over the account's; the account's avatar wins over the one the legacy store kept; the
/// banner falls back to the account's only when the server has none.
pub proof fn lemma_picture_fallbacks(m: LegacyMember, stored: Option<String>)
    ensures
        m.guild_banner is Some ==> chosen_banner(m) == m.guild_banner,
        m.guild_banner is None ==> chosen_banner(m) == m.user_banner,
        m.guild_avatar is Some ==> chosen_avatar(m, stored) == m.guild_avatar,
        m.guild_avatar is None && m.user_avatar is Some ==> chosen_avatar(m, stored)
            == m.user_avatar,
        m.guild_avatar is None && m.user_avatar is None ==> chosen_avatar(m, stored) == stored,
{
}

/// The profile columns written for a member carried over from the legacy store. With the
/// server's view of the member every profile column is written from it (the avatar falling
/// back to the account's and then to the stored one, the banner to the account's); without
/// it only the stored username is written and the member is marked as having left.
pub fn legacy_profile(
    member: Option<LegacyMember>,
    stored_username: String,
    stored_avatar: Option<String>,
) -> (r: LegacyProfile)
    ensures
        r.user_left == member is None,
        member is None ==> {
            &&& r.username == stored_username
            &&& r.display_name is Keep
            &&& r.global_name is Keep
            &&& r.nickname is Keep
            &&& r.avatar is Keep
            &&& r.banner is Keep
            &&& r.join_date_ms is Keep
            &&& r.creation_date_ms is Keep
        },
        member matches Some(m) ==> {
            &&& r.username == m.username
            &&& r.display_name == ColumnValue::Write(Some(m.display_name))
            &&& r.global_name == ColumnValue::Write(m.global_name)
            &&& r.nickname == ColumnValue::Write(m.nickname)
            &&& r.avatar == ColumnValue::Write(chosen_avatar(m, stored_avatar))
            &&& r.banner == ColumnValue::Write(chosen_banner(m))
            &&& (m.guild_banner matches Some(b) ==> r.banner == ColumnValue::Write(Some(b)))
            &&& (m.guild_banner is None ==> r.banner == ColumnValue::Write(m.user_banner))
            &&& (m.guild_avatar matches Some(a) ==> r.avatar == ColumnValue::Write(Some(a)))
            &&& (m.guild_avatar is None && m.user_avatar is Some ==> r.avatar == ColumnValue::Write(
                m.user_avatar,
            ))
            &&& (m.guild_avatar is None && m.user_avatar is None ==> r.avatar == ColumnValue::Write(
                stored_avatar,
            ))
            &&& r.join_date_ms == ColumnValue::Write(m.joined_at_ms)
            &&& r.creation_date_ms == ColumnValue::Write(m.created_at_ms)
        },
{
    match member {
        None => LegacyProfile {
            username: stored_username,
            display_name: ColumnValue::Keep,
            global_name: ColumnValue::Keep,
            nickname: ColumnValue::Keep,
            avatar: ColumnValue::Keep,
            banner: ColumnValue::Keep,
            join_date_ms: ColumnValue::Keep,
            creation_date_ms: ColumnValue::Keep,
            user_left: true,
        },
        Some(m) => {
            let avatar = match m.guild_avatar {
                Some(a) => Some(a),
                None => match m.user_avatar {
                    Some(a) => Some(a),
                    None => stored_avatar,
                },
            };
            let banner = match m.guild_banner {
                Some(b) => Some(b),
                None => m.user_banner,
            };
            LegacyProfile {
                username: m.username,
                display_name: ColumnValue::Write(Some(m.display_name)),
                global_name: ColumnValue::Write(m.global_name),
                nickname: ColumnValue::Write(m.nickname),
                avatar: ColumnValue::Write(avatar),
                banner: ColumnValue::Write(banner),
                join_date_ms: ColumnValue::Write(m.joined_at_ms),
                creation_date_ms: ColumnValue::Write(m.created_at_ms),
                user_left: false,
            }
        },
    }
}

/// Whether a legacy document is skipped: the document that describes the server itself
/// (its id is the server's id) is not a member.
pub fn is_server_document(doc_id: &str, guild_id: &str) -> (r: bool)
    ensures
        r == (doc_id@ == guild_id@),
{
    String::from_str(doc_id) == String::from_str(guild_id)
}

/// Whether a game of the legacy play history is carried over: every title but
/// `Rainbow Six Siege`.
pub fn counts_in_game_history(title: &str) -> (r: bool)
    ensures
        r == (title@ != "Rainbow Six Siege"@),
{
    !(String::from_str(title) == String::from_str("Rainbow Six Siege"))
}

/// The day (counted as chrono's `num_days_from_ce` counts) of the date that chrono's
/// `NaiveDate::parse_from_str` reads from `text` in the format `fmt`, if it reads one.
pub uninterp spec fn date_days_of(text: Seq<char>, fmt: Seq<char>) -> Option<i32>;

/// chrono's `NaiveDate::parse_from_str(text, fmt)`, then `num_days_from_ce` of the date; an
/// error of the parse gives `None`. Promised: the result is chrono's, a function of `text` and
/// `fmt` alone (named `date_days_of`).
#[verifier::external_body]
fn parse_date_days(text: &str, fmt: &str) -> (r: Option<i32>)
    ensures
        r == date_days_of(text@, fmt@),
{
    match chrono::NaiveDate::parse_from_str(text, fmt) {
        Ok(date) => Some(date.num_days_from_ce()),
        Err(_) => None,
    }
}

/// The format of the dates in the legacy histories (`Mon Jan 01 2024`).
pub open spec fn legacy_date_format() -> Seq<char> {
    "%a %b %d %Y"@
}

/// The day of a legacy history date, if the text reads as a date in the legacy format.
pub open spec fn history_day_of(text: Seq<char>) -> Option<i32> {
    date_days_of(text, legacy_date_format())
}

/// Whether every date of a legacy history reads as a date.
pub open spec fn all_history_days(texts: Seq<String>) -> bool {
    forall|i: int| 0 <= i < texts.len() ==> (#[trigger] history_day_of(texts[i]@)) is Some
}

/// The days of the entries of a legacy history, in order, when every date reads as a date
/// in the form `%a %b %d %Y`; `None` when one does not.
pub fn history_days(texts: &Vec<String>) -> (r: Option<Vec<i32>>)
    ensures
        r is None <==> !all_history_days(texts@),
        r matches Some(days) ==> days@.len() == texts@.len() && forall|i: int|
            0 <= i < texts@.len() ==> history_day_of(#[trigger] texts@[i]@) == Some(days@[i]),
{
    let mut days: Vec<i32> = Vec::new();
    let mut i: usize = 0;
    while i < texts.len()
        invariant
            i <= texts@.len(),
            days@.len() == i,
            forall|k: int| 0 <= k < i ==> history_day_of(#[trigger] texts@[k]@) == Some(days@[k]),
        decreases texts@.len() - i,
    {
        match parse_date_days(texts[i].as_str(), "%a %b %d %Y") {
            Some(d) => days.push(d),
            None => return None,
        }
        i = i + 1;
    }
    Some(days)
}

} // verus!
