//! The texts written on the user card and the server leaderboard card. Drawing the cards is
//! left to the caller.

use vstd::prelude::*;
use vstd::string::*;
use chrono::Datelike;
use std::fmt::Write;
use crate::text::{
    decimal, ellipsize, ellipsized, can_ellipsize, preferred_name, preferred_name_of, opt_view,
    strip_point_zero, without_point_zero, u64_text, replace_text, replaced, utf8_width,
};

verus! {

// ---------------------------------------------------------------------------
// Names
// ---------------------------------------------------------------------------

/// The longest display name that the user card shows beside a username of `username_len`
/// characters: 32, or `31 - username_len / 2` for usernames longer than 4 characters.
pub open spec fn card_name_limit(username_len: int) -> int {
    if username_len > 4 {
        31 - username_len / 2
    } else {
        32
    }
}

/// The limit on usernames in the user card header.
pub open spec fn card_username_limit() -> int {
    24
}

/// When the user card header can be built without a panic: the limit does not fall below
/// zero, and both names can be shortened.
pub open spec fn card_header_ok(display_name: Seq<char>, username: Seq<char>) -> bool {
    &&& card_name_limit(username.len() as int) >= 0
    &&& can_ellipsize(display_name, card_name_limit(username.len() as int))
    &&& can_ellipsize(username, card_username_limit())
}

/// The display name and username written in the user card header, each shortened to its
/// limit.
pub fn card_header_names(display_name: &str, username: &str) -> (r: (String, String))
    requires
        card_header_ok(display_name@, username@),
    ensures
        r.0@ == ellipsized(display_name@, card_name_limit(username@.len() as int)),
        r.1@ == ellipsized(username@, card_username_limit()),
        username@.len() <= 4 ==> r.0@ == ellipsized(display_name@, 32),
        username@.len() > 4 ==> r.0@ == ellipsized(display_name@, 31 - username@.len() / 2),
        r.1@ == ellipsized(username@, 24),
        display_name@.len() <= card_name_limit(username@.len() as int) ==> r.0@ == display_name@,
{
    let username_len = username.unicode_len();
    let mut limit: usize = 32;
    if username_len > 4 {
        limit = 31 - username_len / 2;
    }
    (ellipsize(display_name, limit), ellipsize(username, 24))
}

/// Law: the limits on names. A username of at most 4 characters leaves 32 characters for
/// the display name; each further two characters of username take one away (31 - len/2), so
/// a longer username never leaves more room. Usernames are cut at 24 characters, leaderboard
/// names at 32 and game names at 25.
pub proof fn lemma_card_name_limits(k1: int, k2: int)
    requires
        0 <= k1 <= k2,
    ensures
        k2 <= 4 ==> card_name_limit(k2) == 32,
        k2 > 4 ==> card_name_limit(k2) == 31 - k2 / 2,
        card_name_limit(k2) <= card_name_limit(k1),
        card_name_limit(k2) <= 32,
        card_username_limit() == 24,
        leaderboard_name_limit() == 32,
        activity_name_limit() == 25,
{
}

/// The longest name shown on a leaderboard row.
pub open spec fn leaderboard_name_limit() -> int {
    32
}

/// The longest game name shown on the user card.
pub open spec fn activity_name_limit() -> int {
    25
}

/// The name shown for a member on a leaderboard row: the name they are shown by, shortened
/// to 32 characters.
pub fn leaderboard_name(
    nickname: &Option<String>,
    display_name: &Option<String>,
    global_name: &Option<String>,
    username: &String,
) -> (r: String)
    requires
        can_ellipsize(
            preferred_name_of(
                opt_view(*nickname),
                opt_view(*display_name),
                opt_view(*global_name),
                username@,
            ),
            leaderboard_name_limit(),
        ),
    ensures
        r@ == ellipsized(
            preferred_name_of(
                opt_view(*nickname),
                opt_view(*display_name),
                opt_view(*global_name),
                username@,
            ),
            leaderboard_name_limit(),
        ),
{
    let name = preferred_name(nickname, display_name, global_name, username);
    ellipsize(name.as_str(), 32)
}

/// The text shown when there is nothing to show.
pub open spec fn no_data() -> Seq<char> {
    "No Data"@
}

/// The game name shown on the user card: the name, or `No Data` when there is none,
/// shortened to 25 characters.
pub fn activity_label(name: &Option<String>) -> (r: String)
    requires
        name matches Some(n) ==> can_ellipsize(n@, activity_name_limit()),
    ensures
        r@ == ellipsized(
            match name {
                Some(n) => n@,
                None => no_data(),
            },
            activity_name_limit(),
        ),
{
    match name {
        Some(n) => ellipsize(n.as_str(), 25),
        None => {
            proof { reveal_strlit("No Data"); }
            ellipsize("No Data", 25)
        },
    }
}

/// The address used to download a picture for a card: the 1024-pixel size asked for by
/// Discord's picture addresses is replaced by the 80-pixel size.
pub fn small_picture_url(url: &str) -> (r: String)
    ensures
        r@ == replaced(url@, "?size=1024"@, "?size=80"@),
{
    proof {
        reveal_strlit("?size=1024");
    }
    replace_text(url, "?size=1024", "?size=80")
}

// ---------------------------------------------------------------------------
// Places and numbers
// ---------------------------------------------------------------------------

/// The place label of the row at `index` (counting from 0) of a leaderboard: `#` and the
/// place counting from 1.
pub fn place_label(index: usize) -> (r: String)
    requires
        index < usize::MAX,
    ensures
        r@ == "#"@ + decimal(index as nat + 1),
{
    proof { reveal_strlit("#"); }
    let place = u64_text(index as u64 + 1);
    String::from_str("#").concat(place.as_str())
}

/// What numfmt's `fmt2` writes for `n` with `decimals` decimals of precision, no scaling and
/// `separator` between thousands.
pub uninterp spec fn fmt2_separated_of(n: i64, decimals: u8, separator: char) -> Seq<char>;

/// numfmt's `Formatter::fmt2` on `n`, the formatter set with `Precision::Decimals(decimals)`
/// and the thousands separator `separator`. `separator` must take one byte in UTF-8, the one
/// case in which `Formatter::separator` accepts it. Promised: the result is the formatter's
/// text, a function of the three arguments alone (named `fmt2_separated_of`).
#[verifier::external_body]
fn fmt2_separated(n: i64, decimals: u8, separator: char) -> (r: String)
    requires
        (separator as u32) < 0x80,
    ensures
        r@ == fmt2_separated_of(n, decimals, separator),
{
    let mut f = numfmt::Formatter::new()
        .precision(numfmt::Precision::Decimals(decimals))
        .separator(separator)
        .expect("a one-byte separator is accepted");
    f.fmt2(n).to_string()
}

/// What numfmt's `fmt2` writes for `n` with `decimals` decimals of precision, scaled by
/// powers of `base` named by `units` (the first unit for the unscaled number).
pub uninterp spec fn fmt2_scaled_of(n: i64, decimals: u8, base: u16, units: Seq<Seq<char>>) -> Seq<char>;

/// numfmt's `Formatter::fmt2` on `n`, the formatter set with `Precision::Decimals(decimals)`
/// and `Scales::new(base, units)`. `Scales::new` accepts a non-zero base and units of at most
/// 12 bytes, so those are required. Promised: the result is the formatter's text, a function
/// of the arguments alone (named `fmt2_scaled_of`, over the units' texts).
#[verifier::external_body]
fn fmt2_scaled(n: i64, decimals: u8, base: u16, units: Vec<&'static str>) -> (r: String)
    requires
        base > 0,
        forall|i: int| 0 <= i < units@.len() ==> utf8_width(#[trigger] units@[i]@) <= 12,
    ensures
        r@ == fmt2_scaled_of(n, decimals, base, units@.map_values(|u: &str| u@)),
{
    let scales = numfmt::Scales::new(base, units).expect("the base and units are accepted");
    let mut f = numfmt::Formatter::new()
        .scales(scales)
        .precision(numfmt::Precision::Decimals(decimals));
    f.fmt2(n).to_string()
}

/// The number of decimals the cards write.
pub open spec fn card_decimals() -> u8 {
    2
}

/// The units by which the user card scales numbers: powers of 1000 named K, M, B, T, q, Q,
/// s, S.
pub open spec fn card_units() -> Seq<Seq<char>> {
    seq![""@, "K"@, "M"@, "B"@, "T"@, "q"@, "Q"@, "s"@, "S"@]
}

/// A number as the user card writes it: two decimals, scaled by powers of 1000.
pub open spec fn card_scaled(n: i64) -> Seq<char> {
    fmt2_scaled_of(n, card_decimals(), 1000, card_units())
}

/// A number as the server leaderboard card writes it: two decimals, `,` between thousands.
pub open spec fn board_separated(n: i64) -> Seq<char> {
    fmt2_separated_of(n, card_decimals(), ',')
}

/// Law: how the cards write numbers. The user card uses numfmt with two decimals and
/// scales of 1000 named K (thousand), M, B, T, q, Q, s and S; the server leaderboard card
/// uses two decimals and `,` between thousands, without scaling.
pub proof fn lemma_card_number_formats(n: i64)
    ensures
        card_scaled(n) == fmt2_scaled_of(
            n,
            2,
            1000,
            seq![""@, "K"@, "M"@, "B"@, "T"@, "q"@, "Q"@, "s"@, "S"@],
        ),
        board_separated(n) == fmt2_separated_of(n, 2, ','),
{
}

/// `n` written as the user card writes numbers.
fn scaled_text(n: i64) -> (r: String)
    ensures
        r@ == card_scaled(n),
{
    let units: Vec<&'static str> = vec!["", "K", "M", "B", "T", "q", "Q", "s", "S"];
    proof {
        reveal_strlit("");
        reveal_strlit("K");
        reveal_strlit("M");
        reveal_strlit("B");
        reveal_strlit("T");
        reveal_strlit("q");
        reveal_strlit("Q");
        reveal_strlit("s");
        reveal_strlit("S");
        reveal_with_fuel(utf8_width, 2);
        assert forall|i: int| 0 <= i < units@.len() implies utf8_width(#[trigger] units@[i]@) <= 12 by {
            assert(units@[i]@.len() <= 1);
            if units@[i]@.len() == 1 {
                assert(units@[i]@.drop_first().len() == 0);
            }
        }
        assert(units@.map_values(|u: &str| u@) =~= card_units());
    }
    fmt2_scaled(n, 2, 1000, units)
}

/// A member's place on the user card: `#` and the place scaled by powers of 1000 with two
/// decimals, with every `.0` removed.
pub fn rank_label(rank: usize) -> (r: String)
    requires
        rank <= i64::MAX,
    ensures
        r@ == without_point_zero("#"@ + card_scaled(rank as i64)),
{
    proof { reveal_strlit("#"); }
    let digits = scaled_text(rank as i64);
    let label = String::from_str("#").concat(digits.as_str());
    strip_point_zero(label.as_str())
}

/// A message count on the user card: scaled by powers of 1000 (`K`, `M`, ...) with two
/// decimals, with every `.0` removed.
pub fn count_label(n: i64) -> (r: String)
    ensures
        r@ == without_point_zero(card_scaled(n)),
{
    let text = scaled_text(n);
    strip_point_zero(text.as_str())
}

/// A message count on the server leaderboard card (the server's total and each row): written
/// with `,` between thousands and two decimals, with every `.0` removed.
pub fn board_count_label(n: i64) -> (r: String)
    ensures
        r@ == without_point_zero(board_separated(n)),
{
    let text = fmt2_separated(n, 2, ',');
    strip_point_zero(text.as_str())
}

/// The member count written in the header of the server leaderboard card: the count and
/// ` Members`.
pub fn member_count_label(count: usize) -> (r: String)
    ensures
        r@ == decimal(count as nat) + " Members"@,
{
    proof { reveal_strlit(" Members"); }
    let n = u64_text(count as u64);
    n.concat(" Members")
}

// ---------------------------------------------------------------------------
// Dates
// ---------------------------------------------------------------------------

/// The year, in UTC, of a time given in milliseconds since 1970, if chrono can represent it.
pub uninterp spec fn utc_year_of(ms: i64) -> Option<i32>;

/// chrono's `DateTime::<Utc>::from_timestamp_millis`, then the year of the time. Promised:
/// the result is chrono's, a function of `ms` alone (named `utc_year_of`).
#[verifier::external_body]
fn utc_year(ms: i64) -> (r: Option<i32>)
    ensures
        r == utc_year_of(ms),
{
    match chrono::DateTime::<chrono::Utc>::from_timestamp_millis(ms) {
        Some(t) => Some(t.year()),
        None => None,
    }
}

/// chrono's text for the UTC time `ms` milliseconds after 1970 written with the format
/// `fmt`, if chrono can represent the time and write it in that format.
pub uninterp spec fn utc_format_of(ms: i64, fmt: Seq<char>) -> Option<Seq<char>>;

/// chrono's `DateTime::<Utc>::from_timestamp_millis`, then the time written through
/// `format(fmt)`. A time chrono cannot represent, or a format it cannot write, gives `None`.
/// Promised: the result is chrono's, a function of `ms` and `fmt` alone (named
/// `utc_format_of`).
#[verifier::external_body]
fn utc_format(ms: i64, fmt: &str) -> (r: Option<String>)
    ensures
        r matches Some(t) ==> utc_format_of(ms, fmt@) == Some(t@),
        r is None ==> utc_format_of(ms, fmt@) is None,
{
    match chrono::DateTime::<chrono::Utc>::from_timestamp_millis(ms) {
        Some(t) => {
            let mut text = String::new();
            match write!(text, "{}", t.format(fmt)) {
                Ok(()) => Some(text),
                Err(_) => None,
            }
        },
        None => None,
    }
}

/// The format of the dates on the user card (`Jan 05, 2024`).
pub open spec fn card_date_format() -> Seq<char> {
    "%b %d, %Y"@
}

/// The date text of the user card for a time in milliseconds since 1970, when the time can
/// be represented and written: `No Data` for no time or a time in 1970, else the UTC date
/// as `%b %d, %Y`.
pub open spec fn card_date_of(ms: Option<i64>) -> Option<Seq<char>> {
    match ms {
        None => Some(no_data()),
        Some(m) => match utc_year_of(m) {
            None => None,
            Some(y) => if y == 1970 {
                Some(no_data())
            } else {
                utc_format_of(m, card_date_format())
            },
        },
    }
}

/// Law: the date on the user card. No time, or a time in 1970, is written `No Data`; any
/// other time chrono can represent is written as chrono writes its UTC date with the format
/// `%b %d, %Y`: the month's short name, the day of the month in two digits, a comma and the
/// year (`Mar 15, 2024`).
pub proof fn lemma_card_date(m: i64)
    ensures
        no_data() == "No Data"@,
        card_date_of(None) == Some("No Data"@),
        utc_year_of(m) == Some(1970i32) ==> card_date_of(Some(m)) == Some("No Data"@),
        utc_year_of(m) matches Some(y) && y != 1970 ==> card_date_of(Some(m)) == utc_format_of(
            m,
            "%b %d, %Y"@,
        ),
        utc_year_of(m) is None ==> card_date_of(Some(m)) is None,
{
}

/// The date written on the user card for a creation or join time (milliseconds since
/// 1970): `No Data` when there is none or it falls in 1970 (the placeholder the bot stores
/// for an unknown join date), else the UTC date as `%b %d, %Y`. `None` only where chrono
/// cannot represent the time or write it.
pub fn card_date_text(ms: Option<i64>) -> (r: Option<String>)
    ensures
        match r {
            Some(t) => card_date_of(ms) == Some(t@),
            None => card_date_of(ms) is None,
        },
        match ms {
            None => (r matches Some(t) && t@ == "No Data"@),
            Some(m) => match utc_year_of(m) {
                None => r is None,
                Some(y) => if y == 1970 {
                    (r matches Some(t) && t@ == "No Data"@)
                } else {
                    match r {
                        Some(t) => utc_format_of(m, "%b %d, %Y"@) == Some(t@),
                        None => utc_format_of(m, "%b %d, %Y"@) is None,
                    }
                },
            },
        },
{
    proof { reveal_strlit("No Data"); }
    match ms {
        None => Some(String::from_str("No Data")),
        Some(m) => match utc_year(m) {
            None => None,
            Some(y) => {
                if y == 1970 {
                    Some(String::from_str("No Data"))
                } else {
                    utc_format(m, "%b %d, %Y")
                }
            },
        },
    }
}

} // verus!
