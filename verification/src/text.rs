use vstd::prelude::*;
use vstd::string::*;

verus! {

// ---------------------------------------------------------------------------
// Decimal digits
// ---------------------------------------------------------------------------

/// The ASCII character of a decimal digit.
pub open spec fn digit_char(d: int) -> char {
    if d == 0 {
        '0'
    } else if d == 1 {
        '1'
    } else if d == 2 {
        '2'
    } else if d == 3 {
        '3'
    } else if d == 4 {
        '4'
    } else if d == 5 {
        '5'
    } else if d == 6 {
        '6'
    } else if d == 7 {
        '7'
    } else if d == 8 {
        '8'
    } else {
        '9'
    }
}

/// The value of an ASCII decimal digit character.
pub open spec fn digit_value(c: char) -> int {
    c as int - '0' as int
}

/// Whether a character is an ASCII decimal digit.
pub open spec fn is_digit(c: char) -> bool {
    '0' as int <= c as int <= '9' as int
}

/// The decimal representation of a natural number, without sign or leading zeros.
pub open spec fn decimal(n: nat) -> Seq<char>
    decreases n,
{
    if n < 10 {
        seq![digit_char(n as int)]
    } else {
        decimal(n / 10).push(digit_char((n % 10) as int))
    }
}

/// The decimal representation of an integer, with a leading `-` when negative.
pub open spec fn signed_decimal(n: int) -> Seq<char> {
    if n < 0 {
        seq!['-'] + decimal((-n) as nat)
    } else {
        decimal(n as nat)
    }
}

/// The number that a sequence of decimal digits denotes.
pub open spec fn digits_value(s: Seq<char>) -> int
    decreases s.len(),
{
    if s.len() == 0 {
        0
    } else {
        digits_value(s.drop_last()) * 10 + digit_value(s.last())
    }
}

/// Whether every character of `s` is a decimal digit.
pub open spec fn all_digits(s: Seq<char>) -> bool {
    forall|i: int| 0 <= i < s.len() ==> is_digit(#[trigger] s[i])
}

/// The digits part of an unsigned number's text: the text without one leading `+`.
pub open spec fn unsigned_body(s: Seq<char>) -> Seq<char> {
    if s.len() > 0 && s[0] == '+' {
        s.drop_first()
    } else {
        s
    }
}

/// What parsing `s` as a `u64` gives: an optional `+`, then one or more decimal digits
/// whose value fits in 64 bits.
pub open spec fn parsed_u64(s: Seq<char>) -> Option<u64> {
    let b = unsigned_body(s);
    if b.len() > 0 && all_digits(b) && digits_value(b) <= u64::MAX {
        Some(digits_value(b) as u64)
    } else {
        None
    }
}

fn digit_text(d: u64) -> (r: &'static str)
    requires
        d < 10,
    ensures
        r@ == seq![digit_char(d as int)],
{
    if d == 0 {
        proof { reveal_strlit("0"); }
        "0"
    } else if d == 1 {
        proof { reveal_strlit("1"); }
        "1"
    } else if d == 2 {
        proof { reveal_strlit("2"); }
        "2"
    } else if d == 3 {
        proof { reveal_strlit("3"); }
        "3"
    } else if d == 4 {
        proof { reveal_strlit("4"); }
        "4"
    } else if d == 5 {
        proof { reveal_strlit("5"); }
        "5"
    } else if d == 6 {
        proof { reveal_strlit("6"); }
        "6"
    } else if d == 7 {
        proof { reveal_strlit("7"); }
        "7"
    } else if d == 8 {
        proof { reveal_strlit("8"); }
        "8"
    } else {
        proof { reveal_strlit("9"); }
        "9"
    }
}

/// The decimal text of an unsigned number, as `to_string` writes it (and so as a Discord
/// id is written).
pub fn u64_text(n: u64) -> (r: String)
    ensures
        r@ == decimal(n as nat),
    decreases n,
{
    if n < 10 {
        String::from_str(digit_text(n))
    } else {
        let head = u64_text(n / 10);
        head.concat(digit_text(n % 10))
    }
}

/// The decimal text of a signed number, as `to_string` (or `{:?}`) writes it.
pub fn i64_text(n: i64) -> (r: String)
    ensures
        r@ == signed_decimal(n as int),
{
    if n < 0 {
        let magnitude: u64 = (-(n + 1)) as u64 + 1;
        proof { reveal_strlit("-"); }
        let digits = u64_text(magnitude);
        String::from_str("-").concat(digits.as_str())
    } else {
        u64_text(n as u64)
    }
}

proof fn lemma_digits_value_bounds(s: Seq<char>)
    requires
        all_digits(s),
    ensures
        digits_value(s) >= 0,
        s.len() > 0 ==> digits_value(s) >= digits_value(s.drop_last()),
    decreases s.len(),
{
    if s.len() > 0 {
        assert(all_digits(s.drop_last()));
        lemma_digits_value_bounds(s.drop_last());
        assert(is_digit(s[s.len() - 1]));
    }
}

proof fn lemma_digits_value_prefix_monotone(s: Seq<char>, i: int)
    requires
        all_digits(s),
        0 <= i <= s.len(),
    ensures
        digits_value(s.take(i)) <= digits_value(s),
    decreases s.len() - i,
{
    if i < s.len() {
        lemma_digits_value_prefix_monotone(s, i + 1);
        let t = s.take(i + 1);
        assert(t.drop_last() =~= s.take(i));
        assert(all_digits(t));
        lemma_digits_value_bounds(t);
    } else {
        assert(s.take(i) =~= s);
    }
}

/// Parses the text of an unsigned 64-bit number as `str::parse::<u64>` does: an optional `+`
/// and at least one decimal digit, with no overflow; anything else gives `None`.
pub fn parse_u64(s: &str) -> (r: Option<u64>)
    ensures
        r == parsed_u64(s@),
{
    let len = s.unicode_len();
    let mut start: usize = 0;
    if len > 0 && s.get_char(0) == '+' {
        start = 1;
    }
    let ghost body = unsigned_body(s@);
    assert(body =~= s@.subrange(start as int, len as int));
    if start == len {
        return None;
    }
    let mut value: u64 = 0;
    let mut overflow = false;
    let mut i: usize = start;
    while i < len
        invariant
            start <= i <= len,
            len == s@.len(),
            body =~= s@.subrange(start as int, len as int),
            body == unsigned_body(s@),
            start < len,
            all_digits(body.take(i - start)),
            !overflow ==> value == digits_value(body.take(i - start)),
            overflow ==> digits_value(body.take(i - start)) > u64::MAX,
        decreases len - i,
    {
        let c = s.get_char(i);
        let ghost prev = body.take(i - start);
        let ghost next = body.take(i + 1 - start);
        assert(next.drop_last() =~= prev);
        assert(next.last() == c);
        assert(body[i - start] == c);
        if !('0' <= c && c <= '9') {
            assert(!is_digit(body[i - start]));
            assert(!all_digits(body));
            return None;
        }
        let d: u64 = (c as u32 - '0' as u32) as u64;
        assert(all_digits(next)) by {
            assert forall|j: int| 0 <= j < next.len() implies is_digit(#[trigger] next[j]) by {
                if j < prev.len() {
                    assert(next[j] == prev[j]);
                }
            }
        }
        proof { lemma_digits_value_bounds(prev); }
        if !overflow {
            if value > (u64::MAX - d) / 10 {
                overflow = true;
                assert(value * 10 + d > u64::MAX) by (nonlinear_arith)
                    requires
                        value > (u64::MAX - d) / 10,
                        d < 10,
                ;
            } else {
                assert(value * 10 + d <= u64::MAX) by (nonlinear_arith)
                    requires
                        value <= (u64::MAX - d) / 10,
                        d < 10,
                ;
                value = value * 10 + d;
            }
        } else {
            assert(digits_value(prev) * 10 + d > u64::MAX) by (nonlinear_arith)
                requires
                    digits_value(prev) > u64::MAX,
                    d >= 0,
            ;
        }
        i = i + 1;
    }
    assert(body.take(len - start) =~= body);
    if overflow {
        None
    } else {
        Some(value)
    }
}

proof fn lemma_digit_char(d: int)
    requires
        0 <= d < 10,
    ensures
        is_digit(digit_char(d)),
        digit_value(digit_char(d)) == d,
        digit_char(d) != '+',
{
}

proof fn lemma_decimal_shape(n: nat)
    ensures
        decimal(n).len() > 0,
        all_digits(decimal(n)),
        digits_value(decimal(n)) == n,
        decimal(n)[0] != '+',
    decreases n,
{
    lemma_digit_char((n % 10) as int);
    if n < 10 {
        lemma_digit_char(n as int);
        let s = decimal(n);
        assert(s.drop_last() =~= Seq::<char>::empty());
        assert(digits_value(s.drop_last()) == 0);
        assert(s.last() == digit_char(n as int));
        assert(digits_value(s) == digits_value(s.drop_last()) * 10 + digit_value(s.last()));
    } else {
        lemma_decimal_shape(n / 10);
        let s = decimal(n);
        assert(s.drop_last() =~= decimal(n / 10));
        assert(s.last() == digit_char((n % 10) as int));
        assert(digits_value(s) == digits_value(decimal(n / 10)) * 10 + (n % 10));
        assert((n / 10) * 10 + n % 10 == n);
        assert forall|i: int| 0 <= i < s.len() implies is_digit(#[trigger] s[i]) by {
            if i < s.len() - 1 {
                assert(s[i] == decimal(n / 10)[i]);
            }
        }
        assert(s[0] == decimal(n / 10)[0]);
    }
}

/// Law: the decimal text of a number parses back to that number, so an id written with
/// `u64_text` is read back unchanged by `parse_u64`.
pub proof fn lemma_parse_u64_of_text(n: u64)
    ensures
        parsed_u64(decimal(n as nat)) == Some(n),
{
    lemma_decimal_shape(n as nat);
    assert(unsigned_body(decimal(n as nat)) == decimal(n as nat));
}


// ---------------------------------------------------------------------------
// UTF-8 widths, byte truncation and ellipsis
// ---------------------------------------------------------------------------

/// The number of bytes that UTF-8 takes for a character.
pub open spec fn char_width(c: char) -> nat {
    if (c as u32) < 0x80 {
        1
    } else if (c as u32) < 0x800 {
        2
    } else if (c as u32) < 0x10000 {
        3
    } else {
        4
    }
}

/// The number of bytes that UTF-8 takes for a text.
pub open spec fn utf8_width(s: Seq<char>) -> nat
    decreases s.len(),
{
    if s.len() == 0 {
        0
    } else {
        char_width(s[0]) + utf8_width(s.drop_first())
    }
}

/// The longest beginning of `s` whose UTF-8 form fits in `n` bytes.
pub open spec fn prefix_within(s: Seq<char>, n: int) -> Seq<char>
    decreases s.len(),
{
    if s.len() == 0 || char_width(s[0]) > n {
        Seq::empty()
    } else {
        seq![s[0]] + prefix_within(s.drop_first(), n - char_width(s[0]))
    }
}

/// Whether byte offset `n` of the UTF-8 form of `s` falls between two characters, or at or
/// past its end: the offsets at which `String::truncate` does not panic.
pub open spec fn is_cut_point(s: Seq<char>, n: int) -> bool {
    n >= utf8_width(s) || utf8_width(prefix_within(s, n)) == n
}

/// The three dots that end a shortened text.
pub open spec fn ellipsis() -> Seq<char> {
    seq!['.', '.', '.']
}

/// A text shortened to at most `max` characters the way the cards shorten names: a text
/// longer than `max` characters is cut to its first `max - 3` bytes and ends in `...`.
pub open spec fn ellipsized(s: Seq<char>, max: int) -> Seq<char> {
    if s.len() > max {
        prefix_within(s, max - 3) + ellipsis()
    } else {
        s
    }
}

/// When `ellipsized(s, max)` can be computed without a panic: a text that must be shortened
/// has room for the dots, and is cut between two characters.
pub open spec fn can_ellipsize(s: Seq<char>, max: int) -> bool {
    s.len() > max ==> (max >= 3 && is_cut_point(s, max - 3))
}

proof fn lemma_prefix_within_len(s: Seq<char>, n: int)
    ensures
        prefix_within(s, n).len() <= s.len(),
        n >= 0 ==> prefix_within(s, n).len() <= n,
        prefix_within(s, n).len() <= utf8_width(prefix_within(s, n)),
    decreases s.len(),
{
    if s.len() > 0 && char_width(s[0]) <= n {
        lemma_prefix_within_len(s.drop_first(), n - char_width(s[0]));
        let p = prefix_within(s, n);
        assert(p.drop_first() =~= prefix_within(s.drop_first(), n - char_width(s[0])));
    }
}

proof fn lemma_prefix_within_is_prefix(s: Seq<char>, n: int)
    ensures
        prefix_within(s, n) =~= s.take(prefix_within(s, n).len() as int),
    decreases s.len(),
{
    lemma_prefix_within_len(s, n);
    if s.len() > 0 && char_width(s[0]) <= n {
        lemma_prefix_within_is_prefix(s.drop_first(), n - char_width(s[0]));
    }
}

proof fn lemma_prefix_within_fits(s: Seq<char>, n: int)
    ensures
        n >= 0 ==> utf8_width(prefix_within(s, n)) <= n,
    decreases s.len(),
{
    if s.len() > 0 && char_width(s[0]) <= n {
        lemma_prefix_within_fits(s.drop_first(), n - char_width(s[0]));
        let p = prefix_within(s, n);
        assert(p.drop_first() =~= prefix_within(s.drop_first(), n - char_width(s[0])));
    }
}

proof fn lemma_prefix_within_split(s: Seq<char>, i: int, n: int)
    requires
        0 <= i < s.len(),
        char_width(s[i]) <= n,
    ensures
        prefix_within(s.skip(i), n) =~= seq![s[i]] + prefix_within(
            s.skip(i + 1),
            n - char_width(s[i]),
        ),
{
    assert(s.skip(i).drop_first() =~= s.skip(i + 1));
    assert(s.skip(i)[0] == s[i]);
}

fn char_width_exec(c: char) -> (w: usize)
    ensures
        w == char_width(c),
{
    let v = c as u32;
    if v < 0x80 {
        1
    } else if v < 0x800 {
        2
    } else if v < 0x10000 {
        3
    } else {
        4
    }
}

/// `s` cut to its first `n` bytes, as `String::truncate` cuts it; `n` must fall between two
/// characters or at or past the end.
pub fn truncate_text(s: &str, n: usize) -> (r: String)
    requires
        is_cut_point(s@, n as int),
    ensures
        r@ == prefix_within(s@, n as int),
        r@ == s@.take(r@.len() as int),
        utf8_width(r@) <= n,
{
    proof {
        lemma_prefix_within_is_prefix(s@, n as int);
        lemma_prefix_within_fits(s@, n as int);
    }
    let len = s.unicode_len();
    let mut i: usize = 0;
    let mut room: usize = n;
    let mut full = false;
    assert(s@.skip(0) =~= s@);
    while i < len && !full
        invariant
            len == s@.len(),
            i <= len,
            room <= n,
            prefix_within(s@, n as int) =~= s@.take(i as int) + prefix_within(
                s@.skip(i as int),
                room as int,
            ),
            full ==> i < len && prefix_within(s@.skip(i as int), room as int) =~= Seq::<char>::empty(),
        decreases len - i, if full { 0int } else { 1int },
    {
        let w = char_width_exec(s.get_char(i));
        if w > room {
            assert(prefix_within(s@.skip(i as int), room as int) =~= Seq::<char>::empty()) by {
                assert(s@.skip(i as int)[0] == s@[i as int]);
            }
            full = true;
        } else {
            proof {
                lemma_prefix_within_split(s@, i as int, room as int);
                assert(s@.take(i as int + 1) =~= s@.take(i as int) + seq![s@[i as int]]);
            }
            room = room - w;
            i = i + 1;
        }
    }
    proof {
        if !full {
            assert(s@.skip(i as int) =~= Seq::<char>::empty());
        }
    }
    String::from_str(s.substring_char(0, i))
}

/// `s` shortened to at most `max` characters as the cards shorten names: kept as it is when
/// it has at most `max` characters, else cut to its first `max - 3` bytes with `...` added.
pub fn ellipsize(s: &str, max: usize) -> (r: String)
    requires
        can_ellipsize(s@, max as int),
    ensures
        r@ == ellipsized(s@, max as int),
        r@.len() <= max || r@ == s@,
{
    if s.unicode_len() > max {
        let cut = truncate_text(s, max - 3);
        proof {
            reveal_strlit("...");
            lemma_prefix_within_len(s@, max - 3);
        }
        cut.concat("...")
    } else {
        String::from_str(s)
    }
}

proof fn lemma_prefix_within_maximal(s: Seq<char>, n: int)
    ensures
        prefix_within(s, n).len() < s.len() ==> utf8_width(
            s.take(prefix_within(s, n).len() + 1int),
        ) > n,
    decreases s.len(),
{
    if s.len() > 0 {
        let p = prefix_within(s, n);
        if char_width(s[0]) > n {
            assert(s.take(1).drop_first() =~= Seq::<char>::empty());
        } else {
            let t = s.drop_first();
            let w = char_width(s[0]);
            lemma_prefix_within_maximal(t, n - w);
            let q = prefix_within(t, n - w);
            if p.len() < s.len() {
                assert(s.take(p.len() + 1int).drop_first() =~= t.take(q.len() + 1int));
            }
        }
    }
}

/// Law: what shortening does. A text of at most `max` characters is kept; a longer one
/// becomes the longest beginning of it whose UTF-8 form fits in `max - 3` bytes, followed by
/// `...`.
pub proof fn lemma_ellipsized_shape(s: Seq<char>, max: int)
    requires
        max >= 3,
    ensures
        s.len() <= max ==> ellipsized(s, max) == s,
        s.len() > max ==> exists|k: int| {
            &&& 0 <= k <= s.len()
            &&& ellipsized(s, max) == #[trigger] s.take(k) + "..."@
            &&& utf8_width(s.take(k)) <= max - 3
            &&& (k < s.len() ==> utf8_width(s.take(k + 1)) > max - 3)
        },
{
    if s.len() > max {
        reveal_strlit("...");
        let p = prefix_within(s, max - 3);
        lemma_prefix_within_is_prefix(s, max - 3);
        lemma_prefix_within_len(s, max - 3);
        lemma_prefix_within_fits(s, max - 3);
        lemma_prefix_within_maximal(s, max - 3);
        let k = p.len() as int;
        assert(ellipsis() =~= "..."@);
        assert(ellipsized(s, max) == s.take(k) + "..."@);
    }
}

/// Law: shortening a shortened name changes nothing more.
pub proof fn lemma_ellipsize_idempotent(s: Seq<char>, max: int)
    requires
        can_ellipsize(s, max),
    ensures
        can_ellipsize(ellipsized(s, max), max),
        ellipsized(ellipsized(s, max), max) == ellipsized(s, max),
        ellipsized(s, max).len() <= max || ellipsized(s, max) == s,
{
    if s.len() > max {
        lemma_prefix_within_len(s, max - 3);
    }
}


// ---------------------------------------------------------------------------
// Names shown on the cards
// ---------------------------------------------------------------------------

/// The name a member is shown by: the server nickname, else the display name, else the
/// global name, else the username.
pub open spec fn preferred_name_of(
    nickname: Option<Seq<char>>,
    display_name: Option<Seq<char>>,
    global_name: Option<Seq<char>>,
    username: Seq<char>,
) -> Seq<char> {
    match nickname {
        Some(n) => n,
        None => match display_name {
            Some(d) => d,
            None => match global_name {
                Some(g) => g,
                None => username,
            },
        },
    }
}

/// The view of an optional text.
pub open spec fn opt_view(o: Option<String>) -> Option<Seq<char>> {
    match o {
        Some(s) => Some(s@),
        None => None,
    }
}

/// The name a member is shown by: the server nickname, else the display name, else the
/// global name, else the username.
pub fn preferred_name(
    nickname: &Option<String>,
    display_name: &Option<String>,
    global_name: &Option<String>,
    username: &String,
) -> (r: String)
    ensures
        r@ == preferred_name_of(
            opt_view(*nickname),
            opt_view(*display_name),
            opt_view(*global_name),
            username@,
        ),
{
    match nickname {
        Some(n) => n.clone(),
        None => match display_name {
            Some(d) => d.clone(),
            None => match global_name {
                Some(g) => g.clone(),
                None => username.clone(),
            },
        },
    }
}

/// The letter drawn in place of a missing picture: the first character of the name, in
/// ASCII upper case.
pub open spec fn initial_of(name: Seq<char>) -> char {
    let c = name[0];
    if 'a' as int <= c as int <= 'z' as int {
        ((c as int) - 32) as char
    } else {
        c
    }
}

/// Law: the letter drawn for a missing picture is the name's first character, a lower-case
/// ASCII letter being turned into the same letter in upper case and any other character kept.
pub proof fn lemma_initial_is_upper_first(name: Seq<char>)
    requires
        name.len() > 0,
    ensures
        'a' as int <= name[0] as int <= 'z' as int ==> initial_of(name) as int == name[0] as int
            - ('a' as int - 'A' as int) && 'A' as int <= initial_of(name) as int <= 'Z' as int,
        !('a' as int <= name[0] as int <= 'z' as int) ==> initial_of(name) == name[0],
{
}

/// Law: a member is shown by their server nickname when they have one, else by their display
/// name, else by their global name, and by their username only when they have none of these.
pub proof fn lemma_preferred_name_order(
    nickname: Option<Seq<char>>,
    display_name: Option<Seq<char>>,
    global_name: Option<Seq<char>>,
    username: Seq<char>,
)
    ensures
        nickname is Some ==> preferred_name_of(nickname, display_name, global_name, username)
            == nickname.unwrap(),
        nickname is None && display_name is Some ==> preferred_name_of(
            nickname,
            display_name,
            global_name,
            username,
        ) == display_name.unwrap(),
        nickname is None && display_name is None && global_name is Some ==> preferred_name_of(
            nickname,
            display_name,
            global_name,
            username,
        ) == global_name.unwrap(),
        nickname is None && display_name is None && global_name is None ==> preferred_name_of(
            nickname,
            display_name,
            global_name,
            username,
        ) == username,
{
}

/// The letter drawn in place of a missing picture: the first character of `name`, in ASCII
/// upper case. The name must not be empty.
pub fn initial_letter(name: &str) -> (c: char)
    requires
        name@.len() > 0,
    ensures
        c == initial_of(name@),
{
    let first = name.get_char(0);
    if 'a' <= first && first <= 'z' {
        let upper = (first as u8) - 32;
        upper as char
    } else {
        first
    }
}

// ---------------------------------------------------------------------------
// Replacing text
// ---------------------------------------------------------------------------

/// `s` with every occurrence of the non-empty pattern `pat` replaced by `rep`, scanning from
/// the left without overlaps, as `str::replace` does.
pub open spec fn replaced(s: Seq<char>, pat: Seq<char>, rep: Seq<char>) -> Seq<char>
    decreases s.len(),
{
    if s.len() == 0 || pat.len() == 0 {
        s
    } else if pat.len() <= s.len() && s.take(pat.len() as int) == pat {
        rep + replaced(s.skip(pat.len() as int), pat, rep)
    } else {
        seq![s[0]] + replaced(s.drop_first(), pat, rep)
    }
}

/// Whether the non-empty pattern `pat` occurs nowhere in `s`.
pub open spec fn lacks(s: Seq<char>, pat: Seq<char>) -> bool {
    forall|i: int| 0 <= i && i + pat.len() <= s.len() ==> #[trigger] s.subrange(i, i + pat.len()) != pat
}

/// Law: replacing works through the text from the left: a text that begins with the pattern
/// gives the replacement followed by the rest replaced; a text in which the pattern does not
/// occur is left unchanged (so the empty text too).
pub proof fn lemma_replace_steps(s: Seq<char>, pat: Seq<char>, rep: Seq<char>)
    requires
        pat.len() > 0,
    ensures
        replaced(pat + s, pat, rep) == rep + replaced(s, pat, rep),
        lacks(s, pat) ==> replaced(s, pat, rep) == s,
    decreases s.len(),
{
    assert((pat + s).take(pat.len() as int) =~= pat);
    assert((pat + s).skip(pat.len() as int) =~= s);
    if lacks(s, pat) && s.len() > 0 {
        let t = s.drop_first();
        assert(lacks(t, pat)) by {
            assert forall|i: int| 0 <= i && i + pat.len() <= t.len() implies #[trigger] t.subrange(i, i + pat.len()) != pat by {
                assert(t.subrange(i, i + pat.len()) =~= s.subrange(i + 1, i + 1 + pat.len()));
            }
        }
        lemma_replace_steps(t, pat, rep);
        if pat.len() <= s.len() {
            assert(s.take(pat.len() as int) =~= s.subrange(0int, 0int + pat.len()));
        }
        assert(seq![s[0]] + t =~= s);
    }
}

/// `s` with every occurrence of `pat` replaced by `rep`, as `s.replace(pat, rep)` gives it.
/// The pattern must not be empty.
pub fn replace_text(s: &str, pat: &str, rep: &str) -> (r: String)
    requires
        pat@.len() > 0,
    ensures
        r@ == replaced(s@, pat@, rep@),
{
    let len = s.unicode_len();
    let plen = pat.unicode_len();
    let pattern = String::from_str(pat);
    let mut out = String::new();
    let mut i: usize = 0;
    assert(s@.skip(0) =~= s@);
    while i < len
        invariant
            len == s@.len(),
            plen == pat@.len(),
            plen > 0,
            pattern@ == pat@,
            i <= len,
            out@ + replaced(s@.skip(i as int), pat@, rep@) =~= replaced(s@, pat@, rep@),
        decreases len - i,
    {
        let ghost rest = s@.skip(i as int);
        let matches = plen <= len - i && String::from_str(s.substring_char(i, i + plen)) == pattern;
        if matches {
            assert(rest.take(plen as int) =~= s@.subrange(i as int, i + plen));
            assert(rest.skip(plen as int) =~= s@.skip(i + plen));
            out.append(rep);
            i = i + plen;
        } else {
            assert(plen <= rest.len() ==> rest.take(plen as int) =~= s@.subrange(i as int, i + plen));
            let piece = s.substring_char(i, i + 1);
            assert(rest.drop_first() =~= s@.skip(i as int + 1));
            assert(piece@ =~= seq![rest[0]]);
            out.append(piece);
            i = i + 1;
        }
    }
    assert(s@.skip(len as int) =~= Seq::<char>::empty());
    out
}

/// `s` with every `.0` removed, as `s.replace(".0", "")` gives it.
pub open spec fn without_point_zero(s: Seq<char>) -> Seq<char> {
    replaced(s, ".0"@, ""@)
}

/// `s` with every `.0` removed, as `s.replace(".0", "")` gives it.
pub fn strip_point_zero(s: &str) -> (r: String)
    ensures
        r@ == without_point_zero(s@),
{
    proof {
        reveal_strlit(".0");
    }
    replace_text(s, ".0", "")
}

} // verus!
