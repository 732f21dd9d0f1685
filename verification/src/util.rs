//! Small shared utilities: the duration-text grammar the moderation
//! commands accept, the relative-timestamp formatter, and the parser
//! of human-friendly durations used by reminders.

use vstd::prelude::*;

verus! {

/// Upper bound of one parsed duration component in seconds: at most
/// nine digits, at the largest unit.
pub const MAX_COMPONENT_SECS: i64 = 999_999_999 * 31_557_600;

pub open spec fn is_digit_char(c: char) -> bool {
    48 <= c as int <= 57
}

pub open spec fn is_space_char(c: char) -> bool {
    c == ' ' || c == '\t' || c == '\n' || c == '\r'
}

/// The first index at or after `i` holding a non-digit (or the end).
pub open spec fn digits_end(s: Seq<char>, i: int) -> int
    decreases s.len() - i,
{
    if i < 0 || i >= s.len() {
        i
    } else if is_digit_char(s[i]) {
        digits_end(s, i + 1)
    } else {
        i
    }
}

/// The value of the decimal digits `s[i..j]`.
pub open spec fn digits_char_value(s: Seq<char>, i: int, j: int) -> int
    decreases j - i,
{
    if j <= i {
        0
    } else {
        digits_char_value(s, i, j - 1) * 10 + (s[j - 1] as int - 48)
    }
}

/// Whether `pat` occurs in `s` starting at `i`.
pub open spec fn matches_at(s: Seq<char>, i: int, pat: Seq<char>) -> bool {
    0 <= i && i + pat.len() <= s.len() && (forall|k: int|
        0 <= k < pat.len() ==> #[trigger] s[i + k] == pat[k])
}

/// One duration component at `i`: one to nine digits, optionally one
/// whitespace character, then the unit word. Yields the position after
/// the unit and the digits' value.
pub open spec fn component_at(s: Seq<char>, i: int, pat: Seq<char>) -> Option<(int, int)> {
    let j = digits_end(s, i);
    if j <= i || j - i > 9 {
        None
    } else {
        let v = digits_char_value(s, i, j);
        if matches_at(s, j, pat) {
            Some((j + pat.len() as int, v))
        } else if j < s.len() && is_space_char(s[j]) && matches_at(s, j + 1, pat) {
            Some((j + 1 + pat.len() as int, v))
        } else {
            None
        }
    }
}

/// The unit words, largest first.
pub open spec fn unit_pat(u: int) -> Seq<char> {
    if u == 0 {
        seq!['y']
    } else if u == 1 {
        seq!['m', 'o', 'n', 't', 'h']
    } else if u == 2 {
        seq!['w']
    } else if u == 3 {
        seq!['d']
    } else if u == 4 {
        seq!['h']
    } else if u == 5 {
        seq!['m']
    } else {
        seq!['s']
    }
}

/// Seconds per unit: Julian year, 30-day month, week, day, hour,
/// minute, second.
pub open spec fn unit_mult(u: int) -> int {
    if u == 0 {
        31_557_600
    } else if u == 1 {
        2_592_000
    } else if u == 2 {
        604_800
    } else if u == 3 {
        86_400
    } else if u == 4 {
        3_600
    } else if u == 5 {
        60
    } else {
        1
    }
}

/// Parse the units from `u` on, in order, each one optional, summing
/// value times unit seconds. Text the grammar does not cover is
/// ignored; a text that starts with no component at all is worth zero.
pub open spec fn spec_parse_units(s: Seq<char>, i: int, u: int) -> int
    decreases 7 - u,
{
    if u < 0 || u >= 7 {
        0
    } else {
        match component_at(s, i, unit_pat(u)) {
            Some(jv) => jv.1 * unit_mult(u) + spec_parse_units(s, jv.0, u + 1),
            None => spec_parse_units(s, i, u + 1),
        }
    }
}

/// What a duration text is worth in seconds.
pub open spec fn spec_string_to_sec(s: Seq<char>) -> int {
    spec_parse_units(s, 0, 0)
}

pub open spec fn pow10(k: nat) -> nat
    decreases k,
{
    if k == 0 {
        1
    } else {
        10 * pow10((k - 1) as nat)
    }
}

proof fn lemma_digits_value_bound(s: Seq<char>, i: int, j: int)
    requires
        0 <= i <= j <= s.len(),
        forall|k: int| i <= k < j ==> is_digit_char(#[trigger] s[k]),
    ensures
        0 <= digits_char_value(s, i, j) < pow10((j - i) as nat),
    decreases j - i,
{
    if j > i {
        lemma_digits_value_bound(s, i, j - 1);
    }
}

proof fn lemma_digits_end_props(s: Seq<char>, i: int)
    requires
        0 <= i <= s.len(),
    ensures
        i <= digits_end(s, i) <= s.len(),
        forall|k: int| i <= k < digits_end(s, i) ==> is_digit_char(#[trigger] s[k]),
        digits_end(s, i) == s.len() || !is_digit_char(s[digits_end(s, i)]),
    decreases s.len() - i,
{
    if i < s.len() && is_digit_char(s[i]) {
        lemma_digits_end_props(s, i + 1);
    }
}

proof fn lemma_digits_end_at(s: Seq<char>, i: int, j: int)
    requires
        0 <= i <= j <= s.len(),
        forall|k: int| i <= k < j ==> is_digit_char(#[trigger] s[k]),
        j == s.len() || !is_digit_char(s[j]),
    ensures
        digits_end(s, i) == j,
    decreases j - i,
{
    if i < j {
        lemma_digits_end_at(s, i + 1, j);
    }
}

/// Whether `pat` occurs in `s` at position `j`.
pub(crate) fn matches_pat(s: &str, j: usize, len: usize, pat: &str) -> (b: bool)
    requires
        len == s@.len(),
    ensures
        b == matches_at(s@, j as int, pat@),
{
    let plen = pat.unicode_len();
    if j > len || plen > len - j {
        return false;
    }
    let mut k: usize = 0;
    while k < plen
        invariant
            k <= plen,
            plen == pat@.len(),
            len == s@.len(),
            j + plen <= len,
            forall|t: int| 0 <= t < k ==> #[trigger] s@[j + t] == pat@[t],
        decreases plen - k,
    {
        if s.get_char(j + k) != pat.get_char(k) {
            return false;
        }
        k += 1;
    }
    true
}

fn char_is_digit(c: char) -> (b: bool)
    ensures
        b == is_digit_char(c),
{
    let code = c as u32;
    48 <= code && code <= 57
}

/// Scan the digit run starting at `i`.
fn scan_digits(s: &str, i: usize, len: usize) -> (j: usize)
    requires
        len == s@.len(),
        i <= len,
    ensures
        j == digits_end(s@, i as int),
        i <= j <= len,
{
    let mut k: usize = i;
    while k < len && char_is_digit(s.get_char(k))
        invariant
            i <= k <= len,
            len == s@.len(),
            forall|t: int| i <= t < k ==> is_digit_char(#[trigger] s@[t]),
        decreases len - k,
    {
        k += 1;
    }
    proof {
        lemma_digits_end_at(s@, i as int, k as int);
    }
    k
}

/// Read the decimal run starting at `i`: its end and its value, or
/// `None` when there is no digit or the run is longer than nine.
pub(crate) fn read_number(s: &str, i: usize, len: usize) -> (r: Option<(usize, u32)>)
    requires
        len == s@.len(),
        i <= len,
    ensures
        match r {
            Some(jv) => jv.0 == digits_end(s@, i as int) && i < jv.0 <= len && jv.0 - i <= 9
                && jv.1 == digits_char_value(s@, i as int, jv.0 as int) && jv.1 < 1_000_000_000,
            None => digits_end(s@, i as int) == i || digits_end(s@, i as int) - i > 9,
        },
{
    let j = scan_digits(s, i, len);
    if j == i || j - i > 9 {
        return None;
    }
    proof {
        lemma_digits_end_props(s@, i as int);
        lemma_digits_value_bound(s@, i as int, j as int);
    }
    let mut value: u32 = 0;
    let mut k: usize = i;
    while k < j
        invariant
            i <= k <= j,
            j - i <= 9,
            j <= len,
            len == s@.len(),
            forall|t: int| i <= t < j ==> is_digit_char(#[trigger] s@[t]),
            value == digits_char_value(s@, i as int, k as int),
            value < pow10((k - i) as nat),
        decreases j - k,
    {
        let c = s.get_char(k);
        let d = (c as u32) - 48;
        proof {
            lemma_pow10_values();
            lemma_pow10_monotone((k - i) as nat, 8);
        }
        value = value * 10 + d;
        k += 1;
    }
    proof {
        lemma_pow10_values();
        lemma_pow10_monotone((j - i) as nat, 9);
    }
    Some((j, value))
}

/// Parse one component at `i`: digits, optional whitespace, the unit.
fn parse_component(s: &str, i: usize, len: usize, pat: &str) -> (r: Option<(usize, u32)>)
    requires
        len == s@.len(),
        i <= len,
        1 <= pat@.len() <= 5,
    ensures
        match r {
            Some(jv) => component_at(s@, i as int, pat@) == Some((jv.0 as int, jv.1 as int))
                && jv.0 <= len && jv.1 < 1_000_000_000,
            None => component_at(s@, i as int, pat@) is None,
        },
{
    let (j, value) = match read_number(s, i, len) {
        Some(jv) => jv,
        None => {
            return None;
        },
    };
    if matches_pat(s, j, len, pat) {
        let plen = pat.unicode_len();
        Some((j + plen, value))
    } else if j < len && {
        let c = s.get_char(j);
        c == ' ' || c == '\t' || c == '\n' || c == '\r'
    } && matches_pat(s, j + 1, len, pat) {
        let plen = pat.unicode_len();
        Some((j + 1 + plen, value))
    } else {
        None
    }
}

proof fn lemma_pow10_values()
    ensures
        pow10(0) == 1,
        pow10(1) == 10,
        pow10(8) == 100_000_000,
        pow10(9) == 1_000_000_000,
{
    reveal_with_fuel(pow10, 11);
}

proof fn lemma_pow10_monotone(a: nat, b: nat)
    requires
        a <= b,
    ensures
        pow10(a) <= pow10(b),
    decreases b,
{
    if a < b && b > 0 {
        lemma_pow10_monotone(a, (b - 1) as nat);
    }
}

fn parse_units(s: &str, i: usize, len: usize, u: usize) -> (r: i64)
    requires
        len == s@.len(),
        i <= len,
        u <= 7,
    ensures
        r == spec_parse_units(s@, i as int, u as int),
        0 <= r <= (7 - u) * MAX_COMPONENT_SECS,
    decreases 7 - u,
{
    if u >= 7 {
        return 0;
    }
    let pat: &str = if u == 0 {
        "y"
    } else if u == 1 {
        "month"
    } else if u == 2 {
        "w"
    } else if u == 3 {
        "d"
    } else if u == 4 {
        "h"
    } else if u == 5 {
        "m"
    } else {
        "s"
    };
    proof {
        reveal_strlit("y");
        reveal_strlit("month");
        reveal_strlit("w");
        reveal_strlit("d");
        reveal_strlit("h");
        reveal_strlit("m");
        reveal_strlit("s");
        assert(pat@ =~= unit_pat(u as int));
    }
    let mult: i64 = if u == 0 {
        31_557_600
    } else if u == 1 {
        2_592_000
    } else if u == 2 {
        604_800
    } else if u == 3 {
        86_400
    } else if u == 4 {
        3_600
    } else if u == 5 {
        60
    } else {
        1
    };
    match parse_component(s, i, len, pat) {
        Some(jv) => {
            let (j, v) = jv;
            let rest = parse_units(s, j, len, u + 1);
            proof {
                assert((v as i64) * mult <= MAX_COMPONENT_SECS && (v as i64) * mult >= 0)
                    by (nonlinear_arith)
                    requires
                        0 <= v < 1_000_000_000,
                        1 <= mult <= 31_557_600,
                        MAX_COMPONENT_SECS == 999_999_999 * 31_557_600,
                ;
            }
            (v as i64) * mult + rest
        },
        None => parse_units(s, i, len, u + 1),
    }
}

/// Seconds a duration text is worth: components in fixed order from
/// years down to seconds, each digits plus unit word, unknown text
/// worth nothing.
pub fn string_to_sec(raw_text: &str) -> (r: i64)
    ensures
        r == spec_string_to_sec(raw_text@),
{
    let len = raw_text.unicode_len();
    parse_units(raw_text, 0, len, 0)
}

/// The character of one decimal digit.
pub open spec fn digit_char(d: int) -> char {
    if d == 0 {
        '0'
    } else if d == 1 {
        '1'
    } else if d == 2 {
        '2'
    } else if d == 3 {
        '3'
    } else if d == 4 {
        '4'
    } else if d == 5 {
        '5'
    } else if d == 6 {
        '6'
    } else if d == 7 {
        '7'
    } else if d == 8 {
        '8'
    } else {
        '9'
    }
}

/// The decimal text of `n`, most significant digit first.
pub open spec fn dec_chars(n: nat) -> Seq<char>
    decreases n,
{
    if n < 10 {
        seq![digit_char(n as int)]
    } else {
        dec_chars(n / 10).push(digit_char((n % 10) as int))
    }
}

fn digit_str(d: u64) -> (r: &'static str)
    requires
        d < 10,
    ensures
        r@ == seq![digit_char(d as int)],
{
    let r: &'static str = if d == 0 {
        "0"
    } else if d == 1 {
        "1"
    } else if d == 2 {
        "2"
    } else if d == 3 {
        "3"
    } else if d == 4 {
        "4"
    } else if d == 5 {
        "5"
    } else if d == 6 {
        "6"
    } else if d == 7 {
        "7"
    } else if d == 8 {
        "8"
    } else {
        "9"
    };
    proof {
        reveal_strlit("0");
        reveal_strlit("1");
        reveal_strlit("2");
        reveal_strlit("3");
        reveal_strlit("4");
        reveal_strlit("5");
        reveal_strlit("6");
        reveal_strlit("7");
        reveal_strlit("8");
        reveal_strlit("9");
        assert(r@ =~= seq![digit_char(d as int)]);
    }
    r
}

/// The decimal text of `n`.
pub fn u64_string(n: u64) -> (r: String)
    ensures
        r@ == dec_chars(n as nat),
    decreases n,
{
    if n < 10 {
        let r = String::from_str(digit_str(n));
        r
    } else {
        let head = u64_string(n / 10);
        let r = head.concat(digit_str(n % 10));
        proof {
            assert(r@ =~= dec_chars(n as nat));
        }
        r
    }
}

proof fn lemma_digit_char_val(d: int)
    requires
        0 <= d <= 9,
    ensures
        digit_char(d) as int == 48 + d,
        is_digit_char(digit_char(d)),
{
}

/// The digits of `n` read back as a number: `dec_chars` and
/// `digits_char_value` are inverses.
proof fn lemma_dec_chars_value(s: Seq<char>, n: nat, p: int)
    requires
        p == dec_chars(n).len(),
        p <= s.len(),
        forall|k: int| 0 <= k < p ==> s[k] == dec_chars(n)[k],
    ensures
        digits_char_value(s, 0, p) == n,
    decreases n,
{
    if n < 10 {
        lemma_digit_char_val(n as int);
        assert(digits_char_value(s, 0, 0) == 0);
        assert(s[0] == digit_char(n as int));
        assert(digits_char_value(s, 0, 1) == s[0] as int - 48);
    } else {
        let head = dec_chars(n / 10);
        assert(forall|k: int| 0 <= k < head.len() ==> dec_chars(n)[k] == head[k]);
        lemma_dec_chars_value(s, n / 10, head.len() as int);
        lemma_digit_char_val((n % 10) as int);
        assert(s[p - 1] == digit_char((n % 10) as int));
        assert(digits_char_value(s, 0, p) == digits_char_value(s, 0, p - 1) * 10 + (s[p - 1] as int
            - 48));
        vstd::arithmetic::div_mod::lemma_fundamental_div_mod(n as int, 10);
    }
}

/// Every character `dec_chars` writes is a digit.
proof fn lemma_dec_chars_digits(n: nat)
    ensures
        dec_chars(n).len() >= 1,
        forall|k: int| 0 <= k < dec_chars(n).len() ==> is_digit_char(#[trigger] dec_chars(n)[k]),
    decreases n,
{
    if n < 10 {
        lemma_digit_char_val(n as int);
    } else {
        lemma_dec_chars_digits(n / 10);
        lemma_digit_char_val((n % 10) as int);
    }
}

/// Numbers below `10^k` take at most `k` digits.
proof fn lemma_dec_chars_len(n: nat, k: nat)
    requires
        k >= 1,
        n < pow10(k),
    ensures
        dec_chars(n).len() <= k,
    decreases n,
{
    if n >= 10 {
        assert(pow10(k) == 10 * pow10((k - 1) as nat));
        assert(n / 10 < pow10((k - 1) as nat)) by (nonlinear_arith)
            requires
                n < 10 * pow10((k - 1) as nat),
                n >= 10,
        ;
        assert(k >= 2) by {
            if k == 1 {
                reveal_with_fuel(pow10, 2);
            }
        }
        lemma_dec_chars_len(n / 10, (k - 1) as nat);
    }
}

pub open spec fn reminder_tag() -> Seq<char> {
    seq!['r', 'e', 'm', 'i', 'n', 'd', 'e', 'r']
}

/// The first position at or after `p` where the reminder tag occurs.
pub open spec fn tag_first(s: Seq<char>, p: int) -> Option<int>
    decreases s.len() - p,
{
    if p < 0 || p >= s.len() {
        None
    } else if matches_at(s, p, reminder_tag()) {
        Some(p)
    } else {
        tag_first(s, p + 1)
    }
}

proof fn lemma_tag_first_from(s: Seq<char>, a: int, p: int)
    requires
        0 <= a <= p < s.len(),
        matches_at(s, p, reminder_tag()),
        forall|q: int| a <= q < p ==> !matches_at(s, q, reminder_tag()),
    ensures
        tag_first(s, a) == Some(p),
    decreases p - a,
{
    if a < p {
        lemma_tag_first_from(s, a + 1, p);
    }
}

proof fn lemma_tag_first_none(s: Seq<char>, a: int)
    requires
        0 <= a <= s.len(),
        forall|q: int| a <= q < s.len() ==> !matches_at(s, q, reminder_tag()),
    ensures
        tag_first(s, a) is None,
    decreases s.len() - a,
{
    if a < s.len() {
        lemma_tag_first_none(s, a + 1);
    }
}

/// The custom id a reminder's delete button carries.
pub open spec fn spec_button_id(id: u32, guild_id: u64) -> Seq<char> {
    dec_chars(id as nat) + reminder_tag() + dec_chars(guild_id as nat)
}

/// What parsing a button's custom id yields: the digits before the
/// first reminder tag (the whole text when there is none), read as a
/// number — or nothing when that prefix is not one to nine digits.
pub open spec fn spec_parse_button(s: Seq<char>) -> Option<u32> {
    let p = match tag_first(s, 0) {
        Some(q) => q,
        None => s.len() as int,
    };
    if 1 <= p <= 9 && digits_end(s, 0) == p {
        Some(digits_char_value(s, 0, p) as u32)
    } else {
        None
    }
}

/// Build the custom id for a reminder's delete button.
pub fn reminder_button_id(id: u32, guild_id: u64) -> (r: String)
    ensures
        r@ == spec_button_id(id, guild_id),
{
    let head = u64_string(id as u64);
    let out = head.concat("reminder");
    let tail = u64_string(guild_id);
    let out = out.concat(tail.as_str());
    proof {
        reveal_strlit("reminder");
        assert(out@ =~= spec_button_id(id, guild_id));
    }
    out
}

/// Read the reminder id back out of a button's custom id.
pub fn parse_reminder_button(s: &str) -> (r: Option<u32>)
    ensures
        r == spec_parse_button(s@),
{
    proof {
        reveal_strlit("reminder");
        assert("reminder"@ =~= reminder_tag());
    }
    let len = s.unicode_len();
    let mut q: usize = 0;
    while q < len
        invariant
            q <= len,
            len == s@.len(),
            "reminder"@ == reminder_tag(),
            forall|t: int| 0 <= t < q ==> !matches_at(s@, t, reminder_tag()),
        ensures
            q <= len,
            len == s@.len(),
            forall|t: int| 0 <= t < q ==> !matches_at(s@, t, reminder_tag()),
            q < len ==> matches_at(s@, q as int, reminder_tag()),
        decreases len - q,
    {
        if matches_pat(s, q, len, "reminder") {
            break ;
        }
        q += 1;
    }
    proof {
        if q < len {
            lemma_tag_first_from(s@, 0, q as int);
        } else {
            lemma_tag_first_none(s@, 0);
        }
    }
    let p = q;
    match read_number(s, 0, len) {
        Some(jv) => {
            let (j, v) = jv;
            if j == p && p >= 1 && p <= 9 {
                Some(v)
            } else {
                None
            }
        },
        None => {
            proof {
                lemma_digits_end_props(s@, 0);
            }
            None
        },
    }
}

/// Round trip of the button protocol: the id a button was built for is
/// exactly what parsing its custom id yields.
pub proof fn lemma_button_round_trip(id: u32, guild_id: u64)
    requires
        1 <= id < 1_000_000_000,
    ensures
        spec_parse_button(spec_button_id(id, guild_id)) == Some(id),
{
    let s = spec_button_id(id, guild_id);
    let head = dec_chars(id as nat);
    let p = head.len() as int;
    lemma_dec_chars_digits(id as nat);
    lemma_dec_chars_digits(guild_id as nat);
    lemma_pow10_values();
    lemma_dec_chars_len(id as nat, 9);
    assert(forall|k: int| 0 <= k < p ==> #[trigger] s[k] == head[k]);
    assert(s[p + 0] == reminder_tag()[0]);
    assert(matches_at(s, p, reminder_tag())) by {
        assert(forall|k: int|
            0 <= k < reminder_tag().len() ==> #[trigger] s[p + k] == reminder_tag()[k]);
    }
    assert forall|q: int| 0 <= q < p implies !matches_at(s, q, reminder_tag()) by {
        if matches_at(s, q, reminder_tag()) {
            assert(s[q + 0] == reminder_tag()[0]);
            assert(is_digit_char(s[q]));
        }
    }
    lemma_tag_first_from(s, 0, p);
    assert(!is_digit_char(s[p]));
    lemma_digits_end_at(s, 0, p);
    lemma_dec_chars_value(s, id as nat, p);
}

/// The message a starred repost carries: the starred content, then a
/// link back to where it was said.
pub fn starboard_content(content: &str, link: &str) -> (r: String)
    ensures
        r@ == content@ + "\n\nOriginal Message: "@ + link@,
{
    let out = String::from_str(content);
    let out = out.concat("\n\nOriginal Message: ");
    let out = out.concat(link);
    out
}

/// Shortcuts the command layer shares.
pub struct Valeriyya;

impl Valeriyya {
    /// Wrap an epoch-seconds text as the chat platform's relative
    /// timestamp: `<t:TIME:R>`.
    pub fn time_format(time: String) -> (r: String)
        ensures
            r@ == "<t:"@ + time@ + ":R>"@,
    {
        let out = String::from_str("<t:");
        let out = out.concat(time.as_str());
        let out = out.concat(":R>");
        out
    }

    /// Seconds a duration text is worth.
    pub fn ms(raw_text: &str) -> (r: i64)
        ensures
            r == spec_string_to_sec(raw_text@),
    {
        string_to_sec(raw_text)
    }
}

/// The text of one reminder-listing line.
pub open spec fn spec_reminder_line(r: crate::guild::Reminder) -> Seq<char> {
    "ID: "@ + dec_chars(r.id as nat) + " - Message: "@ + r.message@ + " - Time: <t:"@ + dec_chars(
        r.datetime as nat,
    ) + ":R>\n"@
}

/// The lines of a reminder listing, in order.
pub open spec fn spec_reminder_lines(rs: Seq<crate::guild::Reminder>) -> Seq<char>
    decreases rs.len(),
{
    if rs.len() == 0 {
        Seq::empty()
    } else {
        spec_reminder_lines(rs.drop_last()) + spec_reminder_line(rs.last())
    }
}

/// One line of the reminder listing: id, message, and the due time as
/// a relative timestamp.
pub fn reminder_line(r: &crate::guild::Reminder) -> (out: String)
    requires
        r.datetime >= 0,
    ensures
        out@ == spec_reminder_line(*r),
{
    let out = String::from_str("ID: ");
    let ids = u64_string(r.id as u64);
    let out = out.concat(ids.as_str());
    let out = out.concat(" - Message: ");
    let out = out.concat(r.message.as_str());
    let out = out.concat(" - Time: <t:");
    let due = u64_string(r.datetime as u64);
    let out = out.concat(due.as_str());
    let out = out.concat(":R>\n");
    out
}

/// The whole reminder-listing response, as the list command sends it.
pub fn reminders_response(rs: &Vec<crate::guild::Reminder>) -> (out: String)
    requires
        forall|i: int| 0 <= i < rs@.len() ==> (#[trigger] rs@[i]).datetime >= 0,
    ensures
        out@ == "Here are your reminders:\n"@ + spec_reminder_lines(rs@),
{
    let mut out = String::from_str("Here are your reminders:\n");
    let n = rs.len();
    let mut i: usize = 0;
    while i < n
        invariant
            n == rs@.len(),
            i <= n,
            forall|j: int| 0 <= j < n ==> (#[trigger] rs@[j]).datetime >= 0,
            out@ == "Here are your reminders:\n"@ + spec_reminder_lines(rs@.take(i as int)),
        decreases n - i,
    {
        let line = reminder_line(&rs[i]);
        out = out.concat(line.as_str());
        i += 1;
        proof {
            assert(rs@.take(i as int).drop_last() =~= rs@.take(i as int - 1));
            assert(rs@.take(i as int).last() == rs@[i as int - 1]);
            assert(out@ =~= "Here are your reminders:\n"@ + spec_reminder_lines(
                rs@.take(i as int),
            ));
        }
    }
    proof {
        assert(rs@.take(n as int) =~= rs@);
    }
    out
}

} // verus!
