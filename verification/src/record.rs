//! The durable credential record and its on-disk JSON form:
//! `{"access_token":"<token>","expiry_time":<seconds>}`. The encoder
//! and parser are exact inverses, so a credential written after a
//! refresh is read back unchanged at the next startup.

use vstd::prelude::*;

verus! {

/// The durable representation of a credential: the bearer token's
/// bytes and the wall-clock epoch second at which it expires.
pub struct StoredToken {
    pub access_token: Vec<u8>,
    pub expiry_time: u64,
}

/// Token bytes the record can hold: anything but control bytes.
/// Quotes and backslashes are carried escaped.
pub open spec fn token_wf(t: Seq<u8>) -> bool {
    forall|i: int| 0 <= i < t.len() ==> #[trigger] t[i] >= 32
}

/// How one token byte stands in the JSON string: a quote or backslash
/// behind a backslash, anything else as itself.
pub open spec fn escape_byte(b: u8) -> Seq<u8> {
    if b == 34 || b == 92 {
        seq![92u8, b]
    } else {
        seq![b]
    }
}

/// The token as it stands between the quotes of the record.
pub open spec fn escape_token(t: Seq<u8>) -> Seq<u8>
    decreases t.len(),
{
    if t.len() == 0 {
        Seq::empty()
    } else {
        escape_byte(t[0]) + escape_token(t.drop_first())
    }
}

/// Escaping one more byte appends its escape.
proof fn lemma_escape_push(t: Seq<u8>, b: u8)
    ensures
        escape_token(t.push(b)) == escape_token(t) + escape_byte(b),
    decreases t.len(),
{
    if t.len() == 0 {
        assert(t.push(b).drop_first() =~= Seq::<u8>::empty());
        assert(escape_token(Seq::<u8>::empty()) =~= Seq::<u8>::empty());
        assert(t.push(b)[0] == b);
        assert(escape_token(t.push(b)) =~= escape_byte(b) + Seq::<u8>::empty());
        assert(escape_byte(b) + Seq::<u8>::empty() =~= escape_byte(b));
        assert(escape_token(t) + escape_byte(b) =~= escape_byte(b));
    } else {
        assert(t.push(b).drop_first() =~= t.drop_first().push(b));
        lemma_escape_push(t.drop_first(), b);
        assert(escape_byte(t[0]) + (escape_token(t.drop_first()) + escape_byte(b))
            =~= (escape_byte(t[0]) + escape_token(t.drop_first())) + escape_byte(b));
    }
}

/// The decimal digits of `n`, most significant first.
pub open spec fn dec_digits(n: nat) -> Seq<u8>
    decreases n,
{
    if n < 10 {
        seq![(48 + n) as u8]
    } else {
        dec_digits(n / 10).push((48 + n % 10) as u8)
    }
}

/// `{"access_token":"` as bytes.
pub open spec fn record_prefix() -> Seq<u8> {
    seq![123u8, 34, 97, 99, 99, 101, 115, 115, 95, 116, 111, 107, 101, 110, 34, 58, 34]
}

/// `","expiry_time":` as bytes.
pub open spec fn record_mid() -> Seq<u8> {
    seq![34u8, 44, 34, 101, 120, 112, 105, 114, 121, 95, 116, 105, 109, 101, 34, 58]
}

/// The one canonical encoding of a record.
pub open spec fn record_bytes(token: Seq<u8>, expiry: u64) -> Seq<u8> {
    record_prefix() + escape_token(token) + record_mid() + dec_digits(expiry as nat) + seq![125u8]
}

/// Scan the JSON string starting at `i` up to its closing quote,
/// undoing the escapes: the quote's position and the token bytes, or
/// `None` on a control byte, an unknown escape, or a missing quote.
pub open spec fn token_scan(s: Seq<u8>, i: int) -> Option<(int, Seq<u8>)>
    decreases s.len() - i,
{
    if i < 0 || i >= s.len() {
        None
    } else if s[i] == 34 {
        Some((i, Seq::empty()))
    } else if s[i] == 92 {
        if i + 1 < s.len() && (s[i + 1] == 34 || s[i + 1] == 92) {
            match token_scan(s, i + 2) {
                Some(pt) => Some((pt.0, seq![s[i + 1]] + pt.1)),
                None => None,
            }
        } else {
            None
        }
    } else if s[i] < 32 {
        None
    } else {
        match token_scan(s, i + 1) {
            Some(pt) => Some((pt.0, seq![s[i]] + pt.1)),
            None => None,
        }
    }
}

pub open spec fn all_digits(ds: Seq<u8>) -> bool {
    forall|i: int| 0 <= i < ds.len() ==> 48 <= #[trigger] ds[i] <= 57
}

/// The value of a big-endian decimal digit string.
pub open spec fn digits_value(ds: Seq<u8>) -> nat
    decreases ds.len(),
{
    if ds.len() == 0 {
        0
    } else {
        digits_value(ds.drop_last()) * 10 + (ds.last() - 48) as nat
    }
}

/// What the parser accepts: exactly the canonical encodings (prefix,
/// escaped token, the expiry key, a decimal without leading zeros
/// that fits in 64 bits, a closing brace, nothing after it).
pub open spec fn spec_parse_record(s: Seq<u8>) -> Option<(Seq<u8>, u64)> {
    if s.len() < 17 || s.subrange(0, 17) != record_prefix() {
        None
    } else {
        match token_scan(s, 17) {
            Some(pt) => {
                let p = pt.0;
                let t = pt.1;
                if p + 16 < s.len() && s.subrange(p, p + 16) == record_mid() && s.last() == 125 {
                    let digs = s.subrange(p + 16, s.len() - 1);
                    if digs.len() >= 1 && all_digits(digs) && (digs[0] != 48 || digs.len() == 1)
                        && digits_value(digs) <= u64::MAX as nat {
                        Some((t, digits_value(digs) as u64))
                    } else {
                        None
                    }
                } else {
                    None
                }
            },
            None => None,
        }
    }
}

fn record_prefix_bytes() -> (r: Vec<u8>)
    ensures
        r@ == record_prefix(),
{
    let mut r: Vec<u8> = Vec::new();
    r.push(123);
    r.push(34);
    r.push(97);
    r.push(99);
    r.push(99);
    r.push(101);
    r.push(115);
    r.push(115);
    r.push(95);
    r.push(116);
    r.push(111);
    r.push(107);
    r.push(101);
    r.push(110);
    r.push(34);
    r.push(58);
    r.push(34);
    proof {
        assert(r@ =~= record_prefix());
    }
    r
}

fn record_mid_bytes() -> (r: Vec<u8>)
    ensures
        r@ == record_mid(),
{
    let mut r: Vec<u8> = Vec::new();
    r.push(34);
    r.push(44);
    r.push(34);
    r.push(101);
    r.push(120);
    r.push(112);
    r.push(105);
    r.push(114);
    r.push(121);
    r.push(95);
    r.push(116);
    r.push(105);
    r.push(109);
    r.push(101);
    r.push(34);
    r.push(58);
    proof {
        assert(r@ =~= record_mid());
    }
    r
}

fn push_bytes(out: &mut Vec<u8>, src: &Vec<u8>)
    ensures
        final(out)@ == old(out)@ + src@,
{
    let n = src.len();
    let mut i: usize = 0;
    while i < n
        invariant
            n == src@.len(),
            i <= n,
            out@ =~= old(out)@ + src@.take(i as int),
        decreases n - i,
    {
        out.push(src[i]);
        i += 1;
        proof {
            assert(out@ =~= old(out)@ + src@.take(i as int));
        }
    }
    proof {
        assert(old(out)@ + src@.take(n as int) =~= old(out)@ + src@);
    }
}

fn push_decimal(out: &mut Vec<u8>, n: u64)
    ensures
        final(out)@ == old(out)@ + dec_digits(n as nat),
    decreases n,
{
    if n < 10 {
        out.push(48 + (n as u8));
        proof {
            assert(out@ =~= old(out)@ + dec_digits(n as nat));
        }
    } else {
        push_decimal(out, n / 10);
        out.push(48 + ((n % 10) as u8));
        proof {
            assert(out@ =~= old(out)@ + dec_digits(n as nat));
        }
    }
}

/// Whether these token bytes can be persisted.
pub fn token_is_wf(t: &Vec<u8>) -> (b: bool)
    ensures
        b == token_wf(t@),
{
    let n = t.len();
    let mut i: usize = 0;
    while i < n
        invariant
            n == t@.len(),
            i <= n,
            forall|j: int| 0 <= j < i ==> #[trigger] t@[j] >= 32,
        decreases n - i,
    {
        let b = t[i];
        if b < 32 {
            return false;
        }
        i += 1;
    }
    true
}

/// Append the token in its escaped form.
fn push_escaped(out: &mut Vec<u8>, token: &Vec<u8>)
    ensures
        final(out)@ == old(out)@ + escape_token(token@),
{
    let n = token.len();
    let mut i: usize = 0;
    while i < n
        invariant
            n == token@.len(),
            i <= n,
            out@ =~= old(out)@ + escape_token(token@.take(i as int)),
        decreases n - i,
    {
        let b = token[i];
        proof {
            assert(token@.take(i as int + 1) =~= token@.take(i as int).push(token@[i as int]));
            lemma_escape_push(token@.take(i as int), token@[i as int]);
        }
        if b == 34 || b == 92 {
            out.push(92);
            out.push(b);
        } else {
            out.push(b);
        }
        i += 1;
        proof {
            assert(out@ =~= old(out)@ + escape_token(token@.take(i as int)));
        }
    }
    proof {
        assert(token@.take(n as int) =~= token@);
    }
}

/// Encode a record in its canonical JSON form.
pub fn encode_record(token: &Vec<u8>, expiry: u64) -> (r: Vec<u8>)
    ensures
        r@ == record_bytes(token@, expiry),
{
    let mut r = record_prefix_bytes();
    push_escaped(&mut r, token);
    let mid = record_mid_bytes();
    push_bytes(&mut r, &mid);
    push_decimal(&mut r, expiry);
    r.push(125);
    proof {
        assert(r@ =~= record_bytes(token@, expiry));
    }
    r
}

/// Encode a stored credential; a token holding control bytes lies
/// outside the record's grammar and is refused.
pub fn try_encode_record(st: &StoredToken) -> (r: Option<Vec<u8>>)
    ensures
        match r {
            Some(bytes) => token_wf(st.access_token@) && bytes@ == record_bytes(
                st.access_token@,
                st.expiry_time,
            ),
            None => !token_wf(st.access_token@),
        },
{
    if token_is_wf(&st.access_token) {
        Some(encode_record(&st.access_token, st.expiry_time))
    } else {
        None
    }
}

/// What a successful scan means: the region up to the quote is the
/// escaped form of the returned token, and the token is persistable.
proof fn lemma_token_scan_props(s: Seq<u8>, i: int)
    requires
        0 <= i <= s.len(),
    ensures
        match token_scan(s, i) {
            Some(pt) => i <= pt.0 < s.len() && s[pt.0] == 34 && token_wf(pt.1) && s.subrange(
                i,
                pt.0,
            ) == escape_token(pt.1),
            None => true,
        },
    decreases s.len() - i,
{
    if i < s.len() && s[i] != 34 {
        if s[i] == 92 {
            if i + 1 < s.len() && (s[i + 1] == 34 || s[i + 1] == 92) {
                lemma_token_scan_props(s, i + 2);
                match token_scan(s, i + 2) {
                    Some(pt) => {
                        let t = seq![s[i + 1]] + pt.1;
                        assert(t.drop_first() =~= pt.1);
                        assert(s.subrange(i, pt.0) =~= seq![s[i], s[i + 1]] + s.subrange(
                            i + 2,
                            pt.0,
                        ));
                        assert(escape_byte(t[0]) =~= seq![s[i], s[i + 1]]);
                        assert(s.subrange(i, pt.0) =~= escape_token(t));
                    },
                    None => {},
                }
            }
        } else if s[i] >= 32 {
            lemma_token_scan_props(s, i + 1);
            match token_scan(s, i + 1) {
                Some(pt) => {
                    let t = seq![s[i]] + pt.1;
                    assert(t.drop_first() =~= pt.1);
                    assert(s.subrange(i, pt.0) =~= seq![s[i]] + s.subrange(i + 1, pt.0));
                    assert(escape_byte(t[0]) =~= seq![s[i]]);
                    assert(s.subrange(i, pt.0) =~= escape_token(t));
                },
                None => {},
            }
        }
    }
}

/// Scanning the escaped form of a persistable token followed by its
/// closing quote gives back exactly that token.
proof fn lemma_escape_scan(s: Seq<u8>, i: int, t: Seq<u8>)
    requires
        token_wf(t),
        0 <= i,
        i + escape_token(t).len() < s.len(),
        s.subrange(i, i + escape_token(t).len()) == escape_token(t),
        s[i + escape_token(t).len()] == 34,
    ensures
        token_scan(s, i) == Some((i + escape_token(t).len(), t)),
    decreases t.len(),
{
    let e = escape_token(t);
    if t.len() == 0 {
        assert(s[i] == 34);
    } else {
        let head = escape_byte(t[0]);
        let rest = escape_token(t.drop_first());
        assert(e == head + rest);
        assert(forall|k: int|
            0 <= k < e.len() ==> #[trigger] s.subrange(i, i + e.len())[k] == e[k]);
        assert(forall|k: int| 0 <= k < e.len() ==> #[trigger] s[i + k] == e[k]);
        assert(t[0] >= 32);
        if t[0] == 34 || t[0] == 92 {
            assert(s[i + 0] == e[0] && e[0] == 92);
            assert(s[i + 1] == e[1] && e[1] == t[0]);
            assert(s[i] == 92);
            assert forall|k: int| 0 <= k < rest.len() implies s.subrange(
                i + 2,
                i + 2 + rest.len(),
            )[k] == rest[k] by {
                assert(s[i + (2 + k)] == e[2 + k]);
            }
            assert(s.subrange(i + 2, i + 2 + rest.len()) =~= rest);
            lemma_escape_scan(s, i + 2, t.drop_first());
            assert(s[i + e.len()] == 34);
            assert(token_scan(s, i + 2) == Some((i + e.len(), t.drop_first())));
            assert(seq![s[i + 1]] + t.drop_first() =~= t);
        } else {
            assert(s[i + 0] == e[0] && e[0] == t[0]);
            assert(s[i] == t[0]);
            assert(s[i] != 34 && s[i] != 92);
            assert forall|k: int| 0 <= k < rest.len() implies s.subrange(
                i + 1,
                i + 1 + rest.len(),
            )[k] == rest[k] by {
                assert(s[i + (1 + k)] == e[1 + k]);
            }
            assert(s.subrange(i + 1, i + 1 + rest.len()) =~= rest);
            lemma_escape_scan(s, i + 1, t.drop_first());
            assert(s[i + e.len()] == 34);
            assert(token_scan(s, i + 1) == Some((i + e.len(), t.drop_first())));
            assert(seq![s[i]] + t.drop_first() =~= t);
        }
    }
}

/// A digit-string prefix never exceeds the whole string's value.
proof fn lemma_digits_value_prefix(ds: Seq<u8>, k: int)
    requires
        0 <= k <= ds.len(),
    ensures
        digits_value(ds.take(k)) <= digits_value(ds),
    decreases ds.len(),
{
    if k < ds.len() {
        assert(ds.take(k) =~= ds.drop_last().take(k));
        lemma_digits_value_prefix(ds.drop_last(), k);
    } else {
        assert(ds.take(k) =~= ds);
    }
}

/// The digits of `n` are digits, nonempty, and without a leading zero.
proof fn lemma_dec_digits_shape(n: nat)
    ensures
        all_digits(dec_digits(n)),
        dec_digits(n).len() >= 1,
        dec_digits(n)[0] != 48 || dec_digits(n).len() == 1,
        n >= 10 ==> dec_digits(n).len() >= 2,
    decreases n,
{
    if n >= 10 {
        lemma_dec_digits_shape(n / 10);
        vstd::arithmetic::div_mod::lemma_div_non_zero(n as int, 10);
        assert(dec_digits(n)[0] == dec_digits(n / 10)[0]);
        if n / 10 < 10 {
            assert(dec_digits(n / 10)[0] == (48 + n / 10) as u8);
            assert(dec_digits(n / 10)[0] > 48);
        }
    }
}

/// Reading the digits of `n` back gives `n`.
proof fn lemma_dec_digits_value(n: nat)
    ensures
        digits_value(dec_digits(n)) == n,
    decreases n,
{
    if n < 10 {
        let ds = dec_digits(n);
        assert(ds.drop_last() =~= Seq::<u8>::empty());
        assert(digits_value(ds) == digits_value(ds.drop_last()) * 10 + (ds.last() - 48) as nat);
        assert(digits_value(ds.drop_last()) == 0);
        assert(ds.last() == (48 + n) as u8);
    } else {
        lemma_dec_digits_value(n / 10);
        let ds = dec_digits(n);
        assert(ds.drop_last() =~= dec_digits(n / 10));
        assert(ds.last() == (48 + n % 10) as u8);
        assert(digits_value(ds) == (n / 10) * 10 + n % 10);
        vstd::arithmetic::div_mod::lemma_fundamental_div_mod(n as int, 10);
    }
}

/// A nonzero-leading digit string of length `l` is worth at least
/// `10^(l-1)`; enough here: two or more digits mean a value of 10 up.
proof fn lemma_digits_value_lower(ds: Seq<u8>)
    requires
        all_digits(ds),
        ds.len() >= 2,
        ds[0] != 48,
    ensures
        digits_value(ds) >= 10,
    decreases ds.len(),
{
    if ds.len() == 2 {
        assert(ds.drop_last() =~= seq![ds[0]]);
        assert(seq![ds[0]].drop_last() =~= Seq::<u8>::empty());
        assert(digits_value(Seq::<u8>::empty()) == 0);
        assert(digits_value(seq![ds[0]]) == (ds[0] - 48) as nat);
    } else {
        assert(ds.drop_last()[0] == ds[0]);
        lemma_digits_value_lower(ds.drop_last());
    }
}

/// Digit strings without leading zeros are exactly the `dec_digits`
/// encodings of their values.
proof fn lemma_digits_canonical(ds: Seq<u8>)
    requires
        all_digits(ds),
        ds.len() >= 1,
        ds[0] != 48 || ds.len() == 1,
    ensures
        dec_digits(digits_value(ds)) == ds,
    decreases ds.len(),
{
    let v = digits_value(ds);
    if ds.len() == 1 {
        assert(ds.drop_last() =~= Seq::<u8>::empty());
        assert(digits_value(Seq::<u8>::empty()) == 0);
        assert(ds.last() == ds[0]);
        assert(v == (ds[0] - 48) as nat);
        assert(dec_digits(v) =~= ds);
    } else {
        let head = ds.drop_last();
        let d = (ds.last() - 48) as nat;
        assert(head[0] == ds[0]);
        lemma_digits_value_lower(ds);
        lemma_digits_canonical(head);
        vstd::arithmetic::div_mod::lemma_fundamental_div_mod_converse(
            v as int,
            10,
            digits_value(head) as int,
            d as int,
        );
        assert(v / 10 == digits_value(head));
        assert(v % 10 == d);
        assert(dec_digits(v) == dec_digits(v / 10).push((48 + v % 10) as u8));
        assert(dec_digits(v) =~= ds);
    }
}

/// Soundness: whatever the parser accepts is the canonical encoding
/// of what it returns, with a persistable token.
pub proof fn lemma_parse_exact(s: Seq<u8>, t: Seq<u8>, e: u64)
    requires
        spec_parse_record(s) == Some((t, e)),
    ensures
        token_wf(t),
        s == record_bytes(t, e),
{
    lemma_token_scan_props(s, 17);
    let pt = token_scan(s, 17).unwrap();
    let p = pt.0;
    let digs = s.subrange(p + 16, s.len() - 1);
    lemma_digits_canonical(digs);
    assert(s.subrange(17, p) == escape_token(t));
    assert(s =~= record_prefix() + escape_token(t) + record_mid() + dec_digits(e as nat)
        + seq![125u8]);
}

/// Completeness, and the persistence round trip: the canonical
/// encoding of any persistable record parses back to exactly that
/// record.
pub proof fn lemma_record_round_trip(t: Seq<u8>, e: u64)
    requires
        token_wf(t),
    ensures
        spec_parse_record(record_bytes(t, e)) == Some((t, e)),
{
    let s = record_bytes(t, e);
    let esc = escape_token(t);
    let digs = dec_digits(e as nat);
    lemma_dec_digits_shape(e as nat);
    lemma_dec_digits_value(e as nat);
    let p = 17 + esc.len() as int;
    assert(s.subrange(0, 17) =~= record_prefix());
    assert(s.subrange(17, p) =~= esc);
    assert(s[p] == record_mid()[0]);
    lemma_escape_scan(s, 17, t);
    assert(token_scan(s, 17) == Some((p, t)));
    assert(s.subrange(p, p + 16) =~= record_mid());
    assert(s.last() == 125);
    assert(s.subrange(p + 16, s.len() - 1) =~= digs);
}

/// Parse a record from its on-disk bytes. Returns `Some` exactly on
/// canonical encodings; anything else — other JSON layouts included —
/// is treated as an absent record.
pub fn parse_record(s: &Vec<u8>) -> (r: Option<StoredToken>)
    ensures
        match r {
            Some(st) => spec_parse_record(s@) == Some((st.access_token@, st.expiry_time)),
            None => spec_parse_record(s@) is None,
        },
{
    let n = s.len();
    let prefix = record_prefix_bytes();
    if n < 17 {
        return None;
    }
    let mut i: usize = 0;
    while i < 17
        invariant
            i <= 17,
            n == s@.len(),
            17 <= n,
            prefix@ == record_prefix(),
            forall|j: int| 0 <= j < i ==> s@[j] == record_prefix()[j],
        decreases 17 - i,
    {
        if s[i] != prefix[i] {
            proof {
                assert(s@.subrange(0, 17) != record_prefix());
            }
            return None;
        }
        i += 1;
    }
    proof {
        assert(s@.subrange(0, 17) =~= record_prefix());
    }
    // scan the token up to its closing quote, undoing escapes
    let mut k: usize = 17;
    let mut token: Vec<u8> = Vec::new();
    proof {
        assert(token@ =~= Seq::<u8>::empty());
        match token_scan(s@, 17) {
            Some(pt) => {
                assert(token@ + pt.1 =~= pt.1);
            },
            None => {},
        }
    }
    loop
        invariant
            17 <= k <= n,
            n == s@.len(),
            s@.subrange(0, 17) == record_prefix(),
            (match token_scan(s@, k as int) {
                Some(pt) => token_scan(s@, 17) == Some((pt.0, token@ + pt.1)),
                None => token_scan(s@, 17) is None,
            }),
        ensures
            17 <= k < n,
            s@[k as int] == 34,
            token_scan(s@, 17) == Some((k as int, token@)),
        decreases n - k,
    {
        if k >= n {
            return None;
        }
        let b = s[k];
        if b == 34 {
            proof {
                assert(token_scan(s@, k as int) == Some((k as int, Seq::<u8>::empty())));
                assert(token@ + Seq::<u8>::empty() =~= token@);
            }
            break ;
        }
        let ghost t0 = token@;
        if b == 92 {
            if k + 1 < n {
                let esc = s[k + 1];
                if esc == 34 || esc == 92 {
                    token.push(esc);
                    k += 2;
                    proof {
                        assert(token@ =~= t0 + seq![esc]);
                        match token_scan(s@, k as int) {
                            Some(pt) => {
                                assert((t0 + seq![esc]) + pt.1 =~= t0 + (seq![esc] + pt.1));
                            },
                            None => {},
                        }
                    }
                } else {
                    return None;
                }
            } else {
                return None;
            }
        } else if b < 32 {
            return None;
        } else {
            token.push(b);
            k += 1;
            proof {
                assert(token@ =~= t0 + seq![b]);
                match token_scan(s@, k as int) {
                    Some(pt) => {
                        assert((t0 + seq![b]) + pt.1 =~= t0 + (seq![b] + pt.1));
                    },
                    None => {},
                }
            }
        }
    }
    let p = k;
    // the `","expiry_time":` key must follow
    if n - p < 18 {
        // too short for the key, one digit, and the closing brace
        proof {
            if (p + 16) < n && s@.subrange(p as int, p as int + 16) == record_mid() {
                let digs = s@.subrange(p as int + 16, n as int - 1);
                assert(digs.len() < 1);
            }
        }
        return None;
    }
    let mid = record_mid_bytes();
    let mut m: usize = 0;
    while m < 16
        invariant
            m <= 16,
            n == s@.len(),
            p + 18 <= n,
            17 <= p,
            mid@ == record_mid(),
            s@.subrange(0, 17) == record_prefix(),
            token_scan(s@, 17) == Some((p as int, token@)),
            forall|j: int| 0 <= j < m ==> s@[p + j] == record_mid()[j],
        decreases 16 - m,
    {
        if s[p + m] != mid[m] {
            proof {
                assert(s@.subrange(p as int, p as int + 16)[m as int] != record_mid()[m as int]);
            }
            return None;
        }
        m += 1;
    }
    proof {
        assert(s@.subrange(p as int, p as int + 16) =~= record_mid());
    }
    if s[n - 1] != 125 {
        return None;
    }
    // the decimal expiry, without leading zeros, fitting in 64 bits
    let ghost digs = s@.subrange(p as int + 16, n as int - 1);
    let digits_start = p + 16;
    let digits_end = n - 1;
    if s[digits_start] == 48 && digits_end - digits_start > 1 {
        proof {
            assert(digs[0] == 48 && digs.len() > 1);
        }
        return None;
    }
    let mut value: u64 = 0;
    let mut d: usize = digits_start;
    while d < digits_end
        invariant
            digits_start <= d <= digits_end,
            digits_end == n - 1,
            digits_start == p + 16,
            p + 18 <= n,
            17 <= p,
            n == s@.len(),
            s@.subrange(0, 17) == record_prefix(),
            token_scan(s@, 17) == Some((p as int, token@)),
            s@.subrange(p as int, p as int + 16) == record_mid(),
            s@[n as int - 1] == 125,
            digs == s@.subrange(p as int + 16, n as int - 1),
            digs[0] != 48 || digs.len() == 1,
            forall|j: int| 0 <= j < d - digits_start ==> 48 <= #[trigger] digs[j] <= 57,
            value == digits_value(digs.take(d - digits_start)),
        decreases digits_end - d,
    {
        let b = s[d];
        if b < 48 || b > 57 {
            proof {
                assert(digs[d - digits_start] == b);
                assert(!all_digits(digs));
            }
            return None;
        }
        let digit = (b - 48) as u64;
        let next = match value.checked_mul(10) {
            Some(v10) => v10.checked_add(digit),
            None => None,
        };
        match next {
            Some(v) => {
                value = v;
                d += 1;
                proof {
                    assert(digs.take(d - digits_start).drop_last() =~= digs.take(
                        d - digits_start - 1,
                    ));
                    assert(digs.take(d - digits_start).last() == b);
                }
            },
            None => {
                proof {
                    let kk = d - digits_start + 1;
                    assert(digs.take(kk).drop_last() =~= digs.take(kk - 1));
                    assert(digs.take(kk).last() == b);
                    assert(digits_value(digs.take(kk)) > u64::MAX as nat);
                    lemma_digits_value_prefix(digs, kk);
                    if all_digits(digs) {
                        assert(digits_value(digs) > u64::MAX as nat);
                    }
                }
                return None;
            },
        }
    }
    proof {
        assert(digs.take(digits_end - digits_start) =~= digs);
        assert(all_digits(digs));
    }
    Some(StoredToken { access_token: token, expiry_time: value })
}

} // verus!
