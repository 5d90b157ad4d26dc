//! Textual representation of coordinate values: rendering as
//! `"(x, y)"` and the inverse parser.
//!
//! The parser trims surrounding whitespace, requires the trimmed input
//! to be enclosed in parentheses, and scans left to right for the first
//! comma whose prefix and whitespace-trimmed suffix both parse as
//! components. Whitespace here is the ASCII whitespace set.

use crate::Pos;
use vstd::arithmetic::div_mod::{lemma_fundamental_div_mod, lemma_mod_bound};
use vstd::prelude::*;
use vstd::string::*;

verus! {

/// The decimal digit character for `d`, which is meaningful for
/// 0 through 9.
pub open spec fn digit_char(d: int) -> char {
    if d == 0 {
        '0'
    } else if d == 1 {
        '1'
    } else if d == 2 {
        '2'
    } else if d == 3 {
        '3'
    } else if d == 4 {
        '4'
    } else if d == 5 {
        '5'
    } else if d == 6 {
        '6'
    } else if d == 7 {
        '7'
    } else if d == 8 {
        '8'
    } else {
        '9'
    }
}

/// Whether `c` is a decimal digit character.
pub open spec fn is_digit(c: char) -> bool {
    c == '0' || c == '1' || c == '2' || c == '3' || c == '4' || c == '5' || c == '6' || c == '7'
        || c == '8' || c == '9'
}

/// The value of the decimal digit character `c`; meaningful when
/// `is_digit(c)` holds.
pub open spec fn digit_val(c: char) -> int {
    if c == '0' {
        0
    } else if c == '1' {
        1
    } else if c == '2' {
        2
    } else if c == '3' {
        3
    } else if c == '4' {
        4
    } else if c == '5' {
        5
    } else if c == '6' {
        6
    } else if c == '7' {
        7
    } else if c == '8' {
        8
    } else {
        9
    }
}

/// Whether `c` is ASCII whitespace.
pub open spec fn is_space(c: char) -> bool {
    c == ' ' || c == '\t' || c == '\n' || c == '\r' || c == '\u{0B}' || c == '\u{0C}'
}

/// The decimal digits of `n`, most significant first.
pub open spec fn dec_digits(n: nat) -> Seq<char>
    decreases n,
{
    if n < 10 {
        seq![digit_char(n as int)]
    } else {
        dec_digits(n / 10) + seq![digit_char((n % 10) as int)]
    }
}

/// The canonical decimal rendering of `v`: a minus sign for negative
/// values, then the digits of the magnitude.
pub open spec fn dec_repr(v: int) -> Seq<char> {
    if v < 0 {
        seq!['-'] + dec_digits((-v) as nat)
    } else {
        dec_digits(v as nat)
    }
}

/// Whether every character of `s` is a decimal digit.
pub open spec fn all_digits(s: Seq<char>) -> bool {
    forall|i: int| 0 <= i < s.len() ==> is_digit(#[trigger] s[i])
}

/// The value of a sequence of decimal digit characters, most
/// significant first.
pub open spec fn digits_val(s: Seq<char>) -> int
    decreases s.len(),
{
    if s.len() == 0 {
        0
    } else {
        digits_val(s.drop_last()) * 10 + digit_val(s.last())
    }
}

/// `s` without its leading whitespace.
pub open spec fn spec_ltrim(s: Seq<char>) -> Seq<char>
    decreases s.len(),
{
    if s.len() > 0 && is_space(s[0]) {
        spec_ltrim(s.subrange(1, s.len() as int))
    } else {
        s
    }
}

/// `s` without its trailing whitespace.
pub open spec fn spec_rtrim(s: Seq<char>) -> Seq<char>
    decreases s.len(),
{
    if s.len() > 0 && is_space(s.last()) {
        spec_rtrim(s.drop_last())
    } else {
        s
    }
}

/// `s` without its leading and trailing whitespace.
pub open spec fn spec_trim(s: Seq<char>) -> Seq<char> {
    spec_rtrim(spec_ltrim(s))
}

/// Parsing of an unsigned digit body, with the sign already split off:
/// the component value, if the body is one or more digits whose value,
/// after applying the sign, fits the component type.
pub open spec fn parse_digits_signed(body: Seq<char>, neg: bool) -> Option<i64> {
    if body.len() == 0 || !all_digits(body) {
        None
    } else {
        let v = digits_val(body);
        if neg {
            if -v >= i64::MIN {
                Some((-v) as i64)
            } else {
                None
            }
        } else {
            if v <= i64::MAX {
                Some(v as i64)
            } else {
                None
            }
        }
    }
}

/// Parsing of one component: an optional sign, then one or more
/// decimal digits, the whole of `s` and nothing else.
pub open spec fn parse_int(s: Seq<char>) -> Option<i64> {
    if s.len() > 0 && (s[0] == '-' || s[0] == '+') {
        parse_digits_signed(s.subrange(1, s.len() as int), s[0] == '-')
    } else {
        parse_digits_signed(s, false)
    }
}

/// The scan of the parenthes-stripped input from separator candidate
/// `sep` on: the first comma whose prefix and whitespace-trimmed suffix
/// both parse as components yields the pair.
pub open spec fn scan_from(inner: Seq<char>, sep: int) -> Option<(i64, i64)>
    decreases inner.len() - sep when 0 <= sep
{
    if sep < 1 || sep >= inner.len() {
        None
    } else if inner[sep] == ',' {
        match (
            parse_int(inner.subrange(0, sep)),
            parse_int(spec_trim(inner.subrange(sep + 1, inner.len() as int))),
        ) {
            (Some(x), Some(y)) => Some((x, y)),
            _ => scan_from(inner, sep + 1),
        }
    } else {
        scan_from(inner, sep + 1)
    }
}

/// What parsing an input string yields: the component pair, or nothing
/// when no surrounding-parentheses form with a workable comma exists.
pub open spec fn spec_parse_pos(s: Seq<char>) -> Option<(i64, i64)> {
    let t = spec_trim(s);
    if t.len() >= 2 && t[0] == '(' && t.last() == ')' {
        scan_from(t.subrange(1, t.len() - 1), 1)
    } else {
        None
    }
}

/// The rendering of a coordinate: `"(x, y)"`, one space after the
/// comma, no other padding.
pub open spec fn spec_display(p: Pos) -> Seq<char> {
    seq!['('] + dec_repr(p.x as int) + seq![',', ' '] + dec_repr(p.y as int) + seq![')']
}

/// The error reported when an input string cannot be parsed as a
/// coordinate. It carries a fixed human-readable message.
#[derive(Clone, Copy, Debug)]
pub struct ParsePosErr;

impl ParsePosErr {
    /// The fixed message describing the expected input form.
    pub fn message(&self) -> (r: &'static str)
        ensures
            r@ == "Error parsing `s`; expected str of form `(T, T)`"@,
    {
        "Error parsing `s`; expected str of form `(T, T)`"
    }
}

/// Whether `c` is ASCII whitespace.
fn is_space_char(c: char) -> (r: bool)
    ensures
        r == is_space(c),
{
    c == ' ' || c == '\t' || c == '\n' || c == '\r' || c == '\u{0B}' || c == '\u{0C}'
}

/// The value of the digit character `c`, or nothing when `c` is no digit.
fn digit_value(c: char) -> (r: Option<u8>)
    ensures
        match r {
            Some(d) => is_digit(c) && d == digit_val(c) && d < 10,
            None => !is_digit(c),
        },
{
    if c == '0' {
        Some(0)
    } else if c == '1' {
        Some(1)
    } else if c == '2' {
        Some(2)
    } else if c == '3' {
        Some(3)
    } else if c == '4' {
        Some(4)
    } else if c == '5' {
        Some(5)
    } else if c == '6' {
        Some(6)
    } else if c == '7' {
        Some(7)
    } else if c == '8' {
        Some(8)
    } else if c == '9' {
        Some(9)
    } else {
        None
    }
}

/// A one-character string for the digit `d`.
fn digit_str(d: u8) -> (r: &'static str)
    requires
        d < 10,
    ensures
        r@ == seq![digit_char(d as int)],
{
    if d == 0 {
        proof {
            reveal_strlit("0");
            assert("0"@ =~= seq![digit_char(0)]);
        }
        "0"
    } else if d == 1 {
        proof {
            reveal_strlit("1");
            assert("1"@ =~= seq![digit_char(1)]);
        }
        "1"
    } else if d == 2 {
        proof {
            reveal_strlit("2");
            assert("2"@ =~= seq![digit_char(2)]);
        }
        "2"
    } else if d == 3 {
        proof {
            reveal_strlit("3");
            assert("3"@ =~= seq![digit_char(3)]);
        }
        "3"
    } else if d == 4 {
        proof {
            reveal_strlit("4");
            assert("4"@ =~= seq![digit_char(4)]);
        }
        "4"
    } else if d == 5 {
        proof {
            reveal_strlit("5");
            assert("5"@ =~= seq![digit_char(5)]);
        }
        "5"
    } else if d == 6 {
        proof {
            reveal_strlit("6");
            assert("6"@ =~= seq![digit_char(6)]);
        }
        "6"
    } else if d == 7 {
        proof {
            reveal_strlit("7");
            assert("7"@ =~= seq![digit_char(7)]);
        }
        "7"
    } else if d == 8 {
        proof {
            reveal_strlit("8");
            assert("8"@ =~= seq![digit_char(8)]);
        }
        "8"
    } else {
        proof {
            reveal_strlit("9");
            assert("9"@ =~= seq![digit_char(9)]);
        }
        "9"
    }
}

/// The digit characters of `ds` read back to front.
pub open spec fn rev_digit_chars(ds: Seq<u8>) -> Seq<char> {
    Seq::new(ds.len(), |i: int| digit_char(ds[ds.len() - 1 - i] as int))
}

/// The canonical decimal rendering of `v`.
fn i64_to_string(v: i64) -> (r: String)
    ensures
        r@ == dec_repr(v as int),
{
    let m: u64 = if v >= 0 {
        v as u64
    } else {
        (-(v as i128)) as u64
    };
    let mut ds: Vec<u8> = Vec::new();
    let mut n: u64 = m;
    proof {
        assert(rev_digit_chars(ds@) =~= Seq::<char>::empty());
        assert(dec_digits(m as nat) =~= dec_digits(n as nat) + rev_digit_chars(ds@));
    }
    while n >= 10
        invariant
            dec_digits(m as nat) == dec_digits(n as nat) + rev_digit_chars(ds@),
            forall|t: int| 0 <= t < ds@.len() ==> #[trigger] ds@[t] < 10,
        decreases n,
    {
        let ghost ds_old = ds@;
        let ghost n_old = n as nat;
        proof {
            lemma_mod_bound(n as int, 10);
        }
        let d: u8 = (n % 10) as u8;
        ds.push(d);
        n = n / 10;
        proof {
            assert(rev_digit_chars(ds@) =~= seq![digit_char(d as int)] + rev_digit_chars(ds_old));
            assert(dec_digits(n_old) == dec_digits(n_old / 10) + seq![
                digit_char((n_old % 10) as int),
            ]);
            assert(dec_digits(n_old / 10) + (seq![digit_char(d as int)] + rev_digit_chars(ds_old))
                =~= (dec_digits(n_old / 10) + seq![digit_char(d as int)]) + rev_digit_chars(
                ds_old,
            ));
        }
    }
    let ghost ds_old = ds@;
    ds.push(n as u8);
    proof {
        assert(rev_digit_chars(ds@) =~= seq![digit_char(n as int)] + rev_digit_chars(ds_old));
        assert(dec_digits(n as nat) == seq![digit_char(n as int)]);
        assert(dec_digits(n as nat) + rev_digit_chars(ds_old) =~= rev_digit_chars(ds@));
    }
    let mut out = String::new();
    let ghost prefix: Seq<char> = if v < 0 {
        seq!['-']
    } else {
        Seq::<char>::empty()
    };
    if v < 0 {
        proof {
            reveal_strlit("-");
        }
        out.append("-");
        proof {
            assert(out@ =~= prefix);
        }
    } else {
        proof {
            assert(out@ =~= prefix);
        }
    }
    let mut i: usize = ds.len();
    proof {
        assert(out@ =~= prefix + rev_digit_chars(ds@).subrange(0, 0));
    }
    while i > 0
        invariant
            0 <= i <= ds@.len(),
            forall|t: int| 0 <= t < ds@.len() ==> #[trigger] ds@[t] < 10,
            out@ == prefix + rev_digit_chars(ds@).subrange(0, ds@.len() - i),
        decreases i,
    {
        let ghost out_old = out@;
        let ghost i_old = i as int;
        i = i - 1;
        let c = digit_str(ds[i]);
        out.append(c);
        proof {
            let rev = rev_digit_chars(ds@);
            assert(rev[ds@.len() - i_old] == digit_char(ds@[i_old - 1] as int));
            assert(out@ =~= prefix + rev.subrange(0, ds@.len() - i));
        }
    }
    proof {
        assert(rev_digit_chars(ds@).subrange(0, ds@.len() as int) =~= rev_digit_chars(ds@));
        assert(prefix + dec_digits(m as nat) =~= dec_repr(v as int));
    }
    out
}

/// The digit body of `s` keeps its value under every extension by more
/// digits: a prefix never exceeds the whole.
proof fn lemma_digits_val_nonneg(s: Seq<char>)
    requires
        all_digits(s),
    ensures
        digits_val(s) >= 0,
    decreases s.len(),
{
    if s.len() > 0 {
        lemma_digits_val_nonneg(s.drop_last());
    }
}

/// The value of a digit prefix never exceeds the value of the whole
/// digit string.
proof fn lemma_digits_val_prefix(s: Seq<char>, i: int)
    requires
        all_digits(s),
        0 <= i <= s.len(),
    ensures
        digits_val(s.subrange(0, i)) <= digits_val(s),
    decreases s.len() - i,
{
    if i == s.len() {
        assert(s.subrange(0, i) =~= s);
    } else {
        let shorter = s.subrange(0, i);
        let longer = s.subrange(0, i + 1);
        assert(longer.drop_last() =~= shorter);
        lemma_digits_val_nonneg(shorter);
        assert(digits_val(longer) == digits_val(shorter) * 10 + digit_val(longer.last()));
        lemma_digits_val_prefix(s, i + 1);
    }
}

/// The decimal digits of `n` are at least one digit character whose
/// value reads back to `n`.
pub proof fn lemma_dec_digits(n: nat)
    ensures
        dec_digits(n).len() >= 1,
        all_digits(dec_digits(n)),
        digits_val(dec_digits(n)) == n,
    decreases n,
{
    let s = dec_digits(n);
    if n < 10 {
        assert(s.drop_last() =~= Seq::<char>::empty());
        assert(digits_val(s.drop_last()) == 0);
        assert(digit_val(digit_char(n as int)) == n);
        assert(digits_val(s) == digits_val(s.drop_last()) * 10 + digit_val(s.last()));
    } else {
        lemma_dec_digits(n / 10);
        lemma_mod_bound(n as int, 10);
        lemma_fundamental_div_mod(n as int, 10);
        assert(s.drop_last() =~= dec_digits(n / 10));
        assert(s.last() == digit_char((n % 10) as int));
        assert(digit_val(digit_char((n % 10) as int)) == n % 10);
        assert(digits_val(s) == digits_val(s.drop_last()) * 10 + digit_val(s.last()));
        assert((n / 10) * 10 + (n % 10) == n);
        assert forall|i: int| 0 <= i < s.len() implies is_digit(#[trigger] s[i]) by {
            if i < s.len() - 1 {
                assert(s[i] == dec_digits(n / 10)[i]);
            }
        }
    }
}

/// The canonical rendering of `v` is at least one character, all of
/// them digits but for a leading minus sign on a negative value.
pub proof fn lemma_dec_repr_chars(v: int)
    ensures
        dec_repr(v).len() >= 1,
        forall|i: int|
            0 <= i < dec_repr(v).len() ==> (is_digit(#[trigger] dec_repr(v)[i]) || dec_repr(
                v,
            )[i] == '-'),
        is_digit(dec_repr(v).last()),
        v >= 0 ==> is_digit(dec_repr(v)[0]),
        v < 0 ==> dec_repr(v)[0] == '-',
{
    let s = dec_repr(v);
    if v < 0 {
        lemma_dec_digits((-v) as nat);
        let dd = dec_digits((-v) as nat);
        assert(s.last() == dd.last());
        assert forall|i: int| 0 <= i < s.len() implies (is_digit(#[trigger] s[i]) || s[i] == '-')
            by {
            if i >= 1 {
                assert(s[i] == dd[i - 1]);
            }
        }
    } else {
        lemma_dec_digits(v as nat);
    }
}

/// Parsing the canonical rendering of a component value yields that
/// value back.
pub proof fn lemma_parse_canonical(v: i64)
    ensures
        parse_int(dec_repr(v as int)) == Some(v),
{
    let s = dec_repr(v as int);
    if v < 0 {
        let m = (-(v as int)) as nat;
        lemma_dec_digits(m);
        let body = s.subrange(1, s.len() as int);
        assert(body =~= dec_digits(m));
        assert(s[0] == '-');
        assert(parse_int(s) == parse_digits_signed(body, true));
        assert(digits_val(body) == m);
        assert(parse_digits_signed(body, true) == Some(v));
    } else {
        lemma_dec_digits(v as nat);
        assert(is_digit(s[0]));
        assert(parse_int(s) == parse_digits_signed(s, false));
        assert(parse_digits_signed(s, false) == Some(v));
    }
}

/// Scanning skips separator candidates that are no commas.
proof fn lemma_scan_skip(inner: Seq<char>, sep: int, k: int)
    requires
        1 <= sep <= k <= inner.len(),
        forall|j: int| sep <= j < k ==> inner[j] != ',',
    ensures
        scan_from(inner, sep) == scan_from(inner, k),
    decreases k - sep,
{
    if sep < k {
        lemma_scan_skip(inner, sep + 1, k);
    }
}

/// The round-trip law: parsing the rendering of any coordinate yields
/// that coordinate back.
pub proof fn lemma_display_parse_round_trip(p: Pos)
    ensures
        spec_parse_pos(spec_display(p)) == Some((p.x, p.y)),
{
    let rx = dec_repr(p.x as int);
    let ry = dec_repr(p.y as int);
    let s = spec_display(p);
    lemma_dec_repr_chars(p.x as int);
    lemma_dec_repr_chars(p.y as int);
    lemma_parse_canonical(p.x);
    lemma_parse_canonical(p.y);
    assert(s.len() == 1 + rx.len() + 2 + ry.len() + 1);
    assert(s[0] == '(');
    assert(s.last() == ')');
    assert(spec_trim(s) == s);
    let inner = s.subrange(1, s.len() - 1);
    assert(inner =~= rx + seq![',', ' '] + ry);
    let k = rx.len() as int;
    assert forall|j: int| 1 <= j < k implies inner[j] != ',' by {
        assert(inner[j] == rx[j]);
    }
    assert(inner[k] == ',');
    lemma_scan_skip(inner, 1, k);
    assert(inner.subrange(0, k) =~= rx);
    let suffix = inner.subrange(k + 1, inner.len() as int);
    assert(suffix =~= seq![' '] + ry);
    assert(suffix.subrange(1, suffix.len() as int) =~= ry);
    assert(spec_ltrim(suffix) == spec_ltrim(ry));
    assert(!is_space(ry[0]));
    assert(spec_ltrim(ry) == ry);
    assert(!is_space(ry.last()));
    assert(spec_rtrim(ry) == ry);
    assert(spec_trim(suffix) == ry);
    assert(scan_from(inner, k) == Some((p.x, p.y)));
}

/// Parses the component in `s` between the character indices `from`
/// and `to`.
fn parse_int_range(s: &str, from: usize, to: usize) -> (r: Option<i64>)
    requires
        from <= to <= s@.len(),
    ensures
        r == parse_int(s@.subrange(from as int, to as int)),
{
    let ghost whole = s@.subrange(from as int, to as int);
    let mut i: usize = from;
    let mut neg: bool = false;
    if i < to {
        let c = s.get_char(i);
        if c == '-' {
            neg = true;
            i = i + 1;
        } else if c == '+' {
            i = i + 1;
        }
    }
    let ghost body = s@.subrange(i as int, to as int);
    proof {
        if whole.len() > 0 && (whole[0] == '-' || whole[0] == '+') {
            assert(whole.subrange(1, whole.len() as int) =~= body);
        } else {
            assert(body =~= whole);
        }
        assert(parse_int(whole) == parse_digits_signed(body, neg));
    }
    if i == to {
        return None;
    }
    let mut acc: u128 = 0;
    let mut j: usize = i;
    proof {
        assert(s@.subrange(i as int, j as int) =~= Seq::<char>::empty());
    }
    while j < to
        invariant
            from <= i <= j <= to <= s@.len(),
            body == s@.subrange(i as int, to as int),
            parse_int(s@.subrange(from as int, to as int)) == parse_digits_signed(body, neg),
            acc == digits_val(s@.subrange(i as int, j as int)),
            all_digits(s@.subrange(i as int, j as int)),
            acc <= 0x8000_0000_0000_0000u128,
        decreases to - j,
    {
        let ghost done = s@.subrange(i as int, j as int);
        let c = s.get_char(j);
        match digit_value(c) {
            None => {
                proof {
                    assert(body[j - i] == c);
                    assert(!all_digits(body));
                }
                return None;
            },
            Some(dv) => {
                acc = acc * 10 + (dv as u128);
                proof {
                    let done2 = s@.subrange(i as int, j + 1);
                    assert(done2.drop_last() =~= done);
                    assert(done2.last() == c);
                    assert(acc == digits_val(done2));
                    assert(all_digits(done2)) by {
                        assert(forall|t: int|
                            0 <= t < done.len() ==> done2[t] == #[trigger] done[t]);
                    }
                }
                if acc > 0x8000_0000_0000_0000u128 {
                    proof {
                        if all_digits(body) {
                            let l = j + 1 - i;
                            assert(body.subrange(0, l) =~= s@.subrange(i as int, j + 1));
                            lemma_digits_val_prefix(body, l);
                        }
                        assert(parse_digits_signed(body, neg) is None);
                    }
                    return None;
                }
                j = j + 1;
            },
        }
    }
    proof {
        assert(s@.subrange(i as int, j as int) =~= body);
        assert(body.len() > 0);
    }
    if neg {
        proof {
            assert(parse_digits_signed(body, neg) == Some((-(acc as int)) as i64));
        }
        Some((-(acc as i128)) as i64)
    } else {
        if acc > 0x7FFF_FFFF_FFFF_FFFFu128 {
            None
        } else {
            Some(acc as i64)
        }
    }
}

/// Finds the whitespace-trimmed span of `s` between the character
/// indices `from` and `to`.
fn trim_range(s: &str, from: usize, to: usize) -> (r: (usize, usize))
    requires
        from <= to <= s@.len(),
    ensures
        from <= r.0 <= r.1 <= to,
        s@.subrange(r.0 as int, r.1 as int) == spec_trim(
            s@.subrange(from as int, to as int),
        ),
{
    let mut lo: usize = from;
    while lo < to && is_space_char(s.get_char(lo))
        invariant
            from <= lo <= to <= s@.len(),
            spec_ltrim(s@.subrange(from as int, to as int)) == spec_ltrim(
                s@.subrange(lo as int, to as int),
            ),
        decreases to - lo,
    {
        proof {
            let cur = s@.subrange(lo as int, to as int);
            assert(cur[0] == s@[lo as int]);
            assert(cur.subrange(1, cur.len() as int) =~= s@.subrange(lo + 1, to as int));
        }
        lo = lo + 1;
    }
    proof {
        assert(spec_ltrim(s@.subrange(from as int, to as int)) == s@.subrange(
            lo as int,
            to as int,
        ));
    }
    let mut hi: usize = to;
    while hi > lo && is_space_char(s.get_char(hi - 1))
        invariant
            from <= lo <= hi <= to <= s@.len(),
            spec_rtrim(s@.subrange(lo as int, to as int)) == spec_rtrim(
                s@.subrange(lo as int, hi as int),
            ),
        decreases hi,
    {
        proof {
            let cur = s@.subrange(lo as int, hi as int);
            assert(cur.last() == s@[hi - 1]);
            assert(cur.drop_last() =~= s@.subrange(lo as int, hi - 1));
        }
        hi = hi - 1;
    }
    proof {
        assert(spec_rtrim(s@.subrange(lo as int, to as int)) == s@.subrange(lo as int, hi as int));
    }
    (lo, hi)
}

impl Pos {
    /// Renders this coordinate as `"(x, y)"`: the components in their
    /// decimal form, separated by a comma and a single space, enclosed
    /// in parentheses.
    pub fn to_display_string(&self) -> (r: String)
        ensures
            r@ == spec_display(*self),
    {
        proof {
            reveal_strlit("(");
            reveal_strlit(", ");
            reveal_strlit(")");
        }
        let mut out = String::new();
        out.append("(");
        let sx = i64_to_string(self.x);
        out.append(sx.as_str());
        out.append(", ");
        let sy = i64_to_string(self.y);
        out.append(sy.as_str());
        out.append(")");
        proof {
            assert(out@ =~= spec_display(*self));
        }
        out
    }

    /// Parses a coordinate from the form `"(x, y)"`, tolerating
    /// surrounding whitespace and whitespace after the comma: the
    /// first comma whose two sides both parse as components is taken.
    pub fn from_str(s: &str) -> (r: Result<Pos, ParsePosErr>)
        ensures
            match r {
                Ok(p) => spec_parse_pos(s@) == Some((p.x, p.y)),
                Err(_) => spec_parse_pos(s@) is None,
            },
    {
        let n = s.unicode_len();
        proof {
            assert(s@.subrange(0, n as int) =~= s@);
        }
        let (lo, hi) = trim_range(s, 0, n);
        let ghost t = spec_trim(s@);
        if hi - lo < 2 {
            return Err(ParsePosErr);
        }
        let c0 = s.get_char(lo);
        let c1 = s.get_char(hi - 1);
        proof {
            assert(t[0] == s@[lo as int]);
            assert(t.last() == s@[hi - 1]);
        }
        if !(c0 == '(' && c1 == ')') {
            return Err(ParsePosErr);
        }
        let ilo = lo + 1;
        let ihi = hi - 1;
        let ghost inner = t.subrange(1, t.len() - 1);
        proof {
            assert(inner =~= s@.subrange(ilo as int, ihi as int));
        }
        let ilen = ihi - ilo;
        let mut sep: usize = 1;
        while sep < ilen
            invariant
                lo as int + 1 == ilo as int,
                hi as int - 1 == ihi as int,
                ilo <= ihi <= s@.len(),
                ilen == ihi - ilo,
                1 <= sep,
                ilen == 0 ==> sep == 1,
                ilen > 0 ==> sep <= ilen,
                inner == s@.subrange(ilo as int, ihi as int),
                inner.len() == ilen,
                scan_from(inner, 1) == scan_from(inner, sep as int),
                spec_parse_pos(s@) == scan_from(inner, 1),
            decreases ilen - sep,
        {
            let c = s.get_char(ilo + sep);
            proof {
                assert(inner[sep as int] == c);
            }
            if c == ',' {
                let px = parse_int_range(s, ilo, ilo + sep);
                proof {
                    assert(s@.subrange(ilo as int, ilo + sep) =~= inner.subrange(0, sep as int));
                }
                let mut found: Option<(i64, i64)> = None;
                if let Some(x) = px {
                    let (slo, shi) = trim_range(s, ilo + sep + 1, ihi);
                    proof {
                        assert(s@.subrange(ilo + sep + 1, ihi as int) =~= inner.subrange(
                            sep + 1,
                            inner.len() as int,
                        ));
                    }
                    let py = parse_int_range(s, slo, shi);
                    if let Some(y) = py {
                        found = Some((x, y));
                    }
                }
                if let Some((x, y)) = found {
                    proof {
                        assert(scan_from(inner, sep as int) == Some((x, y)));
                    }
                    return Ok(Pos::new(x, y));
                }
                proof {
                    assert(scan_from(inner, sep as int) == scan_from(inner, sep + 1));
                }
            } else {
                proof {
                    assert(scan_from(inner, sep as int) == scan_from(inner, sep + 1));
                }
            }
            sep = sep + 1;
        }
        proof {
            assert(scan_from(inner, sep as int) is None);
        }
        Err(ParsePosErr)
    }
}

} // verus!
