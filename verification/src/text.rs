//! Byte-level text helpers for the theme file format: whitespace trimming,
//! byte search, and reading/writing 32-bit unsigned integers as decimal or
//! `0x`-prefixed hexadecimal literals.

use vstd::prelude::*;
use vstd::string::StringExecFns;

verus! {

/// Horizontal whitespace that may surround tokens on a line: space, tab, and
/// the carriage return left behind by CRLF line endings.
pub open spec fn is_ws(b: u8) -> bool {
    b == 32 || b == 9 || b == 13
}

pub open spec fn trim_front(s: Seq<u8>) -> Seq<u8>
    decreases s.len(),
{
    if s.len() > 0 && is_ws(s[0]) {
        trim_front(s.drop_first())
    } else {
        s
    }
}

pub open spec fn trim_back(s: Seq<u8>) -> Seq<u8>
    decreases s.len(),
{
    if s.len() > 0 && is_ws(s.last()) {
        trim_back(s.drop_last())
    } else {
        s
    }
}

/// `s` with leading and trailing horizontal whitespace removed.
pub open spec fn trim(s: Seq<u8>) -> Seq<u8> {
    trim_back(trim_front(s))
}

/// Index of the first occurrence of `d` in `s`, or `s.len()` when `d` does
/// not occur.
pub open spec fn find(s: Seq<u8>, d: u8) -> nat
    decreases s.len(),
{
    if s.len() == 0 {
        0
    } else if s[0] == d {
        0
    } else {
        (1 + find(s.drop_first(), d)) as nat
    }
}

pub proof fn lemma_find_bounds(s: Seq<u8>, d: u8)
    ensures
        find(s, d) <= s.len(),
        find(s, d) < s.len() ==> s[find(s, d) as int] == d,
        forall|i: int| 0 <= i < find(s, d) ==> s[i] != d,
    decreases s.len(),
{
    if s.len() > 0 && s[0] != d {
        lemma_find_bounds(s.drop_first(), d);
        assert forall|i: int| 0 <= i < find(s, d) implies s[i] != d by {
            if i > 0 {
                assert(s.drop_first()[i - 1] != d);
            }
        }
    }
}

/// When no byte of `a` is `d`, searching `a + b` skips all of `a`.
pub proof fn lemma_find_append(a: Seq<u8>, b: Seq<u8>, d: u8)
    requires
        forall|i: int| 0 <= i < a.len() ==> a[i] != d,
    ensures
        find(a + b, d) == a.len() + find(b, d),
    decreases a.len(),
{
    if a.len() == 0 {
        assert(a + b =~= b);
    } else {
        assert((a + b)[0] == a[0]);
        assert((a + b).drop_first() =~= a.drop_first() + b);
        lemma_find_append(a.drop_first(), b, d);
    }
}

/// Exec counterpart of `find` starting from position `from`.
pub fn find_byte(s: &[u8], from: usize, d: u8) -> (r: usize)
    requires
        from <= s@.len(),
    ensures
        r == from + find(s@.skip(from as int), d),
        from <= r <= s@.len(),
{
    proof {
        lemma_find_bounds(s@.skip(from as int), d);
    }
    let mut j = from;
    while j < s.len()
        invariant
            from <= j <= s@.len(),
            find(s@.skip(from as int), d) == (j - from) + find(s@.skip(j as int), d),
        decreases s@.len() - j,
    {
        proof {
            lemma_find_bounds(s@.skip(j as int), d);
        }
        if s[j] == d {
            assert(s@.skip(j as int)[0] == d);
            return j;
        }
        proof {
            assert(s@.skip(j as int).drop_first() =~= s@.skip(j as int + 1));
        }
        j = j + 1;
    }
    assert(s@.skip(j as int) =~= Seq::<u8>::empty());
    j
}

/// Exec counterpart of `trim`.
pub fn trim_slice<'a>(s: &'a [u8]) -> (r: &'a [u8])
    ensures
        r@ == trim(s@),
{
    proof {
        assert(s@.skip(0) =~= s@);
    }
    let mut i: usize = 0;
    while i < s.len() && (s[i] == 32 || s[i] == 9 || s[i] == 13)
        invariant
            i <= s@.len(),
            trim_front(s@) == trim_front(s@.skip(i as int)),
        decreases s@.len() - i,
    {
        proof {
            assert(s@.skip(i as int)[0] == s@[i as int]);
            assert(s@.skip(i as int).drop_first() =~= s@.skip(i as int + 1));
        }
        i = i + 1;
    }
    proof {
        if i < s@.len() {
            assert(s@.skip(i as int)[0] == s@[i as int]);
        } else {
            assert(s@.skip(i as int) =~= Seq::<u8>::empty());
        }
        assert(trim_front(s@) == s@.skip(i as int));
    }
    let mut j: usize = s.len();
    while j > i && (s[j - 1] == 32 || s[j - 1] == 9 || s[j - 1] == 13)
        invariant
            i <= j <= s@.len(),
            trim_front(s@) == s@.skip(i as int),
            trim_back(s@.skip(i as int)) == trim_back(s@.subrange(i as int, j as int)),
        decreases j,
    {
        proof {
            assert(s@.subrange(i as int, j as int).last() == s@[j - 1]);
            assert(s@.subrange(i as int, j as int).drop_last() =~= s@.subrange(
                i as int,
                j as int - 1,
            ));
        }
        j = j - 1;
    }
    proof {
        let t = s@.subrange(i as int, j as int);
        if j > i {
            assert(t.last() == s@[j - 1]);
            assert(!is_ws(t.last()));
        } else {
            assert(t =~= Seq::<u8>::empty());
        }
        assert(trim_back(t) == t);
        assert(s@.skip(s@.len() as int) =~= Seq::<u8>::empty());
    }
    vstd::slice::slice_subrange(s, i, j)
}

/// True exactly when the two byte sequences are equal.
pub fn bytes_eq(a: &[u8], b: &[u8]) -> (r: bool)
    ensures
        r == (a@ == b@),
{
    if a.len() != b.len() {
        return false;
    }
    let mut i: usize = 0;
    while i < a.len()
        invariant
            i <= a@.len(),
            a@.len() == b@.len(),
            forall|k: int| 0 <= k < i ==> a@[k] == b@[k],
        decreases a@.len() - i,
    {
        if a[i] != b[i] {
            return false;
        }
        i = i + 1;
    }
    proof {
        assert(a@ =~= b@);
    }
    true
}

pub open spec fn is_digit(b: u8) -> bool {
    48 <= b <= 57
}

pub open spec fn digit_val(b: u8) -> nat {
    (b - 48) as nat
}

pub open spec fn all_digits(s: Seq<u8>) -> bool {
    forall|i: int| 0 <= i < s.len() ==> is_digit(#[trigger] s[i])
}

/// Value of a decimal digit string, most significant digit first.
pub open spec fn dec_val(s: Seq<u8>) -> nat
    decreases s.len(),
{
    if s.len() == 0 {
        0
    } else {
        dec_val(s.drop_last()) * 10 + digit_val(s.last())
    }
}

pub open spec fn is_hex_digit(b: u8) -> bool {
    is_digit(b) || 97 <= b <= 102 || 65 <= b <= 70
}

pub open spec fn hex_digit_val(b: u8) -> nat {
    if is_digit(b) {
        (b - 48) as nat
    } else if 97 <= b <= 102 {
        (b - 87) as nat
    } else {
        (b - 55) as nat
    }
}

pub open spec fn all_hex_digits(s: Seq<u8>) -> bool {
    forall|i: int| 0 <= i < s.len() ==> is_hex_digit(#[trigger] s[i])
}

/// Value of a hexadecimal digit string, most significant digit first.
pub open spec fn hex_val(s: Seq<u8>) -> nat
    decreases s.len(),
{
    if s.len() == 0 {
        0
    } else {
        hex_val(s.drop_last()) * 16 + hex_digit_val(s.last())
    }
}

/// What an integer literal in a theme file denotes: a `0x`-prefixed
/// hexadecimal literal or a plain decimal literal, in either case only if the
/// value fits in 32 bits.
pub open spec fn spec_parse_u32(s: Seq<u8>) -> Option<u32> {
    if s.len() >= 2 && s[0] == 48 && (s[1] == 120 || s[1] == 88) {
        let h = s.skip(2);
        if h.len() > 0 && all_hex_digits(h) && hex_val(h) <= u32::MAX {
            Some(hex_val(h) as u32)
        } else {
            None
        }
    } else if s.len() > 0 && all_digits(s) && dec_val(s) <= u32::MAX {
        Some(dec_val(s) as u32)
    } else {
        None
    }
}

/// The value of a prefix never exceeds the value of the whole digit string.
proof fn lemma_dec_val_prefix_le(s: Seq<u8>, i: int)
    requires
        0 <= i <= s.len(),
    ensures
        dec_val(s.take(i)) <= dec_val(s),
    decreases s.len(),
{
    if i < s.len() {
        lemma_dec_val_prefix_le(s.drop_last(), i);
        assert(s.drop_last().take(i) =~= s.take(i));
        assert(dec_val(s.drop_last()) * 10 >= dec_val(s.drop_last()));
    } else {
        assert(s.take(i) =~= s);
    }
}

proof fn lemma_hex_val_prefix_le(s: Seq<u8>, i: int)
    requires
        0 <= i <= s.len(),
    ensures
        hex_val(s.take(i)) <= hex_val(s),
    decreases s.len(),
{
    if i < s.len() {
        lemma_hex_val_prefix_le(s.drop_last(), i);
        assert(s.drop_last().take(i) =~= s.take(i));
        assert(hex_val(s.drop_last()) * 16 >= hex_val(s.drop_last()));
    } else {
        assert(s.take(i) =~= s);
    }
}

fn parse_dec(s: &[u8]) -> (r: Option<u32>)
    ensures
        r == (if s@.len() > 0 && all_digits(s@) && dec_val(s@) <= u32::MAX {
            Some(dec_val(s@) as u32)
        } else {
            None::<u32>
        }),
{
    if s.len() == 0 {
        return None;
    }
    let mut acc: u64 = 0;
    let mut i: usize = 0;
    while i < s.len()
        invariant
            i <= s@.len(),
            all_digits(s@.take(i as int)),
            acc == dec_val(s@.take(i as int)),
            acc <= u32::MAX,
        decreases s@.len() - i,
    {
        let b = s[i];
        if b < 48 || b > 57 {
            assert(!is_digit(s@[i as int]));
            return None;
        }
        proof {
            assert(s@.take(i as int + 1).drop_last() =~= s@.take(i as int));
            assert(s@.take(i as int + 1).last() == s@[i as int]);
        }
        acc = acc * 10 + ((b - 48) as u64);
        i = i + 1;
        if acc > u32::MAX as u64 {
            proof {
                lemma_dec_val_prefix_le(s@, i as int);
            }
            return None;
        }
    }
    proof {
        assert(s@.take(s@.len() as int) =~= s@);
    }
    Some(acc as u32)
}

fn parse_hex(s: &[u8]) -> (r: Option<u32>)
    ensures
        r == (if s@.len() > 0 && all_hex_digits(s@) && hex_val(s@) <= u32::MAX {
            Some(hex_val(s@) as u32)
        } else {
            None::<u32>
        }),
{
    if s.len() == 0 {
        return None;
    }
    let mut acc: u64 = 0;
    let mut i: usize = 0;
    while i < s.len()
        invariant
            i <= s@.len(),
            all_hex_digits(s@.take(i as int)),
            acc == hex_val(s@.take(i as int)),
            acc <= u32::MAX,
        decreases s@.len() - i,
    {
        let b = s[i];
        let d: u8 = if b >= 48 && b <= 57 {
            b - 48
        } else if b >= 97 && b <= 102 {
            b - 87
        } else if b >= 65 && b <= 70 {
            b - 55
        } else {
            assert(!is_hex_digit(s@[i as int]));
            return None;
        };
        proof {
            assert(s@.take(i as int + 1).drop_last() =~= s@.take(i as int));
            assert(s@.take(i as int + 1).last() == s@[i as int]);
        }
        acc = acc * 16 + (d as u64);
        i = i + 1;
        if acc > u32::MAX as u64 {
            proof {
                lemma_hex_val_prefix_le(s@, i as int);
            }
            return None;
        }
    }
    proof {
        assert(s@.take(s@.len() as int) =~= s@);
    }
    Some(acc as u32)
}

/// Exec counterpart of `spec_parse_u32`.
pub fn parse_u32(s: &[u8]) -> (r: Option<u32>)
    ensures
        r == spec_parse_u32(s@),
{
    if s.len() >= 2 && s[0] == 48 && (s[1] == 120 || s[1] == 88) {
        let h = vstd::slice::slice_subrange(s, 2, s.len());
        assert(h@ =~= s@.skip(2));
        parse_hex(h)
    } else {
        parse_dec(s)
    }
}

/// The canonical decimal rendering of `v`: most significant digit first, no
/// sign, no leading zeros (the value zero is the single digit `0`).
pub open spec fn spec_dec(v: nat) -> Seq<u8>
    decreases v,
{
    if v < 10 {
        seq![(48 + v) as u8]
    } else {
        spec_dec(v / 10).push((48 + v % 10) as u8)
    }
}

pub proof fn lemma_dec_digits(v: nat)
    ensures
        spec_dec(v).len() >= 1,
        all_digits(spec_dec(v)),
    decreases v,
{
    if v >= 10 {
        lemma_dec_digits(v / 10);
        assert forall|i: int| 0 <= i < spec_dec(v).len() implies is_digit(#[trigger] spec_dec(v)[i]) by {
            if i < spec_dec(v / 10).len() {
                assert(spec_dec(v)[i] == spec_dec(v / 10)[i]);
            }
        }
    }
}

/// Reading back the canonical decimal rendering recovers the value.
pub proof fn lemma_dec_val_round_trip(v: nat)
    ensures
        dec_val(spec_dec(v)) == v,
    decreases v,
{
    if v < 10 {
        let s = spec_dec(v);
        assert(s == seq![(48 + v) as u8]);
        assert(s.len() == 1);
        assert(s.last() == (48 + v) as u8);
        assert(s.drop_last() =~= Seq::<u8>::empty());
        assert(dec_val(s.drop_last()) == 0);
        assert(((48 + v) as u8) == 48 + v);
        assert(digit_val(s.last()) == v);
        assert(dec_val(s) == dec_val(s.drop_last()) * 10 + digit_val(s.last()));
    } else {
        lemma_dec_val_round_trip(v / 10);
        assert(spec_dec(v).drop_last() =~= spec_dec(v / 10));
        assert(((48 + v % 10) as u8) == 48 + v % 10);
        assert(v == (v / 10) * 10 + v % 10);
    }
}

/// The canonical decimal rendering parses back to the value it renders.
pub proof fn lemma_parse_of_dec(v: u32)
    ensures
        spec_parse_u32(spec_dec(v as nat)) == Some(v),
{
    lemma_dec_digits(v as nat);
    lemma_dec_val_round_trip(v as nat);
    let s = spec_dec(v as nat);
    if s.len() >= 2 {
        assert(is_digit(s[1]));
        assert(s[1] != 120 && s[1] != 88);
    }
}

/// Appends all of `src` to `out`.
pub fn push_bytes(out: &mut Vec<u8>, src: &[u8])
    ensures
        final(out)@ == old(out)@ + src@,
{
    proof {
        assert(old(out)@ + src@.take(0) =~= old(out)@);
    }
    let mut k: usize = 0;
    while k < src.len()
        invariant
            k <= src@.len(),
            out@ == old(out)@ + src@.take(k as int),
        decreases src@.len() - k,
    {
        out.push(src[k]);
        proof {
            assert(old(out)@ + src@.take(k as int + 1) =~= (old(out)@ + src@.take(k as int)).push(
                src@[k as int],
            ));
        }
        k = k + 1;
    }
    proof {
        assert(src@.take(src@.len() as int) =~= src@);
        assert(out@ =~= old(out)@ + src@);
    }
}

/// Appends the canonical decimal rendering of `v` to `out`.
pub fn push_dec(out: &mut Vec<u8>, v: u32)
    ensures
        final(out)@ == old(out)@ + spec_dec(v as nat),
    decreases v,
{
    if v >= 10 {
        push_dec(out, v / 10);
    }
    out.push(48 + (v % 10) as u8);
    proof {
        if v < 10 {
            assert(old(out)@ + spec_dec(v as nat) =~= old(out)@.push((48 + v as nat) as u8));
        } else {
            assert(old(out)@ + spec_dec(v as nat) =~= (old(out)@ + spec_dec((v / 10) as nat)).push(
                (48 + v as nat % 10) as u8,
            ));
        }
    }
}

/// The lower-case hexadecimal digit character for `d`.
pub open spec fn hex_char_of(d: nat) -> char {
    if d == 0 {
        '0'
    } else if d == 1 {
        '1'
    } else if d == 2 {
        '2'
    } else if d == 3 {
        '3'
    } else if d == 4 {
        '4'
    } else if d == 5 {
        '5'
    } else if d == 6 {
        '6'
    } else if d == 7 {
        '7'
    } else if d == 8 {
        '8'
    } else if d == 9 {
        '9'
    } else if d == 10 {
        'a'
    } else if d == 11 {
        'b'
    } else if d == 12 {
        'c'
    } else if d == 13 {
        'd'
    } else if d == 14 {
        'e'
    } else {
        'f'
    }
}

/// The lower-case hexadecimal rendering of `v`, without prefix and without
/// leading zeros (the value zero is the single digit `0`).
pub open spec fn spec_hex_chars(v: nat) -> Seq<char>
    decreases v,
{
    if v < 16 {
        seq![hex_char_of(v)]
    } else {
        spec_hex_chars(v / 16).push(hex_char_of(v % 16))
    }
}

fn hex_digit_str(d: u8) -> (r: &'static str)
    requires
        d < 16,
    ensures
        r@ == seq![hex_char_of(d as nat)],
{
    proof {
        reveal_strlit("0");
        reveal_strlit("1");
        reveal_strlit("2");
        reveal_strlit("3");
        reveal_strlit("4");
        reveal_strlit("5");
        reveal_strlit("6");
        reveal_strlit("7");
        reveal_strlit("8");
        reveal_strlit("9");
        reveal_strlit("a");
        reveal_strlit("b");
        reveal_strlit("c");
        reveal_strlit("d");
        reveal_strlit("e");
        reveal_strlit("f");
    }
    let r = match d {
        0 => "0",
        1 => "1",
        2 => "2",
        3 => "3",
        4 => "4",
        5 => "5",
        6 => "6",
        7 => "7",
        8 => "8",
        9 => "9",
        10 => "a",
        11 => "b",
        12 => "c",
        13 => "d",
        14 => "e",
        _ => "f",
    };
    proof {
        assert(r@ =~= seq![hex_char_of(d as nat)]);
    }
    r
}

/// Appends the lower-case hexadecimal rendering of `v` to `out`.
pub fn push_hex_chars(out: &mut String, v: u32)
    ensures
        final(out)@ == old(out)@ + spec_hex_chars(v as nat),
    decreases v,
{
    if v >= 16 {
        push_hex_chars(out, v / 16);
    }
    let digit = hex_digit_str((v % 16) as u8);
    out.append(digit);
    proof {
        if v < 16 {
            assert(old(out)@ + spec_hex_chars(v as nat) =~= old(out)@ + seq![
                hex_char_of(v as nat),
            ]);
        } else {
            assert(old(out)@ + spec_hex_chars(v as nat) =~= (old(out)@ + spec_hex_chars(
                (v / 16) as nat,
            )) + seq![hex_char_of(v as nat % 16)]);
        }
    }
}

} // verus!
