//! The theme file format, and its verified reader and writer.
//!
//! A theme file is line-oriented text: a `[theme]` section header followed by
//! `key = value` lines for the six color fields, with `#` comments, blank
//! lines, CRLF tolerance, and unknown keys ignored. Values are decimal or
//! `0x`-prefixed hexadecimal 32-bit integers. Other sections are skipped.
//! `parse_theme` and `generate_theme` are both specified against spec-level
//! functions, and `lemma_generate_parse_round_trip` proves that a generated
//! file parses back to exactly the theme it was generated from.

use vstd::prelude::*;

use crate::text::{
    bytes_eq, find, find_byte, is_digit, is_ws, lemma_dec_digits, lemma_find_append,
    lemma_find_bounds, lemma_parse_of_dec, parse_u32, push_dec, spec_dec, spec_parse_u32, trim,
    trim_back, trim_front, trim_slice,
};
use crate::theme::Theme;

verus! {

/// Why a theme source was rejected.
#[derive(Clone, Copy, Debug, PartialEq, Eq, Structural)]
pub enum ParseError {
    /// One of the six required color fields never appeared in the `theme`
    /// section.
    MissingField,
    /// A required field's value is not an integer literal that fits in 32
    /// bits.
    InvalidValue,
    /// A line in the `theme` section is neither blank, a comment, a section
    /// header, nor a `key = value` pair.
    MalformedLine,
    /// A required field appeared twice in the `theme` section.
    DuplicateField,
}

/// The bytes of the section header line `[theme]`.
pub open spec fn header_bytes() -> Seq<u8> {
    seq![91u8, 116u8, 104u8, 101u8, 109u8, 101u8, 93u8]
}

pub open spec fn key_accent() -> Seq<u8> {
    seq![97u8, 99u8, 99u8, 101u8, 110u8, 116u8]
}

pub open spec fn key_accent_deep() -> Seq<u8> {
    seq![97u8, 99u8, 99u8, 101u8, 110u8, 116u8, 95u8, 100u8, 101u8, 101u8, 112u8]
}

pub open spec fn key_foreground() -> Seq<u8> {
    seq![102u8, 111u8, 114u8, 101u8, 103u8, 114u8, 111u8, 117u8, 110u8, 100u8]
}

pub open spec fn key_complement() -> Seq<u8> {
    seq![99u8, 111u8, 109u8, 112u8, 108u8, 101u8, 109u8, 101u8, 110u8, 116u8]
}

pub open spec fn key_dark() -> Seq<u8> {
    seq![100u8, 97u8, 114u8, 107u8]
}

pub open spec fn key_light_dark() -> Seq<u8> {
    seq![108u8, 105u8, 103u8, 104u8, 116u8, 95u8, 100u8, 97u8, 114u8, 107u8]
}

/// The six required keys, in the field order of `Theme`.
pub open spec fn nth_key(i: int) -> Seq<u8> {
    if i == 0 {
        key_accent()
    } else if i == 1 {
        key_accent_deep()
    } else if i == 2 {
        key_foreground()
    } else if i == 3 {
        key_complement()
    } else if i == 4 {
        key_dark()
    } else {
        key_light_dark()
    }
}

/// Index of `key` among the six required keys, or 6 when `key` is not one of
/// them.
pub open spec fn spec_key_index(key: Seq<u8>) -> int {
    if key == nth_key(0) {
        0
    } else if key == nth_key(1) {
        1
    } else if key == nth_key(2) {
        2
    } else if key == nth_key(3) {
        3
    } else if key == nth_key(4) {
        4
    } else if key == nth_key(5) {
        5
    } else {
        6
    }
}

/// Parser state: whether the cursor is inside the `theme` section, and which
/// required fields have been seen so far.
#[derive(Clone, Copy, Debug)]
pub struct ParseState {
    pub in_theme: bool,
    pub accent: Option<u32>,
    pub accent_deep: Option<u32>,
    pub foreground: Option<u32>,
    pub complement: Option<u32>,
    pub dark: Option<u32>,
    pub light_dark: Option<u32>,
}

pub open spec fn init_state() -> ParseState {
    ParseState {
        in_theme: false,
        accent: None,
        accent_deep: None,
        foreground: None,
        complement: None,
        dark: None,
        light_dark: None,
    }
}

pub open spec fn get_field(st: ParseState, idx: int) -> Option<u32> {
    if idx == 0 {
        st.accent
    } else if idx == 1 {
        st.accent_deep
    } else if idx == 2 {
        st.foreground
    } else if idx == 3 {
        st.complement
    } else if idx == 4 {
        st.dark
    } else {
        st.light_dark
    }
}

pub open spec fn with_field(st: ParseState, idx: int, v: u32) -> ParseState {
    if idx == 0 {
        ParseState { accent: Some(v), ..st }
    } else if idx == 1 {
        ParseState { accent_deep: Some(v), ..st }
    } else if idx == 2 {
        ParseState { foreground: Some(v), ..st }
    } else if idx == 3 {
        ParseState { complement: Some(v), ..st }
    } else if idx == 4 {
        ParseState { dark: Some(v), ..st }
    } else {
        ParseState { light_dark: Some(v), ..st }
    }
}

/// What one `key = value` pair in the `theme` section does to the state:
/// unknown keys are ignored, a repeated required key is an error, and a
/// required key records its value if it is a valid 32-bit integer literal.
pub open spec fn assign(st: ParseState, idx: int, val: Seq<u8>) -> Result<ParseState, ParseError> {
    if idx == 6 {
        Ok(st)
    } else if get_field(st, idx) is Some {
        Err(ParseError::DuplicateField)
    } else {
        match spec_parse_u32(val) {
            Some(v) => Ok(with_field(st, idx, v)),
            None => Err(ParseError::InvalidValue),
        }
    }
}

/// What one line does to the parser state. Blank lines and `#` comments are
/// skipped; a `[...]` line enters the `theme` section exactly when it is
/// `[theme]` and leaves it otherwise; outside the `theme` section everything
/// else is ignored; inside it, a line must be a `key = value` pair.
pub open spec fn step(st: ParseState, line: Seq<u8>) -> Result<ParseState, ParseError> {
    let t = trim(line);
    if t.len() == 0 {
        Ok(st)
    } else if t[0] == 35 {
        Ok(st)
    } else if t[0] == 91 {
        Ok(ParseState { in_theme: t == header_bytes(), ..st })
    } else if !st.in_theme {
        Ok(st)
    } else {
        let e = find(t, 61);
        if e >= t.len() {
            Err(ParseError::MalformedLine)
        } else {
            assign(st, spec_key_index(trim(t.take(e as int))), trim(t.skip(e as int + 1)))
        }
    }
}

/// The theme assembled at end of input, or `MissingField` if a required field
/// never appeared.
pub open spec fn finish(st: ParseState) -> Result<Theme, ParseError> {
    if st.accent is Some && st.accent_deep is Some && st.foreground is Some && st.complement
        is Some && st.dark is Some && st.light_dark is Some {
        Ok(
            Theme {
                accent: st.accent->0,
                accent_deep: st.accent_deep->0,
                foreground: st.foreground->0,
                complement: st.complement->0,
                dark: st.dark->0,
                light_dark: st.light_dark->0,
            },
        )
    } else {
        Err(ParseError::MissingField)
    }
}

/// Folds `step` over the remaining input, one `\n`-terminated line at a time.
pub open spec fn parse_rest(s: Seq<u8>, st: ParseState) -> Result<Theme, ParseError>
    decreases s.len(),
{
    if s.len() == 0 {
        finish(st)
    } else {
        let e = find(s, 10);
        if e >= s.len() {
            match step(st, s) {
                Err(pe) => Err(pe),
                Ok(st2) => finish(st2),
            }
        } else {
            match step(st, s.take(e as int)) {
                Err(pe) => Err(pe),
                Ok(st2) => parse_rest(s.skip(e as int + 1), st2),
            }
        }
    }
}

/// What parsing a theme source yields: the theme whose six fields are the
/// values recorded in the `theme` section, or the first error the line fold
/// hits, or `MissingField` at end of input.
pub open spec fn spec_parse(s: Seq<u8>) -> Result<Theme, ParseError> {
    parse_rest(s, init_state())
}

fn header_vec() -> (r: Vec<u8>)
    ensures
        r@ == header_bytes(),
{
    let mut v: Vec<u8> = Vec::new();
    v.push(91);
    v.push(116);
    v.push(104);
    v.push(101);
    v.push(109);
    v.push(101);
    v.push(93);
    proof {
        assert(v@ =~= header_bytes());
    }
    v
}

/// The six required keys as byte vectors, in the field order of `Theme`.
pub fn field_keys() -> (r: Vec<Vec<u8>>)
    ensures
        r@.len() == 6,
        forall|i: int| 0 <= i < 6 ==> #[trigger] r@[i]@ == nth_key(i),
{
    let mut ks: Vec<Vec<u8>> = Vec::new();
    let mut k: Vec<u8> = Vec::new();
    k.push(97);
    k.push(99);
    k.push(99);
    k.push(101);
    k.push(110);
    k.push(116);
    proof {
        assert(k@ =~= key_accent());
    }
    ks.push(k);
    let mut k: Vec<u8> = Vec::new();
    k.push(97);
    k.push(99);
    k.push(99);
    k.push(101);
    k.push(110);
    k.push(116);
    k.push(95);
    k.push(100);
    k.push(101);
    k.push(101);
    k.push(112);
    proof {
        assert(k@ =~= key_accent_deep());
    }
    ks.push(k);
    let mut k: Vec<u8> = Vec::new();
    k.push(102);
    k.push(111);
    k.push(114);
    k.push(101);
    k.push(103);
    k.push(114);
    k.push(111);
    k.push(117);
    k.push(110);
    k.push(100);
    proof {
        assert(k@ =~= key_foreground());
    }
    ks.push(k);
    let mut k: Vec<u8> = Vec::new();
    k.push(99);
    k.push(111);
    k.push(109);
    k.push(112);
    k.push(108);
    k.push(101);
    k.push(109);
    k.push(101);
    k.push(110);
    k.push(116);
    proof {
        assert(k@ =~= key_complement());
    }
    ks.push(k);
    let mut k: Vec<u8> = Vec::new();
    k.push(100);
    k.push(97);
    k.push(114);
    k.push(107);
    proof {
        assert(k@ =~= key_dark());
    }
    ks.push(k);
    let mut k: Vec<u8> = Vec::new();
    k.push(108);
    k.push(105);
    k.push(103);
    k.push(104);
    k.push(116);
    k.push(95);
    k.push(100);
    k.push(97);
    k.push(114);
    k.push(107);
    proof {
        assert(k@ =~= key_light_dark());
    }
    ks.push(k);
    ks
}

fn key_index_exec(key: &[u8]) -> (r: usize)
    ensures
        r == spec_key_index(key@),
{
    let keys = field_keys();
    let mut i: usize = 0;
    while i < 6
        invariant
            i <= 6,
            keys@.len() == 6,
            forall|j: int| 0 <= j < 6 ==> #[trigger] keys@[j]@ == nth_key(j),
            forall|j: int| 0 <= j < i ==> key@ != nth_key(j),
        decreases 6 - i,
    {
        if bytes_eq(key, keys[i].as_slice()) {
            return i;
        }
        i = i + 1;
    }
    6
}

#[verifier::rlimit(60)]
fn step_exec(st: ParseState, line: &[u8]) -> (r: Result<ParseState, ParseError>)
    ensures
        r == step(st, line@),
{
    let t = trim_slice(line);
    if t.len() == 0 {
        return Ok(st);
    }
    let b0 = t[0];
    if b0 == 35 {
        return Ok(st);
    }
    if b0 == 91 {
        let hdr = header_vec();
        let is_hdr = bytes_eq(t, hdr.as_slice());
        return Ok(ParseState { in_theme: is_hdr, ..st });
    }
    if !st.in_theme {
        return Ok(st);
    }
    let e = find_byte(t, 0, 61);
    proof {
        assert(t@.skip(0) =~= t@);
    }
    if e >= t.len() {
        return Err(ParseError::MalformedLine);
    }
    let key_part = vstd::slice::slice_subrange(t, 0, e);
    let val_part = vstd::slice::slice_subrange(t, e + 1, t.len());
    proof {
        assert(key_part@ =~= t@.take(e as int));
        assert(val_part@ =~= t@.skip(e as int + 1));
    }
    let key = trim_slice(key_part);
    let val = trim_slice(val_part);
    let idx = key_index_exec(key);
    if idx == 6 {
        return Ok(st);
    }
    let dup = match idx {
        0 => st.accent.is_some(),
        1 => st.accent_deep.is_some(),
        2 => st.foreground.is_some(),
        3 => st.complement.is_some(),
        4 => st.dark.is_some(),
        _ => st.light_dark.is_some(),
    };
    if dup {
        return Err(ParseError::DuplicateField);
    }
    match parse_u32(val) {
        None => Err(ParseError::InvalidValue),
        Some(v) => {
            let st2 = match idx {
                0 => ParseState { accent: Some(v), ..st },
                1 => ParseState { accent_deep: Some(v), ..st },
                2 => ParseState { foreground: Some(v), ..st },
                3 => ParseState { complement: Some(v), ..st },
                4 => ParseState { dark: Some(v), ..st },
                _ => ParseState { light_dark: Some(v), ..st },
            };
            proof {
                assert(st2 == with_field(st, spec_key_index(key@), v));
            }
            Ok(st2)
        },
    }
}

fn finish_exec(st: ParseState) -> (r: Result<Theme, ParseError>)
    ensures
        r == finish(st),
{
    match (st.accent, st.accent_deep, st.foreground, st.complement, st.dark, st.light_dark) {
        (Some(a), Some(ad), Some(f), Some(c), Some(d), Some(ld)) => Ok(
            Theme {
                accent: a,
                accent_deep: ad,
                foreground: f,
                complement: c,
                dark: d,
                light_dark: ld,
            },
        ),
        _ => Err(ParseError::MissingField),
    }
}

/// Parses a theme source. Returns exactly what `spec_parse` says: the theme
/// recorded by the `theme` section, or the error for the first offending
/// line, or `MissingField` when a required field never appears.
pub fn parse_theme(source: &[u8]) -> (r: Result<Theme, ParseError>)
    ensures
        r == spec_parse(source@),
{
    let mut st = ParseState {
        in_theme: false,
        accent: None,
        accent_deep: None,
        foreground: None,
        complement: None,
        dark: None,
        light_dark: None,
    };
    let mut p: usize = 0;
    proof {
        assert(source@.skip(0) =~= source@);
    }
    while p < source.len()
        invariant
            p <= source@.len(),
            spec_parse(source@) == parse_rest(source@.skip(p as int), st),
        decreases source@.len() - p,
    {
        let ghost rem = source@.skip(p as int);
        let e = find_byte(source, p, 10);
        proof {
            lemma_find_bounds(rem, 10);
            assert(rem.len() == source@.len() - p);
        }
        let line = vstd::slice::slice_subrange(source, p, e);
        proof {
            assert(line@ =~= rem.take(e - p));
            if e == source@.len() {
                assert(rem.take(e - p) =~= rem);
            }
        }
        match step_exec(st, line) {
            Err(pe) => {
                return Err(pe);
            },
            Ok(st2) => {
                st = st2;
                if e < source.len() {
                    proof {
                        assert(source@.skip(e as int + 1) =~= rem.skip((e - p) as int + 1));
                    }
                    p = e + 1;
                } else {
                    proof {
                        assert(source@.skip(source@.len() as int) =~= Seq::<u8>::empty());
                    }
                    p = source.len();
                }
            },
        }
    }
    proof {
        assert(source@.skip(p as int) =~= Seq::<u8>::empty());
    }
    finish_exec(st)
}

/// The ` = ` separator between a key and its value in a generated file.
pub open spec fn sep() -> Seq<u8> {
    seq![32u8, 61u8, 32u8]
}

/// The line terminator of a generated file.
pub open spec fn nl() -> Seq<u8> {
    seq![10u8]
}

/// One generated `key = value` line body (without the terminator): the key,
/// ` = `, and the value in canonical decimal.
pub open spec fn kv(key: Seq<u8>, v: u32) -> Seq<u8> {
    key + sep() + spec_dec(v as nat)
}

/// The canonical generated theme file: a `[theme]` header and the six fields
/// in declaration order, one `key = value` line each.
pub open spec fn spec_generate(t: Theme) -> Seq<u8> {
    header_bytes() + nl() + kv(nth_key(0), t.accent) + nl() + kv(nth_key(1), t.accent_deep) + nl()
        + kv(nth_key(2), t.foreground) + nl() + kv(nth_key(3), t.complement) + nl() + kv(
        nth_key(4),
        t.dark,
    ) + nl() + kv(nth_key(5), t.light_dark) + nl()
}

fn push_kv(out: &mut Vec<u8>, key: &[u8], v: u32)
    ensures
        final(out)@ == old(out)@ + kv(key@, v) + nl(),
{
    crate::text::push_bytes(out, key);
    out.push(32);
    out.push(61);
    out.push(32);
    push_dec(out, v);
    out.push(10);
    proof {
        assert(out@ =~= old(out)@ + kv(key@, v) + nl());
    }
}

/// Renders `theme` as a theme file, exactly as `spec_generate` says.
pub fn generate_theme(theme: &Theme) -> (r: Vec<u8>)
    ensures
        r@ == spec_generate(*theme),
{
    let hdr = header_vec();
    let keys = field_keys();
    let mut out: Vec<u8> = Vec::new();
    crate::text::push_bytes(&mut out, hdr.as_slice());
    out.push(10);
    proof {
        assert(out@ =~= header_bytes() + nl());
    }
    let ghost g0 = out@;
    push_kv(&mut out, keys[0].as_slice(), theme.accent);
    let ghost g1 = out@;
    push_kv(&mut out, keys[1].as_slice(), theme.accent_deep);
    let ghost g2 = out@;
    push_kv(&mut out, keys[2].as_slice(), theme.foreground);
    let ghost g3 = out@;
    push_kv(&mut out, keys[3].as_slice(), theme.complement);
    let ghost g4 = out@;
    push_kv(&mut out, keys[4].as_slice(), theme.dark);
    let ghost g5 = out@;
    push_kv(&mut out, keys[5].as_slice(), theme.light_dark);
    proof {
        assert(out@ =~= spec_generate(*theme));
    }
    out
}

/// Bytes that may form a required key: lower-case ASCII letters and `_`.
pub open spec fn lower_key_byte(b: u8) -> bool {
    97 <= b <= 122 || b == 95
}

pub open spec fn all_key_bytes(k: Seq<u8>) -> bool {
    forall|i: int| 0 <= i < k.len() ==> lower_key_byte(#[trigger] k[i])
}

proof fn lemma_nth_key_shape(i: int)
    requires
        0 <= i < 6,
    ensures
        nth_key(i).len() > 0,
        all_key_bytes(nth_key(i)),
{
}

/// A generated `key = value` line body contains no line terminator.
proof fn lemma_kv_no_newline(k: Seq<u8>, v: u32)
    requires
        all_key_bytes(k),
    ensures
        forall|i: int| 0 <= i < kv(k, v).len() ==> kv(k, v)[i] != 10,
{
    lemma_dec_digits(v as nat);
    let line = kv(k, v);
    assert forall|i: int| 0 <= i < line.len() implies line[i] != 10 by {
        if i < k.len() {
            assert(line[i] == k[i]);
        } else if i < k.len() + 3 {
            assert(line[i] == sep()[i - k.len()]);
        } else {
            assert(line[i] == spec_dec(v as nat)[i - k.len() - 3]);
            assert(is_digit(spec_dec(v as nat)[i - k.len() - 3]));
        }
    }
}

/// Consuming one terminated line of input folds `step` over that line and
/// goes on with the rest.
proof fn lemma_consume_line(st: ParseState, line: Seq<u8>, rest: Seq<u8>)
    requires
        forall|i: int| 0 <= i < line.len() ==> line[i] != 10,
    ensures
        parse_rest(line + nl() + rest, st) == (match step(st, line) {
            Err(pe) => Err::<Theme, ParseError>(pe),
            Ok(st2) => parse_rest(rest, st2),
        }),
{
    let s = line + nl() + rest;
    assert(s =~= line + (nl() + rest));
    lemma_find_append(line, nl() + rest, 10);
    assert((nl() + rest)[0] == 10);
    let e = find(s, 10);
    assert(e == line.len());
    assert(e < s.len());
    assert(s.take(e as int) =~= line);
    assert(s.skip(e as int + 1) =~= rest);
}

/// What `step` makes of a generated `key = value` line: exactly the `assign`
/// for that key and its canonical decimal value.
proof fn lemma_step_key_line(st: ParseState, k: Seq<u8>, v: u32)
    requires
        st.in_theme,
        k.len() > 0,
        all_key_bytes(k),
    ensures
        step(st, kv(k, v)) == assign(st, spec_key_index(k), spec_dec(v as nat)),
{
    lemma_dec_digits(v as nat);
    let dec = spec_dec(v as nat);
    let line = kv(k, v);
    assert(line[0] == k[0]);
    assert(!is_ws(line[0]) && line[0] != 35 && line[0] != 91);
    assert(trim_front(line) == line);
    assert(line.last() == dec.last());
    assert(is_digit(dec.last()) && !is_ws(line.last()));
    assert(trim_back(line) == line);
    assert(trim(line) == line);
    let a = k + seq![32u8];
    assert(forall|i: int| 0 <= i < a.len() ==> a[i] != 61);
    assert(line =~= a + (seq![61u8, 32u8] + dec));
    lemma_find_append(a, seq![61u8, 32u8] + dec, 61);
    assert((seq![61u8, 32u8] + dec)[0] == 61);
    let e = find(line, 61);
    assert(e == k.len() + 1);
    assert(e < line.len());
    assert(line.take(e as int) =~= a);
    assert(!is_ws(a[0]));
    assert(trim_front(a) == a);
    assert(a.last() == 32 && is_ws(a.last()));
    assert(a.drop_last() =~= k);
    assert(lower_key_byte(k[k.len() - 1]));
    assert(k.last() == k[k.len() - 1]);
    assert(!is_ws(k.last()));
    assert(trim_back(k) == k);
    assert(trim_back(a) == trim_back(a.drop_last()));
    assert(trim_back(a) == k);
    assert(trim(line.take(e as int)) == k);
    let b = seq![32u8] + dec;
    assert(line.skip(e as int + 1) =~= b);
    assert(is_ws(b[0]));
    assert(b.drop_first() =~= dec);
    assert(is_digit(dec[0]));
    assert(!is_ws(dec[0]));
    assert(trim_front(b) == trim_front(b.drop_first()));
    assert(trim_front(b) == dec);
    assert(!is_ws(dec.last()));
    assert(trim_back(dec) == dec);
    assert(trim(line.skip(e as int + 1)) == dec);
}

/// Generating a theme file from a theme and parsing it back yields exactly
/// that theme: every color value survives the round trip.
#[verifier::rlimit(100)]
pub proof fn lemma_generate_parse_round_trip(t: Theme)
    ensures
        spec_parse(spec_generate(t)) == Ok::<Theme, ParseError>(t),
{
    let l1 = kv(nth_key(0), t.accent);
    let l2 = kv(nth_key(1), t.accent_deep);
    let l3 = kv(nth_key(2), t.foreground);
    let l4 = kv(nth_key(3), t.complement);
    let l5 = kv(nth_key(4), t.dark);
    let l6 = kv(nth_key(5), t.light_dark);
    let r6: Seq<u8> = Seq::empty();
    let r5 = l6 + nl() + r6;
    let r4 = l5 + nl() + r5;
    let r3 = l4 + nl() + r4;
    let r2 = l3 + nl() + r3;
    let r1 = l2 + nl() + r2;
    let r0 = l1 + nl() + r1;
    let g = spec_generate(t);
    assert(l6 + nl() + r6 =~= l6 + nl());
    assert(g =~= header_bytes() + nl() + r0);

    let st0 = init_state();
    let st1 = ParseState { in_theme: true, ..st0 };
    assert(forall|i: int| 0 <= i < header_bytes().len() ==> header_bytes()[i] != 10);
    lemma_consume_line(st0, header_bytes(), r0);
    assert(!is_ws(header_bytes()[0]));
    assert(trim_front(header_bytes()) == header_bytes());
    assert(!is_ws(header_bytes().last()));
    assert(trim_back(header_bytes()) == header_bytes());
    assert(step(st0, header_bytes()) == Ok::<ParseState, ParseError>(st1));
    assert(parse_rest(g, st0) == parse_rest(r0, st1));

    assert(nth_key(0) != nth_key(1) && nth_key(0) != nth_key(2) && nth_key(0) != nth_key(3)
        && nth_key(0) != nth_key(4) && nth_key(0) != nth_key(5));
    assert(key_complement()[0] != key_foreground()[0] && key_light_dark()[0] != key_foreground()[0]
        && key_light_dark()[0] != key_complement()[0]);
    assert(spec_key_index(nth_key(0)) == 0 && spec_key_index(nth_key(1)) == 1 && spec_key_index(
        nth_key(2),
    ) == 2 && spec_key_index(nth_key(3)) == 3 && spec_key_index(nth_key(4)) == 4 && spec_key_index(
        nth_key(5),
    ) == 5);

    lemma_nth_key_shape(0);
    lemma_kv_no_newline(nth_key(0), t.accent);
    lemma_consume_line(st1, l1, r1);
    lemma_step_key_line(st1, nth_key(0), t.accent);
    lemma_parse_of_dec(t.accent);
    let st2 = ParseState { accent: Some(t.accent), ..st1 };
    assert(parse_rest(r0, st1) == parse_rest(r1, st2));

    lemma_nth_key_shape(1);
    lemma_kv_no_newline(nth_key(1), t.accent_deep);
    lemma_consume_line(st2, l2, r2);
    lemma_step_key_line(st2, nth_key(1), t.accent_deep);
    lemma_parse_of_dec(t.accent_deep);
    let st3 = ParseState { accent_deep: Some(t.accent_deep), ..st2 };
    assert(parse_rest(r1, st2) == parse_rest(r2, st3));

    lemma_nth_key_shape(2);
    lemma_kv_no_newline(nth_key(2), t.foreground);
    lemma_consume_line(st3, l3, r3);
    lemma_step_key_line(st3, nth_key(2), t.foreground);
    lemma_parse_of_dec(t.foreground);
    let st4 = ParseState { foreground: Some(t.foreground), ..st3 };
    assert(parse_rest(r2, st3) == parse_rest(r3, st4));

    lemma_nth_key_shape(3);
    lemma_kv_no_newline(nth_key(3), t.complement);
    lemma_consume_line(st4, l4, r4);
    lemma_step_key_line(st4, nth_key(3), t.complement);
    lemma_parse_of_dec(t.complement);
    let st5 = ParseState { complement: Some(t.complement), ..st4 };
    assert(parse_rest(r3, st4) == parse_rest(r4, st5));

    lemma_nth_key_shape(4);
    lemma_kv_no_newline(nth_key(4), t.dark);
    lemma_consume_line(st5, l5, r5);
    lemma_step_key_line(st5, nth_key(4), t.dark);
    lemma_parse_of_dec(t.dark);
    let st6 = ParseState { dark: Some(t.dark), ..st5 };
    assert(parse_rest(r4, st5) == parse_rest(r5, st6));

    lemma_nth_key_shape(5);
    lemma_kv_no_newline(nth_key(5), t.light_dark);
    lemma_consume_line(st6, l6, r6);
    lemma_step_key_line(st6, nth_key(5), t.light_dark);
    lemma_parse_of_dec(t.light_dark);
    let st7 = ParseState { light_dark: Some(t.light_dark), ..st6 };
    assert(parse_rest(r5, st6) == parse_rest(r6, st7));

    assert(parse_rest(r6, st7) == finish(st7));
    assert(finish(st7) == Ok::<Theme, ParseError>(t));
}

/// Whether, after `line`, the cursor is inside the `theme` section: exactly
/// the section tracking `step` does.
pub open spec fn next_in_theme(in_theme: bool, line: Seq<u8>) -> bool {
    let t = trim(line);
    if t.len() == 0 {
        in_theme
    } else if t[0] == 35 {
        in_theme
    } else if t[0] == 91 {
        t == header_bytes()
    } else {
        in_theme
    }
}

/// Whether `line`, read while the cursor is `in_theme`, is a `key = value`
/// pair for required field `idx`.
pub open spec fn line_assigns(in_theme: bool, line: Seq<u8>, idx: int) -> bool {
    let t = trim(line);
    in_theme && t.len() > 0 && t[0] != 35 && t[0] != 91 && {
        let e = find(t, 61);
        e < t.len() && spec_key_index(trim(t.take(e as int))) == idx
    }
}

/// Whether any line of `s`, read with the section tracking started at
/// `in_theme`, is a `key = value` pair for required field `idx` inside the
/// `theme` section. A source in which this is false for some field is a
/// source missing that field.
pub open spec fn source_assigns(s: Seq<u8>, in_theme: bool, idx: int) -> bool
    decreases s.len(),
{
    if s.len() == 0 {
        false
    } else {
        let e = find(s, 10);
        if e >= s.len() {
            line_assigns(in_theme, s, idx)
        } else {
            line_assigns(in_theme, s.take(e as int), idx) || source_assigns(
                s.skip(e as int + 1),
                next_in_theme(in_theme, s.take(e as int)),
                idx,
            )
        }
    }
}

/// A line that is not a `theme`-section assignment of field `idx` leaves
/// that field unrecorded, and moves the section cursor as `next_in_theme`
/// says.
proof fn lemma_step_keeps_field_missing(st: ParseState, line: Seq<u8>, idx: int)
    requires
        0 <= idx < 6,
        get_field(st, idx) is None,
        !line_assigns(st.in_theme, line, idx),
    ensures
        step(st, line) is Ok ==> get_field(step(st, line)->Ok_0, idx) is None,
        step(st, line) is Ok ==> step(st, line)->Ok_0.in_theme == next_in_theme(
            st.in_theme,
            line,
        ),
{
    let t = trim(line);
    if t.len() > 0 && t[0] != 35 && t[0] != 91 && st.in_theme {
        let e = find(t, 61);
        if e < t.len() {
            let kidx = spec_key_index(trim(t.take(e as int)));
            assert(kidx != idx);
            if step(st, line) is Ok {
                assert(get_field(step(st, line)->Ok_0, idx) == get_field(st, idx));
            }
        }
    }
}

proof fn lemma_parse_rest_missing_field(s: Seq<u8>, st: ParseState, idx: int)
    requires
        0 <= idx < 6,
        get_field(st, idx) is None,
        !source_assigns(s, st.in_theme, idx),
    ensures
        parse_rest(s, st) is Err,
    decreases s.len(),
{
    if s.len() == 0 {
        assert(finish(st) is Err);
    } else {
        let e = find(s, 10);
        let line = if e >= s.len() {
            s
        } else {
            s.take(e as int)
        };
        lemma_step_keeps_field_missing(st, line, idx);
        match step(st, line) {
            Err(pe) => {},
            Ok(st2) => {
                if e >= s.len() {
                    assert(finish(st2) is Err);
                } else {
                    lemma_parse_rest_missing_field(s.skip(e as int + 1), st2, idx);
                }
            },
        }
    }
}

/// A theme source that never assigns one of the six required fields inside
/// the `theme` section does not parse: the result is a `ParseError`. With
/// `apply_command`'s contract this shapes the whole Apply command — such a
/// source is rejected before any target is attempted, with zero dispatch
/// attempts.
pub proof fn lemma_missing_field_rejected(s: Seq<u8>, idx: int)
    requires
        0 <= idx < 6,
        !source_assigns(s, false, idx),
    ensures
        spec_parse(s) is Err,
{
    lemma_parse_rest_missing_field(s, init_state(), idx);
}

} // verus!
