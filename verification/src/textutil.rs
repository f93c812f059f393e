//! Byte-level text helpers: decimal and hexadecimal rendering, byte-string
//! comparison, and line/column location of a byte offset inside a text.

use vstd::prelude::*;

verus! {

/// Decimal digits of `n`, most significant first.
pub open spec fn spec_dec(n: nat) -> Seq<u8>
    decreases n,
{
    if n < 10 {
        seq![(n + 0x30) as u8]
    } else {
        spec_dec(n / 10).push(((n % 10) + 0x30) as u8)
    }
}

/// Decimal text of a signed number: a minus sign before the digits when negative.
pub open spec fn spec_dec_int(n: int) -> Seq<u8> {
    if n >= 0 {
        spec_dec(n as nat)
    } else {
        seq![0x2du8] + spec_dec((-n) as nat)
    }
}

pub fn dec_u32(n: u32) -> (r: Vec<u8>)
    ensures
        r@ == spec_dec(n as nat),
    decreases n,
{
    if n < 10 {
        let mut v: Vec<u8> = Vec::new();
        v.push((n as u8) + 0x30);
        assert(v@ =~= spec_dec(n as nat));
        v
    } else {
        let mut v = dec_u32(n / 10);
        v.push(((n % 10) as u8) + 0x30);
        assert(v@ =~= spec_dec(n as nat));
        v
    }
}

pub fn dec_u64(n: u64) -> (r: Vec<u8>)
    ensures
        r@ == spec_dec(n as nat),
    decreases n,
{
    if n < 10 {
        let mut v: Vec<u8> = Vec::new();
        v.push((n as u8) + 0x30);
        assert(v@ =~= spec_dec(n as nat));
        v
    } else {
        let mut v = dec_u64(n / 10);
        v.push(((n % 10) as u8) + 0x30);
        assert(v@ =~= spec_dec(n as nat));
        v
    }
}

pub fn dec_i64(n: i64) -> (r: Vec<u8>)
    ensures
        r@ == spec_dec_int(n as int),
{
    if n >= 0 {
        dec_u64(n as u64)
    } else {
        let neg: i128 = -(n as i128);
        let m: u64 = neg as u64;
        let mut v: Vec<u8> = Vec::new();
        v.push(0x2d);
        let mut d = dec_u64(m);
        v.append(&mut d);
        assert(v@ =~= spec_dec_int(n as int));
        v
    }
}

/// One hexadecimal digit, upper case.
pub open spec fn spec_hex_digit(d: nat) -> u8 {
    if d < 10 {
        (d + 0x30) as u8
    } else {
        (d - 10 + 0x41) as u8
    }
}

/// Two upper-case hexadecimal digits of one byte.
pub open spec fn spec_hex_byte(b: u8) -> Seq<u8> {
    seq![spec_hex_digit(b as nat / 16), spec_hex_digit(b as nat % 16)]
}

pub fn hex_byte(b: u8) -> (r: Vec<u8>)
    ensures
        r@ == spec_hex_byte(b),
{
    let hi = b / 16;
    let lo = b % 16;
    let mut v: Vec<u8> = Vec::new();
    v.push(if hi < 10 { hi + 0x30 } else { hi - 10 + 0x41 });
    v.push(if lo < 10 { lo + 0x30 } else { lo - 10 + 0x41 });
    assert(v@ =~= spec_hex_byte(b));
    v
}

/// The bytes of an ASCII character sequence, one byte per character.
pub open spec fn ascii_bytes(cs: Seq<char>) -> Seq<u8> {
    Seq::new(cs.len(), |i: int| cs[i] as u8)
}

/// Bytes of an ASCII string slice.
pub fn str_bytes(s: &str) -> (r: Vec<u8>)
    requires
        s.is_ascii(),
    ensures
        r@ == ascii_bytes(s@),
{
    let v = s.as_bytes_vec();
    proof {
        broadcast use vstd::string::is_ascii_spec_bytes;

        assert(v@ =~= ascii_bytes(s@));
    }
    v
}

/// `n` space bytes.
pub open spec fn spec_spaces(n: int) -> Seq<u8> {
    Seq::new(if n >= 0 {
        n as nat
    } else {
        0
    }, |k: int| 0x20u8)
}

pub fn spaces(n: usize) -> (r: Vec<u8>)
    ensures
        r@ == spec_spaces(n as int),
{
    let mut v: Vec<u8> = Vec::new();
    let mut k: usize = 0;
    while k < n
        invariant
            k <= n,
            v@ == spec_spaces(k as int),
        decreases n - k,
    {
        v.push(0x20);
        k += 1;
        assert(v@ =~= spec_spaces(k as int));
    }
    v
}

/// A line with one trailing carriage return removed, as `str::lines` does.
pub open spec fn spec_strip_cr(line: Seq<u8>) -> Seq<u8> {
    if line.len() > 0 && line.last() == 0x0du8 {
        line.drop_last()
    } else {
        line
    }
}

/// Position of the first newline at or after `i`, or the length.
pub open spec fn spec_first_nl(s: Seq<u8>, i: int) -> int
    decreases s.len() - i,
{
    if 0 <= i < s.len() {
        if s[i] == 0x0au8 {
            i
        } else {
            spec_first_nl(s, i + 1)
        }
    } else {
        i
    }
}

pub proof fn lemma_first_nl_bounds(s: Seq<u8>, i: int)
    requires
        0 <= i <= s.len(),
    ensures
        i <= spec_first_nl(s, i) <= s.len(),
        spec_first_nl(s, i) < s.len() ==> s[spec_first_nl(s, i)] == 0x0au8,
    decreases s.len() - i,
{
    if i < s.len() && s[i] != 0x0au8 {
        lemma_first_nl_bounds(s, i + 1);
    }
}

/// The indented text from position `i` on: the text splits at newlines;
/// each piece but the first, when not empty, gains `n` leading spaces. A
/// piece that a newline follows loses one trailing carriage return, as
/// `str::lines` drops it; a final piece without a newline keeps its bytes.
pub open spec fn spec_indent_from(n: int, s: Seq<u8>, i: int, first: bool) -> Seq<u8>
    decreases s.len() - i,
{
    let p = spec_first_nl(s, i);
    if 0 <= i <= s.len() && i <= p <= s.len() {
        let raw = s.subrange(i, p);
        let piece = if p < s.len() {
            spec_strip_cr(raw)
        } else {
            raw
        };
        let head = (if first {
            Seq::<u8>::empty()
        } else {
            seq![0x0au8]
        }) + (if !first && piece.len() > 0 {
            spec_spaces(n)
        } else {
            Seq::<u8>::empty()
        }) + piece;
        if p < s.len() {
            head + spec_indent_from(n, s, p + 1, false)
        } else {
            head
        }
    } else {
        Seq::<u8>::empty()
    }
}

/// Indentation as the indent crate's `indent_by` does it: every line but
/// the first, when not empty, gains `n` leading spaces; a carriage return
/// before a newline is dropped, one not before a newline is kept, and a
/// trailing newline stays a trailing newline.
pub open spec fn spec_indent(n: int, s: Seq<u8>) -> Seq<u8> {
    spec_indent_from(n, s, 0, true)
}

fn indent_from(n: usize, s: &[u8], i: usize, first: bool) -> (r: Vec<u8>)
    requires
        i <= s@.len(),
    ensures
        r@ == spec_indent_from(n as int, s@, i as int, first),
    decreases s@.len() - i,
{
    proof {
        lemma_first_nl_bounds(s@, i as int);
    }
    let (p, piece) = first_piece(s, i);
    let mut out: Vec<u8> = Vec::new();
    if !first {
        out.push(0x0a);
        if piece.len() > 0 {
            let mut sp = spaces(n);
            out.append(&mut sp);
        }
    }
    let mut pc = piece;
    out.append(&mut pc);
    if p < s.len() {
        let mut rest = indent_from(n, s, p + 1, false);
        out.append(&mut rest);
        assert(out@ =~= spec_indent_from(n as int, s@, i as int, first));
        out
    } else {
        assert(out@ =~= spec_indent_from(n as int, s@, i as int, first));
        out
    }
}

/// Indent a text by `n` spaces, as the indent crate's `indent_by` does.
pub fn indent_by_spaces(n: usize, s: &[u8]) -> (r: Vec<u8>)
    ensures
        r@ == spec_indent(n as int, s@),
{
    indent_from(n, s, 0, true)
}

/// One piece of `s` up to the next newline: stripped of one trailing
/// carriage return when a newline follows, kept whole at the end.
fn first_piece(s: &[u8], i: usize) -> (r: (usize, Vec<u8>))
    requires
        i <= s@.len(),
    ensures
        r.0 == spec_first_nl(s@, i as int),
        i <= r.0 <= s@.len(),
        r.1@ == (if r.0 < s@.len() {
            spec_strip_cr(s@.subrange(i as int, r.0 as int))
        } else {
            s@.subrange(i as int, r.0 as int)
        }),
{
    let mut j = i;
    while j < s.len() && s[j] != 0x0a
        invariant
            i <= j <= s@.len(),
            spec_first_nl(s@, i as int) == spec_first_nl(s@, j as int),
        decreases s@.len() - j,
    {
        j += 1;
    }
    let piece = slice_range(s, i, j);
    if j < s.len() && piece.len() > 0 && piece[piece.len() - 1] == 0x0d {
        let mut p = piece;
        p.pop();
        assert(p@ =~= spec_strip_cr(s@.subrange(i as int, j as int)));
        (j, p)
    } else {
        (j, piece)
    }
}

/// A copy of `s[a..b]`.
pub fn slice_range(s: &[u8], a: usize, b: usize) -> (r: Vec<u8>)
    requires
        a <= b <= s@.len(),
    ensures
        r@ == s@.subrange(a as int, b as int),
{
    let n = s.len();
    let mut v: Vec<u8> = Vec::new();
    let mut j = a;
    assert(v@ =~= s@.subrange(a as int, a as int));
    while j < b
        invariant
            a <= j <= b <= s@.len(),
            s@.len() <= usize::MAX,
            v@ == s@.subrange(a as int, j as int),
        decreases b - j,
    {
        v.push(s[j]);
        j += 1;
        assert(v@ =~= s@.subrange(a as int, j as int));
    }
    v
}

pub fn bytes_eq(a: &[u8], b: &[u8]) -> (r: bool)
    ensures
        r == (a@ == b@),
{
    if a.len() != b.len() {
        assert(a@ != b@);
        return false;
    }
    let mut i: usize = 0;
    while i < a.len()
        invariant
            i <= a.len(),
            a@.len() == b@.len(),
            forall|k: int| 0 <= k < i ==> a@[k] == b@[k],
        decreases a.len() - i,
    {
        if a[i] != b[i] {
            return false;
        }
        i += 1;
    }
    assert(a@ =~= b@);
    true
}

} // verus!
