//! The value parsers shared by the lease and host grammars. Each works on the
//! characters of a text from a position on, and gives back the value read and the
//! position after it, or nothing where the text does not match.
use vstd::prelude::*;

use crate::macaddr::{hex_digit, hex_val, is_hex, MacAddr};
use crate::model::Ipv4Addr;
use crate::text::{chars_of, has_tag, string_of, tag_at};

pub mod hosts;
pub mod leases;

verus! {

/// Whether an executable parse result `r` is the spec result `g`.
pub open spec fn agrees<T: View>(r: Option<(T, usize)>, g: Option<(T::V, int)>) -> bool {
    match r {
        Some((a, j)) => g matches Some((b, k)) && a@ == b && j == k,
        None => g is None,
    }
}

/// Whether an executable parse result `r` of a plain value is the spec result `g`.
pub open spec fn same<T>(r: Option<(T, usize)>, g: Option<(T, int)>) -> bool {
    match r {
        Some((a, j)) => g matches Some((b, k)) && a == b && j == k,
        None => g is None,
    }
}

/// Whether an executable end position `r` is the spec one `g`.
pub open spec fn agrees_pos(r: Option<usize>, g: Option<int>) -> bool {
    match r {
        Some(j) => g == Some(j as int),
        None => g is None,
    }
}

pub open spec fn char_at(s: Seq<char>, i: int, c: char) -> bool {
    0 <= i < s.len() && s[i] == c
}

/// The position after `lit` where it stands at `i`.
pub open spec fn tag_end(s: Seq<char>, i: int, lit: Seq<char>) -> Option<int> {
    if has_tag(s, i, lit) {
        Some(i + lit.len())
    } else {
        None
    }
}

/// Reads the literal `lit` at `i`.
pub fn tag(s: &Vec<char>, i: usize, lit: &str) -> (r: Option<usize>)
    requires
        i <= s@.len(),
    ensures
        agrees_pos(r, tag_end(s@, i as int, lit@)),
        r matches Some(j) ==> i <= j <= s@.len(),
{
    let n = s.len();
    if tag_at(s, i, lit) {
        let l = chars_of(lit);
        Some(i + l.len())
    } else {
        None
    }
}

/// Reads the character `c` at `i`.
pub fn expect_char(s: &Vec<char>, i: usize, c: char) -> (r: Option<usize>)
    requires
        i <= s@.len(),
    ensures
        r is Some <==> char_at(s@, i as int, c),
        r matches Some(j) ==> j == i + 1 && j <= s@.len(),
{
    if i < s.len() && s[i] == c {
        Some(i + 1)
    } else {
        None
    }
}

pub open spec fn is_space(c: char) -> bool {
    c == ' ' || c == '\t' || c == '\r' || c == '\n'
}

/// The first line feed at or after `i`, or the end of `s`.
pub open spec fn line_end(s: Seq<char>, i: int) -> int
    decreases s.len() - i,
{
    if i < 0 || i >= s.len() || s[i] == '\n' {
        i
    } else {
        line_end(s, i + 1)
    }
}

/// The end of the comment whose `#` stands at `i`: past its line feed, or the end
/// of `s`.
pub open spec fn comment_end(s: Seq<char>, i: int) -> int {
    let j = line_end(s, i + 1);
    if j < s.len() {
        j + 1
    } else {
        j
    }
}

/// The end of the whitespace and comments that start at `i`.
pub open spec fn skip0(s: Seq<char>, i: int) -> int
    decreases s.len() - i,
{
    if 0 <= i < s.len() && is_space(s[i]) {
        skip0(s, i + 1)
    } else if 0 <= i < s.len() && s[i] == '#' && i < comment_end(s, i) <= s.len() {
        skip0(s, comment_end(s, i))
    } else {
        i
    }
}

/// Whitespace and comments at `i`, at least one character of them.
pub open spec fn skip1(s: Seq<char>, i: int) -> Option<int> {
    if skip0(s, i) > i {
        Some(skip0(s, i))
    } else {
        None
    }
}

proof fn lemma_line_end(s: Seq<char>, i: int)
    requires
        0 <= i <= s.len(),
    ensures
        i <= line_end(s, i) <= s.len(),
    decreases s.len() - i,
{
    if i < s.len() && s[i] != '\n' {
        lemma_line_end(s, i + 1);
    }
}

/// Skips a comment: `#` up to and including the end of its line.
pub fn comment(s: &Vec<char>, i: usize) -> (r: Option<usize>)
    requires
        i <= s@.len(),
    ensures
        r is Some <==> char_at(s@, i as int, '#'),
        r matches Some(j) ==> j == comment_end(s@, i as int) && i < j <= s@.len(),
{
    if !(i < s.len() && s[i] == '#') {
        return None;
    }
    let mut q = i + 1;
    while q < s.len() && s[q] != '\n'
        invariant
            i + 1 <= q <= s@.len(),
            line_end(s@, q as int) == line_end(s@, i + 1),
        decreases s@.len() - q,
    {
        q = q + 1;
    }
    if q < s.len() {
        Some(q + 1)
    } else {
        Some(q)
    }
}

/// Skips any whitespace (space, tab, carriage return, line feed) and comments.
pub fn anyspace0(s: &Vec<char>, i: usize) -> (r: usize)
    requires
        i <= s@.len(),
    ensures
        r == skip0(s@, i as int),
        i <= r <= s@.len(),
{
    let mut p = i;
    loop
        invariant
            i <= p <= s@.len(),
            skip0(s@, p as int) == skip0(s@, i as int),
        decreases s@.len() - p,
    {
        if p < s.len() && (s[p] == ' ' || s[p] == '\t' || s[p] == '\r' || s[p] == '\n') {
            p = p + 1;
        } else {
            match comment(s, p) {
                Some(q) => {
                    p = q;
                },
                None => {
                    return p;
                },
            }
        }
    }
}

/// Skips whitespace and comments, and fails where there are none.
pub fn anyspace1(s: &Vec<char>, i: usize) -> (r: Option<usize>)
    requires
        i <= s@.len(),
    ensures
        agrees_pos(r, skip1(s@, i as int)),
        r matches Some(j) ==> i < j <= s@.len(),
{
    let j = anyspace0(s, i);
    if j > i {
        Some(j)
    } else {
        None
    }
}

/// The end of the run of spaces and tabs at `i`.
pub open spec fn blank_end(s: Seq<char>, i: int) -> int
    decreases s.len() - i,
{
    if 0 <= i < s.len() && (s[i] == ' ' || s[i] == '\t') {
        blank_end(s, i + 1)
    } else {
        i
    }
}

pub open spec fn blank1(s: Seq<char>, i: int) -> Option<int> {
    if blank_end(s, i) > i {
        Some(blank_end(s, i))
    } else {
        None
    }
}

/// Skips spaces and tabs.
pub fn space0(s: &Vec<char>, i: usize) -> (r: usize)
    requires
        i <= s@.len(),
    ensures
        r == blank_end(s@, i as int),
        i <= r <= s@.len(),
{
    let mut p = i;
    while p < s.len() && (s[p] == ' ' || s[p] == '\t')
        invariant
            i <= p <= s@.len(),
            blank_end(s@, p as int) == blank_end(s@, i as int),
        decreases s@.len() - p,
    {
        p = p + 1;
    }
    p
}

/// Skips spaces and tabs, and fails where there are none.
pub fn space1(s: &Vec<char>, i: usize) -> (r: Option<usize>)
    requires
        i <= s@.len(),
    ensures
        agrees_pos(r, blank1(s@, i as int)),
        r matches Some(j) ==> i < j <= s@.len(),
{
    let j = space0(s, i);
    if j > i {
        Some(j)
    } else {
        None
    }
}

pub open spec fn is_digit(c: char) -> bool {
    '0' <= c && c <= '9'
}

/// The end of the run of decimal digits at `i`.
pub open spec fn digit_end(s: Seq<char>, i: int) -> int
    decreases s.len() - i,
{
    if 0 <= i < s.len() && is_digit(s[i]) {
        digit_end(s, i + 1)
    } else {
        i
    }
}

/// A run of at least one decimal digit at `i`.
pub open spec fn digits1(s: Seq<char>, i: int) -> Option<int> {
    if digit_end(s, i) > i {
        Some(digit_end(s, i))
    } else {
        None
    }
}

/// The decimal value of the digits `s[i..j]`.
pub open spec fn dec_val(s: Seq<char>, i: int, j: int) -> nat
    decreases j - i,
{
    if j <= i {
        0
    } else {
        dec_val(s, i, j - 1) * 10 + (s[j - 1] as nat - '0' as nat) as nat
    }
}

proof fn lemma_digit_end(s: Seq<char>, i: int)
    requires
        0 <= i <= s.len(),
    ensures
        i <= digit_end(s, i) <= s.len(),
        forall|k: int| i <= k < digit_end(s, i) ==> is_digit(#[trigger] s[k]),
    decreases s.len() - i,
{
    if i < s.len() && is_digit(s[i]) {
        lemma_digit_end(s, i + 1);
    }
}

/// Reads a run of at least one decimal digit.
pub fn digit1(s: &Vec<char>, i: usize) -> (r: Option<usize>)
    requires
        i <= s@.len(),
    ensures
        agrees_pos(r, digits1(s@, i as int)),
        r matches Some(j) ==> i < j <= s@.len() && forall|k: int| i <= k < j ==> is_digit(#[trigger] s@[k]),
{
    proof {
        lemma_digit_end(s@, i as int);
    }
    let mut p = i;
    while p < s.len() && '0' <= s[p] && s[p] <= '9'
        invariant
            i <= p <= s@.len(),
            digit_end(s@, p as int) == digit_end(s@, i as int),
        decreases s@.len() - p,
    {
        p = p + 1;
    }
    if p > i {
        Some(p)
    } else {
        None
    }
}

/// The decimal value of the digits `s[i..j]` where it is at most `max`.
pub fn dec_value(s: &Vec<char>, i: usize, j: usize, max: u64) -> (r: Option<u64>)
    requires
        i <= j <= s@.len(),
        max <= 0xffff_ffff,
        forall|k: int| i <= k < j ==> is_digit(#[trigger] s@[k]),
    ensures
        r == (if dec_val(s@, i as int, j as int) <= max {
            Some(dec_val(s@, i as int, j as int) as u64)
        } else {
            None::<u64>
        }),
{
    let mut v: u64 = 0;
    let mut big = false;
    let mut k = i;
    while k < j
        invariant
            i <= k <= j,
            j <= s@.len(),
            max <= 0xffff_ffff,
            forall|q: int| i <= q < j ==> is_digit(#[trigger] s@[q]),
            !big ==> v == dec_val(s@, i as int, k as int) && v <= max,
            big ==> dec_val(s@, i as int, k as int) > max,
        decreases j - k,
    {
        let d = (s[k] as u32 - '0' as u32) as u64;
        assert(is_digit(s@[k as int]));
        let ghost prev = dec_val(s@, i as int, k as int);
        assert(dec_val(s@, i as int, k + 1) == prev * 10 + d);
        if !big {
            let nv = v * 10 + d;
            if nv > max {
                big = true;
            } else {
                v = nv;
            }
        } else {
            assert(prev * 10 + d >= prev) by (nonlinear_arith)
                requires
                    prev >= 0,
                    d >= 0,
            ;
        }
        k = k + 1;
    }
    if big {
        None
    } else {
        Some(v)
    }
}

/// A run of digits at `i` whose value fits in a byte.
pub open spec fn octet_at(s: Seq<char>, i: int) -> Option<(u8, int)> {
    match digits1(s, i) {
        Some(j) => if dec_val(s, i, j) <= 255 {
            Some((dec_val(s, i, j) as u8, j))
        } else {
            None
        },
        None => None,
    }
}

pub open spec fn octet_sep(s: Seq<char>, i: int) -> Option<(u8, int)> {
    match octet_at(s, i) {
        Some((v, j)) => if char_at(s, j, '.') {
            Some((v, j + 1))
        } else {
            None
        },
        None => None,
    }
}

/// An IPv4 literal at `i`: four dot-separated runs of digits, each at most 255.
pub open spec fn address_at(s: Seq<char>, i: int) -> Option<(Ipv4Addr, int)> {
    match octet_sep(s, i) {
        None => None,
        Some((a, p1)) => match octet_sep(s, p1) {
            None => None,
            Some((b, p2)) => match octet_sep(s, p2) {
                None => None,
                Some((c, p3)) => match octet_at(s, p3) {
                    None => None,
                    Some((d, p4)) => Some((Ipv4Addr(a, b, c, d), p4)),
                },
            },
        },
    }
}

fn read_octet(s: &Vec<char>, i: usize) -> (r: Option<(u8, usize)>)
    requires
        i <= s@.len(),
    ensures
        agrees(r, octet_at(s@, i as int)),
        r matches Some((_, j)) ==> i < j <= s@.len(),
{
    match digit1(s, i) {
        None => None,
        Some(j) => match dec_value(s, i, j, 255) {
            Some(v) => Some((v as u8, j)),
            None => None,
        },
    }
}

fn read_octet_sep(s: &Vec<char>, i: usize) -> (r: Option<(u8, usize)>)
    requires
        i <= s@.len(),
    ensures
        agrees(r, octet_sep(s@, i as int)),
        r matches Some((_, j)) ==> i < j <= s@.len(),
{
    match read_octet(s, i) {
        None => None,
        Some((v, j)) => match expect_char(s, j, '.') {
            Some(k) => Some((v, k)),
            None => None,
        },
    }
}

impl View for Ipv4Addr {
    type V = Ipv4Addr;

    open spec fn view(&self) -> Ipv4Addr {
        *self
    }
}

/// Reads an IPv4 literal: four dot-separated runs of digits, each the value
/// of a byte.
pub fn val_address(s: &Vec<char>, i: usize) -> (r: Option<(Ipv4Addr, usize)>)
    requires
        i <= s@.len(),
    ensures
        agrees(r, address_at(s@, i as int)),
        r matches Some((_, j)) ==> i < j <= s@.len(),
{
    let (a, p1) = read_octet_sep(s, i)?;
    let (b, p2) = read_octet_sep(s, p1)?;
    let (c, p3) = read_octet_sep(s, p2)?;
    let (d, p4) = read_octet(s, p3)?;
    Some((Ipv4Addr(a, b, c, d), p4))
}

/// A byte written as two hex digits at `i`.
pub open spec fn hexbyte_at(s: Seq<char>, i: int) -> Option<(u8, int)> {
    if 0 <= i && i + 1 < s.len() && is_hex(s[i]) && is_hex(s[i + 1]) {
        Some(((hex_val(s[i]) * 16 + hex_val(s[i + 1])) as u8, i + 2))
    } else {
        None
    }
}

/// `n` hex bytes at `i`, separated by colons.
pub open spec fn hexbytes_at(s: Seq<char>, i: int, n: nat) -> Option<(Seq<u8>, int)>
    decreases n,
{
    match hexbyte_at(s, i) {
        None => None,
        Some((b, j)) => if n <= 1 {
            Some((seq![b], j))
        } else if char_at(s, j, ':') {
            match hexbytes_at(s, j + 1, (n - 1) as nat) {
                Some((rest, k)) => Some((seq![b] + rest, k)),
                None => None,
            }
        } else {
            None
        },
    }
}

/// A MAC literal at `i`: six colon-separated pairs of hex digits.
pub open spec fn mac_at(s: Seq<char>, i: int) -> Option<(Seq<u8>, int)> {
    hexbytes_at(s, i, 6)
}

/// Reads a byte written as two hex digits, in either case.
pub fn val_hexbyte(s: &Vec<char>, i: usize) -> (r: Option<(u8, usize)>)
    requires
        i <= s@.len(),
    ensures
        agrees(r, hexbyte_at(s@, i as int)),
        r matches Some((_, j)) ==> j == i + 2 && j <= s@.len(),
{
    if i < s.len() && s.len() - i >= 2 {
        let hi = hex_digit(s[i]);
        let lo = hex_digit(s[i + 1]);
        match (hi, lo) {
            (Some(h), Some(l)) => Some((h * 16 + l, i + 2)),
            _ => None,
        }
    } else {
        None
    }
}

proof fn lemma_hexbytes_step(s: Seq<char>, i: int, n: nat)
    requires
        n >= 2,
    ensures
        hexbytes_at(s, i, n) == (match hexbyte_at(s, i) {
            None => None,
            Some((b, j)) => if char_at(s, j, ':') {
                match hexbytes_at(s, j + 1, (n - 1) as nat) {
                    Some((rest, k)) => Some((seq![b] + rest, k)),
                    None => None,
                }
            } else {
                None
            },
        }),
{
}

/// Reads a MAC literal: six colon-separated pairs of hex digits, in either case.
pub fn val_macaddr(s: &Vec<char>, i: usize) -> (r: Option<(MacAddr, usize)>)
    requires
        i <= s@.len(),
    ensures
        agrees(r, mac_at(s@, i as int)),
        r matches Some((_, j)) ==> i < j <= s@.len(),
{
    let mut bytes: [u8; 6] = [0u8; 6];
    let mut p = i;
    let mut k: usize = 0;
    loop
        invariant
            k < 6,
            i <= p <= s@.len(),
            k > 0 ==> i < p,
            mac_at(s@, i as int) == (match hexbytes_at(s@, p as int, (6 - k) as nat) {
                Some((rest, e)) => Some((bytes@.subrange(0, k as int) + rest, e)),
                None => None::<(Seq<u8>, int)>,
            }),
        decreases 6 - k,
    {
        let (b, q) = val_hexbyte(s, p)?;
        let ghost before = bytes@;
        bytes[k] = b;
        assert(bytes@.subrange(0, k as int) =~= before.subrange(0, k as int));
        assert(bytes@.subrange(0, k as int + 1) =~= before.subrange(0, k as int) + seq![b]);
        if k == 5 {
            assert(bytes@.subrange(0, 6) =~= bytes@);
            return Some((MacAddr(bytes), q));
        }
        proof {
            lemma_hexbytes_step(s@, p as int, (6 - k) as nat);
        }
        match expect_char(s, q, ':') {
            None => {
                return None;
            },
            Some(q2) => {
                proof {
                    let rest = hexbytes_at(s@, q2 as int, (6 - k - 1) as nat);
                    if let Some((x, e)) = rest {
                        assert(before.subrange(0, k as int) + (seq![b] + x) =~= bytes@.subrange(
                            0,
                            k as int + 1,
                        ) + x);
                    }
                }
                p = q2;
                k = k + 1;
            },
        }
    }
}

/// `hardware ethernet` and a MAC literal at `i`.
pub open spec fn hardware_ethernet_at(s: Seq<char>, i: int) -> Option<(Seq<u8>, int)> {
    match tag_end(s, i, "hardware"@) {
        None => None,
        Some(p1) => match blank1(s, p1) {
            None => None,
            Some(p2) => match tag_end(s, p2, "ethernet"@) {
                None => None,
                Some(p3) => match blank1(s, p3) {
                    None => None,
                    Some(p4) => mac_at(s, p4),
                },
            },
        },
    }
}

/// Reads `hardware ethernet` followed by a MAC literal.
pub fn keyword_hardware_ethernet(s: &Vec<char>, i: usize) -> (r: Option<(MacAddr, usize)>)
    requires
        i <= s@.len(),
    ensures
        agrees(r, hardware_ethernet_at(s@, i as int)),
        r matches Some((_, j)) ==> i < j <= s@.len(),
{
    let p1 = tag(s, i, "hardware")?;
    let p2 = space1(s, p1)?;
    let p3 = tag(s, p2, "ethernet")?;
    let p4 = space1(s, p3)?;
    val_macaddr(s, p4)
}

pub open spec fn is_ident_char(c: char) -> bool {
    ('a' <= c && c <= 'z') || ('A' <= c && c <= 'Z') || ('0' <= c && c <= '9') || c == '_' || c == '-'
}

/// The end of the run of identifier characters at `i`.
pub open spec fn ident_end(s: Seq<char>, i: int) -> int
    decreases s.len() - i,
{
    if 0 <= i < s.len() && is_ident_char(s[i]) {
        ident_end(s, i + 1)
    } else {
        i
    }
}

/// An identifier at `i`: the longest run of letters, digits, `_` and `-`, at
/// least one character long.
pub open spec fn identifier_at(s: Seq<char>, i: int) -> Option<(Seq<char>, int)> {
    if ident_end(s, i) > i {
        Some((s.subrange(i, ident_end(s, i)), ident_end(s, i)))
    } else {
        None
    }
}

/// Reads an identifier: the longest run of ASCII letters, digits, `_` and `-`,
/// at least one character long.
pub fn val_identifier(s: &Vec<char>, i: usize) -> (r: Option<(String, usize)>)
    requires
        i <= s@.len(),
    ensures
        agrees(r, identifier_at(s@, i as int)),
        r matches Some((_, j)) ==> i < j <= s@.len(),
{
    let mut p = i;
    let mut out: Vec<char> = Vec::new();
    while p < s.len() && (('a' <= s[p] && s[p] <= 'z') || ('A' <= s[p] && s[p] <= 'Z') || ('0' <= s[p]
        && s[p] <= '9') || s[p] == '_' || s[p] == '-')
        invariant
            i <= p <= s@.len(),
            ident_end(s@, p as int) == ident_end(s@, i as int),
            out@ == s@.subrange(i as int, p as int),
        decreases s@.len() - p,
    {
        out.push(s[p]);
        p = p + 1;
        assert(out@ =~= s@.subrange(i as int, p as int));
    }
    if p > i {
        Some((string_of(&out), p))
    } else {
        None
    }
}

pub open spec fn is_octal(c: char) -> bool {
    '0' <= c && c <= '7'
}

/// The character of a three-digit octal escape: the byte it writes, taken as a
/// character, or NUL where the value does not fit in a byte.
pub open spec fn octal_char(a: char, b: char, c: char) -> char {
    let v = (a as int - '0' as int) * 64 + (b as int - '0' as int) * 8 + (c as int - '0' as int);
    if v <= 255 {
        (v as u8) as char
    } else {
        '\0'
    }
}

/// The character that a two-character escape `\c` stands for.
pub open spec fn escape_char(c: char) -> Option<char> {
    if c == 'a' {
        Some('\x07')
    } else if c == 'b' {
        Some('\x08')
    } else if c == 't' {
        Some('\t')
    } else if c == 'n' {
        Some('\n')
    } else if c == 'v' {
        Some('\x0b')
    } else if c == 'f' {
        Some('\x0c')
    } else if c == 'r' {
        Some('\r')
    } else if c == 'e' {
        Some('\x1b')
    } else if c == '\\' {
        Some('\\')
    } else if c == '"' {
        Some('"')
    } else {
        None
    }
}

/// The end of the run of characters other than backslash and quote at `i`.
pub open spec fn literal_end(s: Seq<char>, i: int) -> int
    decreases s.len() - i,
{
    if 0 <= i < s.len() && s[i] != '\\' && s[i] != '"' {
        literal_end(s, i + 1)
    } else {
        i
    }
}

/// One piece of a string literal's body at `i`: an octal escape, a
/// two-character escape, or a run of plain characters.
pub open spec fn str_segment(s: Seq<char>, i: int) -> Option<(Seq<char>, int)> {
    if char_at(s, i, '\\') && i + 3 < s.len() && is_octal(s[i + 1]) && is_octal(s[i + 2]) && is_octal(
        s[i + 3],
    ) {
        Some((seq![octal_char(s[i + 1], s[i + 2], s[i + 3])], i + 4))
    } else if char_at(s, i, '\\') && i + 1 < s.len() && escape_char(s[i + 1]) is Some {
        Some((seq![escape_char(s[i + 1])->0], i + 2))
    } else if literal_end(s, i) > i {
        Some((s.subrange(i, literal_end(s, i)), literal_end(s, i)))
    } else {
        None
    }
}

/// The pieces of a string literal's body from `i` on, as many as there are.
pub open spec fn str_body(s: Seq<char>, i: int) -> (Seq<char>, int)
    decreases s.len() - i,
{
    match str_segment(s, i) {
        Some((x, j)) => if i < j <= s.len() {
            let (y, k) = str_body(s, j);
            (x + y, k)
        } else {
            (seq![], i)
        },
        None => (seq![], i),
    }
}

/// A string literal at `i`: a quote, at least one piece, a quote.
pub open spec fn string_at(s: Seq<char>, i: int) -> Option<(Seq<char>, int)> {
    if char_at(s, i, '"') && str_segment(s, i + 1) is Some {
        let (x, k) = str_body(s, i + 1);
        if char_at(s, k, '"') {
            Some((x, k + 1))
        } else {
            None
        }
    } else {
        None
    }
}

proof fn lemma_literal_end(s: Seq<char>, i: int)
    requires
        0 <= i <= s.len(),
    ensures
        i <= literal_end(s, i) <= s.len(),
    decreases s.len() - i,
{
    if i < s.len() && s[i] != '\\' && s[i] != '"' {
        lemma_literal_end(s, i + 1);
    }
}

fn escape_of(c: char) -> (r: Option<char>)
    ensures
        r == escape_char(c),
{
    if c == 'a' {
        Some('\x07')
    } else if c == 'b' {
        Some('\x08')
    } else if c == 't' {
        Some('\t')
    } else if c == 'n' {
        Some('\n')
    } else if c == 'v' {
        Some('\x0b')
    } else if c == 'f' {
        Some('\x0c')
    } else if c == 'r' {
        Some('\r')
    } else if c == 'e' {
        Some('\x1b')
    } else if c == '\\' {
        Some('\\')
    } else if c == '"' {
        Some('"')
    } else {
        None
    }
}

/// Reads one piece of a string literal's body, appending what it stands for.
fn str_piece(s: &Vec<char>, i: usize, out: &mut Vec<char>) -> (r: Option<usize>)
    requires
        i <= s@.len(),
    ensures
        match str_segment(s@, i as int) {
            Some((x, j)) => r is Some && r->0 == j && final(out)@ == old(out)@ + x && i < j <= s@.len(),
            None => r is None && final(out)@ == old(out)@,
        },
{
    let n = s.len();
    if i < n && s[i] == '\\' && n - i > 3 && '0' <= s[i + 1] && s[i + 1] <= '7' && '0' <= s[i + 2]
        && s[i + 2] <= '7' && '0' <= s[i + 3] && s[i + 3] <= '7' {
        let v: u32 = (s[i + 1] as u32 - '0' as u32) * 64 + (s[i + 2] as u32 - '0' as u32) * 8 + (s[i
            + 3] as u32 - '0' as u32);
        let c = if v <= 255 {
            (v as u8) as char
        } else {
            '\0'
        };
        out.push(c);
        return Some(i + 4);
    }
    if i < n && s[i] == '\\' && n - i > 1 {
        if let Some(c) = escape_of(s[i + 1]) {
            out.push(c);
            return Some(i + 2);
        }
    }
    proof {
        lemma_literal_end(s@, i as int);
    }
    let ghost start = out@;
    let mut p = i;
    while p < n && s[p] != '\\' && s[p] != '"'
        invariant
            n == s@.len(),
            i <= p <= n,
            literal_end(s@, p as int) == literal_end(s@, i as int),
            out@ == start + s@.subrange(i as int, p as int),
        decreases n - p,
    {
        out.push(s[p]);
        p = p + 1;
        assert(out@ =~= start + s@.subrange(i as int, p as int));
    }
    if p > i {
        Some(p)
    } else {
        None
    }
}

/// Reads a string literal: a quote, then plain characters, two-character
/// escapes (`\a \b \t \n \v \f \r \e \\ \"`) and three-digit octal escapes, at
/// least one of them, then a quote. Gives back the decoded text.
pub fn val_string(s: &Vec<char>, i: usize) -> (r: Option<(String, usize)>)
    requires
        i <= s@.len(),
    ensures
        agrees(r, string_at(s@, i as int)),
        r matches Some((_, j)) ==> i < j <= s@.len(),
{
    let p0 = expect_char(s, i, '"')?;
    let mut out: Vec<char> = Vec::new();
    let mut p = str_piece(s, p0, &mut out)?;
    loop
        invariant
            p0 == i + 1,
            p0 < p <= s@.len(),
            str_body(s@, p0 as int) == (out@ + str_body(s@, p as int).0, str_body(s@, p as int).1),
        ensures
            p0 < p <= s@.len(),
            str_body(s@, p0 as int) == (out@ + str_body(s@, p as int).0, str_body(s@, p as int).1),
            str_segment(s@, p as int) is None,
        decreases s@.len() - p,
    {
        let ghost before = out@;
        match str_piece(s, p, &mut out) {
            Some(q) => {
                assert(before + (out@.subrange(before.len() as int, out@.len() as int) + str_body(
                    s@,
                    q as int,
                ).0) =~= out@ + str_body(s@, q as int).0);
                p = q;
            },
            None => {
                break ;
            },
        }
    }
    assert(str_body(s@, p as int).0 =~= seq![]);
    assert(out@ + seq![] =~= out@);
    let e = expect_char(s, p, '"')?;
    Some((string_of(&out), e))
}

/// Reading the same text twice gives equal results, records in the same order.
pub proof fn lemma_parse_deterministic(a: Seq<char>, b: Seq<char>)
    requires
        a == b,
    ensures
        leases::leases_of(a) == leases::leases_of(b),
        hosts::hosts_of(a) == hosts::hosts_of(b),
{
}

} // verus!
