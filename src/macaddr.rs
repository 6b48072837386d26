use vstd::prelude::*;

use crate::text::{chars_of, string_of};

verus! {

/// A hardware (MAC) address: exactly six bytes.
#[derive(Debug, Clone, Copy)]
pub struct MacAddr(pub [u8; 6]);

impl View for MacAddr {
    type V = Seq<u8>;

    open spec fn view(&self) -> Seq<u8> {
        self.0@
    }
}

impl MacAddr {
    pub fn bytes(&self) -> (r: &[u8])
        ensures
            r@ == self@,
    {
        self.0.as_slice()
    }
}

impl PartialEq for MacAddr {
    fn eq(&self, o: &MacAddr) -> (r: bool)
        ensures
            r == (self@ == o@),
    {
        let mut i: usize = 0;
        while i < 6
            invariant
                i <= 6,
                forall|k: int| 0 <= k < i ==> self.0@[k] == o.0@[k],
            decreases 6 - i,
        {
            if self.0[i] != o.0[i] {
                return false;
            }
            i = i + 1;
        }
        assert(self.0@ =~= o.0@);
        true
    }
}

impl vstd::std_specs::cmp::PartialEqSpecImpl for MacAddr {
    open spec fn obeys_eq_spec() -> bool {
        true
    }

    open spec fn eq_spec(&self, o: &MacAddr) -> bool {
        self@ == o@
    }
}

impl Eq for MacAddr {}

impl From<[u8; 6]> for MacAddr {
    fn from(bytes: [u8; 6]) -> (r: MacAddr) {
        MacAddr(bytes)
    }
}

impl vstd::std_specs::convert::FromSpecImpl<[u8; 6]> for MacAddr {
    open spec fn obeys_from_spec() -> bool {
        true
    }

    open spec fn from_spec(bytes: [u8; 6]) -> MacAddr {
        MacAddr(bytes)
    }
}

/// Why a text is not a MAC address.
#[derive(Debug, Clone, Copy, PartialEq, Eq, Structural)]
pub enum InvalidMacAddr {
    /// Fewer than six segments.
    Short,
    /// More than six segments.
    Long,
    /// A segment that is not two characters long.
    BadSegment,
    /// A segment character that is not a hex digit.
    Parse,
}

/// Why a text is not a MAC prefix.
#[derive(Debug, Clone, Copy, PartialEq, Eq, Structural)]
pub enum InvalidMacPrefix {
    /// A character that is not a hex digit.
    BadChar(char),
    /// More than six groups.
    Long,
    /// A group of more than two characters.
    LongSegment,
    /// A group with no characters.
    EmptySegment,
}

pub open spec fn is_hex(c: char) -> bool {
    ('0' <= c && c <= '9') || ('a' <= c && c <= 'f') || ('A' <= c && c <= 'F')
}

pub open spec fn hex_val(c: char) -> u8 {
    if '0' <= c && c <= '9' {
        (c as u32 - '0' as u32) as u8
    } else if 'a' <= c && c <= 'f' {
        (c as u32 - 'a' as u32 + 10) as u8
    } else {
        (c as u32 - 'A' as u32 + 10) as u8
    }
}

/// The value of a hex digit.
pub fn hex_digit(c: char) -> (r: Option<u8>)
    ensures
        r == (if is_hex(c) { Some(hex_val(c)) } else { None::<u8> }),
        r matches Some(v) ==> v < 16,
{
    if '0' <= c && c <= '9' {
        Some((c as u32 - '0' as u32) as u8)
    } else if 'a' <= c && c <= 'f' {
        Some((c as u32 - 'a' as u32 + 10) as u8)
    } else if 'A' <= c && c <= 'F' {
        Some((c as u32 - 'A' as u32 + 10) as u8)
    } else {
        None
    }
}

/// The end of the colon-separated segment that starts at `i`: the first colon at
/// or after `i`, or the end of `s`.
pub open spec fn seg_end(s: Seq<char>, i: int) -> int
    decreases s.len() - i,
{
    if i < 0 || i >= s.len() || s[i] == ':' {
        i
    } else {
        seg_end(s, i + 1)
    }
}

pub proof fn lemma_seg_end(s: Seq<char>, i: int)
    requires
        0 <= i <= s.len(),
    ensures
        i <= seg_end(s, i) <= s.len(),
        seg_end(s, i) < s.len() ==> s[seg_end(s, i)] == ':',
        forall|k: int| i <= k < seg_end(s, i) ==> s[k] != ':',
    decreases s.len() - i,
{
    if i < s.len() && s[i] != ':' {
        lemma_seg_end(s, i + 1);
    }
}

fn find_seg_end(s: &Vec<char>, i: usize) -> (r: usize)
    requires
        i <= s@.len(),
    ensures
        r == seg_end(s@, i as int),
{
    let mut j = i;
    while j < s.len() && s[j] != ':'
        invariant
            i <= j <= s@.len(),
            seg_end(s@, j as int) == seg_end(s@, i as int),
        decreases s@.len() - j,
    {
        j = j + 1;
    }
    j
}

/// The MAC address written in `s` from segment start `i` on, where that segment
/// is the `k`-th: each segment two hex digits, six segments in all.
pub open spec fn mac_scan(s: Seq<char>, i: int, k: int) -> Result<Seq<u8>, InvalidMacAddr>
    decreases s.len() - i,
{
    let j = seg_end(s, i);
    if i < 0 || i > s.len() || k >= 6 {
        Err(InvalidMacAddr::Long)
    } else if j - i != 2 {
        Err(InvalidMacAddr::BadSegment)
    } else if !is_hex(s[i]) || !is_hex(s[i + 1]) {
        Err(InvalidMacAddr::Parse)
    } else {
        let b = (hex_val(s[i]) * 16 + hex_val(s[i + 1])) as u8;
        if j < s.len() {
            match mac_scan(s, j + 1, k + 1) {
                Ok(rest) => Ok(seq![b] + rest),
                Err(e) => Err(e),
            }
        } else if k == 5 {
            Ok(seq![b])
        } else {
            Err(InvalidMacAddr::Short)
        }
    }
}

/// The MAC address written in `s`: six colon-separated segments of two hex digits.
pub open spec fn mac_of(s: Seq<char>) -> Result<Seq<u8>, InvalidMacAddr> {
    mac_scan(s, 0, 0)
}

pub open spec fn hex_char(v: u8) -> char {
    if v < 10 {
        (v + 48) as char
    } else {
        (v + 87) as char
    }
}

/// A MAC address written as six lowercase two-digit hex pairs joined by colons.
pub open spec fn mac_text(m: Seq<u8>) -> Seq<char>
    recommends
        m.len() == 6,
{
    seq![hex_char(m[0] / 16), hex_char(m[0] % 16), ':', hex_char(m[1] / 16), hex_char(m[1] % 16), ':',
        hex_char(m[2] / 16), hex_char(m[2] % 16), ':', hex_char(m[3] / 16), hex_char(m[3] % 16), ':',
        hex_char(m[4] / 16), hex_char(m[4] % 16), ':', hex_char(m[5] / 16), hex_char(m[5] % 16)]
}

pub open spec fn prepend<E>(p: Seq<u8>, r: Result<Seq<u8>, E>) -> Result<Seq<u8>, E> {
    match r {
        Ok(x) => Ok(p + x),
        Err(e) => Err(e),
    }
}

impl MacAddr {
    /// Parses six colon-separated segments of two hex digits each (either case).
    pub fn parse_str(text: &str) -> (r: Result<MacAddr, InvalidMacAddr>)
        ensures
            match r {
                Ok(m) => mac_of(text@) == Ok::<Seq<u8>, InvalidMacAddr>(m@),
                Err(e) => mac_of(text@) == Err::<Seq<u8>, InvalidMacAddr>(e),
            },
    {
        let s = chars_of(text);
        let mut bytes: [u8; 6] = [0u8; 6];
        let mut i: usize = 0;
        let mut k: usize = 0;
        loop
            invariant
                s@ == text@,
                i <= s@.len(),
                k <= 6,
                mac_of(s@) == prepend(bytes@.subrange(0, k as int), mac_scan(s@, i as int, k as int)),
            decreases s@.len() - i,
        {
            let j = find_seg_end(&s, i);
            proof {
                lemma_seg_end(s@, i as int);
            }
            if k >= 6 {
                return Err(InvalidMacAddr::Long);
            }
            if j - i != 2 {
                return Err(InvalidMacAddr::BadSegment);
            }
            let hi = hex_digit(s[i]);
            let lo = hex_digit(s[i + 1]);
            if hi.is_none() || lo.is_none() {
                return Err(InvalidMacAddr::Parse);
            }
            let b: u8 = hi.unwrap() * 16 + lo.unwrap();
            let ghost before = bytes@;
            bytes[k] = b;
            assert(bytes@.subrange(0, k as int + 1) =~= before.subrange(0, k as int) + seq![b]);
            assert(bytes@.subrange(0, k as int) =~= before.subrange(0, k as int));
            if j < s.len() {
                proof {
                    let rest = mac_scan(s@, j + 1, k + 1);
                    if rest is Ok {
                        assert(bytes@.subrange(0, k as int) + (seq![b] + rest->Ok_0)
                            =~= bytes@.subrange(0, k as int + 1) + rest->Ok_0);
                    }
                }
                i = j + 1;
                k = k + 1;
            } else if k == 5 {
                assert(bytes@.subrange(0, 6) =~= bytes@);
                return Ok(MacAddr(bytes));
            } else {
                return Err(InvalidMacAddr::Short);
            }
        }
    }

    /// Six lowercase two-digit hex pairs joined by colons.
    pub fn to_string(&self) -> (r: String)
        ensures
            r@ == mac_text(self@),
    {
        let mut v: Vec<char> = Vec::new();
        let mut k: usize = 0;
        while k < 6
            invariant
                k <= 6,
                v@ =~= mac_text(self@).subrange(0, 3 * k as int - if k > 0 { 1int } else { 0 }),
            decreases 6 - k,
        {
            if k > 0 {
                v.push(':');
            }
            let b = self.0[k];
            v.push(hex_digit_char(b / 16));
            v.push(hex_digit_char(b % 16));
            k = k + 1;
        }
        string_of(&v)
    }
}

/// The lowercase hex digit for a value below 16.
pub fn hex_digit_char(v: u8) -> (r: char)
    requires
        v < 16,
    ensures
        r == hex_char(v),
{
    if v < 10 {
        (v + 48) as char
    } else {
        (v + 87) as char
    }
}

impl std::str::FromStr for MacAddr {
    type Err = InvalidMacAddr;

    fn from_str(s: &str) -> Result<MacAddr, InvalidMacAddr> {
        MacAddr::parse_str(s)
    }
}

proof fn lemma_hex_char(v: u8)
    requires
        v < 16,
    ensures
        is_hex(hex_char(v)),
        hex_val(hex_char(v)) == v,
        hex_char(v) != ':',
{
}

proof fn lemma_mac_text_segment(m: Seq<u8>, k: int)
    requires
        m.len() == 6,
        0 <= k < 6,
    ensures
        is_hex(mac_text(m)[3 * k]) && is_hex(mac_text(m)[3 * k + 1]),
        seg_end(mac_text(m), 3 * k) == 3 * k + 2,
        (hex_val(mac_text(m)[3 * k]) * 16 + hex_val(mac_text(m)[3 * k + 1])) as u8 == m[k],
{
    let t = mac_text(m);
    lemma_hex_char(m[k] / 16);
    lemma_hex_char(m[k] % 16);
    assert(t[3 * k] == hex_char(m[k] / 16));
    assert(t[3 * k + 1] == hex_char(m[k] % 16));
    let b = m[k];
    assert((b / 16) * 16 + b % 16 == b) by (nonlinear_arith);
    if k < 5 {
        assert(t[3 * k + 2] == ':');
    }
    assert(seg_end(t, 3 * k + 2) == 3 * k + 2);
    assert(seg_end(t, 3 * k + 1) == 3 * k + 2);
}

proof fn lemma_mac_text_scan(m: Seq<u8>, k: int)
    requires
        m.len() == 6,
        0 <= k < 6,
    ensures
        mac_scan(mac_text(m), 3 * k, k) == Ok::<Seq<u8>, InvalidMacAddr>(m.subrange(k, 6)),
    decreases 6 - k,
{
    lemma_mac_text_segment(m, k);
    if k < 5 {
        lemma_mac_text_scan(m, k + 1);
        assert(m.subrange(k, 6) =~= seq![m[k]] + m.subrange(k + 1, 6));
    } else {
        assert(m.subrange(k, 6) =~= seq![m[k]]);
    }
}

/// A MAC address written as six lowercase colon-separated hex pairs reads back
/// as the same six bytes.
pub proof fn lemma_mac_text_round_trip(m: Seq<u8>)
    requires
        m.len() == 6,
    ensures
        mac_of(mac_text(m)) == Ok::<Seq<u8>, InvalidMacAddr>(m),
{
    lemma_mac_text_scan(m, 0);
    assert(m.subrange(0, 6) =~= m);
}

/// The hex digits of the segment `s[i..j]`, which is at most two characters long.
pub open spec fn segment_nibbles(s: Seq<char>, i: int, j: int) -> Seq<u8> {
    if j - i == 0 {
        seq![]
    } else if j - i == 1 {
        seq![hex_val(s[i])]
    } else {
        seq![hex_val(s[i]), hex_val(s[i + 1])]
    }
}

/// The nibbles written in `s` from the start `i` of its `k`-th colon-separated
/// group on: six groups at most, each of one or two hex digits.
pub open spec fn prefix_scan(s: Seq<char>, i: int, k: int) -> Result<Seq<u8>, InvalidMacPrefix>
    decreases s.len() - i,
{
    let j = seg_end(s, i);
    if i < 0 || i > s.len() {
        Ok(seq![])
    } else if k >= 6 {
        Err(InvalidMacPrefix::Long)
    } else if j - i > 2 {
        Err(InvalidMacPrefix::LongSegment)
    } else if j - i == 0 {
        Err(InvalidMacPrefix::EmptySegment)
    } else if !is_hex(s[i]) {
        Err(InvalidMacPrefix::BadChar(s[i]))
    } else if j - i == 2 && !is_hex(s[i + 1]) {
        Err(InvalidMacPrefix::BadChar(s[i + 1]))
    } else if i <= j < s.len() {
        prepend(segment_nibbles(s, i, j), prefix_scan(s, j + 1, k + 1))
    } else {
        Ok(segment_nibbles(s, i, j))
    }
}

/// The MAC prefix written in `s`: one to six colon-separated groups of one or
/// two hex digits each.
pub open spec fn prefix_of(s: Seq<char>) -> Result<Seq<u8>, InvalidMacPrefix> {
    prefix_scan(s, 0, 0)
}

/// The twelve nibbles of a MAC address, high nibble of each byte first.
pub open spec fn mac_nibbles(m: Seq<u8>) -> Seq<u8> {
    Seq::new(12, |k: int| if k % 2 == 0 { m[k / 2] / 16 } else { m[k / 2] % 16 })
}

/// A MAC address prefix: up to twelve nibbles.
#[derive(Debug, Clone, PartialEq, Eq)]
pub struct MacPrefix {
    nibbles: Vec<u8>,
}

impl View for MacPrefix {
    type V = Seq<u8>;

    closed spec fn view(&self) -> Seq<u8> {
        self.nibbles@
    }
}

impl MacPrefix {
    pub open spec fn wf(&self) -> bool {
        &&& self@.len() <= 12
        &&& forall|k: int| 0 <= k < self@.len() ==> self@[k] < 16
    }

    /// The nibbles of the prefix, in order.
    pub fn nibbles(&self) -> (r: &Vec<u8>)
        ensures
            r@ == self@,
    {
        &self.nibbles
    }

    /// Parses one to six colon-separated groups of one or two hex digits each
    /// (either case).
    pub fn parse_str(text: &str) -> (r: Result<MacPrefix, InvalidMacPrefix>)
        ensures
            match r {
                Ok(p) => prefix_of(text@) == Ok::<Seq<u8>, InvalidMacPrefix>(p@) && p.wf(),
                Err(e) => prefix_of(text@) == Err::<Seq<u8>, InvalidMacPrefix>(e),
            },
    {
        let s = chars_of(text);
        let mut nibs: Vec<u8> = Vec::new();
        let mut i: usize = 0;
        let mut k: usize = 0;
        loop
            invariant
                s@ == text@,
                i <= s@.len(),
                k < 6,
                nibs@.len() <= 2 * k,
                prefix_of(s@) == prepend(nibs@, prefix_scan(s@, i as int, k as int)),
                forall|q: int| 0 <= q < nibs@.len() ==> nibs@[q] < 16,
            decreases s@.len() - i,
        {
            let j = find_seg_end(&s, i);
            proof {
                lemma_seg_end(s@, i as int);
            }
            if j - i > 2 {
                return Err(InvalidMacPrefix::LongSegment);
            }
            if j == i {
                return Err(InvalidMacPrefix::EmptySegment);
            }
            let ghost before = nibs@;
            let mut p = i;
            while p < j
                invariant
                    i <= p <= j,
                    k < 6,
                    j == seg_end(s@, i as int),
                    s@ == text@,
                    prefix_of(s@) == prepend(before, prefix_scan(s@, i as int, k as int)),
                    1 <= j - i <= 2,
                    j <= s@.len(),
                    nibs@ == before + segment_nibbles(s@, i as int, p as int),
                    forall|q: int| i <= q < p ==> is_hex(s@[q]),
                    forall|q: int| 0 <= q < nibs@.len() ==> nibs@[q] < 16,
                decreases j - p,
            {
                match hex_digit(s[p]) {
                    Some(v) => {
                        nibs.push(v);
                    },
                    None => {
                        assert(prefix_scan(s@, i as int, k as int) == Err::<Seq<u8>, InvalidMacPrefix>(
                            InvalidMacPrefix::BadChar(s@[p as int])));
                        return Err(InvalidMacPrefix::BadChar(s[p]));
                    },
                }
                p = p + 1;
            }
            proof {
                let rest = prefix_scan(s@, j + 1, k + 1);
                if rest is Ok {
                    assert(before + (segment_nibbles(s@, i as int, j as int) + rest->Ok_0)
                        =~= nibs@ + rest->Ok_0);
                }
            }
            if j < s.len() {
                if k == 5 {
                    return Err(InvalidMacPrefix::Long);
                }
                i = j + 1;
                k = k + 1;
            } else {
                return Ok(MacPrefix { nibbles: nibs });
            }
        }
    }
}

impl std::str::FromStr for MacPrefix {
    type Err = InvalidMacPrefix;

    fn from_str(s: &str) -> Result<MacPrefix, InvalidMacPrefix> {
        MacPrefix::parse_str(s)
    }
}

impl MacPrefix {
    /// The full twelve-nibble prefix of a MAC address.
    pub fn of_mac(mac: &MacAddr) -> (r: MacPrefix)
        ensures
            r@ == mac_nibbles(mac@),
            r.wf(),
    {
        let mut nibs: Vec<u8> = Vec::new();
        let mut k: usize = 0;
        while k < 6
            invariant
                k <= 6,
                nibs@ =~= mac_nibbles(mac@).subrange(0, 2 * k as int),
            decreases 6 - k,
        {
            nibs.push(mac.0[k] / 16);
            nibs.push(mac.0[k] % 16);
            k = k + 1;
        }
        MacPrefix { nibbles: nibs }
    }
}

} // verus!
