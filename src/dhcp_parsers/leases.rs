//! The lease database: a sequence of `lease` blocks and a few file-level
//! statements, read into one record per block, in file order.
use vstd::prelude::*;

use crate::dhcp_parsers::{
    agrees, anyspace0, anyspace1, blank1, blank_end, char_at, digit1, digits1, dec_val, dec_value,
    expect_char, hardware_ethernet_at, keyword_hardware_ethernet, same, skip0, skip1, space0, space1,
    string_at, tag, tag_end, val_address, val_string, address_at, is_digit,
};
use crate::model::{Ipv4Addr, Lease, LeaseTime, LeaseView, MacAddr, Timestamp, opt_text};

verus! {

pub open spec fn is_leap(y: int) -> bool {
    y % 4 == 0 && (y % 100 != 0 || y % 400 == 0)
}

pub open spec fn days_in_month(y: int, m: int) -> int {
    if m == 2 {
        if is_leap(y) {
            29
        } else {
            28
        }
    } else if m == 4 || m == 6 || m == 9 || m == 11 {
        30
    } else {
        31
    }
}

/// A day of the proleptic Gregorian calendar, within the years chrono can hold.
pub open spec fn valid_date(y: i32, m: u32, d: u32) -> bool {
    &&& -262143 <= y <= 262142
    &&& 1 <= m <= 12
    &&& 1 <= d <= days_in_month(y as int, m as int)
}

/// Relies on `chrono::NaiveDate::from_ymd_opt`: a date exactly where the year is
/// in chrono's range and the month and day name a day of the Gregorian calendar.
#[verifier::external_body]
fn date_exists(y: i32, m: u32, d: u32) -> (r: bool)
    ensures
        r == valid_date(y, m, d),
{
    chrono::NaiveDate::from_ymd_opt(y, m, d).is_some()
}

/// Relies on `chrono::NaiveTime::from_hms_opt`: a time exactly where the hour is
/// below 24 and the minute and second below 60.
#[verifier::external_body]
fn time_exists(h: u32, m: u32, s: u32) -> (r: bool)
    ensures
        r == (h < 24 && m < 60 && s < 60),
{
    chrono::NaiveTime::from_hms_opt(h, m, s).is_some()
}

/// A number read as an `i32`: its value where it fits, else zero.
pub open spec fn i32_val(s: Seq<char>, i: int, j: int) -> i32 {
    if dec_val(s, i, j) <= 0x7fff_ffff {
        dec_val(s, i, j) as i32
    } else {
        0
    }
}

/// A number read as a `u32`: its value where it fits, else zero.
pub open spec fn u32_val(s: Seq<char>, i: int, j: int) -> u32 {
    if dec_val(s, i, j) <= 0xffff_ffff {
        dec_val(s, i, j) as u32
    } else {
        0
    }
}

/// Three runs of digits at `i`, separated by `sep`: their spans.
pub open spec fn triple_at(s: Seq<char>, i: int, sep: char) -> Option<(int, int, int, int, int)> {
    match digits1(s, i) {
        None => None,
        Some(j1) => if !char_at(s, j1, sep) {
            None
        } else {
            match digits1(s, j1 + 1) {
                None => None,
                Some(j2) => if !char_at(s, j2, sep) {
                    None
                } else {
                    match digits1(s, j2 + 1) {
                        None => None,
                        Some(j3) => Some((j1, j1 + 1, j2, j2 + 1, j3)),
                    }
                },
            }
        },
    }
}

/// A date `YYYY/MM/DD` at `i`; a date that does not exist reads as 1970-01-01.
pub open spec fn date_at(s: Seq<char>, i: int) -> Option<((i32, u32, u32), int)> {
    match triple_at(s, i, '/') {
        None => None,
        Some((j1, k1, j2, k2, j3)) => {
            let y = i32_val(s, i, j1);
            let m = u32_val(s, k1, j2);
            let d = u32_val(s, k2, j3);
            if valid_date(y, m, d) {
                Some(((y, m, d), j3))
            } else {
                Some(((1970, 1, 1), j3))
            }
        },
    }
}

/// A time `HH:MM:SS` at `i`; a time that does not exist reads as midnight.
pub open spec fn time_at(s: Seq<char>, i: int) -> Option<((u32, u32, u32), int)> {
    match triple_at(s, i, ':') {
        None => None,
        Some((j1, k1, j2, k2, j3)) => {
            let h = u32_val(s, i, j1);
            let m = u32_val(s, k1, j2);
            let c = u32_val(s, k2, j3);
            if h < 24 && m < 60 && c < 60 {
                Some(((h, m, c), j3))
            } else {
                Some(((0, 0, 0), j3))
            }
        },
    }
}

/// A weekday digit (0 to 7), a date and a time at `i`.
pub open spec fn datetime_at(s: Seq<char>, i: int) -> Option<(Timestamp, int)> {
    if 0 <= i < s.len() && '0' <= s[i] && s[i] <= '7' {
        match date_at(s, blank_end(s, i + 1)) {
            None => None,
            Some(((y, mo, d), p)) => match time_at(s, blank_end(s, p)) {
                None => None,
                Some(((h, mi, c), q)) => Some(
                    (Timestamp { year: y, month: mo, day: d, hour: h, minute: mi, second: c }, q),
                ),
            },
        }
    } else {
        None
    }
}

/// A time stamp or `never` at `i`.
pub open spec fn datetime_or_never_at(s: Seq<char>, i: int) -> Option<(LeaseTime, int)> {
    match datetime_at(s, i) {
        Some((t, j)) => Some((Some(t), j)),
        None => match tag_end(s, i, "never"@) {
            Some(j) => Some((None, j)),
            None => None,
        },
    }
}

fn read_i32(s: &Vec<char>, i: usize, j: usize) -> (r: i32)
    requires
        i <= j <= s@.len(),
        forall|k: int| i <= k < j ==> is_digit(#[trigger] s@[k]),
    ensures
        r == i32_val(s@, i as int, j as int),
{
    match dec_value(s, i, j, 0x7fff_ffff) {
        Some(v) => v as i32,
        None => 0,
    }
}

fn read_u32(s: &Vec<char>, i: usize, j: usize) -> (r: u32)
    requires
        i <= j <= s@.len(),
        forall|k: int| i <= k < j ==> is_digit(#[trigger] s@[k]),
    ensures
        r == u32_val(s@, i as int, j as int),
{
    match dec_value(s, i, j, 0xffff_ffff) {
        Some(v) => v as u32,
        None => 0,
    }
}

fn read_triple(s: &Vec<char>, i: usize, sep: char) -> (r: Option<(usize, usize, usize, usize, usize)>)
    requires
        i <= s@.len(),
    ensures
        match triple_at(s@, i as int, sep) {
            None => r is None,
            Some((j1, k1, j2, k2, j3)) => r matches Some((a1, b1, a2, b2, a3)) && a1 == j1 && b1 == k1
                && a2 == j2 && b2 == k2 && a3 == j3,
        },
        r matches Some((j1, k1, j2, k2, j3)) ==> {
            &&& i < j1 < k1 < j2 < k2 < j3 <= s@.len()
            &&& forall|k: int| i <= k < j1 ==> is_digit(#[trigger] s@[k])
            &&& forall|k: int| k1 <= k < j2 ==> is_digit(#[trigger] s@[k])
            &&& forall|k: int| k2 <= k < j3 ==> is_digit(#[trigger] s@[k])
        },
{
    let j1 = digit1(s, i)?;
    let k1 = expect_char(s, j1, sep)?;
    let j2 = digit1(s, k1)?;
    let k2 = expect_char(s, j2, sep)?;
    let j3 = digit1(s, k2)?;
    Some((j1, k1, j2, k2, j3))
}

/// Reads a date `YYYY/MM/DD`; a date that does not exist reads as 1970-01-01.
pub fn val_date(s: &Vec<char>, i: usize) -> (r: Option<((i32, u32, u32), usize)>)
    requires
        i <= s@.len(),
    ensures
        same(r, date_at(s@, i as int)),
        r matches Some((_, j)) ==> i < j <= s@.len(),
{
    let (j1, k1, j2, k2, j3) = read_triple(s, i, '/')?;
    let y = read_i32(s, i, j1);
    let m = read_u32(s, k1, j2);
    let d = read_u32(s, k2, j3);
    if date_exists(y, m, d) {
        Some(((y, m, d), j3))
    } else {
        Some(((1970, 1, 1), j3))
    }
}

/// Reads a time `HH:MM:SS`; a time that does not exist reads as midnight.
pub fn val_time(s: &Vec<char>, i: usize) -> (r: Option<((u32, u32, u32), usize)>)
    requires
        i <= s@.len(),
    ensures
        same(r, time_at(s@, i as int)),
        r matches Some((_, j)) ==> i < j <= s@.len(),
{
    let (j1, k1, j2, k2, j3) = read_triple(s, i, ':')?;
    let h = read_u32(s, i, j1);
    let m = read_u32(s, k1, j2);
    let c = read_u32(s, k2, j3);
    if time_exists(h, m, c) {
        Some(((h, m, c), j3))
    } else {
        Some(((0, 0, 0), j3))
    }
}

/// Reads a weekday digit (0 to 7, otherwise unused), a date and a time.
pub fn val_datetime(s: &Vec<char>, i: usize) -> (r: Option<(Timestamp, usize)>)
    requires
        i <= s@.len(),
    ensures
        same(r, datetime_at(s@, i as int)),
        r matches Some((_, j)) ==> i < j <= s@.len(),
{
    if !(i < s.len() && '0' <= s[i] && s[i] <= '7') {
        return None;
    }
    let p0 = space0(s, i + 1);
    let ((y, mo, d), p) = val_date(s, p0)?;
    let q0 = space0(s, p);
    let ((h, mi, c), q) = val_time(s, q0)?;
    Some((Timestamp { year: y, month: mo, day: d, hour: h, minute: mi, second: c }, q))
}

/// Reads a time stamp, or `never` for none.
pub fn val_datetime_or_never(s: &Vec<char>, i: usize) -> (r: Option<(LeaseTime, usize)>)
    requires
        i <= s@.len(),
    ensures
        same(r, datetime_or_never_at(s@, i as int)),
        r matches Some((_, j)) ==> i <= j <= s@.len(),
{
    match val_datetime(s, i) {
        Some((t, j)) => Some((Some(t), j)),
        None => match tag(s, i, "never") {
            Some(j) => Some((None, j)),
            None => None,
        },
    }
}

/// What a field of a lease block sets.
pub enum FieldView {
    Starts(LeaseTime),
    Ends(LeaseTime),
    Tstp(LeaseTime),
    Cltt(LeaseTime),
    HardwareEthernet(Seq<u8>),
    ClientHostname(Seq<char>),
    Other,
}

/// A field of a lease block.
#[derive(Debug, Clone)]
pub enum LeaseField {
    Starts(LeaseTime),
    Ends(LeaseTime),
    Tstp(LeaseTime),
    Cltt(LeaseTime),
    HardwareEthernet(MacAddr),
    ClientHostname(String),
    Uid(String),
    VendorClassIdentifier(String),
    BindingState,
}

impl View for LeaseField {
    type V = FieldView;

    open spec fn view(&self) -> FieldView {
        match self {
            LeaseField::Starts(t) => FieldView::Starts(*t),
            LeaseField::Ends(t) => FieldView::Ends(*t),
            LeaseField::Tstp(t) => FieldView::Tstp(*t),
            LeaseField::Cltt(t) => FieldView::Cltt(*t),
            LeaseField::HardwareEthernet(m) => FieldView::HardwareEthernet(m@),
            LeaseField::ClientHostname(h) => FieldView::ClientHostname(h@),
            _ => FieldView::Other,
        }
    }
}

/// A time field: its keyword, blanks, and a time stamp or `never`.
pub open spec fn time_field_at(s: Seq<char>, i: int, kw: Seq<char>) -> Option<(LeaseTime, int)> {
    match tag_end(s, i, kw) {
        None => None,
        Some(p) => datetime_or_never_at(s, blank_end(s, p)),
    }
}

/// A keyword, blanks and a string literal.
pub open spec fn string_field_at(s: Seq<char>, i: int, kw: Seq<char>) -> Option<(Seq<char>, int)> {
    match tag_end(s, i, kw) {
        None => None,
        Some(p) => string_at(s, blank_end(s, p)),
    }
}

/// `set vendor-class-identifier = "..."`.
pub open spec fn vendor_class_at(s: Seq<char>, i: int) -> Option<(Seq<char>, int)> {
    match tag_end(s, i, "set"@) {
        None => None,
        Some(p1) => match tag_end(s, blank_end(s, p1), "vendor-class-identifier"@) {
            None => None,
            Some(p2) => if char_at(s, blank_end(s, p2), '=') {
                string_at(s, skip0(s, blank_end(s, p2) + 1))
            } else {
                None
            },
        },
    }
}

/// One of the binding states at `i`.
pub open spec fn state_name_at(s: Seq<char>, i: int) -> Option<int> {
    if tag_end(s, i, "active"@) is Some {
        tag_end(s, i, "active"@)
    } else if tag_end(s, i, "free"@) is Some {
        tag_end(s, i, "free"@)
    } else if tag_end(s, i, "abandoned"@) is Some {
        tag_end(s, i, "abandoned"@)
    } else if tag_end(s, i, "backup"@) is Some {
        tag_end(s, i, "backup"@)
    } else if tag_end(s, i, "expired"@) is Some {
        tag_end(s, i, "expired"@)
    } else if tag_end(s, i, "released"@) is Some {
        tag_end(s, i, "released"@)
    } else {
        tag_end(s, i, "reset"@)
    }
}

/// Where the optional `next` or `rewind` and its blanks end: `i` itself where
/// there is none.
pub open spec fn binding_prefix_end(s: Seq<char>, i: int) -> int {
    let w = if tag_end(s, i, "next"@) is Some {
        tag_end(s, i, "next"@)
    } else {
        tag_end(s, i, "rewind"@)
    };
    match w {
        Some(p) => match blank1(s, p) {
            Some(q) => q,
            None => i,
        },
        None => i,
    }
}

/// `[next|rewind] binding state <state>`.
pub open spec fn binding_state_at(s: Seq<char>, i: int) -> Option<int> {
    match tag_end(s, binding_prefix_end(s, i), "binding"@) {
        None => None,
        Some(p) => match tag_end(s, blank_end(s, p), "state"@) {
            None => None,
            Some(q) => state_name_at(s, blank_end(s, q)),
        },
    }
}

/// The field keyword and value at `i`, trying the field kinds in order.
pub open spec fn field_value_at(s: Seq<char>, i: int) -> Option<(FieldView, int)> {
    if let Some((t, j)) = time_field_at(s, i, "starts"@) {
        Some((FieldView::Starts(t), j))
    } else if let Some((t, j)) = time_field_at(s, i, "ends"@) {
        Some((FieldView::Ends(t), j))
    } else if let Some((t, j)) = time_field_at(s, i, "tstp"@) {
        Some((FieldView::Tstp(t), j))
    } else if let Some((t, j)) = time_field_at(s, i, "cltt"@) {
        Some((FieldView::Cltt(t), j))
    } else if let Some((m, j)) = hardware_ethernet_at(s, i) {
        Some((FieldView::HardwareEthernet(m), j))
    } else if let Some((h, j)) = string_field_at(s, i, "client-hostname"@) {
        Some((FieldView::ClientHostname(h), j))
    } else if let Some((_, j)) = string_field_at(s, i, "uid"@) {
        Some((FieldView::Other, j))
    } else if let Some((_, j)) = vendor_class_at(s, i) {
        Some((FieldView::Other, j))
    } else if let Some(j) = binding_state_at(s, i) {
        Some((FieldView::Other, j))
    } else {
        None
    }
}

/// A whole field at `i`: whitespace, the field, whitespace, `;`, whitespace.
pub open spec fn lease_field_at(s: Seq<char>, i: int) -> Option<(FieldView, int)> {
    match field_value_at(s, skip0(s, i)) {
        None => None,
        Some((f, j)) => if char_at(s, skip0(s, j), ';') {
            Some((f, skip0(s, skip0(s, j) + 1)))
        } else {
            None
        },
    }
}

fn time_field(s: &Vec<char>, i: usize, kw: &str) -> (r: Option<(LeaseTime, usize)>)
    requires
        i <= s@.len(),
    ensures
        same(r, time_field_at(s@, i as int, kw@)),
        r matches Some((_, j)) ==> i <= j <= s@.len(),
{
    let p = tag(s, i, kw)?;
    val_datetime_or_never(s, space0(s, p))
}

fn string_field(s: &Vec<char>, i: usize, kw: &str) -> (r: Option<(String, usize)>)
    requires
        i <= s@.len(),
    ensures
        agrees(r, string_field_at(s@, i as int, kw@)),
        r matches Some((_, j)) ==> i <= j <= s@.len(),
{
    let p = tag(s, i, kw)?;
    val_string(s, space0(s, p))
}

/// Reads `set vendor-class-identifier = "..."`.
pub fn field_vendor_class_identifier(s: &Vec<char>, i: usize) -> (r: Option<(String, usize)>)
    requires
        i <= s@.len(),
    ensures
        agrees(r, vendor_class_at(s@, i as int)),
        r matches Some((_, j)) ==> i <= j <= s@.len(),
{
    let p1 = tag(s, i, "set")?;
    let p2 = tag(s, space0(s, p1), "vendor-class-identifier")?;
    let p3 = expect_char(s, space0(s, p2), '=')?;
    val_string(s, anyspace0(s, p3))
}

fn state_name(s: &Vec<char>, i: usize) -> (r: Option<usize>)
    requires
        i <= s@.len(),
    ensures
        r matches Some(j) ==> i <= j <= s@.len() && state_name_at(s@, i as int) == Some(j as int),
        r is None ==> state_name_at(s@, i as int) is None,
{
    if let Some(j) = tag(s, i, "active") {
        Some(j)
    } else if let Some(j) = tag(s, i, "free") {
        Some(j)
    } else if let Some(j) = tag(s, i, "abandoned") {
        Some(j)
    } else if let Some(j) = tag(s, i, "backup") {
        Some(j)
    } else if let Some(j) = tag(s, i, "expired") {
        Some(j)
    } else if let Some(j) = tag(s, i, "released") {
        Some(j)
    } else {
        tag(s, i, "reset")
    }
}

/// Reads `[next|rewind] binding state <state>`, with one of the states
/// active, free, abandoned, backup, expired, released or reset.
pub fn binding_state(s: &Vec<char>, i: usize) -> (r: Option<usize>)
    requires
        i <= s@.len(),
    ensures
        r matches Some(j) ==> i <= j <= s@.len() && binding_state_at(s@, i as int) == Some(j as int),
        r is None ==> binding_state_at(s@, i as int) is None,
{
    let w = match tag(s, i, "next") {
        Some(p) => Some(p),
        None => tag(s, i, "rewind"),
    };
    let start = match w {
        Some(p) => match space1(s, p) {
            Some(q) => q,
            None => i,
        },
        None => i,
    };
    let p = tag(s, start, "binding")?;
    let q = tag(s, space0(s, p), "state")?;
    state_name(s, space0(s, q))
}

/// Reads the keyword and value of one lease field.
pub fn field_value(s: &Vec<char>, i: usize) -> (r: Option<(LeaseField, usize)>)
    requires
        i <= s@.len(),
    ensures
        agrees(r, field_value_at(s@, i as int)),
        r matches Some((_, j)) ==> i <= j <= s@.len(),
{
    if let Some((t, j)) = time_field(s, i, "starts") {
        Some((LeaseField::Starts(t), j))
    } else if let Some((t, j)) = time_field(s, i, "ends") {
        Some((LeaseField::Ends(t), j))
    } else if let Some((t, j)) = time_field(s, i, "tstp") {
        Some((LeaseField::Tstp(t), j))
    } else if let Some((t, j)) = time_field(s, i, "cltt") {
        Some((LeaseField::Cltt(t), j))
    } else if let Some((m, j)) = keyword_hardware_ethernet(s, i) {
        Some((LeaseField::HardwareEthernet(m), j))
    } else if let Some((h, j)) = string_field(s, i, "client-hostname") {
        Some((LeaseField::ClientHostname(h), j))
    } else if let Some((u, j)) = string_field(s, i, "uid") {
        Some((LeaseField::Uid(u), j))
    } else if let Some((v, j)) = field_vendor_class_identifier(s, i) {
        Some((LeaseField::VendorClassIdentifier(v), j))
    } else if let Some(j) = binding_state(s, i) {
        Some((LeaseField::BindingState, j))
    } else {
        None
    }
}

/// Reads one field of a lease block with the whitespace around it and its `;`.
pub fn lease_field(s: &Vec<char>, i: usize) -> (r: Option<(LeaseField, usize)>)
    requires
        i <= s@.len(),
    ensures
        agrees(r, lease_field_at(s@, i as int)),
        r matches Some((_, j)) ==> i < j <= s@.len(),
{
    let (f, j) = field_value(s, anyspace0(s, i))?;
    let k = expect_char(s, anyspace0(s, j), ';')?;
    Some((f, anyspace0(s, k)))
}

/// A lease block as read so far.
pub struct BlockView {
    pub address: Ipv4Addr,
    pub starts: LeaseTime,
    pub ends: LeaseTime,
    pub tstp: LeaseTime,
    pub cltt: LeaseTime,
    pub hardware_ethernet: Option<Seq<u8>>,
    pub client_hostname: Option<Seq<char>>,
}

/// A lease block: its address and the fields read, the last of each kind winning.
#[derive(Debug, Clone)]
pub struct LeaseBlock {
    pub address: Ipv4Addr,
    pub starts: LeaseTime,
    pub ends: LeaseTime,
    pub tstp: LeaseTime,
    pub cltt: LeaseTime,
    pub hardware_ethernet: Option<MacAddr>,
    pub client_hostname: Option<String>,
}

impl View for LeaseBlock {
    type V = BlockView;

    open spec fn view(&self) -> BlockView {
        BlockView {
            address: self.address,
            starts: self.starts,
            ends: self.ends,
            tstp: self.tstp,
            cltt: self.cltt,
            hardware_ethernet: match self.hardware_ethernet {
                Some(m) => Some(m@),
                None => None,
            },
            client_hostname: opt_text(self.client_hostname),
        }
    }
}

pub open spec fn empty_block(a: Ipv4Addr) -> BlockView {
    BlockView {
        address: a,
        starts: None,
        ends: None,
        tstp: None,
        cltt: None,
        hardware_ethernet: None,
        client_hostname: None,
    }
}

/// The block after one more field.
pub open spec fn apply_field(b: BlockView, f: FieldView) -> BlockView {
    match f {
        FieldView::Starts(t) => BlockView { starts: t, ..b },
        FieldView::Ends(t) => BlockView { ends: t, ..b },
        FieldView::Tstp(t) => BlockView { tstp: t, ..b },
        FieldView::Cltt(t) => BlockView { cltt: t, ..b },
        FieldView::HardwareEthernet(m) => BlockView { hardware_ethernet: Some(m), ..b },
        FieldView::ClientHostname(h) => BlockView { client_hostname: Some(h), ..b },
        FieldView::Other => b,
    }
}

/// The fields from `i` on, as many as there are, applied to `b`.
pub open spec fn fields_from(s: Seq<char>, i: int, b: BlockView) -> (BlockView, int)
    decreases s.len() - i,
{
    match lease_field_at(s, i) {
        Some((f, j)) => if i < j <= s.len() {
            fields_from(s, j, apply_field(b, f))
        } else {
            (b, i)
        },
        None => (b, i),
    }
}

/// `lease <address> { <fields> }` at `i`, with at least one field.
pub open spec fn lease_block_at(s: Seq<char>, i: int) -> Option<(BlockView, int)> {
    match tag_end(s, skip0(s, i), "lease"@) {
        None => None,
        Some(p1) => match skip1(s, p1) {
            None => None,
            Some(p2) => match address_at(s, p2) {
                None => None,
                Some((a, p3)) => if !char_at(s, skip0(s, p3), '{') {
                    None
                } else {
                    let p5 = skip0(s, skip0(s, p3) + 1);
                    if lease_field_at(s, p5) is None {
                        None
                    } else {
                        let (b, q) = fields_from(s, p5, empty_block(a));
                        if char_at(s, skip0(s, q), '}') {
                            Some((b, skip0(s, skip0(s, q) + 1)))
                        } else {
                            None
                        }
                    }
                },
            },
        },
    }
}

/// `authoring-byte-order little-endian;` or `... big-endian;` at `i`.
pub open spec fn byte_order_at(s: Seq<char>, i: int) -> Option<int> {
    match tag_end(s, i, "authoring-byte-order"@) {
        None => None,
        Some(p1) => match skip1(s, p1) {
            None => None,
            Some(p2) => {
                let w = if tag_end(s, p2, "little-endian"@) is Some {
                    tag_end(s, p2, "little-endian"@)
                } else {
                    tag_end(s, p2, "big-endian"@)
                };
                match w {
                    None => None,
                    Some(p3) => if char_at(s, skip0(s, p3), ';') {
                        Some(skip0(s, skip0(s, p3) + 1))
                    } else {
                        None
                    },
                }
            },
        },
    }
}

/// `server-duid "<string>";` at `i`.
pub open spec fn server_duid_at(s: Seq<char>, i: int) -> Option<int> {
    match tag_end(s, i, "server-duid"@) {
        None => None,
        Some(p1) => match skip1(s, p1) {
            None => None,
            Some(p2) => match string_at(s, p2) {
                None => None,
                Some((_, p3)) => if char_at(s, skip0(s, p3), ';') {
                    Some(skip0(s, skip0(s, p3) + 1))
                } else {
                    None
                },
            },
        },
    }
}

/// One statement of the file at `i`: the lease block it is, or none for the
/// statements that are read and dropped.
pub open spec fn item_at(s: Seq<char>, i: int) -> Option<(Option<BlockView>, int)> {
    if let Some(j) = byte_order_at(s, i) {
        Some((None, j))
    } else if let Some(j) = server_duid_at(s, i) {
        Some((None, j))
    } else if let Some((b, j)) = lease_block_at(s, i) {
        Some((Some(b), j))
    } else {
        None
    }
}

pub open spec fn opt_seq<T>(o: Option<T>) -> Seq<T> {
    match o {
        Some(x) => seq![x],
        None => seq![],
    }
}

/// The statements from `i` on, each after whitespace, as many as there are: the
/// lease blocks among them and where they stop.
pub open spec fn items_from(s: Seq<char>, i: int) -> (Seq<BlockView>, int)
    decreases s.len() - i,
{
    match item_at(s, skip0(s, i)) {
        Some((it, j)) => if i < j <= s.len() {
            let (rest, k) = items_from(s, j);
            (opt_seq(it) + rest, k)
        } else {
            (seq![], i)
        },
        None => (seq![], i),
    }
}

/// Why a lease file could not be read.
#[derive(Debug, Clone, Copy, PartialEq, Eq, Structural)]
pub enum LeasesParseError {
    /// The text departs from the grammar: `offset` is the character position
    /// where the statements read stop.
    Syntax { offset: usize },
    /// A lease block has no `hardware ethernet` field.
    MissingHardwareEthernet { address: Ipv4Addr },
}

/// The lease record of a block, where it has a hardware address.
pub open spec fn block_lease(b: BlockView) -> Option<LeaseView> {
    match b.hardware_ethernet {
        Some(m) => Some(
            LeaseView {
                address: b.address,
                starts: b.starts,
                ends: b.ends,
                tstp: b.tstp,
                cltt: b.cltt,
                hardware_ethernet: m,
                client_hostname: b.client_hostname,
            },
        ),
        None => None,
    }
}

/// The records of the blocks from the `i`-th on, or the error of the first block
/// without a hardware address.
pub open spec fn leases_from(bs: Seq<BlockView>, i: int) -> Result<Seq<LeaseView>, LeasesParseError>
    decreases bs.len() - i,
{
    if i < 0 || i >= bs.len() {
        Ok(seq![])
    } else {
        match block_lease(bs[i]) {
            None => Err(LeasesParseError::MissingHardwareEthernet { address: bs[i].address }),
            Some(l) => match leases_from(bs, i + 1) {
                Ok(rest) => Ok(seq![l] + rest),
                Err(e) => Err(e),
            },
        }
    }
}

/// What a lease file holds: one record per lease block, in file order, when the
/// whole text is one or more statements; a syntax error where the statements
/// stop short of its end; else the error of the first block without a hardware
/// address.
pub open spec fn leases_of(s: Seq<char>) -> Result<Seq<LeaseView>, LeasesParseError> {
    let (blocks, k) = items_from(s, 0);
    if k == s.len() && k > 0 {
        leases_from(blocks, 0)
    } else {
        Err(LeasesParseError::Syntax { offset: k as usize })
    }
}

pub open spec fn lease_views(v: Seq<Lease>) -> Seq<LeaseView> {
    v.map_values(|l: Lease| l@)
}

impl LeaseBlock {
    pub fn new(address: Ipv4Addr) -> (r: LeaseBlock)
        ensures
            r@ == empty_block(address),
    {
        LeaseBlock {
            address,
            starts: None,
            ends: None,
            tstp: None,
            cltt: None,
            hardware_ethernet: None,
            client_hostname: None,
        }
    }

    /// Applies a field: it replaces what the block held of its kind.
    pub fn apply(&mut self, f: LeaseField)
        ensures
            final(self)@ == apply_field(old(self)@, f@),
    {
        match f {
            LeaseField::Starts(t) => {
                self.starts = t;
            },
            LeaseField::Ends(t) => {
                self.ends = t;
            },
            LeaseField::Tstp(t) => {
                self.tstp = t;
            },
            LeaseField::Cltt(t) => {
                self.cltt = t;
            },
            LeaseField::HardwareEthernet(m) => {
                self.hardware_ethernet = Some(m);
            },
            LeaseField::ClientHostname(h) => {
                self.client_hostname = Some(h);
            },
            _ => {},
        }
    }
}

/// Reads a lease block: `lease`, an address, and at least one field in braces.
pub fn lease(s: &Vec<char>, i: usize) -> (r: Option<(LeaseBlock, usize)>)
    requires
        i <= s@.len(),
    ensures
        agrees(r, lease_block_at(s@, i as int)),
        r matches Some((_, j)) ==> i < j <= s@.len(),
{
    let p1 = tag(s, anyspace0(s, i), "lease")?;
    let p2 = anyspace1(s, p1)?;
    let (a, p3) = val_address(s, p2)?;
    let p4 = expect_char(s, anyspace0(s, p3), '{')?;
    let p5 = anyspace0(s, p4);
    let mut block = LeaseBlock::new(a);
    let (f, mut q) = lease_field(s, p5)?;
    block.apply(f);
    loop
        invariant
            p5 < q <= s@.len(),
            i < p5,
            fields_from(s@, p5 as int, empty_block(a)) == fields_from(s@, q as int, block@),
        ensures
            p5 < q <= s@.len(),
            fields_from(s@, p5 as int, empty_block(a)) == (block@, q as int),
        decreases s@.len() - q,
    {
        match lease_field(s, q) {
            Some((g, q2)) => {
                block.apply(g);
                q = q2;
            },
            None => {
                break ;
            },
        }
    }
    let e = expect_char(s, anyspace0(s, q), '}')?;
    Some((block, anyspace0(s, e)))
}

/// Reads `authoring-byte-order little-endian;` or `... big-endian;`.
pub fn authoring_byte_order(s: &Vec<char>, i: usize) -> (r: Option<usize>)
    requires
        i <= s@.len(),
    ensures
        r matches Some(j) ==> i < j <= s@.len() && byte_order_at(s@, i as int) == Some(j as int),
        r is None ==> byte_order_at(s@, i as int) is None,
{
    let p1 = tag(s, i, "authoring-byte-order")?;
    let p2 = anyspace1(s, p1)?;
    let p3 = match tag(s, p2, "little-endian") {
        Some(p) => p,
        None => tag(s, p2, "big-endian")?,
    };
    let p4 = expect_char(s, anyspace0(s, p3), ';')?;
    Some(anyspace0(s, p4))
}

/// Reads `server-duid "<string>";`.
pub fn server_duid(s: &Vec<char>, i: usize) -> (r: Option<usize>)
    requires
        i <= s@.len(),
    ensures
        r matches Some(j) ==> i < j <= s@.len() && server_duid_at(s@, i as int) == Some(j as int),
        r is None ==> server_duid_at(s@, i as int) is None,
{
    let p1 = tag(s, i, "server-duid")?;
    let p2 = anyspace1(s, p1)?;
    let (_, p3) = val_string(s, p2)?;
    let p4 = expect_char(s, anyspace0(s, p3), ';')?;
    Some(anyspace0(s, p4))
}

/// Reads one statement of a lease file.
fn file_item(s: &Vec<char>, i: usize) -> (r: Option<(Option<LeaseBlock>, usize)>)
    requires
        i <= s@.len(),
    ensures
        match item_at(s@, i as int) {
            None => r is None,
            Some((it, j)) => r matches Some((x, k)) && k == j && i < k <= s@.len() && it
                == opt_block_view(&x),
        },
{
    if let Some(j) = authoring_byte_order(s, i) {
        Some((None, j))
    } else if let Some(j) = server_duid(s, i) {
        Some((None, j))
    } else if let Some((b, j)) = lease(s, i) {
        Some((Some(b), j))
    } else {
        None
    }
}

pub open spec fn opt_block_view(o: &Option<LeaseBlock>) -> Option<BlockView> {
    match o {
        Some(b) => Some(b@),
        None => None,
    }
}

pub open spec fn block_views(v: Seq<LeaseBlock>) -> Seq<BlockView> {
    v.map_values(|b: LeaseBlock| b@)
}

/// Reads the statements of a lease file, each after whitespace, as many as
/// there are: the lease blocks among them and where they stop.
pub fn lease_file_items(s: &Vec<char>) -> (r: (Vec<LeaseBlock>, usize))
    ensures
        (block_views(r.0@), r.1 as int) == items_from(s@, 0),
{
    let mut blocks: Vec<LeaseBlock> = Vec::new();
    let mut p: usize = 0;
    loop
        invariant
            p <= s@.len(),
            items_from(s@, 0) == (block_views(blocks@) + items_from(s@, p as int).0, items_from(
                s@,
                p as int,
            ).1),
        ensures
            p <= s@.len(),
            items_from(s@, 0) == (block_views(blocks@), p as int),
        decreases s@.len() - p,
    {
        let ghost before = blocks@;
        match file_item(s, anyspace0(s, p)) {
            Some((it, j)) => {
                let ghost bv = opt_block_view(&it);
                proof {
                    let rest = items_from(s@, j as int);
                    assert(items_from(s@, p as int) == (opt_seq(bv) + rest.0, rest.1));
                }
                match it {
                    Some(b) => {
                        blocks.push(b);
                    },
                    None => {},
                }
                proof {
                    let rest = items_from(s@, j as int);
                    assert(block_views(before) + (opt_seq(bv) + rest.0) =~= block_views(blocks@) + rest.0);
                }
                p = j;
            },
            None => {
                assert(items_from(s@, p as int).0 =~= seq![]);
                assert(block_views(blocks@) + seq![] =~= block_views(blocks@));
                break ;
            },
        }
    }
    (blocks, p)
}

/// Parses a lease file into one record per lease block, in file order. Fails
/// with a syntax error unless the whole text is one or more statements
/// (`authoring-byte-order`, `server-duid`, `lease` blocks), and with the first
/// block that has no `hardware ethernet` field.
pub fn parse(input: &str) -> (r: Result<Vec<Lease>, LeasesParseError>)
    ensures
        match r {
            Ok(v) => leases_of(input@) == Ok::<Seq<LeaseView>, LeasesParseError>(lease_views(v@)),
            Err(e) => leases_of(input@) == Err::<Seq<LeaseView>, LeasesParseError>(e),
        },
{
    let s = crate::text::chars_of(input);
    let (blocks, k) = lease_file_items(&s);
    if !(k == s.len() && k > 0) {
        return Err(LeasesParseError::Syntax { offset: k });
    }
    let ghost bs = block_views(blocks@);
    assert(leases_of(input@) == leases_from(bs, 0));
    let mut leases: Vec<Lease> = Vec::new();
    let mut i: usize = 0;
    while i < blocks.len()
        invariant
            i <= blocks@.len(),
            bs == block_views(blocks@),
            leases_of(input@) == leases_from(bs, 0),
            leases_from(bs, 0) == match leases_from(bs, i as int) {
                Ok(rest) => Ok(lease_views(leases@) + rest),
                Err(e) => Err(e),
            },
        decreases blocks@.len() - i,
    {
        let b = &blocks[i];
        assert(bs[i as int] == b@);
        match &b.hardware_ethernet {
            None => {
                assert(block_lease(bs[i as int]) is None);
                assert(leases_from(bs, i as int) == Err::<Seq<LeaseView>, LeasesParseError>(
                    LeasesParseError::MissingHardwareEthernet { address: b.address }));
                return Err(LeasesParseError::MissingHardwareEthernet { address: b.address });
            },
            Some(m) => {
                let l = Lease {
                    address: b.address,
                    starts: b.starts,
                    ends: b.ends,
                    tstp: b.tstp,
                    cltt: b.cltt,
                    hardware_ethernet: *m,
                    client_hostname: b.client_hostname.clone(),
                };
                let ghost before = leases@;
                leases.push(l);
                proof {
                    assert(lease_views(leases@) =~= lease_views(before).push(l@));
                    assert(l@ == block_lease(bs[i as int])->0);
                    let rest = leases_from(bs, i + 1);
                    if rest is Ok {
                        assert(lease_views(before) + (seq![l@] + rest->Ok_0) =~= lease_views(leases@)
                            + rest->Ok_0);
                    }
                }
            },
        }
        i = i + 1;
    }
    assert(lease_views(leases@) + seq![] =~= lease_views(leases@));
    Ok(leases)
}

proof fn lemma_leases_from_missing(bs: Seq<BlockView>, i: int, n: int)
    requires
        0 <= i <= n < bs.len(),
        bs[n].hardware_ethernet is None,
    ensures
        leases_from(bs, i) matches Err(LeasesParseError::MissingHardwareEthernet { .. }),
    decreases n - i,
{
    if i < n && block_lease(bs[i]) is Some {
        lemma_leases_from_missing(bs, i + 1, n);
    }
}

/// A lease file that reads as statements but holds a block without a
/// `hardware ethernet` field fails with a missing-hardware error: it is never
/// read as a list of records that drops that block.
pub proof fn lemma_block_without_hardware_fails(s: Seq<char>, n: int)
    requires
        items_from(s, 0).1 == s.len(),
        s.len() > 0,
        0 <= n < items_from(s, 0).0.len(),
        items_from(s, 0).0[n].hardware_ethernet is None,
    ensures
        leases_of(s) matches Err(LeasesParseError::MissingHardwareEthernet { .. }),
{
    lemma_leases_from_missing(items_from(s, 0).0, 0, n);
}

} // verus!
