//! The host configuration: `host` blocks, and the subnet, pool, option and
//! directive statements that are read in full and then dropped.
use vstd::prelude::*;

use crate::dhcp_parsers::{
    address_at, agrees, agrees_pos, same, anyspace0, anyspace1, char_at, dec_val, dec_value, digit1,
    digits1, expect_char, hardware_ethernet_at, identifier_at, keyword_hardware_ethernet, skip0,
    skip1, string_at, tag, tag_end, val_address, val_identifier, val_string,
};
use crate::model::{Host, HostView, Ipv4Addr, MacAddr, opt_text};
use crate::text::chars_of;

verus! {

/// What a field of a host block holds.
pub enum HostFieldView {
    HardwareEthernet(Seq<u8>),
    FixedAddress(Ipv4Addr),
    Option(Seq<char>, Seq<char>),
    Ignored(Seq<char>),
}

/// A field of a host block.
#[derive(Debug, Clone, PartialEq, Eq)]
pub enum HostField {
    HardwareEthernet(MacAddr),
    FixedAddress(Ipv4Addr),
    Option(String, String),
    Ignored(String),
}

impl View for HostField {
    type V = HostFieldView;

    open spec fn view(&self) -> HostFieldView {
        match self {
            HostField::HardwareEthernet(m) => HostFieldView::HardwareEthernet(m@),
            HostField::FixedAddress(a) => HostFieldView::FixedAddress(*a),
            HostField::Option(n, v) => HostFieldView::Option(n@, v@),
            HostField::Ignored(x) => HostFieldView::Ignored(x@),
        }
    }
}

/// `fixed-address <ip>`.
pub open spec fn fixed_address_at(s: Seq<char>, i: int) -> Option<(Ipv4Addr, int)> {
    match tag_end(s, i, "fixed-address"@) {
        None => None,
        Some(p) => match skip1(s, p) {
            None => None,
            Some(q) => address_at(s, q),
        },
    }
}

/// `option <name> "<string>"`.
pub open spec fn host_option_at(s: Seq<char>, i: int) -> Option<((Seq<char>, Seq<char>), int)> {
    match tag_end(s, i, "option"@) {
        None => None,
        Some(p) => match skip1(s, p) {
            None => None,
            Some(q) => match identifier_at(s, q) {
                None => None,
                Some((name, r)) => match skip1(s, r) {
                    None => None,
                    Some(t) => match string_at(s, t) {
                        None => None,
                        Some((v, e)) => Some(((name, v), e)),
                    },
                },
            },
        },
    }
}

/// A literal at `i` followed by at least one whitespace.
pub open spec fn word_space_at(s: Seq<char>, i: int, w: Seq<char>) -> Option<int> {
    match tag_end(s, i, w) {
        None => None,
        Some(p) => skip1(s, p),
    }
}

/// `set hostname-override = config-option host-name`.
pub open spec fn hostname_override_at(s: Seq<char>, i: int) -> Option<int> {
    match word_space_at(s, i, "set"@) {
        None => None,
        Some(p1) => match word_space_at(s, p1, "hostname-override"@) {
            None => None,
            Some(p2) => match word_space_at(s, p2, "="@) {
                None => None,
                Some(p3) => match word_space_at(s, p3, "config-option"@) {
                    None => None,
                    Some(p4) => tag_end(s, p4, "host-name"@),
                },
            },
        },
    }
}

/// A keyword, whitespace, a number and any whitespace after it: the keyword and
/// the number, one space apart.
pub open spec fn number_field_at(s: Seq<char>, i: int, kw: Seq<char>) -> Option<(Seq<char>, int)> {
    match tag_end(s, i, kw) {
        None => None,
        Some(p) => match skip1(s, p) {
            None => None,
            Some(q) => match digits1(s, q) {
                None => None,
                Some(e) => Some((kw + seq![' '] + s.subrange(q, e), skip0(s, e))),
            },
        },
    }
}

/// The field at `i`, trying the field kinds in order.
pub open spec fn host_field_value_at(s: Seq<char>, i: int) -> Option<(HostFieldView, int)> {
    if let Some((m, j)) = hardware_ethernet_at(s, i) {
        Some((HostFieldView::HardwareEthernet(m), j))
    } else if let Some((a, j)) = fixed_address_at(s, i) {
        Some((HostFieldView::FixedAddress(a), j))
    } else if let Some(((n, v), j)) = host_option_at(s, i) {
        Some((HostFieldView::Option(n, v), j))
    } else if let Some(j) = hostname_override_at(s, i) {
        Some((HostFieldView::Ignored("set hostname-override = config-option host-name"@), j))
    } else if let Some((x, j)) = number_field_at(s, i, "default-lease-time"@) {
        Some((HostFieldView::Ignored(x), j))
    } else if let Some((x, j)) = number_field_at(s, i, "max-lease-time"@) {
        Some((HostFieldView::Ignored(x), j))
    } else {
        None
    }
}

/// A field and its `;`.
pub open spec fn host_field_at(s: Seq<char>, i: int) -> Option<(HostFieldView, int)> {
    match host_field_value_at(s, i) {
        None => None,
        Some((f, j)) => if char_at(s, skip0(s, j), ';') {
            Some((f, skip0(s, j) + 1))
        } else {
            None
        },
    }
}

/// The fields from `i` on, each after whitespace, as many as there are.
pub open spec fn host_fields_from(s: Seq<char>, i: int) -> (Seq<HostFieldView>, int)
    decreases s.len() - i,
{
    match host_field_at(s, skip0(s, i)) {
        Some((f, j)) => if i < j <= s.len() {
            let (rest, k) = host_fields_from(s, j);
            (seq![f] + rest, k)
        } else {
            (seq![], i)
        },
        None => (seq![], i),
    }
}

/// A host block as read: its label and fields.
pub struct HostBlockView {
    pub label: Seq<char>,
    pub fields: Seq<HostFieldView>,
}

/// `host <label> { <fields> }` at `i`, with at least one field, and whitespace
/// before the closing brace.
pub open spec fn host_block_at(s: Seq<char>, i: int) -> Option<(HostBlockView, int)> {
    match tag_end(s, i, "host"@) {
        None => None,
        Some(p1) => match skip1(s, p1) {
            None => None,
            Some(p2) => match identifier_at(s, p2) {
                None => None,
                Some((label, p3)) => if !char_at(s, skip0(s, p3), '{') {
                    None
                } else {
                    let q = skip0(s, skip0(s, p3) + 1);
                    if host_field_at(s, skip0(s, q)) is None {
                        None
                    } else {
                        let (fields, e) = host_fields_from(s, q);
                        match skip1(s, e) {
                            None => None,
                            Some(f) => if char_at(s, f, '}') {
                                Some((HostBlockView { label, fields }, f + 1))
                            } else {
                                None
                            },
                        }
                    }
                },
            },
        },
    }
}

fn word_space(s: &Vec<char>, i: usize, w: &str) -> (r: Option<usize>)
    requires
        i <= s@.len(),
    ensures
        agrees_pos(r, word_space_at(s@, i as int, w@)),
        r matches Some(j) ==> i < j <= s@.len(),
{
    let p = tag(s, i, w)?;
    anyspace1(s, p)
}

/// Reads `fixed-address <ip>`.
pub fn host_field_fixed_address(s: &Vec<char>, i: usize) -> (r: Option<(Ipv4Addr, usize)>)
    requires
        i <= s@.len(),
    ensures
        agrees(r, fixed_address_at(s@, i as int)),
        r matches Some((_, j)) ==> i < j <= s@.len(),
{
    let p = tag(s, i, "fixed-address")?;
    let q = anyspace1(s, p)?;
    val_address(s, q)
}

/// Reads `option <name> "<string>"`.
pub fn host_field_option(s: &Vec<char>, i: usize) -> (r: Option<((String, String), usize)>)
    requires
        i <= s@.len(),
    ensures
        match host_option_at(s@, i as int) {
            None => r is None,
            Some(((n, v), j)) => r matches Some(((a, b), k)) && a@ == n && b@ == v && k == j,
        },
        r matches Some((_, j)) ==> i < j <= s@.len(),
{
    let p = tag(s, i, "option")?;
    let q = anyspace1(s, p)?;
    let (name, r) = val_identifier(s, q)?;
    let t = anyspace1(s, r)?;
    let (v, e) = val_string(s, t)?;
    Some(((name, v), e))
}

/// Reads `set hostname-override = config-option host-name`.
pub fn host_field_set_hostname_override(s: &Vec<char>, i: usize) -> (r: Option<usize>)
    requires
        i <= s@.len(),
    ensures
        agrees_pos(r, hostname_override_at(s@, i as int)),
        r matches Some(j) ==> i < j <= s@.len(),
{
    let p1 = word_space(s, i, "set")?;
    let p2 = word_space(s, p1, "hostname-override")?;
    let p3 = word_space(s, p2, "=")?;
    let p4 = word_space(s, p3, "config-option")?;
    tag(s, p4, "host-name")
}

/// Reads a keyword, whitespace, a number and any whitespace after it; gives
/// back the keyword and the number, one space apart.
fn number_field(s: &Vec<char>, i: usize, kw: &str) -> (r: Option<(String, usize)>)
    requires
        i <= s@.len(),
    ensures
        agrees(r, number_field_at(s@, i as int, kw@)),
        r matches Some((_, j)) ==> i < j <= s@.len(),
{
    let p = tag(s, i, kw)?;
    let q = anyspace1(s, p)?;
    let e = digit1(s, q)?;
    let mut text = chars_of(kw);
    text.push(' ');
    let ghost start = text@;
    let mut k = q;
    while k < e
        invariant
            q <= k <= e,
            e <= s@.len(),
            text@ == start + s@.subrange(q as int, k as int),
        decreases e - k,
    {
        text.push(s[k]);
        k = k + 1;
        assert(text@ =~= start + s@.subrange(q as int, k as int));
    }
    assert(start =~= kw@ + seq![' ']);
    Some((crate::text::string_of(&text), anyspace0(s, e)))
}

/// Reads the field of a host block at `i`.
pub fn host_field_value(s: &Vec<char>, i: usize) -> (r: Option<(HostField, usize)>)
    requires
        i <= s@.len(),
    ensures
        agrees(r, host_field_value_at(s@, i as int)),
        r matches Some((_, j)) ==> i < j <= s@.len(),
{
    if let Some((m, j)) = keyword_hardware_ethernet(s, i) {
        Some((HostField::HardwareEthernet(m), j))
    } else if let Some((a, j)) = host_field_fixed_address(s, i) {
        Some((HostField::FixedAddress(a), j))
    } else if let Some(((n, v), j)) = host_field_option(s, i) {
        Some((HostField::Option(n, v), j))
    } else if let Some(j) = host_field_set_hostname_override(s, i) {
        Some((HostField::Ignored(crate::text::string_of(&chars_of("set hostname-override = config-option host-name"))), j))
    } else if let Some((x, j)) = number_field(s, i, "default-lease-time") {
        Some((HostField::Ignored(x), j))
    } else if let Some((x, j)) = number_field(s, i, "max-lease-time") {
        Some((HostField::Ignored(x), j))
    } else {
        None
    }
}

/// Reads a field of a host block and its `;`.
pub fn host_field(s: &Vec<char>, i: usize) -> (r: Option<(HostField, usize)>)
    requires
        i <= s@.len(),
    ensures
        agrees(r, host_field_at(s@, i as int)),
        r matches Some((_, j)) ==> i < j <= s@.len(),
{
    let (f, j) = host_field_value(s, i)?;
    let k = expect_char(s, anyspace0(s, j), ';')?;
    Some((f, k))
}

pub open spec fn host_field_views(v: Seq<HostField>) -> Seq<HostFieldView> {
    v.map_values(|f: HostField| f@)
}

/// A statement of the host configuration.
#[derive(Debug, Clone, PartialEq, Eq)]
pub enum HostFileItem {
    Host { label: String, fields: Vec<HostField> },
    Subnet,
    Option(String, DhcpOptionValue),
    Directive(String, Option<String>),
}

/// The value of a top-level `option` statement.
#[derive(Debug, Clone, PartialEq, Eq)]
pub enum DhcpOptionValue {
    String(String),
    CodeType(u8, DhcpOptionType),
}

/// The type in an option's `code N = <type>` definition.
#[derive(Debug, Clone, Copy, PartialEq, Eq, Structural)]
pub enum DhcpOptionType {
    Text,
    UnsignedInteger(u8),
}

/// The host block a statement is, if it is one.
pub open spec fn item_host(it: HostFileItem) -> Option<HostBlockView> {
    match it {
        HostFileItem::Host { label, fields } => Some(
            HostBlockView { label: label@, fields: host_field_views(fields@) },
        ),
        _ => None,
    }
}

/// Reads a host block: `host`, a label, and at least one field in braces.
pub fn host_block(s: &Vec<char>, i: usize) -> (r: Option<(HostFileItem, usize)>)
    requires
        i <= s@.len(),
    ensures
        match host_block_at(s@, i as int) {
            None => r is None,
            Some((b, j)) => r matches Some((it, k)) && item_host(it) == Some(b) && k == j,
        },
        r matches Some((_, j)) ==> i < j <= s@.len(),
{
    let p1 = tag(s, i, "host")?;
    let p2 = anyspace1(s, p1)?;
    let (label, p3) = val_identifier(s, p2)?;
    let p4 = expect_char(s, anyspace0(s, p3), '{')?;
    let q = anyspace0(s, p4);
    let (f0, mut e) = host_field(s, anyspace0(s, q))?;
    let mut fields: Vec<HostField> = Vec::new();
    fields.push(f0);
    proof {
        assert(host_field_views(fields@) =~= seq![f0@]);
    }
    loop
        invariant
            q < e <= s@.len(),
            host_fields_from(s@, q as int) == (host_field_views(fields@) + host_fields_from(s@, e as int).0,
                host_fields_from(s@, e as int).1),
        ensures
            q < e <= s@.len(),
            host_fields_from(s@, q as int) == (host_field_views(fields@), e as int),
        decreases s@.len() - e,
    {
        let ghost before = fields@;
        match host_field(s, anyspace0(s, e)) {
            Some((f, e2)) => {
                fields.push(f);
                proof {
                    let rest = host_fields_from(s@, e2 as int);
                    assert(host_field_views(before) + (seq![f@] + rest.0) =~= host_field_views(fields@)
                        + rest.0);
                }
                e = e2;
            },
            None => {
                assert(host_field_views(fields@) + seq![] =~= host_field_views(fields@));
                break ;
            },
        }
    }
    let f = anyspace1(s, e)?;
    let end = expect_char(s, f, '}')?;
    Some((HostFileItem::Host { label, fields }, end))
}

/// `option <name> <ip>` inside a pool.
pub open spec fn pool_option_at(s: Seq<char>, i: int) -> Option<int> {
    match word_space_at(s, i, "option"@) {
        None => None,
        Some(p) => match identifier_at(s, p) {
            None => None,
            Some((_, q)) => match skip1(s, q) {
                None => None,
                Some(r) => match address_at(s, r) {
                    None => None,
                    Some((_, e)) => Some(e),
                },
            },
        },
    }
}

/// `range <ip> <ip>`.
pub open spec fn range_at(s: Seq<char>, i: int) -> Option<int> {
    match word_space_at(s, i, "range"@) {
        None => None,
        Some(p) => match address_at(s, p) {
            None => None,
            Some((_, q)) => match skip1(s, q) {
                None => None,
                Some(r) => match address_at(s, r) {
                    None => None,
                    Some((_, e)) => Some(e),
                },
            },
        },
    }
}

/// A pool field with the whitespace around it and its `;`.
pub open spec fn pool_field_at(s: Seq<char>, i: int) -> Option<int> {
    let p = skip0(s, i);
    let q = if pool_option_at(s, p) is Some {
        pool_option_at(s, p)
    } else {
        range_at(s, p)
    };
    match q {
        None => None,
        Some(e) => if char_at(s, skip0(s, e), ';') {
            Some(skip0(s, skip0(s, e) + 1))
        } else {
            None
        },
    }
}

/// Where the pool fields from `i` on stop.
pub open spec fn pool_fields_from(s: Seq<char>, i: int) -> int
    decreases s.len() - i,
{
    match pool_field_at(s, i) {
        Some(j) => if i < j <= s.len() {
            pool_fields_from(s, j)
        } else {
            i
        },
        None => i,
    }
}

/// `pool { <fields> }`.
pub open spec fn pool_block_at(s: Seq<char>, i: int) -> Option<int> {
    match tag_end(s, i, "pool"@) {
        None => None,
        Some(p) => if char_at(s, skip0(s, p), '{') {
            let e = pool_fields_from(s, skip0(s, skip0(s, p) + 1));
            if char_at(s, e, '}') {
                Some(e + 1)
            } else {
                None
            }
        } else {
            None
        },
    }
}

/// An IPv4 literal or a string literal.
pub open spec fn ip_or_string_at(s: Seq<char>, i: int) -> Option<int> {
    match address_at(s, i) {
        Some((_, e)) => Some(e),
        None => match string_at(s, i) {
            Some((_, e)) => Some(e),
            None => None,
        },
    }
}

/// `option <name> <ip-or-string>` inside a subnet, and whitespace after it.
pub open spec fn subnet_option_at(s: Seq<char>, i: int) -> Option<int> {
    match word_space_at(s, i, "option"@) {
        None => None,
        Some(p) => match identifier_at(s, p) {
            None => None,
            Some((_, q)) => match skip1(s, q) {
                None => None,
                Some(r) => match ip_or_string_at(s, r) {
                    None => None,
                    Some(e) => Some(skip0(s, e)),
                },
            },
        },
    }
}

/// `<name> <ip-or-string-or-number>` inside a subnet, and whitespace after it.
pub open spec fn subnet_field_at(s: Seq<char>, i: int) -> Option<int> {
    match identifier_at(s, i) {
        None => None,
        Some((_, q)) => match skip1(s, q) {
            None => None,
            Some(r) => {
                let v = if ip_or_string_at(s, r) is Some {
                    ip_or_string_at(s, r)
                } else {
                    digits1(s, r)
                };
                match v {
                    None => None,
                    Some(e) => Some(skip0(s, e)),
                }
            },
        },
    }
}

/// One item of a subnet, after whitespace: a pool, or an option or field and
/// its `;`.
pub open spec fn subnet_item_at(s: Seq<char>, i: int) -> Option<int> {
    let p = skip0(s, i);
    if pool_block_at(s, p) is Some {
        pool_block_at(s, p)
    } else {
        let q = if subnet_option_at(s, p) is Some {
            subnet_option_at(s, p)
        } else {
            subnet_field_at(s, p)
        };
        match q {
            None => None,
            Some(e) => if char_at(s, e, ';') {
                Some(e + 1)
            } else {
                None
            },
        }
    }
}

/// Where the subnet items from `i` on stop.
pub open spec fn subnet_items_from(s: Seq<char>, i: int) -> int
    decreases s.len() - i,
{
    match subnet_item_at(s, i) {
        Some(j) => if i < j <= s.len() {
            subnet_items_from(s, j)
        } else {
            i
        },
        None => i,
    }
}

/// `subnet <ip> netmask <ip> { <items> }`.
pub open spec fn subnet_block_at(s: Seq<char>, i: int) -> Option<int> {
    match word_space_at(s, i, "subnet"@) {
        None => None,
        Some(p1) => match address_at(s, p1) {
            None => None,
            Some((_, p2)) => match skip1(s, p2) {
                None => None,
                Some(p3) => match word_space_at(s, p3, "netmask"@) {
                    None => None,
                    Some(p4) => match address_at(s, p4) {
                        None => None,
                        Some((_, p5)) => if char_at(s, skip0(s, p5), '{') {
                            let e = subnet_items_from(s, skip0(s, p5) + 1);
                            if char_at(s, skip0(s, e), '}') {
                                Some(skip0(s, e) + 1)
                            } else {
                                None
                            }
                        } else {
                            None
                        },
                    },
                },
            },
        },
    }
}

fn pool_option(s: &Vec<char>, i: usize) -> (r: Option<usize>)
    requires
        i <= s@.len(),
    ensures
        agrees_pos(r, pool_option_at(s@, i as int)),
        r matches Some(j) ==> i < j <= s@.len(),
{
    let p = word_space(s, i, "option")?;
    let (_, q) = val_identifier(s, p)?;
    let r = anyspace1(s, q)?;
    let (_, e) = val_address(s, r)?;
    Some(e)
}

fn pool_range(s: &Vec<char>, i: usize) -> (r: Option<usize>)
    requires
        i <= s@.len(),
    ensures
        agrees_pos(r, range_at(s@, i as int)),
        r matches Some(j) ==> i < j <= s@.len(),
{
    let p = word_space(s, i, "range")?;
    let (_, q) = val_address(s, p)?;
    let r = anyspace1(s, q)?;
    let (_, e) = val_address(s, r)?;
    Some(e)
}

/// Reads a pool field (`option <name> <ip>` or `range <ip> <ip>`) with the
/// whitespace around it and its `;`.
pub fn pool_field(s: &Vec<char>, i: usize) -> (r: Option<usize>)
    requires
        i <= s@.len(),
    ensures
        agrees_pos(r, pool_field_at(s@, i as int)),
        r matches Some(j) ==> i < j <= s@.len(),
{
    let p = anyspace0(s, i);
    let e = match pool_option(s, p) {
        Some(e) => e,
        None => pool_range(s, p)?,
    };
    let f = expect_char(s, anyspace0(s, e), ';')?;
    Some(anyspace0(s, f))
}

/// Reads `pool { <fields> }`.
pub fn pool_block(s: &Vec<char>, i: usize) -> (r: Option<usize>)
    requires
        i <= s@.len(),
    ensures
        agrees_pos(r, pool_block_at(s@, i as int)),
        r matches Some(j) ==> i < j <= s@.len(),
{
    let p = tag(s, i, "pool")?;
    let q = expect_char(s, anyspace0(s, p), '{')?;
    let start = anyspace0(s, q);
    let mut e = start;
    loop
        invariant
            i < start <= e <= s@.len(),
            pool_fields_from(s@, start as int) == pool_fields_from(s@, e as int),
        ensures
            i < start <= e <= s@.len(),
            pool_fields_from(s@, start as int) == e,
        decreases s@.len() - e,
    {
        match pool_field(s, e) {
            Some(e2) => {
                e = e2;
            },
            None => {
                break ;
            },
        }
    }
    let end = expect_char(s, e, '}')?;
    Some(end)
}

fn ip_or_string(s: &Vec<char>, i: usize) -> (r: Option<usize>)
    requires
        i <= s@.len(),
    ensures
        agrees_pos(r, ip_or_string_at(s@, i as int)),
        r matches Some(j) ==> i < j <= s@.len(),
{
    match val_address(s, i) {
        Some((_, e)) => Some(e),
        None => match val_string(s, i) {
            Some((_, e)) => Some(e),
            None => None,
        },
    }
}

/// Reads `option <name> <ip-or-string>` inside a subnet, and whitespace after it.
pub fn subnet_option(s: &Vec<char>, i: usize) -> (r: Option<usize>)
    requires
        i <= s@.len(),
    ensures
        agrees_pos(r, subnet_option_at(s@, i as int)),
        r matches Some(j) ==> i < j <= s@.len(),
{
    let p = word_space(s, i, "option")?;
    let (_, q) = val_identifier(s, p)?;
    let r = anyspace1(s, q)?;
    let e = ip_or_string(s, r)?;
    Some(anyspace0(s, e))
}

/// Reads `<name> <ip-or-string-or-number>` inside a subnet, and whitespace after it.
pub fn subnet_field(s: &Vec<char>, i: usize) -> (r: Option<usize>)
    requires
        i <= s@.len(),
    ensures
        agrees_pos(r, subnet_field_at(s@, i as int)),
        r matches Some(j) ==> i < j <= s@.len(),
{
    let (_, q) = val_identifier(s, i)?;
    let r = anyspace1(s, q)?;
    let e = match ip_or_string(s, r) {
        Some(e) => e,
        None => digit1(s, r)?,
    };
    Some(anyspace0(s, e))
}

/// Reads one item of a subnet after whitespace: a pool, or an option or field
/// and its `;`.
pub fn subnet_item(s: &Vec<char>, i: usize) -> (r: Option<usize>)
    requires
        i <= s@.len(),
    ensures
        agrees_pos(r, subnet_item_at(s@, i as int)),
        r matches Some(j) ==> i < j <= s@.len(),
{
    let p = anyspace0(s, i);
    if let Some(e) = pool_block(s, p) {
        return Some(e);
    }
    let e = match subnet_option(s, p) {
        Some(e) => e,
        None => subnet_field(s, p)?,
    };
    expect_char(s, e, ';')
}

/// Reads `subnet <ip> netmask <ip> { <items> }`, whose content is dropped.
pub fn subnet_block(s: &Vec<char>, i: usize) -> (r: Option<(HostFileItem, usize)>)
    requires
        i <= s@.len(),
    ensures
        match subnet_block_at(s@, i as int) {
            None => r is None,
            Some(j) => r matches Some((it, k)) && it == HostFileItem::Subnet && k == j,
        },
        r matches Some((_, j)) ==> i < j <= s@.len(),
{
    let p1 = word_space(s, i, "subnet")?;
    let (_, p2) = val_address(s, p1)?;
    let p3 = anyspace1(s, p2)?;
    let p4 = word_space(s, p3, "netmask")?;
    let (_, p5) = val_address(s, p4)?;
    let start = expect_char(s, anyspace0(s, p5), '{')?;
    let mut e = start;
    loop
        invariant
            i < start <= e <= s@.len(),
            subnet_items_from(s@, start as int) == subnet_items_from(s@, e as int),
        ensures
            i < start <= e <= s@.len(),
            subnet_items_from(s@, start as int) == e,
        decreases s@.len() - e,
    {
        match subnet_item(s, e) {
            Some(e2) => {
                e = e2;
            },
            None => {
                break ;
            },
        }
    }
    let end = expect_char(s, anyspace0(s, e), '}')?;
    Some((HostFileItem::Subnet, end))
}

/// A run of digits whose value fits in a byte.
pub open spec fn byte_number_at(s: Seq<char>, i: int) -> Option<(u8, int)> {
    match digits1(s, i) {
        Some(e) => if dec_val(s, i, e) <= 255 {
            Some((dec_val(s, i, e) as u8, e))
        } else {
            None
        },
        None => None,
    }
}

/// `text` or `unsigned integer N`.
pub open spec fn option_type_at(s: Seq<char>, i: int) -> Option<(DhcpOptionType, int)> {
    match tag_end(s, i, "text"@) {
        Some(e) => Some((DhcpOptionType::Text, e)),
        None => match word_space_at(s, i, "unsigned"@) {
            None => None,
            Some(p) => match word_space_at(s, p, "integer"@) {
                None => None,
                Some(q) => match byte_number_at(s, q) {
                    None => None,
                    Some((n, e)) => Some((DhcpOptionType::UnsignedInteger(n), e)),
                },
            },
        },
    }
}

/// `code N = <type>`.
pub open spec fn code_type_at(s: Seq<char>, i: int) -> Option<int> {
    match word_space_at(s, i, "code"@) {
        None => None,
        Some(p) => match byte_number_at(s, p) {
            None => None,
            Some((_, q)) => match skip1(s, q) {
                None => None,
                Some(r) => match word_space_at(s, r, "="@) {
                    None => None,
                    Some(t) => match option_type_at(s, t) {
                        None => None,
                        Some((_, e)) => Some(e),
                    },
                },
            },
        },
    }
}

/// A top-level `option <name> <string-or-code-type>;`.
pub open spec fn option_at(s: Seq<char>, i: int) -> Option<int> {
    match word_space_at(s, i, "option"@) {
        None => None,
        Some(p) => match identifier_at(s, p) {
            None => None,
            Some((_, q)) => match skip1(s, q) {
                None => None,
                Some(r) => {
                    let v = match string_at(s, r) {
                        Some((_, e)) => Some(e),
                        None => code_type_at(s, r),
                    };
                    match v {
                        None => None,
                        Some(e) => if char_at(s, skip0(s, e), ';') {
                            Some(skip0(s, e) + 1)
                        } else {
                            None
                        },
                    }
                },
            },
        },
    }
}

pub open spec fn directive_names() -> Seq<Seq<char>> {
    seq![
        "default-lease-time"@,
        "max-lease-time"@,
        "log-facility"@,
        "one-lease-per-client"@,
        "deny"@,
        "ping-check"@,
        "update-conflict-detection"@,
        "authoritative"@,
    ]
}

/// The first of `names` from the `k`-th on that stands at `i`.
pub open spec fn first_name_at(s: Seq<char>, i: int, names: Seq<Seq<char>>, k: int) -> Option<(Seq<char>, int)>
    decreases names.len() - k,
{
    if k < 0 || k >= names.len() {
        None
    } else if let Some(e) = tag_end(s, i, names[k]) {
        Some((names[k], e))
    } else {
        first_name_at(s, i, names, k + 1)
    }
}

/// A directive: whitespace, its name, an optional identifier value, `;`.
pub open spec fn directive_at(s: Seq<char>, i: int) -> Option<((Seq<char>, Option<Seq<char>>), int)> {
    match first_name_at(s, skip0(s, i), directive_names(), 0) {
        None => None,
        Some((name, q)) => {
            let (value, v) = match skip1(s, q) {
                Some(r) => match identifier_at(s, r) {
                    Some((x, e)) => (Some(x), e),
                    None => (None, q),
                },
                None => (None, q),
            };
            if char_at(s, skip0(s, v), ';') {
                Some(((name, value), skip0(s, v) + 1))
            } else {
                None
            }
        },
    }
}

fn byte_number(s: &Vec<char>, i: usize) -> (r: Option<(u8, usize)>)
    requires
        i <= s@.len(),
    ensures
        same(r, byte_number_at(s@, i as int)),
        r matches Some((_, j)) ==> i < j <= s@.len(),
{
    let e = digit1(s, i)?;
    let v = dec_value(s, i, e, 255)?;
    Some((v as u8, e))
}

/// Reads `text` or `unsigned integer N`.
pub fn option_type(s: &Vec<char>, i: usize) -> (r: Option<(DhcpOptionType, usize)>)
    requires
        i <= s@.len(),
    ensures
        same(r, option_type_at(s@, i as int)),
        r matches Some((_, j)) ==> i <= j <= s@.len(),
{
    if let Some(e) = tag(s, i, "text") {
        return Some((DhcpOptionType::Text, e));
    }
    let p = word_space(s, i, "unsigned")?;
    let q = word_space(s, p, "integer")?;
    let (n, e) = byte_number(s, q)?;
    Some((DhcpOptionType::UnsignedInteger(n), e))
}

fn option_code_type(s: &Vec<char>, i: usize) -> (r: Option<(DhcpOptionValue, usize)>)
    requires
        i <= s@.len(),
    ensures
        match code_type_at(s@, i as int) {
            None => r is None,
            Some(j) => r matches Some((_, k)) && k == j,
        },
        r matches Some((_, j)) ==> i <= j <= s@.len(),
{
    let p = word_space(s, i, "code")?;
    let (code, q) = byte_number(s, p)?;
    let r = anyspace1(s, q)?;
    let t = word_space(s, r, "=")?;
    let (ty, e) = option_type(s, t)?;
    Some((DhcpOptionValue::CodeType(code, ty), e))
}

/// Reads a top-level `option <name> "<string>";` or
/// `option <name> code N = <type>;`.
pub fn option(s: &Vec<char>, i: usize) -> (r: Option<(HostFileItem, usize)>)
    requires
        i <= s@.len(),
    ensures
        match option_at(s@, i as int) {
            None => r is None,
            Some(j) => r matches Some((it, k)) && it is Option && k == j,
        },
        r matches Some((_, j)) ==> i < j <= s@.len(),
{
    let p = word_space(s, i, "option")?;
    let (name, q) = val_identifier(s, p)?;
    let r = anyspace1(s, q)?;
    let (value, e) = match val_string(s, r) {
        Some((v, e)) => (DhcpOptionValue::String(v), e),
        None => option_code_type(s, r)?,
    };
    let end = expect_char(s, anyspace0(s, e), ';')?;
    Some((HostFileItem::Option(name, value), end))
}

fn directive_name(s: &Vec<char>, i: usize) -> (r: Option<(String, usize)>)
    requires
        i <= s@.len(),
    ensures
        agrees(r, first_name_at(s@, i as int, directive_names(), 0)),
        r matches Some((_, j)) ==> i <= j <= s@.len(),
{
    let names: [&str; 8] = [
        "default-lease-time",
        "max-lease-time",
        "log-facility",
        "one-lease-per-client",
        "deny",
        "ping-check",
        "update-conflict-detection",
        "authoritative",
    ];
    let ghost ns = directive_names();
    assert(forall|k: int| 0 <= k < 8 ==> (#[trigger] names@[k])@ == ns[k]);
    let mut k: usize = 0;
    while k < 8
        invariant
            k <= 8,
            i <= s@.len(),
            ns == directive_names(),
            forall|q: int| 0 <= q < 8 ==> (#[trigger] names@[q])@ == ns[q],
            first_name_at(s@, i as int, ns, 0) == first_name_at(s@, i as int, ns, k as int),
        decreases 8 - k,
    {
        if let Some(e) = tag(s, i, names[k]) {
            return Some((crate::text::string_of(&chars_of(names[k])), e));
        }
        k = k + 1;
    }
    None
}

/// Reads a directive: its name (`default-lease-time`, `max-lease-time`,
/// `log-facility`, `one-lease-per-client`, `deny`, `ping-check`,
/// `update-conflict-detection` or `authoritative`), an optional identifier
/// value, and `;`.
pub fn directive(s: &Vec<char>, i: usize) -> (r: Option<(HostFileItem, usize)>)
    requires
        i <= s@.len(),
    ensures
        match directive_at(s@, i as int) {
            None => r is None,
            Some(((n, v), j)) => r matches Some((HostFileItem::Directive(a, b), k)) && a@ == n
                && opt_text(b) == v && k == j,
        },
        r matches Some((_, j)) ==> i < j <= s@.len(),
{
    let (name, q) = directive_name(s, anyspace0(s, i))?;
    let (value, v) = match anyspace1(s, q) {
        Some(r) => match val_identifier(s, r) {
            Some((x, e)) => (Some(x), e),
            None => (None, q),
        },
        None => (None, q),
    };
    let end = expect_char(s, anyspace0(s, v), ';')?;
    Some((HostFileItem::Directive(name, value), end))
}

/// One statement of the configuration with the whitespace around it: the host
/// block it is, or none for the statements that are read and dropped.
pub open spec fn file_item_at(s: Seq<char>, i: int) -> Option<(Option<HostBlockView>, int)> {
    let p = skip0(s, i);
    let r = if let Some((b, j)) = host_block_at(s, p) {
        Some((Some(b), j))
    } else if let Some(j) = subnet_block_at(s, p) {
        Some((None, j))
    } else if let Some(j) = option_at(s, p) {
        Some((None, j))
    } else if let Some((_, j)) = directive_at(s, p) {
        Some((None, j))
    } else {
        None
    };
    match r {
        Some((x, j)) => Some((x, skip0(s, j))),
        None => None,
    }
}

/// The statements from `i` on, as many as there are: the host blocks among them
/// and where they stop.
pub open spec fn conf_items_from(s: Seq<char>, i: int) -> (Seq<HostBlockView>, int)
    decreases s.len() - i,
{
    match file_item_at(s, i) {
        Some((it, j)) => if i < j <= s.len() {
            let (rest, k) = conf_items_from(s, j);
            (match it {
                Some(b) => seq![b],
                None => seq![],
            } + rest, k)
        } else {
            (seq![], i)
        },
        None => (seq![], i),
    }
}

/// The address of the first `fixed-address` field from the `k`-th on.
pub open spec fn first_fixed(fs: Seq<HostFieldView>, k: int) -> Option<Ipv4Addr>
    decreases fs.len() - k,
{
    if k < 0 || k >= fs.len() {
        None
    } else if let HostFieldView::FixedAddress(a) = fs[k] {
        Some(a)
    } else {
        first_fixed(fs, k + 1)
    }
}

/// The address of the first `hardware ethernet` field from the `k`-th on.
pub open spec fn first_hardware(fs: Seq<HostFieldView>, k: int) -> Option<Seq<u8>>
    decreases fs.len() - k,
{
    if k < 0 || k >= fs.len() {
        None
    } else if let HostFieldView::HardwareEthernet(m) = fs[k] {
        Some(m)
    } else {
        first_hardware(fs, k + 1)
    }
}

/// The value of the first `option host-name` field from the `k`-th on.
pub open spec fn first_hostname(fs: Seq<HostFieldView>, k: int) -> Option<Seq<char>>
    decreases fs.len() - k,
{
    if k < 0 || k >= fs.len() {
        None
    } else if let HostFieldView::Option(n, v) = fs[k] {
        if n == "host-name"@ {
            Some(v)
        } else {
            first_hostname(fs, k + 1)
        }
    } else {
        first_hostname(fs, k + 1)
    }
}

/// The host record of a block: where it has both a fixed address and a hardware
/// address (the first of each), with the first `host-name` option.
pub open spec fn block_host(b: HostBlockView) -> Option<HostView> {
    match (first_fixed(b.fields, 0), first_hardware(b.fields, 0)) {
        (Some(a), Some(m)) => Some(
            HostView { fixed_address: a, hardware_ethernet: m, hostname: first_hostname(b.fields, 0) },
        ),
        _ => None,
    }
}

/// The host records of the blocks, in order, skipping those without one.
pub open spec fn hosts_of_blocks(bs: Seq<HostBlockView>) -> Seq<HostView>
    decreases bs.len(),
{
    if bs.len() == 0 {
        seq![]
    } else {
        (match block_host(bs[0]) {
            Some(h) => seq![h],
            None => seq![],
        }) + hosts_of_blocks(bs.drop_first())
    }
}

/// Why a host configuration could not be read.
#[derive(Debug, Clone, Copy, PartialEq, Eq, Structural)]
pub enum HostsParseError {
    /// The text departs from the grammar: `offset` is the character position
    /// where the statements read stop.
    Syntax { offset: usize },
}

/// What a host configuration holds: the records of its host blocks that have
/// both addresses, in file order, when the whole text is statements; else a
/// syntax error where they stop.
pub open spec fn hosts_of(s: Seq<char>) -> Result<Seq<HostView>, HostsParseError> {
    let (blocks, k) = conf_items_from(s, 0);
    if k == s.len() {
        Ok(hosts_of_blocks(blocks))
    } else {
        Err(HostsParseError::Syntax { offset: k as usize })
    }
}

pub open spec fn host_views(v: Seq<Host>) -> Seq<HostView> {
    v.map_values(|h: Host| h@)
}

/// Reads one statement of the configuration with the whitespace around it.
pub fn file_item(s: &Vec<char>, i: usize) -> (r: Option<(HostFileItem, usize)>)
    requires
        i <= s@.len(),
    ensures
        match file_item_at(s@, i as int) {
            None => r is None,
            Some((hb, j)) => r matches Some((it, k)) && item_host(it) == hb && k == j,
        },
        r matches Some((_, j)) ==> i < j <= s@.len(),
{
    let p = anyspace0(s, i);
    let (it, j) = if let Some((it, j)) = host_block(s, p) {
        (it, j)
    } else if let Some((it, j)) = subnet_block(s, p) {
        (it, j)
    } else if let Some((it, j)) = option(s, p) {
        (it, j)
    } else if let Some((it, j)) = directive(s, p) {
        (it, j)
    } else {
        return None;
    };
    Some((it, anyspace0(s, j)))
}

impl HostFileItem {
    /// The label of a host block.
    pub fn label(&self) -> (r: Option<&str>)
        ensures
            match self {
                HostFileItem::Host { label, .. } => r matches Some(l) && l@ == label@,
                _ => r is None,
            },
    {
        match self {
            HostFileItem::Host { label, .. } => Some(label.as_str()),
            _ => None,
        }
    }

    /// The address of a host block's first `fixed-address` field.
    pub fn fixed_address(&self) -> (r: Option<Ipv4Addr>)
        ensures
            r == match item_host(*self) {
                Some(b) => first_fixed(b.fields, 0),
                None => None,
            },
    {
        match self {
            HostFileItem::Host { fields, .. } => {
                let ghost fs = host_field_views(fields@);
                let mut k: usize = 0;
                while k < fields.len()
                    invariant
                        k <= fields@.len(),
                        fs == host_field_views(fields@),
                        item_host(*self) matches Some(b) && b.fields == fs,
                        first_fixed(fs, 0) == first_fixed(fs, k as int),
                    decreases fields@.len() - k,
                {
                    assert(fs[k as int] == fields@[k as int]@);
                    if let HostField::FixedAddress(a) = &fields[k] {
                        return Some(*a);
                    }
                    k = k + 1;
                }
                None
            },
            _ => None,
        }
    }

    /// The address of a host block's first `hardware ethernet` field.
    pub fn hardware_ethernet(&self) -> (r: Option<MacAddr>)
        ensures
            match item_host(*self) {
                Some(b) => match first_hardware(b.fields, 0) {
                    Some(m) => r matches Some(x) && x@ == m,
                    None => r is None,
                },
                None => r is None,
            },
    {
        match self {
            HostFileItem::Host { fields, .. } => {
                let ghost fs = host_field_views(fields@);
                let mut k: usize = 0;
                while k < fields.len()
                    invariant
                        k <= fields@.len(),
                        fs == host_field_views(fields@),
                        item_host(*self) matches Some(b) && b.fields == fs,
                        first_hardware(fs, 0) == first_hardware(fs, k as int),
                    decreases fields@.len() - k,
                {
                    assert(fs[k as int] == fields@[k as int]@);
                    if let HostField::HardwareEthernet(m) = &fields[k] {
                        return Some(*m);
                    }
                    k = k + 1;
                }
                None
            },
            _ => None,
        }
    }

    /// The value of a host block's first `option host-name` field.
    pub fn hostname(&self) -> (r: Option<String>)
        ensures
            opt_text(r) == match item_host(*self) {
                Some(b) => first_hostname(b.fields, 0),
                None => None,
            },
    {
        match self {
            HostFileItem::Host { fields, .. } => {
                let ghost fs = host_field_views(fields@);
                let mut k: usize = 0;
                while k < fields.len()
                    invariant
                        k <= fields@.len(),
                        fs == host_field_views(fields@),
                        item_host(*self) matches Some(b) && b.fields == fs,
                        first_hostname(fs, 0) == first_hostname(fs, k as int),
                    decreases fields@.len() - k,
                {
                    assert(fs[k as int] == fields@[k as int]@);
                    if let HostField::Option(name, value) = &fields[k] {
                        if crate::text::text_is(name, "host-name") {
                            return Some(value.clone());
                        }
                    }
                    k = k + 1;
                }
                None
            },
            _ => None,
        }
    }
}

proof fn lemma_hosts_of_blocks_prepend(x: Option<HostBlockView>, rest: Seq<HostBlockView>)
    ensures
        hosts_of_blocks(
            match x {
                Some(b) => seq![b],
                None => seq![],
            } + rest,
        ) == match x {
            Some(b) => match block_host(b) {
                Some(h) => seq![h],
                None => seq![],
            },
            None => seq![],
        } + hosts_of_blocks(rest),
{
    match x {
        Some(b) => {
            let all = seq![b] + rest;
            assert(all.drop_first() =~= rest);
            assert(all[0] == b);
        },
        None => {
            assert(seq![] + rest =~= rest);
            assert(seq![] + hosts_of_blocks(rest) =~= hosts_of_blocks(rest));
        },
    }
}

/// Parses a host configuration into the records of its host blocks that have
/// both a `fixed-address` and a `hardware ethernet` field, in file order. Fails
/// with a syntax error unless the whole text is host, subnet, option and
/// directive statements.
pub fn parse(input: &str) -> (r: Result<Vec<Host>, HostsParseError>)
    ensures
        match r {
            Ok(v) => hosts_of(input@) == Ok::<Seq<HostView>, HostsParseError>(host_views(v@)),
            Err(e) => hosts_of(input@) == Err::<Seq<HostView>, HostsParseError>(e),
        },
{
    let s = chars_of(input);
    let mut hosts: Vec<Host> = Vec::new();
    let mut p: usize = 0;
    loop
        invariant
            p <= s@.len(),
            s@ == input@,
            hosts_of_blocks(conf_items_from(s@, 0).0) == host_views(hosts@) + hosts_of_blocks(
                conf_items_from(s@, p as int).0,
            ),
            conf_items_from(s@, 0).1 == conf_items_from(s@, p as int).1,
        ensures
            p <= s@.len(),
            hosts_of_blocks(conf_items_from(s@, 0).0) == host_views(hosts@),
            conf_items_from(s@, 0).1 == p,
        decreases s@.len() - p,
    {
        match file_item(&s, p) {
            Some((item, j)) => {
                let ghost hb = item_host(item);
                let ghost before = hosts@;
                proof {
                    lemma_hosts_of_blocks_prepend(hb, conf_items_from(s@, j as int).0);
                }
                let fixed = item.fixed_address();
                let hw = item.hardware_ethernet();
                match (fixed, hw) {
                    (Some(a), Some(m)) => {
                        let h = Host { fixed_address: a, hardware_ethernet: m, hostname: item.hostname() };
                        hosts.push(h);
                        proof {
                            assert(block_host(hb->0) == Some(h@));
                            assert(host_views(hosts@) =~= host_views(before) + seq![h@]);
                        }
                    },
                    _ => {
                        proof {
                            if hb is Some {
                                assert(block_host(hb->0) is None);
                            }
                            assert(host_views(hosts@) + seq![] =~= host_views(hosts@));
                        }
                    },
                }
                p = j;
            },
            None => {
                assert(host_views(hosts@) + seq![] =~= host_views(hosts@));
                break ;
            },
        }
    }
    if p == s.len() {
        Ok(hosts)
    } else {
        Err(HostsParseError::Syntax { offset: p })
    }
}

} // verus!
