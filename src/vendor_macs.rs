use vstd::prelude::*;

use quick_xml::events::attributes::AttrError;
use quick_xml::events::Event;
use quick_xml::reader::Reader;
use radix_trie::Trie;

use crate::macaddr::{prefix_of, InvalidMacPrefix, MacAddr, MacPrefix, mac_nibbles};
use crate::text::text_is;

verus! {

/// `radix_trie::Trie`, held opaque: its contents are `trie_entries`.
#[verifier::external_type_specification]
#[verifier::external_body]
#[verifier::reject_recursive_types(K)]
#[verifier::reject_recursive_types(V)]
pub struct ExTrie<K, V>(Trie<K, V>);

/// A radix trie from nibble sequences to names.
pub type NibbleTrie = Trie<Vec<u8>, String>;

/// `quick_xml::Reader`, held opaque between events.
#[verifier::external_type_specification]
#[verifier::external_body]
#[verifier::reject_recursive_types(R)]
pub struct ExReader<R>(Reader<R>);

/// `quick_xml::Error`, carried in `LoadError`.
#[verifier::external_type_specification]
#[verifier::external_body]
pub struct ExXmlError(quick_xml::Error);

/// `quick_xml::events::attributes::AttrError`, carried in `LoadError`.
#[verifier::external_type_specification]
#[verifier::external_body]
pub struct ExAttrError(AttrError);

/// What a vendor trie holds: nibble sequence to vendor name.
pub uninterp spec fn trie_entries(t: NibbleTrie) -> Map<Seq<u8>, Seq<char>>;

/// Relies on `radix_trie::Trie::new`: a trie with no entries.
#[verifier::external_body]
fn trie_new() -> (r: NibbleTrie)
    ensures
        trie_entries(r) =~= Map::empty(),
{
    Trie::new()
}

/// Relies on `radix_trie::Trie::insert`: the key now maps to the value, any
/// earlier value of the key is replaced, other keys are kept.
#[verifier::external_body]
fn trie_insert(t: &mut NibbleTrie, key: Vec<u8>, value: String)
    ensures
        trie_entries(*final(t)) == trie_entries(*old(t)).insert(key@, value@),
{
    t.insert(key, value);
}

/// The value of the longest key in `m` that is a prefix of `key`, if any.
pub open spec fn ancestor_value(m: Map<Seq<u8>, Seq<char>>, key: Seq<u8>) -> Option<Seq<char>>
    decreases key.len(),
{
    if m.contains_key(key) {
        Some(m[key])
    } else if key.len() == 0 {
        None
    } else {
        ancestor_value(m, key.drop_last())
    }
}

/// Relies on `radix_trie::Trie::get_ancestor_value`: the value of the stored key
/// whose encoding is the longest prefix of the encoding of `key`. A `Vec<u8>` key
/// encodes each element as two nibbles, so those prefixes are whole-element
/// prefixes.
#[verifier::external_body]
fn trie_ancestor_value<'a>(t: &'a NibbleTrie, key: &Vec<u8>) -> (r: Option<&'a String>)
    ensures
        match r {
            Some(v) => ancestor_value(trie_entries(*t), key@) == Some(v@),
            None => ancestor_value(trie_entries(*t), key@) is None,
        },
{
    t.get_ancestor_value(key)
}

/// A vendor table: MAC prefixes, as nibble sequences, to vendor names.
#[derive(Debug)]
pub struct VendorMapping(NibbleTrie);

impl View for VendorMapping {
    type V = Map<Seq<u8>, Seq<char>>;

    closed spec fn view(&self) -> Map<Seq<u8>, Seq<char>> {
        trie_entries(self.0)
    }
}

/// Why a vendor table could not be read.
#[derive(Debug)]
pub enum LoadError {
    /// A malformed attribute.
    XmlAttr(AttrError),
    /// Malformed XML, or an attribute value that does not unescape.
    XmlParse(quick_xml::Error),
    /// A `mac_prefix` attribute that is not a MAC prefix.
    InvalidMacPrefix(InvalidMacPrefix),
}

/// An attribute as read: its name and unescaped value, or the error of reading it.
pub type XmlAttribute = Result<(String, String), LoadError>;

/// One XML event, as far as the vendor table reads it.
pub enum XmlEvent {
    /// A self-closed element: its name and its attributes, in order.
    Empty(String, Vec<XmlAttribute>),
    Eof,
    Other,
}

/// An attribute as the event names give it: name and value, or none where it
/// could not be read.
pub open spec fn attribute_view(a: XmlAttribute) -> Option<(Seq<char>, Seq<char>)> {
    match a {
        Ok((k, v)) => Some((k@, v@)),
        Err(_) => None,
    }
}

pub open spec fn attributes_view(v: Seq<XmlAttribute>) -> Seq<Option<(Seq<char>, Seq<char>)>> {
    v.map_values(|a: XmlAttribute| attribute_view(a))
}

/// An event as the event names give it: a self-closed element with its name and
/// attributes, or none for any other event.
pub open spec fn event_view(e: XmlEvent) -> Option<(Seq<char>, Seq<Option<(Seq<char>, Seq<char>)>>)> {
    match e {
        XmlEvent::Empty(n, a) => Some((n@, attributes_view(a@))),
        _ => None,
    }
}

/// Whether the attribute errors of an element are errors of reading XML.
pub open spec fn read_errors_only(a: Seq<XmlAttribute>) -> bool {
    forall|k: int| 0 <= k < a.len() ==> (#[trigger] a[k] matches Err(x) ==> !(x is InvalidMacPrefix))
}

/// The events a reader still has to give, up to the end of the document or its
/// first read error, each as `event_view` gives it; and whether the document
/// ends without a read error.
pub uninterp spec fn pending_events(r: Reader<&[u8]>) -> (
    Seq<Option<(Seq<char>, Seq<Option<(Seq<char>, Seq<char>)>>)>>,
    bool,
);

/// The events of `xml`, read with the whitespace around text dropped, in the
/// form of `pending_events`.
pub uninterp spec fn xml_events(xml: Seq<char>) -> (
    Seq<Option<(Seq<char>, Seq<Option<(Seq<char>, Seq<char>)>>)>>,
    bool,
);

/// Relies on `quick_xml::Reader::from_str` and `trim_text`: a reader at the start
/// of `xml` that drops the whitespace around text.
#[verifier::external_body]
fn xml_reader(xml: &str) -> (r: Reader<&[u8]>)
    ensures
        pending_events(r) == xml_events(xml@),
{
    let mut reader = Reader::from_str(xml);
    reader.trim_text(true);
    reader
}

/// Relies on `quick_xml::Reader::read_event`, `BytesStart::name`,
/// `BytesStart::attributes` and `Attribute::unescape_value`: the next event, a
/// self-closed element with its name and attributes read; the end of the
/// document; or its read error.
#[verifier::external_body]
fn read_event(reader: &mut Reader<&[u8]>) -> (r: Result<XmlEvent, quick_xml::Error>)
    ensures
        pending_events(*old(reader)).0.len() > 0 ==> (r matches Ok(e) && !(e is Eof) && event_view(e)
            == pending_events(*old(reader)).0[0] && pending_events(*final(reader)) == (
            pending_events(*old(reader)).0.drop_first(),
            pending_events(*old(reader)).1,
        ) && (e matches XmlEvent::Empty(_, a) ==> read_errors_only(a@))),
        pending_events(*old(reader)).0.len() == 0 ==> (r matches Ok(XmlEvent::Eof)
            <==> pending_events(*old(reader)).1) && (r is Err <==> !pending_events(*old(reader)).1),
{
    let e = match reader.read_event() {
        Ok(Event::Empty(e)) => e,
        Ok(Event::Eof) => return Ok(XmlEvent::Eof),
        Ok(_) => return Ok(XmlEvent::Other),
        Err(x) => return Err(x),
    };
    let attributes = e.attributes().map(|a| match a {
        Ok(a) => a.unescape_value().map(|v| (String::from_utf8_lossy(&a.key.0).into_owned(), v.into_owned())).map_err(LoadError::XmlParse),
        Err(x) => Err(LoadError::XmlAttr(x)),
    });
    Ok(XmlEvent::Empty(String::from_utf8_lossy(e.name().0).into_owned(), attributes.collect()))
}

/// Whether a character has the Unicode White_Space property.
pub open spec fn is_white_space(c: char) -> bool {
    ('\t' <= c && c <= '\r') || c == ' ' || c == '\u{85}' || c == '\u{a0}' || c == '\u{1680}' || (
    '\u{2000}' <= c && c <= '\u{200a}') || c == '\u{2028}' || c == '\u{2029}' || c == '\u{202f}'
        || c == '\u{205f}' || c == '\u{3000}'
}

/// `s` without its leading white space.
pub open spec fn trim_start(s: Seq<char>) -> Seq<char>
    decreases s.len(),
{
    if s.len() > 0 && is_white_space(s[0]) {
        trim_start(s.drop_first())
    } else {
        s
    }
}

/// `s` without its trailing white space.
pub open spec fn trim_end(s: Seq<char>) -> Seq<char>
    decreases s.len(),
{
    if s.len() > 0 && is_white_space(s.last()) {
        trim_end(s.drop_last())
    } else {
        s
    }
}

/// `s` without leading and trailing white space.
pub open spec fn trimmed(s: Seq<char>) -> Seq<char> {
    trim_end(trim_start(s))
}

/// Relies on `str::trim`: the text without the leading and trailing characters
/// that have the White_Space property.
#[verifier::external_body]
fn trim_text(s: &str) -> (r: String)
    ensures
        r@ == trimmed(s@),
{
    s.trim().to_owned()
}

/// Why a `VendorMapping` element fails the table.
pub enum RowFailure {
    /// An attribute could not be read.
    Attribute,
    /// A malformed `mac_prefix`.
    Prefix(InvalidMacPrefix),
}

/// The state of reading one element's attributes: the prefix and name seen last.
pub open spec fn row_step(
    acc: Result<(Option<Seq<u8>>, Option<Seq<char>>), RowFailure>,
    attr: Option<(Seq<char>, Seq<char>)>,
) -> Result<(Option<Seq<u8>>, Option<Seq<char>>), RowFailure> {
    match acc {
        Err(e) => Err(e),
        Ok((p, n)) => match attr {
            None => Err(RowFailure::Attribute),
            Some((k, v)) => if k == "mac_prefix"@ {
                match prefix_of(v) {
                    Ok(q) => Ok((Some(q), n)),
                    Err(e) => Err(RowFailure::Prefix(e)),
                }
            } else if k == "vendor_name"@ {
                Ok((p, Some(v)))
            } else {
                Ok((p, n))
            },
        },
    }
}

pub open spec fn row_scan(attrs: Seq<Option<(Seq<char>, Seq<char>)>>) -> Result<
    (Option<Seq<u8>>, Option<Seq<char>>),
    RowFailure,
>
    decreases attrs.len(),
{
    if attrs.len() == 0 {
        Ok((None, None))
    } else {
        row_step(row_scan(attrs.drop_last()), attrs.last())
    }
}

/// What one `VendorMapping` element contributes: its prefix and trimmed name when
/// it has both attributes, nothing when it lacks one, or the failure of its first
/// unreadable attribute or malformed `mac_prefix`.
pub open spec fn row_entry(attrs: Seq<Option<(Seq<char>, Seq<char>)>>) -> Result<
    Option<(Seq<u8>, Seq<char>)>,
    RowFailure,
> {
    match row_scan(attrs) {
        Err(e) => Err(e),
        Ok((Some(p), Some(n))) => Ok(Some((p, trimmed(n)))),
        Ok(_) => Ok(None),
    }
}

/// The table `m` with the `VendorMapping` elements among `evs` added in order, or
/// the failure of the first element that fails.
pub open spec fn load_events(
    evs: Seq<Option<(Seq<char>, Seq<Option<(Seq<char>, Seq<char>)>>)>>,
    m: Map<Seq<u8>, Seq<char>>,
) -> Result<Map<Seq<u8>, Seq<char>>, RowFailure>
    decreases evs.len(),
{
    if evs.len() == 0 {
        Ok(m)
    } else {
        let rest = evs.drop_first();
        match evs[0] {
            Some((name, attrs)) => if name == "VendorMapping"@ {
                match row_entry(attrs) {
                    Err(e) => Err(e),
                    Ok(Some((p, n))) => load_events(rest, m.insert(p, n)),
                    Ok(None) => load_events(rest, m),
                }
            } else {
                load_events(rest, m)
            },
            None => load_events(rest, m),
        }
    }
}

impl VendorMapping {
    /// An empty table.
    pub fn new() -> (r: VendorMapping)
        ensures
            r@ == Map::<Seq<u8>, Seq<char>>::empty(),
    {
        VendorMapping(trie_new())
    }

    /// Stores `name` under `prefix`, replacing what the same prefix held.
    pub fn insert(&mut self, prefix: &MacPrefix, name: String)
        ensures
            final(self)@ == old(self)@.insert(prefix@, name@),
    {
        trie_insert(&mut self.0, prefix.nibbles().clone(), name);
    }

    /// Adds what one `VendorMapping` element's attributes describe.
    fn add_row(&mut self, row: Vec<XmlAttribute>) -> (r: Result<(), LoadError>)
        requires
            read_errors_only(row@),
        ensures
            match row_entry(attributes_view(row@)) {
                Err(RowFailure::Prefix(e)) => r matches Err(LoadError::InvalidMacPrefix(x)) && x == e,
                Err(RowFailure::Attribute) => r matches Err(x) && !(x is InvalidMacPrefix),
                Ok(Some((p, n))) => r is Ok && final(self)@ == old(self)@.insert(p, n),
                Ok(None) => r is Ok && final(self)@ == old(self)@,
            },
    {
        let mut attrs = row;
        let ghost av = attributes_view(attrs@);
        let mut prefix: Option<MacPrefix> = None;
        let mut name: Option<String> = None;
        let mut k: usize = 0;
        while k < attrs.len()
            invariant
                k <= attrs@.len(),
                av == attributes_view(attrs@),
                av == attributes_view(row@),
                read_errors_only(attrs@),
                row_scan(av.subrange(0, k as int)) == Ok::<
                    (Option<Seq<u8>>, Option<Seq<char>>),
                    RowFailure,
                >((
                    match prefix {
                        Some(p) => Some(p@),
                        None => None,
                    },
                    match name {
                        Some(n) => Some(n@),
                        None => None,
                    },
                )),
            decreases attrs@.len() - k,
        {
            assert(av.subrange(0, k as int + 1).drop_last() =~= av.subrange(0, k as int));
            assert(av[k as int] == attribute_view(attrs@[k as int]));
            let is_err = attrs[k].is_err();
            if is_err {
                proof {
                    lemma_row_scan_err(av, k as int);
                }
                let ghost before = attrs@;
                match attrs.swap_remove(k) {
                    Err(x) => {
                        assert(before[k as int] matches Err(y) && y == x);
                        return Err(x);
                    },
                    Ok(_) => {
                        assert(false);
                        return Ok(());
                    },
                }
            }
            if let Ok((key, value)) = &attrs[k] {
                if text_is(key, "mac_prefix") {
                    match MacPrefix::parse_str(value.as_str()) {
                        Ok(p) => {
                            prefix = Some(p);
                        },
                        Err(e) => {
                            proof {
                                lemma_row_scan_err(av, k as int);
                            }
                            return Err(LoadError::InvalidMacPrefix(e));
                        },
                    }
                } else if text_is(key, "vendor_name") {
                    name = Some(value.clone());
                }
            }
            k = k + 1;
        }
        assert(av.subrange(0, av.len() as int) =~= av);
        match (prefix, name) {
            (Some(p), Some(n)) => {
                let trimmed_name = trim_text(n.as_str());
                self.insert(&p, trimmed_name);
            },
            _ => {},
        }
        Ok(())
    }
}

proof fn lemma_row_scan_err(attrs: Seq<Option<(Seq<char>, Seq<char>)>>, k: int)
    requires
        0 <= k < attrs.len(),
        row_scan(attrs.subrange(0, k + 1)) is Err,
    ensures
        row_scan(attrs) == row_scan(attrs.subrange(0, k + 1)),
    decreases attrs.len() - k,
{
    if k + 1 < attrs.len() {
        assert(attrs.subrange(0, k + 2).drop_last() =~= attrs.subrange(0, k + 1));
        lemma_row_scan_err(attrs, k + 1);
    } else {
        assert(attrs.subrange(0, k + 1) =~= attrs);
    }
}

impl VendorMapping {
    /// Reads a vendor table from XML: every self-closed `VendorMapping` element
    /// with a `mac_prefix` and a `vendor_name` attribute adds its prefix and
    /// trimmed name, in document order, so a later element replaces an earlier
    /// one of the same prefix. An element lacking either attribute is skipped; a
    /// malformed `mac_prefix`, an unreadable attribute or a document that does
    /// not read to its end fails the whole table.
    pub fn parse(xml: &str) -> (r: Result<VendorMapping, LoadError>)
        ensures
            match load_events(xml_events(xml@).0, Map::empty()) {
                Err(RowFailure::Prefix(e)) => r matches Err(LoadError::InvalidMacPrefix(x)) && x == e,
                Err(RowFailure::Attribute) => r matches Err(x) && !(x is InvalidMacPrefix),
                Ok(m) => if xml_events(xml@).1 {
                    r matches Ok(t) && t@ == m
                } else {
                    r matches Err(LoadError::XmlParse(_))
                },
            },
    {
        let mut reader = xml_reader(xml);
        let mut mapping = VendorMapping::new();
        loop
            invariant
                load_events(xml_events(xml@).0, Map::empty()) == load_events(
                    pending_events(reader).0,
                    mapping@,
                ),
                pending_events(reader).1 == xml_events(xml@).1,
            decreases pending_events(reader).0.len(),
        {
            match read_event(&mut reader) {
                Err(e) => {
                    return Err(LoadError::XmlParse(e));
                },
                Ok(XmlEvent::Eof) => {
                    return Ok(mapping);
                },
                Ok(XmlEvent::Other) => {},
                Ok(XmlEvent::Empty(name, attrs)) => {
                    if text_is(&name, "VendorMapping") {
                        match mapping.add_row(attrs) {
                            Ok(()) => {},
                            Err(e) => {
                                return Err(e);
                            },
                        }
                    }
                },
            }
        }
    }

    /// The name stored under the longest prefix of `mac`, if any.
    pub fn get_vendor_name(&self, mac: &MacAddr) -> (r: Option<&str>)
        ensures
            match r {
                Some(v) => ancestor_value(self@, mac_nibbles(mac@)) == Some(v@),
                None => ancestor_value(self@, mac_nibbles(mac@)) is None,
            },
    {
        let key = MacPrefix::of_mac(mac);
        match trie_ancestor_value(&self.0, key.nibbles()) {
            Some(v) => Some(v.as_str()),
            None => None,
        }
    }
}

/// Where no key of `m` is a prefix of `key` longer than `n`, the lookup of `key`
/// is the lookup of its first `n` elements.
pub proof fn lemma_ancestor_skip(m: Map<Seq<u8>, Seq<char>>, key: Seq<u8>, n: int)
    requires
        0 <= n <= key.len(),
        forall|j: int| n < j <= key.len() ==> !m.contains_key(#[trigger] key.subrange(0, j)),
    ensures
        ancestor_value(m, key) == ancestor_value(m, key.subrange(0, n)),
    decreases key.len() - n,
{
    if n == key.len() {
        assert(key.subrange(0, n) =~= key);
    } else {
        assert(key.subrange(0, key.len() as int) =~= key);
        let k2 = key.drop_last();
        assert forall|j: int| n < j <= k2.len() implies !m.contains_key(#[trigger] k2.subrange(0, j)) by {
            assert(k2.subrange(0, j) =~= key.subrange(0, j));
        }
        lemma_ancestor_skip(m, k2, n);
        assert(k2.subrange(0, n) =~= key.subrange(0, n));
    }
}

/// Longest prefix wins: in a table holding a six-nibble (three-byte) prefix `p1`
/// and a ten-nibble (five-byte) prefix `p2` that extends it, a MAC address that
/// starts with `p2` resolves to `p2`'s name, one that starts with `p1` but not
/// `p2` resolves to `p1`'s name, and one that starts with neither resolves to
/// nothing.
pub proof fn lemma_longest_prefix_wins(
    p1: Seq<u8>,
    v1: Seq<char>,
    p2: Seq<u8>,
    v2: Seq<char>,
    mac: Seq<u8>,
)
    requires
        p1.len() == 6,
        p2.len() == 10,
        p2.subrange(0, 6) == p1,
        mac.len() == 6,
    ensures
        ({
            let m = Map::<Seq<u8>, Seq<char>>::empty().insert(p1, v1).insert(p2, v2);
            let key = mac_nibbles(mac);
            &&& key.subrange(0, 10) == p2 ==> ancestor_value(m, key) == Some(v2)
            &&& key.subrange(0, 6) == p1 && key.subrange(0, 10) != p2 ==> ancestor_value(m, key)
                == Some(v1)
            &&& key.subrange(0, 6) != p1 ==> ancestor_value(m, key) is None
        }),
{
    let m = Map::<Seq<u8>, Seq<char>>::empty().insert(p1, v1).insert(p2, v2);
    let key = mac_nibbles(mac);
    assert(m.dom() =~= set![p1, p2]);
    assert(key.len() == 12);
    assert(key.subrange(0, 10).subrange(0, 6) =~= key.subrange(0, 6));
    if key.subrange(0, 10) == p2 {
        lemma_ancestor_skip(m, key, 10);
        assert(m.contains_key(p2));
        assert(ancestor_value(m, p2) == Some(v2));
    } else if key.subrange(0, 6) == p1 {
        assert forall|j: int| 6 < j <= key.len() implies !m.contains_key(#[trigger] key.subrange(0, j)) by {
            if j == 10 {
            } else {
                assert(key.subrange(0, j).len() != p1.len());
                assert(key.subrange(0, j).len() != p2.len());
            }
        }
        lemma_ancestor_skip(m, key, 6);
        assert(p1 != p2);
        assert(m.contains_key(p1));
        assert(ancestor_value(m, p1) == Some(v1));
    } else {
        assert forall|j: int| 0 < j <= key.len() implies !m.contains_key(#[trigger] key.subrange(0, j)) by {
            if j == 6 {
            } else if j == 10 {
                assert(key.subrange(0, 10).subrange(0, 6) =~= key.subrange(0, 6));
            } else {
                assert(key.subrange(0, j).len() != p1.len());
                assert(key.subrange(0, j).len() != p2.len());
            }
        }
        lemma_ancestor_skip(m, key, 0);
        assert(!m.contains_key(key.subrange(0, 0))) by {
            assert(key.subrange(0, 0).len() == 0);
        }
    }
}

/// The order in which two different prefixes are inserted does not change any
/// lookup.
pub proof fn lemma_insert_order(
    m: Map<Seq<u8>, Seq<char>>,
    p1: Seq<u8>,
    v1: Seq<char>,
    p2: Seq<u8>,
    v2: Seq<char>,
    key: Seq<u8>,
)
    requires
        p1 != p2,
    ensures
        ancestor_value(m.insert(p1, v1).insert(p2, v2), key) == ancestor_value(
            m.insert(p2, v2).insert(p1, v1),
            key,
        ),
{
    assert(m.insert(p1, v1).insert(p2, v2) =~= m.insert(p2, v2).insert(p1, v1));
}

} // verus!
