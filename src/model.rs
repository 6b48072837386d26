use vstd::prelude::*;

use chrono::{Datelike, Timelike};

pub use crate::macaddr::MacAddr;
use crate::macaddr::mac_nibbles;
use crate::vendor_macs::{ancestor_value, VendorMapping};

verus! {

/// An IPv4 address, as its four octets.
#[derive(Debug, Clone, Copy, PartialEq, Eq, Structural)]
pub struct Ipv4Addr(pub u8, pub u8, pub u8, pub u8);

impl Ipv4Addr {
    pub fn new(a: u8, b: u8, c: u8, d: u8) -> (r: Ipv4Addr)
        ensures
            r == Ipv4Addr(a, b, c, d),
    {
        Ipv4Addr(a, b, c, d)
    }

    pub fn octets(&self) -> (r: [u8; 4])
        ensures
            r@ == seq![self.0, self.1, self.2, self.3],
    {
        let r = [self.0, self.1, self.2, self.3];
        assert(r@ =~= seq![self.0, self.1, self.2, self.3]);
        r
    }
}

/// A UTC calendar date and time of day, to the second.
#[derive(Debug, Clone, Copy, PartialEq, Eq, Structural)]
pub struct Timestamp {
    pub year: i32,
    pub month: u32,
    pub day: u32,
    pub hour: u32,
    pub minute: u32,
    pub second: u32,
}

/// An optional absolute time: absent where the file says `never`.
pub type LeaseTime = Option<Timestamp>;

/// One block of the lease database.
#[derive(Debug, Clone)]
pub struct Lease {
    pub address: Ipv4Addr,
    pub starts: LeaseTime,
    pub ends: LeaseTime,
    pub tstp: LeaseTime,
    pub cltt: LeaseTime,
    pub hardware_ethernet: MacAddr,
    pub client_hostname: Option<String>,
}

pub struct LeaseView {
    pub address: Ipv4Addr,
    pub starts: LeaseTime,
    pub ends: LeaseTime,
    pub tstp: LeaseTime,
    pub cltt: LeaseTime,
    pub hardware_ethernet: Seq<u8>,
    pub client_hostname: Option<Seq<char>>,
}

pub open spec fn opt_text(s: Option<String>) -> Option<Seq<char>> {
    match s {
        Some(t) => Some(t@),
        None => None,
    }
}

impl View for Lease {
    type V = LeaseView;

    open spec fn view(&self) -> LeaseView {
        LeaseView {
            address: self.address,
            starts: self.starts,
            ends: self.ends,
            tstp: self.tstp,
            cltt: self.cltt,
            hardware_ethernet: self.hardware_ethernet@,
            client_hostname: opt_text(self.client_hostname),
        }
    }
}

/// A static reservation of the host configuration.
#[derive(Debug, Clone)]
pub struct Host {
    pub fixed_address: Ipv4Addr,
    pub hardware_ethernet: MacAddr,
    pub hostname: Option<String>,
}

pub struct HostView {
    pub fixed_address: Ipv4Addr,
    pub hardware_ethernet: Seq<u8>,
    pub hostname: Option<Seq<char>>,
}

impl View for Host {
    type V = HostView;

    open spec fn view(&self) -> HostView {
        HostView {
            fixed_address: self.fixed_address,
            hardware_ethernet: self.hardware_ethernet@,
            hostname: opt_text(self.hostname),
        }
    }
}

/// Whether `a` is earlier than `b`.
pub open spec fn before(a: Timestamp, b: Timestamp) -> bool {
    if a.year != b.year {
        a.year < b.year
    } else if a.month != b.month {
        a.month < b.month
    } else if a.day != b.day {
        a.day < b.day
    } else if a.hour != b.hour {
        a.hour < b.hour
    } else if a.minute != b.minute {
        a.minute < b.minute
    } else {
        a.second < b.second
    }
}

impl Timestamp {
    /// Whether this time is earlier than `other`.
    pub fn is_before(&self, other: &Timestamp) -> (r: bool)
        ensures
            r == before(*self, *other),
    {
        if self.year != other.year {
            self.year < other.year
        } else if self.month != other.month {
            self.month < other.month
        } else if self.day != other.day {
            self.day < other.day
        } else if self.hour != other.hour {
            self.hour < other.hour
        } else if self.minute != other.minute {
            self.minute < other.minute
        } else {
            self.second < other.second
        }
    }
}

/// Relies on `chrono::Utc::now` and its calendar fields: the current UTC time,
/// to the second.
#[verifier::external_body]
fn now_utc() -> Timestamp {
    let n = chrono::Utc::now();
    Timestamp {
        year: n.year(),
        month: n.month(),
        day: n.day(),
        hour: n.hour(),
        minute: n.minute(),
        second: n.second(),
    }
}

/// Whether a lease has ended by the time `now`.
pub open spec fn expired_at(l: LeaseView, now: Timestamp) -> bool {
    match l.ends {
        Some(e) => before(e, now),
        None => false,
    }
}

impl Lease {
    /// Whether the lease ended before `now`; a lease that never ends never expires.
    pub fn is_expired_at(&self, now: &Timestamp) -> (r: bool)
        ensures
            r == expired_at(self@, *now),
    {
        match &self.ends {
            Some(e) => e.is_before(now),
            None => false,
        }
    }

    /// Whether the lease ended before the current time.
    pub fn is_expired(&self) -> (r: bool)
        ensures
            exists|now: Timestamp| r == expired_at(self@, now),
            r ==> self.ends is Some,
    {
        let now = now_utc();
        let r = self.is_expired_at(&now);
        assert(r == expired_at(self@, now));
        r
    }
}

/// How a device holds its address.
#[derive(Debug, Clone, Copy, PartialEq, Eq, Structural)]
pub enum LeaseType {
    Active { since: LeaseTime, until: LeaseTime },
    Expired { since: LeaseTime },
    Static,
}

/// A device on the network: an address binding with what is known of it.
#[derive(Debug, Clone)]
pub struct Device {
    pub address: Ipv4Addr,
    pub hardware_ethernet: MacAddr,
    pub hostname: Option<String>,
    pub vendor: Option<String>,
    pub lease: LeaseType,
    pub last_seen: LeaseTime,
}

pub struct DeviceView {
    pub address: Ipv4Addr,
    pub hardware_ethernet: Seq<u8>,
    pub hostname: Option<Seq<char>>,
    pub vendor: Option<Seq<char>>,
    pub lease: LeaseType,
    pub last_seen: LeaseTime,
}

impl View for Device {
    type V = DeviceView;

    open spec fn view(&self) -> DeviceView {
        DeviceView {
            address: self.address,
            hardware_ethernet: self.hardware_ethernet@,
            hostname: opt_text(self.hostname),
            vendor: opt_text(self.vendor),
            lease: self.lease,
            last_seen: self.last_seen,
        }
    }
}

/// The device of a lease at the time `now`.
pub open spec fn lease_device(l: LeaseView, vendors: Map<Seq<u8>, Seq<char>>, now: Timestamp) -> DeviceView {
    DeviceView {
        address: l.address,
        hardware_ethernet: l.hardware_ethernet,
        hostname: l.client_hostname,
        vendor: ancestor_value(vendors, mac_nibbles(l.hardware_ethernet)),
        lease: if expired_at(l, now) {
            LeaseType::Expired { since: l.ends }
        } else {
            LeaseType::Active { since: l.starts, until: l.ends }
        },
        last_seen: l.cltt,
    }
}

/// Whether `d` is the device of the lease at some time.
pub open spec fn is_lease_device(d: DeviceView, l: LeaseView, vendors: Map<Seq<u8>, Seq<char>>) -> bool {
    exists|now: Timestamp| d == lease_device(l, vendors, now)
}

/// The device of a static reservation.
pub open spec fn host_device(h: HostView, vendors: Map<Seq<u8>, Seq<char>>) -> DeviceView {
    DeviceView {
        address: h.fixed_address,
        hardware_ethernet: h.hardware_ethernet,
        hostname: h.hostname,
        vendor: ancestor_value(vendors, mac_nibbles(h.hardware_ethernet)),
        lease: LeaseType::Static,
        last_seen: None,
    }
}

fn vendor_of(vendor_mapping: &VendorMapping, mac: &MacAddr) -> (r: Option<String>)
    ensures
        opt_text(r) == ancestor_value(vendor_mapping@, mac_nibbles(mac@)),
{
    match vendor_mapping.get_vendor_name(mac) {
        Some(v) => Some(v.to_owned()),
        None => None,
    }
}

impl Device {
    /// The device of a lease at the time `now`: expired where the lease ended
    /// before `now`, else active.
    pub fn from_lease_at(lease: &Lease, vendor_mapping: &VendorMapping, now: &Timestamp) -> (r: Device)
        ensures
            r@ == lease_device(lease@, vendor_mapping@, *now),
    {
        let lease_type = if lease.is_expired_at(now) {
            LeaseType::Expired { since: lease.ends }
        } else {
            LeaseType::Active { since: lease.starts, until: lease.ends }
        };
        Device {
            address: lease.address,
            hardware_ethernet: lease.hardware_ethernet,
            hostname: lease.client_hostname.clone(),
            vendor: vendor_of(vendor_mapping, &lease.hardware_ethernet),
            lease: lease_type,
            last_seen: lease.cltt,
        }
    }

    /// The device of a lease at the current time.
    pub fn from_lease(lease: &Lease, vendor_mapping: &VendorMapping) -> (r: Device)
        ensures
            is_lease_device(r@, lease@, vendor_mapping@),
    {
        let now = now_utc();
        let r = Device::from_lease_at(lease, vendor_mapping, &now);
        assert(r@ == lease_device(lease@, vendor_mapping@, now));
        r
    }

    /// The device of a static reservation.
    pub fn from_host(host: &Host, vendor_mapping: &VendorMapping) -> (r: Device)
        ensures
            r@ == host_device(host@, vendor_mapping@),
    {
        Device {
            address: host.fixed_address,
            hardware_ethernet: host.hardware_ethernet,
            hostname: host.hostname.clone(),
            vendor: vendor_of(vendor_mapping, &host.hardware_ethernet),
            lease: LeaseType::Static,
            last_seen: None,
        }
    }

    /// The devices of the leases, then those of the reservations, in order.
    pub fn from_leases_and_hosts(leases: &[&Lease], hosts: &[&Host], vendor_mapping: &VendorMapping) -> (r: Vec<Device>)
        ensures
            r@.len() == leases@.len() + hosts@.len(),
            forall|k: int| 0 <= k < leases@.len() ==> is_lease_device((#[trigger] r@[k])@, leases@[k]@, vendor_mapping@),
            forall|k: int| 0 <= k < hosts@.len() ==> (#[trigger] r@[leases@.len() + k])@ == host_device(hosts@[k]@, vendor_mapping@),
    {
        let mut devices: Vec<Device> = Vec::new();
        let mut i: usize = 0;
        while i < leases.len()
            invariant
                i <= leases@.len(),
                devices@.len() == i,
                forall|k: int| 0 <= k < i ==> is_lease_device((#[trigger] devices@[k])@, leases@[k]@, vendor_mapping@),
            decreases leases@.len() - i,
        {
            let ghost before = devices@;
            devices.push(Device::from_lease(leases[i], vendor_mapping));
            assert(forall|k: int| 0 <= k < i ==> devices@[k] == before[k]);
            i = i + 1;
        }
        let mut j: usize = 0;
        while j < hosts.len()
            invariant
                j <= hosts@.len(),
                devices@.len() == leases@.len() + j,
                forall|k: int| 0 <= k < leases@.len() ==> is_lease_device((#[trigger] devices@[k])@, leases@[k]@, vendor_mapping@),
                forall|k: int| 0 <= k < j ==> (#[trigger] devices@[leases@.len() + k])@ == host_device(hosts@[k]@, vendor_mapping@),
            decreases hosts@.len() - j,
        {
            let ghost before = devices@;
            devices.push(Device::from_host(hosts[j], vendor_mapping));
            assert(forall|k: int| 0 <= k < before.len() ==> devices@[k] == before[k]);
            j = j + 1;
        }
        devices
    }
}

/// Records that can be searched by IPv4 address.
pub trait FindByIp {
    type Item;

    /// The records searched, in order.
    spec fn records(&self) -> Seq<Self::Item>;

    /// Whether a record carries the address `ip`.
    spec fn has_ip(item: Self::Item, ip: Ipv4Addr) -> bool;

    /// The records that carry `ip`, in order.
    fn find_by_ip(&self, ip: Ipv4Addr) -> (r: Vec<&Self::Item>)
        ensures
            r@.map_values(|x: &Self::Item| *x) == self.records().filter(|x: Self::Item| Self::has_ip(x, ip)),
    ;
}

/// Records that can be searched by hardware address.
pub trait FindByMac {
    type Item;

    /// The records searched, in order.
    spec fn records(&self) -> Seq<Self::Item>;

    /// Whether a record carries the hardware address `mac`.
    spec fn has_mac(item: Self::Item, mac: Seq<u8>) -> bool;

    /// The records that carry `mac`, in order.
    fn find_by_mac(&self, mac: &MacAddr) -> (r: Vec<&Self::Item>)
        ensures
            r@.map_values(|x: &Self::Item| *x) == self.records().filter(|x: Self::Item| Self::has_mac(x, mac@)),
    ;
}

impl FindByIp for Vec<Lease> {
    type Item = Lease;

    open spec fn records(&self) -> Seq<Lease> {
        self@
    }

    open spec fn has_ip(item: Lease, ip: Ipv4Addr) -> bool {
        item.address == ip
    }

    fn find_by_ip(&self, ip: Ipv4Addr) -> (r: Vec<&Lease>) {
        let mut out: Vec<&Lease> = Vec::new();
        let mut k: usize = 0;
        while k < self.len()
            invariant
                k <= self@.len(),
                out@.map_values(|x: &Lease| *x) == self@.subrange(0, k as int).filter(|x: Lease| Self::has_ip(x, ip)),
            decreases self@.len() - k,
        {
            proof {
                reveal(Seq::filter);
                assert(self@.subrange(0, k + 1).drop_last() =~= self@.subrange(0, k as int));
            }
            if self[k].address == ip {
                out.push(&self[k]);
            }
            k = k + 1;
        }
        assert(self@.subrange(0, self@.len() as int) =~= self@);
        out
    }
}

impl FindByIp for Vec<Host> {
    type Item = Host;

    open spec fn records(&self) -> Seq<Host> {
        self@
    }

    open spec fn has_ip(item: Host, ip: Ipv4Addr) -> bool {
        item.fixed_address == ip
    }

    fn find_by_ip(&self, ip: Ipv4Addr) -> (r: Vec<&Host>) {
        let mut out: Vec<&Host> = Vec::new();
        let mut k: usize = 0;
        while k < self.len()
            invariant
                k <= self@.len(),
                out@.map_values(|x: &Host| *x) == self@.subrange(0, k as int).filter(|x: Host| Self::has_ip(x, ip)),
            decreases self@.len() - k,
        {
            proof {
                reveal(Seq::filter);
                assert(self@.subrange(0, k + 1).drop_last() =~= self@.subrange(0, k as int));
            }
            if self[k].fixed_address == ip {
                out.push(&self[k]);
            }
            k = k + 1;
        }
        assert(self@.subrange(0, self@.len() as int) =~= self@);
        out
    }
}

impl FindByMac for Vec<Lease> {
    type Item = Lease;

    open spec fn records(&self) -> Seq<Lease> {
        self@
    }

    open spec fn has_mac(item: Lease, mac: Seq<u8>) -> bool {
        item.hardware_ethernet@ == mac
    }

    fn find_by_mac(&self, mac: &MacAddr) -> (r: Vec<&Lease>) {
        let mut out: Vec<&Lease> = Vec::new();
        let mut k: usize = 0;
        while k < self.len()
            invariant
                k <= self@.len(),
                out@.map_values(|x: &Lease| *x) == self@.subrange(0, k as int).filter(|x: Lease| Self::has_mac(x, mac@)),
            decreases self@.len() - k,
        {
            proof {
                reveal(Seq::filter);
                assert(self@.subrange(0, k + 1).drop_last() =~= self@.subrange(0, k as int));
            }
            if self[k].hardware_ethernet.eq(mac) {
                out.push(&self[k]);
            }
            k = k + 1;
        }
        assert(self@.subrange(0, self@.len() as int) =~= self@);
        out
    }
}

impl FindByMac for Vec<Host> {
    type Item = Host;

    open spec fn records(&self) -> Seq<Host> {
        self@
    }

    open spec fn has_mac(item: Host, mac: Seq<u8>) -> bool {
        item.hardware_ethernet@ == mac
    }

    fn find_by_mac(&self, mac: &MacAddr) -> (r: Vec<&Host>) {
        let mut out: Vec<&Host> = Vec::new();
        let mut k: usize = 0;
        while k < self.len()
            invariant
                k <= self@.len(),
                out@.map_values(|x: &Host| *x) == self@.subrange(0, k as int).filter(|x: Host| Self::has_mac(x, mac@)),
            decreases self@.len() - k,
        {
            proof {
                reveal(Seq::filter);
                assert(self@.subrange(0, k + 1).drop_last() =~= self@.subrange(0, k as int));
            }
            if self[k].hardware_ethernet.eq(mac) {
                out.push(&self[k]);
            }
            k = k + 1;
        }
        assert(self@.subrange(0, self@.len() as int) =~= self@);
        out
    }
}

/// Whether `a` comes before `b` in character order, from position `i` on.
pub open spec fn before_from(a: Seq<char>, b: Seq<char>, i: int) -> bool
    decreases a.len() - i,
{
    if i < 0 {
        false
    } else if i >= a.len() {
        i < b.len()
    } else if i >= b.len() {
        false
    } else if a[i] != b[i] {
        a[i] < b[i]
    } else {
        before_from(a, b, i + 1)
    }
}

/// Whether `a` comes before `b` in character order.
pub open spec fn text_before(a: Seq<char>, b: Seq<char>) -> bool {
    before_from(a, b, 0)
}

proof fn lemma_before_total(a: Seq<char>, b: Seq<char>, i: int)
    requires
        0 <= i <= a.len(),
        i <= b.len(),
        forall|k: int| 0 <= k < i ==> a[k] == b[k],
        a != b,
    ensures
        before_from(a, b, i) || before_from(b, a, i),
    decreases a.len() - i,
{
    if i == a.len() && i == b.len() {
        assert(a =~= b);
    } else if i < a.len() && i < b.len() && a[i] == b[i] {
        lemma_before_total(a, b, i + 1);
    }
}

fn text_lt(a: &String, b: &String) -> (r: bool)
    ensures
        r == text_before(a@, b@),
{
    let x = crate::text::chars_of(a.as_str());
    let y = crate::text::chars_of(b.as_str());
    let mut i: usize = 0;
    while i < x.len() && i < y.len() && x[i] == y[i]
        invariant
            i <= x@.len(),
            i <= y@.len(),
            before_from(x@, y@, 0) == before_from(x@, y@, i as int),
        decreases x@.len() - i,
    {
        i = i + 1;
    }
    if i >= x.len() {
        i < y.len()
    } else if i >= y.len() {
        false
    } else {
        x[i] < y[i]
    }
}

/// Whether the texts stand in strictly increasing character order.
pub open spec fn sorted_texts(v: Seq<String>) -> bool {
    forall|k: int| 0 <= k < v.len() - 1 ==> text_before(#[trigger] v[k]@, v[k + 1]@)
}

/// Whether `v` holds the text `n`.
pub open spec fn has_text(v: Seq<String>, n: Seq<char>) -> bool {
    exists|k: int| 0 <= k < v.len() && #[trigger] v[k]@ == n
}

/// Adds `name` to a list in strictly increasing order, unless it is there already.
fn insert_sorted(v: &mut Vec<String>, name: String)
    requires
        sorted_texts(old(v)@),
    ensures
        sorted_texts(final(v)@),
        forall|n: Seq<char>| has_text(final(v)@, n) <==> (has_text(old(v)@, n) || n == name@),
{
    let mut p: usize = 0;
    while p < v.len() && text_lt(&v[p], &name)
        invariant
            p <= v@.len(),
            forall|k: int| 0 <= k < p ==> text_before(#[trigger] v@[k]@, name@),
        decreases v@.len() - p,
    {
        p = p + 1;
    }
    if p < v.len() && v[p] == name {
        assert(v@[p as int]@ == name@);
        assert(has_text(v@, name@));
        return;
    }
    let ghost old_v = v@;
    proof {
        if p < old_v.len() {
            assert(!text_before(old_v[p as int]@, name@));
            assert(old_v[p as int]@ != name@);
            lemma_before_total(name@, old_v[p as int]@, 0);
        }
    }
    let ghost nv = name@;
    v.insert(p, name);
    assert(v@ == old_v.insert(p as int, v@[p as int]));
    assert forall|k: int| 0 <= k < v@.len() - 1 implies text_before(#[trigger] v@[k]@, v@[k + 1]@) by {
        if k < p as int - 1 {
            assert(v@[k] == old_v[k] && v@[k + 1] == old_v[k + 1]);
        } else if k == p as int - 1 {
            assert(v@[k] == old_v[k]);
        } else if k == p as int {
        } else {
            assert(v@[k] == old_v[k - 1] && v@[k + 1] == old_v[k]);
        }
    }
    assert forall|n: Seq<char>| has_text(v@, n) <==> (has_text(old_v, n) || n == nv) by {
        if has_text(v@, n) {
            let k = choose|k: int| 0 <= k < v@.len() && #[trigger] v@[k]@ == n;
            if k < p {
                assert(old_v[k]@ == n);
            } else if k > p {
                assert(old_v[k - 1]@ == n);
            }
        }
        if has_text(old_v, n) {
            let k = choose|k: int| 0 <= k < old_v.len() && #[trigger] old_v[k]@ == n;
            if k < p {
                assert(v@[k]@ == n);
            } else {
                assert(v@[k + 1]@ == n);
            }
        }
        if n == nv {
            assert(v@[p as int]@ == n);
        }
    }
}

/// Whether `n` is the vendor name of the hardware address of one of the leases
/// or hosts.
pub open spec fn is_vendor_of(
    n: Seq<char>,
    leases: Seq<Lease>,
    hosts: Seq<Host>,
    vendors: Map<Seq<u8>, Seq<char>>,
) -> bool {
    (exists|i: int| 0 <= i < leases.len() && ancestor_value(vendors, mac_nibbles(#[trigger] leases[i].hardware_ethernet@)) == Some(n))
    || (exists|i: int| 0 <= i < hosts.len() && ancestor_value(vendors, mac_nibbles(#[trigger] hosts[i].hardware_ethernet@)) == Some(n))
}

/// The vendor names of the hardware addresses of the leases and hosts, each once,
/// in increasing character order.
pub fn vendor_names(leases: &Vec<Lease>, hosts: &Vec<Host>, vendor_mapping: &VendorMapping) -> (r: Vec<String>)
    ensures
        sorted_texts(r@),
        forall|n: Seq<char>| has_text(r@, n) <==> is_vendor_of(n, leases@, hosts@, vendor_mapping@),
{
    let ghost vm = vendor_mapping@;
    let mut names: Vec<String> = Vec::new();
    let mut i: usize = 0;
    while i < leases.len()
        invariant
            i <= leases@.len(),
            vm == vendor_mapping@,
            sorted_texts(names@),
            forall|n: Seq<char>| has_text(names@, n) <==> is_vendor_of(n, leases@.subrange(0, i as int), seq![], vm),
        decreases leases@.len() - i,
    {
        let ghost before = names@;
        let found = vendor_of(vendor_mapping, &leases[i].hardware_ethernet);
        if let Some(n) = found {
            insert_sorted(&mut names, n);
        }
        proof {
            let sub = leases@.subrange(0, i as int);
            let sub2 = leases@.subrange(0, i + 1);
            assert forall|n: Seq<char>| has_text(names@, n) <==> is_vendor_of(n, sub2, seq![], vm) by {
                if is_vendor_of(n, sub2, seq![], vm) {
                    let j = choose|j: int| 0 <= j < sub2.len() && ancestor_value(vm, mac_nibbles(#[trigger] sub2[j].hardware_ethernet@)) == Some(n);
                    if j < i {
                        assert(sub[j] == sub2[j]);
                    }
                }
                if is_vendor_of(n, sub, seq![], vm) {
                    let j = choose|j: int| 0 <= j < sub.len() && ancestor_value(vm, mac_nibbles(#[trigger] sub[j].hardware_ethernet@)) == Some(n);
                    assert(sub[j] == sub2[j]);
                }
                if has_text(names@, n) && !has_text(before, n) {
                    assert(sub2[i as int] == leases@[i as int]);
                }
            }
        }
        i = i + 1;
    }
    assert(leases@.subrange(0, leases@.len() as int) =~= leases@);
    let mut j: usize = 0;
    while j < hosts.len()
        invariant
            j <= hosts@.len(),
            vm == vendor_mapping@,
            sorted_texts(names@),
            forall|n: Seq<char>| has_text(names@, n) <==> is_vendor_of(n, leases@, hosts@.subrange(0, j as int), vm),
        decreases hosts@.len() - j,
    {
        let ghost before = names@;
        let found = vendor_of(vendor_mapping, &hosts[j].hardware_ethernet);
        if let Some(n) = found {
            insert_sorted(&mut names, n);
        }
        proof {
            let sub = hosts@.subrange(0, j as int);
            let sub2 = hosts@.subrange(0, j + 1);
            assert forall|n: Seq<char>| has_text(names@, n) <==> is_vendor_of(n, leases@, sub2, vm) by {
                if is_vendor_of(n, leases@, sub2, vm) {
                    if exists|q: int| 0 <= q < sub2.len() && ancestor_value(vm, mac_nibbles(#[trigger] sub2[q].hardware_ethernet@)) == Some(n) {
                        let q = choose|q: int| 0 <= q < sub2.len() && ancestor_value(vm, mac_nibbles(#[trigger] sub2[q].hardware_ethernet@)) == Some(n);
                        if q < j {
                            assert(sub[q] == sub2[q]);
                        }
                    }
                }
                if is_vendor_of(n, leases@, sub, vm) {
                    if exists|q: int| 0 <= q < sub.len() && ancestor_value(vm, mac_nibbles(#[trigger] sub[q].hardware_ethernet@)) == Some(n) {
                        let q = choose|q: int| 0 <= q < sub.len() && ancestor_value(vm, mac_nibbles(#[trigger] sub[q].hardware_ethernet@)) == Some(n);
                        assert(sub[q] == sub2[q]);
                    }
                }
                if has_text(names@, n) && !has_text(before, n) {
                    assert(sub2[j as int] == hosts@[j as int]);
                }
            }
        }
        j = j + 1;
    }
    assert(hosts@.subrange(0, hosts@.len() as int) =~= hosts@);
    names
}

} // verus!
