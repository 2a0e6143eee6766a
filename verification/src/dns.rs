//! The record store of the lab's authoritative DNS server: A, AAAA and TXT
//! records by lowercased name. A record is visible to lookups the instant it
//! is set, to in-process lookups and to DNS queries alike.

use vstd::prelude::*;
use crate::balancer::Ipv4;
use hickory_proto::op::{Message, MessageType, OpCode, Query};
use hickory_proto::rr::{LowerName, Name, RData, Record};
use hickory_proto::serialize::binary::{BinDecodable, BinEncodable};

verus! {

/// The record types the server holds.
#[derive(Clone, Copy, Debug, PartialEq, Eq, Structural)]
pub enum RecordType {
    A,
    Aaaa,
    Txt,
}

/// An IP address: IPv4 by its octets, IPv6 by its 128 bits.
#[derive(Clone, Copy, Debug, PartialEq, Eq, Structural)]
pub enum IpAddr {
    V4(Ipv4),
    V6(u128),
}

/// The data of one record.
#[derive(Debug)]
pub enum RecordData {
    A(Ipv4),
    Aaaa(u128),
    Txt(Vec<String>),
}

/// The content of a record.
pub enum RecordView {
    A(Ipv4),
    Aaaa(u128),
    Txt(Seq<Seq<char>>),
}

/// The content of a record.
pub open spec fn record_view(r: RecordData) -> RecordView {
    match r {
        RecordData::A(a) => RecordView::A(a),
        RecordData::Aaaa(x) => RecordView::Aaaa(x),
        RecordData::Txt(t) => RecordView::Txt(crate::text::strings_view(t@)),
    }
}

/// The labels of a name, as bytes.
pub open spec fn labels_view(l: Seq<Vec<u8>>) -> Seq<Seq<u8>> {
    l.map_values(|x: Vec<u8>| x@)
}

/// The labels of the name `name` as the DNS library reads it with
/// `Name::from_ascii` and lowercases it for lookups (`LowerName`); `None`
/// where it is not a valid name.
pub uninterp spec fn dns_lower_labels(name: Seq<char>) -> Option<Seq<Seq<u8>>>;

/// Reads `name` with `hickory_proto::rr::Name::from_ascii`, lowercases it with
/// `LowerName::new`, and gives its labels. The contract claims only that the
/// result is a function of the name (`dns_lower_labels`).
#[verifier::external_body]
fn lower_labels(name: &str) -> (r: Option<Vec<Vec<u8>>>)
    ensures
        match r {
            Some(l) => dns_lower_labels(name@) == Some(labels_view(l@)),
            None => dns_lower_labels(name@) is None,
        },
{
    let parsed = hickory_proto::rr::Name::from_ascii(name).ok()?;
    let lower = hickory_proto::rr::LowerName::new(&parsed);
    let n: &hickory_proto::rr::Name = std::borrow::Borrow::borrow(&lower);
    Some(n.iter().map(|l| l.to_vec()).collect())
}

/// The key of a record list: the lowercased labels and the type.
pub type RecordKey = (Seq<Seq<u8>>, RecordType);

/// A stored record: the name it was set under and its data.
pub type StoredView = (Seq<char>, RecordView);

/// One record list of the store.
#[derive(Debug)]
pub struct DnsEntry {
    labels: Vec<Vec<u8>>,
    rtype: RecordType,
    /// Each record with the name it was set under.
    records: Vec<(String, RecordData)>,
}

/// The key of an entry.
spec fn entry_key(e: DnsEntry) -> RecordKey {
    (labels_view(e.labels@), e.rtype)
}

/// The contents of the records of an entry.
spec fn entry_records(e: DnsEntry) -> Seq<StoredView> {
    e.records@.map_values(|r: (String, RecordData)| (r.0@, record_view(r.1)))
}

/// The keys of the entries, in order.
spec fn entry_keys(es: Seq<DnsEntry>) -> Seq<RecordKey> {
    es.map_values(|e: DnsEntry| entry_key(e))
}

/// The records of the lab's DNS server, by lowercased name and type, each
/// list in the order the records were set.
#[derive(Debug)]
pub struct DnsRecords {
    entries: Vec<DnsEntry>,
}

impl DnsRecords {
    #[verifier::type_invariant]
    spec fn keys_unique(self) -> bool {
        entry_keys(self.entries@).no_duplicates()
    }
}

impl View for DnsRecords {
    type V = Map<RecordKey, Seq<StoredView>>;

    closed spec fn view(&self) -> Map<RecordKey, Seq<StoredView>> {
        let keys = entry_keys(self.entries@);
        Map::new(
            |k: RecordKey| keys.contains(k),
            |k: RecordKey| entry_records(self.entries@[keys.index_of(k)]),
        )
    }
}

/// The records that a list holds for `k`, or none.
pub open spec fn records_at(m: Map<RecordKey, Seq<StoredView>>, k: RecordKey) -> Seq<StoredView> {
    if m.contains_key(k) {
        m[k]
    } else {
        Seq::empty()
    }
}

/// The address that the first address record of a list gives, if any.
pub open spec fn first_address(rs: Seq<StoredView>) -> Option<IpAddr>
    decreases rs.len(),
{
    if rs.len() == 0 {
        None
    } else {
        match rs[0].1 {
            RecordView::A(a) => Some(IpAddr::V4(a)),
            RecordView::Aaaa(x) => Some(IpAddr::V6(x)),
            RecordView::Txt(_) => first_address(rs.drop_first()),
        }
    }
}

/// What a lookup of the name with labels `l` gives: the first address among
/// its A records, else among its AAAA records.
pub open spec fn lookup(m: Map<RecordKey, Seq<StoredView>>, l: Seq<Seq<u8>>) -> Option<IpAddr> {
    match first_address(records_at(m, (l, RecordType::A))) {
        Some(ip) => Some(ip),
        None => first_address(records_at(m, (l, RecordType::Aaaa))),
    }
}

/// The record that `set_host` adds for `ip`, and its type.
pub open spec fn host_record(ip: IpAddr) -> (RecordType, RecordView) {
    match ip {
        IpAddr::V4(a) => (RecordType::A, RecordView::A(a)),
        IpAddr::V6(x) => (RecordType::Aaaa, RecordView::Aaaa(x)),
    }
}

/// The error for a name that is not a valid DNS name.
pub open spec fn invalid_name_text() -> Seq<char> {
    "invalid DNS name"@
}

/// In a sequence without repeats, an element's index is where it stands.
pub proof fn lemma_index_of_unique<A>(s: Seq<A>, i: int)
    requires
        s.no_duplicates(),
        0 <= i < s.len(),
    ensures
        s.contains(s[i]),
        s.index_of(s[i]) == i,
{
    assert(s.contains(s[i]));
    let j = s.index_of(s[i]);
    assert(0 <= j < s.len() && s[j] == s[i]);
}

fn labels_eq(a: &Vec<Vec<u8>>, b: &Vec<Vec<u8>>) -> (r: bool)
    ensures
        r == (labels_view(a@) == labels_view(b@)),
{
    if a.len() != b.len() {
        proof {
            assert(labels_view(a@).len() != labels_view(b@).len());
        }
        return false;
    }
    let mut i: usize = 0;
    while i < a.len()
        invariant
            i <= a.len(),
            a.len() == b.len(),
            forall|j: int| 0 <= j < i ==> a@[j]@ == b@[j]@,
        decreases a.len() - i,
    {
        let x = &a[i];
        let y = &b[i];
        if x.len() != y.len() {
            proof {
                assert(labels_view(a@)[i as int].len() != labels_view(b@)[i as int].len());
            }
            return false;
        }
        let mut k: usize = 0;
        while k < x.len()
            invariant
                k <= x.len(),
                x.len() == y.len(),
                i < a.len(),
                a.len() == b.len(),
                x@ == a@[i as int]@,
                y@ == b@[i as int]@,
                forall|j: int| 0 <= j < k ==> x@[j] == y@[j],
            decreases x.len() - k,
        {
            if x[k] != y[k] {
                proof {
                    assert(labels_view(a@)[i as int][k as int] != labels_view(b@)[i as int][k as int]);
                }
                return false;
            }
            k = k + 1;
        }
        proof {
            assert(x@ =~= y@);
        }
        i = i + 1;
    }
    proof {
        assert(labels_view(a@) =~= labels_view(b@));
    }
    true
}

impl DnsRecords {
    /// An empty store.
    pub fn new() -> (s: Self)
        ensures
            s@ == Map::<RecordKey, Seq<StoredView>>::empty(),
    {
        let s = DnsRecords { entries: Vec::new() };
        proof {
            assert(entry_keys(s.entries@) =~= Seq::<RecordKey>::empty());
            assert(s@ =~= Map::<RecordKey, Seq<StoredView>>::empty());
        }
        s
    }

    fn find(&self, labels: &Vec<Vec<u8>>, rtype: RecordType) -> (r: Option<usize>)
        ensures
            match r {
                Some(i) => i < self.entries@.len() && entry_keys(self.entries@)[i as int] == (labels_view(labels@), rtype),
                None => !entry_keys(self.entries@).contains((labels_view(labels@), rtype)),
            },
    {
        let ghost keys = entry_keys(self.entries@);
        let mut i: usize = 0;
        while i < self.entries.len()
            invariant
                i <= self.entries.len(),
                keys == entry_keys(self.entries@),
                forall|j: int| 0 <= j < i ==> keys[j] != (labels_view(labels@), rtype),
            decreases self.entries.len() - i,
        {
            if self.entries[i].rtype == rtype && labels_eq(&self.entries[i].labels, labels) {
                return Some(i);
            }
            i = i + 1;
        }
        None
    }

    fn add(&mut self, labels: Vec<Vec<u8>>, rtype: RecordType, name: String, rec: RecordData)
        ensures
            final(self)@ == old(self)@.insert(
                (labels_view(labels@), rtype),
                records_at(old(self)@, (labels_view(labels@), rtype)).push((name@, record_view(rec))),
            ),
    {
        let ghost sv = (name@, record_view(rec));
        proof {
            use_type_invariant(&*self);
        }
        let ghost k = (labels_view(labels@), rtype);
        let ghost keys = entry_keys(self.entries@);
        let ghost old_map = self@;
        let found = self.find(&labels, rtype);
        let mut entries: Vec<DnsEntry> = Vec::new();
        std::mem::swap(&mut entries, &mut self.entries);
        let ghost old_entries = entries@;
        match found {
            Some(i) => {
                proof {
                    lemma_index_of_unique(keys, i as int);
                }
                let mut entry = entries.remove(i);
                entry.records.push((name, rec));
                entries.insert(i, entry);
                proof {
                    assert(entries@ =~= old_entries.update(i as int, entry));
                    assert(entry_keys(entries@) =~= keys);
                    assert(entry_records(entry) =~= entry_records(old_entries[i as int]).push(sv));
                }
                self.entries = entries;
                proof {
                    assert(keys[i as int] == k);
                    assert(keys.index_of(k) == i);
                    assert(entry_keys(self.entries@) == keys);
                    assert(self@.contains_key(k));
                    assert(self@[k] == entry_records(self.entries@[i as int]));
                    assert(self.entries@[i as int] == entry);
                    assert(old_map[k] == entry_records(old_entries[i as int]));
                    assert forall|k2: RecordKey| keys.contains(k2) && k2 != k implies #[trigger] self@[k2] == old_map[k2] by {
                        let j = keys.index_of(k2);
                        assert(j != i);
                        assert(self.entries@[j] == old_entries[j]);
                    }
                    assert(self@.dom() =~= old_map.insert(k, records_at(old_map, k).push(sv)).dom());
                    assert(old_map.contains_key(k));
                    assert(self@[k] == records_at(old_map, k).push(sv));
                    assert(self@ =~= old_map.insert(k, records_at(old_map, k).push(sv)));
                }
            },
            None => {
                let mut records: Vec<(String, RecordData)> = Vec::new();
                records.push((name, rec));
                let entry = DnsEntry { labels, rtype, records };
                proof {
                    assert(entry_records(entry) =~= seq![sv]);
                }
                entries.push(entry);
                proof {
                    assert(entry_keys(entries@) =~= keys.push(k));
                    assert(entry_keys(entries@).no_duplicates());
                }
                self.entries = entries;
                proof {
                    assert forall|k2: RecordKey| keys.contains(k2) implies entry_keys(self.entries@).index_of(k2) == keys.index_of(k2) by {
                        let j = choose|j: int| 0 <= j < keys.len() && keys[j] == k2;
                        lemma_index_of_unique(keys, j);
                        assert(entry_keys(self.entries@)[j] == k2);
                        lemma_index_of_unique(entry_keys(self.entries@), j);
                    }
                    lemma_index_of_unique(entry_keys(self.entries@), keys.len() as int);
                    let nk = entry_keys(self.entries@);
                    assert(nk[keys.len() as int] == k);
                    assert(!old_map.contains_key(k));
                    assert(records_at(old_map, k) =~= Seq::<StoredView>::empty());
                    assert(self@[k] == entry_records(entry));
                    assert forall|k2: RecordKey| keys.contains(k2) implies #[trigger] self@[k2] == old_map[k2] by {
                        let jj = choose|jj: int| 0 <= jj < keys.len() && keys[jj] == k2;
                        lemma_index_of_unique(keys, jj);
                        assert(nk[jj] == k2);
                        lemma_index_of_unique(nk, jj);
                        assert(self@.contains_key(k2));
                        assert(self.entries@[jj] == old_entries[jj]);
                    }
                    assert forall|k2: RecordKey| #[trigger] self@.contains_key(k2) <==> (keys.contains(k2) || k2 == k) by {
                        if nk.contains(k2) {
                            let jj = choose|jj: int| 0 <= jj < nk.len() && nk[jj] == k2;
                            if jj < keys.len() {
                                assert(keys[jj] == k2);
                            }
                        }
                        if keys.contains(k2) {
                            let jj = choose|jj: int| 0 <= jj < keys.len() && keys[jj] == k2;
                            assert(nk[jj] == k2);
                        }
                    }
                    assert(self@.dom() =~= old_map.insert(k, records_at(old_map, k).push(sv)).dom());
                    assert(self@ =~= old_map.insert(k, records_at(old_map, k).push(sv)));
                }
            },
        }
    }
}

impl DnsRecords {
    fn drop_key(&mut self, labels: &Vec<Vec<u8>>, rtype: RecordType)
        ensures
            final(self)@ == old(self)@.remove((labels_view(labels@), rtype)),
    {
        proof {
            use_type_invariant(&*self);
        }
        let ghost k = (labels_view(labels@), rtype);
        let ghost keys = entry_keys(self.entries@);
        let ghost old_map = self@;
        match self.find(labels, rtype) {
            Some(i) => {
                let mut entries: Vec<DnsEntry> = Vec::new();
                std::mem::swap(&mut entries, &mut self.entries);
                let ghost old_entries = entries@;
                entries.remove(i);
                let ghost nk = entry_keys(entries@);
                proof {
                    assert(nk =~= keys.remove(i as int));
                    assert forall|a: int, b: int| 0 <= a < b < nk.len() implies nk[a] != nk[b] by {
                        let oa = if a < i { a } else { a + 1 };
                        let ob = if b < i { b } else { b + 1 };
                        assert(nk[a] == keys[oa]);
                        assert(nk[b] == keys[ob]);
                    }
                    assert(nk.no_duplicates());
                }
                self.entries = entries;
                proof {
                    assert forall|k2: RecordKey| #[trigger] self@.contains_key(k2) <==> (keys.contains(k2) && k2 != k) by {
                        if nk.contains(k2) {
                            let jj = choose|jj: int| 0 <= jj < nk.len() && nk[jj] == k2;
                            let oj = if jj < i { jj } else { jj + 1 };
                            assert(keys[oj] == k2);
                            if k2 == k {
                                assert(keys[i as int] == k);
                            }
                        }
                        if keys.contains(k2) && k2 != k {
                            let jj = choose|jj: int| 0 <= jj < keys.len() && keys[jj] == k2;
                            assert(jj != i);
                            let nj = if jj < i { jj } else { jj - 1 };
                            assert(nk[nj] == k2);
                        }
                    }
                    assert forall|k2: RecordKey| #[trigger] self@.contains_key(k2) implies self@[k2] == old_map[k2] by {
                        let jj = choose|jj: int| 0 <= jj < keys.len() && keys[jj] == k2;
                        lemma_index_of_unique(keys, jj);
                        assert(jj != i);
                        let nj = if jj < i { jj } else { jj - 1 };
                        assert(nk[nj] == k2);
                        lemma_index_of_unique(nk, nj);
                        assert(self.entries@[nj] == old_entries[jj]);
                    }
                    assert(self@.dom() =~= old_map.remove(k).dom());
                    assert(self@ =~= old_map.remove(k));
                }
            },
            None => {
                proof {
                    assert(old_map.remove(k) =~= old_map);
                }
            },
        }
    }

    /// Adds an address record for `name`: A for an IPv4 address, AAAA for an
    /// IPv6 one. It is visible to lookups as soon as this returns. An invalid
    /// name is an error and changes nothing.
    pub fn set_host(&mut self, name: &str, ip: IpAddr) -> (r: Result<(), String>)
        ensures
            match dns_lower_labels(name@) {
                Some(l) => r is Ok && final(self)@ == old(self)@.insert(
                    (l, host_record(ip).0),
                    records_at(old(self)@, (l, host_record(ip).0)).push((name@, host_record(ip).1)),
                ),
                None => r matches Err(m) && m@ == invalid_name_text() && final(self)@ == old(self)@,
            },
    {
        let labels = match lower_labels(name) {
            Some(l) => l,
            None => return Err("invalid DNS name".to_owned()),
        };
        match ip {
            IpAddr::V4(a) => self.add(labels, RecordType::A, name.to_owned(), RecordData::A(a)),
            IpAddr::V6(x) => self.add(labels, RecordType::Aaaa, name.to_owned(), RecordData::Aaaa(x)),
        }
        Ok(())
    }

    /// Adds a TXT record with the strings `values` for `name`. An invalid name
    /// is an error and changes nothing.
    pub fn set_txt(&mut self, name: &str, values: &Vec<String>) -> (r: Result<(), String>)
        ensures
            match dns_lower_labels(name@) {
                Some(l) => r is Ok && final(self)@ == old(self)@.insert(
                    (l, RecordType::Txt),
                    records_at(old(self)@, (l, RecordType::Txt)).push((name@, RecordView::Txt(crate::text::strings_view(values@)))),
                ),
                None => r matches Err(m) && m@ == invalid_name_text() && final(self)@ == old(self)@,
            },
    {
        let labels = match lower_labels(name) {
            Some(l) => l,
            None => return Err("invalid DNS name".to_owned()),
        };
        let vals = crate::text::clone_strings(values);
        self.add(labels, RecordType::Txt, name.to_owned(), RecordData::Txt(vals));
        Ok(())
    }

    /// Removes all records of type `rtype` for `name`. An invalid name is an
    /// error and changes nothing.
    pub fn remove(&mut self, name: &str, rtype: RecordType) -> (r: Result<(), String>)
        ensures
            match dns_lower_labels(name@) {
                Some(l) => r is Ok && final(self)@ == old(self)@.remove((l, rtype)),
                None => r matches Err(m) && m@ == invalid_name_text() && final(self)@ == old(self)@,
            },
    {
        let labels = match lower_labels(name) {
            Some(l) => l,
            None => return Err("invalid DNS name".to_owned()),
        };
        self.drop_key(&labels, rtype);
        Ok(())
    }

    fn first_address_of(&self, labels: &Vec<Vec<u8>>, rtype: RecordType) -> (r: Option<IpAddr>)
        ensures
            r == first_address(records_at(self@, (labels_view(labels@), rtype))),
    {
        proof {
            use_type_invariant(self);
        }
        let ghost k = (labels_view(labels@), rtype);
        match self.find(labels, rtype) {
            Some(i) => {
                let recs = &self.entries[i].records;
                let ghost rv = entry_records(self.entries@[i as int]);
                proof {
                    lemma_index_of_unique(entry_keys(self.entries@), i as int);
                    assert(records_at(self@, k) == rv);
                }
                let mut j: usize = 0;
                proof {
                    assert(rv.skip(0) =~= rv);
                }
                while j < recs.len()
                    invariant
                        j <= recs.len(),
                        records_at(self@, k) == rv,
                        k == (labels_view(labels@), rtype),
                        rv == recs@.map_values(|r: (String, RecordData)| (r.0@, record_view(r.1))),
                        first_address(rv) == first_address(rv.skip(j as int)),
                    decreases recs.len() - j,
                {
                    proof {
                        assert(rv.skip(j as int).drop_first() =~= rv.skip(j + 1));
                        assert(rv.skip(j as int)[0] == (recs@[j as int].0@, record_view(recs@[j as int].1)));
                    }
                    match &recs[j].1 {
                        RecordData::A(a) => return Some(IpAddr::V4(*a)),
                        RecordData::Aaaa(x) => return Some(IpAddr::V6(*x)),
                        RecordData::Txt(_) => {},
                    }
                    j = j + 1;
                }
                proof {
                    assert(rv.skip(recs.len() as int) =~= Seq::<StoredView>::empty());
                }
                None
            },
            None => {
                proof {
                    assert(records_at(self@, k) =~= Seq::<StoredView>::empty());
                }
                None
            },
        }
    }

    /// The address of `name`: its first A record, else its first AAAA
    /// record; `None` for an invalid name or one without addresses.
    pub fn resolve(&self, name: &str) -> (r: Option<IpAddr>)
        ensures
            r == match dns_lower_labels(name@) {
                Some(l) => lookup(self@, l),
                None => None,
            },
    {
        let labels = match lower_labels(name) {
            Some(l) => l,
            None => return None,
        };
        match self.first_address_of(&labels, RecordType::A) {
            Some(ip) => Some(ip),
            None => self.first_address_of(&labels, RecordType::Aaaa),
        }
    }
}

proof fn lemma_first_address_push(rs: Seq<StoredView>, x: StoredView)
    ensures
        first_address(rs) is Some ==> first_address(rs.push(x)) == first_address(rs),
        first_address(rs) is None ==> first_address(rs.push(x)) == first_address(seq![x]),
    decreases rs.len(),
{
    if rs.len() > 0 {
        assert(rs.push(x).drop_first() =~= rs.drop_first().push(x));
        lemma_first_address_push(rs.drop_first(), x);
    } else {
        assert(rs.push(x) =~= seq![x]);
    }
}

/// A name resolves to the address just set for it, at once: given that it
/// had no address of that kind before (for IPv6, no address at all), a
/// lookup after `set_host` gives the address. Other names resolve as before.
pub proof fn law_resolve_after_set_host(
    m: Map<RecordKey, Seq<StoredView>>,
    l: Seq<Seq<u8>>,
    name: Seq<char>,
    ip: IpAddr,
    other: Seq<Seq<u8>>,
)
    requires
        first_address(records_at(m, (l, RecordType::A))) is None,
        ip is V6 ==> first_address(records_at(m, (l, RecordType::Aaaa))) is None,
    ensures
        lookup(
            m.insert((l, host_record(ip).0), records_at(m, (l, host_record(ip).0)).push((name, host_record(ip).1))),
            l,
        ) == Some(ip),
        other != l ==> lookup(
            m.insert((l, host_record(ip).0), records_at(m, (l, host_record(ip).0)).push((name, host_record(ip).1))),
            other,
        ) == lookup(m, other),
{
    let (t, hv) = host_record(ip);
    let rv = (name, hv);
    let m2 = m.insert((l, t), records_at(m, (l, t)).push(rv));
    lemma_first_address_push(records_at(m, (l, t)), rv);
    assert(seq![rv].drop_first() =~= Seq::<StoredView>::empty());
    assert(records_at(m2, (l, t)) == records_at(m, (l, t)).push(rv));
    if other != l {
        assert(records_at(m2, (other, RecordType::A)) == records_at(m, (other, RecordType::A)));
        assert(records_at(m2, (other, RecordType::Aaaa)) == records_at(m, (other, RecordType::Aaaa)));
    }
}

/// After its records of a type are removed, a name has none of that type.
pub proof fn law_remove_clears(m: Map<RecordKey, Seq<StoredView>>, k: RecordKey)
    ensures
        records_at(m.remove(k), k) == Seq::<StoredView>::empty(),
{
}

// ── Answering queries ───────────────────────────────────────────────

/// The header of a decoded message, as far as answering it needs: its id,
/// whether it is a query, its op code and its recursion-desired flag.
#[derive(Clone, Copy, Debug, PartialEq, Eq, Structural)]
pub struct QueryHead {
    pub id: u16,
    pub is_query: bool,
    pub op_code: u8,
    pub recursion_desired: bool,
}

/// The header fields of a message to encode.
#[derive(Clone, Copy, Debug, PartialEq, Eq, Structural)]
pub struct DnsHeader {
    pub id: u16,
    pub response: bool,
    pub op_code: u8,
    pub authoritative: bool,
    pub recursion_desired: bool,
    pub recursion_available: bool,
    pub rcode: u16,
}

/// A question of a message: the labels of its name as they were sent, its
/// type code and its class code.
#[derive(Debug)]
pub struct DnsQuestion {
    pub labels: Vec<Vec<u8>>,
    pub qtype: u16,
    pub qclass: u16,
}

/// A question by labels, type code and class code.
pub type QuestionView = (Seq<Seq<u8>>, u16, u16);

/// The questions, by labels, type code and class code.
pub open spec fn questions_view(qs: Seq<DnsQuestion>) -> Seq<QuestionView> {
    qs.map_values(|q: DnsQuestion| (labels_view(q.labels@), q.qtype, q.qclass))
}

/// A DNS message as `Message::from_bytes` decodes it: its header and its
/// questions; `None` where the bytes do not decode.
pub uninterp spec fn dns_query_of(buf: Seq<u8>) -> Option<(QueryHead, Seq<QuestionView>)>;

/// Decodes `buf` with `Message::from_bytes` and reads its id, message type,
/// op code, recursion-desired flag and questions as plain values. The
/// contract claims only that the result is a function of the bytes
/// (`dns_query_of`).
#[verifier::external_body]
fn decode_query(buf: &[u8]) -> (r: Option<(QueryHead, Vec<DnsQuestion>)>)
    ensures
        match r {
            Some(d) => dns_query_of(buf@) == Some((d.0, questions_view(d.1@))),
            None => dns_query_of(buf@) is None,
        },
{
    let m = <Message as BinDecodable>::from_bytes(buf).ok()?;
    let mut qs = Vec::new();
    for q in m.queries() {
        let labels = q.name().iter().map(|l| l.to_vec()).collect();
        qs.push(DnsQuestion { labels, qtype: q.query_type().into(), qclass: q.query_class().into() });
    }
    let is_query = matches!(m.message_type(), MessageType::Query);
    let head = QueryHead { id: m.id(), is_query, op_code: m.op_code().into(), recursion_desired: m.recursion_desired() };
    Some((head, qs))
}

/// The labels of the name made of `labels` (`Name::from_labels`) as
/// `LowerName` lowercases it for lookups; `None` where they make no name.
pub uninterp spec fn dns_lowered(labels: Seq<Seq<u8>>) -> Option<Seq<Seq<u8>>>;

/// Builds a name from `labels` with `Name::from_labels`, lowercases it with
/// `LowerName::new`, and gives its labels. The contract claims only that the
/// result is a function of the labels (`dns_lowered`).
#[verifier::external_body]
fn lowered(labels: &Vec<Vec<u8>>) -> (r: Option<Vec<Vec<u8>>>)
    ensures
        match r {
            Some(l) => dns_lowered(labels_view(labels@)) == Some(labels_view(l@)),
            None => dns_lowered(labels_view(labels@)) is None,
        },
{
    let name = Name::from_labels(labels.iter().map(|l| l.as_slice())).ok()?;
    let lower = LowerName::new(&name);
    let n: &Name = std::borrow::Borrow::borrow(&lower);
    Some(n.iter().map(|l| l.to_vec()).collect())
}

/// The bytes that hickory encodes for a message with the header `h`, the
/// questions `qs` and no records; `None` where it cannot encode them.
pub uninterp spec fn dns_head_bytes(h: DnsHeader, qs: Seq<QuestionView>) -> Option<Seq<u8>>;

/// Builds a `Message` with `Message::new`, sets the header fields of `h`
/// (`OpCode::from_u8`, `ResponseCode::from`), adds each question (its name by
/// `Name::from_labels`, its type and class from their codes) and encodes it
/// with `to_bytes`. The contract claims only that the result is a function of
/// the arguments (`dns_head_bytes`).
#[verifier::external_body]
fn encode_head(h: &DnsHeader, qs: &Vec<DnsQuestion>) -> (r: Option<Vec<u8>>)
    ensures
        match r {
            Some(b) => dns_head_bytes(*h, questions_view(qs@)) == Some(b@),
            None => dns_head_bytes(*h, questions_view(qs@)) is None,
        },
{
    let t = match h.response { true => MessageType::Response, false => MessageType::Query };
    let mut m = Message::new();
    m.set_id(h.id).set_message_type(t).set_op_code(OpCode::from_u8(h.op_code).ok()?);
    m.set_authoritative(h.authoritative).set_recursion_desired(h.recursion_desired);
    m.set_recursion_available(h.recursion_available).set_response_code(h.rcode.into());
    for q in qs.iter() {
        let name = Name::from_labels(q.labels.iter().map(|l| l.as_slice())).ok()?;
        m.add_query(Query::query(name, q.qtype.into()).set_query_class(q.qclass.into()).clone());
    }
    m.to_bytes().ok()
}

/// The bytes that hickory encodes for the message `msg` with one more answer:
/// the record of the name `name` (as `Name::from_ascii` reads it) with the
/// class code `class`, the TTL `ttl` and the data `data`.
pub uninterp spec fn dns_with_answer(msg: Seq<u8>, name: Seq<char>, class: u16, ttl: u32, data: RecordView) -> Option<Seq<u8>>;

/// Decodes `msg` with `Message::from_bytes`, adds the answer record made with
/// `Record::from_rdata` and `set_dns_class`, and encodes it again with
/// `to_bytes`. The contract claims only that the result is a function of the
/// arguments (`dns_with_answer`).
#[verifier::external_body]
fn with_answer(msg: &[u8], name: &str, class: u16, ttl: u32, data: &RecordData) -> (r: Option<Vec<u8>>)
    ensures
        match r {
            Some(b) => dns_with_answer(msg@, name@, class, ttl, record_view(*data)) == Some(b@),
            None => dns_with_answer(msg@, name@, class, ttl, record_view(*data)) is None,
        },
{
    let mut m = <Message as BinDecodable>::from_bytes(msg).ok()?;
    let rdata = match data {
        RecordData::A(a) => RData::A(hickory_proto::rr::rdata::A([a.a, a.b, a.c, a.d].into())),
        RecordData::Aaaa(x) => RData::AAAA(hickory_proto::rr::rdata::AAAA((*x).into())),
        RecordData::Txt(t) => RData::TXT(hickory_proto::rr::rdata::TXT::new(t.clone())),
    };
    let mut rec = Record::from_rdata(Name::from_ascii(name).ok()?, ttl, rdata);
    m.add_answer(rec.set_dns_class(class.into()).clone());
    m.to_bytes().ok()
}

/// The record type that a query type code names, among those the server
/// holds: A (1), AAAA (28), TXT (16).
pub open spec fn record_type_of(code: u16) -> Option<RecordType> {
    if code == 1 {
        Some(RecordType::A)
    } else if code == 28 {
        Some(RecordType::Aaaa)
    } else if code == 16 {
        Some(RecordType::Txt)
    } else {
        None
    }
}

fn record_type_exec(code: u16) -> (r: Option<RecordType>)
    ensures
        r == record_type_of(code),
{
    if code == 1 {
        Some(RecordType::A)
    } else if code == 28 {
        Some(RecordType::Aaaa)
    } else if code == 16 {
        Some(RecordType::Txt)
    } else {
        None
    }
}

/// The records that answer one question: all records of its lowercased name
/// and its type; none for a type the server does not hold.
pub open spec fn question_answers(m: Map<RecordKey, Seq<StoredView>>, q: QuestionView) -> Seq<StoredView> {
    match (dns_lowered(q.0), record_type_of(q.1)) {
        (Some(l), Some(t)) => records_at(m, (l, t)),
        _ => Seq::empty(),
    }
}

/// The records that answer the questions `qs`, in order.
pub open spec fn answers_of(m: Map<RecordKey, Seq<StoredView>>, qs: Seq<QuestionView>) -> Seq<StoredView>
    decreases qs.len(),
{
    if qs.len() == 0 {
        Seq::empty()
    } else {
        answers_of(m, qs.drop_last()) + question_answers(m, qs.last())
    }
}

/// The response code of an answer: NXDOMAIN (3) when no record answers the
/// query, else no error (0).
pub open spec fn response_code_of(answers: Seq<StoredView>) -> u16 {
    if answers.len() == 0 {
        3
    } else {
        0
    }
}

/// The header of the response to a query with the header `q`: a response
/// with the query's id, op code and recursion-desired flag, authoritative,
/// without recursion available, with the response code `rcode`.
pub open spec fn response_header(q: QueryHead, rcode: u16) -> DnsHeader {
    DnsHeader {
        id: q.id,
        response: true,
        op_code: q.op_code,
        authoritative: true,
        recursion_desired: q.recursion_desired,
        recursion_available: false,
        rcode,
    }
}

/// The class code of the answers: IN.
pub const CLASS_IN: u16 = 1;

/// The message `msg` with the answers added one by one, each of class IN and
/// TTL 0.
pub open spec fn with_answers(msg: Option<Seq<u8>>, answers: Seq<StoredView>) -> Option<Seq<u8>>
    decreases answers.len(),
{
    if answers.len() == 0 {
        msg
    } else {
        match with_answers(msg, answers.drop_last()) {
            Some(b) => dns_with_answer(b, answers.last().0, CLASS_IN, 0, answers.last().1),
            None => None,
        }
    }
}

/// The response to a query with the header `q` and the questions `qs`,
/// answered by `answers`: it repeats the questions and is NXDOMAIN when
/// nothing answers.
pub open spec fn response_bytes(q: QueryHead, qs: Seq<QuestionView>, answers: Seq<StoredView>) -> Option<Seq<u8>> {
    with_answers(dns_head_bytes(response_header(q, response_code_of(answers)), qs), answers)
}

/// The stored records, by name and content.
pub open spec fn stored_view(v: Seq<(String, RecordData)>) -> Seq<StoredView> {
    v.map_values(|r: (String, RecordData)| (r.0@, record_view(r.1)))
}

fn clone_record(d: &RecordData) -> (r: RecordData)
    ensures
        record_view(r) == record_view(*d),
{
    match d {
        RecordData::A(a) => RecordData::A(*a),
        RecordData::Aaaa(x) => RecordData::Aaaa(*x),
        RecordData::Txt(t) => RecordData::Txt(crate::text::clone_strings(t)),
    }
}

impl DnsRecords {
    fn push_records_of(&self, labels: &Vec<Vec<u8>>, rtype: RecordType, out: &mut Vec<(String, RecordData)>)
        ensures
            stored_view(final(out)@) == stored_view(old(out)@) + records_at(self@, (labels_view(labels@), rtype)),
    {
        proof {
            use_type_invariant(self);
        }
        let ghost k = (labels_view(labels@), rtype);
        let ghost start = stored_view(out@);
        match self.find(labels, rtype) {
            Some(i) => {
                let recs = &self.entries[i].records;
                proof {
                    lemma_index_of_unique(entry_keys(self.entries@), i as int);
                    assert(records_at(self@, k) == stored_view(recs@));
                }
                let mut j: usize = 0;
                while j < recs.len()
                    invariant
                        j <= recs.len(),
                        stored_view(out@) == start + stored_view(recs@.take(j as int)),
                    decreases recs.len() - j,
                {
                    let ghost prev = out@;
                    let d = clone_record(&recs[j].1);
                    out.push((recs[j].0.clone(), d));
                    proof {
                        assert(recs@.take(j + 1) =~= recs@.take(j as int).push(recs@[j as int]));
                        assert(stored_view(out@) =~= stored_view(prev).push((recs@[j as int].0@, record_view(recs@[j as int].1))));
                        assert(stored_view(recs@.take(j + 1)) =~= stored_view(recs@.take(j as int)).push((recs@[j as int].0@, record_view(recs@[j as int].1))));
                    }
                    j = j + 1;
                }
                proof {
                    assert(recs@.take(recs.len() as int) =~= recs@);
                }
            },
            None => {
                proof {
                    assert(records_at(self@, k) =~= Seq::<StoredView>::empty());
                    assert(stored_view(out@) =~= start + Seq::<StoredView>::empty());
                }
            },
        }
    }

    /// The records that answer the questions `qs`, in order: for each, all
    /// records of its lowercased name and its type (none for a type the
    /// server does not hold).
    pub fn answer_records(&self, qs: &Vec<DnsQuestion>) -> (r: Vec<(String, RecordData)>)
        ensures
            stored_view(r@) == answers_of(self@, questions_view(qs@)),
    {
        let mut out: Vec<(String, RecordData)> = Vec::new();
        let mut i: usize = 0;
        while i < qs.len()
            invariant
                i <= qs.len(),
                stored_view(out@) == answers_of(self@, questions_view(qs@.take(i as int))),
            decreases qs.len() - i,
        {
            let ghost q = (labels_view(qs@[i as int].labels@), qs@[i as int].qtype, qs@[i as int].qclass);
            proof {
                assert(questions_view(qs@.take(i + 1)).drop_last() =~= questions_view(qs@.take(i as int)));
                assert(questions_view(qs@.take(i + 1)).last() == q);
            }
            match (lowered(&qs[i].labels), record_type_exec(qs[i].qtype)) {
                (Some(l), Some(t)) => {
                    self.push_records_of(&l, t, &mut out);
                },
                _ => {
                    proof {
                        assert(question_answers(self@, q) =~= Seq::<StoredView>::empty());
                        assert(stored_view(out@) =~= stored_view(out@) + Seq::<StoredView>::empty());
                    }
                },
            }
            i = i + 1;
        }
        proof {
            assert(qs@.take(qs.len() as int) =~= qs@);
        }
        out
    }

    /// The response to the DNS message `buf`: none where it does not decode
    /// or is not a query; else a response with the query's id, op code,
    /// recursion-desired flag and questions, authoritative and without
    /// recursion available, that answers each question with all records of
    /// its lowercased name and type (class IN, TTL 0), and is NXDOMAIN when no
    /// record answers.
    pub fn handle_query(&self, buf: &[u8]) -> (r: Option<Vec<u8>>)
        ensures
            match dns_query_of(buf@) {
                Some((q, qs)) => if q.is_query {
                    match r {
                        Some(b) => response_bytes(q, qs, answers_of(self@, qs)) == Some(b@),
                        None => response_bytes(q, qs, answers_of(self@, qs)) is None,
                    }
                } else {
                    r is None
                },
                None => r is None,
            },
    {
        let (head, qs) = match decode_query(buf) {
            Some(d) => d,
            None => return None,
        };
        if !head.is_query {
            return None;
        }
        let answers = self.answer_records(&qs);
        let ghost av = stored_view(answers@);
        let rcode: u16 = if answers.len() == 0 { 3 } else { 0 };
        let header = DnsHeader {
            id: head.id,
            response: true,
            op_code: head.op_code,
            authoritative: true,
            recursion_desired: head.recursion_desired,
            recursion_available: false,
            rcode,
        };
        proof {
            assert(av.len() == answers@.len());
            assert(response_code_of(av) == rcode);
            assert(header == response_header(head, response_code_of(av)));
        }
        let ghost start = dns_head_bytes(header, questions_view(qs@));
        let mut msg = match encode_head(&header, &qs) {
            Some(b) => b,
            None => {
                proof {
                    lemma_with_answers_none(av);
                }
                return None;
            },
        };
        let mut i: usize = 0;
        while i < answers.len()
            invariant
                i <= answers.len(),
                av == stored_view(answers@),
                dns_query_of(buf@) == Some((head, questions_view(qs@))),
                head.is_query,
                av == answers_of(self@, questions_view(qs@)),
                start == dns_head_bytes(response_header(head, response_code_of(av)), questions_view(qs@)),
                with_answers(start, av.take(i as int)) == Some(msg@),
            decreases answers.len() - i,
        {
            proof {
                assert(av.take(i + 1).drop_last() =~= av.take(i as int));
                assert(av.take(i + 1).last() == (answers@[i as int].0@, record_view(answers@[i as int].1)));
            }
            match with_answer(&msg, answers[i].0.as_str(), CLASS_IN, 0, &answers[i].1) {
                Some(b) => {
                    msg = b;
                },
                None => {
                    proof {
                        lemma_with_answers_stays_none(start, av, i + 1);
                    }
                    return None;
                },
            }
            i = i + 1;
        }
        proof {
            assert(av.take(answers.len() as int) =~= av);
        }
        Some(msg)
    }
}

proof fn lemma_with_answers_none(a: Seq<StoredView>)
    ensures
        with_answers(None, a) is None,
    decreases a.len(),
{
    if a.len() > 0 {
        lemma_with_answers_none(a.drop_last());
    }
}

proof fn lemma_with_answers_stays_none(msg: Option<Seq<u8>>, a: Seq<StoredView>, k: int)
    requires
        0 <= k <= a.len(),
        with_answers(msg, a.take(k)) is None,
    ensures
        with_answers(msg, a) is None,
    decreases a.len() - k,
{
    if k < a.len() {
        assert(a.take(k + 1).drop_last() =~= a.take(k));
        lemma_with_answers_stays_none(msg, a, k + 1);
    } else {
        assert(a.take(k) =~= a);
    }
}

/// A question is answered by the records of its lowercased name and of the
/// type its code names in DNS: code 1 asks for the A records, 28 for the AAAA
/// records and 16 for the TXT records; any other code has no answer here.
pub proof fn law_question_type_codes(m: Map<RecordKey, Seq<StoredView>>, raw: Seq<Seq<u8>>, l: Seq<Seq<u8>>, class: u16, code: u16)
    requires
        dns_lowered(raw) == Some(l),
    ensures
        question_answers(m, (raw, 1, class)) == records_at(m, (l, RecordType::A)),
        question_answers(m, (raw, 28, class)) == records_at(m, (l, RecordType::Aaaa)),
        question_answers(m, (raw, 16, class)) == records_at(m, (l, RecordType::Txt)),
        code != 1 && code != 28 && code != 16 ==> question_answers(m, (raw, code, class)).len() == 0,
{
}

/// A record is visible to DNS queries the instant it is set: after a record
/// is added under a lowercased name and a type, a question whose name
/// lowercases to that name, with that type, is answered with the records held
/// before and then the new one, and the response is not NXDOMAIN.
pub proof fn law_query_after_set(
    m: Map<RecordKey, Seq<StoredView>>,
    q: QuestionView,
    l: Seq<Seq<u8>>,
    sv: StoredView,
)
    requires
        dns_lowered(q.0) == Some(l),
        record_type_of(q.1) is Some,
    ensures
        answers_of(
            m.insert((l, record_type_of(q.1).unwrap()), records_at(m, (l, record_type_of(q.1).unwrap())).push(sv)),
            seq![q],
        ) == records_at(m, (l, record_type_of(q.1).unwrap())).push(sv),
        response_code_of(
            answers_of(
                m.insert((l, record_type_of(q.1).unwrap()), records_at(m, (l, record_type_of(q.1).unwrap())).push(sv)),
                seq![q],
            ),
        ) == 0,
{
    let t = record_type_of(q.1).unwrap();
    let m2 = m.insert((l, t), records_at(m, (l, t)).push(sv));
    let qs = seq![q];
    assert(qs.drop_last() =~= Seq::<QuestionView>::empty());
    assert(qs.last() == q);
    assert(records_at(m2, (l, t)) == records_at(m, (l, t)).push(sv));
    reveal_with_fuel(answers_of, 2);
    assert(answers_of(m2, qs) =~= records_at(m, (l, t)).push(sv));
}

/// A question about a name and type that hold no record, or about a type the
/// server does not hold, has no answer and gets NXDOMAIN.
pub proof fn law_unknown_query_is_nxdomain(m: Map<RecordKey, Seq<StoredView>>, q: QuestionView)
    requires
        match (dns_lowered(q.0), record_type_of(q.1)) {
            (Some(l), Some(t)) => records_at(m, (l, t)).len() == 0,
            _ => true,
        },
    ensures
        answers_of(m, seq![q]).len() == 0,
        response_code_of(answers_of(m, seq![q])) == 3,
{
    let qs = seq![q];
    assert(qs.drop_last() =~= Seq::<QuestionView>::empty());
    assert(qs.last() == q);
    reveal_with_fuel(answers_of, 2);
    assert(answers_of(m, qs) =~= Seq::<StoredView>::empty());
}

} // verus!
