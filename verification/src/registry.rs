//! The querier dispatcher: a registry of queriers with per-entry
//! availability and last-used stamps, synchronized against the live
//! set each cycle, with round-robin selection over available entries
//! and least-recently-used fallback.

use vstd::prelude::*;

use crate::assoc::{find_key, lemma_find_key_none, lemma_find_key_some};
use crate::node::{NodeMetadata, NodeMetadataV};
use crate::strutil::str_eq;
use vstd::multiset::Multiset;

verus! {

/// Dispatcher-local record for one querier.
#[derive(Debug)]
pub struct QuerierStatus {
    pub metadata: NodeMetadata,
    pub available: bool,
    pub last_used: Option<u64>,
}

/// The mathematical image of a `QuerierStatus`.
#[verifier::ext_equal]
pub struct QuerierStatusV {
    pub metadata: NodeMetadataV,
    pub available: bool,
    pub last_used: Option<u64>,
}

impl View for QuerierStatus {
    type V = QuerierStatusV;

    open spec fn view(&self) -> QuerierStatusV {
        QuerierStatusV {
            metadata: self.metadata@,
            available: self.available,
            last_used: self.last_used,
        }
    }
}

/// The registry rows in specification: domain-keyed statuses.
pub type EntriesV = Seq<(Seq<char>, QuerierStatusV)>;

/// The process-wide querier registry: domain-keyed statuses plus the
/// round-robin pointer to the last domain handed out.
#[derive(Debug)]
pub struct QuerierRegistry {
    pub entries: Vec<(String, QuerierStatus)>,
    pub last_used_querier: Option<String>,
}

/// The mathematical image of the registry.
#[verifier::ext_equal]
pub struct RegistryV {
    pub entries: EntriesV,
    pub last_used_querier: Option<Seq<char>>,
}

impl View for QuerierRegistry {
    type V = RegistryV;

    open spec fn view(&self) -> RegistryV {
        RegistryV {
            entries: self.entries@.map_values(|p: (String, QuerierStatus)| (p.0@, p.1@)),
            last_used_querier: match self.last_used_querier {
                Some(d) => Some(d@),
                None => None,
            },
        }
    }
}

/// Each row is keyed by its own metadata's domain, and no domain
/// repeats.
pub open spec fn entries_wf(entries: EntriesV) -> bool {
    &&& forall|i: int|
        0 <= i < entries.len() ==> (#[trigger] entries[i]).0 == entries[i].1.metadata.domain_name
    &&& forall|i: int, j: int|
        0 <= i < j < entries.len() ==> (#[trigger] entries[i]).0 != (#[trigger] entries[j]).0
}

impl QuerierRegistry {
    /// An empty registry.
    pub fn new() -> (r: QuerierRegistry)
        ensures
            r@.entries == Seq::<(Seq<char>, QuerierStatusV)>::empty(),
            r@.last_used_querier is None,
            entries_wf(r@.entries),
    {
        let r = QuerierRegistry { entries: Vec::new(), last_used_querier: None };
        proof {
            assert(r@.entries =~= Seq::<(Seq<char>, QuerierStatusV)>::empty());
        }
        r
    }

    pub open spec fn wf(self) -> bool {
        entries_wf(self@.entries)
    }
}

/// The views of a live-metadata list.
pub open spec fn lv(live: Seq<NodeMetadata>) -> Seq<NodeMetadataV> {
    live.map_values(|m: NodeMetadata| m@)
}

/// The views of the registry rows.
pub open spec fn ev(entries: Seq<(String, QuerierStatus)>) -> EntriesV {
    entries.map_values(|p: (String, QuerierStatus)| (p.0@, p.1@))
}

/// One live record folded in: an existing row keeps its availability
/// and last-used stamp and only its metadata is overwritten; a new
/// domain enters available and never used.
pub open spec fn upsert(entries: EntriesV, m: NodeMetadataV) -> EntriesV {
    match find_key(entries, m.domain_name) {
        Some(i) => entries.update(
            i,
            (
                m.domain_name,
                QuerierStatusV {
                    metadata: m,
                    available: entries[i].1.available,
                    last_used: entries[i].1.last_used,
                },
            ),
        ),
        None => entries.push(
            (m.domain_name, QuerierStatusV { metadata: m, available: true, last_used: None }),
        ),
    }
}

/// Every live record folded in, left to right.
pub open spec fn upsert_all(entries: EntriesV, live: Seq<NodeMetadataV>) -> EntriesV
    decreases live.len(),
{
    if live.len() == 0 {
        entries
    } else {
        upsert(upsert_all(entries, live.drop_last()), live.last())
    }
}

/// Whether some live record carries domain `d`.
pub open spec fn domain_live(live: Seq<NodeMetadataV>, d: Seq<char>) -> bool {
    exists|i: int| 0 <= i < live.len() && live[i].domain_name == d
}

/// The rows whose domain is still live, in order.
pub open spec fn prune(entries: EntriesV, live: Seq<NodeMetadataV>) -> EntriesV
    decreases entries.len(),
{
    if entries.len() == 0 {
        Seq::empty()
    } else {
        prune(entries.drop_last(), live) + if domain_live(live, entries.last().0) {
            seq![entries.last()]
        } else {
            Seq::empty()
        }
    }
}

/// One synchronization pass: fold in every live record, then drop the
/// rows whose domain was not observed live.
pub open spec fn sync_spec(entries: EntriesV, live: Seq<NodeMetadataV>) -> EntriesV {
    prune(upsert_all(entries, live), live)
}

/// The domains of the available rows, in row order.
pub open spec fn available_domains(entries: EntriesV) -> Seq<Seq<char>>
    decreases entries.len(),
{
    if entries.len() == 0 {
        Seq::empty()
    } else {
        available_domains(entries.drop_last()) + if entries.last().1.available {
            seq![entries.last().0]
        } else {
            Seq::empty()
        }
    }
}

/// The position of `d` in a domain list, if any.
pub open spec fn find_domain(ds: Seq<Seq<char>>, d: Seq<char>) -> Option<int>
    decreases ds.len(),
{
    if ds.len() == 0 {
        None
    } else if ds[0] == d {
        Some(0int)
    } else {
        match find_domain(ds.drop_first(), d) {
            Some(i) => Some(i + 1),
            None => None,
        }
    }
}

proof fn lemma_find_domain_some(ds: Seq<Seq<char>>, d: Seq<char>, i: int)
    requires
        0 <= i < ds.len(),
        ds[i] == d,
        forall|j: int| 0 <= j < i ==> ds[j] != d,
    ensures
        find_domain(ds, d) == Some(i),
    decreases ds.len(),
{
    if i > 0 {
        lemma_find_domain_some(ds.drop_first(), d, i - 1);
    }
}

proof fn lemma_find_domain_none(ds: Seq<Seq<char>>, d: Seq<char>)
    requires
        forall|j: int| 0 <= j < ds.len() ==> ds[j] != d,
    ensures
        find_domain(ds, d) is None,
    decreases ds.len(),
{
    if ds.len() > 0 {
        lemma_find_domain_none(ds.drop_first(), d);
    }
}

proof fn lemma_find_domain_in_range(ds: Seq<Seq<char>>, d: Seq<char>)
    ensures
        find_domain(ds, d) matches Some(i) ==> 0 <= i < ds.len() && ds[i] == d,
    decreases ds.len(),
{
    if ds.len() > 0 && ds[0] != d {
        lemma_find_domain_in_range(ds.drop_first(), d);
    }
}

/// Round-robin choice: the domain after the pointer in the available
/// list, wrapping to the first; the first when the pointer is unset or
/// its domain is no longer available; `None` when nothing is
/// available.
pub open spec fn rr_pick(avail: Seq<Seq<char>>, pointer: Option<Seq<char>>) -> Option<Seq<char>> {
    if avail.len() == 0 {
        None
    } else {
        match pointer {
            Some(d) => match find_domain(avail, d) {
                Some(i) => if i + 1 < avail.len() {
                    Some(avail[i + 1])
                } else {
                    Some(avail[0])
                },
                None => Some(avail[0]),
            },
            None => Some(avail[0]),
        }
    }
}

/// Ordering of last-used stamps with a missing stamp smallest.
pub open spec fn lru_le(a: Option<u64>, b: Option<u64>) -> bool {
    match (a, b) {
        (None, _) => true,
        (Some(x), Some(y)) => x <= y,
        (Some(_), None) => false,
    }
}

/// The first row holding the smallest last-used stamp.
pub open spec fn lru_index(entries: EntriesV) -> int
    decreases entries.len(),
{
    if entries.len() <= 1 {
        0
    } else {
        let rest = 1 + lru_index(entries.drop_first());
        if lru_le(entries[0].1.last_used, entries[rest].1.last_used) {
            0
        } else {
            rest
        }
    }
}

/// LRU correctness: the chosen row is in range, no row holds a smaller
/// stamp, and every earlier row holds a strictly greater one.
pub proof fn lemma_lru_index_minimal(entries: EntriesV)
    requires
        entries.len() > 0,
    ensures
        0 <= lru_index(entries) < entries.len(),
        forall|j: int|
            0 <= j < entries.len() ==> lru_le(
                entries[lru_index(entries)].1.last_used,
                (#[trigger] entries[j]).1.last_used,
            ),
        forall|j: int|
            0 <= j < lru_index(entries) ==> !lru_le(
                (#[trigger] entries[j]).1.last_used,
                entries[lru_index(entries)].1.last_used,
            ),
    decreases entries.len(),
{
    if entries.len() > 1 {
        lemma_lru_index_minimal(entries.drop_first());
        let rest = 1 + lru_index(entries.drop_first());
        assert(forall|j: int|
            1 <= j < entries.len() ==> (#[trigger] entries[j]) == entries.drop_first()[j - 1]);
    }
}

/// Mark a row unavailable and stamp it, by domain.
pub open spec fn set_entry_used(entries: EntriesV, d: Seq<char>, now: u64) -> EntriesV {
    match find_key(entries, d) {
        Some(i) => entries.update(
            i,
            (
                entries[i].0,
                QuerierStatusV {
                    metadata: entries[i].1.metadata,
                    available: false,
                    last_used: Some(now),
                },
            ),
        ),
        None => entries,
    }
}

/// Mark a row available again, by domain; its last-used stamp is kept.
pub open spec fn mark_spec(entries: EntriesV, d: Seq<char>) -> EntriesV {
    match find_key(entries, d) {
        Some(i) => entries.update(
            i,
            (
                entries[i].0,
                QuerierStatusV {
                    metadata: entries[i].1.metadata,
                    available: true,
                    last_used: entries[i].1.last_used,
                },
            ),
        ),
        None => entries,
    }
}

/// The metadata of the row keyed `d`; meaningful only when present.
pub open spec fn entry_metadata(entries: EntriesV, d: Seq<char>) -> NodeMetadataV {
    match find_key(entries, d) {
        Some(i) => entries[i].1.metadata,
        None => arbitrary(),
    }
}

/// The domain an acquire pass hands out, if any: round-robin over the
/// available rows of the synchronized registry, else the
/// least-recently-used row, else nothing.
pub open spec fn acquire_picked(reg: RegistryV, live: Seq<NodeMetadataV>) -> Option<Seq<char>> {
    let synced = sync_spec(reg.entries, live);
    match rr_pick(available_domains(synced), reg.last_used_querier) {
        Some(d) => Some(d),
        None => if synced.len() == 0 {
            None
        } else {
            Some(synced[lru_index(synced)].0)
        },
    }
}

/// The registry after an acquire pass: synchronized, with the chosen
/// row (if any) marked unavailable and stamped; the round-robin
/// pointer moves only when round-robin chose.
pub open spec fn acquire_post(reg: RegistryV, live: Seq<NodeMetadataV>, now: u64) -> RegistryV {
    let synced = sync_spec(reg.entries, live);
    match rr_pick(available_domains(synced), reg.last_used_querier) {
        Some(d) => RegistryV {
            entries: set_entry_used(synced, d, now),
            last_used_querier: Some(d),
        },
        None => if synced.len() == 0 {
            RegistryV { entries: synced, last_used_querier: reg.last_used_querier }
        } else {
            RegistryV {
                entries: set_entry_used(synced, synced[lru_index(synced)].0, now),
                last_used_querier: reg.last_used_querier,
            }
        },
    }
}

/// The metadata an acquire pass returns, if any.
pub open spec fn acquire_result(reg: RegistryV, live: Seq<NodeMetadataV>) -> Option<NodeMetadataV> {
    match acquire_picked(reg, live) {
        Some(d) => Some(entry_metadata(sync_spec(reg.entries, live), d)),
        None => None,
    }
}

/// The view of an optional domain string.
pub open spec fn opt_str_view(o: Option<String>) -> Option<Seq<char>> {
    match o {
        Some(s) => Some(s@),
        None => None,
    }
}

/// The view of an optional metadata record.
pub open spec fn opt_meta_view(o: Option<NodeMetadata>) -> Option<NodeMetadataV> {
    match o {
        Some(m) => Some(m@),
        None => None,
    }
}

/// Fold one live record into the rows.
#[verifier::loop_isolation(false)]
fn upsert_entry(entries: &mut Vec<(String, QuerierStatus)>, m: &NodeMetadata)
    ensures
        ev(final(entries)@) == upsert(ev(old(entries)@), m@),
{
    let n = entries.len();
    for i in 0..n
        invariant
            entries@ == old(entries)@,
            forall|j: int| 0 <= j < i ==> ev(entries@)[j].0 != m@.domain_name,
    {
        if str_eq(entries[i].0.as_str(), m.domain_name.as_str()) {
            let e = &mut entries[i];
            e.1.metadata = m.duplicate();
            proof {
                lemma_find_key_some(ev(old(entries)@), m@.domain_name, i as int);
                assert(ev(entries@) =~~= upsert(ev(old(entries)@), m@));
            }
            return ;
        }
    }
    entries.push(
        (
            m.domain_name.clone(),
            QuerierStatus { metadata: m.duplicate(), available: true, last_used: None },
        ),
    );
    proof {
        lemma_find_key_none(ev(old(entries)@), m@.domain_name);
        assert(ev(entries@) =~~= upsert(ev(old(entries)@), m@));
    }
}

/// Whether some live record carries domain `d`.
#[verifier::loop_isolation(false)]
fn live_contains(live: &Vec<NodeMetadata>, domain: &str) -> (r: bool)
    ensures
        r == domain_live(lv(live@), domain@),
{
    let n = live.len();
    for i in 0..n
        invariant
            forall|j: int| 0 <= j < i ==> lv(live@)[j].domain_name != domain@,
    {
        if str_eq(live[i].domain_name.as_str(), domain) {
            assert(lv(live@)[i as int].domain_name == domain@);
            return true;
        }
    }
    false
}

/// Keep only the rows whose domain is live.
#[verifier::loop_isolation(false)]
fn prune_entries(entries: Vec<(String, QuerierStatus)>, live: &Vec<NodeMetadata>) -> (r: Vec<
    (String, QuerierStatus),
>)
    ensures
        ev(r@) == prune(ev(entries@), lv(live@)),
{
    let ghost orig = ev(entries@);
    let mut remaining = entries;
    let mut kept: Vec<(String, QuerierStatus)> = Vec::new();
    while remaining.len() > 0
        invariant
            remaining@.len() <= orig.len(),
            ev(remaining@) =~= orig.skip(orig.len() - remaining@.len()),
            ev(kept@) == prune(orig.take(orig.len() - remaining@.len()), lv(live@)),
        decreases remaining@.len(),
    {
        let ghost done = orig.len() - remaining@.len();
        let ghost pre = remaining@;
        let e = remaining.remove(0);
        proof {
            assert(remaining@ == pre.remove(0));
            assert(ev(pre) =~= orig.skip(done));
            assert(ev(pre)[0] == (e.0@, e.1@));
            assert((e.0@, e.1@) == orig[done]);
            assert forall|k: int| 0 <= k < ev(remaining@).len() implies ev(remaining@)[k]
                == orig.skip(done + 1)[k] by {
                assert(remaining@[k] == pre[k + 1]);
                assert(ev(pre)[k + 1] == orig.skip(done)[k + 1]);
                assert(orig.skip(done)[k + 1] == orig[done + 1 + k]);
            }
            assert(ev(remaining@) =~= orig.skip(done + 1));
            assert(orig.take(done + 1).drop_last() =~= orig.take(done));
            assert(orig.take(done + 1).last() == orig[done]);
        }
        if live_contains(live, e.0.as_str()) {
            kept.push(e);
        }
        proof {
            assert(ev(kept@) =~= prune(orig.take(done + 1), lv(live@)));
        }
    }
    proof {
        assert(orig.take(orig.len() as int) =~= orig);
    }
    kept
}

impl QuerierRegistry {
    /// Synchronize the registry against the live set: overwrite the
    /// metadata of surviving rows, admit new domains as available and
    /// never used, and drop every row whose domain was not observed
    /// live.  The round-robin pointer is untouched.
    #[verifier::loop_isolation(false)]
    pub fn update_live(&mut self, live: &Vec<NodeMetadata>)
        ensures
            final(self)@.entries == sync_spec(old(self)@.entries, lv(live@)),
            final(self)@.last_used_querier == old(self)@.last_used_querier,
    {
        let n = live.len();
        for i in 0..n
            invariant
                ev(self.entries@) == upsert_all(ev(old(self).entries@), lv(live@).take(i as int)),
                self.last_used_querier == old(self).last_used_querier,
        {
            proof {
                assert(lv(live@).take(i + 1).drop_last() =~= lv(live@).take(i as int));
                assert(lv(live@).take(i + 1).last() == live@[i as int]@);
            }
            upsert_entry(&mut self.entries, &live[i]);
        }
        proof {
            assert(lv(live@).take(n as int) =~= lv(live@));
        }
        let mut tmp: Vec<(String, QuerierStatus)> = Vec::new();
        core::mem::swap(&mut tmp, &mut self.entries);
        let kept = prune_entries(tmp, live);
        self.entries = kept;
    }
}


/// Whether `a` sorts strictly before `b`, a missing stamp first.
fn lru_before(a: &Option<u64>, b: &Option<u64>) -> (r: bool)
    ensures
        r == !lru_le(*b, *a),
{
    match (a, b) {
        (None, Some(_)) => true,
        (Some(x), Some(y)) => *x < *y,
        _ => false,
    }
}

impl QuerierRegistry {
    /// Round-robin selection over the available rows: the domain after
    /// the pointer, wrapping around; the first available domain when
    /// the pointer is unset or stale.  The pointer moves to the chosen
    /// domain; nothing else changes.
    #[verifier::loop_isolation(false)]
    pub fn select_next_querier(&mut self) -> (r: Option<String>)
        ensures
            opt_str_view(r) == rr_pick(
                available_domains(old(self)@.entries),
                old(self)@.last_used_querier,
            ),
            final(self)@.entries == old(self)@.entries,
            final(self)@.last_used_querier == if r is Some {
                opt_str_view(r)
            } else {
                old(self)@.last_used_querier
            },
    {
        let ghost av = available_domains(ev(self.entries@));
        let mut avail: Vec<String> = Vec::new();
        let n = self.entries.len();
        for i in 0..n
            invariant
                self.entries@ == old(self).entries@,
                self.last_used_querier == old(self).last_used_querier,
                avail@.map_values(|s: String| s@) == available_domains(
                    ev(self.entries@).take(i as int),
                ),
        {
            proof {
                assert(ev(self.entries@).take(i + 1).drop_last() =~= ev(self.entries@).take(
                    i as int,
                ));
                assert(ev(self.entries@).take(i + 1).last() == ev(self.entries@)[i as int]);
            }
            if self.entries[i].1.available {
                avail.push(self.entries[i].0.clone());
            }
            proof {
                assert(avail@.map_values(|s: String| s@) =~= available_domains(
                    ev(self.entries@).take(i + 1),
                ));
            }
        }
        proof {
            assert(ev(self.entries@).take(n as int) =~= ev(self.entries@));
        }
        if avail.len() == 0 {
            return None;
        }
        let chosen: String = match &self.last_used_querier {
            Some(last) => {
                let m = avail.len();
                let mut found: Option<usize> = None;
                for i in 0..m
                    invariant
                        self.entries@ == old(self).entries@,
                        self.last_used_querier == old(self).last_used_querier,
                        m == avail@.len(),
                        match found {
                            Some(k) => k < i && av[k as int] == last@ && (forall|j: int|
                                0 <= j < k ==> av[j] != last@),
                            None => forall|j: int| 0 <= j < i ==> av[j] != last@,
                        },
                {
                    if found.is_none() && str_eq(avail[i].as_str(), last.as_str()) {
                        found = Some(i);
                    }
                }
                match found {
                    Some(i) => {
                        proof {
                            lemma_find_domain_some(av, last@, i as int);
                        }
                        if i + 1 < avail.len() {
                            avail[i + 1].clone()
                        } else {
                            avail[0].clone()
                        }
                    },
                    None => {
                        proof {
                            lemma_find_domain_none(av, last@);
                        }
                        avail[0].clone()
                    },
                }
            },
            None => avail[0].clone(),
        };
        self.last_used_querier = Some(chosen.clone());
        Some(chosen)
    }

    /// The least-recently-used row: the first never-used row, else the
    /// first row with the smallest last-used stamp.
    #[verifier::loop_isolation(false)]
    pub fn select_least_recently_used_querier(&self) -> (r: Option<String>)
        ensures
            self@.entries.len() == 0 ==> r is None,
            self@.entries.len() > 0 ==> (r matches Some(d) && d@ == self@.entries[lru_index(
                self@.entries,
            )].0),
    {
        if self.entries.len() == 0 {
            return None;
        }
        let ghost es = ev(self.entries@);
        let mut best: usize = 0;
        let n = self.entries.len();
        for j in 1..n
            invariant
                0 < n == es.len(),
                best < j <= n,
                forall|k: int| 0 <= k < j ==> lru_le(es[best as int].1.last_used, (#[trigger] es[k]).1.last_used),
                forall|k: int| 0 <= k < best ==> !lru_le((#[trigger] es[k]).1.last_used, es[best as int].1.last_used),
        {
            if lru_before(&self.entries[j].1.last_used, &self.entries[best].1.last_used) {
                best = j;
            }
        }
        proof {
            lemma_lru_index_minimal(es);
            let li = lru_index(es);
            if best < li {
                assert(!lru_le(es[best as int].1.last_used, es[li].1.last_used));
                assert(lru_le(es[best as int].1.last_used, es[li].1.last_used));
            }
            if li < best {
                assert(!lru_le(es[li].1.last_used, es[best as int].1.last_used));
                assert(lru_le(es[li].1.last_used, es[best as int].1.last_used));
            }
            assert(best as int == li);
        }
        Some(self.entries[best].0.clone())
    }

    /// Mark a querier available again; its last-used stamp is kept so
    /// LRU fallback preserves history.  A domain no longer present is
    /// ignored.
    #[verifier::loop_isolation(false)]
    pub fn mark_querier_available(&mut self, domain_name: &str)
        ensures
            final(self)@.entries == mark_spec(old(self)@.entries, domain_name@),
            final(self)@.last_used_querier == old(self)@.last_used_querier,
    {
        let n = self.entries.len();
        for i in 0..n
            invariant
                self.entries@ == old(self).entries@,
                self.last_used_querier == old(self).last_used_querier,
                forall|j: int| 0 <= j < i ==> ev(self.entries@)[j].0 != domain_name@,
        {
            if str_eq(self.entries[i].0.as_str(), domain_name) {
                let e = &mut self.entries[i];
                e.1.available = true;
                proof {
                    lemma_find_key_some(ev(old(self).entries@), domain_name@, i as int);
                    assert(ev(self.entries@) =~~= mark_spec(
                        ev(old(self).entries@),
                        domain_name@,
                    ));
                }
                return ;
            }
        }
        proof {
            lemma_find_key_none(ev(self.entries@), domain_name@);
        }
    }

    /// Mark the row keyed `domain` unavailable, stamp it with `now`,
    /// and hand back a copy of its metadata.
    #[verifier::loop_isolation(false)]
    fn take_entry(&mut self, domain: &str, now: u64) -> (r: Option<NodeMetadata>)
        ensures
            final(self)@.entries == set_entry_used(old(self)@.entries, domain@, now),
            final(self)@.last_used_querier == old(self)@.last_used_querier,
            opt_meta_view(r) == match find_key(old(self)@.entries, domain@) {
                Some(i) => Some(old(self)@.entries[i].1.metadata),
                None => None,
            },
    {
        let n = self.entries.len();
        for i in 0..n
            invariant
                self.entries@ == old(self).entries@,
                self.last_used_querier == old(self).last_used_querier,
                forall|j: int| 0 <= j < i ==> ev(self.entries@)[j].0 != domain@,
        {
            if str_eq(self.entries[i].0.as_str(), domain) {
                let e = &mut self.entries[i];
                e.1.available = false;
                e.1.last_used = Some(now);
                let meta = e.1.metadata.duplicate();
                proof {
                    lemma_find_key_some(ev(old(self).entries@), domain@, i as int);
                    assert(ev(self.entries@) =~~= set_entry_used(
                        ev(old(self).entries@),
                        domain@,
                        now,
                    ));
                }
                return Some(meta);
            }
        }
        proof {
            lemma_find_key_none(ev(self.entries@), domain@);
        }
        None
    }
}


proof fn lemma_available_domains_member(entries: EntriesV, d: Seq<char>)
    requires
        available_domains(entries).contains(d),
    ensures
        exists|i: int| 0 <= i < entries.len() && (#[trigger] entries[i]).0 == d,
    decreases entries.len(),
{
    if entries.len() > 0 {
        if entries.last().1.available && entries.last().0 == d {
            assert(entries[entries.len() - 1].0 == d);
        } else {
            let left = available_domains(entries.drop_last());
            let k = choose|k: int| 0 <= k < available_domains(entries).len()
                && available_domains(entries)[k] == d;
            assert(left[k] == d);
            assert(left.contains(d));
            lemma_available_domains_member(entries.drop_last(), d);
            let i = choose|i: int|
                0 <= i < entries.drop_last().len() && (#[trigger] entries.drop_last()[i]).0 == d;
            assert(entries[i].0 == d);
        }
    }
}

proof fn lemma_rr_pick_member(avail: Seq<Seq<char>>, pointer: Option<Seq<char>>)
    ensures
        rr_pick(avail, pointer) matches Some(d) ==> avail.contains(d),
{
    if avail.len() > 0 {
        match pointer {
            Some(p) => {
                lemma_find_domain_in_range(avail, p);
            },
            None => {},
        }
    }
}

impl QuerierRegistry {
    /// One acquire pass: synchronize against the live set, pick a
    /// querier by round-robin over the available rows or fall back to
    /// the least recently used, mark the choice unavailable with the
    /// caller's stamp, and hand back its metadata.  `None` means no
    /// querier is known at all.
    pub fn acquire_querier(&mut self, live: &Vec<NodeMetadata>, now: u64) -> (r: Option<
        NodeMetadata,
    >)
        ensures
            final(self)@ == acquire_post(old(self)@, lv(live@), now),
            opt_meta_view(r) == acquire_result(old(self)@, lv(live@)),
            (r is Some) == (sync_spec(old(self)@.entries, lv(live@)).len() > 0),
    {
        let ghost synced = sync_spec(old(self)@.entries, lv(live@));
        self.update_live(live);
        let picked = self.select_next_querier();
        match picked {
            Some(domain) => {
                proof {
                    lemma_rr_pick_member(available_domains(synced), old(self)@.last_used_querier);
                    lemma_available_domains_member(synced, domain@);
                    crate::assoc::lemma_find_key_exists(synced, domain@);
                }
                let r = self.take_entry(domain.as_str(), now);
                proof {
                    if synced.len() == 0 {
                        assert(available_domains(synced).len() == 0);
                    }
                }
                r
            },
            None => {
                let fallback = self.select_least_recently_used_querier();
                match fallback {
                    Some(domain) => {
                        proof {
                            lemma_lru_index_minimal(synced);
                            assert(synced[lru_index(synced)].0 == domain@);
                            crate::assoc::lemma_find_key_exists(synced, domain@);
                        }
                        let r = self.take_entry(domain.as_str(), now);
                        r
                    },
                    None => None,
                }
            },
        }
    }
}

/// Whether some row carries domain `d`.
pub open spec fn entries_have(entries: EntriesV, d: Seq<char>) -> bool {
    exists|i: int| 0 <= i < entries.len() && (#[trigger] entries[i]).0 == d
}

proof fn lemma_upsert_member(entries: EntriesV, m: NodeMetadataV, d: Seq<char>)
    ensures
        entries_have(upsert(entries, m), d) <==> (entries_have(entries, d) || m.domain_name == d),
{
    crate::assoc::lemma_find_key_in_range(entries, m.domain_name);
    let after = upsert(entries, m);
    match find_key(entries, m.domain_name) {
        Some(i) => {
            assert(forall|j: int|
                0 <= j < entries.len() && j != i ==> (#[trigger] after[j]) == entries[j]);
            assert(after[i].0 == m.domain_name && entries[i].0 == m.domain_name);
            if entries_have(entries, d) {
                let k = choose|k: int|
                    0 <= k < entries.len() && (#[trigger] entries[k]).0 == d;
                assert(after[k].0 == d);
            }
            if entries_have(after, d) {
                let k = choose|k: int| 0 <= k < after.len() && (#[trigger] after[k]).0 == d;
                assert(entries[k].0 == d || d == m.domain_name);
                if d == m.domain_name {
                    assert(entries[i].0 == d);
                }
            }
        },
        None => {
            if entries_have(entries, d) {
                let k = choose|k: int|
                    0 <= k < entries.len() && (#[trigger] entries[k]).0 == d;
                assert(after[k].0 == d);
            }
            if entries_have(after, d) {
                let k = choose|k: int| 0 <= k < after.len() && (#[trigger] after[k]).0 == d;
                if k < entries.len() {
                    assert(entries[k].0 == d);
                } else {
                    assert(d == m.domain_name);
                }
            }
            if m.domain_name == d {
                assert(after[entries.len() as int].0 == d);
            }
        },
    }
}

proof fn lemma_upsert_all_member(entries: EntriesV, live: Seq<NodeMetadataV>, d: Seq<char>)
    ensures
        entries_have(upsert_all(entries, live), d) <==> (entries_have(entries, d) || domain_live(
            live,
            d,
        )),
    decreases live.len(),
{
    if live.len() > 0 {
        lemma_upsert_all_member(entries, live.drop_last(), d);
        lemma_upsert_member(upsert_all(entries, live.drop_last()), live.last(), d);
        if domain_live(live, d) {
            let k = choose|k: int| 0 <= k < live.len() && live[k].domain_name == d;
            if k < live.len() - 1 {
                assert(live.drop_last()[k].domain_name == d);
            }
        }
        if domain_live(live.drop_last(), d) {
            let k = choose|k: int|
                0 <= k < live.drop_last().len() && live.drop_last()[k].domain_name == d;
            assert(live[k].domain_name == d);
        }
        if live.last().domain_name == d {
            assert(live[live.len() - 1].domain_name == d);
        }
    }
}

proof fn lemma_prune_member(entries: EntriesV, live: Seq<NodeMetadataV>, d: Seq<char>)
    ensures
        entries_have(prune(entries, live), d) <==> (entries_have(entries, d) && domain_live(
            live,
            d,
        )),
    decreases entries.len(),
{
    if entries.len() > 0 {
        lemma_prune_member(entries.drop_last(), live, d);
        let left = prune(entries.drop_last(), live);
        let whole = prune(entries, live);
        if entries_have(whole, d) {
            let k = choose|k: int| 0 <= k < whole.len() && (#[trigger] whole[k]).0 == d;
            if k < left.len() {
                assert(left[k].0 == d);
                let j = choose|j: int|
                    0 <= j < entries.drop_last().len() && (#[trigger] entries.drop_last()[j]).0
                        == d;
                assert(entries[j].0 == d);
            } else {
                assert(whole[k] == entries.last());
                assert(entries[entries.len() - 1].0 == d);
            }
        }
        if entries_have(entries, d) && domain_live(live, d) {
            let j = choose|j: int| 0 <= j < entries.len() && (#[trigger] entries[j]).0 == d;
            if j < entries.len() - 1 {
                assert(entries.drop_last()[j].0 == d);
                let k = choose|k: int| 0 <= k < left.len() && (#[trigger] left[k]).0 == d;
                assert(whole[k].0 == d);
            } else {
                assert(domain_live(live, entries.last().0));
                assert(whole[whole.len() - 1] == entries.last());
            }
        }
    }
}

proof fn lemma_set_entry_used_member(entries: EntriesV, u: Seq<char>, now: u64, d: Seq<char>)
    ensures
        entries_have(set_entry_used(entries, u, now), d) <==> entries_have(entries, d),
{
    crate::assoc::lemma_find_key_in_range(entries, u);
    let after = set_entry_used(entries, u, now);
    match find_key(entries, u) {
        Some(i) => {
            assert(forall|j: int|
                0 <= j < entries.len() ==> (#[trigger] after[j]).0 == entries[j].0);
            if entries_have(entries, d) {
                let k = choose|k: int|
                    0 <= k < entries.len() && (#[trigger] entries[k]).0 == d;
                assert(after[k].0 == d);
            }
            if entries_have(after, d) {
                let k = choose|k: int| 0 <= k < after.len() && (#[trigger] after[k]).0 == d;
                assert(entries[k].0 == d);
            }
        },
        None => {},
    }
}

/// Pruning: after an acquire pass the registry holds a domain exactly
/// when that domain was observed live during the pass.
pub proof fn lemma_pruning(reg: RegistryV, live: Seq<NodeMetadataV>, now: u64)
    ensures
        forall|d: Seq<char>|
            #[trigger] entries_have(acquire_post(reg, live, now).entries, d) <==> domain_live(
                live,
                d,
            ),
{
    let synced = sync_spec(reg.entries, live);
    assert forall|d: Seq<char>|
        #[trigger] entries_have(acquire_post(reg, live, now).entries, d) <==> domain_live(
            live,
            d,
        ) by {
        lemma_upsert_all_member(reg.entries, live, d);
        lemma_prune_member(upsert_all(reg.entries, live), live, d);
        match rr_pick(available_domains(synced), reg.last_used_querier) {
            Some(p) => {
                lemma_set_entry_used_member(synced, p, now, d);
            },
            None => {
                if synced.len() > 0 {
                    lemma_set_entry_used_member(synced, synced[lru_index(synced)].0, now, d);
                }
            },
        }
    }
}

/// The number of rows currently handed out.
pub open spec fn unavail_count(entries: EntriesV) -> int
    decreases entries.len(),
{
    if entries.len() == 0 {
        0
    } else {
        unavail_count(entries.drop_last()) + if entries.last().1.available {
            0int
        } else {
            1int
        }
    }
}

/// One step of the dispatcher protocol, as a caller drives it: an
/// acquire pass against an observed live set, or a release.
pub enum DispatcherOp {
    Acquire { live: Seq<NodeMetadataV>, now: u64 },
    MarkAvailable { domain: Seq<char> },
}

/// The registry after one protocol step.
pub open spec fn dispatcher_step(reg: RegistryV, op: DispatcherOp) -> RegistryV {
    match op {
        DispatcherOp::Acquire { live, now } => acquire_post(reg, live, now),
        DispatcherOp::MarkAvailable { domain } => RegistryV {
            entries: mark_spec(reg.entries, domain),
            last_used_querier: reg.last_used_querier,
        },
    }
}

/// The registry after a sequence of protocol steps.
pub open spec fn run_ops(reg: RegistryV, ops: Seq<DispatcherOp>) -> RegistryV
    decreases ops.len(),
{
    if ops.len() == 0 {
        reg
    } else {
        dispatcher_step(run_ops(reg, ops.drop_last()), ops.last())
    }
}

/// The in-flight queries after a sequence of steps: the domains handed
/// out by acquire passes and not yet released.  A release takes one
/// occurrence out; a release for a domain not in flight changes
/// nothing.
pub open spec fn outstanding(reg: RegistryV, ops: Seq<DispatcherOp>) -> Multiset<Seq<char>>
    decreases ops.len(),
{
    if ops.len() == 0 {
        Multiset::empty()
    } else {
        let prev = outstanding(reg, ops.drop_last());
        let state = run_ops(reg, ops.drop_last());
        match ops.last() {
            DispatcherOp::Acquire { live, now } => match acquire_picked(state, live) {
                Some(d) => prev.insert(d),
                None => prev,
            },
            DispatcherOp::MarkAvailable { domain } => if prev.count(domain) > 0 {
                prev.remove(domain)
            } else {
                prev
            },
        }
    }
}

/// Every handed-out row is accounted for by an in-flight query.
pub open spec fn covered(entries: EntriesV, m: Multiset<Seq<char>>) -> bool {
    forall|i: int|
        0 <= i < entries.len() && !(#[trigger] entries[i]).1.available ==> m.count(entries[i].0)
            >= 1
}

proof fn lemma_upsert_wf(entries: EntriesV, m: NodeMetadataV)
    requires
        entries_wf(entries),
    ensures
        entries_wf(upsert(entries, m)),
{
    crate::assoc::lemma_find_key_in_range(entries, m.domain_name);
    let after = upsert(entries, m);
    match find_key(entries, m.domain_name) {
        Some(i) => {
            assert(forall|j: int|
                0 <= j < entries.len() ==> (#[trigger] after[j]).0 == entries[j].0);
        },
        None => {
            crate::assoc::lemma_find_key_none_char(entries, m.domain_name);
        },
    }
}

proof fn lemma_upsert_all_wf(entries: EntriesV, live: Seq<NodeMetadataV>)
    requires
        entries_wf(entries),
    ensures
        entries_wf(upsert_all(entries, live)),
    decreases live.len(),
{
    if live.len() > 0 {
        lemma_upsert_all_wf(entries, live.drop_last());
        lemma_upsert_wf(upsert_all(entries, live.drop_last()), live.last());
    }
}

proof fn lemma_prune_rows(entries: EntriesV, live: Seq<NodeMetadataV>)
    ensures
        forall|i: int|
            0 <= i < prune(entries, live).len() ==> exists|j: int|
                0 <= j < entries.len() && #[trigger] prune(entries, live)[i] == entries[j],
    decreases entries.len(),
{
    if entries.len() > 0 {
        lemma_prune_rows(entries.drop_last(), live);
        let left = prune(entries.drop_last(), live);
        assert forall|i: int| 0 <= i < prune(entries, live).len() implies exists|j: int|
            0 <= j < entries.len() && #[trigger] prune(entries, live)[i] == entries[j] by {
            if i < left.len() {
                assert(prune(entries, live)[i] == left[i]);
                let j = choose|j: int|
                    0 <= j < entries.drop_last().len() && #[trigger] left[i] == entries.drop_last()[j];
                assert(prune(entries, live)[i] == entries[j]);
            } else {
                assert(prune(entries, live)[i] == entries[entries.len() - 1]);
            }
        }
    }
}

proof fn lemma_prune_wf(entries: EntriesV, live: Seq<NodeMetadataV>)
    requires
        entries_wf(entries),
    ensures
        entries_wf(prune(entries, live)),
    decreases entries.len(),
{
    if entries.len() > 0 {
        lemma_prune_wf(entries.drop_last(), live);
        lemma_prune_rows(entries.drop_last(), live);
        let left = prune(entries.drop_last(), live);
        let whole = prune(entries, live);
        assert forall|i: int, j: int| 0 <= i < j < whole.len() implies (#[trigger] whole[i]).0 != (
        #[trigger] whole[j]).0 by {
            if j < left.len() {
                assert(whole[i] == left[i] && whole[j] == left[j]);
            } else {
                assert(whole[j] == entries.last());
                assert(whole[i] == left[i]);
                let k = choose|k: int|
                    0 <= k < entries.drop_last().len() && #[trigger] left[i] == entries.drop_last()[k];
                assert(entries[k].0 != entries[entries.len() - 1].0);
            }
        }
        assert forall|i: int| 0 <= i < whole.len() implies (#[trigger] whole[i]).0
            == whole[i].1.metadata.domain_name by {
            if i < left.len() {
                assert(whole[i] == left[i]);
            } else {
                assert(whole[i] == entries.last());
                assert(entries[entries.len() - 1].0 == entries[entries.len()
                    - 1].1.metadata.domain_name);
            }
        }
    }
}

proof fn lemma_update_row_wf(entries: EntriesV, after: EntriesV)
    requires
        entries_wf(entries),
        after.len() == entries.len(),
        forall|j: int| 0 <= j < entries.len() ==> (#[trigger] after[j]).0 == entries[j].0,
        forall|j: int|
            0 <= j < entries.len() ==> (#[trigger] after[j]).1.metadata
                == entries[j].1.metadata,
    ensures
        entries_wf(after),
{
}

proof fn lemma_set_entry_used_wf(entries: EntriesV, d: Seq<char>, now: u64)
    requires
        entries_wf(entries),
    ensures
        entries_wf(set_entry_used(entries, d, now)),
{
    crate::assoc::lemma_find_key_in_range(entries, d);
    match find_key(entries, d) {
        Some(i) => {
            lemma_update_row_wf(entries, set_entry_used(entries, d, now));
        },
        None => {},
    }
}

proof fn lemma_mark_wf(entries: EntriesV, d: Seq<char>)
    requires
        entries_wf(entries),
    ensures
        entries_wf(mark_spec(entries, d)),
{
    crate::assoc::lemma_find_key_in_range(entries, d);
    match find_key(entries, d) {
        Some(i) => {
            lemma_update_row_wf(entries, mark_spec(entries, d));
        },
        None => {},
    }
}

proof fn lemma_covered_upsert(entries: EntriesV, m: NodeMetadataV, ms: Multiset<Seq<char>>)
    requires
        covered(entries, ms),
    ensures
        covered(upsert(entries, m), ms),
{
    crate::assoc::lemma_find_key_in_range(entries, m.domain_name);
    let after = upsert(entries, m);
    match find_key(entries, m.domain_name) {
        Some(i) => {
            assert forall|k: int| 0 <= k < after.len() && !(#[trigger] after[k]).1.available
                implies ms.count(after[k].0) >= 1 by {
                if k != i {
                    assert(after[k] == entries[k]);
                } else {
                    assert(after[k].0 == entries[i].0);
                    assert(after[k].1.available == entries[i].1.available);
                }
            }
        },
        None => {
            assert forall|k: int| 0 <= k < after.len() && !(#[trigger] after[k]).1.available
                implies ms.count(after[k].0) >= 1 by {
                if k < entries.len() {
                    assert(after[k] == entries[k]);
                }
            }
        },
    }
}

proof fn lemma_covered_upsert_all(entries: EntriesV, live: Seq<NodeMetadataV>, ms: Multiset<Seq<char>>)
    requires
        covered(entries, ms),
    ensures
        covered(upsert_all(entries, live), ms),
    decreases live.len(),
{
    if live.len() > 0 {
        lemma_covered_upsert_all(entries, live.drop_last(), ms);
        lemma_covered_upsert(upsert_all(entries, live.drop_last()), live.last(), ms);
    }
}

proof fn lemma_covered_prune(entries: EntriesV, live: Seq<NodeMetadataV>, ms: Multiset<Seq<char>>)
    requires
        covered(entries, ms),
    ensures
        covered(prune(entries, live), ms),
{
    lemma_prune_rows(entries, live);
    let after = prune(entries, live);
    assert forall|k: int| 0 <= k < after.len() && !(#[trigger] after[k]).1.available implies
        ms.count(after[k].0) >= 1 by {
        let j = choose|j: int| 0 <= j < entries.len() && #[trigger] after[k] == entries[j];
        assert(!entries[j].1.available);
    }
}

proof fn lemma_covered_set_used(entries: EntriesV, d: Seq<char>, now: u64, ms: Multiset<Seq<char>>)
    requires
        covered(entries, ms),
    ensures
        covered(set_entry_used(entries, d, now), ms.insert(d)),
{
    broadcast use vstd::multiset::group_multiset_axioms;

    crate::assoc::lemma_find_key_in_range(entries, d);
    let after = set_entry_used(entries, d, now);
    match find_key(entries, d) {
        Some(i) => {
            assert forall|k: int| 0 <= k < after.len() && !(#[trigger] after[k]).1.available
                implies ms.insert(d).count(after[k].0) >= 1 by {
                if k != i {
                    assert(after[k] == entries[k]);
                } else {
                    assert(after[k].0 == d);
                }
            }
        },
        None => {
            assert forall|k: int| 0 <= k < after.len() && !(#[trigger] after[k]).1.available
                implies ms.insert(d).count(after[k].0) >= 1 by {
                assert(after[k] == entries[k]);
            }
        },
    }
}

proof fn lemma_covered_mark(entries: EntriesV, d: Seq<char>, ms: Multiset<Seq<char>>)
    requires
        covered(entries, ms),
        entries_wf(entries),
    ensures
        covered(
            mark_spec(entries, d),
            if ms.count(d) > 0 {
                ms.remove(d)
            } else {
                ms
            },
        ),
{
    broadcast use vstd::multiset::group_multiset_axioms;

    crate::assoc::lemma_find_key_in_range(entries, d);
    let after = mark_spec(entries, d);
    let ms2 = if ms.count(d) > 0 { ms.remove(d) } else { ms };
    match find_key(entries, d) {
        Some(i) => {
            assert forall|k: int| 0 <= k < after.len() && !(#[trigger] after[k]).1.available
                implies ms2.count(after[k].0) >= 1 by {
                assert(k != i);
                assert(after[k] == entries[k]);
                assert(entries[i].0 == d);
                assert(entries[k].0 != d);
            }
        },
        None => {
            crate::assoc::lemma_find_key_none_char(entries, d);
            assert forall|k: int| 0 <= k < after.len() && !(#[trigger] after[k]).1.available
                implies ms2.count(after[k].0) >= 1 by {
                assert(after[k] == entries[k]);
                assert(entries[k].0 != d);
            }
        },
    }
}

proof fn lemma_unavail_le(entries: EntriesV, ms: Multiset<Seq<char>>)
    requires
        covered(entries, ms),
        forall|i: int, j: int|
            0 <= i < j < entries.len() ==> (#[trigger] entries[i]).0 != (#[trigger] entries[j]).0,
    ensures
        unavail_count(entries) <= ms.len(),
    decreases entries.len(),
{
    broadcast use vstd::multiset::group_multiset_axioms;

    if entries.len() > 0 {
        let rest = entries.drop_last();
        let last = entries.last();
        if last.1.available {
            assert(covered(rest, ms)) by {
                assert(forall|i: int|
                    0 <= i < rest.len() ==> (#[trigger] rest[i]) == entries[i]);
            }
            lemma_unavail_le(rest, ms);
        } else {
            assert(ms.count(last.0) >= 1);
            let ms2 = ms.remove(last.0);
            assert(Multiset::singleton(last.0).subset_of(ms)) by {
                assert(forall|x: Seq<char>|
                    #[trigger] Multiset::singleton(last.0).count(x) <= ms.count(x));
            }
            assert(ms2.len() == ms.len() - 1);
            assert(covered(rest, ms2)) by {
                assert forall|i: int| 0 <= i < rest.len() && !(#[trigger] rest[i]).1.available
                    implies ms2.count(rest[i].0) >= 1 by {
                    assert(rest[i] == entries[i]);
                    assert(entries[i].0 != last.0);
                    assert(ms2.count(entries[i].0) == ms.count(entries[i].0));
                }
            }
            lemma_unavail_le(rest, ms2);
        }
    }
}

proof fn lemma_dispatcher_invariant(reg: RegistryV, ops: Seq<DispatcherOp>)
    requires
        entries_wf(reg.entries),
        forall|i: int| 0 <= i < reg.entries.len() ==> (#[trigger] reg.entries[i]).1.available,
    ensures
        entries_wf(run_ops(reg, ops).entries),
        covered(run_ops(reg, ops).entries, outstanding(reg, ops)),
    decreases ops.len(),
{
    broadcast use vstd::multiset::group_multiset_axioms;

    if ops.len() > 0 {
        lemma_dispatcher_invariant(reg, ops.drop_last());
        let state = run_ops(reg, ops.drop_last());
        let prev = outstanding(reg, ops.drop_last());
        match ops.last() {
            DispatcherOp::Acquire { live, now } => {
                let synced = sync_spec(state.entries, live);
                lemma_covered_upsert_all(state.entries, live, prev);
                lemma_covered_prune(upsert_all(state.entries, live), live, prev);
                lemma_upsert_all_wf(state.entries, live);
                lemma_prune_wf(upsert_all(state.entries, live), live);
                match rr_pick(available_domains(synced), state.last_used_querier) {
                    Some(d) => {
                        lemma_covered_set_used(synced, d, now, prev);
                        lemma_set_entry_used_wf(synced, d, now);
                    },
                    None => {
                        if synced.len() > 0 {
                            lemma_lru_index_minimal(synced);
                            let d = synced[lru_index(synced)].0;
                            lemma_covered_set_used(synced, d, now, prev);
                            lemma_set_entry_used_wf(synced, d, now);
                        }
                    },
                }
            },
            DispatcherOp::MarkAvailable { domain } => {
                lemma_covered_mark(state.entries, domain, prev);
                lemma_mark_wf(state.entries, domain);
            },
        }
    }
}

/// The dispatcher releases on every path: starting from a registry
/// with every row available, after any sequence of acquire and
/// mark-available steps the number of rows held unavailable never
/// exceeds the number of in-flight queries.
pub proof fn lemma_dispatcher_releases(reg: RegistryV, ops: Seq<DispatcherOp>)
    requires
        entries_wf(reg.entries),
        forall|i: int| 0 <= i < reg.entries.len() ==> (#[trigger] reg.entries[i]).1.available,
    ensures
        unavail_count(run_ops(reg, ops).entries) <= outstanding(reg, ops).len(),
{
    lemma_dispatcher_invariant(reg, ops);
    lemma_unavail_le(run_ops(reg, ops).entries, outstanding(reg, ops));
}

/// Under a well-formed registry the available-domain list never
/// repeats a domain.
pub proof fn lemma_available_no_duplicates(entries: EntriesV)
    requires
        entries_wf(entries),
    ensures
        available_domains(entries).no_duplicates(),
    decreases entries.len(),
{
    if entries.len() > 0 {
        assert(entries_wf(entries.drop_last())) by {
            assert(forall|i: int|
                0 <= i < entries.len() - 1 ==> (#[trigger] entries.drop_last()[i]) == entries[i]);
        }
        lemma_available_no_duplicates(entries.drop_last());
        let left = available_domains(entries.drop_last());
        let whole = available_domains(entries);
        if entries.last().1.available {
            assert forall|i: int, j: int| 0 <= i < j < whole.len() implies whole[i] != whole[j] by {
                if j < left.len() {
                    assert(whole[i] == left[i] && whole[j] == left[j]);
                } else {
                    assert(whole[j] == entries.last().0);
                    assert(whole[i] == left[i]);
                    assert(left.contains(left[i]));
                    lemma_available_domains_member(entries.drop_last(), left[i]);
                    let k = choose|k: int|
                        0 <= k < entries.drop_last().len() && (#[trigger] entries.drop_last()[
                        k]).0 == left[i];
                    assert(entries[k].0 != entries[entries.len() - 1].0);
                }
            }
        }
    }
}

/// The index after `i`, wrapping around a list of length `n`.
pub open spec fn next_idx(n: int, i: int) -> int {
    if i + 1 < n {
        i + 1
    } else {
        0
    }
}

/// The selections of `k` successive acquire-and-release cycles over a
/// fixed available list: each cycle picks by round-robin and moves the
/// pointer to its pick.
pub open spec fn rr_cycle(avail: Seq<Seq<char>>, pointer: Option<Seq<char>>, k: nat) -> Seq<
    Seq<char>,
>
    decreases k,
{
    if k == 0 {
        Seq::empty()
    } else {
        match rr_pick(avail, pointer) {
            Some(d) => seq![d] + rr_cycle(avail, Some(d), (k - 1) as nat),
            None => Seq::empty(),
        }
    }
}

/// `k` entries of the list read forward from `start`, wrapping.
pub open spec fn rot_seg(avail: Seq<Seq<char>>, start: int, k: nat) -> Seq<Seq<char>>
    decreases k,
{
    if k == 0 {
        Seq::empty()
    } else {
        seq![avail[start]] + rot_seg(avail, next_idx(avail.len() as int, start), (k - 1) as nat)
    }
}

proof fn lemma_rr_pick_at(avail: Seq<Seq<char>>, i: int)
    requires
        avail.no_duplicates(),
        0 <= i < avail.len(),
    ensures
        rr_pick(avail, Some(avail[i])) == Some(avail[next_idx(avail.len() as int, i)]),
{
    lemma_find_domain_some(avail, avail[i], i);
}

proof fn lemma_rr_cycle_rot(avail: Seq<Seq<char>>, i: int, k: nat)
    requires
        avail.no_duplicates(),
        0 <= i < avail.len(),
    ensures
        rr_cycle(avail, Some(avail[i]), k) == rot_seg(
            avail,
            next_idx(avail.len() as int, i),
            k,
        ),
    decreases k,
{
    if k > 0 {
        lemma_rr_pick_at(avail, i);
        let n = avail.len() as int;
        lemma_rr_cycle_rot(avail, next_idx(n, i), (k - 1) as nat);
    }
}

proof fn lemma_rot_seg_no_wrap(avail: Seq<Seq<char>>, start: int, k: nat)
    requires
        0 <= start,
        start + k <= avail.len(),
    ensures
        rot_seg(avail, start, k) =~= avail.subrange(start, start + k),
    decreases k,
{
    if k > 0 {
        let n = avail.len() as int;
        if start + 1 < n {
            lemma_rot_seg_no_wrap(avail, start + 1, (k - 1) as nat);
            assert(rot_seg(avail, start + 1, (k - 1) as nat) == avail.subrange(
                start + 1,
                start + k,
            ));
            assert(rot_seg(avail, start, k) == seq![avail[start]] + avail.subrange(
                start + 1,
                start + k,
            ));
            assert(seq![avail[start]] + avail.subrange(start + 1, start + k) =~= avail.subrange(
                start,
                start + k,
            ));
        } else {
            assert(k == 1);
            assert(rot_seg(avail, next_idx(n, start), 0nat) == Seq::<Seq<char>>::empty());
            assert(rot_seg(avail, start, k) == seq![avail[start]] + Seq::<Seq<char>>::empty());
            assert(seq![avail[start]] + Seq::<Seq<char>>::empty() =~= avail.subrange(
                start,
                start + 1,
            ));
        }
    }
}

proof fn lemma_rot_seg_wrap(avail: Seq<Seq<char>>, start: int, k: nat)
    requires
        0 <= start < avail.len(),
        avail.len() - start <= k <= avail.len(),
    ensures
        rot_seg(avail, start, k) =~= avail.subrange(start, avail.len() as int) + avail.subrange(
            0,
            k - (avail.len() - start),
        ),
    decreases k,
{
    let n = avail.len() as int;
    if k > 0 {
        if start + 1 < n {
            if n - (start + 1) <= k - 1 {
                lemma_rot_seg_wrap(avail, start + 1, (k - 1) as nat);
            } else {
                lemma_rot_seg_no_wrap(avail, start + 1, (k - 1) as nat);
            }
        } else {
            lemma_rot_seg_no_wrap(avail, 0, (k - 1) as nat);
        }
    }
}

/// Round-robin fairness: with the pointer on one of N distinct
/// available queriers, N successive acquire-and-release cycles select
/// every querier exactly once.
pub proof fn lemma_round_robin_fairness(avail: Seq<Seq<char>>, i: int)
    requires
        avail.no_duplicates(),
        0 <= i < avail.len(),
    ensures
        rr_cycle(avail, Some(avail[i]), avail.len() as nat).to_multiset()
            == avail.to_multiset(),
        rr_cycle(avail, Some(avail[i]), avail.len() as nat).no_duplicates(),
{
    let n = avail.len() as int;
    let s = next_idx(n, i);
    let cyc = rr_cycle(avail, Some(avail[i]), avail.len() as nat);
    lemma_rr_cycle_rot(avail, i, avail.len() as nat);
    lemma_rot_seg_wrap(avail, s, avail.len() as nat);
    assert(cyc =~= avail.subrange(s, n) + avail.subrange(0, s));
    vstd::seq_lib::lemma_multiset_commutative(avail.subrange(s, n), avail.subrange(0, s));
    vstd::seq_lib::lemma_multiset_commutative(avail.subrange(0, s), avail.subrange(s, n));
    assert(avail =~= avail.subrange(0, s) + avail.subrange(s, n));
    assert(cyc.to_multiset() =~= avail.to_multiset());
    avail.lemma_multiset_has_no_duplicates();
    cyc.lemma_multiset_has_no_duplicates_conv();
}

/// Round-robin from an unset pointer: N cycles walk the available list
/// in order, selecting every querier exactly once.
pub proof fn lemma_round_robin_fairness_fresh(avail: Seq<Seq<char>>)
    requires
        avail.no_duplicates(),
    ensures
        rr_cycle(avail, None, avail.len() as nat) == avail,
{
    if avail.len() > 0 {
        let n = avail.len() as int;
        lemma_rr_cycle_rot(avail, 0, (avail.len() - 1) as nat);
        lemma_rot_seg_no_wrap(avail, 1, (avail.len() - 1) as nat);
        assert(rr_cycle(avail, None, avail.len() as nat) =~= avail);
    } else {
        assert(rr_cycle(avail, None, 0) =~= avail);
    }
}

/// Map the dispatcher's empty outcome to its typed error: with no
/// querier known at all the query fails as `NoAvailableQuerier`.
pub fn querier_or_error(picked: Option<NodeMetadata>) -> (r: Result<NodeMetadata, crate::errors::ClusterError>)
    ensures
        picked matches Some(m) ==> (r matches Ok(m2) && m2 == m),
        (picked is None) ==> (r matches Err(crate::errors::ClusterError::NoAvailableQuerier)),
{
    match picked {
        Some(m) => Ok(m),
        None => Err(crate::errors::ClusterError::NoAvailableQuerier),
    }
}

proof fn lemma_available_domains_same_shape(a: EntriesV, b: EntriesV)
    requires
        a.len() == b.len(),
        forall|i: int| 0 <= i < a.len() ==> (#[trigger] a[i]).0 == b[i].0,
        forall|i: int| 0 <= i < a.len() ==> (#[trigger] a[i]).1.available == b[i].1.available,
    ensures
        available_domains(a) == available_domains(b),
    decreases a.len(),
{
    if a.len() > 0 {
        assert(forall|i: int| 0 <= i < a.len() - 1 ==> (#[trigger] a.drop_last()[i]) == a[i]);
        assert(forall|i: int| 0 <= i < b.len() - 1 ==> (#[trigger] b.drop_last()[i]) == b[i]);
        lemma_available_domains_same_shape(a.drop_last(), b.drop_last());
    }
}

/// One stable acquire-and-release cycle: when the registry is already
/// synchronized with the live set and every querier is available, the
/// acquire pass picks exactly the round-robin choice, and after the
/// release the registry again has every querier available, the same
/// domains in the same order, and the pointer on the pick.  Together
/// with `lemma_round_robin_fairness` this makes repeated cycles walk
/// `rr_cycle`.
pub proof fn lemma_stable_cycle(reg: RegistryV, live: Seq<NodeMetadataV>, now: u64)
    requires
        entries_wf(reg.entries),
        sync_spec(reg.entries, live) == reg.entries,
        forall|i: int| 0 <= i < reg.entries.len() ==> (#[trigger] reg.entries[i]).1.available,
        reg.entries.len() > 0,
    ensures
        acquire_picked(reg, live) == rr_pick(
            available_domains(reg.entries),
            reg.last_used_querier,
        ),
        (acquire_picked(reg, live) matches Some(d) ==> {
            let released = RegistryV {
                entries: mark_spec(acquire_post(reg, live, now).entries, d),
                last_used_querier: acquire_post(reg, live, now).last_used_querier,
            };
            &&& entries_wf(released.entries)
            &&& released.entries.len() == reg.entries.len()
            &&& (forall|i: int|
                0 <= i < released.entries.len() ==> (#[trigger] released.entries[i]).0
                    == reg.entries[i].0)
            &&& (forall|i: int|
                0 <= i < released.entries.len() ==> (
                #[trigger] released.entries[i]).1.available)
            &&& released.last_used_querier == Some(d)
            &&& available_domains(released.entries) == available_domains(reg.entries)
        }),
{
    let synced = sync_spec(reg.entries, live);
    let avail = available_domains(synced);
    assert(avail.len() > 0) by {
        assert(synced[synced.len() - 1].1.available);
        lemma_available_last_contributes(synced);
    }
    match rr_pick(avail, reg.last_used_querier) {
        Some(d) => {
            lemma_rr_pick_member(avail, reg.last_used_querier);
            lemma_available_domains_member(synced, d);
            crate::assoc::lemma_find_key_exists(synced, d);
            crate::assoc::lemma_find_key_in_range(synced, d);
            let taken = set_entry_used(synced, d, now);
            crate::assoc::lemma_find_key_in_range(taken, d);
            let i = find_key(synced, d)->Some_0;
            assert(forall|j: int| 0 <= j < taken.len() ==> (#[trigger] taken[j]).0 == synced[j].0);
            assert(taken[i].0 == d);
            crate::assoc::lemma_find_key_exists(taken, d);
            let i2 = find_key(taken, d)->Some_0;
            assert(taken[i2].0 == d && synced[i].0 == d);
            assert(i == i2) by {
                if i < i2 {
                    assert(synced[i].0 != synced[i2].0);
                }
                if i2 < i {
                    crate::assoc::lemma_find_key_in_range(synced, d);
                }
            }
            let released = mark_spec(taken, d);
            lemma_set_entry_used_wf(synced, d, now);
            lemma_mark_wf(taken, d);
            assert(forall|j: int|
                0 <= j < released.len() ==> (#[trigger] released[j]).0 == synced[j].0);
            assert(forall|j: int|
                0 <= j < released.len() ==> (#[trigger] released[j]).1.available);
            lemma_available_domains_same_shape(released, synced);
        },
        None => {
            assert(false);
        },
    }
}

proof fn lemma_available_last_contributes(entries: EntriesV)
    requires
        entries.len() > 0,
        entries.last().1.available,
    ensures
        available_domains(entries).len() > 0,
{
}

} // verus!
