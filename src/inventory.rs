//! The inventory: the tracked (zone, record) fingerprints.
//!
//! A fingerprint is a provider ID or a human-readable name. The inventory
//! is a set of (zone, record) pairs; a zone is present exactly while at least
//! one of its records is, so removing a zone's last record drops the zone.
use vstd::prelude::*;
use crate::text::str_eq;

verus! {

/// A (zone, record) pair of fingerprints, as character sequences.
pub type Pair = (Seq<char>, Seq<char>);

/// A record fingerprint.
pub struct InventoryRecord(pub String);

/// A zone fingerprint with the record fingerprints tracked under it.
pub struct InventoryZone {
    pub id: String,
    pub records: Vec<InventoryRecord>,
}

/// The tracked (zone, record) pairs, without duplicates.
pub struct InventoryData {
    entries: Vec<(String, String)>,
}

/// Whether `zone` has at least one tracked record in `pairs`.
pub open spec fn has_zone(pairs: Set<Pair>, zone: Seq<char>) -> bool {
    exists|r: Seq<char>| pairs.contains((zone, r))
}

/// The fingerprints of a list of records.
pub open spec fn record_fps(rs: Seq<InventoryRecord>) -> Seq<Seq<char>> {
    rs.map_values(|r: InventoryRecord| r.0@)
}

/// A sequence of string pairs as character sequences.
pub open spec fn pair_views(ps: Seq<(String, String)>) -> Seq<Pair> {
    ps.map_values(|e: (String, String)| (e.0@, e.1@))
}

/// The record fingerprints of a zone entry.
pub open spec fn zone_records(z: InventoryZone) -> Seq<Seq<char>> {
    record_fps(z.records@)
}

/// The pairs that a list of zone entries describes.
pub open spec fn pairs_of_zones(zones: Seq<InventoryZone>) -> Set<Pair> {
    Set::new(
        |p: Pair|
            exists|i: int| 0 <= i < zones.len() && zones[i].id@ == p.0 && zone_records(zones[i]).contains(p.1),
    )
}

/// A grouping of `pairs` by zone: one entry per zone, each with the zone's
/// records, none empty and none repeated.
pub open spec fn is_grouping(zones: Seq<InventoryZone>, pairs: Set<Pair>) -> bool {
    &&& pairs_of_zones(zones) == pairs
    &&& forall|i: int, j: int| 0 <= i < j < zones.len() ==> zones[i].id@ != zones[j].id@
    &&& forall|i: int| 0 <= i < zones.len() ==> zones[i].records@.len() > 0
    &&& forall|i: int| 0 <= i < zones.len() ==> (#[trigger] zone_records(zones[i])).no_duplicates()
}

impl InventoryData {
    /// The tracked pairs, in storage order.
    pub closed spec fn ordered_pairs(&self) -> Seq<Pair> {
        pair_views(self.entries@)
    }

    /// Well-formedness: no pair is stored twice.
    pub open spec fn wf(&self) -> bool {
        self.ordered_pairs().no_duplicates()
    }

    /// The set of tracked pairs.
    pub open spec fn view(&self) -> Set<Pair> {
        self.ordered_pairs().to_set()
    }

    /// The tracked pairs, in storage order.
    pub fn pairs(&self) -> (r: &Vec<(String, String)>)
        ensures
            pair_views(r@) == self.ordered_pairs(),
    {
        &self.entries
    }

    /// An empty inventory.
    pub fn new() -> (r: InventoryData)
        ensures
            r.wf(),
            r.view() == Set::<Pair>::empty(),
    {
        let r = InventoryData { entries: Vec::new() };
        assert(r.view() =~= Set::<Pair>::empty());
        r
    }

    /// The position of a pair among the entries.
    fn position(&self, zone: &str, record: &str) -> (r: Option<usize>)
        ensures
            match r {
                Some(i) => i < self.ordered_pairs().len() && self.ordered_pairs()[i as int] == (zone@, record@),
                None => !self.view().contains((zone@, record@)),
            },
    {
        let mut i: usize = 0;
        while i < self.entries.len()
            invariant
                i <= self.entries@.len(),
                forall|j: int| 0 <= j < i ==> self.ordered_pairs()[j] != (zone@, record@),
            decreases self.entries@.len() - i,
        {
            if str_eq(self.entries[i].0.as_str(), zone) && str_eq(self.entries[i].1.as_str(), record) {
                return Some(i);
            }
            i = i + 1;
        }
        None
    }

    /// Whether the pair (`zone`, `record`) is tracked.
    pub fn contains(&self, zone: &str, record: &str) -> (r: bool)
        ensures
            r == self.view().contains((zone@, record@)),
    {
        match self.position(zone, record) {
            Some(_) => true,
            None => false,
        }
    }

    /// Tracks the pair (`zone`, `record`).
    pub fn insert(&mut self, zone: &str, record: &str)
        requires
            old(self).wf(),
        ensures
            final(self).wf(),
            final(self).view() == old(self).view().insert((zone@, record@)),
    {
        match self.position(zone, record) {
            Some(_) => {
                assert(self.view() =~= self.view().insert((zone@, record@)));
            },
            None => {
                let ghost before = self.ordered_pairs();
                self.entries.push((zone.to_owned(), record.to_owned()));
                assert(self.ordered_pairs() =~= before.push((zone@, record@)));
                let ghost x = (zone@, record@);
                let ghost after = before.push(x);
                assert forall|p: Pair| after.contains(p) <==> before.to_set().insert(x).contains(p) by {
                    if after.contains(p) {
                        let k = choose|k: int| 0 <= k < after.len() && after[k] == p;
                        if k < before.len() {
                            assert(before[k] == p);
                        }
                    }
                    if before.contains(p) {
                        let k = choose|k: int| 0 <= k < before.len() && before[k] == p;
                        assert(after[k] == p);
                    }
                    if p == x {
                        assert(after[before.len() as int] == x);
                    }
                };
                assert(self.view() =~= before.to_set().insert(x));
            },
        }
    }

    /// Stops tracking the pair (`zone`, `record`); true iff it was tracked.
    pub fn remove(&mut self, zone: &str, record: &str) -> (r: bool)
        requires
            old(self).wf(),
        ensures
            final(self).wf(),
            r == old(self).view().contains((zone@, record@)),
            final(self).view() == old(self).view().remove((zone@, record@)),
    {
        match self.position(zone, record) {
            Some(i) => {
                let ghost before = self.ordered_pairs();
                self.entries.remove(i);
                assert(self.ordered_pairs() =~= before.remove(i as int));
                let ghost x = (zone@, record@);
                let ghost after = before.remove(i as int);
                assert forall|p: Pair| after.contains(p) <==> before.to_set().remove(x).contains(p) by {
                    if after.contains(p) {
                        let k = choose|k: int| 0 <= k < after.len() && after[k] == p;
                        if k < i {
                            assert(before[k] == p);
                        } else {
                            assert(before[k + 1] == p);
                        }
                    }
                    if before.contains(p) && p != x {
                        let k = choose|k: int| 0 <= k < before.len() && before[k] == p;
                        if k < i {
                            assert(after[k] == p);
                        } else {
                            assert(k != i);
                            assert(after[k - 1] == p);
                        }
                    }
                };
                assert(self.view() =~= before.to_set().remove(x));
                true
            },
            None => {
                assert(self.view() =~= self.view().remove((zone@, record@)));
                false
            },
        }
    }

    /// The record fingerprints tracked under `zone`, each once.
    fn records_of(&self, zone: &str) -> (r: Vec<InventoryRecord>)
        requires
            self.wf(),
        ensures
            forall|rec: Seq<char>| #[trigger] record_fps(r@).contains(rec)
                <==> self.view().contains((zone@, rec)),
            record_fps(r@).no_duplicates(),
    {
        let ghost ev = self.ordered_pairs();
        let mut out: Vec<InventoryRecord> = Vec::new();
        let mut j: usize = 0;
        while j < self.entries.len()
            invariant
                ev == self.ordered_pairs(),
                ev.no_duplicates(),
                j <= ev.len(),
                forall|rec: Seq<char>| #[trigger] record_fps(out@).contains(rec)
                    <==> ev.subrange(0, j as int).contains((zone@, rec)),
                record_fps(out@).no_duplicates(),
            decreases ev.len() - j,
        {
            let ghost rv = record_fps(out@);
            let ghost pre = ev.subrange(0, j as int);
            assert(ev.subrange(0, j + 1) =~= pre.push(ev[j as int]));
            if str_eq(self.entries[j].0.as_str(), zone) {
                assert(!rv.contains(ev[j as int].1)) by {
                    if rv.contains(ev[j as int].1) {
                        let idx = choose|idx: int| 0 <= idx < pre.len() && pre[idx] == (zone@, ev[j as int].1);
                        assert(ev[idx] == ev[j as int]);
                    }
                };
                out.push(InventoryRecord(self.entries[j].1.clone()));
                assert(record_fps(out@) =~= rv.push(ev[j as int].1));
                assert forall|rec: Seq<char>| #[trigger] record_fps(out@).contains(rec)
                    <==> ev.subrange(0, j + 1).contains((zone@, rec)) by {
                    if rec == ev[j as int].1 {
                        assert(record_fps(out@)[rv.len() as int] == rec);
                        assert(ev.subrange(0, j + 1)[j as int] == (zone@, rec));
                    } else {
                        if rv.contains(rec) {
                            let t = choose|t: int| 0 <= t < rv.len() && rv[t] == rec;
                            assert(record_fps(out@)[t] == rec);
                        }
                        if record_fps(out@).contains(rec) {
                            let t = choose|t: int| 0 <= t < rv.len() + 1 && record_fps(out@)[t] == rec;
                            assert(rv[t] == rec);
                        }
                        if ev.subrange(0, j + 1).contains((zone@, rec)) {
                            let idx = choose|idx: int| 0 <= idx < j + 1 && #[trigger] ev.subrange(0, j + 1)[idx] == (zone@, rec);
                            assert(pre[idx] == (zone@, rec));
                        }
                        if pre.contains((zone@, rec)) {
                            let idx = choose|idx: int| 0 <= idx < j && pre[idx] == (zone@, rec);
                            assert(ev.subrange(0, j + 1)[idx] == (zone@, rec));
                        }
                    }
                };
            } else {
                assert forall|rec: Seq<char>| #[trigger] record_fps(out@).contains(rec)
                    <==> ev.subrange(0, j + 1).contains((zone@, rec)) by {
                    if ev.subrange(0, j + 1).contains((zone@, rec)) {
                        let idx = choose|idx: int| 0 <= idx < j + 1 && #[trigger] ev.subrange(0, j + 1)[idx] == (zone@, rec);
                        assert(pre[idx] == (zone@, rec));
                    }
                    if pre.contains((zone@, rec)) {
                        let idx = choose|idx: int| 0 <= idx < j && pre[idx] == (zone@, rec);
                        assert(ev.subrange(0, j + 1)[idx] == (zone@, rec));
                    }
                };
            }
            j = j + 1;
        }
        assert(ev.subrange(0, j as int) =~= ev);
        out
    }

    /// The inventory grouped by zone: one entry per zone, in order of first
    /// appearance, each with all of its record fingerprints.
    pub fn zones(&self) -> (r: Vec<InventoryZone>)
        requires
            self.wf(),
        ensures
            is_grouping(r@, self.view()),
    {
        let ghost ev = self.ordered_pairs();
        let mut out: Vec<InventoryZone> = Vec::new();
        let mut k: usize = 0;
        while k < self.entries.len()
            invariant
                self.wf(),
                ev == self.ordered_pairs(),
                k <= ev.len(),
                forall|g: int| 0 <= g < out@.len() ==> exists|k2: int| 0 <= k2 < k && ev[k2].0 == (#[trigger] out@[g]).id@,
                forall|g: int, h: int| 0 <= g < h < out@.len() ==> out@[g].id@ != out@[h].id@,
                forall|g: int| 0 <= g < out@.len() ==> (#[trigger] out@[g]).records@.len() > 0,
                forall|g: int| 0 <= g < out@.len() ==> (#[trigger] zone_records(out@[g])).no_duplicates(),
                forall|g: int, rec: Seq<char>| 0 <= g < out@.len() ==>
                    (#[trigger] zone_records(out@[g]).contains(rec) <==> self.view().contains((out@[g].id@, rec))),
                forall|idx: int| 0 <= idx < ev.len() && (exists|k2: int| 0 <= k2 < k && ev[k2].0 == ev[idx].0) ==>
                    exists|g: int| 0 <= g < out@.len() && out@[g].id@ == (#[trigger] ev[idx]).0,
            decreases ev.len() - k,
        {
            let mut seen = false;
            let mut g: usize = 0;
            while g < out.len()
                invariant
                    g <= out@.len(),
                    seen == exists|h: int| 0 <= h < g && out@[h].id@ == ev[k as int].0,
                    ev == self.ordered_pairs(),
                    k < ev.len(),
                decreases out@.len() - g,
            {
                if str_eq(out[g].id.as_str(), self.entries[k].0.as_str()) {
                    seen = true;
                }
                g = g + 1;
            }
            if !seen {
                let ghost z = ev[k as int].0;
                assert forall|k2: int| 0 <= k2 < k implies ev[k2].0 != z by {
                    if ev[k2].0 == z {
                        let gg = choose|gg: int| 0 <= gg < out@.len() && out@[gg].id@ == (#[trigger] ev[k2]).0;
                    }
                };
                let recs = self.records_of(self.entries[k].0.as_str());
                let ghost old_out = out@;
                assert(self.view().contains(ev[k as int]));
                let zone = InventoryZone { id: self.entries[k].0.clone(), records: recs };
                assert(zone_records(zone) =~= record_fps(zone.records@));
                assert(zone_records(zone).contains(ev[k as int].1));
                out.push(zone);
                assert(out@[old_out.len() as int] == zone);
                assert forall|g2: int| 0 <= g2 < out@.len() implies exists|k2: int| 0 <= k2 < k + 1 && ev[k2].0 == (#[trigger] out@[g2]).id@ by {
                    if g2 < old_out.len() {
                        assert(out@[g2] == old_out[g2]);
                        let k2 = choose|k2: int| 0 <= k2 < k && ev[k2].0 == old_out[g2].id@;
                    } else {
                        assert(ev[k as int].0 == out@[g2].id@);
                    }
                };
                assert forall|idx: int| 0 <= idx < ev.len() && (exists|k2: int| 0 <= k2 < k + 1 && ev[k2].0 == ev[idx].0) implies
                    exists|g2: int| 0 <= g2 < out@.len() && out@[g2].id@ == (#[trigger] ev[idx]).0 by {
                    let k2 = choose|k2: int| 0 <= k2 < k + 1 && ev[k2].0 == ev[idx].0;
                    if k2 < k {
                        let g2 = choose|g2: int| 0 <= g2 < old_out.len() && old_out[g2].id@ == ev[idx].0;
                        assert(out@[g2] == old_out[g2]);
                    } else {
                        assert(out@[old_out.len() as int].id@ == ev[idx].0);
                    }
                };
            } else {
                assert forall|idx: int| 0 <= idx < ev.len() && (exists|k2: int| 0 <= k2 < k + 1 && ev[k2].0 == ev[idx].0) implies
                    exists|g2: int| 0 <= g2 < out@.len() && out@[g2].id@ == (#[trigger] ev[idx]).0 by {
                    let k2 = choose|k2: int| 0 <= k2 < k + 1 && ev[k2].0 == ev[idx].0;
                    if k2 == k {
                        let h = choose|h: int| 0 <= h < out@.len() && out@[h].id@ == ev[k as int].0;
                    }
                };
            }
            k = k + 1;
        }
        proof {
            assert forall|p: Pair| pairs_of_zones(out@).contains(p) <==> self.view().contains(p) by {
                if pairs_of_zones(out@).contains(p) {
                    let g = choose|g: int| 0 <= g < out@.len() && out@[g].id@ == p.0 && zone_records(out@[g]).contains(p.1);
                }
                if self.view().contains(p) {
                    let idx = choose|idx: int| 0 <= idx < ev.len() && ev[idx] == p;
                    let g = choose|g: int| 0 <= g < out@.len() && out@[g].id@ == (#[trigger] ev[idx]).0;
                    assert(zone_records(out@[g]).contains(p.1));
                }
            };
            assert(pairs_of_zones(out@) =~= self.view());
        }
        out
    }

    /// An inventory holding exactly the pairs that `zones` describes.
    pub fn from_zones(zones: &Vec<InventoryZone>) -> (r: InventoryData)
        ensures
            r.wf(),
            r.view() == pairs_of_zones(zones@),
    {
        let mut data = InventoryData::new();
        assert(pairs_of_zones(zones@.subrange(0, 0)) =~= Set::<Pair>::empty());
        let mut i: usize = 0;
        while i < zones.len()
            invariant
                i <= zones@.len(),
                data.wf(),
                data.view() == pairs_of_zones(zones@.subrange(0, i as int)),
            decreases zones@.len() - i,
        {
            let zone = &zones[i];
            let ghost before = data.view();
            let mut j: usize = 0;
            while j < zone.records.len()
                invariant
                    j <= zone.records@.len(),
                    *zone == zones@[i as int],
                    data.wf(),
                    data.view() == before.union(
                        Set::new(|p: Pair| p.0 == zone.id@ && record_fps(zone.records@).subrange(0, j as int).contains(p.1)),
                    ),
                decreases zone.records@.len() - j,
            {
                let ghost pre = data.view();
                data.insert(zone.id.as_str(), zone.records[j].0.as_str());
                let ghost fps = record_fps(zone.records@);
                let ghost a = fps.subrange(0, j as int);
                let ghost b = fps.subrange(0, j + 1);
                assert(b =~= a.push(fps[j as int]));
                assert forall|x: Seq<char>| b.contains(x) <==> (a.contains(x) || x == fps[j as int]) by {
                    if b.contains(x) {
                        let k = choose|k: int| 0 <= k < b.len() && b[k] == x;
                        if k < j {
                            assert(a[k] == x);
                        }
                    }
                    if a.contains(x) {
                        let k = choose|k: int| 0 <= k < a.len() && a[k] == x;
                        assert(b[k] == x);
                    }
                    if x == fps[j as int] {
                        assert(b[j as int] == x);
                    }
                };
                assert(data.view() =~= before.union(
                    Set::new(|p: Pair| p.0 == zone.id@ && fps.subrange(0, j + 1).contains(p.1)),
                ));
                j = j + 1;
            }
            let ghost fps = record_fps(zone.records@);
            assert(fps.subrange(0, j as int) =~= fps);
            assert forall|p: Pair| pairs_of_zones(zones@.subrange(0, i + 1)).contains(p)
                <==> data.view().contains(p) by {
                let sub = zones@.subrange(0, i + 1);
                if pairs_of_zones(sub).contains(p) {
                    let k = choose|k: int| 0 <= k < sub.len() && sub[k].id@ == p.0 && zone_records(sub[k]).contains(p.1);
                    if k < i {
                        assert(zones@.subrange(0, i as int)[k] == sub[k]);
                    }
                }
                if before.contains(p) {
                    let sub0 = zones@.subrange(0, i as int);
                    let k = choose|k: int| 0 <= k < sub0.len() && sub0[k].id@ == p.0 && zone_records(sub0[k]).contains(p.1);
                    assert(sub[k] == sub0[k]);
                }
                if data.view().contains(p) && !before.contains(p) {
                    assert(sub[i as int] == *zone);
                }
            };
            assert(pairs_of_zones(zones@.subrange(0, i + 1)) =~= data.view());
            i = i + 1;
        }
        assert(zones@.subrange(0, i as int) =~= zones@);
        data
    }

    /// Whether no pair is tracked.
    pub fn is_empty(&self) -> (r: bool)
        ensures
            r == (self.view() == Set::<Pair>::empty()),
    {
        if self.entries.len() == 0 {
            assert(self.view() =~= Set::<Pair>::empty());
            true
        } else {
            assert(self.view().contains(self.ordered_pairs()[0]));
            false
        }
    }
}

/// Why an inventory could not be had.
pub enum InventoryError {
    /// No inventory file exists at the path.
    NotFound,
    /// The inventory file could not be read as an inventory.
    Malformed(String),
    /// The builder was given no path.
    MissingPath,
    /// The builder was given no data.
    MissingData,
}

/// An inventory and the file it is kept in.
pub struct Inventory {
    pub path: String,
    pub data: InventoryData,
}

/// Builds an `Inventory` from a path and data.
pub struct InventoryBuilder {
    path: Option<String>,
    data: Option<InventoryData>,
}

/// Hands out the zone entries of an inventory one at a time.
pub struct InventoryIter {
    items: Vec<InventoryZone>,
}

impl Inventory {
    /// A builder with neither path nor data.
    pub fn builder() -> (r: InventoryBuilder)
        ensures
            r.path_of() is None,
            r.data_of() is None,
    {
        InventoryBuilder::new()
    }
}

impl InventoryBuilder {
    pub closed spec fn path_of(&self) -> Option<String> {
        self.path
    }

    pub closed spec fn data_of(&self) -> Option<InventoryData> {
        self.data
    }

    /// A builder with neither path nor data.
    pub fn new() -> (r: InventoryBuilder)
        ensures
            r.path_of() is None,
            r.data_of() is None,
    {
        InventoryBuilder { path: None, data: None }
    }

    /// Sets the inventory's path.
    pub fn path(self, path: String) -> (r: InventoryBuilder)
        ensures
            r.path_of() == Some(path),
            r.data_of() == self.data_of(),
    {
        InventoryBuilder { path: Some(path), data: self.data }
    }

    /// Sets the inventory's data.
    pub fn with_data(self, data: InventoryData) -> (r: InventoryBuilder)
        ensures
            r.path_of() == self.path_of(),
            r.data_of() == Some(data),
    {
        InventoryBuilder { path: self.path, data: Some(data) }
    }

    /// The inventory, once both path and data are set.
    pub fn build(self) -> (r: Result<Inventory, InventoryError>)
        ensures
            match (self.path_of(), self.data_of()) {
                (Some(p), Some(d)) => r matches Ok(inv) && inv.path == p && inv.data == d,
                (None, _) => r matches Err(InventoryError::MissingPath),
                (Some(_), None) => r matches Err(InventoryError::MissingData),
            },
    {
        match self.path {
            None => Err(InventoryError::MissingPath),
            Some(path) => match self.data {
                None => Err(InventoryError::MissingData),
                Some(data) => Ok(Inventory { path, data }),
            },
        }
    }
}

impl InventoryIter {
    /// The entries not yet handed out.
    pub closed spec fn remaining(&self) -> Seq<InventoryZone> {
        self.items@
    }

    /// The next zone entry, if any.
    pub fn next(&mut self) -> (r: Option<InventoryZone>)
        ensures
            old(self).remaining().len() == 0 ==> r is None && final(self).remaining() == old(self).remaining(),
            old(self).remaining().len() > 0 ==> r == Some(old(self).remaining()[0])
                && final(self).remaining() == old(self).remaining().drop_first(),
    {
        if self.items.len() == 0 {
            None
        } else {
            let first = self.items.remove(0);
            assert(self.items@ =~= old(self).items@.drop_first());
            Some(first)
        }
    }
}

impl InventoryData {
    /// The zone entries, one at a time.
    pub fn iter(&self) -> (r: InventoryIter)
        requires
            self.wf(),
        ensures
            is_grouping(r.remaining(), self.view()),
    {
        InventoryIter { items: self.zones() }
    }
}

/// Round trip: writing an inventory out as its zone entries, in any order,
/// and reading those entries back gives the same (zone, record) pairs.
pub proof fn lemma_round_trip(data: InventoryData, written: Seq<InventoryZone>, reread: InventoryData)
    requires
        is_grouping(written, data.view()),
        reread.view() == pairs_of_zones(written),
    ensures
        reread.view() == data.view(),
{
}

/// The pairs that zone entries describe do not depend on the order of the
/// entries.
pub proof fn lemma_entry_order_free(written: Seq<InventoryZone>, reordered: Seq<InventoryZone>)
    requires
        written.to_multiset() == reordered.to_multiset(),
    ensures
        pairs_of_zones(written) == pairs_of_zones(reordered),
{
    assert forall|p: Pair| pairs_of_zones(written).contains(p) implies pairs_of_zones(reordered).contains(p) by {
        let i = choose|i: int| 0 <= i < written.len() && written[i].id@ == p.0 && zone_records(written[i]).contains(p.1);
        written.to_multiset_ensures();
        reordered.to_multiset_ensures();
        assert(written.to_multiset().count(written[i]) > 0);
        assert(reordered.contains(written[i]));
        let j = choose|j: int| 0 <= j < reordered.len() && reordered[j] == written[i];
    };
    assert forall|p: Pair| pairs_of_zones(reordered).contains(p) implies pairs_of_zones(written).contains(p) by {
        let i = choose|i: int| 0 <= i < reordered.len() && reordered[i].id@ == p.0 && zone_records(reordered[i]).contains(p.1);
        written.to_multiset_ensures();
        reordered.to_multiset_ensures();
        assert(reordered.to_multiset().count(reordered[i]) > 0);
        assert(written.contains(reordered[i]));
        let j = choose|j: int| 0 <= j < written.len() && written[j] == reordered[i];
    };
    assert(pairs_of_zones(written) =~= pairs_of_zones(reordered));
}

} // verus!
