//! The interactive building of an inventory: the user picks a zone, then one
//! of its records, until nothing is left or they stop.
use vstd::prelude::*;
use crate::cloudflare::{Record, Zone};
use crate::filters::records_of_zone;
use crate::inventory::InventoryData;
use crate::text::str_eq;

verus! {

/// The zones and records still on offer, and the pairs chosen so far.
pub struct BuildSession {
    pub zones: Vec<Zone>,
    pub records: Vec<Record>,
    pub data: InventoryData,
}

/// Whether some offered record, other than the one at `skip`, belongs to
/// the zone with ID `zone_id`.
pub open spec fn zone_keeps_records(records: Seq<Record>, zone_id: Seq<char>, skip: int) -> bool {
    exists|j: int| 0 <= j < records.len() && j != skip && records[j].zone_id@ == zone_id
}

impl BuildSession {
    /// A session offering the given zones and records, with nothing chosen.
    pub fn new(zones: Vec<Zone>, records: Vec<Record>) -> (r: BuildSession)
        ensures
            r.zones@ == zones@,
            r.records@ == records@,
            r.data.wf(),
            r.data.view() == Set::<(Seq<char>, Seq<char>)>::empty(),
    {
        BuildSession { zones, records, data: InventoryData::new() }
    }

    /// The positions of the offered records of the zone at `zone`.
    pub fn options(&self, zone: usize) -> (r: Vec<usize>)
        requires
            zone < self.zones@.len(),
        ensures
            forall|t: int| 0 <= t < r@.len() ==> r@[t] < self.records@.len()
                && self.records@[r@[t] as int].zone_id@ == self.zones@[zone as int].id@,
            forall|t: int, u: int| 0 <= t < u < r@.len() ==> r@[t] < r@[u],
            forall|i: int| 0 <= i < self.records@.len() && self.records@[i].zone_id@ == self.zones@[zone as int].id@
                ==> r@.contains(i as usize),
    {
        records_of_zone(&self.records, self.zones[zone].id.as_str())
    }

    /// Whether an offered record other than the one at `skip` belongs to
    /// the zone with ID `zone_id`.
    fn keeps_records(&self, zone_id: &str, skip: usize) -> (r: bool)
        ensures
            r == zone_keeps_records(self.records@, zone_id@, skip as int),
    {
        let mut j: usize = 0;
        while j < self.records.len()
            invariant
                j <= self.records@.len(),
                forall|k: int| 0 <= k < j && k != skip ==> self.records@[k].zone_id@ != zone_id@,
            decreases self.records@.len() - j,
        {
            if j != skip && str_eq(self.records[j].zone_id.as_str(), zone_id) {
                return true;
            }
            j = j + 1;
        }
        false
    }

    /// Adds the record at `record` of the zone at `zone` to the inventory.
    /// The record leaves the offer, and the zone too when that was its last
    /// record.
    pub fn pick(&mut self, zone: usize, record: usize)
        requires
            old(self).data.wf(),
            zone < old(self).zones@.len(),
            record < old(self).records@.len(),
            old(self).records@[record as int].zone_id@ == old(self).zones@[zone as int].id@,
        ensures
            final(self).data.wf(),
            final(self).data.view() == old(self).data.view().insert(
                (old(self).zones@[zone as int].id@, old(self).records@[record as int].id@),
            ),
            final(self).records@ == old(self).records@.remove(record as int),
            final(self).zones@ == if zone_keeps_records(old(self).records@, old(self).zones@[zone as int].id@, record as int) {
                old(self).zones@
            } else {
                old(self).zones@.remove(zone as int)
            },
    {
        let keep_zone = self.keeps_records(self.zones[zone].id.as_str(), record);
        self.data.insert(self.zones[zone].id.as_str(), self.records[record].id.as_str());
        self.records.remove(record);
        if !keep_zone {
            self.zones.remove(zone);
        }
    }

    /// Whether no zone is left to offer.
    pub fn finished(&self) -> (r: bool)
        ensures
            r == (self.zones@.len() == 0),
    {
        self.zones.len() == 0
    }
}

} // verus!
