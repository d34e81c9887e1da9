//! Classification of tracked pairs against a live snapshot of records.
use vstd::prelude::*;
use crate::cloudflare::Record;
use crate::inventory::{InventoryData, Pair, pair_views};
use crate::text::str_eq;

verus! {

/// The family of an address record.
#[derive(PartialEq, Eq, Structural, Clone, Copy, Debug)]
pub enum AddressFamily {
    V4,
    V6,
}

/// Why a reconciliation pass could not finish.
pub enum ReconcileError {
    /// The public address of this family was needed but is not known.
    AddressUnavailable(AddressFamily),
    /// A tracked record has a type other than `A` or `AAAA`.
    UnsupportedRecordType(String),
}

/// What a reconciliation pass stops on, as a specification value.
pub enum Fault {
    AddressUnavailable(AddressFamily),
    UnsupportedRecordType(Seq<char>),
}

/// The three partitions of a pass, as a specification value.
pub struct Partition {
    pub valid: Seq<Record>,
    pub outdated: Seq<Record>,
    pub invalid: Seq<Pair>,
}

/// The outcome of a reconciliation pass: live records whose content equals
/// the expected address, live records whose content differs, and tracked
/// pairs with no live record.
pub struct CheckResult {
    pub valid: Vec<Record>,
    pub outdated: Vec<Record>,
    pub invalid: Vec<(String, String)>,
}

impl ReconcileError {
    pub open spec fn view(&self) -> Fault {
        match self {
            ReconcileError::AddressUnavailable(f) => Fault::AddressUnavailable(*f),
            ReconcileError::UnsupportedRecordType(t) => Fault::UnsupportedRecordType(t@),
        }
    }
}

impl CheckResult {
    pub open spec fn view(&self) -> Partition {
        Partition { valid: self.valid@, outdated: self.outdated@, invalid: pair_views(self.invalid@) }
    }
}

/// A live record answers a tracked pair when its zone ID or zone name equals
/// the zone fingerprint and its ID or name equals the record fingerprint.
pub open spec fn answers(r: Record, p: Pair) -> bool {
    &&& (r.zone_id@ == p.0 || r.zone_name@ == p.0)
    &&& (r.id@ == p.1 || r.name@ == p.1)
}

/// The index of the first live record that answers `p`.
pub open spec fn first_answer(recs: Seq<Record>, p: Pair) -> Option<int>
    decreases recs.len(),
{
    if recs.len() == 0 {
        None
    } else {
        match first_answer(recs.drop_last(), p) {
            Some(i) => Some(i),
            None => if answers(recs.last(), p) {
                Some(recs.len() - 1)
            } else {
                None
            },
        }
    }
}

/// The address family of a record type, if it is an address type.
pub open spec fn family_of(record_type: Seq<char>) -> Option<AddressFamily> {
    if record_type == "A"@ {
        Some(AddressFamily::V4)
    } else if record_type == "AAAA"@ {
        Some(AddressFamily::V6)
    } else {
        None
    }
}

/// The host's address of a family, if known.
pub open spec fn address_of(f: AddressFamily, v4: Option<Seq<char>>, v6: Option<Seq<char>>) -> Option<Seq<char>> {
    match f {
        AddressFamily::V4 => v4,
        AddressFamily::V6 => v6,
    }
}

/// One tracked pair added to a partition.
pub open spec fn classify_one(
    part: Partition,
    p: Pair,
    recs: Seq<Record>,
    v4: Option<Seq<char>>,
    v6: Option<Seq<char>>,
) -> Result<Partition, Fault> {
    match first_answer(recs, p) {
        None => Ok(Partition { invalid: part.invalid.push(p), ..part }),
        Some(i) => {
            let r = recs[i];
            match family_of(r.record_type@) {
                None => Err(Fault::UnsupportedRecordType(r.record_type@)),
                Some(f) => match address_of(f, v4, v6) {
                    None => Err(Fault::AddressUnavailable(f)),
                    Some(a) => if r.content@ == a {
                        Ok(Partition { valid: part.valid.push(r), ..part })
                    } else {
                        Ok(Partition { outdated: part.outdated.push(r), ..part })
                    },
                },
            }
        },
    }
}

/// The classification of the tracked pairs, in order, against the live
/// records; it stops at the first pair that cannot be classified.
pub open spec fn classify(
    pairs: Seq<Pair>,
    recs: Seq<Record>,
    v4: Option<Seq<char>>,
    v6: Option<Seq<char>>,
) -> Result<Partition, Fault>
    decreases pairs.len(),
{
    if pairs.len() == 0 {
        Ok(Partition { valid: Seq::empty(), outdated: Seq::empty(), invalid: Seq::empty() })
    } else {
        match classify(pairs.drop_last(), recs, v4, v6) {
            Err(e) => Err(e),
            Ok(part) => classify_one(part, pairs.last(), recs, v4, v6),
        }
    }
}

/// A string option as an option of character sequences.
pub open spec fn opt_view(o: Option<String>) -> Option<Seq<char>> {
    match o {
        Some(s) => Some(s@),
        None => None,
    }
}

proof fn lemma_first_answer_extends(recs: Seq<Record>, p: Pair, n: int)
    requires
        0 <= n <= recs.len(),
        first_answer(recs.subrange(0, n), p) is Some,
    ensures
        first_answer(recs, p) == first_answer(recs.subrange(0, n), p),
    decreases recs.len() - n,
{
    if n < recs.len() {
        assert(recs.subrange(0, n + 1).drop_last() =~= recs.subrange(0, n));
        lemma_first_answer_extends(recs, p, n + 1);
    } else {
        assert(recs.subrange(0, n) =~= recs);
    }
}

proof fn lemma_first_answer_bounds(recs: Seq<Record>, p: Pair)
    ensures
        match first_answer(recs, p) {
            Some(i) => 0 <= i < recs.len() && answers(recs[i], p),
            None => true,
        },
    decreases recs.len(),
{
    if recs.len() > 0 {
        lemma_first_answer_bounds(recs.drop_last(), p);
    }
}

proof fn lemma_classify_err_extends(pairs: Seq<Pair>, recs: Seq<Record>, v4: Option<Seq<char>>, v6: Option<Seq<char>>, n: int)
    requires
        0 <= n <= pairs.len(),
        classify(pairs.subrange(0, n), recs, v4, v6) is Err,
    ensures
        classify(pairs, recs, v4, v6) == classify(pairs.subrange(0, n), recs, v4, v6),
    decreases pairs.len() - n,
{
    if n < pairs.len() {
        assert(pairs.subrange(0, n + 1).drop_last() =~= pairs.subrange(0, n));
        lemma_classify_err_extends(pairs, recs, v4, v6, n + 1);
    } else {
        assert(pairs.subrange(0, n) =~= pairs);
    }
}

/// Finds the first live record that answers the tracked pair.
pub fn find_answer(recs: &Vec<Record>, zone: &str, record: &str) -> (r: Option<usize>)
    ensures
        match r {
            Some(i) => first_answer(recs@, (zone@, record@)) == Some(i as int),
            None => first_answer(recs@, (zone@, record@)) is None,
        },
{
    let ghost p = (zone@, record@);
    let mut i: usize = 0;
    while i < recs.len()
        invariant
            i <= recs@.len(),
            p == (zone@, record@),
            first_answer(recs@.subrange(0, i as int), p) is None,
        decreases recs@.len() - i,
    {
        let r = &recs[i];
        assert(recs@.subrange(0, i + 1).drop_last() =~= recs@.subrange(0, i as int));
        assert(recs@.subrange(0, i + 1).last() == recs@[i as int]);
        let zone_ok = str_eq(r.zone_id.as_str(), zone) || str_eq(r.zone_name.as_str(), zone);
        let record_ok = str_eq(r.id.as_str(), record) || str_eq(r.name.as_str(), record);
        if zone_ok && record_ok {
            proof {
                assert(answers(recs@[i as int], p));
                assert(first_answer(recs@.subrange(0, i + 1), p) == Some(i as int));
                lemma_first_answer_extends(recs@, p, i + 1);
            }
            return Some(i);
        }
        i = i + 1;
    }
    assert(recs@.subrange(0, i as int) =~= recs@);
    None
}

/// The address family of a record type; `None` for other types.
pub fn family_of_type(record_type: &str) -> (r: Option<AddressFamily>)
    ensures
        r == family_of(record_type@),
{
    if str_eq(record_type, "A") {
        Some(AddressFamily::V4)
    } else if str_eq(record_type, "AAAA") {
        Some(AddressFamily::V6)
    } else {
        None
    }
}

/// Classifies every tracked pair of `inventory`, in storage order, against
/// the live records, comparing contents with the host's addresses.
///
/// A pair with no live record is invalid; a live record whose content equals
/// the address of its family is valid, any other is outdated. The pass stops
/// with an error at the first live record whose type is not an address type,
/// or whose family's address is not known.
pub fn check(
    inventory: &InventoryData,
    records: &Vec<Record>,
    ipv4: &Option<String>,
    ipv6: &Option<String>,
) -> (r: Result<CheckResult, ReconcileError>)
    ensures
        match (r, classify(inventory.ordered_pairs(), records@, opt_view(*ipv4), opt_view(*ipv6))) {
            (Ok(c), Ok(part)) => c.view() == part,
            (Err(e), Err(fault)) => e.view() == fault,
            _ => false,
        },
{
    let pairs = inventory.pairs();
    let ghost ps = inventory.ordered_pairs();
    let ghost v4 = opt_view(*ipv4);
    let ghost v6 = opt_view(*ipv6);
    let mut res = CheckResult { valid: Vec::new(), outdated: Vec::new(), invalid: Vec::new() };
    assert(res.view().invalid =~= Seq::<Pair>::empty());
    let mut k: usize = 0;
    while k < pairs.len()
        invariant
            pair_views(pairs@) == ps,
            ps == inventory.ordered_pairs(),
            k <= ps.len(),
            v4 == opt_view(*ipv4),
            v6 == opt_view(*ipv6),
            classify(ps.subrange(0, k as int), records@, v4, v6) == Ok::<Partition, Fault>(res.view()),
        decreases ps.len() - k,
    {
        let ghost before = res.view();
        let zone = &pairs[k].0;
        let record = &pairs[k].1;
        assert(ps.subrange(0, k + 1).drop_last() =~= ps.subrange(0, k as int));
        assert(ps.subrange(0, k + 1).last() == (zone@, record@));
        match find_answer(records, zone.as_str(), record.as_str()) {
            None => {
                res.invalid.push((zone.clone(), record.clone()));
                assert(res.view().invalid =~= before.invalid.push((zone@, record@)));
            },
            Some(i) => {
                proof {
                    lemma_first_answer_bounds(records@, (zone@, record@));
                }
                let live = &records[i];
                match family_of_type(live.record_type.as_str()) {
                    None => {
                        proof {
                            assert(classify_one(before, (zone@, record@), records@, v4, v6)
                                == Err::<Partition, Fault>(Fault::UnsupportedRecordType(live.record_type@)));
                            assert(classify(ps.subrange(0, k + 1), records@, v4, v6)
                                == Err::<Partition, Fault>(Fault::UnsupportedRecordType(live.record_type@)));
                            lemma_classify_err_extends(ps, records@, v4, v6, k + 1);
                        }
                        return Err(ReconcileError::UnsupportedRecordType(live.record_type.clone()));
                    },
                    Some(f) => {
                        let addr = match f {
                            AddressFamily::V4 => ipv4,
                            AddressFamily::V6 => ipv6,
                        };
                        match addr {
                            None => {
                                proof {
                                    assert(address_of(f, v4, v6) is None);
                                    assert(classify_one(before, (zone@, record@), records@, v4, v6)
                                        == Err::<Partition, Fault>(Fault::AddressUnavailable(f)));
                                    assert(classify(ps.subrange(0, k + 1), records@, v4, v6)
                                        == Err::<Partition, Fault>(Fault::AddressUnavailable(f)));
                                    lemma_classify_err_extends(ps, records@, v4, v6, k + 1);
                                }
                                return Err(ReconcileError::AddressUnavailable(f));
                            },
                            Some(a) => {
                                if live.content == *a {
                                    res.valid.push(live.duplicate());
                                } else {
                                    res.outdated.push(live.duplicate());
                                }
                            },
                        }
                    },
                }
            },
        }
        k = k + 1;
    }
    assert(ps.subrange(0, k as int) =~= ps);
    Ok(res)
}

/// Whether a tracked pair is answered by a live record of the family.
pub open spec fn needs_family(pairs: Seq<Pair>, recs: Seq<Record>, f: AddressFamily) -> bool {
    exists|k: int| 0 <= k < pairs.len() && answer_family(recs, #[trigger] pairs[k]) == Some(f)
}

/// The family of the live record that answers a tracked pair, if any.
pub open spec fn answer_family(recs: Seq<Record>, p: Pair) -> Option<AddressFamily> {
    match first_answer(recs, p) {
        Some(i) => family_of(recs[i].record_type@),
        None => None,
    }
}

/// Which host addresses a pass over `inventory` compares against: the IPv4
/// address when some tracked pair is answered by an `A` record, the IPv6
/// address when one is answered by an `AAAA` record.
pub fn needed_families(inventory: &InventoryData, records: &Vec<Record>) -> (r: (bool, bool))
    ensures
        r.0 == needs_family(inventory.ordered_pairs(), records@, AddressFamily::V4),
        r.1 == needs_family(inventory.ordered_pairs(), records@, AddressFamily::V6),
{
    let pairs = inventory.pairs();
    let ghost ps = inventory.ordered_pairs();
    let mut v4 = false;
    let mut v6 = false;
    let mut k: usize = 0;
    while k < pairs.len()
        invariant
            pair_views(pairs@) == ps,
            ps == inventory.ordered_pairs(),
            k <= ps.len(),
            v4 == exists|k2: int| 0 <= k2 < k && answer_family(records@, #[trigger] ps[k2]) == Some(AddressFamily::V4),
            v6 == exists|k2: int| 0 <= k2 < k && answer_family(records@, #[trigger] ps[k2]) == Some(AddressFamily::V6),
        decreases ps.len() - k,
    {
        assert(ps[k as int] == (pairs@[k as int].0@, pairs@[k as int].1@));
        match find_answer(records, pairs[k].0.as_str(), pairs[k].1.as_str()) {
            None => {},
            Some(i) => {
                proof {
                    lemma_first_answer_bounds(records@, ps[k as int]);
                }
                match family_of_type(records[i].record_type.as_str()) {
                    Some(AddressFamily::V4) => {
                        v4 = true;
                    },
                    Some(AddressFamily::V6) => {
                        v6 = true;
                    },
                    None => {},
                }
            },
        }
        k = k + 1;
    }
    (v4, v6)
}

/// Idempotence: a pass only reads the inventory, and its outcome is fixed by
/// the tracked pairs, the live snapshot and the host's addresses; so two
/// passes over an unchanged inventory and snapshot give identical partitions.
pub proof fn lemma_check_idempotent(
    inventory: InventoryData,
    records: Seq<Record>,
    v4: Option<Seq<char>>,
    v6: Option<Seq<char>>,
    first: Result<Partition, Fault>,
    second: Result<Partition, Fault>,
)
    requires
        first == classify(inventory.ordered_pairs(), records, v4, v6),
        second == classify(inventory.ordered_pairs(), records, v4, v6),
    ensures
        first == second,
{
}

} // verus!
