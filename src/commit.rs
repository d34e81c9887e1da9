//! Corrections: patching outdated records and pruning invalid pairs, under a
//! confirm-or-force policy.
use vstd::prelude::*;
use crate::cloudflare::Record;
use crate::inventory::{InventoryData, Pair, has_zone, pair_views};
use crate::text::string_views;
use crate::reconcile::{AddressFamily, Fault, ReconcileError, address_of, family_of, family_of_type, opt_view};

verus! {

/// One provider call that sets a record's content.
pub struct RecordUpdate {
    pub zone_id: String,
    pub record_id: String,
    pub content: String,
}

/// The content an outdated record must be patched to: the host's address of
/// the record's family.
pub open spec fn patched_content(r: Record, v4: Option<Seq<char>>, v6: Option<Seq<char>>) -> Result<Seq<char>, Fault> {
    match family_of(r.record_type@) {
        None => Err(Fault::UnsupportedRecordType(r.record_type@)),
        Some(f) => match address_of(f, v4, v6) {
            None => Err(Fault::AddressUnavailable(f)),
            Some(a) => Ok(a),
        },
    }
}

/// Whether a batch of corrections goes ahead: always when forced, else on
/// the user's answer, where no answer means yes.
pub fn confirmed(force: bool, answer: Option<bool>) -> (r: bool)
    ensures
        r == (force || match answer {
            Some(b) => b,
            None => true,
        }),
{
    if force {
        true
    } else {
        match answer {
            Some(b) => b,
            None => true,
        }
    }
}

/// The provider calls that correct the outdated records: one per record, in
/// order, setting its content to the host's address of its family. Fails on
/// the first record whose family is unsupported or whose address is unknown.
pub fn plan_updates(
    outdated: &Vec<Record>,
    ipv4: &Option<String>,
    ipv6: &Option<String>,
) -> (r: Result<Vec<RecordUpdate>, ReconcileError>)
    ensures
        match r {
            Ok(calls) => {
                &&& calls@.len() == outdated@.len()
                &&& forall|i: int| 0 <= i < outdated@.len() ==> {
                    &&& calls@[i].zone_id@ == outdated@[i].zone_id@
                    &&& calls@[i].record_id@ == outdated@[i].id@
                    &&& patched_content(outdated@[i], opt_view(*ipv4), opt_view(*ipv6)) == Ok::<Seq<char>, Fault>(calls@[i].content@)
                }
            },
            Err(e) => exists|i: int| {
                &&& 0 <= i < outdated@.len()
                &&& patched_content(outdated@[i], opt_view(*ipv4), opt_view(*ipv6)) == Err::<Seq<char>, Fault>(e.view())
                &&& forall|j: int| 0 <= j < i ==> patched_content(outdated@[j], opt_view(*ipv4), opt_view(*ipv6)) is Ok
            },
        },
{
    let ghost v4 = opt_view(*ipv4);
    let ghost v6 = opt_view(*ipv6);
    let mut calls: Vec<RecordUpdate> = Vec::new();
    let mut i: usize = 0;
    while i < outdated.len()
        invariant
            i <= outdated@.len(),
            v4 == opt_view(*ipv4),
            v6 == opt_view(*ipv6),
            calls@.len() == i,
            forall|j: int| 0 <= j < i ==> {
                &&& calls@[j].zone_id@ == outdated@[j].zone_id@
                &&& calls@[j].record_id@ == outdated@[j].id@
                &&& patched_content(outdated@[j], v4, v6) == Ok::<Seq<char>, Fault>(calls@[j].content@)
            },
        decreases outdated@.len() - i,
    {
        let rec = &outdated[i];
        match family_of_type(rec.record_type.as_str()) {
            None => {
                return Err(ReconcileError::UnsupportedRecordType(rec.record_type.clone()));
            },
            Some(f) => {
                let addr = match f {
                    AddressFamily::V4 => ipv4,
                    AddressFamily::V6 => ipv6,
                };
                match addr {
                    None => {
                        return Err(ReconcileError::AddressUnavailable(f));
                    },
                    Some(a) => {
                        calls.push(RecordUpdate { zone_id: rec.zone_id.clone(), record_id: rec.id.clone(), content: a.clone() });
                    },
                }
            },
        }
        i = i + 1;
    }
    Ok(calls)
}

/// The IDs of the records whose update succeeded.
pub fn fixed_ids(outdated: &Vec<Record>, succeeded: &Vec<bool>) -> (r: Vec<String>)
    requires
        succeeded@.len() == outdated@.len(),
    ensures
        forall|id: Seq<char>| #[trigger] string_views(r@).contains(id)
            <==> exists|i: int| 0 <= i < outdated@.len() && succeeded@[i] && outdated@[i].id@ == id,
{
    let mut out: Vec<String> = Vec::new();
    let mut i: usize = 0;
    while i < outdated.len()
        invariant
            i <= outdated@.len(),
            succeeded@.len() == outdated@.len(),
            forall|id: Seq<char>| #[trigger] string_views(out@).contains(id)
                <==> exists|j: int| 0 <= j < i && succeeded@[j] && outdated@[j].id@ == id,
        decreases outdated@.len() - i,
    {
        let ghost before = string_views(out@);
        if succeeded[i] {
            out.push(outdated[i].id.clone());
            assert(string_views(out@) =~= before.push(outdated@[i as int].id@));
        }
        assert forall|id: Seq<char>| #[trigger] string_views(out@).contains(id)
            <==> exists|j: int| 0 <= j < i + 1 && succeeded@[j] && outdated@[j].id@ == id by {
            let now = string_views(out@);
            if now.contains(id) && !before.contains(id) {
                assert(now[now.len() - 1] == outdated@[i as int].id@) by {
                    let t = choose|t: int| 0 <= t < now.len() && now[t] == id;
                    if t < before.len() {
                        assert(before[t] == id);
                    }
                };
                let t = choose|t: int| 0 <= t < now.len() && now[t] == id;
                if t < before.len() {
                    assert(before[t] == now[t]);
                }
            }
            if before.contains(id) {
                let t = choose|t: int| 0 <= t < before.len() && before[t] == id;
                assert(now[t] == id);
            }
            if succeeded@[i as int] && outdated@[i as int].id@ == id {
                assert(now[now.len() - 1] == id);
            }
        };
        i = i + 1;
    }
    out
}

/// Whether `id` is among `ids`.
fn contains_id(ids: &Vec<String>, id: &String) -> (r: bool)
    ensures
        r == string_views(ids@).contains(id@),
{
    let mut i: usize = 0;
    while i < ids.len()
        invariant
            i <= ids@.len(),
            forall|j: int| 0 <= j < i ==> ids@[j]@ != id@,
        decreases ids@.len() - i,
    {
        if ids[i] == *id {
            assert(string_views(ids@)[i as int] == id@);
            return true;
        }
        i = i + 1;
    }
    proof {
        if string_views(ids@).contains(id@) {
            let t = choose|t: int| 0 <= t < ids@.len() && string_views(ids@)[t] == id@;
        }
    }
    false
}

/// The outdated records that remain after the records with the given IDs
/// were fixed, in order.
pub fn remaining_outdated(outdated: Vec<Record>, fixed: &Vec<String>) -> (r: Vec<Record>)
    ensures
        r@ == outdated@.filter(|x: Record| !string_views(fixed@).contains(x.id@)),
{
    let ghost orig = outdated@;
    let ghost keep = |x: Record| !string_views(fixed@).contains(x.id@);
    let total: usize = outdated.len();
    let mut rest = outdated;
    let mut out: Vec<Record> = Vec::new();
    let mut k: usize = 0;
    while rest.len() > 0
        invariant
            k + rest@.len() == orig.len(),
            orig.len() == total,
            keep == (|x: Record| !string_views(fixed@).contains(x.id@)),
            rest@ == orig.subrange(k as int, orig.len() as int),
            out@ == orig.subrange(0, k as int).filter(keep),
        decreases rest@.len(),
    {
        let x = rest.remove(0);
        proof {
            assert(orig.subrange(0, k + 1) =~= orig.subrange(0, k as int).push(x));
            orig.subrange(0, k as int).lemma_filter_push(x, keep);
        }
        if !contains_id(fixed, &x.id) {
            out.push(x);
        }
        k = k + 1;
        assert(rest@ =~= orig.subrange(k as int, orig.len() as int));
    }
    assert(orig.subrange(0, k as int) =~= orig);
    out
}

/// Removes every invalid pair from the inventory. Returns how many removals
/// took effect; it is zero exactly when no invalid pair was tracked.
pub fn prune(data: &mut InventoryData, invalid: &Vec<(String, String)>) -> (pruned: usize)
    requires
        old(data).wf(),
    ensures
        final(data).wf(),
        final(data).view() == old(data).view().difference(pair_views(invalid@).to_set()),
        pruned <= invalid@.len(),
        (pruned == 0) == !(exists|p: Pair| old(data).view().contains(p) && pair_views(invalid@).contains(p)),
{
    let ghost start = data.view();
    let ghost inv = pair_views(invalid@);
    let mut pruned: usize = 0;
    let mut i: usize = 0;
    while i < invalid.len()
        invariant
            i <= invalid@.len(),
            inv == pair_views(invalid@),
            data.wf(),
            pruned <= i,
            data.view() == start.difference(inv.subrange(0, i as int).to_set()),
            (pruned == 0) == !(exists|p: Pair| start.contains(p) && inv.subrange(0, i as int).contains(p)),
        decreases invalid@.len() - i,
    {
        let ghost pre = inv.subrange(0, i as int).to_set();
        let ghost post = inv.subrange(0, i + 1).to_set();
        assert(inv.subrange(0, i + 1) =~= inv.subrange(0, i as int).push(inv[i as int]));
        assert(post =~= pre.insert(inv[i as int])) by {
            assert forall|p: Pair| post.contains(p) <==> pre.insert(inv[i as int]).contains(p) by {
                let a = inv.subrange(0, i as int);
                let b = inv.subrange(0, i + 1);
                if b.contains(p) {
                    let t = choose|t: int| 0 <= t < b.len() && b[t] == p;
                    if t < i {
                        assert(a[t] == p);
                    }
                }
                if a.contains(p) {
                    let t = choose|t: int| 0 <= t < a.len() && a[t] == p;
                    assert(b[t] == p);
                }
                if p == inv[i as int] {
                    assert(b[i as int] == p);
                }
            };
        };
        let removed = data.remove(invalid[i].0.as_str(), invalid[i].1.as_str());
        assert(data.view() =~= start.difference(post));
        if removed {
            pruned = pruned + 1;
            assert(start.contains(inv[i as int]) && post.contains(inv[i as int]));
        } else {
            assert(!start.contains(inv[i as int]) || pre.contains(inv[i as int]));
        }
        assert((exists|p: Pair| start.contains(p) && post.contains(p))
            == (exists|p: Pair| start.contains(p) && pre.contains(p)) || start.contains(inv[i as int])) by {
            if exists|p: Pair| start.contains(p) && pre.contains(p) {
                let p = choose|p: Pair| start.contains(p) && pre.contains(p);
                assert(post.contains(p));
            }
        };
        i = i + 1;
    }
    assert(inv.subrange(0, i as int) =~= inv);
    pruned
}

/// Removing every tracked record of a zone removes the zone: a pruned
/// inventory keeps no zone whose records were all invalid.
pub proof fn lemma_prune_drops_emptied_zone(before: Set<Pair>, invalid: Set<Pair>, zone: Seq<char>)
    requires
        forall|r: Seq<char>| before.contains((zone, r)) ==> invalid.contains((zone, r)),
    ensures
        !has_zone(before.difference(invalid), zone),
{
    if has_zone(before.difference(invalid), zone) {
        let r = choose|r: Seq<char>| before.difference(invalid).contains((zone, r));
    }
}

/// The invalid pairs that the inventory still tracks, in order.
pub fn remaining_invalid(invalid: &Vec<(String, String)>, data: &InventoryData) -> (r: Vec<(String, String)>)
    ensures
        pair_views(r@) == pair_views(invalid@).filter(|p: Pair| data.view().contains(p)),
{
    let ghost inv = pair_views(invalid@);
    let ghost keep = |p: Pair| data.view().contains(p);
    let mut out: Vec<(String, String)> = Vec::new();
    let mut i: usize = 0;
    while i < invalid.len()
        invariant
            i <= invalid@.len(),
            inv == pair_views(invalid@),
            keep == (|p: Pair| data.view().contains(p)),
            pair_views(out@) == inv.subrange(0, i as int).filter(keep),
        decreases invalid@.len() - i,
    {
        proof {
            assert(inv.subrange(0, i + 1) =~= inv.subrange(0, i as int).push(inv[i as int]));
            inv.subrange(0, i as int).lemma_filter_push(inv[i as int], keep);
        }
        let ghost before = pair_views(out@);
        if data.contains(invalid[i].0.as_str(), invalid[i].1.as_str()) {
            out.push((invalid[i].0.clone(), invalid[i].1.clone()));
            assert(pair_views(out@) =~= before.push(inv[i as int]));
        }
        i = i + 1;
    }
    assert(inv.subrange(0, i as int) =~= inv);
    out
}

} // verus!
