//! A stable output order for inventories: zone entries by ID, and records
//! within an entry by fingerprint, each compared character by character.
use vstd::prelude::*;
use vstd::multiset::Multiset;
use crate::inventory::{InventoryRecord, InventoryZone, InventoryData, is_grouping, record_fps, zone_records};

verus! {

/// Lexicographic order of character sequences by code point, the order of
/// `String`'s comparison.
pub open spec fn seq_lt(a: Seq<char>, b: Seq<char>) -> bool
    decreases a.len(),
{
    if a.len() == 0 {
        b.len() > 0
    } else if b.len() == 0 {
        false
    } else if a[0] != b[0] {
        (a[0] as u32) < (b[0] as u32)
    } else {
        seq_lt(a.drop_first(), b.drop_first())
    }
}

proof fn lemma_lt_skip(a: Seq<char>, b: Seq<char>, i: int)
    requires
        0 <= i <= a.len(),
        i <= b.len(),
        forall|j: int| 0 <= j < i ==> a[j] == b[j],
    ensures
        seq_lt(a, b) == seq_lt(a.subrange(i, a.len() as int), b.subrange(i, b.len() as int)),
    decreases i,
{
    if i > 0 {
        assert(a[0] == b[0]);
        lemma_lt_skip(a.drop_first(), b.drop_first(), i - 1);
        assert(a.drop_first().subrange(i - 1, a.len() - 1) =~= a.subrange(i, a.len() as int));
        assert(b.drop_first().subrange(i - 1, b.len() - 1) =~= b.subrange(i, b.len() as int));
    } else {
        assert(a.subrange(0, a.len() as int) =~= a);
        assert(b.subrange(0, b.len() as int) =~= b);
    }
}

proof fn lemma_lt_irreflexive(a: Seq<char>)
    ensures
        !seq_lt(a, a),
    decreases a.len(),
{
    if a.len() > 0 {
        lemma_lt_irreflexive(a.drop_first());
    }
}

proof fn lemma_lt_transitive(a: Seq<char>, b: Seq<char>, c: Seq<char>)
    requires
        seq_lt(a, b),
        seq_lt(b, c),
    ensures
        seq_lt(a, c),
    decreases a.len(),
{
    if a.len() > 0 && b.len() > 0 && c.len() > 0 && a[0] == b[0] && b[0] == c[0] {
        lemma_lt_transitive(a.drop_first(), b.drop_first(), c.drop_first());
    }
}

/// Whether `a` comes before `b`.
pub fn str_lt(a: &str, b: &str) -> (r: bool)
    ensures
        r == seq_lt(a@, b@),
{
    let n = a.unicode_len();
    let m = b.unicode_len();
    let mut i: usize = 0;
    while i < n && i < m
        invariant
            n == a@.len(),
            m == b@.len(),
            i <= n,
            i <= m,
            forall|j: int| 0 <= j < i ==> a@[j] == b@[j],
        decreases n - i,
    {
        let x = a.get_char(i);
        let y = b.get_char(i);
        if x != y {
            proof {
                lemma_lt_skip(a@, b@, i as int);
                let sa = a@.subrange(i as int, n as int);
                let sb = b@.subrange(i as int, m as int);
                assert(sa[0] == x && sb[0] == y);
            }
            return (x as u32) < (y as u32);
        }
        i = i + 1;
    }
    proof {
        lemma_lt_skip(a@, b@, i as int);
    }
    i < m
}

/// The entries sorted by ID: a permutation in which no later ID comes
/// before an earlier one.
pub fn sort_zones(v: Vec<InventoryZone>) -> (r: Vec<InventoryZone>)
    ensures
        r@.to_multiset() == v@.to_multiset(),
        forall|i: int, j: int| 0 <= i < j < r@.len() ==> !seq_lt(r@[j].id@, r@[i].id@),
{
    let ghost orig = v@;
    let mut rest = v;
    let mut out: Vec<InventoryZone> = Vec::new();
    proof {
        out@.to_multiset_ensures();
        assert(out@.to_multiset().add(rest@.to_multiset()) =~= orig.to_multiset());
    }
    while rest.len() > 0
        invariant
            out@.to_multiset().add(rest@.to_multiset()) == orig.to_multiset(),
            forall|i: int, j: int| 0 <= i < j < out@.len() ==> !seq_lt(out@[j].id@, out@[i].id@),
            forall|i: int, j: int| 0 <= i < out@.len() && 0 <= j < rest@.len() ==> !seq_lt(rest@[j].id@, out@[i].id@),
        decreases rest@.len(),
    {
        let mut k: usize = 0;
        let mut t: usize = 1;
        proof {
            lemma_lt_irreflexive(rest@[0].id@);
        }
        while t < rest.len()
            invariant
                k < rest@.len(),
                1 <= t <= rest@.len(),
                forall|j: int| 0 <= j < t ==> !seq_lt(rest@[j].id@, rest@[k as int].id@),
            decreases rest@.len() - t,
        {
            if str_lt(rest[t].id.as_str(), rest[k].id.as_str()) {
                proof {
                    assert forall|j: int| 0 <= j < t + 1 implies !seq_lt(rest@[j].id@, rest@[t as int].id@) by {
                        if j < t && seq_lt(rest@[j].id@, rest@[t as int].id@) {
                            lemma_lt_transitive(rest@[j].id@, rest@[t as int].id@, rest@[k as int].id@);
                        }
                        if j == t {
                            lemma_lt_irreflexive(rest@[t as int].id@);
                        }
                    };
                }
                k = t;
            }
            t = t + 1;
        }
        let ghost before_rest = rest@;
        let ghost before_out = out@;
        let x = rest.remove(k);
        proof {
            before_rest.to_multiset_ensures();
            before_out.to_multiset_ensures();
            assert(rest@ =~= before_rest.remove(k as int));
            assert(before_rest.to_multiset().count(x) > 0);
        }
        out.push(x);
        proof {
            assert(out@ =~= before_out.push(x));
            assert(out@.to_multiset().add(rest@.to_multiset()) =~= before_out.to_multiset().add(before_rest.to_multiset()));
            assert forall|j: int| 0 <= j < rest@.len() implies !seq_lt(rest@[j].id@, x.id@) by {
                if j < k {
                    assert(rest@[j] == before_rest[j]);
                } else {
                    assert(rest@[j] == before_rest[j + 1]);
                }
            };
            assert forall|i: int, j: int| 0 <= i < out@.len() && 0 <= j < rest@.len() implies !seq_lt(rest@[j].id@, out@[i].id@) by {
                if i < before_out.len() {
                    assert(out@[i] == before_out[i]);
                    if j < k {
                        assert(rest@[j] == before_rest[j]);
                    } else {
                        assert(rest@[j] == before_rest[j + 1]);
                    }
                }
            };
        }
    }
    proof {
        rest@.to_multiset_ensures();
        assert(rest@.to_multiset() =~= Multiset::empty());
        assert(out@.to_multiset().add(rest@.to_multiset()) =~= out@.to_multiset());
    }
    out
}

/// The records sorted by fingerprint: a permutation in which no later
/// fingerprint comes before an earlier one.
pub fn sort_records(v: Vec<InventoryRecord>) -> (r: Vec<InventoryRecord>)
    ensures
        r@.to_multiset() == v@.to_multiset(),
        forall|i: int, j: int| 0 <= i < j < r@.len() ==> !seq_lt(r@[j].0@, r@[i].0@),
{
    let ghost orig = v@;
    let mut rest = v;
    let mut out: Vec<InventoryRecord> = Vec::new();
    proof {
        out@.to_multiset_ensures();
        assert(out@.to_multiset().add(rest@.to_multiset()) =~= orig.to_multiset());
    }
    while rest.len() > 0
        invariant
            out@.to_multiset().add(rest@.to_multiset()) == orig.to_multiset(),
            forall|i: int, j: int| 0 <= i < j < out@.len() ==> !seq_lt(out@[j].0@, out@[i].0@),
            forall|i: int, j: int| 0 <= i < out@.len() && 0 <= j < rest@.len() ==> !seq_lt(rest@[j].0@, out@[i].0@),
        decreases rest@.len(),
    {
        let mut k: usize = 0;
        let mut t: usize = 1;
        proof {
            lemma_lt_irreflexive(rest@[0].0@);
        }
        while t < rest.len()
            invariant
                k < rest@.len(),
                1 <= t <= rest@.len(),
                forall|j: int| 0 <= j < t ==> !seq_lt(rest@[j].0@, rest@[k as int].0@),
            decreases rest@.len() - t,
        {
            if str_lt(rest[t].0.as_str(), rest[k].0.as_str()) {
                proof {
                    assert forall|j: int| 0 <= j < t + 1 implies !seq_lt(rest@[j].0@, rest@[t as int].0@) by {
                        if j < t && seq_lt(rest@[j].0@, rest@[t as int].0@) {
                            lemma_lt_transitive(rest@[j].0@, rest@[t as int].0@, rest@[k as int].0@);
                        }
                        if j == t {
                            lemma_lt_irreflexive(rest@[t as int].0@);
                        }
                    };
                }
                k = t;
            }
            t = t + 1;
        }
        let ghost before_rest = rest@;
        let ghost before_out = out@;
        let x = rest.remove(k);
        proof {
            before_rest.to_multiset_ensures();
            before_out.to_multiset_ensures();
            assert(rest@ =~= before_rest.remove(k as int));
            assert(before_rest.to_multiset().count(x) > 0);
        }
        out.push(x);
        proof {
            assert(out@ =~= before_out.push(x));
            assert(out@.to_multiset().add(rest@.to_multiset()) =~= before_out.to_multiset().add(before_rest.to_multiset()));
            assert forall|j: int| 0 <= j < rest@.len() implies !seq_lt(rest@[j].0@, x.0@) by {
                if j < k {
                    assert(rest@[j] == before_rest[j]);
                } else {
                    assert(rest@[j] == before_rest[j + 1]);
                }
            };
            assert forall|i: int, j: int| 0 <= i < out@.len() && 0 <= j < rest@.len() implies !seq_lt(rest@[j].0@, out@[i].0@) by {
                if i < before_out.len() {
                    assert(out@[i] == before_out[i]);
                    if j < k {
                        assert(rest@[j] == before_rest[j]);
                    } else {
                        assert(rest@[j] == before_rest[j + 1]);
                    }
                }
            };
        }
    }
    proof {
        rest@.to_multiset_ensures();
        assert(rest@.to_multiset() =~= Multiset::empty());
        assert(out@.to_multiset().add(rest@.to_multiset()) =~= out@.to_multiset());
    }
    out
}


proof fn lemma_permuted_contains<A>(a: Seq<A>, b: Seq<A>, x: A)
    requires
        a.to_multiset() == b.to_multiset(),
        b.contains(x),
    ensures
        a.contains(x),
{
    a.to_multiset_ensures();
    b.to_multiset_ensures();
    assert(b.to_multiset().count(x) > 0);
    assert(a.to_multiset().count(x) > 0);
}

proof fn lemma_permuted_no_duplicates<A>(a: Seq<A>, b: Seq<A>)
    requires
        a.to_multiset() == b.to_multiset(),
        b.no_duplicates(),
    ensures
        a.no_duplicates(),
{
    b.lemma_multiset_has_no_duplicates();
    a.to_multiset_ensures();
    a.lemma_multiset_has_no_duplicates_conv();
}

proof fn lemma_entry_permuted(g: InventoryZone, h: InventoryZone)
    requires
        h.records@.to_multiset() == g.records@.to_multiset(),
        zone_records(g).no_duplicates(),
    ensures
        forall|r: Seq<char>| zone_records(h).contains(r) <==> zone_records(g).contains(r),
        zone_records(h).no_duplicates(),
        h.records@.len() == g.records@.len(),
{
    g.records@.to_multiset_ensures();
    h.records@.to_multiset_ensures();
    assert forall|r: Seq<char>| zone_records(h).contains(r) <==> zone_records(g).contains(r) by {
        if zone_records(h).contains(r) {
            let t = choose|t: int| 0 <= t < zone_records(h).len() && zone_records(h)[t] == r;
            assert(h.records@.contains(h.records@[t]));
            lemma_permuted_contains(g.records@, h.records@, h.records@[t]);
            let p = choose|p: int| 0 <= p < g.records@.len() && g.records@[p] == h.records@[t];
            assert(zone_records(g)[p] == r);
        }
        if zone_records(g).contains(r) {
            let t = choose|t: int| 0 <= t < zone_records(g).len() && zone_records(g)[t] == r;
            assert(g.records@.contains(g.records@[t]));
            lemma_permuted_contains(h.records@, g.records@, g.records@[t]);
            let p = choose|p: int| 0 <= p < h.records@.len() && h.records@[p] == g.records@[t];
            assert(zone_records(h)[p] == r);
        }
    };
    assert(g.records@.no_duplicates()) by {
        assert forall|i: int, j: int| 0 <= i < g.records@.len() && 0 <= j < g.records@.len() && i != j implies g.records@[i] != g.records@[j] by {
            assert(zone_records(g)[i] != zone_records(g)[j]);
        };
    };
    lemma_permuted_no_duplicates(h.records@, g.records@);
    assert forall|i: int, j: int| 0 <= i < zone_records(h).len() && 0 <= j < zone_records(h).len() && i != j implies zone_records(h)[i] != zone_records(h)[j] by {
        if zone_records(h)[i] == zone_records(h)[j] {
            assert(h.records@[i] != h.records@[j]);
            lemma_permuted_contains(g.records@, h.records@, h.records@[i]);
            lemma_permuted_contains(g.records@, h.records@, h.records@[j]);
            let p = choose|p: int| 0 <= p < g.records@.len() && g.records@[p] == h.records@[i];
            let q = choose|q: int| 0 <= q < g.records@.len() && g.records@[q] == h.records@[j];
            assert(zone_records(g)[p] == zone_records(g)[q]);
        }
    };
}

proof fn lemma_grouping_permuted(zs: Seq<InventoryZone>, rs: Seq<InventoryZone>, pairs: Set<(Seq<char>, Seq<char>)>)
    requires
        is_grouping(zs, pairs),
        rs.to_multiset() == zs.to_multiset(),
    ensures
        is_grouping(rs, pairs),
{
    crate::inventory::lemma_entry_order_free(zs, rs);
    assert(zs.no_duplicates()) by {
        assert forall|i: int, j: int| 0 <= i < zs.len() && 0 <= j < zs.len() && i != j implies zs[i] != zs[j] by {
            if i < j {
                assert(zs[i].id@ != zs[j].id@);
            } else {
                assert(zs[j].id@ != zs[i].id@);
            }
        };
    };
    lemma_permuted_no_duplicates(rs, zs);
    assert forall|i: int| 0 <= i < rs.len() implies exists|p: int| 0 <= p < zs.len() && zs[p] == #[trigger] rs[i] by {
        lemma_permuted_contains(zs, rs, rs[i]);
    };
    assert forall|i: int, j: int| 0 <= i < j < rs.len() implies rs[i].id@ != rs[j].id@ by {
        let p = choose|p: int| 0 <= p < zs.len() && zs[p] == rs[i];
        let q = choose|q: int| 0 <= q < zs.len() && zs[q] == rs[j];
        assert(rs[i] != rs[j]);
        if p < q {
            assert(zs[p].id@ != zs[q].id@);
        } else {
            assert(zs[q].id@ != zs[p].id@);
        }
    };
    assert forall|i: int| 0 <= i < rs.len() implies (#[trigger] rs[i]).records@.len() > 0 && zone_records(rs[i]).no_duplicates() by {
        let p = choose|p: int| 0 <= p < zs.len() && zs[p] == rs[i];
    };
}

/// Whether no later record of an entry comes before an earlier one.
pub open spec fn records_sorted(g: InventoryZone) -> bool {
    forall|i: int, j: int| 0 <= i < j < g.records@.len() ==> !seq_lt(g.records@[j].0@, g.records@[i].0@)
}

impl InventoryData {
    /// The inventory grouped by zone, in a stable order: entries by zone ID
    /// and records within an entry by fingerprint.
    pub fn sorted_zones(&self) -> (r: Vec<InventoryZone>)
        requires
            self.wf(),
        ensures
            is_grouping(r@, self.view()),
            forall|i: int, j: int| 0 <= i < j < r@.len() ==> !seq_lt(r@[j].id@, r@[i].id@),
            forall|k: int| 0 <= k < r@.len() ==> records_sorted(#[trigger] r@[k]),
    {
        let mut rest = self.zones();
        let ghost zs = rest@;
        let total: usize = rest.len();
        let mut out: Vec<InventoryZone> = Vec::new();
        let mut i: usize = 0;
        while rest.len() > 0
            invariant
                is_grouping(zs, self.view()),
                i + rest@.len() == zs.len(),
                zs.len() == total,
                rest@ == zs.subrange(i as int, zs.len() as int),
                out@.len() == i,
                forall|k: int| 0 <= k < i ==> {
                    &&& (#[trigger] out@[k]).id@ == zs[k].id@
                    &&& out@[k].records@.to_multiset() == zs[k].records@.to_multiset()
                },
                forall|k: int| 0 <= k < out@.len() ==> records_sorted(#[trigger] out@[k]),
            decreases rest@.len(),
        {
            let g = rest.remove(0);
            assert(g == zs[i as int]);
            let records = sort_records(g.records);
            let ghost before = out@;
            out.push(InventoryZone { id: g.id, records });
            assert forall|k: int| 0 <= k < i + 1 implies {
                &&& (#[trigger] out@[k]).id@ == zs[k].id@
                &&& out@[k].records@.to_multiset() == zs[k].records@.to_multiset()
            } by {
                if k < i {
                    assert(out@[k] == before[k]);
                }
            };
            assert forall|k: int| 0 <= k < out@.len() implies records_sorted(#[trigger] out@[k]) by {
                if k < i {
                    assert(out@[k] == before[k]);
                }
            };
            i = i + 1;
            assert(rest@ =~= zs.subrange(i as int, zs.len() as int));
        }
        proof {
            assert forall|k: int| 0 <= k < out@.len() implies
                (forall|r: Seq<char>| zone_records(out@[k]).contains(r) <==> zone_records(zs[k]).contains(r))
                && zone_records(#[trigger] out@[k]).no_duplicates()
                && out@[k].records@.len() == zs[k].records@.len() by {
                lemma_entry_permuted(zs[k], out@[k]);
            };
            assert forall|p: (Seq<char>, Seq<char>)| crate::inventory::pairs_of_zones(out@).contains(p)
                <==> crate::inventory::pairs_of_zones(zs).contains(p) by {
                if crate::inventory::pairs_of_zones(out@).contains(p) {
                    let k = choose|k: int| 0 <= k < out@.len() && out@[k].id@ == p.0 && zone_records(out@[k]).contains(p.1);
                    assert(zone_records(zs[k]).contains(p.1));
                }
                if crate::inventory::pairs_of_zones(zs).contains(p) {
                    let k = choose|k: int| 0 <= k < zs.len() && zs[k].id@ == p.0 && zone_records(zs[k]).contains(p.1);
                    assert(out@[k].id@ == zs[k].id@);
                    assert(zone_records(out@[k]).contains(p.1));
                }
            };
            assert(crate::inventory::pairs_of_zones(out@) =~= crate::inventory::pairs_of_zones(zs));
            assert(is_grouping(out@, self.view()));
        }
        let sorted = sort_zones(out);
        proof {
            lemma_grouping_permuted(out@, sorted@, self.view());
            assert forall|k: int| 0 <= k < sorted@.len() implies records_sorted(#[trigger] sorted@[k]) by {
                lemma_permuted_contains(out@, sorted@, sorted@[k]);
                let p = choose|p: int| 0 <= p < out@.len() && out@[p] == sorted@[k];
            };
        }
        sorted
    }
}

} // verus!
