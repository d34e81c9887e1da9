//! Models of the DNS provider's API and the filters applied to what it lists.
use vstd::prelude::*;
use crate::text::str_eq;

verus! {

/// An error reported by the provider, with its nested chain.
pub struct CloudflareError {
    pub code: i32,
    pub message: String,
    pub error_chain: Option<Vec<CloudflareMessage>>,
}

/// A message reported by the provider.
pub struct CloudflareMessage {
    pub code: i32,
    pub message: String,
}

/// The envelope of an unsuccessful provider response.
pub struct CloudflareResponse {
    pub success: bool,
    pub errors: Vec<CloudflareError>,
}

/// The provider's answer to a token verification.
pub struct VerifyResponse {
    pub success: bool,
    pub messages: Vec<CloudflareMessage>,
}

/// Paging information of a listing.
pub struct ResultInfo {
    pub page: i32,
    pub total_pages: i32,
}

/// A DNS zone as listed by the provider.
pub struct Zone {
    pub id: String,
    pub name: String,
    pub permissions: Vec<String>,
    pub status: String,
}

/// A DNS record as listed by the provider.
pub struct Record {
    pub id: String,
    pub zone_id: String,
    pub zone_name: String,
    pub name: String,
    pub record_type: String,
    pub content: String,
    pub locked: bool,
}

/// One page of a zone listing.
pub struct ListZonesResponse {
    pub success: bool,
    pub result_info: ResultInfo,
    pub result: Vec<Zone>,
}

/// One page of a record listing.
pub struct ListRecordsResponse {
    pub success: bool,
    pub result_info: ResultInfo,
    pub result: Vec<Record>,
}

/// The provider's answer to a record patch.
pub struct PatchRecordResponse {
    pub success: bool,
    pub result: Record,
}

impl Zone {
    /// A field-by-field copy.
    pub fn duplicate(&self) -> (r: Zone)
        ensures
            same_zone(r, *self),
    {
        Zone {
            id: self.id.clone(),
            name: self.name.clone(),
            permissions: self.permissions.clone(),
            status: self.status.clone(),
        }
    }
}

impl Record {
    /// A field-by-field copy.
    pub fn duplicate(&self) -> (r: Record)
        ensures
            r == *self,
    {
        Record {
            id: self.id.clone(),
            zone_id: self.zone_id.clone(),
            zone_name: self.zone_name.clone(),
            name: self.name.clone(),
            record_type: self.record_type.clone(),
            content: self.content.clone(),
            locked: self.locked,
        }
    }
}

/// Two zones that agree on every field.
pub open spec fn same_zone(a: Zone, b: Zone) -> bool {
    &&& a.id@ == b.id@
    &&& a.name@ == b.name@
    &&& a.permissions@.map_values(|p: String| p@) == b.permissions@.map_values(|p: String| p@)
    &&& a.status@ == b.status@
}

/// The permission that allows editing a zone's records.
pub open spec fn edit_permission() -> Seq<char> {
    "#zone:edit"@
}

/// A zone that is active and whose records the token may edit.
pub open spec fn zone_is_listed(z: Zone) -> bool {
    &&& z.status@ == "active"@
    &&& exists|i: int| 0 <= i < z.permissions@.len() && z.permissions@[i]@ == edit_permission()
}

/// A record of a supported type: every `A` record, and `AAAA` records that
/// are not locked.
pub open spec fn record_is_listed(r: Record) -> bool {
    r.record_type@ == "A"@ || (r.record_type@ == "AAAA"@ && !r.locked)
}

/// Whether a listed zone is kept: it is active and editable.
pub fn zone_is_editable(z: &Zone) -> (r: bool)
    ensures
        r == zone_is_listed(*z),
{
    if !str_eq(z.status.as_str(), "active") {
        return false;
    }
    let mut i: usize = 0;
    while i < z.permissions.len()
        invariant
            i <= z.permissions@.len(),
            z.status@ == "active"@,
            forall|j: int| 0 <= j < i ==> z.permissions@[j]@ != edit_permission(),
        decreases z.permissions@.len() - i,
    {
        if str_eq(z.permissions[i].as_str(), "#zone:edit") {
            assert(z.permissions@[i as int]@ == edit_permission());
            return true;
        }
        i = i + 1;
    }
    false
}

/// Whether a listed record is kept: its type is supported.
pub fn record_is_supported(r: &Record) -> (b: bool)
    ensures
        b == record_is_listed(*r),
{
    str_eq(r.record_type.as_str(), "A") || (str_eq(r.record_type.as_str(), "AAAA") && !r.locked)
}

/// The page that follows `page` in a listing of `total_pages` pages, if any.
pub fn next_page(page: i32, total_pages: i32) -> (r: Option<i32>)
    ensures
        r == (if page < total_pages { Some((page + 1) as i32) } else { None::<i32> }),
{
    if page < total_pages {
        Some(page + 1)
    } else {
        None
    }
}

/// Keeps the active, editable zones of one listed page, in order.
pub fn keep_editable_zones(page: Vec<Zone>) -> (r: Vec<Zone>)
    ensures
        r@ == page@.filter(|z: Zone| zone_is_listed(z)),
{
    let ghost orig = page@;
    let total: usize = page.len();
    let mut rest = page;
    let mut out: Vec<Zone> = Vec::new();
    let mut k: usize = 0;
    while rest.len() > 0
        invariant
            k + rest@.len() == orig.len(),
            orig.len() == total,
            rest@ == orig.subrange(k as int, orig.len() as int),
            out@ == orig.subrange(0, k as int).filter(|z: Zone| zone_is_listed(z)),
        decreases rest@.len(),
    {
        let z = rest.remove(0);
        proof {
            assert(orig.subrange(0, k + 1) =~= orig.subrange(0, k as int).push(z));
            orig.subrange(0, k as int).lemma_filter_push(z, |z: Zone| zone_is_listed(z));
        }
        if zone_is_editable(&z) {
            out.push(z);
        }
        k = k + 1;
        assert(rest@ =~= orig.subrange(k as int, orig.len() as int));
    }
    assert(orig.subrange(0, k as int) =~= orig);
    out
}

/// Keeps the records of supported types of one listed page, in order.
pub fn keep_supported_records(page: Vec<Record>) -> (r: Vec<Record>)
    ensures
        r@ == page@.filter(|x: Record| record_is_listed(x)),
{
    let ghost orig = page@;
    let total: usize = page.len();
    let mut rest = page;
    let mut out: Vec<Record> = Vec::new();
    let mut k: usize = 0;
    while rest.len() > 0
        invariant
            k + rest@.len() == orig.len(),
            orig.len() == total,
            rest@ == orig.subrange(k as int, orig.len() as int),
            out@ == orig.subrange(0, k as int).filter(|x: Record| record_is_listed(x)),
        decreases rest@.len(),
    {
        let x = rest.remove(0);
        proof {
            assert(orig.subrange(0, k + 1) =~= orig.subrange(0, k as int).push(x));
            orig.subrange(0, k as int).lemma_filter_push(x, |x: Record| record_is_listed(x));
        }
        if record_is_supported(&x) {
            out.push(x);
        }
        k = k + 1;
        assert(rest@ =~= orig.subrange(k as int, orig.len() as int));
    }
    assert(orig.subrange(0, k as int) =~= orig);
    out
}

} // verus!
