//! Selecting zones and records: lookup by fingerprint and the configured
//! wanted / unwanted regex filters.
use vstd::prelude::*;
use crate::cloudflare::{Record, Zone, same_zone};
use crate::config::{ConfigOpts, opt_list_view};
use crate::text::{str_eq, string_views};

verus! {

#[verifier::external_type_specification]
#[verifier::external_body]
pub struct ExRegex(regex::Regex);

#[verifier::external_type_specification]
#[verifier::external_body]
pub struct ExRegexError(regex::Error);

/// Whether a pattern compiles with the regex crate's default settings.
pub uninterp spec fn regex_compiles(pattern: Seq<char>) -> bool;

/// Whether a compiled pattern matches somewhere in a text.
pub uninterp spec fn regex_finds(pattern: Seq<char>, text: Seq<char>) -> bool;

/// A compiled regex together with the pattern it was compiled from. Only
/// `compile` builds one, so the two always agree.
pub struct Pattern {
    source: String,
    regex: regex::Regex,
}

impl Pattern {
    /// The pattern this regex was compiled from.
    pub closed spec fn source(&self) -> Seq<char> {
        self.source@
    }
}

/// Relies on `regex::Regex::new`: whether a pattern compiles depends on the
/// pattern alone.
#[verifier::external_body]
fn compile(pattern: &String) -> (r: Result<Pattern, regex::Error>)
    ensures
        r is Ok == regex_compiles(pattern@),
        r matches Ok(p) ==> p.source() == pattern@,
{
    match regex::Regex::new(pattern) {
        Ok(regex) => Ok(Pattern { source: pattern.clone(), regex }),
        Err(e) => Err(e),
    }
}

/// Relies on `regex::Regex::is_match`: true iff the regex matches somewhere
/// in the text.
#[verifier::external_body]
fn finds(p: &Pattern, text: &str) -> (r: bool)
    ensures
        r == regex_finds(p.source(), text@),
{
    p.regex.is_match(text)
}

/// Which filter setting held a pattern that does not compile.
#[derive(PartialEq, Eq, Structural, Clone, Copy, Debug)]
pub enum FilterSetting {
    IncludeZones,
    IgnoreZones,
    IncludeRecords,
    IgnoreRecords,
}

/// A filter pattern that does not compile.
pub struct FilterError {
    pub setting: FilterSetting,
    pub pattern: String,
}

/// The sources of a list of compiled patterns.
pub open spec fn sources(ps: Seq<Pattern>) -> Seq<Seq<char>> {
    ps.map_values(|p: Pattern| p.source())
}

/// Whether every pattern of a list compiles.
pub open spec fn all_compile(patterns: Seq<Seq<char>>) -> bool {
    forall|i: int| 0 <= i < patterns.len() ==> regex_compiles(#[trigger] patterns[i])
}

/// Whether every pattern of an optional list compiles.
pub open spec fn setting_compiles(patterns: Option<Seq<Seq<char>>>) -> bool {
    match patterns {
        Some(ps) => all_compile(ps),
        None => true,
    }
}

/// Whether one of the patterns matches the ID or the name.
pub open spec fn any_finds(patterns: Seq<Seq<char>>, id: Seq<char>, name: Seq<char>) -> bool {
    exists|i: int| 0 <= i < patterns.len() && (regex_finds(patterns[i], id) || regex_finds(patterns[i], name))
}

/// Whether every pattern matches the ID or the name.
pub open spec fn all_find(patterns: Seq<Seq<char>>, id: Seq<char>, name: Seq<char>) -> bool {
    forall|i: int| 0 <= i < patterns.len() ==> (regex_finds(patterns[i], id) || regex_finds(#[trigger] patterns[i], name))
}

/// An entity passes the filters when each wanted pattern matches its ID or
/// name and no unwanted pattern matches either; an absent list imposes nothing.
pub open spec fn passes(wanted: Option<Seq<Seq<char>>>, unwanted: Option<Seq<Seq<char>>>, id: Seq<char>, name: Seq<char>) -> bool {
    &&& match wanted {
        Some(ps) => all_find(ps, id, name),
        None => true,
    }
    &&& match unwanted {
        Some(ps) => !any_finds(ps, id, name),
        None => true,
    }
}

/// Compiles a list of patterns, failing on the first that does not compile.
fn compile_all(patterns: &Vec<String>) -> (r: Result<Vec<Pattern>, String>)
    ensures
        r is Ok == all_compile(string_views(patterns@)),
        r matches Ok(ps) ==> sources(ps@) == string_views(patterns@),
        r matches Err(p) ==> string_views(patterns@).contains(p@) && !regex_compiles(p@),
{
    let mut out: Vec<Pattern> = Vec::new();
    let mut i: usize = 0;
    while i < patterns.len()
        invariant
            i <= patterns@.len(),
            sources(out@) == string_views(patterns@).subrange(0, i as int),
            forall|j: int| 0 <= j < i ==> regex_compiles(#[trigger] string_views(patterns@)[j]),
        decreases patterns@.len() - i,
    {
        match compile(&patterns[i]) {
            Ok(p) => {
                let ghost before = sources(out@);
                out.push(p);
                assert(sources(out@) =~= before.push(patterns@[i as int]@));
                assert(string_views(patterns@).subrange(0, i + 1) =~= string_views(patterns@).subrange(0, i as int).push(patterns@[i as int]@));
            },
            Err(_) => {
                assert(string_views(patterns@)[i as int] == patterns@[i as int]@);
                assert(!regex_compiles(string_views(patterns@)[i as int]));
                assert(string_views(patterns@).len() == patterns@.len());
                assert(!all_compile(string_views(patterns@)));
                return Err(patterns[i].clone());
            },
        }
        i = i + 1;
    }
    assert(string_views(patterns@).subrange(0, i as int) =~= string_views(patterns@));
    Ok(out)
}

/// Compiles an optional list of patterns of a filter setting.
fn compile_setting(patterns: &Option<Vec<String>>, setting: FilterSetting) -> (r: Result<Option<Vec<Pattern>>, FilterError>)
    ensures
        r is Ok == setting_compiles(opt_list_view(*patterns)),
        r matches Ok(ps) ==> match ps {
            Some(v) => opt_list_view(*patterns) == Some(sources(v@)),
            None => patterns is None,
        },
        r matches Err(e) ==> e.setting == setting,
{
    match patterns {
        None => Ok(None),
        Some(v) => match compile_all(v) {
            Ok(ps) => Ok(Some(ps)),
            Err(pattern) => Err(FilterError { setting, pattern }),
        },
    }
}

/// Whether some pattern matches the ID or the name.
fn any_pattern_finds(ps: &Vec<Pattern>, id: &str, name: &str) -> (r: bool)
    ensures
        r == any_finds(sources(ps@), id@, name@),
{
    let mut i: usize = 0;
    while i < ps.len()
        invariant
            i <= ps@.len(),
            forall|j: int| 0 <= j < i ==> !(regex_finds(sources(ps@)[j], id@) || regex_finds(sources(ps@)[j], name@)),
        decreases ps@.len() - i,
    {
        if finds(&ps[i], id) || finds(&ps[i], name) {
            assert(sources(ps@)[i as int] == ps@[i as int].source());
            return true;
        }
        i = i + 1;
    }
    false
}

/// Whether every pattern matches the ID or the name.
fn every_pattern_finds(ps: &Vec<Pattern>, id: &str, name: &str) -> (r: bool)
    ensures
        r == all_find(sources(ps@), id@, name@),
{
    let mut i: usize = 0;
    while i < ps.len()
        invariant
            i <= ps@.len(),
            forall|j: int| 0 <= j < i ==> (regex_finds(sources(ps@)[j], id@) || regex_finds(#[trigger] sources(ps@)[j], name@)),
        decreases ps@.len() - i,
    {
        if !(finds(&ps[i], id) || finds(&ps[i], name)) {
            assert(sources(ps@)[i as int] == ps@[i as int].source());
            return false;
        }
        i = i + 1;
    }
    true
}

/// Whether an entity passes compiled wanted and unwanted filters.
fn passes_compiled(wanted: &Option<Vec<Pattern>>, unwanted: &Option<Vec<Pattern>>, id: &str, name: &str) -> (r: bool)
    ensures
        r == passes(
            match wanted { Some(v) => Some(sources(v@)), None => None },
            match unwanted { Some(v) => Some(sources(v@)), None => None },
            id@,
            name@,
        ),
{
    let inc = match wanted {
        Some(v) => every_pattern_finds(v, id, name),
        None => true,
    };
    let ign = match unwanted {
        Some(v) => !any_pattern_finds(v, id, name),
        None => true,
    };
    inc && ign
}

/// Keeps the zones that pass the configured zone filters, in order. Fails,
/// naming the setting, when a zone filter pattern does not compile.
pub fn retain_zones(zones: &mut Vec<Zone>, opts: &ConfigOpts) -> (r: Result<(), FilterError>)
    ensures
        r is Ok == (setting_compiles(opt_list_view(opts.list.include_zones)) && setting_compiles(opt_list_view(opts.list.ignore_zones))),
        r is Ok ==> final(zones)@ == old(zones)@.filter(
            |z: Zone| passes(opt_list_view(opts.list.include_zones), opt_list_view(opts.list.ignore_zones), z.id@, z.name@),
        ),
        r matches Err(e) ==> (e.setting == FilterSetting::IncludeZones || e.setting == FilterSetting::IgnoreZones),
{
    let wanted = compile_setting(&opts.list.include_zones, FilterSetting::IncludeZones)?;
    let unwanted = compile_setting(&opts.list.ignore_zones, FilterSetting::IgnoreZones)?;
    let ghost keep = |z: Zone| passes(opt_list_view(opts.list.include_zones), opt_list_view(opts.list.ignore_zones), z.id@, z.name@);
    let ghost orig = zones@;
    let mut rest: Vec<Zone> = Vec::new();
    std::mem::swap(&mut rest, zones);
    let total: usize = rest.len();
    let mut k: usize = 0;
    while rest.len() > 0
        invariant
            k + rest@.len() == orig.len(),
            orig.len() == total,
            rest@ == orig.subrange(k as int, orig.len() as int),
            zones@ == orig.subrange(0, k as int).filter(keep),
            keep == (|z: Zone| passes(opt_list_view(opts.list.include_zones), opt_list_view(opts.list.ignore_zones), z.id@, z.name@)),
            match wanted { Some(v) => opt_list_view(opts.list.include_zones) == Some(sources(v@)), None => opts.list.include_zones is None },
            match unwanted { Some(v) => opt_list_view(opts.list.ignore_zones) == Some(sources(v@)), None => opts.list.ignore_zones is None },
        decreases rest@.len(),
    {
        let z = rest.remove(0);
        proof {
            assert(orig.subrange(0, k + 1) =~= orig.subrange(0, k as int).push(z));
            orig.subrange(0, k as int).lemma_filter_push(z, keep);
        }
        if passes_compiled(&wanted, &unwanted, z.id.as_str(), z.name.as_str()) {
            zones.push(z);
        }
        k = k + 1;
        assert(rest@ =~= orig.subrange(k as int, orig.len() as int));
    }
    assert(orig.subrange(0, k as int) =~= orig);
    Ok(())
}

/// Keeps the records that pass the configured record filters, in order.
/// Fails, naming the setting, when a record filter pattern does not compile.
pub fn retain_records(records: &mut Vec<Record>, opts: &ConfigOpts) -> (r: Result<(), FilterError>)
    ensures
        r is Ok == (setting_compiles(opt_list_view(opts.list.include_records)) && setting_compiles(opt_list_view(opts.list.ignore_records))),
        r is Ok ==> final(records)@ == old(records)@.filter(
            |x: Record| passes(opt_list_view(opts.list.include_records), opt_list_view(opts.list.ignore_records), x.id@, x.name@),
        ),
        r matches Err(e) ==> (e.setting == FilterSetting::IncludeRecords || e.setting == FilterSetting::IgnoreRecords),
{
    let wanted = compile_setting(&opts.list.include_records, FilterSetting::IncludeRecords)?;
    let unwanted = compile_setting(&opts.list.ignore_records, FilterSetting::IgnoreRecords)?;
    let ghost keep = |x: Record| passes(opt_list_view(opts.list.include_records), opt_list_view(opts.list.ignore_records), x.id@, x.name@);
    let ghost orig = records@;
    let mut rest: Vec<Record> = Vec::new();
    std::mem::swap(&mut rest, records);
    let total: usize = rest.len();
    let mut k: usize = 0;
    while rest.len() > 0
        invariant
            k + rest@.len() == orig.len(),
            orig.len() == total,
            rest@ == orig.subrange(k as int, orig.len() as int),
            records@ == orig.subrange(0, k as int).filter(keep),
            keep == (|x: Record| passes(opt_list_view(opts.list.include_records), opt_list_view(opts.list.ignore_records), x.id@, x.name@)),
            match wanted { Some(v) => opt_list_view(opts.list.include_records) == Some(sources(v@)), None => opts.list.include_records is None },
            match unwanted { Some(v) => opt_list_view(opts.list.ignore_records) == Some(sources(v@)), None => opts.list.ignore_records is None },
        decreases rest@.len(),
    {
        let x = rest.remove(0);
        proof {
            assert(orig.subrange(0, k + 1) =~= orig.subrange(0, k as int).push(x));
            orig.subrange(0, k as int).lemma_filter_push(x, keep);
        }
        if passes_compiled(&wanted, &unwanted, x.id.as_str(), x.name.as_str()) {
            records.push(x);
        }
        k = k + 1;
        assert(rest@ =~= orig.subrange(k as int, orig.len() as int));
    }
    assert(orig.subrange(0, k as int) =~= orig);
    Ok(())
}

/// The first zone whose ID or name equals `id`.
pub fn find_zone(zones: &Vec<Zone>, id: &str) -> (r: Option<Zone>)
    ensures
        match r {
            Some(z) => exists|i: int| {
                &&& 0 <= i < zones@.len()
                &&& (zones@[i].id@ == id@ || zones@[i].name@ == id@)
                &&& same_zone(z, zones@[i])
                &&& forall|j: int| 0 <= j < i ==> !(zones@[j].id@ == id@ || zones@[j].name@ == id@)
            },
            None => forall|j: int| 0 <= j < zones@.len() ==> !(zones@[j].id@ == id@ || zones@[j].name@ == id@),
        },
{
    let mut i: usize = 0;
    while i < zones.len()
        invariant
            i <= zones@.len(),
            forall|j: int| 0 <= j < i ==> !(zones@[j].id@ == id@ || zones@[j].name@ == id@),
        decreases zones@.len() - i,
    {
        if str_eq(zones[i].id.as_str(), id) || str_eq(zones[i].name.as_str(), id) {
            return Some(zones[i].duplicate());
        }
        i = i + 1;
    }
    None
}

/// The first record whose ID or name equals `id`.
pub fn find_record(records: &Vec<Record>, id: &str) -> (r: Option<Record>)
    ensures
        match r {
            Some(x) => exists|i: int| {
                &&& 0 <= i < records@.len()
                &&& (records@[i].id@ == id@ || records@[i].name@ == id@)
                &&& x == records@[i]
                &&& forall|j: int| 0 <= j < i ==> !(records@[j].id@ == id@ || records@[j].name@ == id@)
            },
            None => forall|j: int| 0 <= j < records@.len() ==> !(records@[j].id@ == id@ || records@[j].name@ == id@),
        },
{
    let mut i: usize = 0;
    while i < records.len()
        invariant
            i <= records@.len(),
            forall|j: int| 0 <= j < i ==> !(records@[j].id@ == id@ || records@[j].name@ == id@),
        decreases records@.len() - i,
    {
        if str_eq(records[i].id.as_str(), id) || str_eq(records[i].name.as_str(), id) {
            return Some(records[i].duplicate());
        }
        i = i + 1;
    }
    None
}

/// The positions of the records that belong to the zone with ID `zone_id`,
/// in order.
pub fn records_of_zone(records: &Vec<Record>, zone_id: &str) -> (r: Vec<usize>)
    ensures
        forall|t: int| 0 <= t < r@.len() ==> r@[t] < records@.len() && records@[r@[t] as int].zone_id@ == zone_id@,
        forall|t: int, u: int| 0 <= t < u < r@.len() ==> r@[t] < r@[u],
        forall|i: int| 0 <= i < records@.len() && records@[i].zone_id@ == zone_id@ ==> r@.contains(i as usize),
{
    let mut out: Vec<usize> = Vec::new();
    let mut i: usize = 0;
    while i < records.len()
        invariant
            i <= records@.len(),
            forall|t: int| 0 <= t < out@.len() ==> out@[t] < i && records@[out@[t] as int].zone_id@ == zone_id@,
            forall|t: int, u: int| 0 <= t < u < out@.len() ==> out@[t] < out@[u],
            forall|j: int| 0 <= j < i && records@[j].zone_id@ == zone_id@ ==> out@.contains(j as usize),
        decreases records@.len() - i,
    {
        if str_eq(records[i].zone_id.as_str(), zone_id) {
            let ghost before = out@;
            out.push(i);
            assert forall|j: int| 0 <= j < i + 1 && records@[j].zone_id@ == zone_id@ implies out@.contains(j as usize) by {
                if j < i {
                    let t = choose|t: int| 0 <= t < before.len() && before[t] == j as usize;
                    assert(out@[t] == j as usize);
                } else {
                    assert(out@[before.len() as int] == i);
                }
            };
        }
        i = i + 1;
    }
    out
}

/// The position chosen by a 1-based menu answer, when it names an option.
pub fn menu_choice(answer: usize, options: usize) -> (r: Option<usize>)
    ensures
        r == (if 0 < answer <= options { Some((answer - 1) as usize) } else { None::<usize> }),
{
    if answer > 0 && answer <= options {
        Some(answer - 1)
    } else {
        None
    }
}

} // verus!
