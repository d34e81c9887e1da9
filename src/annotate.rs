//! Best-effort annotation of a serialized inventory: at the end of each
//! zone key line and each record line, a comment giving the other half of
//! the entry's live ID/name.
//!
//! The serialized text is accepted only when it is exactly the plain layout
//! of the zone entries (`<zone>:` lines, each followed by its `- <record>`
//! lines); each comment is then written at the end of its own entry's line.
use vstd::prelude::*;
use crate::cloudflare::{Record, Zone, same_zone};
use crate::filters::{find_record, find_zone};
use crate::inventory::{InventoryZone, zone_records};
use crate::text::str_eq;

verus! {

/// One line of the layout: its text and the comment that may follow it.
pub struct Line {
    pub base: Seq<char>,
    pub comment: Option<Seq<char>>,
}

/// A line as the annotation pass holds it.
pub struct LineEntry {
    pub base: String,
    pub comment: Option<String>,
}

impl LineEntry {
    pub open spec fn view(&self) -> Line {
        Line {
            base: self.base@,
            comment: match self.comment {
                Some(c) => Some(c@),
                None => None,
            },
        }
    }
}

/// The live zones and records that annotations are looked up in.
pub struct InventoryPostProcessor {
    pub zones: Vec<Zone>,
    pub records: Vec<Record>,
}

pub open spec fn line_views(ls: Seq<LineEntry>) -> Seq<Line> {
    ls.map_values(|l: LineEntry| l.view())
}

pub open spec fn zone_hit(z: Zone, fp: Seq<char>) -> bool {
    z.id@ == fp || z.name@ == fp
}

pub open spec fn first_zone_at(zs: Seq<Zone>, fp: Seq<char>, i: int) -> bool {
    &&& 0 <= i < zs.len()
    &&& zone_hit(zs[i], fp)
    &&& forall|j: int| 0 <= j < i ==> !zone_hit(zs[j], fp)
}

/// The other half of the ID/name of the first live zone that `fp` names.
pub open spec fn zone_alias(zs: Seq<Zone>, fp: Seq<char>) -> Option<Seq<char>> {
    if exists|i: int| first_zone_at(zs, fp, i) {
        let i = choose|i: int| first_zone_at(zs, fp, i);
        Some(if zs[i].id@ == fp { zs[i].name@ } else { zs[i].id@ })
    } else {
        None
    }
}

pub open spec fn record_hit(r: Record, fp: Seq<char>) -> bool {
    r.id@ == fp || r.name@ == fp
}

pub open spec fn first_record_at(rs: Seq<Record>, fp: Seq<char>, i: int) -> bool {
    &&& 0 <= i < rs.len()
    &&& record_hit(rs[i], fp)
    &&& forall|j: int| 0 <= j < i ==> !record_hit(rs[j], fp)
}

/// The other half of the ID/name of the first live record that `fp` names.
pub open spec fn record_alias(rs: Seq<Record>, fp: Seq<char>) -> Option<Seq<char>> {
    if exists|i: int| first_record_at(rs, fp, i) {
        let i = choose|i: int| first_record_at(rs, fp, i);
        Some(if rs[i].id@ == fp { rs[i].name@ } else { rs[i].id@ })
    } else {
        None
    }
}


/// The comment that names an alias.
pub open spec fn comment_for(alias: Seq<char>) -> Seq<char> {
    " # '"@ + alias + "'"@
}

/// The comment for an alias, when the alias is known.
pub open spec fn comment_of(alias: Option<Seq<char>>) -> Option<Seq<char>> {
    match alias {
        Some(a) => Some(comment_for(a)),
        None => None,
    }
}

/// The lines of one zone entry: the zone key with its colon, then one
/// `- <record>` line per record, each with the comment naming its alias.
pub open spec fn entry_lines(g: InventoryZone, zs: Seq<Zone>, rs: Seq<Record>) -> Seq<Line> {
    seq![Line { base: g.id@ + ":"@, comment: comment_of(zone_alias(zs, g.id@)) }]
        + zone_records(g).map_values(|r: Seq<char>| Line { base: "- "@ + r, comment: comment_of(record_alias(rs, r)) })
}

/// The lines of all zone entries, in order.
pub open spec fn layout(entries: Seq<InventoryZone>, zs: Seq<Zone>, rs: Seq<Record>) -> Seq<Line>
    decreases entries.len(),
{
    if entries.len() == 0 {
        Seq::empty()
    } else {
        layout(entries.drop_last(), zs, rs) + entry_lines(entries.last(), zs, rs)
    }
}

/// The text of one line, with or without its comment, ending in a newline.
pub open spec fn line_text(l: Line, with_comments: bool) -> Seq<char> {
    match (with_comments, l.comment) {
        (true, Some(c)) => l.base + c + seq!['\n'],
        _ => l.base + seq!['\n'],
    }
}

/// The text of a sequence of lines.
pub open spec fn render(lines: Seq<Line>, with_comments: bool) -> Seq<char>
    decreases lines.len(),
{
    if lines.len() == 0 {
        Seq::empty()
    } else {
        line_text(lines[0], with_comments) + render(lines.drop_first(), with_comments)
    }
}

/// Lines that can carry trailing comments safely: every comment is known and
/// stays on its line, and no line text holds a `#` or a line break.
pub open spec fn well_placed(lines: Seq<Line>) -> bool {
    forall|i: int| 0 <= i < lines.len() ==> {
        &&& (#[trigger] lines[i]).comment is Some
        &&& !lines[i].comment.unwrap().contains('\n')
        &&& !lines[i].base.contains('#')
        &&& !lines[i].base.contains('\n')
    }
}

/// The annotated text, when `text` is exactly the plain layout of the
/// entries and the layout is well placed.
pub open spec fn annotation(text: Seq<char>, entries: Seq<InventoryZone>, zs: Seq<Zone>, rs: Seq<Record>) -> Option<Seq<char>> {
    let lines = layout(entries, zs, rs);
    if text == render(lines, false) && well_placed(lines) {
        Some(render(lines, true))
    } else {
        None
    }
}

/// A text with its comments removed: on each line, a space followed by `#`
/// and everything after it up to the line break.
pub open spec fn strip_comments(t: Seq<char>, in_comment: bool) -> Seq<char>
    decreases t.len(),
{
    if t.len() == 0 {
        t
    } else if in_comment {
        if t[0] == '\n' {
            seq!['\n'] + strip_comments(t.drop_first(), false)
        } else {
            strip_comments(t.drop_first(), true)
        }
    } else if t.len() >= 2 && t[0] == ' ' && t[1] == '#' {
        strip_comments(t.subrange(2, t.len() as int), true)
    } else {
        seq![t[0]] + strip_comments(t.drop_first(), false)
    }
}

/// A comment that opens with a space and `#`.
pub open spec fn comment_shaped(c: Option<Seq<char>>) -> bool {
    match c {
        Some(c) => c.len() >= 2 && c[0] == ' ' && c[1] == '#',
        None => true,
    }
}

proof fn lemma_strip_plain_prefix(a: Seq<char>, b: Seq<char>)
    requires
        !a.contains('#'),
        b.len() == 0 || b[0] != '#',
    ensures
        strip_comments(a + b, false) == a + strip_comments(b, false),
    decreases a.len(),
{
    if a.len() > 0 {
        let t = a + b;
        assert(t[0] == a[0]);
        if t.len() >= 2 {
            if a.len() >= 2 {
                assert(t[1] == a[1]);
            } else {
                assert(t[1] == b[0]);
            }
        }
        assert(t.drop_first() =~= a.drop_first() + b);
        assert forall|k: int| 0 <= k < a.drop_first().len() implies a.drop_first()[k] != '#' by {
            assert(a.drop_first()[k] == a[k + 1]);
        };
        lemma_strip_plain_prefix(a.drop_first(), b);
        assert(seq![a[0]] + a.drop_first() =~= a);
        assert(seq![a[0]] + (a.drop_first() + strip_comments(b, false)) =~= a + strip_comments(b, false));
    } else {
        assert(a + b =~= b);
        assert(a + strip_comments(b, false) =~= strip_comments(b, false));
    }
}

proof fn lemma_strip_comment_body(c: Seq<char>, r: Seq<char>)
    requires
        !c.contains('\n'),
    ensures
        strip_comments(c + seq!['\n'] + r, true) == seq!['\n'] + strip_comments(r, false),
    decreases c.len(),
{
    let t = c + seq!['\n'] + r;
    if c.len() > 0 {
        assert(t[0] == c[0]);
        assert(t.drop_first() =~= c.drop_first() + seq!['\n'] + r);
        assert forall|k: int| 0 <= k < c.drop_first().len() implies c.drop_first()[k] != '\n' by {
            assert(c.drop_first()[k] == c[k + 1]);
        };
        lemma_strip_comment_body(c.drop_first(), r);
    } else {
        assert(t =~= seq!['\n'] + r);
        assert(t[0] == '\n');
        assert(t.drop_first() =~= r);
    }
}

proof fn lemma_strip_line(l: Line, rest: Seq<char>)
    requires
        !l.base.contains('#'),
        comment_shaped(l.comment),
        l.comment is Some ==> !l.comment.unwrap().contains('\n'),
    ensures
        strip_comments(line_text(l, true) + rest, false) == line_text(l, false) + strip_comments(rest, false),
{
    match l.comment {
        Some(c) => {
            let b = c + seq!['\n'] + rest;
            assert(line_text(l, true) + rest =~= l.base + b);
            assert(b[0] == ' ');
            lemma_strip_plain_prefix(l.base, b);
            let body = c.subrange(2, c.len() as int);
            assert(b.subrange(2, b.len() as int) =~= body + seq!['\n'] + rest);
            assert forall|k: int| 0 <= k < body.len() implies body[k] != '\n' by {
                assert(body[k] == c[k + 2]);
            };
            lemma_strip_comment_body(body, rest);
            assert(line_text(l, false) + strip_comments(rest, false) =~= l.base + (seq!['\n'] + strip_comments(rest, false)));
        },
        None => {
            let b = seq!['\n'] + rest;
            assert(line_text(l, true) + rest =~= l.base + b);
            lemma_strip_plain_prefix(l.base, b);
            assert(b[0] == '\n');
            assert(b.drop_first() =~= rest);
            assert(line_text(l, false) + strip_comments(rest, false) =~= l.base + (seq!['\n'] + strip_comments(rest, false)));
        },
    }
}

/// Removing the comments from an annotated text gives back the plain text:
/// the annotation only appends a trailing comment to lines, and changes no
/// key or record.
pub proof fn lemma_comments_removed(lines: Seq<Line>)
    requires
        well_placed(lines),
        forall|i: int| 0 <= i < lines.len() ==> comment_shaped((#[trigger] lines[i]).comment),
    ensures
        strip_comments(render(lines, true), false) == render(lines, false),
    decreases lines.len(),
{
    if lines.len() > 0 {
        let l = lines[0];
        assert(lines[0] == l);
        lemma_strip_line(l, render(lines.drop_first(), true));
        assert forall|i: int| 0 <= i < lines.drop_first().len() implies {
            &&& (#[trigger] lines.drop_first()[i]).comment is Some
            &&& !lines.drop_first()[i].comment.unwrap().contains('\n')
            &&& !lines.drop_first()[i].base.contains('#')
            &&& !lines.drop_first()[i].base.contains('\n')
        } by {
            assert(lines.drop_first()[i] == lines[i + 1]);
        };
        assert forall|i: int| 0 <= i < lines.drop_first().len() implies comment_shaped((#[trigger] lines.drop_first()[i]).comment) by {
            assert(lines.drop_first()[i] == lines[i + 1]);
        };
        lemma_comments_removed(lines.drop_first());
    }
}

/// An annotated inventory, with its comments removed, is the text that was
/// annotated.
pub proof fn lemma_annotation_keeps_text(text: Seq<char>, entries: Seq<InventoryZone>, zs: Seq<Zone>, rs: Seq<Record>)
    requires
        annotation(text, entries, zs, rs) is Some,
    ensures
        strip_comments(annotation(text, entries, zs, rs).unwrap(), false) == text,
{
    let lines = layout(entries, zs, rs);
    assert forall|i: int| 0 <= i < lines.len() implies comment_shaped((#[trigger] lines[i]).comment) by {
        lemma_layout_comments(entries, zs, rs, i);
    };
    lemma_comments_removed(lines);
}

proof fn lemma_comment_shape(a: Seq<char>)
    ensures
        comment_for(a).len() >= 2,
        comment_for(a)[0] == ' ',
        comment_for(a)[1] == '#',
{
    reveal_strlit(" # '");
    assert(comment_for(a)[0] == " # '"@[0]);
    assert(comment_for(a)[1] == " # '"@[1]);
}

proof fn lemma_layout_comments(entries: Seq<InventoryZone>, zs: Seq<Zone>, rs: Seq<Record>, i: int)
    requires
        0 <= i < layout(entries, zs, rs).len(),
    ensures
        comment_shaped(layout(entries, zs, rs)[i].comment),
    decreases entries.len(),
{
    let pre = layout(entries.drop_last(), zs, rs);
    if i < pre.len() {
        lemma_layout_comments(entries.drop_last(), zs, rs, i);
    } else {
        let k = i - pre.len();
        let el = entry_lines(entries.last(), zs, rs);
        assert(layout(entries, zs, rs)[i] == el[k]);
        if k > 0 {
            let fps = zone_records(entries.last());
            assert(el[k] == Line { base: "- "@ + fps[k - 1], comment: comment_of(record_alias(rs, fps[k - 1])) });
            if let Some(a) = record_alias(rs, fps[k - 1]) {
                lemma_comment_shape(a);
            }
        } else {
            if let Some(a) = zone_alias(zs, entries.last().id@) {
                lemma_comment_shape(a);
            }
        }
    }
}

proof fn lemma_first_zone_unique(zs: Seq<Zone>, fp: Seq<char>, i: int, k: int)
    requires
        first_zone_at(zs, fp, i),
        first_zone_at(zs, fp, k),
    ensures
        i == k,
{
}

proof fn lemma_first_record_unique(rs: Seq<Record>, fp: Seq<char>, i: int, k: int)
    requires
        first_record_at(rs, fp, i),
        first_record_at(rs, fp, k),
    ensures
        i == k,
{
}


proof fn lemma_render_push(lines: Seq<Line>, l: Line, with_comments: bool)
    ensures
        render(lines.push(l), with_comments) == render(lines, with_comments) + line_text(l, with_comments),
    decreases lines.len(),
{
    if lines.len() == 0 {
        assert(lines.push(l).drop_first() =~= Seq::<Line>::empty());
        assert(lines.push(l)[0] == l);
        assert(render(Seq::<Line>::empty(), with_comments) == Seq::<char>::empty());
        assert(render(lines.push(l), with_comments) =~= line_text(l, with_comments) + Seq::<char>::empty());
        assert(render(lines, with_comments) == Seq::<char>::empty());
    } else {
        assert(lines.push(l).drop_first() =~= lines.drop_first().push(l));
        assert(lines.push(l)[0] == lines[0]);
        lemma_render_push(lines.drop_first(), l, with_comments);
        assert(render(lines.push(l), with_comments) =~= render(lines, with_comments) + line_text(l, with_comments));
    }
}

proof fn lemma_layout_push(entries: Seq<InventoryZone>, zs: Seq<Zone>, rs: Seq<Record>, i: int)
    requires
        0 <= i < entries.len(),
    ensures
        layout(entries.subrange(0, i + 1), zs, rs) == layout(entries.subrange(0, i), zs, rs) + entry_lines(entries[i], zs, rs),
{
    assert(entries.subrange(0, i + 1).drop_last() =~= entries.subrange(0, i));
}

/// Whether a character occurs in a string.
fn has_char(s: &str, c: char) -> (r: bool)
    ensures
        r == s@.contains(c),
{
    let n = s.unicode_len();
    let mut i: usize = 0;
    while i < n
        invariant
            n == s@.len(),
            i <= n,
            forall|j: int| 0 <= j < i ==> s@[j] != c,
        decreases n - i,
    {
        if s.get_char(i) == c {
            return true;
        }
        i = i + 1;
    }
    false
}

/// The comment that names an alias.
fn comment(alias: &str) -> (r: String)
    ensures
        r@ == comment_for(alias@),
{
    let mut c = " # '".to_owned();
    c.append(alias);
    c.append("'");
    c
}

/// The text of a sequence of lines, with or without their comments.
pub fn render_lines(lines: &Vec<LineEntry>, with_comments: bool) -> (r: String)
    ensures
        r@ == render(line_views(lines@), with_comments),
{
    let ghost ls = line_views(lines@);
    let mut out = String::new();
    let mut i: usize = 0;
    assert(ls.subrange(0, 0) =~= Seq::<Line>::empty());
    while i < lines.len()
        invariant
            ls == line_views(lines@),
            i <= lines@.len(),
            out@ == render(ls.subrange(0, i as int), with_comments),
        decreases lines@.len() - i,
    {
        let l = &lines[i];
        let ghost before = out@;
        out.append(l.base.as_str());
        if with_comments {
            match &l.comment {
                Some(c) => out.append(c.as_str()),
                None => {},
            }
        }
        out.append("\n");
        proof {
            reveal_strlit("\n");
            assert(ls.subrange(0, i + 1) =~= ls.subrange(0, i as int).push(ls[i as int]));
            lemma_render_push(ls.subrange(0, i as int), ls[i as int], with_comments);
            assert(out@ =~= before + line_text(ls[i as int], with_comments));
        }
        i = i + 1;
    }
    assert(ls.subrange(0, i as int) =~= ls);
    out
}

/// Whether every line can carry its trailing comment safely.
pub fn lines_well_placed(lines: &Vec<LineEntry>) -> (r: bool)
    ensures
        r == well_placed(line_views(lines@)),
{
    let ghost ls = line_views(lines@);
    let mut i: usize = 0;
    while i < lines.len()
        invariant
            ls == line_views(lines@),
            i <= lines@.len(),
            forall|j: int| 0 <= j < i ==> {
                &&& (#[trigger] ls[j]).comment is Some
                &&& !ls[j].comment.unwrap().contains('\n')
                &&& !ls[j].base.contains('#')
                &&& !ls[j].base.contains('\n')
            },
        decreases lines@.len() - i,
    {
        let l = &lines[i];
        assert(ls[i as int] == l.view());
        let ok = match &l.comment {
            Some(c) => !has_char(c.as_str(), '\n'),
            None => false,
        };
        if !ok || has_char(l.base.as_str(), '#') || has_char(l.base.as_str(), '\n') {
            return false;
        }
        i = i + 1;
    }
    true
}

impl InventoryPostProcessor {
    /// A post-processor over a live snapshot.
    pub fn from(zones: Vec<Zone>, records: Vec<Record>) -> (r: InventoryPostProcessor)
        ensures
            r.zones == zones,
            r.records == records,
    {
        InventoryPostProcessor { zones, records }
    }

    /// The alias of the first live zone that `fp` names.
    fn zone_alias_of(&self, fp: &String) -> (r: Option<String>)
        ensures
            match r {
                Some(a) => zone_alias(self.zones@, fp@) == Some(a@),
                None => zone_alias(self.zones@, fp@) is None,
            },
    {
        match find_zone(&self.zones, fp.as_str()) {
            None => {
                assert(!exists|i: int| first_zone_at(self.zones@, fp@, i));
                None
            },
            Some(z) => {
                proof {
                    let i = choose|i: int| {
                        &&& 0 <= i < self.zones@.len()
                        &&& (self.zones@[i].id@ == fp@ || self.zones@[i].name@ == fp@)
                        &&& same_zone(z, self.zones@[i])
                        &&& forall|j: int| 0 <= j < i ==> !(self.zones@[j].id@ == fp@ || self.zones@[j].name@ == fp@)
                    };
                    assert(first_zone_at(self.zones@, fp@, i));
                    let c = choose|c: int| first_zone_at(self.zones@, fp@, c);
                    lemma_first_zone_unique(self.zones@, fp@, i, c);
                }
                if str_eq(fp.as_str(), z.id.as_str()) {
                    Some(z.name)
                } else {
                    Some(z.id)
                }
            },
        }
    }

    /// The alias of the first live record that `fp` names.
    fn record_alias_of(&self, fp: &String) -> (r: Option<String>)
        ensures
            match r {
                Some(a) => record_alias(self.records@, fp@) == Some(a@),
                None => record_alias(self.records@, fp@) is None,
            },
    {
        match find_record(&self.records, fp.as_str()) {
            None => {
                assert(!exists|i: int| first_record_at(self.records@, fp@, i));
                None
            },
            Some(x) => {
                proof {
                    let i = choose|i: int| {
                        &&& 0 <= i < self.records@.len()
                        &&& (self.records@[i].id@ == fp@ || self.records@[i].name@ == fp@)
                        &&& x == self.records@[i]
                        &&& forall|j: int| 0 <= j < i ==> !(self.records@[j].id@ == fp@ || self.records@[j].name@ == fp@)
                    };
                    assert(first_record_at(self.records@, fp@, i));
                    let c = choose|c: int| first_record_at(self.records@, fp@, c);
                    lemma_first_record_unique(self.records@, fp@, i, c);
                }
                if str_eq(fp.as_str(), x.id.as_str()) {
                    Some(x.name)
                } else {
                    Some(x.id)
                }
            },
        }
    }

    /// The lines of the given zone entries, in order, with their comments.
    pub fn lines(&self, entries: &Vec<InventoryZone>) -> (r: Vec<LineEntry>)
        ensures
            line_views(r@) == layout(entries@, self.zones@, self.records@),
    {
        let ghost zs = self.zones@;
        let ghost rs = self.records@;
        let mut out: Vec<LineEntry> = Vec::new();
        let mut i: usize = 0;
        assert(layout(entries@.subrange(0, 0), zs, rs) =~= Seq::<Line>::empty());
        while i < entries.len()
            invariant
                zs == self.zones@,
                rs == self.records@,
                i <= entries@.len(),
                line_views(out@) == layout(entries@.subrange(0, i as int), zs, rs),
            decreases entries@.len() - i,
        {
            let g = &entries[i];
            let ghost base = line_views(out@);
            let mut key = g.id.clone();
            key.append(":");
            let zc = match self.zone_alias_of(&g.id) {
                Some(a) => Some(comment(a.as_str())),
                None => None,
            };
            out.push(LineEntry { base: key, comment: zc });
            let ghost head = Line { base: g.id@ + ":"@, comment: comment_of(zone_alias(zs, g.id@)) };
            assert(line_views(out@) =~= base + seq![head]);
            let ghost fps = zone_records(*g);
            let mut j: usize = 0;
            while j < g.records.len()
                invariant
                    zs == self.zones@,
                    rs == self.records@,
                    i < entries@.len(),
                    *g == entries@[i as int],
                    fps == zone_records(*g),
                    j <= g.records@.len(),
                    line_views(out@) == base + seq![head]
                        + fps.subrange(0, j as int).map_values(|r: Seq<char>| Line { base: "- "@ + r, comment: comment_of(record_alias(rs, r)) }),
                decreases g.records@.len() - j,
            {
                let ghost before = line_views(out@);
                let rec = &g.records[j].0;
                let mut line = "- ".to_owned();
                line.append(rec.as_str());
                let rc = match self.record_alias_of(rec) {
                    Some(a) => Some(comment(a.as_str())),
                    None => None,
                };
                out.push(LineEntry { base: line, comment: rc });
                assert(fps.subrange(0, j + 1) =~= fps.subrange(0, j as int).push(fps[j as int]));
                assert(line_views(out@) =~= before.push(Line { base: "- "@ + rec@, comment: comment_of(record_alias(rs, rec@)) }));
                assert(line_views(out@) =~= base + seq![head]
                    + fps.subrange(0, j + 1).map_values(|r: Seq<char>| Line { base: "- "@ + r, comment: comment_of(record_alias(rs, r)) }));
                j = j + 1;
            }
            assert(fps.subrange(0, j as int) =~= fps);
            proof {
                lemma_layout_push(entries@, zs, rs, i as int);
            }
            assert(line_views(out@) =~= layout(entries@.subrange(0, i + 1), zs, rs));
            i = i + 1;
        }
        assert(entries@.subrange(0, i as int) =~= entries@);
        out
    }

    /// Annotates a serialized inventory whose zone entries are `entries`:
    /// each zone key line and each record line gets, at its end, a comment
    /// naming the entry's live alias. None when the text is not exactly the
    /// plain layout of the entries, or when an alias is unknown or would
    /// leave its line.
    pub fn post_process(&self, text: &String, entries: &Vec<InventoryZone>) -> (r: Option<String>)
        ensures
            match r {
                Some(s) => annotation(text@, entries@, self.zones@, self.records@) == Some(s@),
                None => annotation(text@, entries@, self.zones@, self.records@) is None,
            },
    {
        let lines = self.lines(entries);
        if !lines_well_placed(&lines) {
            return None;
        }
        let plain = render_lines(&lines, false);
        if !str_eq(plain.as_str(), text.as_str()) {
            return None;
        }
        Some(render_lines(&lines, true))
    }

    /// The annotated text, or the text unchanged when annotation fails: a
    /// failed annotation never prevents the save.
    pub fn annotate_or_plain(&self, text: String, entries: &Vec<InventoryZone>) -> (r: String)
        ensures
            r@ == match annotation(text@, entries@, self.zones@, self.records@) {
                Some(s) => s,
                None => text@,
            },
            annotation(text@, entries@, self.zones@, self.records@) is Some ==> strip_comments(r@, false) == text@,
    {
        match self.post_process(&text, entries) {
            Some(s) => {
                proof {
                    lemma_annotation_keeps_text(text@, entries@, self.zones@, self.records@);
                }
                s
            },
            None => text,
        }
    }
}

} // verus!
