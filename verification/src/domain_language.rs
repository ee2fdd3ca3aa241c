use vstd::prelude::*;
use vstd::string::*;

use crate::json::precedes;
use crate::source_text::{
    alphanumeric, before, before_char, chars_of, count_char, count_of, find, find_in, first_at, first_word,
    first_word_of, has_prefix, is_alnum, joined, replace, replaced, slice, starts_with, string_of, strip_all_prefixes,
    strip_all_suffix_chars, strip_prefix, trim, trim_end_matches, trim_start, trim_start_matches, trimmed,
    trimmed_start, without_prefix, contains, strip_suffix, without_suffix,
};
use crate::text::str_eq;

verus! {

/// A field of a documented entity: its name, its type and its doc comment.
pub struct Field {
    pub name: String,
    pub field_type: String,
    pub doc: String,
}

/// A documented domain entity (a struct, an enum or a trait) with its documented fields.
pub struct Entity {
    pub kind: String,
    pub name: String,
    pub doc: String,
    pub fields: Vec<Field>,
}

/// A field as plain values.
pub struct FieldView {
    pub name: Seq<char>,
    pub field_type: Seq<char>,
    pub doc: Seq<char>,
}

/// An entity as plain values.
pub struct EntityView {
    pub kind: Seq<char>,
    pub name: Seq<char>,
    pub doc: Seq<char>,
    pub fields: Seq<FieldView>,
}

impl Field {
    pub open spec fn view(&self) -> FieldView {
        FieldView { name: self.name@, field_type: self.field_type@, doc: self.doc@ }
    }
}

/// The views of fields.
pub open spec fn fields_view(fields: Seq<Field>) -> Seq<FieldView> {
    fields.map_values(|f: Field| f.view())
}

impl Entity {
    pub open spec fn view(&self) -> EntityView {
        EntityView { kind: self.kind@, name: self.name@, doc: self.doc@, fields: fields_view(self.fields@) }
    }
}

/// The views of entities.
pub open spec fn entities_view(entities: Seq<Entity>) -> Seq<EntityView> {
    entities.map_values(|e: Entity| e.view())
}

/// The kind and the name that a (trimmed) line declares: a public struct, enum or trait.
pub open spec fn entity_header(line: Seq<char>) -> Option<(Seq<char>, Seq<char>)> {
    match without_prefix(line, "pub struct "@) {
        Some(rest) => match first_word(rest) {
            Some(w) => Some(("struct"@, w)),
            None => None,
        },
        None => match without_prefix(line, "pub enum "@) {
            Some(rest) => match first_word(rest) {
                Some(w) => Some(("enum"@, w)),
                None => None,
            },
            None => match without_prefix(line, "pub trait "@) {
                Some(rest) => match first_word(rest) {
                    Some(w) => Some(("trait"@, trimmed(before_char(w, ':')))),
                    None => None,
                },
                None => None,
            },
        },
    }
}

/// The field that a line declares, with the doc comment `doc`: `name: Type` or
/// `pub name: Type`, the type without a trailing comma and without `<'_>`.
pub open spec fn parsed_field(line: Seq<char>, doc: Seq<char>) -> Option<FieldView> {
    let t = trimmed(line);
    let rest = match without_prefix(t, "pub "@) {
        Some(r) => r,
        None => t,
    };
    match find_in(rest, ":"@) {
        None => None,
        Some(c) => {
            let name = trimmed(rest.subrange(0, c));
            let ty0 = trimmed(rest.subrange(c + 1, rest.len() as int));
            let ty = replaced(trimmed(strip_all_suffix_chars(ty0, ',')), "<'_>"@, Seq::empty());
            if name.len() == 0 || ty.len() == 0 {
                None
            } else {
                Some(FieldView { name, field_type: ty, doc })
            }
        },
    }
}

/// The text of a doc-comment line: without its indentation, its `///` and surrounding spaces.
pub open spec fn doc_text(line: Seq<char>) -> Seq<char> {
    trimmed(strip_all_prefixes(trimmed_start(line), "///"@))
}

/// The texts of the doc-comment lines right above line `k`, top first.
pub open spec fn docs_above(lines: Seq<Seq<char>>, k: int) -> Seq<Seq<char>>
    decreases k,
{
    if 0 < k <= lines.len() && has_prefix(trimmed_start(lines[k - 1]), "///"@) {
        docs_above(lines, k - 1).push(doc_text(lines[k - 1]))
    } else {
        Seq::empty()
    }
}

/// Whether a (trimmed) line in an entity's body declares a field, given the pending doc comment.
pub open spec fn declares_field(t: Seq<char>, pending: Seq<char>) -> bool {
    &&& pending.len() > 0
    &&& find_in(t, ":"@) is Some
    &&& !has_prefix(t, "fn "@)
    &&& !has_prefix(t, "#"@)
    &&& (has_prefix(t, "pub "@) || (t.len() > 0 && alphanumeric(t[0])))
}

/// The change in brace depth that a line makes.
pub open spec fn brace_change(t: Seq<char>) -> int {
    count_of(t, '{') - count_of(t, '}')
}

/// Where the reading of the source lines stands: between entities, or inside the body of one.
pub enum ParseState {
    Scanning,
    InBody { entity: EntityView, depth: int, pending: Seq<char> },
}

/// The entity started by a header line at position `i`.
pub open spec fn started_entity(lines: Seq<Seq<char>>, i: int, kind: Seq<char>, name: Seq<char>) -> EntityView {
    EntityView { kind, name, doc: joined(docs_above(lines, i), "\n"@), fields: Seq::empty() }
}

/// One line inside an entity's body: the new state, and the entity when the body ends there.
pub open spec fn body_step(entity: EntityView, depth: int, pending: Seq<char>, t: Seq<char>) -> (
    ParseState,
    Seq<EntityView>,
) {
    let d = depth + brace_change(t);
    let (fields, p) = if has_prefix(t, "///"@) {
        (entity.fields, trimmed(strip_all_prefixes(t, "///"@)))
    } else if declares_field(t, pending) {
        (
            match parsed_field(t, pending) {
                Some(f) => entity.fields.push(f),
                None => entity.fields,
            },
            Seq::<char>::empty(),
        )
    } else if !has_prefix(t, "#["@) {
        (entity.fields, Seq::<char>::empty())
    } else {
        (entity.fields, pending)
    };
    let e = EntityView { fields, ..entity };
    if d > 0 {
        (ParseState::InBody { entity: e, depth: d, pending: p }, Seq::empty())
    } else {
        (ParseState::Scanning, seq![e])
    }
}

/// The entities read from line `i` on, in state `st`.
pub open spec fn parse_run(lines: Seq<Seq<char>>, i: int, st: ParseState) -> Seq<EntityView>
    decreases lines.len() - i,
{
    if i >= lines.len() || i < 0 {
        match st {
            ParseState::Scanning => Seq::empty(),
            ParseState::InBody { entity, .. } => seq![entity],
        }
    } else {
        let t = trimmed(lines[i]);
        match st {
            ParseState::Scanning => match entity_header(t) {
                None => parse_run(lines, i + 1, ParseState::Scanning),
                Some((kind, name)) => {
                    let e = started_entity(lines, i, kind, name);
                    let d = brace_change(t);
                    if d > 0 {
                        parse_run(lines, i + 1, ParseState::InBody { entity: e, depth: d, pending: Seq::empty() })
                    } else {
                        seq![e] + parse_run(lines, i + 1, ParseState::Scanning)
                    }
                },
            },
            ParseState::InBody { entity, depth, pending } => {
                let (next, done) = body_step(entity, depth, pending, t);
                done + parse_run(lines, i + 1, next)
            },
        }
    }
}

/// The documented entities declared in a source file's lines, in order.
pub open spec fn parsed_entities(lines: Seq<Seq<char>>) -> Seq<EntityView> {
    parse_run(lines, 0, ParseState::Scanning)
}

/// The views of source lines.
pub open spec fn lines_view(lines: Seq<String>) -> Seq<Seq<char>> {
    lines.map_values(|l: String| l@)
}

fn header_of(t: &Vec<char>) -> (r: Option<(String, String)>)
    ensures
        match entity_header(t@) {
            Some((k, n)) => r is Some && r->Some_0.0@ == k && r->Some_0.1@ == n,
            None => r is None,
        },
{
    match strip_prefix(t, "pub struct ") {
        Some(rest) => {
            return match first_word_of(&rest) {
                Some(w) => Some((String::from_str("struct"), string_of(&w))),
                None => None,
            };
        },
        None => {},
    }
    match strip_prefix(t, "pub enum ") {
        Some(rest) => {
            return match first_word_of(&rest) {
                Some(w) => Some((String::from_str("enum"), string_of(&w))),
                None => None,
            };
        },
        None => {},
    }
    match strip_prefix(t, "pub trait ") {
        Some(rest) => match first_word_of(&rest) {
            Some(w) => {
                let head = before(&w, ':');
                Some((String::from_str("trait"), string_of(&trim(&head))))
            },
            None => None,
        },
        None => None,
    }
}

/// The kind and the name of the entity that a (trimmed) line declares, if it declares one.
pub fn try_parse_entity_header(line: &str) -> (r: Option<(String, String)>)
    ensures
        match entity_header(line@) {
            Some((k, n)) => r is Some && r->Some_0.0@ == k && r->Some_0.1@ == n,
            None => r is None,
        },
{
    header_of(&chars_of(line))
}

fn field_of(line: &Vec<char>, doc: &Vec<char>) -> (r: Option<Field>)
    ensures
        match parsed_field(line@, doc@) {
            Some(f) => r is Some && r->Some_0.view() == f,
            None => r is None,
        },
{
    let t = trim(line);
    let rest = match strip_prefix(&t, "pub ") {
        Some(r) => r,
        None => t,
    };
    let rest_len = rest.len();
    let found = find(&rest, ":");
    let c = match found {
        Some(c) => c,
        None => {
            return None;
        },
    };
    proof {
        reveal_strlit(":");
        assert(find_in(rest@, ":"@) is Some);
        let k = choose|k: int| first_at(rest@, ":"@, k);
        assert(first_at(rest@, ":"@, k));
        assert(k < rest_len);
        assert(found == Some(k as usize));
        assert(c as int == k);
        assert(c + 1 <= rest@.len());
    }
    let name = trim(&slice(&rest, 0, c));
    let ty0 = trim(&slice(&rest, c + 1, rest.len()));
    let ty1 = trim(&trim_end_matches(&ty0, ','));
    let ty = replace(&ty1, "<'_>", "");
    proof {
        reveal_strlit("");
        assert(""@ =~= Seq::<char>::empty());
    }
    if name.len() == 0 || ty.len() == 0 {
        None
    } else {
        Some(Field { name: string_of(&name), field_type: string_of(&ty), doc: string_of(doc) })
    }
}

/// The field that a line declares, with the doc comment `doc`, if it declares one.
pub fn try_parse_field(line: &str, doc: &str) -> (r: Option<Field>)
    ensures
        match parsed_field(line@, doc@) {
            Some(f) => r is Some && r->Some_0.view() == f,
            None => r is None,
        },
{
    field_of(&chars_of(line), &chars_of(doc))
}

/// The state that the variables of the reading loop stand for.
pub open spec fn state_of(cur: Option<EntityView>, depth: int, pending: Seq<char>) -> ParseState {
    match cur {
        None => ParseState::Scanning,
        Some(e) => ParseState::InBody { entity: e, depth, pending },
    }
}

/// The view of an entity that may be absent.
pub open spec fn opt_view(cur: Option<Entity>) -> Option<EntityView> {
    match cur {
        None => None,
        Some(e) => Some(e.view()),
    }
}

/// The doc comment right above line `i`: its lines' texts joined by newlines.
fn doc_block(lines: &Vec<String>, i: usize) -> (r: String)
    requires
        i <= lines@.len(),
    ensures
        r@ == joined(docs_above(lines_view(lines@), i as int), "\n"@),
{
    let ghost ls = lines_view(lines@);
    let mut k: usize = i;
    let mut out = String::new();
    let mut none_yet = true;
    let ghost mut collected: Seq<Seq<char>> = Seq::empty();
    proof {
        assert(docs_above(ls, i as int) =~= docs_above(ls, i as int) + collected);
    }
    loop
        invariant
            ls == lines_view(lines@),
            0 <= k <= i <= lines@.len(),
            docs_above(ls, i as int) == docs_above(ls, k as int) + collected,
            out@ == joined(collected, "\n"@),
            none_yet == (collected.len() == 0),
        ensures
            ls == lines_view(lines@),
            docs_above(ls, i as int) == docs_above(ls, k as int) + collected,
            out@ == joined(collected, "\n"@),
            docs_above(ls, k as int) =~= Seq::<Seq<char>>::empty(),
        decreases k,
    {
        if k == 0 {
            break;
        }
        let prev = chars_of(lines[k - 1].as_str());
        let head = trim_start(&prev);
        if !starts_with(&head, "///") {
            proof {
                assert(ls[k - 1] == lines@[k - 1]@);
            }
            break;
        }
        let doc = trim(&trim_start_matches(&head, "///"));
        let ghost d = doc@;
        proof {
            assert(ls[k - 1] == lines@[k - 1]@);
            assert(d == doc_text(ls[k - 1]));
            assert(docs_above(ls, k as int) == docs_above(ls, k - 1).push(d));
            assert(docs_above(ls, k - 1).push(d) + collected =~= docs_above(ls, k - 1) + (seq![d] + collected));
            assert((seq![d] + collected).drop_first() =~= collected);
        }
        let text = string_of(&doc);
        if none_yet {
            out = text;
            none_yet = false;
        } else {
            out = text.concat("\n").concat(out.as_str());
        }
        proof {
            collected = seq![d] + collected;
        }
        k = k - 1;
    }
    proof {
        assert(Seq::<Seq<char>>::empty() + collected =~= collected);
    }
    out
}

fn declares_field_exec(t: &Vec<char>, pending: &Vec<char>) -> (r: bool)
    ensures
        r == declares_field(t@, pending@),
{
    pending.len() > 0 && contains(t, ":") && !starts_with(t, "fn ") && !starts_with(t, "#") && (starts_with(t, "pub ")
        || (t.len() > 0 && is_alnum(t[0])))
}

/// Reads the documented entities declared in a source file's lines: each public struct, enum
/// or trait, with the doc comment above it and the documented fields of its body.
pub fn parse_lines(lines: &Vec<String>) -> (r: Vec<Entity>)
    requires
        crate::source_text::total_len(lines_view(lines@)) < 0x7fff_ffff,
    ensures
        entities_view(r@) == parsed_entities(lines_view(lines@)),
{
    let ghost ls = lines_view(lines@);
    let n = lines.len();
    let mut out: Vec<Entity> = Vec::new();
    let mut cur: Option<Entity> = None;
    let mut depth: i64 = 0;
    let mut pending: Vec<char> = Vec::new();
    let mut i: usize = 0;
    proof {
        assert(entities_view(out@) =~= Seq::<EntityView>::empty());
        assert(parsed_entities(ls) =~= entities_view(out@) + parse_run(ls, 0, state_of(opt_view(cur), depth as int, pending@)));
    }
    while i < n
        invariant
            n == lines@.len(),
            ls == lines_view(lines@),
            crate::source_text::total_len(ls) < 0x7fff_ffff,
            0 <= i <= n,
            -crate::source_text::total_len(ls.subrange(0, i as int)) <= depth <= crate::source_text::total_len(
                ls.subrange(0, i as int),
            ),
            parsed_entities(ls) == entities_view(out@) + parse_run(ls, i as int, state_of(opt_view(cur), depth as int, pending@)),
        decreases n - i,
    {
        let line = chars_of(lines[i].as_str());
        let t = trim(&line);
        proof {
            assert(ls[i as int] == lines@[i as int]@);
            crate::source_text::lemma_total_len_step(ls, i as int);
        }
        let opens = count_char(&t, '{');
        let closes = count_char(&t, '}');
        let change: i64 = opens as i64 - closes as i64;
        let ghost before = entities_view(out@);
        let ghost st = state_of(opt_view(cur), depth as int, pending@);
        match cur {
            None => {
                match header_of(&t) {
                    None => {
                        cur = None;
                    },
                    Some((kind, name)) => {
                        let doc = doc_block(lines, i);
                        let e = Entity { kind, name, doc, fields: Vec::new() };
                        proof {
                            assert(fields_view(e.fields@) =~= Seq::<FieldView>::empty());
                        }
                        if change > 0 {
                            cur = Some(e);
                            depth = change;
                            pending = Vec::new();
                        } else {
                            out.push(e);
                            cur = None;
                            proof {
                                assert(entities_view(out@) =~= before.push(e.view()));
                                assert(before + (seq![e.view()] + parse_run(ls, i + 1, ParseState::Scanning)) =~= entities_view(out@)
                                    + parse_run(ls, i + 1, ParseState::Scanning));
                            }
                        }
                    },
                }
            },
            Some(e0) => {
                let mut e = e0;
                let ghost fields_before = fields_view(e.fields@);
                let d = depth + change;
                if starts_with(&t, "///") {
                    pending = trim(&trim_start_matches(&t, "///"));
                } else if declares_field_exec(&t, &pending) {
                    match field_of(&t, &pending) {
                        Some(f) => {
                            e.fields.push(f);
                            proof {
                                assert(fields_view(e.fields@) =~= fields_before.push(f.view()));
                            }
                        },
                        None => {},
                    }
                    pending = Vec::new();
                } else if !starts_with(&t, "#[") {
                    pending = Vec::new();
                }
                depth = d;
                if d > 0 {
                    cur = Some(e);
                } else {
                    let ghost ev = e.view();
                    out.push(e);
                    cur = None;
                    proof {
                        assert(entities_view(out@) =~= before.push(ev));
                        assert(before + (seq![ev] + parse_run(ls, i + 1, ParseState::Scanning)) =~= entities_view(out@)
                            + parse_run(ls, i + 1, ParseState::Scanning));
                    }
                }
            },
        }
        i = i + 1;
    }
    match cur {
        None => {
            proof {
                assert(entities_view(out@) + Seq::<EntityView>::empty() =~= entities_view(out@));
            }
        },
        Some(e) => {
            let ghost before = entities_view(out@);
            out.push(e);
            proof {
                assert(entities_view(out@) =~= before.push(e.view()));
                assert(before + seq![e.view()] =~= entities_view(out@));
            }
        },
    }
    out
}

/// `sorted` with `e` inserted before the first entity whose name comes after `e`'s.
pub open spec fn insert_by_name(sorted: Seq<EntityView>, e: EntityView) -> Seq<EntityView>
    decreases sorted.len(),
{
    if sorted.len() == 0 {
        seq![e]
    } else if precedes(e.name, sorted[0].name) {
        seq![e] + sorted
    } else {
        seq![sorted[0]] + insert_by_name(sorted.drop_first(), e)
    }
}

/// The entities in order of their names; entities with equal names keep their order (what a
/// stable sort by name gives).
pub open spec fn sorted_by_name(s: Seq<EntityView>) -> Seq<EntityView>
    decreases s.len(),
{
    if s.len() == 0 {
        Seq::empty()
    } else {
        insert_by_name(sorted_by_name(s.drop_last()), s.last())
    }
}

/// Whether `a` comes strictly before `b` in the order of their characters.
pub fn name_precedes(a: &String, b: &String) -> (r: bool)
    ensures
        r == precedes(a@, b@),
{
    let x = chars_of(a.as_str());
    let y = chars_of(b.as_str());
    let mut i: usize = 0;
    assert(x@.subrange(0, x@.len() as int) =~= x@);
    assert(y@.subrange(0, y@.len() as int) =~= y@);
    while i < x.len() && i < y.len() && x[i] == y[i]
        invariant
            x@ == a@,
            y@ == b@,
            0 <= i <= x@.len(),
            i <= y@.len(),
            precedes(a@, b@) == precedes(x@.subrange(i as int, x@.len() as int), y@.subrange(i as int, y@.len() as int)),
        decreases x@.len() - i,
    {
        assert(x@.subrange(i as int, x@.len() as int).drop_first() =~= x@.subrange(i + 1, x@.len() as int));
        assert(y@.subrange(i as int, y@.len() as int).drop_first() =~= y@.subrange(i + 1, y@.len() as int));
        i = i + 1;
    }
    if i == y.len() {
        false
    } else if i == x.len() {
        true
    } else {
        x[i] < y[i]
    }
}

/// The entities in order of their names, entities with equal names in their given order.
pub fn sort_entities(entities: Vec<Entity>) -> (r: Vec<Entity>)
    ensures
        entities_view(r@) == sorted_by_name(entities_view(entities@)),
{
    let ghost all = entities_view(entities@);
    let mut rest = entities;
    let mut out: Vec<Entity> = Vec::new();
    let ghost mut k: int = 0;
    proof {
        assert(all.subrange(0, 0) =~= Seq::<EntityView>::empty());
        assert(entities_view(out@) =~= Seq::<EntityView>::empty());
        assert(entities_view(rest@) =~= all.subrange(0, all.len() as int));
    }
    while rest.len() > 0
        invariant
            0 <= k <= all.len(),
            entities_view(rest@) == all.subrange(k, all.len() as int),
            entities_view(out@) == sorted_by_name(all.subrange(0, k)),
        decreases rest@.len(),
    {
        let ghost rv = entities_view(rest@);
        let e = rest.remove(0);
        proof {
            assert(rv[0] == e.view());
            assert(entities_view(rest@) =~= rv.drop_first());
            assert(rv.drop_first() =~= all.subrange(k + 1, all.len() as int));
        }
        let ghost ov = entities_view(out@);
        let mut j: usize = 0;
        assert(ov.subrange(0, ov.len() as int) =~= ov);
        assert(ov.subrange(0, 0) + insert_by_name(ov.subrange(0, ov.len() as int), e.view()) =~= insert_by_name(ov, e.view()));
        while j < out.len() && !name_precedes(&e.name, &out[j].name)
            invariant
                ov == entities_view(out@),
                0 <= j <= ov.len(),
                insert_by_name(ov, e.view()) == ov.subrange(0, j as int) + insert_by_name(ov.subrange(j as int, ov.len() as int), e.view()),
            decreases ov.len() - j,
        {
            let ghost tail = ov.subrange(j as int, ov.len() as int);
            assert(tail[0] == out@[j as int].view());
            assert(tail.drop_first() =~= ov.subrange(j + 1, ov.len() as int));
            assert(ov.subrange(0, j + 1) =~= ov.subrange(0, j as int) + seq![tail[0]]);
            assert(ov.subrange(0, j as int) + (seq![tail[0]] + insert_by_name(tail.drop_first(), e.view())) =~= ov.subrange(0, j + 1)
                + insert_by_name(ov.subrange(j + 1, ov.len() as int), e.view()));
            j = j + 1;
        }
        let ghost ev = e.view();
        out.insert(j, e);
        proof {
            assert(entities_view(out@) =~= ov.subrange(0, j as int) + seq![ev] + ov.subrange(j as int, ov.len() as int));
            assert(all.subrange(0, k + 1).drop_last() =~= all.subrange(0, k));
            assert(all.subrange(0, k + 1).last() == ev);
            k = k + 1;
        }
    }
    proof {
        assert(all.subrange(0, k) =~= all);
    }
    out
}

/// The heading word for an entity's kind.
pub open spec fn kind_label(kind: Seq<char>) -> Seq<char> {
    if kind == "enum"@ {
        "Enum"@
    } else if kind == "struct"@ {
        "Struct"@
    } else if kind == "trait"@ {
        "Trait"@
    } else {
        kind
    }
}

/// The table row of a field: its name and type as code, and its description.
pub open spec fn field_row(f: FieldView) -> Seq<char> {
    "| `"@ + f.name + "` | `"@ + f.field_type + "` | "@ + f.doc + " |\n"@
}

/// The table rows of fields.
pub open spec fn field_rows(fs: Seq<FieldView>) -> Seq<char>
    decreases fs.len(),
{
    if fs.len() == 0 {
        Seq::empty()
    } else {
        field_rows(fs.drop_last()) + field_row(fs.last())
    }
}

/// The header of the field table.
pub open spec fn table_head() -> Seq<char> {
    "### Fields\n\n| Field | Type | Description |\n| ----- | ---- | ----------- |\n"@
}

/// The section of an entity: its name, its kind, its doc comment and its field table.
pub open spec fn entity_section(e: EntityView) -> Seq<char> {
    "## "@ + e.name + "\n\n**Kind:** "@ + kind_label(e.kind) + "\n\n"@ + (if e.doc.len() > 0 {
        e.doc + "\n\n"@
    } else {
        Seq::empty()
    }) + (if e.fields.len() > 0 {
        table_head() + field_rows(e.fields) + "\n"@
    } else {
        "\n"@
    })
}

/// The sections of entities, in order.
pub open spec fn sections(es: Seq<EntityView>) -> Seq<char>
    decreases es.len(),
{
    if es.len() == 0 {
        Seq::empty()
    } else {
        sections(es.drop_last()) + entity_section(es.last())
    }
}

/// The title of the domain language document.
pub open spec fn language_title() -> Seq<char> {
    "# Domain Language\n\nAuto-generated vocabulary of domain entities from source code.\n\n"@
}

/// The domain language document: a title, then one section per entity.
pub open spec fn language_text(es: Seq<EntityView>) -> Seq<char> {
    language_title() + sections(es)
}

fn kind_label_of(kind: &String) -> (r: String)
    ensures
        r@ == kind_label(kind@),
{
    if str_eq(kind.as_str(), "enum") {
        String::from_str("Enum")
    } else if str_eq(kind.as_str(), "struct") {
        String::from_str("Struct")
    } else if str_eq(kind.as_str(), "trait") {
        String::from_str("Trait")
    } else {
        kind.clone()
    }
}

fn section_of(e: &Entity) -> (r: String)
    ensures
        r@ == entity_section(e.view()),
{
    let mut out = String::from_str("## ").concat(e.name.as_str()).concat("\n\n**Kind:** ");
    let label = kind_label_of(&e.kind);
    out = out.concat(label.as_str()).concat("\n\n");
    if e.doc.as_str().unicode_len() > 0 {
        out = out.concat(e.doc.as_str()).concat("\n\n");
    }
    let ghost head = out@;
    assert(head == "## "@ + e.name@ + "\n\n**Kind:** "@ + kind_label(e.kind@) + "\n\n"@ + (if e.doc@.len() > 0 {
        e.doc@ + "\n\n"@
    } else {
        Seq::empty()
    })) by {
        if e.doc@.len() == 0 {
            assert(head =~= head + Seq::<char>::empty());
        }
    }
    let n = e.fields.len();
    if n > 0 {
        out = out.concat("### Fields\n\n| Field | Type | Description |\n| ----- | ---- | ----------- |\n");
        let ghost start = out@;
        let mut i: usize = 0;
        assert(fields_view(e.fields@).subrange(0, 0) =~= Seq::<FieldView>::empty());
        assert(start =~= start + field_rows(Seq::<FieldView>::empty()));
        while i < n
            invariant
                n == e.fields@.len(),
                0 <= i <= n,
                out@ == start + field_rows(fields_view(e.fields@).subrange(0, i as int)),
            decreases n - i,
        {
            let f = &e.fields[i];
            let ghost before = out@;
            out = out.concat("| `").concat(f.name.as_str()).concat("` | `").concat(f.field_type.as_str()).concat(
                "` | ",
            ).concat(f.doc.as_str()).concat(" |\n");
            proof {
                let fs = fields_view(e.fields@).subrange(0, i + 1);
                assert(fs.drop_last() =~= fields_view(e.fields@).subrange(0, i as int));
                assert(fs.last() == f.view());
                assert(out@ =~= before + field_row(f.view()));
            }
            i = i + 1;
        }
        out = out.concat("\n");
        proof {
            assert(fields_view(e.fields@).subrange(0, n as int) =~= fields_view(e.fields@));
        }
    } else {
        out = out.concat("\n");
    }
    out
}

/// The domain language document of the entities: a title, then one section per entity with its
/// kind, its doc comment and a table of its documented fields.
pub fn generate_domain_language(entities: &Vec<Entity>) -> (r: String)
    ensures
        r@ == language_text(entities_view(entities@)),
{
    let mut out = String::from_str(
        "# Domain Language\n\nAuto-generated vocabulary of domain entities from source code.\n\n",
    );
    let n = entities.len();
    let mut i: usize = 0;
    let ghost all = entities_view(entities@);
    assert(all.subrange(0, 0) =~= Seq::<EntityView>::empty());
    assert(out@ =~= language_title() + sections(Seq::<EntityView>::empty()));
    while i < n
        invariant
            n == entities@.len(),
            all == entities_view(entities@),
            0 <= i <= n,
            out@ == language_title() + sections(all.subrange(0, i as int)),
        decreases n - i,
    {
        let section = section_of(&entities[i]);
        let ghost before = out@;
        out = out.concat(section.as_str());
        proof {
            let es = all.subrange(0, i + 1);
            assert(es.drop_last() =~= all.subrange(0, i as int));
            assert(es.last() == entities@[i as int].view());
            assert(out@ =~= before + entity_section(entities@[i as int].view()));
        }
        i = i + 1;
    }
    assert(all.subrange(0, n as int) =~= all);
    out
}

/// The part of `t` between the prefix `pre` and the suffix `suf`, when it has both.
pub open spec fn between(t: Seq<char>, pre: Seq<char>, suf: Seq<char>) -> Option<Seq<char>> {
    match without_prefix(t, pre) {
        Some(a) => without_suffix(a, suf),
        None => None,
    }
}

/// A type as the class diagram shows it: the inner type of an `Option<..>`, a `Box<dyn ..>` or
/// a `Box<..>`, else the type itself.
pub open spec fn mermaid_type(t: Seq<char>) -> Seq<char> {
    match between(t, "Option<"@, ">"@) {
        Some(inner) => trimmed(inner),
        None => match between(t, "Box<dyn "@, ">"@) {
            Some(inner) => trimmed(inner),
            None => match between(t, "Box<"@, ">"@) {
                Some(inner) => trimmed(inner),
                None => t,
            },
        },
    }
}

/// The entity a type refers to: the diagram's type up to its first `<`.
pub open spec fn relation_type(t: Seq<char>) -> Seq<char> {
    let c = mermaid_type(t);
    match find_in(c, "<"@) {
        Some(b) => trimmed(c.subrange(0, b)),
        None => c,
    }
}

fn between_exec(t: &Vec<char>, pre: &str, suf: &str) -> (r: Option<Vec<char>>)
    ensures
        match between(t@, pre@, suf@) {
            Some(x) => r is Some && r->Some_0@ == x,
            None => r is None,
        },
{
    match strip_prefix(t, pre) {
        Some(a) => strip_suffix(&a, suf),
        None => None,
    }
}

fn mermaid_type_of(t: &Vec<char>) -> (r: Vec<char>)
    ensures
        r@ == mermaid_type(t@),
{
    if let Some(inner) = between_exec(t, "Option<", ">") {
        return trim(&inner);
    }
    if let Some(inner) = between_exec(t, "Box<dyn ", ">") {
        return trim(&inner);
    }
    if let Some(inner) = between_exec(t, "Box<", ">") {
        return trim(&inner);
    }
    slice(t, 0, t.len())
}

/// A type as the class diagram shows it.
pub fn clean_type_for_mermaid(t: &str) -> (r: String)
    ensures
        r@ == mermaid_type(t@),
{
    let c = chars_of(t);
    proof {
        assert(c@.subrange(0, c@.len() as int) =~= c@);
    }
    string_of(&mermaid_type_of(&c))
}

fn relation_type_of(t: &Vec<char>) -> (r: Vec<char>)
    ensures
        r@ == relation_type(t@),
{
    let c = mermaid_type_of(t);
    match find(&c, "<") {
        Some(b) => trim(&slice(&c, 0, b)),
        None => c,
    }
}

/// The entity a type refers to, as the class diagram's relationships name it.
pub fn clean_type_for_relationship(t: &str) -> (r: String)
    ensures
        r@ == relation_type(t@),
{
    string_of(&relation_type_of(&chars_of(t)))
}

/// The stereotype line of an entity's class.
pub open spec fn stereotype(kind: Seq<char>) -> Seq<char> {
    if kind == "enum"@ {
        "    <<enum>>\n"@
    } else if kind == "trait"@ {
        "    <<trait>>\n"@
    } else {
        Seq::empty()
    }
}

/// The member lines of a class: one per field, its type then its name.
pub open spec fn member_lines(fs: Seq<FieldView>) -> Seq<char>
    decreases fs.len(),
{
    if fs.len() == 0 {
        Seq::empty()
    } else {
        member_lines(fs.drop_last()) + "    "@ + mermaid_type(fs.last().field_type) + " : "@ + fs.last().name + "\n"@
    }
}

/// The class of an entity in the diagram.
pub open spec fn class_block(e: EntityView) -> Seq<char> {
    "  class "@ + e.name + " {\n"@ + stereotype(e.kind) + (if e.doc.len() > 0 {
        "    "@ + replaced(e.doc, "\""@, "\\\""@) + "\n"@
    } else {
        Seq::empty()
    }) + member_lines(e.fields) + "  }\n\n"@
}

/// The classes of entities, in order.
pub open spec fn class_blocks(es: Seq<EntityView>) -> Seq<char>
    decreases es.len(),
{
    if es.len() == 0 {
        Seq::empty()
    } else {
        class_blocks(es.drop_last()) + class_block(es.last())
    }
}

/// Whether some entity is named `name`.
pub open spec fn names_entity(es: Seq<EntityView>, name: Seq<char>) -> bool {
    exists|k: int| 0 <= k < es.len() && #[trigger] es[k].name == name
}

/// The relationship lines of one entity's fields: one per field whose type refers to a known
/// entity.
pub open spec fn field_relations(all: Seq<EntityView>, owner: Seq<char>, fs: Seq<FieldView>) -> Seq<char>
    decreases fs.len(),
{
    if fs.len() == 0 {
        Seq::empty()
    } else {
        let f = fs.last();
        let target = relation_type(f.field_type);
        field_relations(all, owner, fs.drop_last()) + if names_entity(all, target) {
            "  "@ + owner + " --> \""@ + f.name + "\" "@ + target + "\n"@
        } else {
            Seq::empty()
        }
    }
}

/// The relationship lines of entities, in order.
pub open spec fn relations(all: Seq<EntityView>, es: Seq<EntityView>) -> Seq<char>
    decreases es.len(),
{
    if es.len() == 0 {
        Seq::empty()
    } else {
        relations(all, es.drop_last()) + field_relations(all, es.last().name, es.last().fields)
    }
}

/// The head of the class diagram.
pub open spec fn mermaid_head() -> Seq<char> {
    "```mermaid\n%% Domain Model \u{2014} auto-generated from rustdoc\nclassDiagram\n\n"@
}

/// The class diagram of entities: a class per entity, then the relationships between them.
pub open spec fn mermaid_text(es: Seq<EntityView>) -> Seq<char> {
    mermaid_head() + class_blocks(es) + relations(es, es) + "```\n"@
}

fn has_entity(entities: &Vec<Entity>, name: &String) -> (r: bool)
    ensures
        r == names_entity(entities_view(entities@), name@),
{
    let n = entities.len();
    let mut k: usize = 0;
    while k < n
        invariant
            n == entities@.len(),
            0 <= k <= n,
            forall|j: int| 0 <= j < k ==> entities@[j].name@ != name@,
        decreases n - k,
    {
        if str_eq(entities[k].name.as_str(), name.as_str()) {
            assert(entities_view(entities@)[k as int].name == name@);
            return true;
        }
        k = k + 1;
    }
    assert forall|j: int| 0 <= j < entities_view(entities@).len() implies #[trigger] entities_view(entities@)[j].name != name@ by {
        assert(entities_view(entities@)[j] == entities@[j].view());
    }
    false
}

fn class_of(e: &Entity) -> (r: String)
    ensures
        r@ == class_block(e.view()),
{
    let mut out = String::from_str("  class ").concat(e.name.as_str()).concat(" {\n");
    if str_eq(e.kind.as_str(), "enum") {
        out = out.concat("    <<enum>>\n");
    } else if str_eq(e.kind.as_str(), "trait") {
        out = out.concat("    <<trait>>\n");
    } else {
        assert(out@ =~= out@ + Seq::<char>::empty());
    }
    let ghost after_kind = out@;
    if e.doc.as_str().unicode_len() > 0 {
        let doc = chars_of(e.doc.as_str());
        let escaped = string_of(&replace(&doc, "\"", "\\\""));
        out = out.concat("    ").concat(escaped.as_str()).concat("\n");
    } else {
        assert(out@ =~= out@ + Seq::<char>::empty());
    }
    let ghost start = out@;
    let n = e.fields.len();
    let mut i: usize = 0;
    assert(fields_view(e.fields@).subrange(0, 0) =~= Seq::<FieldView>::empty());
    assert(start =~= start + member_lines(Seq::<FieldView>::empty()));
    while i < n
        invariant
            n == e.fields@.len(),
            0 <= i <= n,
            out@ == start + member_lines(fields_view(e.fields@).subrange(0, i as int)),
        decreases n - i,
    {
        let f = &e.fields[i];
        let shown = clean_type_for_mermaid(f.field_type.as_str());
        let ghost before = out@;
        out = out.concat("    ").concat(shown.as_str()).concat(" : ").concat(f.name.as_str()).concat("\n");
        proof {
            let fs = fields_view(e.fields@).subrange(0, i + 1);
            assert(fs.drop_last() =~= fields_view(e.fields@).subrange(0, i as int));
            assert(fs.last() == f.view());
            assert(out@ =~= before + ("    "@ + mermaid_type(f.field_type@) + " : "@ + f.name@ + "\n"@));
        }
        i = i + 1;
    }
    assert(fields_view(e.fields@).subrange(0, n as int) =~= fields_view(e.fields@));
    out = out.concat("  }\n\n");
    out
}

fn relations_of(all: &Vec<Entity>, e: &Entity) -> (r: String)
    ensures
        r@ == field_relations(entities_view(all@), e.name@, fields_view(e.fields@)),
{
    let mut out = String::new();
    let n = e.fields.len();
    let mut i: usize = 0;
    assert(fields_view(e.fields@).subrange(0, 0) =~= Seq::<FieldView>::empty());
    while i < n
        invariant
            n == e.fields@.len(),
            0 <= i <= n,
            out@ == field_relations(entities_view(all@), e.name@, fields_view(e.fields@).subrange(0, i as int)),
        decreases n - i,
    {
        let f = &e.fields[i];
        let target = clean_type_for_relationship(f.field_type.as_str());
        let ghost before = out@;
        if has_entity(all, &target) {
            out = out.concat("  ").concat(e.name.as_str()).concat(" --> \"").concat(f.name.as_str()).concat("\" ").concat(
                target.as_str(),
            ).concat("\n");
        } else {
            assert(out@ =~= before + Seq::<char>::empty());
        }
        proof {
            let fs = fields_view(e.fields@).subrange(0, i + 1);
            assert(fs.drop_last() =~= fields_view(e.fields@).subrange(0, i as int));
            assert(fs.last() == f.view());
        }
        i = i + 1;
    }
    assert(fields_view(e.fields@).subrange(0, n as int) =~= fields_view(e.fields@));
    out
}

/// The class diagram of the entities, in Mermaid's syntax: a class per entity with its kind, its
/// doc comment and its fields, then an arrow for each field whose type is a known entity.
pub fn generate_mermaid(entities: &Vec<Entity>) -> (r: String)
    ensures
        r@ == mermaid_text(entities_view(entities@)),
{
    let ghost all = entities_view(entities@);
    let mut out = String::from_str("```mermaid\n%% Domain Model \u{2014} auto-generated from rustdoc\nclassDiagram\n\n");
    let n = entities.len();
    let mut i: usize = 0;
    assert(all.subrange(0, 0) =~= Seq::<EntityView>::empty());
    assert(out@ =~= mermaid_head() + class_blocks(Seq::<EntityView>::empty()));
    while i < n
        invariant
            n == entities@.len(),
            all == entities_view(entities@),
            0 <= i <= n,
            out@ == mermaid_head() + class_blocks(all.subrange(0, i as int)),
        decreases n - i,
    {
        let block = class_of(&entities[i]);
        let ghost before = out@;
        out = out.concat(block.as_str());
        proof {
            let es = all.subrange(0, i + 1);
            assert(es.drop_last() =~= all.subrange(0, i as int));
            assert(es.last() == entities@[i as int].view());
            assert(out@ =~= before + class_block(entities@[i as int].view()));
        }
        i = i + 1;
    }
    assert(all.subrange(0, n as int) =~= all);
    let ghost classes = out@;
    let mut j: usize = 0;
    assert(classes =~= classes + relations(all, Seq::<EntityView>::empty()));
    while j < n
        invariant
            n == entities@.len(),
            all == entities_view(entities@),
            0 <= j <= n,
            out@ == classes + relations(all, all.subrange(0, j as int)),
        decreases n - j,
    {
        let lines = relations_of(entities, &entities[j]);
        let ghost before = out@;
        out = out.concat(lines.as_str());
        proof {
            let es = all.subrange(0, j + 1);
            assert(es.drop_last() =~= all.subrange(0, j as int));
            assert(es.last() == entities@[j as int].view());
            assert(out@ =~= before + field_relations(all, entities@[j as int].name@, fields_view(entities@[j as int].fields@)));
        }
        j = j + 1;
    }
    out = out.concat("```\n");
    out
}

/// Whether a source file named `file_name` (with the `rs` extension) is read for entities: not
/// the crate roots `lib.rs` and `main.rs`, and not a file whose name begins with `bin`.
pub fn is_domain_source(file_name: &str) -> (r: bool)
    ensures
        r == !(file_name@ == "lib.rs"@ || file_name@ == "main.rs"@ || has_prefix(file_name@, "bin"@)),
{
    !(str_eq(file_name, "lib.rs") || str_eq(file_name, "main.rs") || starts_with(&chars_of(file_name), "bin"))
}

/// Whether no entity comes after one whose name it precedes.
pub open spec fn ordered_by_name(s: Seq<EntityView>) -> bool {
    forall|i: int, j: int| 0 <= i < j < s.len() ==> !precedes(#[trigger] s[j].name, #[trigger] s[i].name)
}

proof fn lemma_insert_by_name(s: Seq<EntityView>, e: EntityView)
    ensures
        insert_by_name(s, e).to_multiset() =~= s.to_multiset().insert(e),
        ordered_by_name(s) ==> ordered_by_name(insert_by_name(s, e)),
    decreases s.len(),
{
    broadcast use vstd::seq_lib::group_to_multiset_ensures, vstd::multiset::group_multiset_axioms;

    if s.len() == 0 {
        assert(seq![e] =~= Seq::<EntityView>::empty().push(e));
    } else if precedes(e.name, s[0].name) {
        let r = seq![e] + s;
        vstd::seq_lib::lemma_multiset_commutative(seq![e], s);
        assert(seq![e] =~= Seq::<EntityView>::empty().push(e));
        if ordered_by_name(s) {
            assert forall|i: int, j: int| 0 <= i < j < r.len() implies !precedes(#[trigger] r[j].name, #[trigger] r[i].name) by {
                if i == 0 {
                    let k = j - 1;
                    assert(r[j] == s[k]);
                    if precedes(s[k].name, e.name) {
                        crate::json::lemma_precedes_transitive(s[k].name, e.name, s[0].name);
                        if k == 0 {
                            crate::json::lemma_precedes_irreflexive(s[0].name);
                        } else {
                            assert(!precedes(s[k].name, s[0].name));
                        }
                    }
                } else {
                    assert(r[i] == s[i - 1] && r[j] == s[j - 1]);
                }
            }
        }
    } else {
        let rest = s.drop_first();
        let ins = insert_by_name(rest, e);
        let r = seq![s[0]] + ins;
        lemma_insert_by_name(rest, e);
        vstd::seq_lib::lemma_multiset_commutative(seq![s[0]], ins);
        vstd::seq_lib::lemma_multiset_commutative(seq![s[0]], rest);
        assert(s =~= seq![s[0]] + rest);
        if ordered_by_name(s) {
            assert(ordered_by_name(rest)) by {
                assert forall|i: int, j: int| 0 <= i < j < rest.len() implies !precedes(#[trigger] rest[j].name, #[trigger] rest[i].name) by {
                    assert(rest[i] == s[i + 1] && rest[j] == s[j + 1]);
                }
            }
            assert forall|i: int, j: int| 0 <= i < j < r.len() implies !precedes(#[trigger] r[j].name, #[trigger] r[i].name) by {
                if i == 0 {
                    let x = r[j];
                    assert(x == ins[j - 1]);
                    assert(ins.contains(x));
                    assert(ins.to_multiset().count(x) > 0);
                    if x != e {
                        assert(rest.to_multiset().count(x) > 0);
                        assert(rest.contains(x));
                        let k = choose|k: int| 0 <= k < rest.len() && rest[k] == x;
                        assert(s[k + 1] == x);
                        assert(!precedes(s[k + 1].name, s[0].name));
                    }
                } else {
                    assert(r[i] == ins[i - 1] && r[j] == ins[j - 1]);
                }
            }
        }
    }
}

/// Sorting gives the same entities, ordered so that none comes after one whose name it
/// precedes.
pub proof fn law_sorted_by_name(s: Seq<EntityView>)
    ensures
        ordered_by_name(sorted_by_name(s)),
        sorted_by_name(s).to_multiset() =~= s.to_multiset(),
    decreases s.len(),
{
    broadcast use vstd::seq_lib::group_to_multiset_ensures;

    if s.len() > 0 {
        law_sorted_by_name(s.drop_last());
        lemma_insert_by_name(sorted_by_name(s.drop_last()), s.last());
        assert(s =~= s.drop_last().push(s.last()));
    } else {
        assert(s.to_multiset() =~= vstd::multiset::Multiset::<EntityView>::empty()) by {
            broadcast use vstd::multiset::group_multiset_axioms;
            assert(s =~= Seq::<EntityView>::empty());
        }
    }
}

/// Law of the kind labels: each of the three kinds is labelled with its own capitalised name.
pub proof fn law_kind_labels()
    ensures
        kind_label("enum"@) == "Enum"@,
        kind_label("struct"@) == "Struct"@,
        kind_label("trait"@) == "Trait"@,
{
    reveal_strlit("enum");
    reveal_strlit("struct");
    reveal_strlit("trait");
    assert("enum"@.len() == 4 && "struct"@.len() == 6 && "trait"@.len() == 5);
}

} // verus!
