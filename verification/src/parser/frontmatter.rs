//! Front-matter framing and decoding.

use vstd::prelude::*;

use crate::error::FrontMatterProblem;
use crate::model::{DocumentId, Reference, TextSet};
use crate::text::{
    chars_of, string_from, string_from_range, slice_range, strip_end, trailing_class, CharClass,
    owned, text_eq, lemma_trail_bound,
};
use crate::yaml::{scalar_string, scalar_text, YamlNode};

verus! {

/// The text without a leading byte-order mark.
pub open spec fn without_bom(s: Seq<char>) -> Seq<char> {
    if s.len() > 0 && s[0] == '\u{feff}' {
        s.drop_first()
    } else {
        s
    }
}

/// Position of the first `\n` at or after `p`, or the end of the text.
pub open spec fn line_end(s: Seq<char>, p: int) -> int
    decreases s.len() - p,
{
    if p >= s.len() {
        s.len() as int
    } else if s[p] == '\n' {
        p
    } else {
        line_end(s, p + 1)
    }
}

/// The three-character delimiter `---`.
pub open spec fn dashes() -> Seq<char> {
    seq!['-', '-', '-']
}

/// The three-character delimiter `...`.
pub open spec fn dots() -> Seq<char> {
    seq!['.', '.', '.']
}

/// The line starting at `p`, without its trailing carriage returns.
pub open spec fn line_text(s: Seq<char>, p: int) -> Seq<char> {
    strip_end(s.subrange(p, line_end(s, p)), CharClass::Exactly('\r'))
}

/// Whether the text opens with a `---` line.
pub open spec fn opens_front_matter(s: Seq<char>) -> bool {
    line_text(s, 0) == dashes()
}

/// Whether `p` starts a line at or after `y`.
pub open spec fn line_start_from(s: Seq<char>, y: int, p: int) -> bool {
    y <= p <= s.len() && (p == y || s[p - 1] == '\n')
}

/// Whether the line starting at `p` closes front matter (`---` or `...`).
pub open spec fn closes_at(s: Seq<char>, p: int) -> bool {
    line_text(s, p) == dashes() || line_text(s, p) == dots()
}

/// Start of the YAML text: just after the opening line.
pub open spec fn yaml_start(s: Seq<char>) -> int {
    line_end(s, 0) + 1
}

/// Whether the line at `p` is the first closing line of the front matter.
pub open spec fn first_close(s: Seq<char>, p: int) -> bool {
    &&& line_start_from(s, yaml_start(s), p)
    &&& closes_at(s, p)
    &&& forall|q: int| #[trigger]
        line_start_from(s, yaml_start(s), q) && q < p ==> !closes_at(s, q)
}

/// Start of the body after a closing line at `p`.
pub open spec fn body_start(s: Seq<char>, p: int) -> int {
    if line_end(s, p) < s.len() {
        line_end(s, p) + 1
    } else {
        line_end(s, p)
    }
}

/// The two parts of a Markdown source.
#[derive(Debug)]
pub enum FrontMatterParts {
    /// No front matter: the whole text is the body.
    Absent(String),
    /// YAML front matter and the body after its closing line.
    Present {
        /// YAML text between the delimiter lines.
        yaml: String,
        /// Text after the closing delimiter line.
        body: String,
    },
}

pub proof fn lemma_line_end_bounds(s: Seq<char>, p: int)
    requires
        0 <= p <= s.len(),
    ensures
        p <= line_end(s, p) <= s.len(),
        forall|j: int| p <= j < line_end(s, p) ==> s[j] != '\n',
        line_end(s, p) < s.len() ==> s[line_end(s, p)] == '\n',
    decreases s.len() - p,
{
    if p < s.len() && s[p] != '\n' {
        lemma_line_end_bounds(s, p + 1);
    }
}

/// Finds the end of the line starting at `p`.
fn find_line_end(s: &Vec<char>, p: usize) -> (r: usize)
    requires
        p <= s@.len(),
    ensures
        r == line_end(s@, p as int),
        p <= r <= s@.len(),
{
    let mut i = p;
    while i < s.len() && s[i] != '\n'
        invariant
            p <= i <= s@.len(),
            line_end(s@, p as int) == line_end(s@, i as int),
        decreases s@.len() - i,
    {
        i = i + 1;
    }
    i
}

/// Whether the line `s[start..end]` reads `---` or `...` after trailing carriage returns.
fn line_matches(s: &Vec<char>, start: usize, end: usize, dots_too: bool) -> (r: bool)
    requires
        start <= end <= s@.len(),
    ensures
        r == (strip_end(s@.subrange(start as int, end as int), CharClass::Exactly('\r')) == dashes()
            || (dots_too && strip_end(s@.subrange(start as int, end as int), CharClass::Exactly('\r'))
            == dots())),
{
    let line = slice_range(s, start, end);
    let cut = trailing_class(&line, CharClass::Exactly('\r'));
    proof {
        lemma_trail_bound(line@, CharClass::Exactly('\r'));
    }
    let n = line.len() - cut;
    let ghost l = strip_end(line@, CharClass::Exactly('\r'));
    assert(l =~= line@.take(n as int));
    if n != 3 {
        assert(l.len() != dashes().len());
        assert(l.len() != dots().len());
        return false;
    }
    let is_dashes = line[0] == '-' && line[1] == '-' && line[2] == '-';
    let is_dots = line[0] == '.' && line[1] == '.' && line[2] == '.';
    proof {
        if is_dashes {
            assert(l =~= dashes());
        } else {
            assert(l[0] != '-' || l[1] != '-' || l[2] != '-');
            assert(l != dashes());
        }
        if is_dots {
            assert(l =~= dots());
        } else {
            assert(l[0] != '.' || l[1] != '.' || l[2] != '.');
            assert(l != dots());
        }
    }
    is_dashes || (dots_too && is_dots)
}

/// Splits optional YAML front matter from a Markdown source. `Err(())` when an opening `---`
/// line has no closing `---` or `...` line.
pub fn split_front_matter(input: &str) -> (r: Result<FrontMatterParts, ()>)
    ensures
        ({
            let s = without_bom(input@);
            match r {
                Err(()) => opens_front_matter(s) && forall|q: int|
                    #[trigger] line_start_from(s, yaml_start(s), q) ==> !closes_at(s, q),
                Ok(FrontMatterParts::Absent(body)) => !opens_front_matter(s) && body@ == s,
                Ok(FrontMatterParts::Present { yaml, body }) => opens_front_matter(s) && exists|p: int|
                    first_close(s, p) && yaml@ == s.subrange(yaml_start(s), p) && body@ == s.skip(
                        body_start(s, p),
                    ),
            }
        }),
{
    let all = chars_of(input);
    let s = if all.len() > 0 && all[0] == '\u{feff}' {
        slice_range(&all, 1, all.len())
    } else {
        slice_range(&all, 0, all.len())
    };
    assert(s@ == without_bom(input@)) by {
        if all@.len() > 0 && all@[0] == '\u{feff}' {
            assert(all@.subrange(1, all@.len() as int) =~= all@.drop_first());
        } else {
            assert(all@.subrange(0, all@.len() as int) =~= all@);
        }
    }
    let first_end = find_line_end(&s, 0);
    proof {
        lemma_line_end_bounds(s@, 0);
    }
    if !line_matches(&s, 0, first_end, false) {
        return Ok(FrontMatterParts::Absent(string_from(&s)));
    }
    if first_end == s.len() {
        return Err(());
    }
    let ys = first_end + 1;
    let mut line_start = ys;
    loop
        invariant
            ys == yaml_start(s@),
            s@ == without_bom(input@),
            ys <= line_start <= s@.len(),
            line_start_from(s@, ys as int, line_start as int),
            opens_front_matter(s@),
            forall|q: int| #[trigger]
                line_start_from(s@, ys as int, q) && q < line_start ==> !closes_at(s@, q),
        decreases s@.len() - line_start,
    {
        let end = find_line_end(&s, line_start);
        proof {
            lemma_line_end_bounds(s@, line_start as int);
        }
        if line_matches(&s, line_start, end, true) {
            let body_from = if end < s.len() {
                end + 1
            } else {
                end
            };
            let yaml = string_from_range(&s, ys, line_start);
            let body = string_from_range(&s, body_from, s.len());
            assert(first_close(s@, line_start as int));
            assert(s@.subrange(body_from as int, s@.len() as int) =~= s@.skip(body_start(s@, line_start as int)));
            assert(yaml@ == s@.subrange(yaml_start(s@), line_start as int));
            assert(exists|p: int|
                first_close(s@, p) && yaml@ == s@.subrange(yaml_start(s@), p) && body@ == s@.skip(
                    body_start(s@, p),
                ));
            return Ok(FrontMatterParts::Present { yaml, body });
        }
        if end == s.len() {
            proof {
                assert forall|q: int| #[trigger] line_start_from(s@, ys as int, q) implies !closes_at(
                    s@,
                    q,
                ) by {
                    if q > line_start {
                        assert(line_start <= q - 1 < end);
                        assert(s@[q - 1] != '\n');
                    } else if q == line_start {
                        assert(!closes_at(s@, q));
                    }
                }
            }
            return Err(());
        }
        proof {
            assert forall|q: int| #[trigger]
                line_start_from(s@, ys as int, q) && q < end + 1 implies !closes_at(s@, q) by {
                if q > line_start {
                    assert(s@[q - 1] != '\n');
                }
            }
        }
        line_start = end + 1;
    }
}

/// Decoded front-matter fields.
#[derive(Debug)]
pub struct FrontMatter {
    /// Explicit identifier.
    pub id: Option<String>,
    /// Explicit title.
    pub title: Option<String>,
    /// Summary.
    pub summary: Option<String>,
    /// Tags.
    pub tags: TextSet,
    /// Aliases.
    pub aliases: TextSet,
    /// Links (`links`, or its alias `references`).
    pub links: Vec<Reference>,
    /// Unrecognized fields in document order.
    pub extra: Vec<(String, YamlNode)>,
}

/// Decodes an optional text field: null reads as absent, a string scalar as its text.
pub open spec fn optional_text(v: YamlNode) -> Option<Option<Seq<char>>> {
    match v {
        YamlNode::Null => Some(None),
        _ => match scalar_text(v) {
            Some(t) => Some(Some(t)),
            None => None,
        },
    }
}

/// Texts of a list of string scalars; `None` when the value is not such a list (null included).
pub open spec fn text_items(v: YamlNode) -> Option<Seq<Seq<char>>> {
    match v {
        YamlNode::List(items) => if forall|i: int|
            0 <= i < items@.len() ==> scalar_text(#[trigger] items@[i]) is Some {
            Some(items@.map_values(|n: YamlNode| scalar_text(n)->0))
        } else {
            None
        },
        _ => None,
    }
}

fn decode_optional_text(field: &str, v: &YamlNode) -> (r: Result<Option<String>, FrontMatterProblem>)
    ensures
        match r {
            Ok(t) => optional_text(*v) == Some(
                match t {
                    Some(s) => Some(s@),
                    None => None,
                },
            ),
            Err(p) => optional_text(*v) is None && (p matches FrontMatterProblem::InvalidField(f) && f@ == field@),
        },
{
    match v {
        YamlNode::Null => Ok(None),
        _ => match scalar_string(v) {
            Some(s) => Ok(Some(s)),
            None => Err(FrontMatterProblem::InvalidField(owned(field))),
        },
    }
}

fn decode_text_set(field: &str, v: &YamlNode) -> (r: Result<TextSet, FrontMatterProblem>)
    ensures
        match r {
            Ok(set) => text_items(*v) is Some && set@.to_set() == text_items(*v)->0.to_set(),
            Err(p) => text_items(*v) is None && (p matches FrontMatterProblem::InvalidField(f) && f@ == field@),
        },
{
    let mut set = TextSet::new();
    match v {
        YamlNode::List(items) => {
            let mut i: usize = 0;
            while i < items.len()
                invariant
                    i <= items@.len(),
                    *v == YamlNode::List(*items),
                    forall|j: int| 0 <= j < i ==> scalar_text(#[trigger] items@[j]) is Some,
                    set@.to_set() == items@.take(i as int).map_values(
                        |n: YamlNode| scalar_text(n)->0,
                    ).to_set(),
                decreases items@.len() - i,
            {
                match scalar_string(&items[i]) {
                    Some(t) => {
                        let ghost tv = t@;
                        let ghost before = set@;
                        set.insert(t);
                        proof {
                            let m = |n: YamlNode| scalar_text(n)->0;
                            assert(items@.take(i + 1).map_values(m) =~= items@.take(
                                i as int,
                            ).map_values(m).push(tv));
                            items@.take(i as int).map_values(m).lemma_push_to_set_commute(tv);
                        }
                    },
                    None => {
                        assert(scalar_text(items@[i as int]) is None);
                        assert(!(forall|j: int|
                            0 <= j < items@.len() ==> scalar_text(#[trigger] items@[j]) is Some));
                        return Err(FrontMatterProblem::InvalidField(owned(field)));
                    },
                }
                i = i + 1;
            }
            assert(items@.take(items@.len() as int) =~= items@);
            Ok(set)
        },
        _ => Err(FrontMatterProblem::InvalidField(owned(field))),
    }
}

} // verus!

verus! {

/// Text of the first key of a mapping entry list equal to `name`, with its value.
pub open spec fn lookup(entries: Seq<(YamlNode, YamlNode)>, name: Seq<char>) -> Option<YamlNode>
    decreases entries.len(),
{
    if entries.len() == 0 {
        None
    } else if scalar_text(entries[0].0) == Some(name) {
        Some(entries[0].1)
    } else {
        lookup(entries.drop_first(), name)
    }
}

/// How a link item reads: `(target, relation)`, or `None` when it has the wrong shape.
/// A string scalar is a `related` shorthand; a mapping needs a string `target` and may carry a
/// string `relation`; other keys of the mapping are ignored.
pub open spec fn link_of(item: YamlNode) -> Option<(Seq<char>, Seq<char>)> {
    match item {
        YamlNode::Mapping(entries) => match lookup(entries@, "target"@) {
            Some(t) => match scalar_text(t) {
                Some(target) => match lookup(entries@, "relation"@) {
                    None => Some((target, "related"@)),
                    Some(rv) => match scalar_text(rv) {
                        Some(relation) => Some((target, relation)),
                        None => None,
                    },
                },
                None => None,
            },
            None => None,
        },
        _ => match scalar_text(item) {
            Some(target) => Some((target, "related"@)),
            None => None,
        },
    }
}

/// Finds the first entry whose key reads `name`.
fn lookup_entry<'a>(entries: &'a Vec<(YamlNode, YamlNode)>, name: &str) -> (r: Option<&'a YamlNode>)
    ensures
        match r {
            Some(v) => lookup(entries@, name@) == Some(*v),
            None => lookup(entries@, name@) is None,
        },
{
    let mut i: usize = 0;
    assert(entries@.skip(0) =~= entries@);
    while i < entries.len()
        invariant
            i <= entries@.len(),
            lookup(entries@, name@) == lookup(entries@.skip(i as int), name@),
        decreases entries@.len() - i,
    {
        let ghost rest = entries@.skip(i as int);
        assert(rest.drop_first() =~= entries@.skip(i + 1));
        match scalar_string(&entries[i].0) {
            Some(k) => {
                if text_eq(k.as_str(), name) {
                    return Some(&entries[i].1);
                }
            },
            None => {},
        }
        i = i + 1;
    }
    None
}

/// Decodes one link item.
fn decode_link(item: &YamlNode) -> (r: Result<Reference, FrontMatterProblem>)
    ensures
        match r {
            Ok(reference) => link_of(*item) matches Some(l) && reference.spec_target() == l.0
                && reference.spec_relation() == l.1 && crate::model::document::valid_document_id(l.0),
            Err(p) => link_of(*item) is None || (link_of(*item) matches Some(l)
                && !crate::model::document::valid_document_id(l.0)),
        },
{
    let (target, relation) = match item {
        YamlNode::Mapping(entries) => {
            let t = match lookup_entry(entries, "target") {
                Some(t) => match scalar_string(t) {
                    Some(t) => t,
                    None => {
                        return Err(FrontMatterProblem::InvalidField(owned("target")));
                    },
                },
                None => {
                    return Err(FrontMatterProblem::MissingTarget);
                },
            };
            let rel = match lookup_entry(entries, "relation") {
                Some(rv) => match scalar_string(rv) {
                    Some(r) => r,
                    None => {
                        return Err(FrontMatterProblem::InvalidField(owned("relation")));
                    },
                },
                None => owned("related"),
            };
            (t, rel)
        },
        _ => match scalar_string(item) {
            Some(t) => (t, owned("related")),
            None => {
                return Err(FrontMatterProblem::InvalidField(owned("links")));
            },
        },
    };
    match DocumentId::from_string(target) {
        Ok(id) => Ok(Reference::new(id, relation.as_str())),
        Err(e) => Err(FrontMatterProblem::InvalidTarget(e)),
    }
}

/// Links of a list value: `None` when the value is not a list of well-formed links (null
/// included).
pub open spec fn links_of(v: YamlNode) -> Option<Seq<(Seq<char>, Seq<char>)>> {
    match v {
        YamlNode::List(items) => if forall|i: int|
            0 <= i < items@.len() ==> (#[trigger] link_of(items@[i]) matches Some(l)
                && crate::model::document::valid_document_id(l.0)) {
            Some(items@.map_values(|n: YamlNode| link_of(n)->0))
        } else {
            None
        },
        _ => None,
    }
}

/// Targets and relations of a reference list.
pub open spec fn link_pairs(links: Seq<Reference>) -> Seq<(Seq<char>, Seq<char>)> {
    links.map_values(|r: Reference| (r.spec_target(), r.spec_relation()))
}

fn decode_links(v: &YamlNode) -> (r: Result<Vec<Reference>, FrontMatterProblem>)
    ensures
        match r {
            Ok(links) => links_of(*v) == Some(link_pairs(links@)),
            Err(_) => links_of(*v) is None,
        },
{
    let mut out: Vec<Reference> = Vec::new();
    match v {
        YamlNode::List(items) => {
            let mut i: usize = 0;
            while i < items.len()
                invariant
                    i <= items@.len(),
                    *v == YamlNode::List(*items),
                    forall|j: int|
                        0 <= j < i ==> (#[trigger] link_of(items@[j]) matches Some(l)
                            && crate::model::document::valid_document_id(l.0)),
                    link_pairs(out@) == items@.take(i as int).map_values(
                        |n: YamlNode| link_of(n)->0,
                    ),
                decreases items@.len() - i,
            {
                match decode_link(&items[i]) {
                    Ok(reference) => {
                        out.push(reference);
                        proof {
                            let m = |n: YamlNode| link_of(n)->0;
                            assert(items@.take(i + 1).map_values(m) =~= items@.take(
                                i as int,
                            ).map_values(m).push(m(items@[i as int])));
                            assert(link_pairs(out@) =~= items@.take(i + 1).map_values(m));
                        }
                    },
                    Err(e) => {
                        assert(!(forall|j: int|
                            0 <= j < items@.len() ==> (#[trigger] link_of(items@[j]) matches Some(l)
                                && crate::model::document::valid_document_id(l.0))));
                        return Err(e);
                    },
                }
                i = i + 1;
            }
            assert(items@.take(items@.len() as int) =~= items@);
            Ok(out)
        },
        _ => Err(FrontMatterProblem::InvalidField(owned("links"))),
    }
}

} // verus!

verus! {

/// Abstract content of decoded front matter.
pub struct FrontMatterModel {
    /// Explicit identifier.
    pub id: Option<Seq<char>>,
    /// Explicit title.
    pub title: Option<Seq<char>>,
    /// Summary.
    pub summary: Option<Seq<char>>,
    /// Tags.
    pub tags: Set<Seq<char>>,
    /// Aliases.
    pub aliases: Set<Seq<char>>,
    /// Links as (target, relation).
    pub links: Seq<(Seq<char>, Seq<char>)>,
    /// Whether `links` or `references` was given.
    pub links_seen: bool,
    /// Unrecognized fields.
    pub extra: Seq<(Seq<char>, YamlNode)>,
}

/// Front matter with no fields.
pub open spec fn empty_model() -> FrontMatterModel {
    FrontMatterModel {
        id: None,
        title: None,
        summary: None,
        tags: Set::empty(),
        aliases: Set::empty(),
        links: Seq::empty(),
        links_seen: false,
        extra: Seq::empty(),
    }
}

/// Applies one mapping entry to the decoded fields; `None` when the entry is malformed.
pub open spec fn model_step(m: FrontMatterModel, k: YamlNode, v: YamlNode) -> Option<FrontMatterModel> {
    match scalar_text(k) {
        None => None,
        Some(key) => if key == "id"@ {
            match optional_text(v) {
                Some(t) => Some(FrontMatterModel { id: t, ..m }),
                None => None,
            }
        } else if key == "title"@ {
            match optional_text(v) {
                Some(t) => Some(FrontMatterModel { title: t, ..m }),
                None => None,
            }
        } else if key == "summary"@ {
            match optional_text(v) {
                Some(t) => Some(FrontMatterModel { summary: t, ..m }),
                None => None,
            }
        } else if key == "tags"@ {
            match text_items(v) {
                Some(items) => Some(FrontMatterModel { tags: items.to_set(), ..m }),
                None => None,
            }
        } else if key == "aliases"@ {
            match text_items(v) {
                Some(items) => Some(FrontMatterModel { aliases: items.to_set(), ..m }),
                None => None,
            }
        } else if key == "links"@ || key == "references"@ {
            if m.links_seen {
                None
            } else {
                match links_of(v) {
                    Some(l) => Some(FrontMatterModel { links: l, links_seen: true, ..m }),
                    None => None,
                }
            }
        } else {
            Some(FrontMatterModel { extra: m.extra.push((key, v)), ..m })
        },
    }
}

/// Decodes mapping entries left to right.
pub open spec fn model_fold(entries: Seq<(YamlNode, YamlNode)>) -> Option<FrontMatterModel>
    decreases entries.len(),
{
    if entries.len() == 0 {
        Some(empty_model())
    } else {
        match model_fold(entries.drop_last()) {
            Some(m) => model_step(m, entries.last().0, entries.last().1),
            None => None,
        }
    }
}

/// The documented keys fill their own fields: `id`, `title` and `summary` take optional text,
/// `tags` and `aliases` a set of texts, `links` (or `references`) the links when none were
/// given before; any other key is kept, with its value, among the extra fields.
pub proof fn lemma_documented_keys(m: FrontMatterModel, k: YamlNode, v: YamlNode, name: Seq<char>)
    requires
        scalar_text(k) == Some(name),
    ensures
        name == "id"@ && optional_text(v) is Some ==> model_step(m, k, v) == Some(
            FrontMatterModel { id: optional_text(v)->0, ..m },
        ),
        name == "title"@ && optional_text(v) is Some ==> model_step(m, k, v) == Some(
            FrontMatterModel { title: optional_text(v)->0, ..m },
        ),
        name == "summary"@ && optional_text(v) is Some ==> model_step(m, k, v) == Some(
            FrontMatterModel { summary: optional_text(v)->0, ..m },
        ),
        name == "tags"@ && text_items(v) is Some ==> model_step(m, k, v) == Some(
            FrontMatterModel { tags: (text_items(v)->0).to_set(), ..m },
        ),
        name == "aliases"@ && text_items(v) is Some ==> model_step(m, k, v) == Some(
            FrontMatterModel { aliases: (text_items(v)->0).to_set(), ..m },
        ),
        (name == "links"@ || name == "references"@) && !m.links_seen && links_of(v) is Some ==> model_step(m, k, v)
            == Some(FrontMatterModel { links: links_of(v)->0, links_seen: true, ..m }),
        name != "id"@ && name != "title"@ && name != "summary"@ && name != "tags"@ && name != "aliases"@ && name
            != "links"@ && name != "references"@ ==> model_step(m, k, v) == Some(
            FrontMatterModel { extra: m.extra.push((name, v)), ..m },
        ),
{
    reveal_strlit("links");
    reveal_strlit("references");
    reveal_strlit("id");
    reveal_strlit("title");
    reveal_strlit("summary");
    reveal_strlit("tags");
    reveal_strlit("aliases");
    assert("title"@[0] != "links"@[0]);
    assert("summary"@[0] != "aliases"@[0]);
    assert("tags"@.len() == 4 && "id"@.len() == 2 && "title"@.len() == 5 && "summary"@.len() == 7);
    assert("aliases"@.len() == 7 && "links"@.len() == 5 && "references"@.len() == 10);
    assert("tags"@ != "id"@ && "tags"@ != "title"@ && "tags"@ != "summary"@);
    assert("links"@ != "id"@ && "links"@ != "title"@ && "links"@ != "summary"@ && "links"@ != "tags"@
        && "links"@ != "aliases"@);
    assert("references"@ != "id"@ && "references"@ != "title"@ && "references"@ != "summary"@
        && "references"@ != "tags"@ && "references"@ != "aliases"@);
}

/// The key `references` reads as `links`: applying an entry keyed `references` decodes
/// exactly as the same entry keyed `links`.
pub proof fn lemma_references_step(m: FrontMatterModel, links_key: YamlNode, references_key: YamlNode, v: YamlNode)
    requires
        scalar_text(links_key) == Some("links"@),
        scalar_text(references_key) == Some("references"@),
    ensures
        model_step(m, references_key, v) == model_step(m, links_key, v),
{
    reveal_strlit("links");
    reveal_strlit("references");
    reveal_strlit("id");
    reveal_strlit("title");
    reveal_strlit("summary");
    reveal_strlit("tags");
    reveal_strlit("aliases");
    assert("links"@.len() != "id"@.len() && "links"@[0] != "title"@[0]);
    assert("links"@[0] != "summary"@[0] && "links"@[0] != "tags"@[0] && "links"@[0] != "aliases"@[0]);
    assert("references"@.len() != "id"@.len() && "references"@.len() != "title"@.len());
    assert("references"@.len() != "summary"@.len() && "references"@.len() != "tags"@.len());
    assert("references"@.len() != "aliases"@.len());
}

/// Front matter that names its links `references` decodes to the same fields as the same
/// front matter naming them `links`.
pub proof fn lemma_references_fold(entries: Seq<(YamlNode, YamlNode)>, k: int, references_key: YamlNode)
    requires
        0 <= k < entries.len(),
        scalar_text(entries[k].0) == Some("links"@),
        scalar_text(references_key) == Some("references"@),
    ensures
        model_fold(entries.update(k, (references_key, entries[k].1))) == model_fold(entries),
    decreases entries.len(),
{
    let renamed = entries.update(k, (references_key, entries[k].1));
    if k == entries.len() - 1 {
        assert(renamed.drop_last() =~= entries.drop_last());
        match model_fold(entries.drop_last()) {
            Some(m) => lemma_references_step(m, entries[k].0, references_key, entries[k].1),
            None => {},
        }
    } else {
        lemma_references_fold(entries.drop_last(), k, references_key);
        assert(renamed.drop_last() =~= entries.drop_last().update(k, (references_key, entries[k].1)));
        assert(renamed.last() == entries.last());
    }
}

/// Decoded front matter of a YAML value; `None` when it does not decode. Null reads as empty.
pub open spec fn front_matter_model(node: YamlNode) -> Option<FrontMatterModel> {
    match node {
        YamlNode::Null => Some(empty_model()),
        YamlNode::Mapping(entries) => model_fold(entries@),
        _ => None,
    }
}

/// Optional string view.
pub open spec fn opt_view(o: Option<String>) -> Option<Seq<char>> {
    match o {
        Some(s) => Some(s@),
        None => None,
    }
}

/// Whether executable front matter carries the decoded fields of `m`.
pub open spec fn holds_model(fm: FrontMatter, m: FrontMatterModel) -> bool {
    &&& opt_view(fm.id) == m.id
    &&& opt_view(fm.title) == m.title
    &&& opt_view(fm.summary) == m.summary
    &&& fm.tags@.to_set() == m.tags
    &&& fm.aliases@.to_set() == m.aliases
    &&& link_pairs(fm.links@) == m.links
    &&& fm.extra@.map_values(|e: (String, YamlNode)| (e.0@, e.1)) == m.extra
}

/// Once a prefix fails to decode, the whole entry list fails.
pub proof fn lemma_fold_fails(entries: Seq<(YamlNode, YamlNode)>, i: int)
    requires
        0 <= i <= entries.len(),
        model_fold(entries.take(i)) is None,
    ensures
        model_fold(entries) is None,
    decreases entries.len() - i,
{
    if i < entries.len() {
        assert(entries.take(i + 1).drop_last() =~= entries.take(i));
        lemma_fold_fails(entries, i + 1);
    } else {
        assert(entries.take(i) =~= entries);
    }
}

/// Decodes a YAML value into front-matter fields.
pub fn decode_front_matter(node: YamlNode) -> (r: Result<FrontMatter, FrontMatterProblem>)
    ensures
        match r {
            Ok(fm) => front_matter_model(node) matches Some(m) && holds_model(fm, m),
            Err(_) => front_matter_model(node) is None,
        },
{
    let mut fm = FrontMatter {
        id: None,
        title: None,
        summary: None,
        tags: TextSet::new(),
        aliases: TextSet::new(),
        links: Vec::new(),
        extra: Vec::new(),
    };
    proof {
        assert(fm.tags@.to_set() =~= Set::<Seq<char>>::empty());
        assert(fm.aliases@.to_set() =~= Set::<Seq<char>>::empty());
        assert(link_pairs(fm.links@) =~= Seq::<(Seq<char>, Seq<char>)>::empty());
        assert(fm.extra@.map_values(|e: (String, YamlNode)| (e.0@, e.1)) =~= Seq::<(Seq<char>, YamlNode)>::empty());
    }
    let ghost whole = node;
    let mut entries = match node {
        YamlNode::Null => {
            return Ok(fm);
        },
        YamlNode::Mapping(entries) => entries,
        _ => {
            return Err(FrontMatterProblem::NotAMapping);
        },
    };
    let ghost original = entries@;
    assert(whole->Mapping_0@ == original);
    let mut links_seen = false;
    let mut i: usize = 0;
    while i < entries.len()
        invariant
            i <= entries@.len(),
            entries@.len() == original.len(),
            whole == YamlNode::Mapping(whole->Mapping_0),
            whole->Mapping_0@ == original,
            whole == node,
            forall|j: int| i <= j < original.len() ==> entries@[j] == original[j],
            model_fold(original.take(i as int)) matches Some(m) && holds_model(fm, m)
                && m.links_seen == links_seen,
        decreases entries@.len() - i,
    {
        let ghost prefix = original.take(i as int);
        let ghost m = model_fold(prefix)->0;
        assert(original.take(i + 1).drop_last() =~= prefix);
        assert(original.take(i + 1).last() == original[i as int]);
        let mut entry: (YamlNode, YamlNode) = (YamlNode::Null, YamlNode::Null);
        std::mem::swap(&mut entry, &mut entries[i]);
        let (k, v) = entry;
        let key = match scalar_string(&k) {
            Some(key) => key,
            None => {
                proof {
                    lemma_fold_fails(original, i + 1);
                }
                return Err(FrontMatterProblem::InvalidKey);
            },
        };
        let ghost before = fm;
        let outcome: Result<(), FrontMatterProblem> = if text_eq(key.as_str(), "id") {
            match decode_optional_text("id", &v) {
                Ok(t) => {
                    fm.id = t;
                    Ok(())
                },
                Err(p) => Err(p),
            }
        } else if text_eq(key.as_str(), "title") {
            match decode_optional_text("title", &v) {
                Ok(t) => {
                    fm.title = t;
                    Ok(())
                },
                Err(p) => Err(p),
            }
        } else if text_eq(key.as_str(), "summary") {
            match decode_optional_text("summary", &v) {
                Ok(t) => {
                    fm.summary = t;
                    Ok(())
                },
                Err(p) => Err(p),
            }
        } else if text_eq(key.as_str(), "tags") {
            match decode_text_set("tags", &v) {
                Ok(t) => {
                    fm.tags = t;
                    Ok(())
                },
                Err(p) => Err(p),
            }
        } else if text_eq(key.as_str(), "aliases") {
            match decode_text_set("aliases", &v) {
                Ok(t) => {
                    fm.aliases = t;
                    Ok(())
                },
                Err(p) => Err(p),
            }
        } else if text_eq(key.as_str(), "links") || text_eq(key.as_str(), "references") {
            if links_seen {
                Err(FrontMatterProblem::DuplicateField(key))
            } else {
                match decode_links(&v) {
                    Ok(t) => {
                        fm.links = t;
                        links_seen = true;
                        Ok(())
                    },
                    Err(p) => Err(p),
                }
            }
        } else {
            let ghost ev = (key@, v);
            fm.extra.push((key, v));
            proof {
                let f = |e: (String, YamlNode)| (e.0@, e.1);
                assert(fm.extra@.map_values(f) =~= before.extra@.map_values(f).push(ev));
            }
            Ok(())
        };
        match outcome {
            Ok(()) => {},
            Err(p) => {
                proof {
                    lemma_fold_fails(original, i + 1);
                }
                return Err(p);
            },
        }
        i = i + 1;
    }
    assert(original.take(original.len() as int) =~= original);
    Ok(fm)
}

} // verus!
