//! Markdown document parsing.
//!
//! Directory traversal and file reading happen outside the library; the library turns each
//! file's relative path and text into a [`Document`] and collects documents into a [`Bundle`].

pub mod bundle_parser;
pub mod frontmatter;

pub use bundle_parser::{BundleParser, ParserOptions};

use vstd::prelude::*;

use crate::error::{Error, FrontMatterProblem};
use crate::model::document::{final_segment, final_segment_of, id_problem, valid_document_id};
use crate::model::{Bundle, Document, DocumentId, Metadata};
use crate::text::{
    chars_of, has_prefix, owned, slice_range, split_chars, split_pieces, string_from, strip_start,
    strip_start_chars, trim, trim_chars, CharClass, chars_start_with,
};
use crate::yaml::{parse_yaml_node, yaml_node};
use frontmatter::{
    decode_front_matter, empty_model, front_matter_model, holds_model, link_pairs, opt_view,
    split_front_matter, without_bom, FrontMatter, FrontMatterModel, FrontMatterParts,
    opens_front_matter, line_start_from, yaml_start, closes_at, first_close, body_start,
};

verus! {

/// The one-character text `.`.
pub open spec fn dot_text() -> Seq<char> {
    seq!['.']
}

/// The two-character text `..`.
pub open spec fn dot_dot_text() -> Seq<char> {
    seq!['.', '.']
}

/// The text `index`.
pub open spec fn index_text() -> Seq<char> {
    seq!['i', 'n', 'd', 'e', 'x']
}

/// Normal components of a `/`-separated path: its non-empty pieces other than `.`.
pub open spec fn path_components(s: Seq<char>) -> Seq<Seq<char>> {
    split_pieces(s, '/').filter(|p: Seq<char>| p.len() > 0 && p != dot_text())
}

/// File stem of a file name: the name without its final extension, where a name whose only dot
/// is its first character has no extension.
pub open spec fn file_stem(name: Seq<char>) -> Seq<char> {
    if exists|i: int| 0 < i < name.len() && name[i] == '.' {
        let i = choose|i: int|
            0 < i < name.len() && name[i] == '.' && forall|j: int| i < j < name.len() ==> name[j] != '.';
        name.take(i)
    } else {
        name
    }
}

/// Joins texts with `/`.
pub open spec fn join_slash(parts: Seq<Seq<char>>) -> Seq<char>
    decreases parts.len(),
{
    if parts.len() == 0 {
        Seq::empty()
    } else if parts.len() == 1 {
        parts[0]
    } else {
        join_slash(parts.drop_last()) + seq!['/'] + parts.last()
    }
}

/// `s` with every `\` replaced by `/`.
pub open spec fn backslashes_to_slashes(s: Seq<char>) -> Seq<char> {
    s.map_values(|c: char| if c == '\\' { '/' } else { c })
}

/// Identifier text derived from a relative source path: the parent directories and the file
/// stem joined with `/`, where a final `index` stem names its directory. A path that is absolute
/// or climbs with `..` is used as written (with `\` read as `/`).
pub open spec fn path_id_text(path: Seq<char>) -> Seq<char> {
    let comps = path_components(path);
    if comps.len() == 0 {
        Seq::empty()
    } else {
        let parent = comps.drop_last();
        let last = comps.last();
        if (path.len() > 0 && path[0] == '/') || parent.contains(dot_dot_text()) {
            backslashes_to_slashes(path)
        } else {
            let stem = if last == dot_dot_text() {
                Seq::empty()
            } else {
                file_stem(last)
            };
            let parts = parent.push(stem);
            if parts.len() > 1 && stem == index_text() {
                join_slash(parent)
            } else {
                join_slash(parts)
            }
        }
    }
}

fn components_of(path: &[char]) -> (r: Vec<Vec<char>>)
    ensures
        r@.len() == path_components(path@).len(),
        forall|i: int| 0 <= i < r@.len() ==> (#[trigger] r@[i])@ == path_components(path@)[i],
{
    let pieces = split_chars(path, '/');
    let ghost sp = split_pieces(path@, '/');
    let ghost keep = |p: Seq<char>| p.len() > 0 && p != dot_text();
    let mut out: Vec<Vec<char>> = Vec::new();
    let mut i: usize = 0;
    while i < pieces.len()
        invariant
            i <= pieces@.len(),
            keep == (|p: Seq<char>| p.len() > 0 && p != dot_text()),
            sp == split_pieces(path@, '/'),
            pieces@.len() == sp.len(),
            forall|k: int| 0 <= k < pieces@.len() ==> (#[trigger] pieces@[k])@ == sp[k],
            out@.len() == sp.take(i as int).filter(keep).len(),
            forall|k: int| 0 <= k < out@.len() ==> (#[trigger] out@[k])@ == sp.take(i as int).filter(keep)[k],
        decreases pieces@.len() - i,
    {
        let p = &pieces[i];
        let is_dot = p.len() == 1 && p[0] == '.';
        proof {
            assert(sp.take(i + 1).drop_last() =~= sp.take(i as int));
            assert(sp.take(i + 1).last() == sp[i as int]);
            reveal_with_fuel(Seq::<Seq<char>>::filter, 1);
            if is_dot {
                assert(p@ =~= dot_text());
            } else if p@.len() == 1 {
                assert(p@ != dot_text());
            }
        }
        if p.len() > 0 && !is_dot {
            out.push(slice_range(p, 0, p.len()));
            proof {
                assert(p@.subrange(0, p@.len() as int) =~= p@);
            }
        }
        i = i + 1;
    }
    assert(sp.take(sp.len() as int) =~= sp);
    out
}

fn file_stem_of(name: &[char]) -> (r: Vec<char>)
    ensures
        r@ == file_stem(name@),
{
    let mut k: usize = name.len();
    while k > 1 && name[k - 1] != '.'
        invariant
            k <= name@.len(),
            forall|j: int| k <= j < name@.len() ==> name@[j] != '.',
        decreases k,
    {
        k = k - 1;
    }
    if k > 1 {
        let i = k - 1;
        proof {
            assert(0 < i < name@.len() && name@[i as int] == '.');
            let c = choose|c: int|
                0 < c < name@.len() && name@[c] == '.' && forall|j: int| c < j < name@.len() ==> name@[j] != '.';
            assert(c == i as int);
        }
        slice_range(name, 0, i)
    } else {
        proof {
            assert(!exists|i: int| 0 < i < name@.len() && name@[i] == '.');
        }
        slice_range(name, 0, name.len())
    }
}

fn join_parts(parts: &Vec<Vec<char>>) -> (r: Vec<char>)
    ensures
        r@ == join_slash(parts@.map_values(|p: Vec<char>| p@)),
{
    let ghost views = parts@.map_values(|p: Vec<char>| p@);
    let mut out: Vec<char> = Vec::new();
    let mut i: usize = 0;
    while i < parts.len()
        invariant
            i <= parts@.len(),
            views == parts@.map_values(|p: Vec<char>| p@),
            out@ == join_slash(views.take(i as int)),
        decreases parts@.len() - i,
    {
        proof {
            assert(views.take(i + 1).drop_last() =~= views.take(i as int));
            assert(views.take(i + 1).last() == parts@[i as int]@);
        }
        if i > 0 {
            out.push('/');
        }
        let p = &parts[i];
        let mut k: usize = 0;
        let ghost base = out@;
        while k < p.len()
            invariant
                k <= p@.len(),
                out@ == base + p@.take(k as int),
            decreases p@.len() - k,
        {
            out.push(p[k]);
            assert(p@.take(k + 1) =~= p@.take(k as int).push(p@[k as int]));
            k = k + 1;
        }
        proof {
            assert(p@.take(p@.len() as int) =~= p@);
            if i == 0 {
                assert(views.take(1) =~= seq![p@]);
                assert(base =~= Seq::<char>::empty());
                assert(out@ =~= p@);
            } else {
                assert(out@ =~= join_slash(views.take(i as int)) + seq!['/'] + p@);
            }
        }
        i = i + 1;
    }
    assert(views.take(parts@.len() as int) =~= views);
    out
}

pub(crate) fn replace_backslashes(s: &[char]) -> (r: Vec<char>)
    ensures
        r@ == backslashes_to_slashes(s@),
{
    let mut out: Vec<char> = Vec::new();
    let mut i: usize = 0;
    while i < s.len()
        invariant
            i <= s@.len(),
            out@ == backslashes_to_slashes(s@.take(i as int)),
        decreases s@.len() - i,
    {
        out.push(if s[i] == '\\' { '/' } else { s[i] });
        assert(backslashes_to_slashes(s@.take(i + 1)) =~= backslashes_to_slashes(s@.take(i as int)).push(
            if s@[i as int] == '\\' { '/' } else { s@[i as int] },
        ));
        i = i + 1;
    }
    assert(s@.take(s@.len() as int) =~= s@);
    out
}

/// Derives the identifier text of a source path.
pub fn path_id_chars(path: &[char]) -> (r: Vec<char>)
    ensures
        r@ == path_id_text(path@),
{
    let comps = components_of(path);
    let ghost cv = path_components(path@);
    if comps.len() == 0 {
        return Vec::new();
    }
    let n = comps.len() - 1;
    let mut climbs = false;
    let mut i: usize = 0;
    while i < n
        invariant
            i <= n,
            n + 1 == comps@.len(),
            comps@.len() == cv.len(),
            forall|k: int| 0 <= k < comps@.len() ==> (#[trigger] comps@[k])@ == cv[k],
            climbs == exists|k: int| 0 <= k < i && cv[k] == dot_dot_text(),
        decreases n - i,
    {
        let c = &comps[i];
        let dd = c.len() == 2 && c[0] == '.' && c[1] == '.';
        proof {
            if dd {
                assert(c@ =~= dot_dot_text());
            } else if c@.len() == 2 {
                assert(c@ != dot_dot_text());
            }
        }
        climbs = climbs || dd;
        i = i + 1;
    }
    proof {
        let parent = cv.drop_last();
        if climbs {
            let k = choose|k: int| 0 <= k < n && cv[k] == dot_dot_text();
            assert(parent[k] == dot_dot_text());
        }
        if parent.contains(dot_dot_text()) {
            let k = choose|k: int| 0 <= k < parent.len() && parent[k] == dot_dot_text();
            assert(cv[k] == dot_dot_text());
        }
        assert(climbs == parent.contains(dot_dot_text()));
    }
    if (path.len() > 0 && path[0] == '/') || climbs {
        return replace_backslashes(path);
    }
    let last = &comps[n];
    let last_dd = last.len() == 2 && last[0] == '.' && last[1] == '.';
    proof {
        if last_dd {
            assert(last@ =~= dot_dot_text());
        } else if last@.len() == 2 {
            assert(last@ != dot_dot_text());
        }
    }
    let stem = if last_dd {
        Vec::new()
    } else {
        file_stem_of(last)
    };
    let is_index = stem.len() == 5 && stem[0] == 'i' && stem[1] == 'n' && stem[2] == 'd' && stem[3]
        == 'e' && stem[4] == 'x';
    proof {
        if is_index {
            assert(stem@ =~= index_text());
        } else if stem@.len() == 5 {
            assert(stem@ != index_text());
        }
    }
    let mut parts: Vec<Vec<char>> = Vec::new();
    let mut k: usize = 0;
    while k < n
        invariant
            k <= n,
            n + 1 == comps@.len(),
            comps@.len() == cv.len(),
            forall|j: int| 0 <= j < comps@.len() ==> (#[trigger] comps@[j])@ == cv[j],
            parts@.map_values(|p: Vec<char>| p@) == cv.take(k as int),
        decreases n - k,
    {
        let piece = slice_range(&comps[k], 0, comps[k].len());
        proof {
            assert(comps@[k as int]@.subrange(0, comps@[k as int]@.len() as int) =~= comps@[k as int]@);
            assert(piece@ == cv[k as int]);
        }
        let ghost before = parts@;
        parts.push(piece);
        proof {
            assert(parts@ == before.push(piece));
            assert(parts@.map_values(|p: Vec<char>| p@) =~= before.map_values(|p: Vec<char>| p@).push(piece@));
            assert(cv.take(k + 1) =~= cv.take(k as int).push(cv[k as int]));
        }
        k = k + 1;
    }
    proof {
        assert(cv.take(n as int) =~= cv.drop_last());
    }
    if n > 0 && is_index {
        join_parts(&parts)
    } else {
        let ghost sv = stem@;
        parts.push(stem);
        proof {
            assert(parts@.map_values(|p: Vec<char>| p@) =~= cv.drop_last().push(sv));
        }
        join_parts(&parts)
    }
}

/// Identifier derived from a source path (`document_id_from_path`).
pub fn document_id_from_path(path: &str) -> (r: Result<DocumentId, Error>)
    ensures
        match r {
            Ok(id) => id@ == path_id_text(path@) && valid_document_id(path_id_text(path@)),
            Err(Error::InvalidDocumentId(e)) => id_problem(path_id_text(path@)) == Some(
                e.spec_problem(),
            ) && e.spec_value() == path_id_text(path@),
            Err(_) => false,
        },
{
    let chars = chars_of(path);
    let text = string_from(&path_id_chars(&chars));
    match DocumentId::from_string(text) {
        Ok(id) => Ok(id),
        Err(e) => Err(Error::InvalidDocumentId(e)),
    }
}

/// The lines of a text as `str::lines` reads them (each without one trailing `\r`), followed by
/// a final empty line when the text ends with a line feed.
pub open spec fn text_lines(s: Seq<char>) -> Seq<Seq<char>> {
    split_pieces(s, '\n').map_values(
        |l: Seq<char>| if l.len() > 0 && l.last() == '\r' { l.drop_last() } else { l },
    )
}

/// The heading text of a level-one Markdown heading line.
pub open spec fn heading_of(line: Seq<char>) -> Option<Seq<char>> {
    let t = trim(line);
    if has_prefix(t, seq!['#', ' ']) && trim(t.skip(2)).len() > 0 {
        Some(trim(t.skip(2)))
    } else {
        None
    }
}

/// The first level-one heading among `lines`.
pub open spec fn first_heading(lines: Seq<Seq<char>>) -> Option<Seq<char>>
    decreases lines.len(),
{
    if lines.len() == 0 {
        None
    } else {
        match heading_of(lines[0]) {
            Some(h) => Some(h),
            None => first_heading(lines.drop_first()),
        }
    }
}

/// Title inferred from the body (first level-one heading) or from the final identifier segment.
pub open spec fn inferred_title(body: Seq<char>, id: Seq<char>) -> Seq<char> {
    match first_heading(text_lines(body)) {
        Some(h) => h,
        None => final_segment(id),
    }
}

fn heading_line(line: &[char]) -> (r: Option<Vec<char>>)
    ensures
        match r {
            Some(h) => heading_of(line@) == Some(h@),
            None => heading_of(line@) is None,
        },
{
    let t = trim_chars(line);
    let hash_space: [char; 2] = ['#', ' '];
    let prefix = slice_range(&hash_space, 0, 2);
    assert(prefix@ =~= seq!['#', ' ']);
    if !chars_start_with(&t, &prefix) {
        return None;
    }
    let rest = slice_range(&t, 2, t.len());
    assert(rest@ =~= t@.skip(2));
    let h = trim_chars(&rest);
    if h.len() > 0 {
        Some(h)
    } else {
        None
    }
}

fn strip_cr(line: &[char]) -> (r: Vec<char>)
    ensures
        r@ == (if line@.len() > 0 && line@.last() == '\r' { line@.drop_last() } else { line@ }),
{
    if line.len() > 0 && line[line.len() - 1] == '\r' {
        slice_range(line, 0, line.len() - 1)
    } else {
        let r = slice_range(line, 0, line.len());
        assert(r@ =~= line@);
        r
    }
}

/// Lines of a text.
pub fn lines_of(s: &[char]) -> (r: Vec<Vec<char>>)
    ensures
        r@.len() == text_lines(s@).len(),
        forall|i: int| 0 <= i < r@.len() ==> (#[trigger] r@[i])@ == text_lines(s@)[i],
{
    let pieces = split_chars(s, '\n');
    let mut out: Vec<Vec<char>> = Vec::new();
    let mut i: usize = 0;
    while i < pieces.len()
        invariant
            i <= pieces@.len(),
            pieces@.len() == split_pieces(s@, '\n').len(),
            forall|k: int| 0 <= k < pieces@.len() ==> (#[trigger] pieces@[k])@ == split_pieces(s@, '\n')[k],
            out@.len() == i,
            forall|k: int| 0 <= k < i ==> (#[trigger] out@[k])@ == text_lines(s@)[k],
        decreases pieces@.len() - i,
    {
        out.push(strip_cr(&pieces[i]));
        i = i + 1;
    }
    out
}

/// Infers a title from the body's first level-one heading, or from the final identifier segment.
pub fn infer_title(body: &str, id: &DocumentId) -> (r: String)
    ensures
        r@ == inferred_title(body@, id@),
{
    let chars = chars_of(body);
    let lines = lines_of(&chars);
    let ghost all = text_lines(body@);
    let mut i: usize = 0;
    assert(all.skip(0) =~= all);
    while i < lines.len()
        invariant
            i <= lines@.len(),
            lines@.len() == all.len(),
            all == text_lines(body@),
            forall|k: int| 0 <= k < lines@.len() ==> (#[trigger] lines@[k])@ == all[k],
            first_heading(all) == first_heading(all.skip(i as int)),
        decreases lines@.len() - i,
    {
        assert(all.skip(i as int).drop_first() =~= all.skip(i + 1));
        assert(all.skip(i as int)[0] == all[i as int]);
        match heading_line(&lines[i]) {
            Some(h) => {
                proof {
                    let rest = all.skip(i as int);
                    assert(rest.len() > 0);
                    assert(heading_of(rest[0]) == Some(h@));
                    assert(first_heading(rest) == Some(h@));
                }
                return string_from(&h);
            },
            None => {},
        }
        i = i + 1;
    }
    let name = chars_of(id.as_str());
    string_from(&final_segment_of(&name))
}

/// Whether `doc` is the document that front matter `m` describes for a source `body` text
/// (already split from its front matter) at `path`, with identifier `id`.
pub open spec fn built_from(
    doc: Document,
    m: FrontMatterModel,
    body: Seq<char>,
    path: Seq<char>,
) -> bool {
    let text = strip_start(body, CharClass::LineBreak);
    &&& doc.spec_id() == match m.id {
        Some(i) => i,
        None => path_id_text(path),
    }
    &&& doc.spec_body() == text
    &&& doc.spec_title() == match m.title {
        Some(t) => t,
        None => inferred_title(text, doc.spec_id()),
    }
    &&& opt_view(doc.spec_metadata().summary) == m.summary
    &&& doc.spec_metadata().tags@.to_set() == m.tags
    &&& doc.spec_metadata().aliases@.to_set() == m.aliases
    &&& link_pairs(doc.spec_metadata().links@) == m.links
    &&& doc.spec_metadata().extra@.map_values(|e: (String, crate::yaml::YamlNode)| (e.0@, e.1)) == m.extra
    &&& doc.spec_source_path() == Some(path)
}

/// Identifier text that front matter `m` gives a document at `path`.
pub open spec fn candidate_id(m: FrontMatterModel, path: Seq<char>) -> Seq<char> {
    match m.id {
        Some(i) => i,
        None => path_id_text(path),
    }
}

/// Builds a document from decoded front matter, the text after it, and its source path.
pub fn document_from_front_matter(front_matter: FrontMatter, body: &str, source_path: &str) -> (r:
    Result<Document, Error>)
    ensures
        forall|m: FrontMatterModel| #[trigger]
            holds_model(front_matter, m) ==> match r {
                Ok(doc) => valid_document_id(candidate_id(m, source_path@)) && built_from(
                    doc,
                    m,
                    body@,
                    source_path@,
                ),
                Err(Error::InvalidDocumentId(e)) => id_problem(candidate_id(m, source_path@))
                    == Some(e.spec_problem()),
                Err(_) => false,
            },
{
    let FrontMatter { id, title, summary, tags, aliases, links, extra } = front_matter;
    let id = match id {
        Some(text) => match DocumentId::from_string(text) {
            Ok(id) => id,
            Err(e) => {
                return Err(Error::InvalidDocumentId(e));
            },
        },
        None => document_id_from_path(source_path)?,
    };
    let chars = chars_of(body);
    let text = string_from(&strip_start_chars(&chars, CharClass::LineBreak));
    let title = match title {
        Some(t) => t,
        None => infer_title(text.as_str(), &id),
    };
    let metadata = Metadata { summary, tags, aliases, links, extra };
    Ok(Document::new(id, title.as_str(), text.as_str(), metadata).with_source_path(source_path))
}

/// What parsing `source`, read from `source_path`, gives: without front matter, the document of
/// the path-derived identifier; with unterminated front matter, that error; otherwise the YAML
/// between the delimiters as `yaml_serde` reads it ([`yaml_node`]) decides: a syntax error, a
/// front-matter problem when the value does not describe front matter, or the document built
/// from the front-matter model it describes (an invalid identifier is an error).
pub open spec fn parse_outcome(source: Seq<char>, source_path: Seq<char>, r: Result<Document, Error>) -> bool {
    let s = without_bom(source);
    if !opens_front_matter(s) {
        match r {
            Ok(doc) => valid_document_id(path_id_text(source_path)) && built_from(
                doc,
                empty_model(),
                s,
                source_path,
            ),
            Err(Error::InvalidDocumentId(e)) => id_problem(path_id_text(source_path))
                == Some(e.spec_problem()),
            Err(_) => false,
        }
    } else if forall|q: int| #[trigger]
        line_start_from(s, yaml_start(s), q) ==> !closes_at(s, q) {
        r matches Err(Error::UnterminatedFrontMatter { path }) && path@ == source_path
    } else {
        exists|p: int|
            first_close(s, p) && ({
                let yaml = s.subrange(yaml_start(s), p);
                let body = s.skip(body_start(s, p));
                match yaml_node(yaml) {
                    None => r matches Err(Error::FrontMatter { path, problem: FrontMatterProblem::Syntax(_) })
                        && path@ == source_path,
                    Some(n) => match front_matter_model(n) {
                        None => r matches Err(Error::FrontMatter { path, .. }) && path@ == source_path,
                        Some(m) => match r {
                            Ok(doc) => valid_document_id(candidate_id(m, source_path)) && built_from(
                                doc,
                                m,
                                body,
                                source_path,
                            ),
                            Err(Error::InvalidDocumentId(e)) => id_problem(candidate_id(m, source_path))
                                == Some(e.spec_problem()),
                            Err(_) => false,
                        },
                    },
                }
            })
    }
}

/// Parses one Markdown document using `source_path` for identifier derivation and diagnostics.
pub fn parse_document(source: &str, source_path: &str) -> (r: Result<Document, Error>)
    ensures
        parse_outcome(source@, source_path@, r),
{
    match split_front_matter(source) {
        Err(()) => Err(Error::UnterminatedFrontMatter { path: owned(source_path) }),
        Ok(FrontMatterParts::Absent(body)) => {
            let fm = empty_front_matter();
            document_from_front_matter(fm, body.as_str(), source_path)
        },
        Ok(FrontMatterParts::Present { yaml, body }) => {
            let node = match parse_yaml_node(yaml.as_str()) {
                Ok(n) => n,
                Err(message) => {
                    return Err(
                        Error::FrontMatter {
                            path: owned(source_path),
                            problem: FrontMatterProblem::Syntax(message),
                        },
                    );
                },
            };
            let ghost n = node;
            match decode_front_matter(node) {
                Ok(fm) => {
                    let ghost m = front_matter_model(n)->0;
                    let r = document_from_front_matter(fm, body.as_str(), source_path);
                    assert(holds_model(fm, m));
                    r
                },
                Err(problem) => Err(Error::FrontMatter { path: owned(source_path), problem }),
            }
        },
    }
}

fn empty_front_matter() -> (r: FrontMatter)
    ensures
        holds_model(r, empty_model()),
{
    let fm = FrontMatter {
        id: None,
        title: None,
        summary: None,
        tags: crate::model::TextSet::new(),
        aliases: crate::model::TextSet::new(),
        links: Vec::new(),
        extra: Vec::new(),
    };
    proof {
        assert(fm.tags@.to_set() =~= Set::<Seq<char>>::empty());
        assert(fm.aliases@.to_set() =~= Set::<Seq<char>>::empty());
        assert(link_pairs(fm.links@) =~= Seq::<(Seq<char>, Seq<char>)>::empty());
        assert(fm.extra@.map_values(|e: (String, crate::yaml::YamlNode)| (e.0@, e.1)) =~= Seq::<
            (Seq<char>, crate::yaml::YamlNode),
        >::empty());
    }
    fm
}

} // verus!
