//! Deterministic in-memory lexical retrieval.
//!
//! Texts are compared after normalization (trimmed, Unicode-lowercased). A query's terms are
//! the distinct alphanumeric words of its normalized text, in ascending order. Each document
//! field scores its weight once for every term it contains; an exact title match adds a bonus.
//! Hits are ordered by descending score, then ascending identifier. Scores are `u32` and stop
//! at `u32::MAX`.

use vstd::prelude::*;

use crate::model::bundle::docs_sorted;
use crate::model::{Bundle, Document, TextSet};
use crate::parser::{lines_of, text_lines};
use crate::text::{
    chars_contain, chars_of, compare_text, contains_text, is_alphanumeric, lemma_text_lt_asymmetric,
    lemma_text_lt_irreflexive,
    lemma_text_lt_total, normalize, normalize_text, owned, push_char, string_from, strictly_sorted,
    text_lt, trim, trim_chars, unicode_alphanumeric, views, Order,
};

verus! {

/// Views of a sequence of character vectors.
pub open spec fn char_views(v: Seq<Vec<char>>) -> Seq<Seq<char>> {
    v.map_values(|t: Vec<char>| t@)
}

/// Pieces of `s` between characters that are not alphanumeric (`str::split` on a predicate).
pub open spec fn word_pieces(s: Seq<char>) -> Seq<Seq<char>>
    decreases s.len(),
{
    if s.len() == 0 {
        seq![Seq::<char>::empty()]
    } else {
        let rest = word_pieces(s.drop_last());
        if !unicode_alphanumeric(s.last()) {
            rest.push(Seq::empty())
        } else {
            rest.update(rest.len() - 1, rest.last().push(s.last()))
        }
    }
}

proof fn lemma_word_pieces_nonempty(s: Seq<char>)
    ensures
        word_pieces(s).len() >= 1,
    decreases s.len(),
{
    if s.len() > 0 {
        lemma_word_pieces_nonempty(s.drop_last());
    }
}

/// The distinct non-empty alphanumeric words of `s`.
pub open spec fn words(s: Seq<char>) -> Set<Seq<char>> {
    Set::new(|w: Seq<char>| word_pieces(s).contains(w) && w.len() > 0)
}

/// Two strictly increasing sequences with the same members are equal.
pub proof fn lemma_sorted_same_members(a: Seq<Seq<char>>, b: Seq<Seq<char>>)
    requires
        strictly_sorted(a),
        strictly_sorted(b),
        a.to_set() == b.to_set(),
    ensures
        a == b,
    decreases a.len(),
{
    if a.len() == 0 {
        if b.len() > 0 {
            assert(b.to_set().contains(b[0]));
        }
    } else if b.len() == 0 {
        assert(a.to_set().contains(a[0]));
    } else {
        assert(a.to_set().contains(a[0]));
        assert(b.to_set().contains(b[0]));
        let i = choose|i: int| 0 <= i < b.len() && b[i] == a[0];
        let j = choose|j: int| 0 <= j < a.len() && a[j] == b[0];
        if i > 0 {
            assert(text_lt(b[0], b[i]));
            if j > 0 {
                assert(text_lt(a[0], a[j]));
                crate::text::lemma_text_lt_asymmetric(a[0], b[0]);
            }
            lemma_text_lt_irreflexive(a[0]);
        }
        assert(a[0] == b[0]);
        let ra = a.drop_first();
        let rb = b.drop_first();
        assert forall|x: Seq<char>| ra.to_set().contains(x) <==> rb.to_set().contains(x) by {
            if ra.to_set().contains(x) {
                let k = choose|k: int| 0 <= k < ra.len() && ra[k] == x;
                assert(a[k + 1] == x);
                assert(a.to_set().contains(x));
                let m = choose|m: int| 0 <= m < b.len() && b[m] == x;
                if m == 0 {
                    assert(text_lt(a[0], a[k + 1]));
                    lemma_text_lt_irreflexive(x);
                }
                assert(rb[m - 1] == x);
            }
            if rb.to_set().contains(x) {
                let k = choose|k: int| 0 <= k < rb.len() && rb[k] == x;
                assert(b[k + 1] == x);
                assert(b.to_set().contains(x));
                let m = choose|m: int| 0 <= m < a.len() && a[m] == x;
                if m == 0 {
                    assert(text_lt(b[0], b[k + 1]));
                    lemma_text_lt_irreflexive(x);
                }
                assert(ra[m - 1] == x);
            }
        }
        assert(ra.to_set() =~= rb.to_set());
        lemma_sorted_same_members(ra, rb);
        assert(a =~= seq![a[0]] + ra);
        assert(b =~= seq![b[0]] + rb);
    }
}

/// The search terms of a normalized query text: its words in ascending order.
pub open spec fn query_terms(text: Seq<char>) -> Seq<Seq<char>> {
    choose|t: Seq<Seq<char>>| strictly_sorted(t) && t.to_set() == words(text)
}

/// Splits text into its distinct alphanumeric words in ascending order.
pub fn tokenize(text: &str) -> (r: Vec<String>)
    ensures
        views(r@) == query_terms(text@),
        strictly_sorted(views(r@)),
        views(r@).to_set() == words(text@),
{
    let chars = chars_of(text);
    let mut set = TextSet::new();
    let mut current: Vec<char> = Vec::new();
    let mut i: usize = 0;
    proof {
        assert(Seq::<Seq<char>>::empty().to_set() =~= Set::<Seq<char>>::empty());
    }
    while i < chars.len()
        invariant
            i <= chars@.len(),
            chars@ == text@,
            word_pieces(chars@.take(i as int)).len() >= 1,
            current@ == word_pieces(chars@.take(i as int)).last(),
            forall|w: Seq<char>|
                #[trigger] set@.to_set().contains(w) <==> (word_pieces(chars@.take(i as int)).drop_last().contains(
                    w,
                ) && w.len() > 0),
        decreases chars@.len() - i,
    {
        let ghost pieces = word_pieces(chars@.take(i as int));
        proof {
            assert(chars@.take(i + 1).drop_last() =~= chars@.take(i as int));
            assert(chars@.take(i + 1).last() == chars@[i as int]);
            lemma_word_pieces_nonempty(chars@.take(i + 1));
        }
        let c = chars[i];
        if is_alphanumeric(c) {
            current.push(c);
            proof {
                let next = word_pieces(chars@.take(i + 1));
                assert(next == pieces.update(pieces.len() - 1, pieces.last().push(c)));
                assert(next.drop_last() =~= pieces.drop_last());
            }
        } else {
            let ghost old_set = set@.to_set();
            if current.len() > 0 {
                set.insert(string_from(&current));
            }
            current = Vec::new();
            proof {
                let next = word_pieces(chars@.take(i + 1));
                assert(next == pieces.push(Seq::empty()));
                assert(next.drop_last() =~= pieces);
                assert(pieces =~= pieces.drop_last().push(pieces.last()));
                assert forall|w: Seq<char>|
                    #[trigger] set@.to_set().contains(w) <==> (next.drop_last().contains(w) && w.len()
                        > 0) by {
                    if pieces.contains(w) && w.len() > 0 {
                        let k = choose|k: int| 0 <= k < pieces.len() && pieces[k] == w;
                        if k < pieces.len() - 1 {
                            assert(pieces.drop_last()[k] == w);
                        }
                    }
                    if pieces.drop_last().contains(w) {
                        let k = choose|k: int| 0 <= k < pieces.drop_last().len() && pieces.drop_last()[k] == w;
                        assert(pieces[k] == w);
                    }
                }
            }
        }
        i = i + 1;
    }
    let ghost pieces = word_pieces(chars@.take(i as int));
    if current.len() > 0 {
        set.insert(string_from(&current));
    }
    let r = set.to_vec();
    proof {
        assert(chars@.take(i as int) =~= text@);
        assert(pieces =~= pieces.drop_last().push(pieces.last()));
        assert forall|w: Seq<char>| views(r@).to_set().contains(w) <==> words(text@).contains(w) by {
            if pieces.contains(w) && w.len() > 0 {
                let k = choose|k: int| 0 <= k < pieces.len() && pieces[k] == w;
                if k < pieces.len() - 1 {
                    assert(pieces.drop_last()[k] == w);
                }
            }
            if pieces.drop_last().contains(w) {
                let k = choose|k: int| 0 <= k < pieces.drop_last().len() && pieces.drop_last()[k] == w;
                assert(pieces[k] == w);
            }
        }
        assert(views(r@).to_set() =~= words(text@));
        let q = query_terms(text@);
        assert(strictly_sorted(q) && q.to_set() == words(text@));
        lemma_sorted_same_members(views(r@), q);
    }
    r
}

/// Largest value a score takes: `u32::MAX`.
pub open spec fn cap(x: int) -> int {
    if x > u32::MAX {
        u32::MAX as int
    } else {
        x
    }
}

/// Number of `terms` that occur in `field`.
pub open spec fn term_hits(field: Seq<char>, terms: Seq<Seq<char>>) -> nat
    decreases terms.len(),
{
    if terms.len() == 0 {
        0
    } else {
        term_hits(field, terms.drop_last()) + if contains_text(field, terms.last()) {
            1nat
        } else {
            0nat
        }
    }
}

/// Sum over `fields`, each normalized, of the number of `terms` it contains.
pub open spec fn fields_hits(fields: Seq<Seq<char>>, terms: Seq<Seq<char>>) -> nat
    decreases fields.len(),
{
    if fields.len() == 0 {
        0
    } else {
        fields_hits(fields.drop_last(), terms) + term_hits(normalize(fields.last()), terms)
    }
}

proof fn lemma_cap_add(a: int, b: int)
    requires
        a >= 0,
        b >= 0,
    ensures
        cap(cap(a) + cap(b)) == cap(a + b),
{
}

proof fn lemma_cap_mul(h: int, w: int)
    requires
        h >= 0,
        w >= 1,
    ensures
        cap(cap(h) * w) == cap(h * w),
{
    if h > u32::MAX {
        assert(cap(h) * w >= cap(h)) by (nonlinear_arith)
            requires
                cap(h) >= 0,
                w >= 1,
        ;
        assert(h * w >= h) by (nonlinear_arith)
            requires
                h >= 0,
                w >= 1,
        ;
    }
}

/// `a + b` stopping at `u32::MAX`.
fn add_capped(a: u32, b: u32) -> (r: u32)
    ensures
        r == cap(a + b),
{
    a.saturating_add(b)
}

/// `hits * weight` stopping at `u32::MAX`.
fn weighted(hits: u32, weight: u32) -> (r: u32)
    ensures
        r == cap(hits * weight),
{
    match hits.checked_mul(weight) {
        Some(v) => v,
        None => u32::MAX,
    }
}

/// Number of `terms` occurring in `field`, stopping at `u32::MAX`.
fn count_hits(field: &[char], terms: &Vec<Vec<char>>) -> (r: u32)
    ensures
        r == cap(term_hits(field@, char_views(terms@)) as int),
{
    let ghost tv = char_views(terms@);
    let mut n: u32 = 0;
    let mut k: usize = 0;
    while k < terms.len()
        invariant
            k <= terms@.len(),
            tv == char_views(terms@),
            n == cap(term_hits(field@, tv.take(k as int)) as int),
        decreases terms@.len() - k,
    {
        proof {
            assert(tv.take(k + 1).drop_last() =~= tv.take(k as int));
            assert(tv.take(k + 1).last() == terms@[k as int]@);
        }
        if chars_contain(field, &terms[k]) {
            proof {
                lemma_cap_add(term_hits(field@, tv.take(k as int)) as int, 1);
            }
            n = add_capped(n, 1);
        }
        k = k + 1;
    }
    assert(tv.take(terms@.len() as int) =~= tv);
    n
}

/// Characters of the normalized text.
fn normalized_chars(s: &str) -> (r: Vec<char>)
    ensures
        r@ == normalize(s@),
{
    chars_of(normalize_text(s).as_str())
}

/// The character sequences of a list of strings.
fn char_lists(items: &Vec<String>) -> (r: Vec<Vec<char>>)
    ensures
        char_views(r@) == views(items@),
{
    let mut out: Vec<Vec<char>> = Vec::new();
    let mut k: usize = 0;
    while k < items.len()
        invariant
            k <= items@.len(),
            char_views(out@) == views(items@).take(k as int),
        decreases items@.len() - k,
    {
        let ghost before = out@;
        out.push(chars_of(items[k].as_str()));
        proof {
            assert(char_views(out@) =~= char_views(before).push(
                items@[k as int]@,
            ));
            assert(views(items@).take(k + 1) =~= views(items@).take(k as int).push(items@[k as int]@));
        }
        k = k + 1;
    }
    assert(views(items@).take(items@.len() as int) =~= views(items@));
    out
}

/// Total hits of `terms` over the normalized members of `set`, stopping at `u32::MAX`.
fn count_set_hits(set: &TextSet, terms: &Vec<Vec<char>>) -> (r: u32)
    ensures
        r == cap(fields_hits(set@, char_views(terms@)) as int),
{
    let ghost tv = char_views(terms@);
    let n = set.len();
    let mut total: u32 = 0;
    let mut k: usize = 0;
    while k < n
        invariant
            n == set@.len(),
            k <= n,
            tv == char_views(terms@),
            total == cap(fields_hits(set@.take(k as int), tv) as int),
        decreases n - k,
    {
        proof {
            assert(set@.take(k + 1).drop_last() =~= set@.take(k as int));
            assert(set@.take(k + 1).last() == set@[k as int]);
        }
        let field = normalized_chars(set.get(k).as_str());
        let h = count_hits(&field, terms);
        proof {
            lemma_cap_add(
                fields_hits(set@.take(k as int), tv) as int,
                term_hits(normalize(set@[k as int]), tv) as int,
            );
        }
        total = add_capped(total, h);
        k = k + 1;
    }
    assert(set@.take(n as int) =~= set@);
    total
}

/// `value` cut to its first `max` characters, with `…` appended when something was cut.
pub open spec fn truncated(value: Seq<char>, max: int) -> Seq<char> {
    if value.len() > max {
        value.take(max).push('…')
    } else {
        value
    }
}

/// Whether a trimmed line is non-empty and, when there are terms, its normalized text contains
/// one of them.
pub open spec fn line_selected(line: Seq<char>, terms: Seq<Seq<char>>) -> bool {
    trim(line).len() > 0 && (terms.len() == 0 || exists|k: int|
        0 <= k < terms.len() && contains_text(normalize(trim(line)), #[trigger] terms[k]))
}

/// The first trimmed line that `line_selected` accepts.
pub open spec fn first_selected(lines: Seq<Seq<char>>, terms: Seq<Seq<char>>) -> Option<Seq<char>>
    decreases lines.len(),
{
    if lines.len() == 0 {
        None
    } else if line_selected(lines[0], terms) {
        Some(trim(lines[0]))
    } else {
        first_selected(lines.drop_first(), terms)
    }
}

/// The first non-empty trimmed line.
pub open spec fn first_nonempty(lines: Seq<Seq<char>>) -> Option<Seq<char>>
    decreases lines.len(),
{
    if lines.len() == 0 {
        None
    } else if trim(lines[0]).len() > 0 {
        Some(trim(lines[0]))
    } else {
        first_nonempty(lines.drop_first())
    }
}

/// The snippet shown for a body: the first line that mentions a term (any non-empty line when
/// there are no terms), else the first non-empty line, cut to 180 characters.
pub open spec fn snippet_of(body: Seq<char>, terms: Seq<Seq<char>>) -> Seq<char> {
    let lines = text_lines(body);
    let line = match first_selected(lines, terms) {
        Some(l) => l,
        None => match first_nonempty(lines) {
            Some(l) => l,
            None => Seq::empty(),
        },
    };
    truncated(line, 180)
}

/// Cuts text to `max` characters, marking a cut with `…`.
pub fn truncate_chars(value: &[char], max: usize) -> (r: String)
    ensures
        r@ == truncated(value@, max as int),
{
    if value.len() > max {
        let mut out = string_from(&crate::text::slice_range(value, 0, max));
        push_char(&mut out, '…');
        proof {
            assert(value@.subrange(0, max as int) =~= value@.take(max as int));
        }
        out
    } else {
        string_from(value)
    }
}

/// Whether some term occurs in `field`.
fn any_term_in(field: &[char], terms: &Vec<Vec<char>>) -> (r: bool)
    ensures
        r == exists|k: int|
            0 <= k < terms@.len() && contains_text(field@, #[trigger] char_views(terms@)[k]),
{
    let ghost tv = char_views(terms@);
    let mut k: usize = 0;
    while k < terms.len()
        invariant
            k <= terms@.len(),
            tv == char_views(terms@),
            forall|j: int| 0 <= j < k ==> !contains_text(field@, #[trigger] tv[j]),
        decreases terms@.len() - k,
    {
        if chars_contain(field, &terms[k]) {
            assert(tv[k as int] == terms@[k as int]@);
            return true;
        }
        k = k + 1;
    }
    false
}

/// Builds the snippet of a body for the given terms.
pub fn make_snippet(body: &str, terms: &Vec<Vec<char>>) -> (r: String)
    ensures
        r@ == snippet_of(body@, char_views(terms@)),
{
    let ghost tv = char_views(terms@);
    let chars = chars_of(body);
    let lines = lines_of(&chars);
    let ghost all = text_lines(body@);
    let mut selected: Option<Vec<char>> = None;
    let mut i: usize = 0;
    assert(all.skip(0) =~= all);
    while i < lines.len()
        invariant_except_break
            selected is None,
        invariant
            i <= lines@.len(),
            lines@.len() == all.len(),
            all == text_lines(body@),
            tv == char_views(terms@),
            forall|k: int| 0 <= k < lines@.len() ==> (#[trigger] lines@[k])@ == all[k],
            first_selected(all, tv) == first_selected(all.skip(i as int), tv),
        ensures
            match selected {
                Some(t) => first_selected(all, tv) == Some(t@),
                None => first_selected(all, tv) is None,
            },
        decreases lines@.len() - i,
    {
        assert(all.skip(i as int).drop_first() =~= all.skip(i + 1));
        assert(all.skip(i as int)[0] == all[i as int]);
        let t = trim_chars(&lines[i]);
        if t.len() > 0 {
            let accept = if terms.len() == 0 {
                true
            } else {
                let n = normalized_chars(string_from(&t).as_str());
                any_term_in(&n, terms)
            };
            if accept {
                proof {
                    assert(line_selected(all[i as int], tv));
                    assert(first_selected(all.skip(i as int), tv) == Some(t@));
                }
                selected = Some(t);
                break;
            } else {
                proof {
                    assert(!line_selected(all[i as int], tv));
                }
            }
        }
        i = i + 1;
    }
    let line: Vec<char> = match selected {
        Some(t) => t,
        None => {
            let mut j: usize = 0;
            let mut found: Vec<char> = Vec::new();
            assert(all.skip(0) =~= all);
            while j < lines.len()
                invariant_except_break
                    found@.len() == 0,
                invariant
                    j <= lines@.len(),
                    lines@.len() == all.len(),
                    forall|k: int| 0 <= k < lines@.len() ==> (#[trigger] lines@[k])@ == all[k],
                    first_nonempty(all) == first_nonempty(all.skip(j as int)),
                ensures
                    found@.len() == 0 ==> first_nonempty(all) is None,
                    found@.len() > 0 ==> first_nonempty(all) == Some(found@),
                decreases lines@.len() - j,
            {
                assert(all.skip(j as int).drop_first() =~= all.skip(j + 1));
                assert(all.skip(j as int)[0] == all[j as int]);
                let t = trim_chars(&lines[j]);
                if t.len() > 0 {
                    proof {
                        assert(first_nonempty(all.skip(j as int)) == Some(t@));
                    }
                    found = t;
                    break;
                }
                j = j + 1;
            }
            found
        },
    };
    truncate_chars(&line, 180)
}

/// A document field that contributed to a search hit.
#[derive(Clone, Copy, Debug, PartialEq, Eq, Structural, Hash, PartialOrd, Ord)]
pub enum MatchField {
    /// Canonical identifier.
    Id,
    /// Display title.
    Title,
    /// Summary metadata.
    Summary,
    /// Tag metadata.
    Tag,
    /// Alias metadata.
    Alias,
    /// Markdown body.
    Body,
}

/// The set of fields that contributed to a hit.
#[derive(Clone, Copy, Debug, PartialEq, Eq)]
pub struct MatchFieldSet {
    id: bool,
    title: bool,
    summary: bool,
    tag: bool,
    alias: bool,
    body: bool,
}

impl MatchFieldSet {
    /// Whether `field` is a member.
    pub closed spec fn has(self, field: MatchField) -> bool {
        match field {
            MatchField::Id => self.id,
            MatchField::Title => self.title,
            MatchField::Summary => self.summary,
            MatchField::Tag => self.tag,
            MatchField::Alias => self.alias,
            MatchField::Body => self.body,
        }
    }

    /// Whether `field` is a member.
    pub fn contains(&self, field: &MatchField) -> (r: bool)
        ensures
            r == self.has(*field),
    {
        match field {
            MatchField::Id => self.id,
            MatchField::Title => self.title,
            MatchField::Summary => self.summary,
            MatchField::Tag => self.tag,
            MatchField::Alias => self.alias,
            MatchField::Body => self.body,
        }
    }

    /// Whether no field is a member.
    pub fn is_empty(&self) -> (r: bool)
        ensures
            r == forall|f: MatchField| !self.has(f),
    {
        let r = !(self.id || self.title || self.summary || self.tag || self.alias || self.body);
        proof {
            if !r {
                if self.id {
                    assert(self.has(MatchField::Id));
                } else if self.title {
                    assert(self.has(MatchField::Title));
                } else if self.summary {
                    assert(self.has(MatchField::Summary));
                } else if self.tag {
                    assert(self.has(MatchField::Tag));
                } else if self.alias {
                    assert(self.has(MatchField::Alias));
                } else {
                    assert(self.has(MatchField::Body));
                }
            }
        }
        r
    }
}

/// A deterministic lexical query.
#[derive(Clone, Debug)]
pub struct SearchQuery {
    text: String,
    tags: TextSet,
    limit: usize,
}

impl SearchQuery {
    /// The query text as given.
    pub closed spec fn spec_text(&self) -> Seq<char> {
        self.text@
    }

    /// The normalized required tags, ascending.
    pub closed spec fn spec_tags(&self) -> Seq<Seq<char>> {
        self.tags@
    }

    /// The maximum number of hits.
    pub closed spec fn spec_limit(&self) -> nat {
        self.limit as nat
    }

    /// Creates a text query with a default limit of 20 hits.
    pub fn new(text: &str) -> (r: SearchQuery)
        ensures
            r.spec_text() == text@,
            r.spec_tags().len() == 0,
            r.spec_limit() == 20,
    {
        SearchQuery { text: owned(text), tags: TextSet::new(), limit: 20 }
    }

    /// Requires a tag, compared after normalization. Multiple calls use AND semantics.
    pub fn with_tag(self, tag: &str) -> (r: SearchQuery)
        ensures
            r.spec_text() == self.spec_text(),
            r.spec_limit() == self.spec_limit(),
            r.spec_tags().to_set() == self.spec_tags().to_set().insert(normalize(tag@)),
            strictly_sorted(r.spec_tags()),
    {
        let SearchQuery { text, mut tags, limit } = self;
        tags.insert(normalize_text(tag));
        let n = tags.len();
        SearchQuery { text, tags, limit }
    }

    /// Sets the maximum number of returned hits.
    pub fn limit(self, limit: usize) -> (r: SearchQuery)
        ensures
            r.spec_text() == self.spec_text(),
            r.spec_tags() == self.spec_tags(),
            r.spec_limit() == limit,
    {
        let SearchQuery { text, tags, limit: _ } = self;
        SearchQuery { text, tags, limit }
    }

    /// Returns the original query text.
    pub fn text(&self) -> (r: &str)
        ensures
            r@ == self.spec_text(),
    {
        self.text.as_str()
    }

    /// Returns the normalized required tags.
    pub fn tags(&self) -> (r: &TextSet)
        ensures
            r@ == self.spec_tags(),
    {
        &self.tags
    }

    /// Returns the maximum number of hits.
    pub fn max_results(&self) -> (r: usize)
        ensures
            r == self.spec_limit(),
    {
        self.limit
    }
}

/// One ranked search result.
#[derive(Clone, Debug)]
pub struct SearchHit<'a> {
    /// Matching document.
    pub document: &'a Document,
    /// Deterministic integer relevance score.
    pub score: u32,
    /// Fields that contributed to the score.
    pub matched_fields: MatchFieldSet,
    /// Short body excerpt suitable for result displays.
    pub snippet: String,
}

/// Relevance of document `d` for `terms` of the normalized query `text`: 100 for a title equal
/// to the text, then per contained term 16 for the identifier, 24 for the title, 8 for the
/// summary, 12 for each tag, 14 for each alias and 2 for the body, all compared normalized.
pub open spec fn doc_score(d: Document, terms: Seq<Seq<char>>, text: Seq<char>) -> int {
    let m = d.spec_metadata();
    (if text.len() > 0 && normalize(d.spec_title()) == text {
        100int
    } else {
        0int
    }) + 16 * term_hits(normalize(d.spec_id()), terms) + 24 * term_hits(normalize(d.spec_title()), terms)
        + (match m.summary {
        Some(s) => 8 * term_hits(normalize(s@), terms),
        None => 0,
    }) + 12 * fields_hits(m.tags@, terms) + 14 * fields_hits(m.aliases@, terms) + 2 * term_hits(
        normalize(d.spec_body()),
        terms,
    )
}

/// Whether field `f` of document `d` contributed to its score.
pub open spec fn doc_field_matched(d: Document, terms: Seq<Seq<char>>, text: Seq<char>, f: MatchField) -> bool {
    let m = d.spec_metadata();
    match f {
        MatchField::Id => term_hits(normalize(d.spec_id()), terms) > 0,
        MatchField::Title => (text.len() > 0 && normalize(d.spec_title()) == text) || term_hits(
            normalize(d.spec_title()),
            terms,
        ) > 0,
        MatchField::Summary => match m.summary {
            Some(s) => term_hits(normalize(s@), terms) > 0,
            None => false,
        },
        MatchField::Tag => fields_hits(m.tags@, terms) > 0,
        MatchField::Alias => fields_hits(m.aliases@, terms) > 0,
        MatchField::Body => term_hits(normalize(d.spec_body()), terms) > 0,
    }
}

/// Whether one of the document's tags normalizes to `tag`.
pub open spec fn has_normalized_tag(d: Document, tag: Seq<char>) -> bool {
    exists|j: int| 0 <= j < d.spec_metadata().tags@.len() && normalize(d.spec_metadata().tags@[j]) == tag
}

/// Whether every required tag is among the document's normalized tags.
pub open spec fn has_required_tags(d: Document, required: Seq<Seq<char>>) -> bool {
    forall|k: int| 0 <= k < required.len() ==> #[trigger] has_normalized_tag(d, required[k])
}

/// Whether document `d` is a hit: it has the required tags and, when there are terms, a
/// positive score.
#[verifier::opaque]
pub open spec fn is_candidate(d: Document, required: Seq<Seq<char>>, terms: Seq<Seq<char>>, text: Seq<char>) -> bool {
    has_required_tags(d, required) && (terms.len() == 0 || doc_score(d, terms, text) > 0)
}

/// Whether hit `h` reports document `d`.
#[verifier::opaque]
pub open spec fn hit_for<'a>(h: SearchHit<'a>, d: Document, terms: Seq<Seq<char>>, text: Seq<char>) -> bool {
    &&& *h.document == d
    &&& h.score == cap(doc_score(d, terms, text))
    &&& forall|f: MatchField| #[trigger] h.matched_fields.has(f) == doc_field_matched(d, terms, text, f)
    &&& h.snippet@ == snippet_of(d.spec_body(), terms)
}

/// Whether a hit with score `s1` for identifier `id1` is listed before one with `s2`, `id2`:
/// higher scores first, ties in identifier order.
pub open spec fn ranks_before(s1: int, id1: Seq<char>, s2: int, id2: Seq<char>) -> bool {
    s1 > s2 || (s1 == s2 && text_lt(id1, id2))
}

/// Whether some hit reports document `d`.
pub open spec fn listed<'a>(hits: Seq<SearchHit<'a>>, d: Document) -> bool {
    exists|a: int| 0 <= a < hits.len() && *hits[a].document == d
}

/// Whether document `d` is listed among `hits`, or `limit` hits all rank before it.
pub open spec fn listed_or_outranked<'a>(
    hits: Seq<SearchHit<'a>>,
    d: Document,
    limit: int,
    terms: Seq<Seq<char>>,
    text: Seq<char>,
) -> bool {
    listed(hits, d) || (hits.len() == limit && forall|a: int|
        0 <= a < hits.len() ==> ranks_before(
            hits[a].score as int,
            hits[a].document.spec_id(),
            cap(doc_score(d, terms, text)),
            d.spec_id(),
        ))
}

/// Whether `hits` is the result of searching `docs`: at most `limit` hits, each for a distinct
/// candidate document, listed in rank order, and no candidate left out unless `limit` hits
/// already rank before it.
pub open spec fn search_result<'a>(
    hits: Seq<SearchHit<'a>>,
    docs: Seq<Document>,
    required: Seq<Seq<char>>,
    limit: int,
    terms: Seq<Seq<char>>,
    text: Seq<char>,
) -> bool {
    &&& hits.len() <= limit
    &&& forall|a: int, b: int|
        #![trigger hits[a], hits[b]]
        0 <= a < b < hits.len() ==> ranks_before(
            hits[a].score as int,
            hits[a].document.spec_id(),
            hits[b].score as int,
            hits[b].document.spec_id(),
        )
    &&& forall|a: int|
        0 <= a < hits.len() ==> #[trigger] from_candidate(
            hits[a],
            docs,
            docs.len() as int,
            required,
            terms,
            text,
        )
    &&& forall|i: int|
        0 <= i < docs.len() && is_candidate(docs[i], required, terms, text) ==> #[trigger] listed_or_outranked(
            hits,
            docs[i],
            limit,
            terms,
            text,
        )
}

/// Whether hit `h` reports a candidate among the first `n` documents.
pub open spec fn from_candidate<'a>(
    h: SearchHit<'a>,
    docs: Seq<Document>,
    n: int,
    required: Seq<Seq<char>>,
    terms: Seq<Seq<char>>,
    text: Seq<char>,
) -> bool {
    exists|j: int|
        0 <= j < n && is_candidate(docs[j], required, terms, text) && #[trigger] hit_for(h, docs[j], terms, text)
}

/// Whether hits are listed in rank order.
pub open spec fn hits_ranked<'a>(hits: Seq<SearchHit<'a>>) -> bool {
    forall|a: int, b: int|
        #![trigger hits[a], hits[b]]
        0 <= a < b < hits.len() ==> ranks_before(
            hits[a].score as int,
            hits[a].document.spec_id(),
            hits[b].score as int,
            hits[b].document.spec_id(),
        )
}

/// Inserts a hit for a document not yet listed at its rank position.
fn insert_ranked<'a>(ranked: &mut Vec<SearchHit<'a>>, hit: SearchHit<'a>)
    requires
        hits_ranked(old(ranked)@),
        forall|q: int|
            0 <= q < old(ranked)@.len() ==> (#[trigger] old(ranked)@[q]).document.spec_id()
                != hit.document.spec_id(),
    ensures
        hits_ranked(final(ranked)@),
        exists|p: int| 0 <= p <= old(ranked)@.len() && final(ranked)@ == old(ranked)@.insert(p, hit),
{
    let mut p: usize = 0;
    while p < ranked.len() && rank_first(&ranked[p], &hit)
        invariant
            p <= ranked@.len(),
            forall|q: int|
                0 <= q < p ==> ranks_before(
                    (#[trigger] ranked@[q]).score as int,
                    ranked@[q].document.spec_id(),
                    hit.score as int,
                    hit.document.spec_id(),
                ),
        decreases ranked@.len() - p,
    {
        p = p + 1;
    }
    let ghost old_ranked = ranked@;
    proof {
        if p < old_ranked.len() {
            lemma_text_lt_total(old_ranked[p as int].document.spec_id(), hit.document.spec_id());
            assert(ranks_before(
                hit.score as int,
                hit.document.spec_id(),
                old_ranked[p as int].score as int,
                old_ranked[p as int].document.spec_id(),
            ));
        }
    }
    proof {
        assert forall|q: int| p <= q < old_ranked.len() implies ranks_before(
            hit.score as int,
            hit.document.spec_id(),
            (#[trigger] old_ranked[q]).score as int,
            old_ranked[q].document.spec_id(),
        ) by {
            if q > p {
                assert(ranks_before(
                    old_ranked[p as int].score as int,
                    old_ranked[p as int].document.spec_id(),
                    old_ranked[q].score as int,
                    old_ranked[q].document.spec_id(),
                ));
                lemma_ranks_transitive(
                    hit.score as int,
                    hit.document.spec_id(),
                    old_ranked[p as int].score as int,
                    old_ranked[p as int].document.spec_id(),
                    old_ranked[q].score as int,
                    old_ranked[q].document.spec_id(),
                );
            }
        }
    }
    ranked.insert(p, hit);
    proof {
        let nr = ranked@;
        assert(nr == old_ranked.insert(p as int, hit));
        assert forall|a: int, b: int|
            #![trigger nr[a], nr[b]]
            0 <= a < b < nr.len() implies ranks_before(
                nr[a].score as int,
                nr[a].document.spec_id(),
                nr[b].score as int,
                nr[b].document.spec_id(),
            ) by {
            if b < p {
                assert(nr[a] == old_ranked[a] && nr[b] == old_ranked[b]);
            } else if a < p && b == p {
                assert(nr[a] == old_ranked[a]);
            } else if a < p && b > p {
                assert(nr[a] == old_ranked[a] && nr[b] == old_ranked[b - 1]);
                assert(ranks_before(
                    hit.score as int,
                    hit.document.spec_id(),
                    old_ranked[b - 1].score as int,
                    old_ranked[b - 1].document.spec_id(),
                ));
                lemma_ranks_transitive(
                    nr[a].score as int,
                    nr[a].document.spec_id(),
                    hit.score as int,
                    hit.document.spec_id(),
                    nr[b].score as int,
                    nr[b].document.spec_id(),
                );
            } else if a == p {
                assert(nr[b] == old_ranked[b - 1]);
            } else {
                assert(nr[a] == old_ranked[a - 1] && nr[b] == old_ranked[b - 1]);
            }
        }
    }
}

/// Every listed hit reports a candidate among the first `n` documents.
pub open spec fn hits_from<'a>(
    hits: Seq<SearchHit<'a>>,
    docs: Seq<Document>,
    n: int,
    required: Seq<Seq<char>>,
    terms: Seq<Seq<char>>,
    text: Seq<char>,
) -> bool {
    forall|a: int| 0 <= a < hits.len() ==> #[trigger] from_candidate(hits[a], docs, n, required, terms, text)
}

/// Every candidate among the first `n` documents is listed.
pub open spec fn hits_cover<'a>(
    hits: Seq<SearchHit<'a>>,
    docs: Seq<Document>,
    n: int,
    required: Seq<Seq<char>>,
    terms: Seq<Seq<char>>,
    text: Seq<char>,
) -> bool {
    forall|j: int|
        0 <= j < n && is_candidate(docs[j], required, terms, text) ==> #[trigger] listed(hits, docs[j])
}

proof fn lemma_hits_from_grow<'a>(
    hits: Seq<SearchHit<'a>>,
    docs: Seq<Document>,
    n: int,
    required: Seq<Seq<char>>,
    terms: Seq<Seq<char>>,
    text: Seq<char>,
)
    requires
        hits_from(hits, docs, n, required, terms, text),
    ensures
        hits_from(hits, docs, n + 1, required, terms, text),
{
    assert forall|a: int| 0 <= a < hits.len() implies #[trigger] from_candidate(
        hits[a],
        docs,
        n + 1,
        required,
        terms,
        text,
    ) by {
        assert(from_candidate(hits[a], docs, n, required, terms, text));
        let j = choose|j: int|
            0 <= j < n && is_candidate(docs[j], required, terms, text) && #[trigger] hit_for(
                hits[a],
                docs[j],
                terms,
                text,
            );
    }
}

proof fn lemma_hits_insert<'a>(
    old: Seq<SearchHit<'a>>,
    nr: Seq<SearchHit<'a>>,
    p: int,
    hit: SearchHit<'a>,
    docs: Seq<Document>,
    i: int,
    required: Seq<Seq<char>>,
    terms: Seq<Seq<char>>,
    text: Seq<char>,
)
    requires
        0 <= p <= old.len(),
        nr == old.insert(p, hit),
        0 <= i < docs.len(),
        hit_for(hit, docs[i], terms, text),
        is_candidate(docs[i], required, terms, text),
        hits_from(old, docs, i, required, terms, text),
        hits_cover(old, docs, i, required, terms, text),
    ensures
        hits_from(nr, docs, i + 1, required, terms, text),
        hits_cover(nr, docs, i + 1, required, terms, text),
{
    assert forall|a: int| 0 <= a < nr.len() implies #[trigger] from_candidate(
        nr[a],
        docs,
        i + 1,
        required,
        terms,
        text,
    ) by {
        if a < p {
            assert(nr[a] == old[a]);
            assert(from_candidate(old[a], docs, i, required, terms, text));
            let j = choose|j: int|
                0 <= j < i && is_candidate(docs[j], required, terms, text) && #[trigger] hit_for(
                    old[a],
                    docs[j],
                    terms,
                    text,
                );
            assert(hit_for(nr[a], docs[j], terms, text));
        } else if a > p {
            assert(nr[a] == old[a - 1]);
            assert(from_candidate(old[a - 1], docs, i, required, terms, text));
            let j = choose|j: int|
                0 <= j < i && is_candidate(docs[j], required, terms, text) && #[trigger] hit_for(
                    old[a - 1],
                    docs[j],
                    terms,
                    text,
                );
            assert(hit_for(nr[a], docs[j], terms, text));
        } else {
            assert(hit_for(nr[a], docs[i], terms, text));
        }
    }
    assert(hits_from(nr, docs, i + 1, required, terms, text));
    assert forall|j: int|
        0 <= j < i + 1 && is_candidate(docs[j], required, terms, text) implies #[trigger] listed(nr, docs[j]) by {
        if j < i {
            assert(listed(old, docs[j]));
            let a = choose|a: int| 0 <= a < old.len() && *old[a].document == docs[j];
            if a < p {
                assert(nr[a] == old[a]);
            } else {
                assert(nr[a + 1] == old[a]);
            }
        } else {
            reveal(hit_for);
            assert(*nr[p].document == docs[i]);
        }
    }
}

proof fn lemma_hits_truncate<'a>(
    full: Seq<SearchHit<'a>>,
    r: Seq<SearchHit<'a>>,
    limit: int,
    docs: Seq<Document>,
    required: Seq<Seq<char>>,
    terms: Seq<Seq<char>>,
    text: Seq<char>,
)
    requires
        0 < limit,
        limit <= full.len() ==> r == full.subrange(0, limit),
        limit > full.len() ==> r == full,
        hits_ranked(full),
        hits_from(full, docs, docs.len() as int, required, terms, text),
        hits_cover(full, docs, docs.len() as int, required, terms, text),
    ensures
        search_result(r, docs, required, limit, terms, text),
{
    assert forall|i: int|
        0 <= i < docs.len() && is_candidate(docs[i], required, terms, text) implies #[trigger] listed_or_outranked(
            r,
            docs[i],
            limit,
            terms,
            text,
        ) by {
        assert(listed(full, docs[i]));
        let k = choose|k: int| 0 <= k < full.len() && *full[k].document == docs[i];
        if k < r.len() {
            assert(r[k] == full[k]);
            assert(listed(r, docs[i]));
        } else {
            reveal(hit_for);
            assert(from_candidate(full[k], docs, docs.len() as int, required, terms, text));
            let j = choose|j: int|
                0 <= j < docs.len() && is_candidate(docs[j], required, terms, text) && #[trigger] hit_for(
                    full[k],
                    docs[j],
                    terms,
                    text,
                );
            assert forall|a: int| 0 <= a < r.len() implies ranks_before(
                r[a].score as int,
                r[a].document.spec_id(),
                cap(doc_score(docs[i], terms, text)),
                docs[i].spec_id(),
            ) by {
                assert(r[a] == full[a]);
                assert(ranks_before(
                    full[a].score as int,
                    full[a].document.spec_id(),
                    full[k].score as int,
                    full[k].document.spec_id(),
                ));
            }
        }
    }
    assert forall|a: int| 0 <= a < r.len() implies #[trigger] from_candidate(
        r[a],
        docs,
        docs.len() as int,
        required,
        terms,
        text,
    ) by {
        assert(r[a] == full[a]);
        assert(from_candidate(full[a], docs, docs.len() as int, required, terms, text));
    }
    assert forall|a: int, b: int|
        #![trigger r[a], r[b]]
        0 <= a < b < r.len() implies ranks_before(
            r[a].score as int,
            r[a].document.spec_id(),
            r[b].score as int,
            r[b].document.spec_id(),
        ) by {
        assert(r[a] == full[a] && r[b] == full[b]);
    }
}

proof fn lemma_ranks_transitive(s1: int, a: Seq<char>, s2: int, b: Seq<char>, s3: int, c: Seq<char>)
    requires
        ranks_before(s1, a, s2, b),
        ranks_before(s2, b, s3, c),
    ensures
        ranks_before(s1, a, s3, c),
{
    if s1 == s2 && s2 == s3 {
        crate::text::lemma_text_lt_transitive(a, b, c);
    }
}

/// Whether `document` carries every required (normalized) tag.
fn matches_required_tags(document: &Document, required: &TextSet) -> (r: bool)
    ensures
        r == has_required_tags(*document, required@),
{
    let tags = &document.metadata().tags;
    let ghost tv = tags@;
    let n = tags.len();
    let mut normalized: Vec<String> = Vec::new();
    let mut k: usize = 0;
    while k < n
        invariant
            n == tv.len(),
            tv == tags@,
            k <= n,
            normalized@.len() == k,
            forall|j: int| 0 <= j < k ==> (#[trigger] normalized@[j])@ == normalize(tv[j]),
        decreases n - k,
    {
        normalized.push(normalize_text(tags.get(k).as_str()));
        k = k + 1;
    }
    let m = required.len();
    let mut i: usize = 0;
    while i < m
        invariant
            m == required@.len(),
            i <= m,
            n == tv.len(),
            tv == document.spec_metadata().tags@,
            normalized@.len() == n,
            forall|j: int| 0 <= j < n ==> (#[trigger] normalized@[j])@ == normalize(tv[j]),
            forall|x: int| 0 <= x < i ==> #[trigger] has_normalized_tag(*document, required@[x]),
        decreases m - i,
    {
        let want = required.get(i);
        let mut found = false;
        let mut j: usize = 0;
        while j < n
            invariant
                n == tv.len(),
                normalized@.len() == n,
                forall|x: int| 0 <= x < n ==> (#[trigger] normalized@[x])@ == normalize(tv[x]),
                j <= n,
                found ==> exists|x: int| 0 <= x < tv.len() && normalize(tv[x]) == want@,
                !found ==> forall|x: int| 0 <= x < j ==> normalize(tv[x]) != want@,
            decreases n - j,
        {
            if text_eq_string(&normalized[j], want) {
                found = true;
            }
            j = j + 1;
        }
        if !found {
            proof {
                assert(!has_normalized_tag(*document, required@[i as int]));
            }
            return false;
        }
        proof {
            assert(has_normalized_tag(*document, required@[i as int]));
        }
        i = i + 1;
    }
    true
}

fn text_eq_string(a: &String, b: &String) -> (r: bool)
    ensures
        r == (a@ == b@),
{
    crate::text::text_eq(a.as_str(), b.as_str())
}

/// Scores one document and, when it is a hit, builds the hit.
fn score_document<'a>(
    document: &'a Document,
    terms: &Vec<Vec<char>>,
    text: &Vec<char>,
) -> (r: SearchHit<'a>)
    ensures
        hit_for(r, *document, char_views(terms@), text@),
{
    let ghost tv = char_views(terms@);
    let ghost t = text@;
    let title = normalized_chars(document.title());
    let id = normalized_chars(document.id().as_str());
    let body = normalized_chars(document.body());
    let metadata = document.metadata();
    let exact = text.len() > 0 && crate::text::chars_eq(&title, text);
    let mut score: u32 = if exact {
        100
    } else {
        0
    };
    let ghost mut total: int = if exact {
        100int
    } else {
        0int
    };
    let id_hits = count_hits(&id, terms);
    let title_hits = count_hits(&title, terms);
    let body_hits = count_hits(&body, terms);
    let tag_hits = count_set_hits(&metadata.tags, terms);
    let alias_hits = count_set_hits(&metadata.aliases, terms);
    let summary_hits: u32 = match &metadata.summary {
        Some(s) => count_hits(&normalized_chars(s.as_str()), terms),
        None => 0,
    };
    let ghost h_id = term_hits(normalize(document.spec_id()), tv) as int;
    let ghost h_title = term_hits(normalize(document.spec_title()), tv) as int;
    let ghost h_body = term_hits(normalize(document.spec_body()), tv) as int;
    let ghost h_tags = fields_hits(document.spec_metadata().tags@, tv) as int;
    let ghost h_aliases = fields_hits(document.spec_metadata().aliases@, tv) as int;
    let ghost h_summary: int = match document.spec_metadata().summary {
        Some(s) => term_hits(normalize(s@), tv) as int,
        None => 0,
    };
    proof {
        lemma_cap_mul(h_id, 16);
        lemma_cap_add(total, h_id * 16);
    }
    score = add_capped(score, weighted(id_hits, 16));
    proof {
        total = total + h_id * 16;
        lemma_cap_mul(h_title, 24);
        lemma_cap_add(total, h_title * 24);
    }
    score = add_capped(score, weighted(title_hits, 24));
    proof {
        total = total + h_title * 24;
        lemma_cap_mul(h_summary, 8);
        lemma_cap_add(total, h_summary * 8);
    }
    score = add_capped(score, weighted(summary_hits, 8));
    proof {
        total = total + h_summary * 8;
        lemma_cap_mul(h_tags, 12);
        lemma_cap_add(total, h_tags * 12);
    }
    score = add_capped(score, weighted(tag_hits, 12));
    proof {
        total = total + h_tags * 12;
        lemma_cap_mul(h_aliases, 14);
        lemma_cap_add(total, h_aliases * 14);
    }
    score = add_capped(score, weighted(alias_hits, 14));
    proof {
        total = total + h_aliases * 14;
        lemma_cap_mul(h_body, 2);
        lemma_cap_add(total, h_body * 2);
    }
    score = add_capped(score, weighted(body_hits, 2));
    proof {
        total = total + h_body * 2;
        assert(total == doc_score(*document, tv, t));
    }
    let matched_fields = MatchFieldSet {
        id: id_hits > 0,
        title: exact || title_hits > 0,
        summary: summary_hits > 0,
        tag: tag_hits > 0,
        alias: alias_hits > 0,
        body: body_hits > 0,
    };
    let snippet = make_snippet(document.body(), terms);
    let hit = SearchHit { document, score, matched_fields, snippet };
    proof {
        reveal(hit_for);
        assert forall|f: MatchField| #[trigger] hit.matched_fields.has(f) == doc_field_matched(*document, tv, t, f) by {
            match f {
                MatchField::Summary => {
                    match document.spec_metadata().summary {
                        Some(s) => {},
                        None => {},
                    }
                },
                _ => {},
            }
        }
    }
    hit
}

/// Whether two hits report the same document with the same score, matched fields and snippet.
pub open spec fn same_report<'a>(h1: SearchHit<'a>, h2: SearchHit<'a>) -> bool {
    &&& *h1.document == *h2.document
    &&& h1.score == h2.score
    &&& forall|f: MatchField| #[trigger] h1.matched_fields.has(f) == h2.matched_fields.has(f)
    &&& h1.snippet@ == h2.snippet@
}

/// The document of a listed hit is a candidate, and the hit's score is that document's.
proof fn lemma_hit_document<'a>(
    x: Seq<SearchHit<'a>>,
    docs: Seq<Document>,
    required: Seq<Seq<char>>,
    limit: int,
    terms: Seq<Seq<char>>,
    text: Seq<char>,
    i: int,
) -> (j: int)
    requires
        search_result(x, docs, required, limit, terms, text),
        0 <= i < x.len(),
    ensures
        0 <= j < docs.len(),
        is_candidate(docs[j], required, terms, text),
        *x[i].document == docs[j],
        x[i].score == cap(doc_score(docs[j], terms, text)),
        hit_for(x[i], docs[j], terms, text),
{
    assert(from_candidate(x[i], docs, docs.len() as int, required, terms, text));
    let j = choose|j: int|
        0 <= j < docs.len() && is_candidate(docs[j], required, terms, text) && #[trigger] hit_for(
            x[i],
            docs[j],
            terms,
            text,
        );
    reveal(hit_for);
    j
}

/// Ranking is asymmetric.
proof fn lemma_ranks_asymmetric(s1: int, id1: Seq<char>, s2: int, id2: Seq<char>)
    ensures
        !(ranks_before(s1, id1, s2, id2) && ranks_before(s2, id2, s1, id1)),
{
    lemma_text_lt_asymmetric(id1, id2);
}

/// Two search results that report the same documents before position `i` cannot have `x[i]`
/// rank strictly before `y[i]`.
proof fn lemma_no_earlier_hit<'a>(
    x: Seq<SearchHit<'a>>,
    y: Seq<SearchHit<'a>>,
    docs: Seq<Document>,
    required: Seq<Seq<char>>,
    limit: int,
    terms: Seq<Seq<char>>,
    text: Seq<char>,
    i: int,
)
    requires
        search_result(x, docs, required, limit, terms, text),
        search_result(y, docs, required, limit, terms, text),
        0 <= i < x.len(),
        i < y.len(),
        forall|k: int| 0 <= k < i ==> *(#[trigger] x[k]).document == *y[k].document,
    ensures
        !ranks_before(
            x[i].score as int,
            x[i].document.spec_id(),
            y[i].score as int,
            y[i].document.spec_id(),
        ),
{
    let jx = lemma_hit_document(x, docs, required, limit, terms, text, i);
    let dx = docs[jx];
    let kx = x[i].score as int;
    let idx = dx.spec_id();
    assert(listed_or_outranked(y, docs[jx], limit, terms, text));
    lemma_ranks_asymmetric(kx, idx, y[i].score as int, y[i].document.spec_id());
    lemma_text_lt_irreflexive(idx);
    if listed(y, dx) {
        let p = choose|p: int| 0 <= p < y.len() && *y[p].document == dx;
        let jp = lemma_hit_document(y, docs, required, limit, terms, text, p);
        assert(y[p].score == x[i].score);
        if p < i {
            assert(*x[p].document == *y[p].document);
            let jq = lemma_hit_document(x, docs, required, limit, terms, text, p);
            assert(x[p].score == x[i].score);
            assert(ranks_before(
                x[p].score as int,
                x[p].document.spec_id(),
                x[i].score as int,
                x[i].document.spec_id(),
            ));
        } else if p > i {
            assert(ranks_before(
                y[i].score as int,
                y[i].document.spec_id(),
                y[p].score as int,
                y[p].document.spec_id(),
            ));
        }
    } else {
        assert(ranks_before(y[i].score as int, y[i].document.spec_id(), cap(doc_score(dx, terms, text)), idx));
    }
}

/// Two search results that report the same documents before position `i` report the same
/// document at `i`.
proof fn lemma_same_document_at<'a>(
    a: Seq<SearchHit<'a>>,
    b: Seq<SearchHit<'a>>,
    docs: Seq<Document>,
    required: Seq<Seq<char>>,
    limit: int,
    terms: Seq<Seq<char>>,
    text: Seq<char>,
    i: int,
)
    requires
        docs_sorted(docs),
        search_result(a, docs, required, limit, terms, text),
        search_result(b, docs, required, limit, terms, text),
        0 <= i < a.len(),
        i < b.len(),
        forall|k: int| 0 <= k < i ==> *(#[trigger] a[k]).document == *b[k].document,
    ensures
        *a[i].document == *b[i].document,
{
    let ja = lemma_hit_document(a, docs, required, limit, terms, text, i);
    let jb = lemma_hit_document(b, docs, required, limit, terms, text, i);
    if ja != jb {
        if ja < jb {
            assert(text_lt(docs[ja].spec_id(), docs[jb].spec_id()));
        } else {
            assert(text_lt(docs[jb].spec_id(), docs[ja].spec_id()));
        }
        lemma_text_lt_asymmetric(docs[ja].spec_id(), docs[jb].spec_id());
        lemma_text_lt_irreflexive(docs[ja].spec_id());
        let sa = a[i].score as int;
        let sb = b[i].score as int;
        if ranks_before(sa, a[i].document.spec_id(), sb, b[i].document.spec_id()) {
            lemma_no_earlier_hit(a, b, docs, required, limit, terms, text, i);
        } else {
            assert forall|k: int| 0 <= k < i implies *(#[trigger] b[k]).document == *a[k].document by {
                assert(*a[k].document == *b[k].document);
            }
            lemma_no_earlier_hit(b, a, docs, required, limit, terms, text, i);
        }
    }
}

/// The documents of two search results agree on every position before `i`.
proof fn lemma_same_documents_before<'a>(
    a: Seq<SearchHit<'a>>,
    b: Seq<SearchHit<'a>>,
    docs: Seq<Document>,
    required: Seq<Seq<char>>,
    limit: int,
    terms: Seq<Seq<char>>,
    text: Seq<char>,
    i: int,
)
    requires
        docs_sorted(docs),
        search_result(a, docs, required, limit, terms, text),
        search_result(b, docs, required, limit, terms, text),
        0 <= i <= a.len(),
        i <= b.len(),
    ensures
        forall|k: int| 0 <= k < i ==> *(#[trigger] a[k]).document == *b[k].document,
    decreases i,
{
    if i > 0 {
        lemma_same_documents_before(a, b, docs, required, limit, terms, text, i - 1);
        lemma_same_document_at(a, b, docs, required, limit, terms, text, i - 1);
    }
}

/// A search result that agrees with a longer one on all its positions cannot be shorter.
proof fn lemma_no_shorter<'a>(
    x: Seq<SearchHit<'a>>,
    y: Seq<SearchHit<'a>>,
    docs: Seq<Document>,
    required: Seq<Seq<char>>,
    limit: int,
    terms: Seq<Seq<char>>,
    text: Seq<char>,
)
    requires
        search_result(x, docs, required, limit, terms, text),
        search_result(y, docs, required, limit, terms, text),
        x.len() <= y.len(),
        forall|k: int| 0 <= k < x.len() ==> *(#[trigger] x[k]).document == *y[k].document,
    ensures
        x.len() == y.len(),
{
    if x.len() == y.len() {
        return;
    }
    let n = x.len() as int;
    let jy = lemma_hit_document(y, docs, required, limit, terms, text, n);
    let d = docs[jy];
    assert(listed_or_outranked(x, docs[jy], limit, terms, text));
    if listed(x, d) {
        let p = choose|p: int| 0 <= p < x.len() && *x[p].document == d;
        assert(*y[p].document == d);
        let jp = lemma_hit_document(y, docs, required, limit, terms, text, p);
        lemma_text_lt_irreflexive(d.spec_id());
        assert(ranks_before(
            y[p].score as int,
            y[p].document.spec_id(),
            y[n].score as int,
            y[n].document.spec_id(),
        ));
    }
}

/// A search result is determined by the documents and the query: two hit lists that meet the
/// search contract for the same documents, in identifier order, and the same query have one
/// length and report the same document, score, matched fields and snippet at each position.
/// So `Bundle::search` and `search` agree, and searching twice gives the same hits.
pub proof fn lemma_search_result_unique<'a>(
    a: Seq<SearchHit<'a>>,
    b: Seq<SearchHit<'a>>,
    docs: Seq<Document>,
    required: Seq<Seq<char>>,
    limit: int,
    terms: Seq<Seq<char>>,
    text: Seq<char>,
)
    requires
        docs_sorted(docs),
        search_result(a, docs, required, limit, terms, text),
        search_result(b, docs, required, limit, terms, text),
    ensures
        a.len() == b.len(),
        forall|i: int| 0 <= i < a.len() ==> #[trigger] same_report(a[i], b[i]),
{
    let m = if a.len() <= b.len() { a.len() as int } else { b.len() as int };
    lemma_same_documents_before(a, b, docs, required, limit, terms, text, m);
    if a.len() <= b.len() {
        lemma_no_shorter(a, b, docs, required, limit, terms, text);
    } else {
        assert forall|k: int| 0 <= k < b.len() implies *(#[trigger] b[k]).document == *a[k].document by {
            assert(*a[k].document == *b[k].document);
        }
        lemma_no_shorter(b, a, docs, required, limit, terms, text);
    }
    assert forall|i: int| 0 <= i < a.len() implies #[trigger] same_report(a[i], b[i]) by {
        let ja = lemma_hit_document(a, docs, required, limit, terms, text, i);
        let jb = lemma_hit_document(b, docs, required, limit, terms, text, i);
        assert(*a[i].document == *b[i].document);
        reveal(hit_for);
        assert forall|f: MatchField| #[trigger] a[i].matched_fields.has(f) == b[i].matched_fields.has(f) by {
            assert(a[i].matched_fields.has(f) == doc_field_matched(docs[ja], terms, text, f));
            assert(b[i].matched_fields.has(f) == doc_field_matched(docs[jb], terms, text, f));
        }
    }
}

/// How many query terms the normalized summary of `d` contains; none without a summary.
pub open spec fn summary_hits(d: Document, terms: Seq<Seq<char>>) -> nat {
    match d.spec_metadata().summary {
        Some(s) => term_hits(normalize(s@), terms),
        None => 0,
    }
}

/// The summary weighs eight per term: of two documents that agree in everything but the
/// summary, where the first has none, the second scores eight per query term its normalized
/// summary contains above the first, and reports the summary as a matched field exactly when
/// it contains a term; the first never does.
pub proof fn lemma_summary_weight(d1: Document, d2: Document, terms: Seq<Seq<char>>, text: Seq<char>)
    requires
        d1.spec_id() == d2.spec_id(),
        d1.spec_title() == d2.spec_title(),
        d1.spec_body() == d2.spec_body(),
        d1.spec_metadata().tags@ == d2.spec_metadata().tags@,
        d1.spec_metadata().aliases@ == d2.spec_metadata().aliases@,
        d1.spec_metadata().summary is None,
    ensures
        doc_score(d2, terms, text) == doc_score(d1, terms, text) + 8 * summary_hits(d2, terms),
        doc_field_matched(d2, terms, text, MatchField::Summary) == (summary_hits(d2, terms) > 0),
        !doc_field_matched(d1, terms, text, MatchField::Summary),
{
}

/// The body weighs two per term: of two documents that agree in everything but the body, the
/// scores differ by two per query term the normalized bodies contain, and the body is a matched
/// field exactly when it contains a term.
pub proof fn lemma_body_weight(d1: Document, d2: Document, terms: Seq<Seq<char>>, text: Seq<char>)
    requires
        d1.spec_id() == d2.spec_id(),
        d1.spec_title() == d2.spec_title(),
        d1.spec_metadata() == d2.spec_metadata(),
    ensures
        doc_score(d2, terms, text) - doc_score(d1, terms, text) == 2 * (term_hits(normalize(d2.spec_body()), terms)
            - term_hits(normalize(d1.spec_body()), terms)),
        doc_field_matched(d2, terms, text, MatchField::Body) == (term_hits(normalize(d2.spec_body()), terms) > 0),
{
}

/// The identifier weighs sixteen per term, with the identifier a matched field exactly when its
/// normalized text contains a term.
pub proof fn lemma_id_weight(d1: Document, d2: Document, terms: Seq<Seq<char>>, text: Seq<char>)
    requires
        d1.spec_title() == d2.spec_title(),
        d1.spec_body() == d2.spec_body(),
        d1.spec_metadata() == d2.spec_metadata(),
    ensures
        doc_score(d2, terms, text) - doc_score(d1, terms, text) == 16 * (term_hits(normalize(d2.spec_id()), terms)
            - term_hits(normalize(d1.spec_id()), terms)),
        doc_field_matched(d2, terms, text, MatchField::Id) == (term_hits(normalize(d2.spec_id()), terms) > 0),
{
}

/// Tags weigh twelve and aliases fourteen per term each contains, and each is a matched field
/// exactly when one of them contains a term.
pub proof fn lemma_tag_alias_weights(d1: Document, d2: Document, terms: Seq<Seq<char>>, text: Seq<char>)
    requires
        d1.spec_id() == d2.spec_id(),
        d1.spec_title() == d2.spec_title(),
        d1.spec_body() == d2.spec_body(),
        d1.spec_metadata().summary == d2.spec_metadata().summary,
    ensures
        doc_score(d2, terms, text) - doc_score(d1, terms, text) == 12 * (fields_hits(d2.spec_metadata().tags@, terms)
            - fields_hits(d1.spec_metadata().tags@, terms)) + 14 * (fields_hits(d2.spec_metadata().aliases@, terms)
            - fields_hits(d1.spec_metadata().aliases@, terms)),
        doc_field_matched(d2, terms, text, MatchField::Tag) == (fields_hits(d2.spec_metadata().tags@, terms) > 0),
        doc_field_matched(d2, terms, text, MatchField::Alias) == (fields_hits(d2.spec_metadata().aliases@, terms)
            > 0),
{
}

/// The title weighs twenty-four per term, plus one hundred when the normalized title equals the
/// non-empty normalized query text; it is a matched field exactly when either holds.
pub proof fn lemma_title_weight(d1: Document, d2: Document, terms: Seq<Seq<char>>, text: Seq<char>)
    requires
        d1.spec_id() == d2.spec_id(),
        d1.spec_body() == d2.spec_body(),
        d1.spec_metadata() == d2.spec_metadata(),
    ensures
        doc_score(d2, terms, text) - doc_score(d1, terms, text) == 24 * (term_hits(normalize(d2.spec_title()), terms)
            - term_hits(normalize(d1.spec_title()), terms)) + (if text.len() > 0 && normalize(d2.spec_title())
            == text {
            100int
        } else {
            0int
        }) - (if text.len() > 0 && normalize(d1.spec_title()) == text {
            100int
        } else {
            0int
        }),
        doc_field_matched(d2, terms, text, MatchField::Title) == ((text.len() > 0 && normalize(d2.spec_title())
            == text) || term_hits(normalize(d2.spec_title()), terms) > 0),
{
}

/// Every score is at least eight per query term the normalized summary contains.
pub proof fn lemma_summary_counts(d: Document, terms: Seq<Seq<char>>, text: Seq<char>)
    ensures
        doc_score(d, terms, text) >= 8 * summary_hits(d, terms),
        doc_field_matched(d, terms, text, MatchField::Summary) == (summary_hits(d, terms) > 0),
{
}

/// A document with the required tags whose normalized summary contains a query term is a
/// search candidate.
pub proof fn lemma_summary_match_is_candidate(
    d: Document,
    required: Seq<Seq<char>>,
    terms: Seq<Seq<char>>,
    text: Seq<char>,
)
    requires
        has_required_tags(d, required),
        summary_hits(d, terms) > 0,
    ensures
        is_candidate(d, required, terms, text),
{
    lemma_summary_counts(d, terms, text);
    reveal(is_candidate);
}

/// A candidate document is listed by every search result that holds fewer hits than the limit.
pub proof fn lemma_candidate_listed_below_limit<'a>(
    hits: Seq<SearchHit<'a>>,
    docs: Seq<Document>,
    required: Seq<Seq<char>>,
    limit: int,
    terms: Seq<Seq<char>>,
    text: Seq<char>,
    i: int,
)
    requires
        search_result(hits, docs, required, limit, terms, text),
        0 <= i < docs.len(),
        is_candidate(docs[i], required, terms, text),
        hits.len() < limit,
    ensures
        listed(hits, docs[i]),
{
    assert(listed_or_outranked(hits, docs[i], limit, terms, text));
}

/// Each hit of a search carries its document's score (capped at the largest `u32`) and exactly
/// the fields of that document that contributed to it.
pub proof fn lemma_hit_reports_document<'a>(
    hits: Seq<SearchHit<'a>>,
    docs: Seq<Document>,
    required: Seq<Seq<char>>,
    limit: int,
    terms: Seq<Seq<char>>,
    text: Seq<char>,
    a: int,
)
    requires
        search_result(hits, docs, required, limit, terms, text),
        0 <= a < hits.len(),
    ensures
        hits[a].score == cap(doc_score(*hits[a].document, terms, text)),
        forall|f: MatchField| #[trigger] hits[a].matched_fields.has(f) == doc_field_matched(
            *hits[a].document,
            terms,
            text,
            f,
        ),
        has_required_tags(*hits[a].document, required),
        terms.len() > 0 ==> doc_score(*hits[a].document, terms, text) > 0,
{
    let j = lemma_hit_document(hits, docs, required, limit, terms, text, a);
    reveal(hit_for);
    reveal(is_candidate);
}

/// Each hit of a search reports the summary as matched exactly when the normalized summary of
/// its document contains a query term, and scores at least eight per such term (capped at the
/// largest `u32`).
pub proof fn lemma_summary_in_hits<'a>(
    hits: Seq<SearchHit<'a>>,
    docs: Seq<Document>,
    required: Seq<Seq<char>>,
    limit: int,
    terms: Seq<Seq<char>>,
    text: Seq<char>,
    a: int,
)
    requires
        search_result(hits, docs, required, limit, terms, text),
        0 <= a < hits.len(),
    ensures
        hits[a].matched_fields.has(MatchField::Summary) == (summary_hits(*hits[a].document, terms) > 0),
        hits[a].score >= cap((8 * summary_hits(*hits[a].document, terms)) as int),
{
    let j = lemma_hit_document(hits, docs, required, limit, terms, text, a);
    reveal(hit_for);
    assert(hits[a].matched_fields.has(MatchField::Summary) == doc_field_matched(
        docs[j],
        terms,
        text,
        MatchField::Summary,
    ));
    lemma_summary_counts(docs[j], terms, text);
}

/// Searches a bundle with deterministic ranking and tie-breaking.
pub fn search<'a>(bundle: &'a Bundle, query: &SearchQuery) -> (r: Vec<SearchHit<'a>>)
    ensures
        search_result(
            r@,
            bundle.docs(),
            query.spec_tags(),
            query.spec_limit() as int,
            query_terms(normalize(query.spec_text())),
            normalize(query.spec_text()),
        ),
{
    let ghost docs = bundle.docs();
    let ghost text = normalize(query.spec_text());
    let ghost terms = query_terms(text);
    let ghost required = query.spec_tags();
    let limit = query.max_results();
    if limit == 0 {
        return Vec::new();
    }
    let normalized = normalize_text(query.text());
    let text_chars = chars_of(normalized.as_str());
    let term_strings = tokenize(normalized.as_str());
    let terms_chars = char_lists(&term_strings);
    let documents = bundle.documents();
    let mut ranked: Vec<SearchHit<'a>> = Vec::new();
    let mut i: usize = 0;
    while i < documents.len()
        invariant
            documents@ == docs,
            docs == bundle.docs(),
            docs_sorted(docs),
            text_chars@ == text,
            char_views(terms_chars@) == terms,
            views(term_strings@) == terms,
            required == query.spec_tags(),
            i <= docs.len(),
            hits_ranked(ranked@),
            hits_from(ranked@, docs, i as int, required, terms, text),
            hits_cover(ranked@, docs, i as int, required, terms, text),
        decreases docs.len() - i,
    {
        let document = &documents[i];
        let tagged = matches_required_tags(document, query.tags());
        if tagged {
            let hit = score_document(document, &terms_chars, &text_chars);
            if term_strings.len() == 0 || hit.score > 0 {
                let ghost old_ranked = ranked@;
                proof {
                    reveal(is_candidate);
                    reveal(hit_for);
                    assert(views(term_strings@).len() == term_strings@.len());
                    assert(is_candidate(docs[i as int], required, terms, text));
                    assert forall|q: int| 0 <= q < old_ranked.len() implies (#[trigger] old_ranked[q]).document.spec_id()
                        != hit.document.spec_id() by {
                        assert(from_candidate(old_ranked[q], docs, i as int, required, terms, text));
                        let j = choose|j: int|
                            0 <= j < i && is_candidate(docs[j], required, terms, text) && #[trigger] hit_for(
                                old_ranked[q],
                                docs[j],
                                terms,
                                text,
                            );
                        assert(text_lt(docs[j].spec_id(), docs[i as int].spec_id()));
                        lemma_text_lt_irreflexive(docs[j].spec_id());
                    }
                }
                insert_ranked(&mut ranked, hit);
                proof {
                    let p = choose|p: int| 0 <= p <= old_ranked.len() && ranked@ == old_ranked.insert(p, hit);
                    lemma_hits_insert(old_ranked, ranked@, p, hit, docs, i as int, required, terms, text);
                }
            } else {
                proof {
                    reveal(is_candidate);
                    reveal(hit_for);
                    assert(views(term_strings@).len() == term_strings@.len());
                    assert(!is_candidate(docs[i as int], required, terms, text));
                    lemma_hits_from_grow(ranked@, docs, i as int, required, terms, text);
                    assert forall|j: int|
                        0 <= j < i + 1 && is_candidate(docs[j], required, terms, text) implies #[trigger] listed(
                            ranked@,
                            docs[j],
                        ) by {
                    }
                }
            }
        } else {
            proof {
                reveal(is_candidate);
                assert(!is_candidate(docs[i as int], required, terms, text));
                lemma_hits_from_grow(ranked@, docs, i as int, required, terms, text);
                assert forall|j: int|
                    0 <= j < i + 1 && is_candidate(docs[j], required, terms, text) implies #[trigger] listed(
                        ranked@,
                        docs[j],
                    ) by {
                }
            }
        }
        i = i + 1;
    }
    let ghost full = ranked@;
    ranked.truncate(limit);
    proof {
        lemma_hits_truncate(full, ranked@, limit as int, docs, required, terms, text);
    }
    ranked
}

/// Whether hit `a` is listed before hit `b`.
fn rank_first(a: &SearchHit, b: &SearchHit) -> (r: bool)
    ensures
        r == ranks_before(a.score as int, a.document.spec_id(), b.score as int, b.document.spec_id()),
{
    if a.score != b.score {
        return a.score > b.score;
    }
    match compare_text(a.document.id().as_str(), b.document.id().as_str()) {
        Order::Less => true,
        _ => false,
    }
}

impl Bundle {
    /// Runs deterministic in-memory retrieval over this bundle.
    pub fn search<'a>(&'a self, query: &SearchQuery) -> (r: Vec<SearchHit<'a>>)
        ensures
            search_result(
                r@,
                self.docs(),
                query.spec_tags(),
                query.spec_limit() as int,
                query_terms(normalize(query.spec_text())),
                normalize(query.spec_text()),
            ),
    {
        search(self, query)
    }
}

} // verus!
