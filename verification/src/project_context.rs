//! Project Context Library application profile helpers.
//!
//! These types sit above the generic Library runtime. They model repository-bound freshness
//! and incremental impact analysis without adding project-specific behavior to
//! [`crate::library::LibraryProvider`].

use vstd::prelude::*;

use crate::model::TextSet;
use crate::parser::{backslashes_to_slashes, replace_backslashes};
use crate::text::{
    chars_of, chars_start_with, has_prefix, owned, slice_range, strictly_sorted, strip,
    strip_chars, text_eq, trim, trim_chars, views, CharClass,
};

verus! {

/// Freshness state of a Project Context Library.
#[derive(Clone, Copy, Debug, PartialEq, Eq, Structural)]
pub enum ProjectContextState {
    /// No validated project-context checkpoint exists yet.
    Uninitialized,
    /// The validated repository revision matches the authoritative current revision.
    Valid,
    /// The repository moved beyond the validated revision and requires incremental revalidation.
    Dirty,
    /// The current authoritative revision cannot be established safely.
    Unknown,
}

/// Maps a project knowledge topic to repository path prefixes that can invalidate it.
#[derive(Clone, Debug, PartialEq, Eq)]
pub struct ProjectContextImpactRule {
    /// Stable topic identifier or canonical knowledge URI.
    pub topic: String,
    /// Repository-relative path prefixes that affect the topic.
    pub path_prefixes: Vec<String>,
}

impl ProjectContextImpactRule {
    /// Creates an impact rule.
    pub fn new(topic: &str, path_prefixes: Vec<String>) -> (r: ProjectContextImpactRule)
        ensures
            r.topic@ == topic@,
            r.path_prefixes == path_prefixes,
    {
        ProjectContextImpactRule { topic: owned(topic), path_prefixes }
    }
}

/// Evaluated repository-bound state used by session recovery and incremental maintenance.
#[derive(Clone, Debug, PartialEq, Eq)]
pub struct ProjectContextStatus {
    /// Project identity chosen by the profile owner.
    pub project: String,
    /// Last repository revision for which the context was fully validated.
    pub validated_revision: Option<String>,
    /// Authoritative current repository revision when it can be established.
    pub current_revision: Option<String>,
    /// Derived freshness state.
    pub state: ProjectContextState,
    /// Repository-relative changed paths since the validated revision.
    pub changed_paths: Vec<String>,
    /// Knowledge topics invalidated or requiring revalidation.
    pub impacted_topics: Vec<String>,
}

/// Freshness of a context validated at `validated` when the repository is at `current`.
pub open spec fn freshness(validated: Option<Seq<char>>, current: Option<Seq<char>>) -> ProjectContextState {
    match (validated, current) {
        (None, _) => ProjectContextState::Uninitialized,
        (Some(_), None) => ProjectContextState::Unknown,
        (Some(v), Some(c)) => if v == c {
            ProjectContextState::Valid
        } else {
            ProjectContextState::Dirty
        },
    }
}

/// `s` without any number of leading `./`.
pub open spec fn strip_dot_slash(s: Seq<char>) -> Seq<char>
    decreases s.len(),
{
    if s.len() >= 2 && s[0] == '.' && s[1] == '/' {
        strip_dot_slash(s.skip(2))
    } else {
        s
    }
}

/// A repository path in comparable form: trimmed, without surrounding `/`, with `\` read as
/// `/`, and without leading `./`.
pub open spec fn repo_path(value: Seq<char>) -> Seq<char> {
    strip_dot_slash(backslashes_to_slashes(strip(trim(value), CharClass::Exactly('/'))))
}

/// Whether `path` lies under `prefix` on a segment boundary; an empty prefix matches every path.
pub open spec fn path_under(path: Seq<char>, prefix: Seq<char>) -> bool {
    let p = repo_path(path);
    let q = repo_path(prefix);
    q.len() == 0 || p == q || (has_prefix(p, q) && p.len() > q.len() && p[q.len() as int] == '/')
}

/// Whether an impact rule applies: it has no prefixes, or a changed path lies under one.
pub open spec fn rule_applies(prefixes: Seq<Seq<char>>, changed: Seq<Seq<char>>) -> bool {
    prefixes.len() == 0 || exists|i: int, j: int|
        0 <= i < changed.len() && 0 <= j < prefixes.len() && #[trigger] path_under(changed[i], prefixes[j])
}

/// The topics of the applying rules among `rules`.
pub open spec fn impacted_set(changed: Seq<Seq<char>>, rules: Seq<ProjectContextImpactRule>) -> Set<Seq<char>> {
    Set::new(
        |t: Seq<char>|
            exists|k: int|
                0 <= k < rules.len() && rules[k].topic@ == t && #[trigger] rule_applies(
                    views(rules[k].path_prefixes@),
                    changed,
                ),
    )
}

/// A rule's topic is impacted whenever some changed path lies under any one of the rule's
/// prefixes, and a rule without prefixes always applies; conversely an impacted topic belongs
/// to some rule that has no prefixes or has a changed path under one of them.
pub proof fn lemma_impacted_topics(
    changed: Seq<Seq<char>>,
    rules: Seq<ProjectContextImpactRule>,
    k: int,
    i: int,
    j: int,
    t: Seq<char>,
)
    requires
        0 <= k < rules.len(),
    ensures
        views(rules[k].path_prefixes@).len() == 0 ==> impacted_set(changed, rules).contains(rules[k].topic@),
        0 <= i < changed.len() && 0 <= j < rules[k].path_prefixes@.len() && path_under(
            changed[i],
            rules[k].path_prefixes@[j]@,
        ) ==> impacted_set(changed, rules).contains(rules[k].topic@),
        impacted_set(changed, rules).contains(t) ==> exists|r: int|
            0 <= r < rules.len() && rules[r].topic@ == t && (rules[r].path_prefixes@.len() == 0 || exists|a: int, b: int|
                0 <= a < changed.len() && 0 <= b < rules[r].path_prefixes@.len() && #[trigger] path_under(
                    changed[a],
                    rules[r].path_prefixes@[b]@,
                )),
{
    let pv = views(rules[k].path_prefixes@);
    if 0 <= i < changed.len() && 0 <= j < rules[k].path_prefixes@.len() && path_under(
        changed[i],
        rules[k].path_prefixes@[j]@,
    ) {
        assert(pv[j] == rules[k].path_prefixes@[j]@);
        assert(path_under(changed[i], pv[j]));
        assert(rule_applies(pv, changed));
    }
    if pv.len() == 0 {
        assert(rule_applies(pv, changed));
    }
    if impacted_set(changed, rules).contains(t) {
        let r = choose|r: int|
            0 <= r < rules.len() && rules[r].topic@ == t && #[trigger] rule_applies(
                views(rules[r].path_prefixes@),
                changed,
            );
        let qv = views(rules[r].path_prefixes@);
        if qv.len() > 0 {
            let (a, b) = choose|a: int, b: int|
                0 <= a < changed.len() && 0 <= b < qv.len() && #[trigger] path_under(changed[a], qv[b]);
            assert(qv[b] == rules[r].path_prefixes@[b]@);
            assert(path_under(changed[a], rules[r].path_prefixes@[b]@));
        }
    }
}

fn strip_leading_dot_slash(s: &[char]) -> (r: Vec<char>)
    ensures
        r@ == strip_dot_slash(s@),
{
    let mut k: usize = 0;
    assert(s@.skip(0) =~= s@);
    while s.len() - k >= 2 && s[k] == '.' && s[k + 1] == '/'
        invariant
            k <= s@.len(),
            strip_dot_slash(s@) == strip_dot_slash(s@.skip(k as int)),
        decreases s@.len() - k,
    {
        assert(s@.skip(k as int).skip(2) =~= s@.skip(k + 2));
        k = k + 2;
    }
    let r = slice_range(s, k, s.len());
    proof {
        let t = s@.skip(k as int);
        if t.len() >= 2 {
            assert(t[0] == s@[k as int] && t[1] == s@[k + 1]);
        }
    }
    assert(r@ =~= s@.skip(k as int));
    r
}

/// Characters of the comparable form of a repository path.
fn repo_path_chars(value: &str) -> (r: Vec<char>)
    ensures
        r@ == repo_path(value@),
{
    let chars = chars_of(value);
    let trimmed = trim_chars(&chars);
    let stripped = strip_chars(&trimmed, CharClass::Exactly('/'));
    let slashed = replace_backslashes(&stripped);
    strip_leading_dot_slash(&slashed)
}

/// Whether `path` lies under `prefix` on a segment boundary.
pub fn path_matches_prefix(path: &str, prefix: &str) -> (r: bool)
    ensures
        r == path_under(path@, prefix@),
{
    let p = repo_path_chars(path);
    let q = repo_path_chars(prefix);
    if q.len() == 0 {
        return true;
    }
    if crate::text::chars_eq(&p, &q) {
        return true;
    }
    chars_start_with(&p, &q) && p.len() > q.len() && p[q.len()] == '/'
}

/// Whether a rule with `prefixes` applies to `changed`.
fn applies(changed: &[String], prefixes: &Vec<String>) -> (r: bool)
    ensures
        r == rule_applies(views(prefixes@), views(changed@)),
{
    if prefixes.len() == 0 {
        return true;
    }
    let mut i: usize = 0;
    while i < changed.len()
        invariant
            i <= changed@.len(),
            prefixes@.len() > 0,
            forall|a: int, b: int|
                0 <= a < i && 0 <= b < prefixes@.len() ==> !#[trigger] path_under(
                    views(changed@)[a],
                    views(prefixes@)[b],
                ),
        decreases changed@.len() - i,
    {
        let mut j: usize = 0;
        while j < prefixes.len()
            invariant
                i < changed@.len(),
                j <= prefixes@.len(),
                forall|a: int, b: int|
                    0 <= a < i && 0 <= b < prefixes@.len() ==> !#[trigger] path_under(
                        views(changed@)[a],
                        views(prefixes@)[b],
                    ),
                forall|b: int| 0 <= b < j ==> !#[trigger] path_under(views(changed@)[i as int], views(prefixes@)[b]),
            decreases prefixes@.len() - j,
        {
            if path_matches_prefix(changed[i].as_str(), prefixes[j].as_str()) {
                proof {
                    assert(path_under(views(changed@)[i as int], views(prefixes@)[j as int]));
                }
                return true;
            }
            j = j + 1;
        }
        i = i + 1;
    }
    false
}

/// Computes deterministic topic invalidation from changed repository paths: the topics of the
/// rules that apply, each once, in ascending order.
pub fn impacted_topics(changed_paths: &[String], rules: &[ProjectContextImpactRule]) -> (r: Vec<String>)
    ensures
        strictly_sorted(views(r@)),
        views(r@).to_set() == impacted_set(views(changed_paths@), rules@),
{
    let mut topics = TextSet::new();
    let mut k: usize = 0;
    proof {
        assert(Seq::<Seq<char>>::empty().to_set() =~= Set::<Seq<char>>::empty());
    }
    while k < rules.len()
        invariant
            k <= rules@.len(),
            topics@.to_set() == impacted_set(views(changed_paths@), rules@.take(k as int)),
        decreases rules@.len() - k,
    {
        let ghost before = topics@.to_set();
        let rule = &rules[k];
        if applies(changed_paths, &rule.path_prefixes) {
            topics.insert(rule.topic.clone());
        }
        proof {
            let ch = views(changed_paths@);
            assert(rules@.take(k + 1)[k as int] == rules@[k as int]);
            assert forall|t: Seq<char>|
                #[trigger] topics@.to_set().contains(t) <==> impacted_set(ch, rules@.take(k + 1)).contains(t) by {
                if impacted_set(ch, rules@.take(k + 1)).contains(t) {
                    let w = choose|w: int|
                        0 <= w < rules@.take(k + 1).len() && rules@.take(k + 1)[w].topic@ == t
                            && #[trigger] rule_applies(views(rules@.take(k + 1)[w].path_prefixes@), ch);
                    if w < k {
                        assert(rules@.take(k as int)[w] == rules@.take(k + 1)[w]);
                        assert(impacted_set(ch, rules@.take(k as int)).contains(t));
                    }
                }
                if before.contains(t) {
                    let w = choose|w: int|
                        0 <= w < rules@.take(k as int).len() && rules@.take(k as int)[w].topic@ == t
                            && #[trigger] rule_applies(views(rules@.take(k as int)[w].path_prefixes@), ch);
                    assert(rules@.take(k as int)[w] == rules@.take(k + 1)[w]);
                }
            }
            assert(topics@.to_set() =~= impacted_set(ch, rules@.take(k + 1)));
        }
        k = k + 1;
    }
    assert(rules@.take(rules@.len() as int) =~= rules@);
    topics.to_vec()
}

impl ProjectContextStatus {
    /// Evaluates profile freshness and affected knowledge topics.
    pub fn evaluate(
        project: &str,
        validated_revision: Option<String>,
        current_revision: Option<String>,
        changed_paths: Vec<String>,
        rules: &[ProjectContextImpactRule],
    ) -> (r: ProjectContextStatus)
        ensures
            r.project@ == project@,
            r.validated_revision == validated_revision,
            r.current_revision == current_revision,
            r.state == freshness(
                match validated_revision {
                    Some(v) => Some(v@),
                    None => None,
                },
                match current_revision {
                    Some(c) => Some(c@),
                    None => None,
                },
            ),
            r.changed_paths == changed_paths,
            strictly_sorted(views(r.impacted_topics@)),
            views(r.impacted_topics@).to_set() == impacted_set(views(changed_paths@), rules@),
    {
        let state = match (&validated_revision, &current_revision) {
            (None, _) => ProjectContextState::Uninitialized,
            (Some(_), None) => ProjectContextState::Unknown,
            (Some(validated), Some(current)) => {
                if text_eq(validated.as_str(), current.as_str()) {
                    ProjectContextState::Valid
                } else {
                    ProjectContextState::Dirty
                }
            },
        };
        let impacted_topics = impacted_topics(changed_paths.as_slice(), rules);
        ProjectContextStatus {
            project: owned(project),
            validated_revision,
            current_revision,
            state,
            changed_paths,
            impacted_topics,
        }
    }
}

} // verus!
