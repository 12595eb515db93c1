//! Parser options and the per-file steps of loading a bundle directory.
//!
//! Walking the directory and reading files is done by the caller; the parser decides which
//! entries are visited, which files are documents, and adds each document to the bundle.

use vstd::prelude::*;

use crate::error::Error;
use crate::model::bundle::has_id;
use crate::model::{Bundle, TextSet};
use crate::text::{ascii_lower, chars_of, owned, string_from, to_ascii_lowercase};
use super::{parse_document, parse_outcome, path_components, components_of, dot_dot_text};

verus! {

/// Options controlling directory traversal and recognized document files.
#[derive(Debug)]
pub struct ParserOptions {
    /// Lowercase filename extensions recognized as documents.
    pub extensions: TextSet,
    /// Whether dot-prefixed files and directories are included.
    pub include_hidden: bool,
    /// Whether directory symlinks are followed.
    pub follow_links: bool,
}

impl Default for ParserOptions {
    fn default() -> (r: ParserOptions)
        ensures
            r.extensions@.to_set() == set!["md"@, "markdown"@],
            !r.include_hidden,
            !r.follow_links,
    {
        let mut extensions = TextSet::new();
        extensions.insert(owned("md"));
        extensions.insert(owned("markdown"));
        proof {
            assert(Seq::<Seq<char>>::empty().to_set() =~= Set::<Seq<char>>::empty());
            assert(set!["md"@, "markdown"@] =~= Set::<Seq<char>>::empty().insert("md"@).insert(
                "markdown"@,
            ));
        }
        ParserOptions { extensions, include_hidden: false, follow_links: false }
    }
}

impl Clone for ParserOptions {
    fn clone(&self) -> (r: ParserOptions)
        ensures
            r.extensions@ == self.extensions@,
            r.include_hidden == self.include_hidden,
            r.follow_links == self.follow_links,
    {
        ParserOptions {
            extensions: self.extensions.clone(),
            include_hidden: self.include_hidden,
            follow_links: self.follow_links,
        }
    }
}

/// File name of a `/`-separated path: its last normal component, none for `..` or a path
/// without components.
pub open spec fn file_name(path: Seq<char>) -> Option<Seq<char>> {
    let comps = path_components(path);
    if comps.len() == 0 || comps.last() == dot_dot_text() {
        None
    } else {
        Some(comps.last())
    }
}

/// Extension of a file name: the text after its last dot, where a name whose only dot is its
/// first character has none.
pub open spec fn file_extension(name: Seq<char>) -> Option<Seq<char>> {
    if exists|i: int| 0 < i < name.len() && name[i] == '.' {
        let i = choose|i: int|
            0 < i < name.len() && name[i] == '.' && forall|j: int| i < j < name.len() ==> name[j] != '.';
        Some(name.skip(i + 1))
    } else {
        None
    }
}

/// Whether a path names a document under the recognized `extensions` (compared after ASCII
/// lowercasing).
pub open spec fn is_document(extensions: Seq<Seq<char>>, path: Seq<char>) -> bool {
    match file_name(path) {
        Some(name) => match file_extension(name) {
            Some(e) => extensions.contains(e.map_values(|c: char| ascii_lower(c))),
            None => false,
        },
        None => false,
    }
}

fn extension_of(name: &[char]) -> (r: Option<Vec<char>>)
    ensures
        match r {
            Some(e) => file_extension(name@) == Some(e@),
            None => file_extension(name@) is None,
        },
{
    let mut k: usize = name.len();
    while k > 1 && name[k - 1] != '.'
        invariant
            k <= name@.len(),
            forall|j: int| k <= j < name@.len() ==> name@[j] != '.',
        decreases k,
    {
        k = k - 1;
    }
    if k > 1 {
        let i = k - 1;
        proof {
            assert(0 < i < name@.len() && name@[i as int] == '.');
            let c = choose|c: int|
                0 < c < name@.len() && name@[c] == '.' && forall|j: int| c < j < name@.len() ==> name@[j] != '.';
            assert(c == i as int);
        }
        let mut out: Vec<char> = Vec::new();
        let mut p: usize = k;
        while p < name.len()
            invariant
                k <= p <= name@.len(),
                out@ == name@.subrange(k as int, p as int),
            decreases name@.len() - p,
        {
            out.push(name[p]);
            assert(name@.subrange(k as int, p + 1) =~= name@.subrange(k as int, p as int).push(
                name@[p as int],
            ));
            p = p + 1;
        }
        assert(out@ =~= name@.skip(i + 1));
        Some(out)
    } else {
        proof {
            assert(!exists|i: int| 0 < i < name@.len() && name@[i] == '.');
        }
        None
    }
}

/// Loads Markdown documents into an in-memory [`Bundle`].
#[derive(Debug)]
pub struct BundleParser {
    options: ParserOptions,
}

impl BundleParser {
    /// The parser's options.
    pub closed spec fn spec_options(&self) -> ParserOptions {
        self.options
    }

    /// Creates a parser using explicit options.
    pub fn new(options: ParserOptions) -> (r: BundleParser)
        ensures
            r.spec_options() == options,
    {
        BundleParser { options }
    }

    /// Returns the active parser options.
    pub fn options(&self) -> (r: &ParserOptions)
        ensures
            *r == self.spec_options(),
    {
        &self.options
    }

    /// Whether the walk enters a directory entry named `name`: hidden (dot-prefixed) entries
    /// are skipped unless the options include them, and the root itself is always visited.
    pub fn should_visit(&self, name: &str, is_root: bool) -> (r: bool)
        ensures
            r == (self.spec_options().include_hidden || is_root || !(name@.len() > 0 && name@[0]
                == '.')),
    {
        if self.options.include_hidden || is_root {
            return true;
        }
        let chars = chars_of(name);
        !(chars.len() > 0 && chars[0] == '.')
    }

    /// Whether `path` names a document: its extension, ASCII-lowercased, is one of the
    /// recognized extensions.
    pub fn is_document_path(&self, path: &str) -> (r: bool)
        ensures
            r == is_document(self.spec_options().extensions@, path@),
    {
        let chars = chars_of(path);
        let comps = components_of(&chars);
        if comps.len() == 0 {
            return false;
        }
        let last = &comps[comps.len() - 1];
        let dd = last.len() == 2 && last[0] == '.' && last[1] == '.';
        proof {
            assert(last@ == path_components(path@).last());
            if dd {
                assert(last@ =~= dot_dot_text());
            } else if last@.len() == 2 {
                assert(last@ != dot_dot_text());
            }
        }
        if dd {
            return false;
        }
        match extension_of(last) {
            None => false,
            Some(e) => {
                let lower = to_ascii_lowercase(string_from(&e).as_str());
                self.options.extensions.contains(lower.as_str())
            },
        }
    }

    /// Parses one file of a bundle directory, read from `relative_path` under the bundle root,
    /// and adds the document to `bundle`: a parse error is returned as it is, a document whose
    /// identifier the bundle already holds is refused, and otherwise the document is inserted.
    /// On any error the bundle is unchanged.
    pub fn add_source(&self, bundle: &mut Bundle, source: &str, relative_path: &str) -> (r: Result<
        (),
        Error,
    >)
        ensures
            final(bundle).spec_root() == old(bundle).spec_root(),
            r is Err ==> final(bundle).docs() == old(bundle).docs(),
            r is Ok ==> exists|k: int, d: crate::model::Document|
                0 <= k <= old(bundle).docs().len() && final(bundle).docs() == old(bundle).docs().insert(
                    k,
                    d,
                ) && d.spec_source_path() == Some(relative_path@) && !has_id(
                    old(bundle).docs(),
                    d.spec_id(),
                ),
            exists|p: Result<crate::model::Document, Error>|
                #[trigger] parse_outcome(source@, relative_path@, p) && match p {
                    Err(e) => r == Err::<(), Error>(e),
                    Ok(d) => if has_id(old(bundle).docs(), d.spec_id()) {
                        r matches Err(Error::DuplicateDocument { id, .. }) && id@ == d.spec_id()
                    } else {
                        r is Ok && exists|k: int|
                            0 <= k <= old(bundle).docs().len() && final(bundle).docs() == old(
                                bundle,
                            ).docs().insert(k, d)
                    },
                },
    {
        let parsed = parse_document(source, relative_path);
        let ghost p = parsed;
        let document = match parsed {
            Ok(d) => d,
            Err(e) => {
                return Err(e);
            },
        };
        let ghost d = document;
        let r = bundle.insert(document);
        proof {
            if r is Ok {
                assert(!has_id(old(bundle).docs(), d.spec_id()));
            }
            assert(parse_outcome(source@, relative_path@, p));
        }
        r
    }
}

impl Default for BundleParser {
    fn default() -> (r: BundleParser)
        ensures
            r.spec_options().extensions@.to_set() == set!["md"@, "markdown"@],
            !r.spec_options().include_hidden,
            !r.spec_options().follow_links,
    {
        BundleParser { options: ParserOptions::default() }
    }
}

} // verus!
