//! S3-compatible content provider: how logical paths map to object keys, and which children a
//! bucket listing shows. Talking to the object store is the host application's part.

use vstd::prelude::*;

use s3::bucket::Bucket;

use crate::library::{uri_text, KnowledgeNode, KnowledgeUri, LibraryError, LibraryId, LibraryResult};
use crate::listing::{child_names, child_nodes, child_views, has_child, has_dir, mark_child, nodes_from_children};
use crate::text::{
    chars_have, chars_of, chars_start_with, concat2, concat3, has_prefix, owned, slice_range,
    strictly_sorted, string_from, strip, strip_chars, strip_end, strip_end_chars, views, CharClass,
};

verus! {

/// An S3 bucket handle of the `rust-s3` crate.
#[verifier::external_type_specification]
#[verifier::external_body]
pub struct ExS3Bucket(s3::bucket::Bucket);

/// The storage prefix for a configured prefix: without surrounding `/`, then followed by one
/// `/` unless empty.
pub open spec fn s3_prefix(p: Seq<char>) -> Seq<char> {
    let t = strip(p, CharClass::Exactly('/'));
    if t.len() == 0 {
        Seq::empty()
    } else {
        t + seq!['/']
    }
}

/// The object key of a logical path below a storage prefix.
pub open spec fn s3_key(prefix: Seq<char>, path: Seq<char>) -> Seq<char> {
    let p = strip(path, CharClass::Exactly('/'));
    if prefix.len() == 0 {
        p
    } else if p.len() == 0 {
        strip_end(prefix, CharClass::Exactly('/'))
    } else {
        prefix + p
    }
}

/// The key prefix that lists the children of a logical path.
pub open spec fn s3_list_prefix(prefix: Seq<char>, path: Seq<char>) -> Seq<char> {
    let k = s3_key(prefix, path);
    if k.len() == 0 || k.last() == '/' {
        k
    } else {
        k + seq!['/']
    }
}

/// A storage key relative to the storage prefix (unchanged when it lies outside it).
pub open spec fn storage_relative(key: Seq<char>, prefix: Seq<char>) -> Seq<char> {
    if has_prefix(key, prefix) {
        key.skip(prefix.len() as int)
    } else {
        key
    }
}

/// The logical path of a listed common prefix.
pub open spec fn s3_dir_name(common: Seq<char>, prefix: Seq<char>) -> Seq<char> {
    strip_end(storage_relative(common, prefix), CharClass::Exactly('/'))
}

/// Whether a listed common prefix is a child directory of logical path `base`.
pub open spec fn s3_dir_listed(common: Seq<char>, prefix: Seq<char>, base: Seq<char>) -> bool {
    let l = s3_dir_name(common, prefix);
    l.len() > 0 && l != base
}

/// Whether a listed object is a direct child of logical path `base`.
pub open spec fn s3_object_listed(key: Seq<char>, prefix: Seq<char>, base: Seq<char>) -> bool {
    let l = storage_relative(key, prefix);
    &&& l.len() > 0
    &&& l.last() != '/'
    &&& l != base
    &&& base.len() == 0 ==> !l.contains('/')
    &&& base.len() > 0 ==> has_prefix(l, base + seq!['/']) && !l.skip(base.len() + 1int).contains('/')
}

/// Whether `k` is the child directory named by one of the first `n` common prefixes.
pub open spec fn dir_among(
    commons: Seq<Seq<char>>,
    n: int,
    prefix: Seq<char>,
    base: Seq<char>,
    k: Seq<char>,
) -> bool {
    exists|i: int|
        0 <= i < n && s3_dir_listed(#[trigger] commons[i], prefix, base) && s3_dir_name(
            commons[i],
            prefix,
        ) == k
}

/// Whether `k` is the child content named by one of the first `n` object keys.
pub open spec fn object_among(
    keys: Seq<Seq<char>>,
    n: int,
    prefix: Seq<char>,
    base: Seq<char>,
    k: Seq<char>,
) -> bool {
    exists|i: int|
        0 <= i < n && s3_object_listed(#[trigger] keys[i], prefix, base) && storage_relative(
            keys[i],
            prefix,
        ) == k
}

/// `c` holds exactly the children shown by a listing, in path order, directories marked.
pub open spec fn s3_children(
    c: Seq<(Seq<char>, bool)>,
    commons: Seq<Seq<char>>,
    keys: Seq<Seq<char>>,
    prefix: Seq<char>,
    base: Seq<char>,
) -> bool {
    &&& strictly_sorted(child_names(c))
    &&& forall|k: Seq<char>| #[trigger] has_child(c, k) == (dir_among(commons, commons.len() as int, prefix, base, k)
        || object_among(keys, keys.len() as int, prefix, base, k))
    &&& forall|k: Seq<char>| #[trigger] has_dir(c, k) == dir_among(commons, commons.len() as int, prefix, base, k)
}

/// `storage_relative` on characters.
fn strip_storage_prefix(key: &Vec<char>, prefix: &Vec<char>) -> (r: Vec<char>)
    ensures
        r@ == storage_relative(key@, prefix@),
{
    if chars_start_with(key, prefix) {
        slice_range(key, prefix.len(), key.len())
    } else {
        slice_range(key, 0, key.len())
    }
}

/// `s3_prefix` as a string.
fn normalize_prefix(prefix: &str) -> (r: String)
    ensures
        r@ == s3_prefix(prefix@),
{
    let t = strip_chars(&chars_of(prefix), CharClass::Exactly('/'));
    if t.len() == 0 {
        let r = String::new();
        assert(r@ =~= s3_prefix(prefix@));
        r
    } else {
        let mut s = string_from(&t);
        crate::text::push_char(&mut s, '/');
        s
    }
}

/// Read-only Library content provider backed by AWS S3 or an S3-compatible object store.
pub struct S3ContentProvider {
    id: String,
    bucket: Box<Bucket>,
    prefix: String,
}

impl S3ContentProvider {
    /// Provider identity.
    pub closed spec fn spec_id(&self) -> Seq<char> {
        self.id@
    }

    /// The bucket objects are read from.
    pub closed spec fn spec_bucket(&self) -> Bucket {
        *self.bucket
    }

    /// Storage prefix, empty or ending in `/`.
    pub closed spec fn spec_prefix(&self) -> Seq<char> {
        self.prefix@
    }

    /// Creates a provider from an already authenticated/configured S3 bucket.
    ///
    /// Credential and endpoint policy deliberately remain deployment concerns outside the Library
    /// domain model.
    pub fn new(id: &str, bucket: Box<Bucket>, prefix: &str) -> (r: S3ContentProvider)
        ensures
            r.spec_id() == id@,
            r.spec_bucket() == *bucket,
            r.spec_prefix() == s3_prefix(prefix@),
    {
        S3ContentProvider { id: owned(id), bucket, prefix: normalize_prefix(prefix) }
    }

    /// Provider identity.
    pub fn provider_id(&self) -> (r: &str)
        ensures
            r@ == self.spec_id(),
    {
        self.id.as_str()
    }

    /// The bucket objects are read from.
    pub fn bucket(&self) -> (r: &Bucket)
        ensures
            *r == self.spec_bucket(),
    {
        &*self.bucket
    }

    /// The object key of a logical path.
    pub fn key(&self, path: &str) -> (r: String)
        ensures
            r@ == s3_key(self.spec_prefix(), path@),
    {
        let p = strip_chars(&chars_of(path), CharClass::Exactly('/'));
        if chars_of(self.prefix.as_str()).len() == 0 {
            string_from(&p)
        } else if p.len() == 0 {
            string_from(&strip_end_chars(&chars_of(self.prefix.as_str()), CharClass::Exactly('/')))
        } else {
            concat2(self.prefix.as_str(), string_from(&p).as_str())
        }
    }

    /// The key prefix that lists the children of a logical path.
    pub fn list_prefix(&self, path: &str) -> (r: String)
        ensures
            r@ == s3_list_prefix(self.spec_prefix(), path@),
    {
        let mut k = self.key(path);
        let kc = chars_of(k.as_str());
        if kc.len() == 0 || kc[kc.len() - 1] == '/' {
            k
        } else {
            crate::text::push_char(&mut k, '/');
            k
        }
    }

    /// The direct children of logical path `path` shown by a listing under
    /// [`Self::list_prefix`]: `commons` are the common prefixes and `keys` the object keys of
    /// all its pages. A common prefix names a directory; an object names content unless a
    /// common prefix names the same child. Children come in path order.
    pub fn list_children(
        &self,
        library: &LibraryId,
        path: &str,
        commons: &Vec<String>,
        keys: &Vec<String>,
    ) -> (r: LibraryResult<Vec<KnowledgeNode>>)
        ensures
            exists|c: Seq<(Seq<char>, bool)>|
                s3_children(
                    c,
                    views(commons@),
                    views(keys@),
                    self.spec_prefix(),
                    strip(path@, CharClass::Exactly('/')),
                ) && #[trigger] child_nodes(library@, c, r),
    {
        let ghost cs = views(commons@);
        let ghost ks = views(keys@);
        let prefix = chars_of(self.prefix.as_str());
        let base = strip_chars(&chars_of(path), CharClass::Exactly('/'));
        let ghost pre = prefix@;
        let ghost b = base@;
        let mut children: Vec<(String, bool)> = Vec::new();
        assert(child_names(child_views(children@)) =~= Seq::<Seq<char>>::empty());
        let mut i: usize = 0;
        while i < commons.len()
            invariant
                i <= commons@.len(),
                cs == views(commons@),
                cs.len() == commons@.len(),
                pre == prefix@,
                b == base@,
                strictly_sorted(child_names(child_views(children@))),
                forall|k: Seq<char>| #[trigger] has_child(child_views(children@), k) == dir_among(cs, i as int, pre, b, k),
                forall|k: Seq<char>| #[trigger] has_dir(child_views(children@), k) == dir_among(cs, i as int, pre, b, k),
            decreases commons@.len() - i,
        {
            let ghost before = child_views(children@);
            let c = chars_of(commons[i].as_str());
            assert(c@ == cs[i as int]);
            let l = strip_end_chars(&strip_storage_prefix(&c, &prefix), CharClass::Exactly('/'));
            let listed = l.len() > 0 && !crate::text::chars_eq(&l, &base);
            if listed {
                mark_child(&mut children, string_from(&l), true);
            }
            proof {
                assert forall|k: Seq<char>| dir_among(cs, i + 1, pre, b, k) == (dir_among(cs, i as int, pre, b, k)
                    || (listed && k == l@)) by {
                    if dir_among(cs, i + 1, pre, b, k) {
                        let j = choose|j: int| 0 <= j < i + 1 && s3_dir_listed(#[trigger] cs[j], pre, b) && s3_dir_name(cs[j], pre) == k;
                        if j < i {
                            assert(dir_among(cs, i as int, pre, b, k));
                        }
                    }
                    if dir_among(cs, i as int, pre, b, k) {
                        let j = choose|j: int| 0 <= j < i && s3_dir_listed(#[trigger] cs[j], pre, b) && s3_dir_name(cs[j], pre) == k;
                        assert(dir_among(cs, i + 1, pre, b, k));
                    }
                    if listed && k == l@ {
                        assert(s3_dir_listed(cs[i as int], pre, b));
                        assert(dir_among(cs, i + 1, pre, b, k));
                    }
                }
            }
            i = i + 1;
        }
        let mut j: usize = 0;
        while j < keys.len()
            invariant
                j <= keys@.len(),
                ks == views(keys@),
                ks.len() == keys@.len(),
                cs.len() == commons@.len(),
                pre == prefix@,
                b == base@,
                strictly_sorted(child_names(child_views(children@))),
                forall|k: Seq<char>| #[trigger] has_child(child_views(children@), k) == (dir_among(cs, cs.len() as int, pre, b, k)
                    || object_among(ks, j as int, pre, b, k)),
                forall|k: Seq<char>| #[trigger] has_dir(child_views(children@), k) == dir_among(cs, cs.len() as int, pre, b, k),
            decreases keys@.len() - j,
        {
            let kc = chars_of(keys[j].as_str());
            assert(kc@ == ks[j as int]);
            let l = strip_storage_prefix(&kc, &prefix);
            let mut listed = l.len() > 0 && l[l.len() - 1] != '/' && !crate::text::chars_eq(&l, &base);
            if listed {
                if base.len() == 0 {
                    listed = !chars_have(&l, '/');
                } else {
                    let mut bs = slice_range(&base, 0, base.len());
                    bs.push('/');
                    assert(bs@ =~= b + seq!['/']);
                    if chars_start_with(&l, &bs) {
                        let rest = slice_range(&l, bs.len(), l.len());
                        listed = !chars_have(&rest, '/');
                    } else {
                        listed = false;
                    }
                }
            }
            assert(listed == s3_object_listed(ks[j as int], pre, b));
            if listed {
                mark_child(&mut children, string_from(&l), false);
            }
            proof {
                assert forall|k: Seq<char>| object_among(ks, j + 1, pre, b, k) == (object_among(ks, j as int, pre, b, k)
                    || (listed && k == l@)) by {
                    if object_among(ks, j + 1, pre, b, k) {
                        let x = choose|x: int| 0 <= x < j + 1 && s3_object_listed(#[trigger] ks[x], pre, b) && storage_relative(ks[x], pre) == k;
                        if x < j {
                            assert(object_among(ks, j as int, pre, b, k));
                        }
                    }
                    if object_among(ks, j as int, pre, b, k) {
                        let x = choose|x: int| 0 <= x < j && s3_object_listed(#[trigger] ks[x], pre, b) && storage_relative(ks[x], pre) == k;
                        assert(object_among(ks, j + 1, pre, b, k));
                    }
                    if listed && k == l@ {
                        assert(object_among(ks, j + 1, pre, b, k));
                    }
                }
            }
            j = j + 1;
        }
        let r = nodes_from_children(library, &children);
        assert(s3_children(child_views(children@), cs, ks, pre, b));
        r
    }
}

/// The diagnostic for a failed object-store call: `S3 provider error: <detail>`.
pub fn s3_error(detail: &str) -> (r: LibraryError)
    ensures
        r matches LibraryError::Provider(m) && m@ == "S3 provider error: "@ + detail@,
{
    LibraryError::Provider(concat2("S3 provider error: ", detail))
}

/// The diagnostic for an object whose bytes are not UTF-8 text.
pub fn not_utf8_error(uri: &KnowledgeUri, detail: &str) -> (r: LibraryError)
    ensures
        r matches LibraryError::Provider(m) && m@ == "S3 object '"@ + uri_text(
            uri.spec_library(),
            uri.spec_path(),
        ) + "' is not UTF-8 knowledge content: "@ + detail@,
{
    let t = uri.to_text();
    let mut m = concat3("S3 object '", t.as_str(), "' is not UTF-8 knowledge content: ");
    crate::text::push_all(&mut m, detail);
    LibraryError::Provider(m)
}

} // verus!
