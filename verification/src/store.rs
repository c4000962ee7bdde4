//! The documentation store: crates, their versions and documents, and the keyword index
//! used to find documents by module path.

use vstd::prelude::*;

use crate::assoc::{
    contains_string, find_key, holds, key_index, lookup, pairs_view, set_add, strings_view, upsert,
};
use crate::doc_types::{doc_type_of, file_prefix, DocType, NewDocTemp_};
use crate::document::{crate_prefix, filepath_of, path_sep, CrateInfo, ModPath};
use crate::markup::path_text;
use crate::paths::{crate_doc_path, join_path, path_join, registry_path_of};
use crate::text::{join_seq, split_seq};
use crate::version::{version_hash, version_hashable, version_number_hash};

verus! {

/// The lower-case form of a string, as `str::to_lowercase` computes it.
pub uninterp spec fn lowercase(s: Seq<char>) -> Seq<char>;

/// `str::to_lowercase`: its result is named, not spelled out (it follows Unicode's case tables).
#[verifier::external_body]
pub(crate) fn to_lowercase(s: &str) -> (r: String)
    ensures
        r@ == lowercase(s@),
{
    s.to_lowercase()
}

/// The Levenshtein distance between two texts: the fewest insertions, deletions and
/// substitutions of single characters that turn `a` into `b`.
pub open spec fn levenshtein_distance(a: Seq<char>, b: Seq<char>) -> nat
    decreases a.len() + b.len(),
{
    if a.len() == 0 {
        b.len()
    } else if b.len() == 0 {
        a.len()
    } else {
        let substitute = levenshtein_distance(a.drop_last(), b.drop_last()) + if a.last() == b.last() {
            0nat
        } else {
            1nat
        };
        let delete = levenshtein_distance(a.drop_last(), b) + 1;
        let insert = levenshtein_distance(a, b.drop_last()) + 1;
        if substitute <= delete && substitute <= insert {
            substitute
        } else if delete <= insert {
            delete
        } else {
            insert
        }
    }
}

/// `strsim::levenshtein`: the fewest single-character insertions, deletions and
/// substitutions that turn `a` into `b`, counted over characters, as the crate documents.
#[verifier::external_body]
fn levenshtein(a: &str, b: &str) -> (r: usize)
    ensures
        r as nat == levenshtein_distance(a@, b@),
{
    strsim::levenshtein(a, b)
}

/// The on-disk location of a piece of documentation, with the crate and type of the item.
#[derive(Debug)]
pub struct StoreLocation {
    pub name: String,
    pub crate_info: CrateInfo,
    pub mod_path: ModPath,
    pub doc_type: DocType,
}

/// What two locations must share to be the same location: name, crate name and version,
/// module path and document type.
pub open spec fn same_location(a: StoreLocation, b: StoreLocation) -> bool {
    &&& a.name@ == b.name@
    &&& a.crate_info.name@ == b.crate_info.name@
    &&& a.crate_info.version@ == b.crate_info.version@
    &&& a.crate_info.lib_path == b.crate_info.lib_path
    &&& a.mod_path@ == b.mod_path@
    &&& a.doc_type == b.doc_type
}

impl Clone for StoreLocation {
    fn clone(&self) -> (r: Self)
        ensures
            same_location(r, *self),
    {
        StoreLocation {
            name: self.name.clone(),
            crate_info: self.crate_info.clone(),
            mod_path: self.mod_path.clone(),
            doc_type: self.doc_type,
        }
    }
}

/// The file a location's document is kept in, below the doc registry of `home`.
pub open spec fn location_file(home: Seq<char>, l: StoreLocation) -> Seq<char> {
    join_path(
        join_path(
            join_path(
                registry_path_of(home, "doc"@),
                crate_prefix(l.crate_info.name@, l.crate_info.version@),
            ),
            filepath_of(l.mod_path@),
        ),
        file_prefix(l.doc_type) + l.name@ + ".odoc"@,
    )
}

impl StoreLocation {
    pub fn new(name: String, crate_info: CrateInfo, mod_path: ModPath, doc_type: DocType) -> (r: Self)
        ensures
            r.name == name,
            r.crate_info == crate_info,
            r.mod_path == mod_path,
            r.doc_type == doc_type,
    {
        StoreLocation { name, crate_info, mod_path, doc_type }
    }

    /// The file holding this location's document, for the user whose home directory is `home`:
    /// `<crate doc dir>/<module path>/<type prefix><name>.odoc`.
    pub fn to_filepath(&self, home: &str) -> (r: String)
        ensures
            r@ == location_file(home@, *self),
    {
        let path = crate_doc_path(home, &self.crate_info);
        let doc_path = self.mod_path.to_filepath();
        let path = path_join(path.as_str(), doc_path.as_str());
        let mut filename = self.doc_type.get_file_prefix().to_owned();
        filename.append(self.name.as_str());
        filename.append(".odoc");
        path_join(path.as_str(), filename.as_str())
    }

    /// The location as displayed: `<module path> (<crate> <version>)`.
    pub fn to_string(&self) -> (r: String)
        ensures
            r@ == path_text(self.mod_path@) + " ("@ + self.crate_info.name@ + " "@
                + self.crate_info.version@ + ")"@,
    {
        let mut s = self.mod_path.to_string();
        s.append(" (");
        s.append(self.crate_info.name.as_str());
        s.append(" ");
        s.append(self.crate_info.version.as_str());
        s.append(")");
        s
    }
}

impl NewDocTemp_ {
    /// Where this record is kept.
    pub fn to_store_location(&self) -> (r: StoreLocation)
        ensures
            r.name@ == self.name@,
            r.crate_info.name@ == self.crate_info.name@,
            r.crate_info.version@ == self.crate_info.version@,
            r.crate_info.lib_path == self.crate_info.lib_path,
            r.mod_path@ == self.mod_path@,
            r.doc_type == doc_type_of(self.inner_data),
    {
        StoreLocation {
            name: self.name.clone(),
            crate_info: self.crate_info.clone(),
            mod_path: self.mod_path.clone(),
            doc_type: self.get_type(),
        }
    }
}

/// The documentation of one crate version: crate-local module path (lower case) to location.
#[derive(Debug)]
pub struct Docset {
    pub documents: Vec<(String, StoreLocation)>,
}

/// The key a document is filed under in its docset: its module path without the crate name,
/// in lower case.
pub open spec fn doc_key(p: Seq<Seq<char>>) -> Seq<char> {
    lowercase(path_text(p.drop_first()))
}

/// The entries of a docset after filing `doc_paths` one by one, each under `doc_key` of its path.
pub open spec fn file_docs(
    docs: Seq<(Seq<char>, StoreLocation)>,
    added: Seq<StoreLocation>,
) -> Seq<(Seq<char>, StoreLocation)>
    decreases added.len(),
{
    if added.len() == 0 {
        docs
    } else {
        let before = file_docs(docs, added.drop_last());
        upsert(before, doc_key(added.last().mod_path@), added.last())
    }
}

impl Docset {
    /// The docset's entries, keyed by their text.
    pub open spec fn entries(&self) -> Seq<(Seq<char>, StoreLocation)> {
        pairs_view(self.documents@)
    }

    pub fn new() -> (r: Self)
        ensures
            r.entries() == Seq::<(Seq<char>, StoreLocation)>::empty(),
    {
        Docset { documents: Vec::new() }
    }

    /// Files `loc` under `key`, replacing what was filed there.
    fn insert(&mut self, key: String, loc: StoreLocation)
        ensures
            final(self).entries() == upsert(old(self).entries(), key@, loc),
    {
        let ghost before = self.entries();
        match find_key(&self.documents, key.as_str()) {
            Some(i) => {
                let _ = self.documents.remove(i);
                self.documents.insert(i, (key, loc));
                proof {
                    assert(self.entries() =~= before.update(i as int, (key@, loc)));
                }
            },
            None => {
                self.documents.push((key, loc));
                assert(self.entries() =~= before.push((key@, loc)));
            },
        }
    }

    /// Files the location of each record under its crate-local module path in lower case.
    pub fn add_docs(&mut self, documents: &Vec<NewDocTemp_>)
        requires
            forall|i: int| 0 <= i < documents@.len() ==> (#[trigger] documents@[i]).mod_path@.len() >= 1,
        ensures
            exists|added: Seq<StoreLocation>|
                {
                    &&& added.len() == documents@.len()
                    &&& forall|i: int|
                        0 <= i < added.len() ==> {
                            &&& (#[trigger] added[i]).name@ == documents@[i].name@
                            &&& added[i].crate_info.name@ == documents@[i].crate_info.name@
                            &&& added[i].crate_info.version@ == documents@[i].crate_info.version@
                            &&& added[i].crate_info.lib_path == documents@[i].crate_info.lib_path
                            &&& added[i].mod_path@ == documents@[i].mod_path@
                            &&& added[i].doc_type == doc_type_of(documents@[i].inner_data)
                        }
                    &&& final(self).entries() == file_docs(old(self).entries(), added)
                },
    {
        let ghost start = self.entries();
        let ghost mut added: Seq<StoreLocation> = Seq::empty();
        let mut i: usize = 0;
        while i < documents.len()
            invariant
                i <= documents@.len(),
                forall|k: int| 0 <= k < documents@.len() ==> (#[trigger] documents@[k]).mod_path@.len() >= 1,
                added.len() == i,
                forall|k: int|
                    0 <= k < added.len() ==> {
                        &&& (#[trigger] added[k]).name@ == documents@[k].name@
                        &&& added[k].crate_info.name@ == documents@[k].crate_info.name@
                        &&& added[k].crate_info.version@ == documents@[k].crate_info.version@
                        &&& added[k].crate_info.lib_path == documents@[k].crate_info.lib_path
                        &&& added[k].mod_path@ == documents@[k].mod_path@
                        &&& added[k].doc_type == doc_type_of(documents@[k].inner_data)
                    },
                self.entries() == file_docs(start, added),
            decreases documents@.len() - i,
        {
            let document = &documents[i];
            assert(document.mod_path@.len() >= 1);
            let relative = document.mod_path.tail().to_string();
            let key = to_lowercase(relative.as_str());
            let loc = document.to_store_location();
            self.insert(key, loc);
            proof {
                let new_added = added.push(loc);
                assert(new_added.drop_last() =~= added);
                added = new_added;
            }
            i = i + 1;
        }
    }
}

/// The locations of the documents of a list of versions, version by version.
pub open spec fn version_locs(vs: Seq<(Seq<char>, Docset)>) -> Seq<StoreLocation>
    decreases vs.len(),
{
    if vs.len() == 0 {
        seq![]
    } else {
        version_locs(vs.drop_last()) + vs.last().1.entries().map_values(|e: (Seq<char>, StoreLocation)| e.1)
    }
}

/// The locations of all documents of a list of crates, crate by crate.
pub open spec fn all_locs(crates: Seq<(Seq<char>, Seq<(Seq<char>, Docset)>)>) -> Seq<StoreLocation>
    decreases crates.len(),
{
    if crates.len() == 0 {
        seq![]
    } else {
        all_locs(crates.drop_last()) + version_locs(crates.last().1)
    }
}

/// Filing a docset under an orderable version keeps every version of the store orderable.
proof fn lemma_upsert_keeps_hashable(
    crates: Seq<(Seq<char>, Seq<(Seq<char>, Docset)>)>,
    inner: Seq<(Seq<char>, Docset)>,
    name: Seq<char>,
    version: Seq<char>,
    docset: Docset,
)
    requires
        all_versions_hashable(crates),
        version_hashable(version),
        inner == (match lookup(crates, name) {
            Some(v) => v,
            None => Seq::<(Seq<char>, Docset)>::empty(),
        }),
    ensures
        all_versions_hashable(upsert(crates, name, upsert(inner, version, docset))),
{
    crate::assoc::lemma_key_index(crates, name);
    crate::assoc::lemma_key_index(inner, version);
    let new_inner = upsert(inner, version, docset);
    assert forall|j: int| 0 <= j < new_inner.len() implies version_hashable(#[trigger] new_inner[j].0) by {
        if j < inner.len() && j != key_index(inner, version) {
            let i = key_index(crates, name);
            assert(inner[j] == crates[i].1[j]);
        }
    }
    let r = upsert(crates, name, new_inner);
    assert forall|i: int, j: int| 0 <= i < r.len() && 0 <= j < r[i].1.len() implies version_hashable(#[trigger] r[i].1[j].0) by {
        if i != key_index(crates, name) && i < crates.len() {
            assert(r[i] == crates[i]);
        }
    }
}

/// The keyword index after recording that module path text `val` uses keyword `key`.
pub open spec fn add_expansion(
    exp: Seq<(Seq<char>, Seq<Seq<char>>)>,
    key: Seq<char>,
    val: Seq<char>,
) -> Seq<(Seq<char>, Seq<Seq<char>>)> {
    let i = key_index(exp, key);
    if i < 0 {
        exp.push((key, seq![val]))
    } else {
        exp.update(i, (key, set_add(exp[i].1, val)))
    }
}

/// The keyword index after recording `val` under each of the (lower-cased) segments in `segs`.
pub open spec fn expand_segments(
    exp: Seq<(Seq<char>, Seq<Seq<char>>)>,
    segs: Seq<Seq<char>>,
    val: Seq<char>,
) -> Seq<(Seq<char>, Seq<Seq<char>>)>
    decreases segs.len(),
{
    if segs.len() == 0 {
        exp
    } else {
        add_expansion(expand_segments(exp, segs.drop_last(), val), lowercase(segs.last()), val)
    }
}

/// The keyword index after indexing the module paths of the documents in `docs`, in order.
pub open spec fn expand_docs(
    exp: Seq<(Seq<char>, Seq<Seq<char>>)>,
    docs: Seq<(Seq<char>, StoreLocation)>,
) -> Seq<(Seq<char>, Seq<Seq<char>>)>
    decreases docs.len(),
{
    if docs.len() == 0 {
        exp
    } else {
        let p = docs.last().1.mod_path@;
        expand_segments(expand_docs(exp, docs.drop_last()), p, lowercase(path_text(p)))
    }
}

/// Whether the keyword index `exp` lists the module path text `val` under the keyword `key`.
pub open spec fn indexed(exp: Seq<(Seq<char>, Seq<Seq<char>>)>, key: Seq<char>, val: Seq<char>) -> bool {
    lookup(exp, key) matches Some(v) && holds(v, val)
}

/// The first entry with key `k` is at `j` where `j` has it and no earlier entry does.
proof fn lemma_key_index_at(l: Seq<(Seq<char>, Seq<Seq<char>>)>, k: Seq<char>, j: int)
    requires
        0 <= j < l.len(),
        l[j].0 == k,
        forall|i: int| 0 <= i < j ==> l[i].0 != k,
    ensures
        key_index(l, k) == j,
{
    crate::assoc::lemma_key_index(l, k);
}

/// Recording `val` under `key` lists it there, and keeps everything listed before.
proof fn lemma_add_expansion_indexes(
    exp: Seq<(Seq<char>, Seq<Seq<char>>)>,
    key: Seq<char>,
    val: Seq<char>,
    k2: Seq<char>,
    x: Seq<char>,
)
    requires
        indexed(exp, k2, x) || (k2 == key && x == val),
    ensures
        indexed(add_expansion(exp, key, val), k2, x),
{
    crate::assoc::lemma_key_index(exp, key);
    crate::assoc::lemma_key_index(exp, k2);
    let i = key_index(exp, key);
    let e2 = add_expansion(exp, key, val);
    if i < 0 {
        if k2 == key {
            lemma_key_index_at(e2, key, exp.len() as int);
            assert(e2[exp.len() as int].1[0] == val);
        } else {
            let j = key_index(exp, k2);
            assert forall|m: int| 0 <= m < j implies e2[m].0 != k2 by {
                assert(e2[m] == exp[m]);
            }
            lemma_key_index_at(e2, k2, j);
            assert(e2[j] == exp[j]);
        }
    } else {
        assert forall|m: int| 0 <= m < exp.len() implies exp[m].0 == e2[m].0 by {}
        crate::assoc::lemma_key_index_same_keys(exp, e2, k2);
        let j = key_index(exp, k2);
        let old_set = exp[i].1;
        if k2 == key {
            if holds(old_set, val) {
                assert(set_add(old_set, val) == old_set);
            } else {
                assert(set_add(old_set, val) == old_set.push(val));
                assert(old_set.push(val)[old_set.len() as int] == val);
                if holds(old_set, x) {
                    let w = choose|w: int| 0 <= w < old_set.len() && old_set[w] == x;
                    assert(old_set.push(val)[w] == x);
                }
            }
        } else {
            assert(j != i);
            assert(e2[j] == exp[j]);
        }
    }
}

/// Recording `val` under each of `segs` (lower-cased) lists it under every one of them, and
/// keeps everything listed before.
proof fn lemma_expand_segments_indexes(
    exp: Seq<(Seq<char>, Seq<Seq<char>>)>,
    segs: Seq<Seq<char>>,
    val: Seq<char>,
)
    ensures
        forall|k: int| 0 <= k < segs.len() ==> indexed(expand_segments(exp, segs, val), #[trigger] lowercase(segs[k]), val),
        forall|k2: Seq<char>, x: Seq<char>|
            #[trigger] indexed(exp, k2, x) ==> indexed(expand_segments(exp, segs, val), k2, x),
    decreases segs.len(),
{
    if segs.len() > 0 {
        let init = segs.drop_last();
        lemma_expand_segments_indexes(exp, init, val);
        let mid = expand_segments(exp, init, val);
        let key = lowercase(segs.last());
        assert forall|k: int| 0 <= k < segs.len() implies indexed(
            expand_segments(exp, segs, val),
            #[trigger] lowercase(segs[k]),
            val,
        ) by {
            if k < segs.len() - 1 {
                assert(init[k] == segs[k]);
                lemma_add_expansion_indexes(mid, key, val, lowercase(segs[k]), val);
            } else {
                lemma_add_expansion_indexes(mid, key, val, key, val);
            }
        }
        assert forall|k2: Seq<char>, x: Seq<char>| #[trigger] indexed(exp, k2, x) implies indexed(
            expand_segments(exp, segs, val),
            k2,
            x,
        ) by {
            lemma_add_expansion_indexes(mid, key, val, k2, x);
        }
    }
}

/// Indexing documents lists each one's lower-cased path text under every segment of its module
/// path, the first (the crate's name) included, and keeps everything listed before.
pub proof fn lemma_docs_indexed_by_every_segment(
    exp: Seq<(Seq<char>, Seq<Seq<char>>)>,
    docs: Seq<(Seq<char>, StoreLocation)>,
)
    ensures
        forall|j: int, k: int|
            0 <= j < docs.len() && 0 <= k < docs[j].1.mod_path@.len() ==> indexed(
                expand_docs(exp, docs),
                #[trigger] lowercase(docs[j].1.mod_path@[k]),
                lowercase(path_text(docs[j].1.mod_path@)),
            ),
        forall|k2: Seq<char>, x: Seq<char>| #[trigger] indexed(exp, k2, x) ==> indexed(expand_docs(exp, docs), k2, x),
    decreases docs.len(),
{
    if docs.len() > 0 {
        let init = docs.drop_last();
        lemma_docs_indexed_by_every_segment(exp, init);
        let mid = expand_docs(exp, init);
        let p = docs.last().1.mod_path@;
        let val = lowercase(path_text(p));
        lemma_expand_segments_indexes(mid, p, val);
        assert forall|j: int, k: int| 0 <= j < docs.len() && 0 <= k < docs[j].1.mod_path@.len() implies indexed(
            expand_docs(exp, docs),
            #[trigger] lowercase(docs[j].1.mod_path@[k]),
            lowercase(path_text(docs[j].1.mod_path@)),
        ) by {
            if j < docs.len() - 1 {
                assert(init[j] == docs[j]);
                assert(indexed(mid, lowercase(docs[j].1.mod_path@[k]), lowercase(path_text(docs[j].1.mod_path@))));
            }
        }
    }
}

/// The keyword index held in `v`, keyed and valued by text.
pub open spec fn expansions_view(v: Seq<(String, Vec<String>)>) -> Seq<(Seq<char>, Seq<Seq<char>>)> {
    v.map_values(|e: (String, Vec<String>)| (e.0@, strings_view(e.1@)))
}

/// The central point for retrieving documentation: crate name to crate version to docset, and
/// an index from module path keywords to the full module paths that use them.
#[derive(Debug)]
pub struct Store {
    pub items: Vec<(String, Vec<(String, Docset)>)>,
    pub module_expansions: Vec<(String, Vec<String>)>,
}

/// The version entries of a crate, keyed by their text.
pub open spec fn versions_view(v: Seq<(String, Docset)>) -> Seq<(Seq<char>, Docset)> {
    pairs_view(v)
}

/// Every version string in the store can be ordered without failing.
pub open spec fn all_versions_hashable(crates: Seq<(Seq<char>, Seq<(Seq<char>, Docset)>)>) -> bool {
    forall|i: int, j: int|
        0 <= i < crates.len() && 0 <= j < crates[i].1.len() ==> version_hashable(
            #[trigger] crates[i].1[j].0,
        )
}

impl Store {
    /// The crates in the store: crate name to its list of (version, docset).
    pub closed spec fn crates(&self) -> Seq<(Seq<char>, Seq<(Seq<char>, Docset)>)> {
        self.items@.map_values(
            |e: (String, Vec<(String, Docset)>)| (e.0@, versions_view(e.1@)),
        )
    }

    /// The keyword index: lower-case keyword to the lower-case module paths that use it.
    pub closed spec fn expansions(&self) -> Seq<(Seq<char>, Seq<Seq<char>>)> {
        expansions_view(self.module_expansions@)
    }

    pub fn new() -> (r: Self)
        ensures
            r.crates() == Seq::<(Seq<char>, Seq<(Seq<char>, Docset)>)>::empty(),
            r.expansions() == Seq::<(Seq<char>, Seq<Seq<char>>)>::empty(),
    {
        let r = Store { items: Vec::new(), module_expansions: Vec::new() };
        assert(r.crates() =~= Seq::<(Seq<char>, Seq<(Seq<char>, Docset)>)>::empty());
        assert(r.expansions() =~= Seq::<(Seq<char>, Seq<Seq<char>>)>::empty());
        r
    }

    /// Records that the module path text `val` uses the keyword `key`.
    fn add_expansion(&mut self, key: String, val: String)
        ensures
            final(self).expansions() == add_expansion(old(self).expansions(), key@, val@),
            final(self).crates() == old(self).crates(),
    {
        let ghost before = self.expansions();
        proof {
            crate::assoc::lemma_key_index(before, key@);
            crate::assoc::lemma_key_index_same_keys(before, pairs_view(self.module_expansions@), key@);
        }
        match find_key(&self.module_expansions, key.as_str()) {
            Some(i) => {
                let (k, mut set) = self.module_expansions.remove(i);
                if !contains_string(&set, val.as_str()) {
                    let ghost old_set = set@;
                    set.push(val);
                    assert(strings_view(set@) =~= strings_view(old_set).push(val@));
                }
                self.module_expansions.insert(i, (k, set));
                assert(self.expansions() =~= add_expansion(before, key@, val@));
            },
            None => {
                assert(key_index(before, key@) < 0);
                let set = vec![val];
                assert(strings_view(set@) =~= seq![val@]);
                self.module_expansions.push((key, set));
                assert(self.expansions() =~= add_expansion(before, key@, val@));
            },
        }
    }

    /// Adds the keywords of the module path of `doc` to the keyword index.
    fn add_module_expansions(&mut self, doc: &StoreLocation)
        ensures
            final(self).expansions() == expand_segments(
                old(self).expansions(),
                doc.mod_path@,
                lowercase(path_text(doc.mod_path@)),
            ),
            final(self).crates() == old(self).crates(),
    {
        let ghost start = self.expansions();
        let ghost val = lowercase(path_text(doc.mod_path@));
        let mut i: usize = 0;
        while i < doc.mod_path.0.len()
            invariant
                i <= doc.mod_path@.len(),
                self.expansions() == expand_segments(start, doc.mod_path@.take(i as int), val),
                val == lowercase(path_text(doc.mod_path@)),
                start == old(self).expansions(),
                self.crates() == old(self).crates(),
            decreases doc.mod_path@.len() - i,
        {
            let text = doc.mod_path.to_string();
            let mod_path = to_lowercase(text.as_str());
            let key = to_lowercase(doc.mod_path.0[i].identifier.as_str());
            assert(doc.mod_path.0@[i as int]@ == doc.mod_path@[i as int]);
            self.add_expansion(key, mod_path);
            assert(doc.mod_path@.take(i + 1).drop_last() =~= doc.mod_path@.take(i as int));
            i = i + 1;
        }
        assert(doc.mod_path@.take(doc.mod_path@.len() as int) =~= doc.mod_path@);
    }

    /// Adds the documentation of one version of a crate: indexes the module paths of all its
    /// documents, then files the docset under the crate's name and version, replacing any
    /// docset filed there before.
    pub fn add_docset(&mut self, crate_info: CrateInfo, docset: Docset)
        ensures
            final(self).expansions() == expand_docs(old(self).expansions(), docset.entries()),
            final(self).crates() == upsert(
                old(self).crates(),
                crate_info.name@,
                upsert(
                    match lookup(old(self).crates(), crate_info.name@) {
                        Some(v) => v,
                        None => Seq::<(Seq<char>, Docset)>::empty(),
                    },
                    crate_info.version@,
                    docset,
                ),
            ),
            old(self).well_versioned() && version_hashable(crate_info.version@)
                ==> final(self).well_versioned(),
            forall|j: int, k: int|
                0 <= j < docset.entries().len() && 0 <= k < docset.entries()[j].1.mod_path@.len()
                    ==> indexed(
                    final(self).expansions(),
                    #[trigger] lowercase(docset.entries()[j].1.mod_path@[k]),
                    lowercase(path_text(docset.entries()[j].1.mod_path@)),
                ),
    {
        let ghost start = self.expansions();
        proof {
            lemma_docs_indexed_by_every_segment(start, docset.entries());
        }
        let mut i: usize = 0;
        while i < docset.documents.len()
            invariant
                i <= docset.entries().len(),
                self.expansions() == expand_docs(start, docset.entries().take(i as int)),
                self.crates() == old(self).crates(),
            decreases docset.entries().len() - i,
        {
            self.add_module_expansions(&docset.documents[i].1);
            assert(docset.entries().take(i + 1).drop_last() =~= docset.entries().take(i as int));
            i = i + 1;
        }
        assert(docset.entries().take(docset.entries().len() as int) =~= docset.entries());
        let ghost crates0 = self.crates();
        proof {
            crate::assoc::lemma_key_index(crates0, crate_info.name@);
            crate::assoc::lemma_key_index_same_keys(crates0, pairs_view(self.items@), crate_info.name@);
        }
        proof {
            let inner = match lookup(crates0, crate_info.name@) {
                Some(v) => v,
                None => Seq::<(Seq<char>, Docset)>::empty(),
            };
            if all_versions_hashable(crates0) && version_hashable(crate_info.version@) {
                lemma_upsert_keeps_hashable(crates0, inner, crate_info.name@, crate_info.version@, docset);
            }
        }
        match find_key(&self.items, crate_info.name.as_str()) {
            Some(c) => {
                let (name, mut versions) = self.items.remove(c);
                let ghost vbefore = versions_view(versions@);
                assert(vbefore == crates0[c as int].1);
                proof {
                    crate::assoc::lemma_key_index(crates0, crate_info.name@);
                }
                match find_key(&versions, crate_info.version.as_str()) {
                    Some(j) => {
                        let _ = versions.remove(j);
                        versions.insert(j, (crate_info.version, docset));
                        assert(versions_view(versions@) =~= upsert(vbefore, crate_info.version@, docset));
                    },
                    None => {
                        versions.push((crate_info.version, docset));
                        assert(versions_view(versions@) =~= upsert(vbefore, crate_info.version@, docset));
                    },
                }
                self.items.insert(c, (name, versions));
                assert(self.crates() =~= upsert(crates0, crate_info.name@, upsert(vbefore, crate_info.version@, docset)));
            },
            None => {
                let ghost ver = crate_info.version@;
                let versions = vec![(crate_info.version, docset)];
                assert(versions_view(versions@) =~= upsert(Seq::<(Seq<char>, Docset)>::empty(), ver, docset));
                self.items.push((crate_info.name, versions));
                assert(self.crates() =~= upsert(crates0, crate_info.name@, upsert(Seq::<(Seq<char>, Docset)>::empty(), ver, docset)));
            },
        }
    }
}

/// The position of the first occurrence of `x` in `s`, or -1 where there is none.
pub open spec fn index_of(s: Seq<Seq<char>>, x: Seq<char>) -> int
    decreases s.len(),
{
    if s.len() == 0 {
        -1
    } else if s[0] == x {
        0
    } else {
        let r = index_of(s.drop_first(), x);
        if r < 0 {
            -1
        } else {
            r + 1
        }
    }
}

proof fn lemma_index_of(s: Seq<Seq<char>>, x: Seq<char>)
    ensures
        -1 <= index_of(s, x) < s.len(),
        index_of(s, x) >= 0 ==> s[index_of(s, x)] == x,
        forall|j: int| 0 <= j < s.len() && (index_of(s, x) < 0 || j < index_of(s, x)) ==> s[j] != x,
        holds(s, x) <==> index_of(s, x) >= 0,
    decreases s.len(),
{
    if s.len() > 0 && s[0] != x {
        lemma_index_of(s.drop_first(), x);
        assert forall|j: int| 0 <= j < s.len() && (index_of(s, x) < 0 || j < index_of(s, x)) implies s[j] != x by {
            if j > 0 {
                assert(s[j] == s.drop_first()[j - 1]);
            }
        }
        if holds(s, x) {
            let j = choose|j: int| 0 <= j < s.len() && s[j] == x;
            assert(s.drop_first()[j - 1] == x);
        }
    }
}

/// `s` without the first occurrence of `x`.
pub open spec fn remove_first(s: Seq<Seq<char>>, x: Seq<char>) -> Seq<Seq<char>> {
    let i = index_of(s, x);
    if i < 0 {
        s
    } else {
        s.remove(i)
    }
}

/// The strings of `target` that also occur in `other`, each occurrence in `other` used once.
pub open spec fn intersect_seq(target: Seq<Seq<char>>, other: Seq<Seq<char>>) -> Seq<Seq<char>>
    decreases target.len(),
{
    if target.len() == 0 {
        seq![]
    } else if holds(other, target[0]) {
        seq![target[0]] + intersect_seq(target.drop_first(), remove_first(other, target[0]))
    } else {
        intersect_seq(target.drop_first(), other)
    }
}

/// Whether no string occurs twice in `s`.
pub open spec fn no_dups(s: Seq<Seq<char>>) -> bool {
    forall|i: int, j: int| 0 <= i < j < s.len() ==> s[i] != s[j]
}

/// Taking one occurrence of `h` out of `o` keeps every other string it holds.
proof fn lemma_remove_first_holds(o: Seq<Seq<char>>, h: Seq<char>, x: Seq<char>)
    requires
        x != h,
    ensures
        holds(remove_first(o, h), x) <==> holds(o, x),
{
    lemma_index_of(o, h);
    let i = index_of(o, h);
    if i >= 0 {
        let r = o.remove(i);
        if holds(o, x) {
            let k = choose|k: int| 0 <= k < o.len() && o[k] == x;
            if k < i {
                assert(r[k] == x);
            } else {
                assert(k != i);
                assert(r[k - 1] == x);
            }
        }
        if holds(r, x) {
            let k = choose|k: int| 0 <= k < r.len() && r[k] == x;
            if k < i {
                assert(o[k] == x);
            } else {
                assert(o[k + 1] == x);
            }
        }
    }
}

/// Intersecting lists that hold no string twice is intersecting sets: what comes out holds no
/// string twice, and holds exactly the strings that both lists hold.
pub proof fn lemma_intersect_sets(t: Seq<Seq<char>>, o: Seq<Seq<char>>)
    requires
        no_dups(t),
    ensures
        no_dups(intersect_seq(t, o)),
        forall|x: Seq<char>| #[trigger] holds(intersect_seq(t, o), x) <==> holds(t, x) && holds(o, x),
    decreases t.len(),
{
    if t.len() > 0 {
        let h = t[0];
        let rest = t.drop_first();
        assert(no_dups(rest)) by {
            assert forall|i: int, j: int| 0 <= i < j < rest.len() implies rest[i] != rest[j] by {
                assert(rest[i] == t[i + 1] && rest[j] == t[j + 1]);
            }
        }
        assert(!holds(rest, h)) by {
            if holds(rest, h) {
                let k = choose|k: int| 0 <= k < rest.len() && rest[k] == h;
                assert(t[k + 1] == t[0]);
            }
        }
        assert forall|x: Seq<char>| x != h implies (holds(rest, x) <==> holds(t, x)) by {
            if holds(t, x) {
                let k = choose|k: int| 0 <= k < t.len() && t[k] == x;
                assert(rest[k - 1] == x);
            }
            if holds(rest, x) {
                let k = choose|k: int| 0 <= k < rest.len() && rest[k] == x;
                assert(t[k + 1] == x);
            }
        }
        assert(holds(t, h)) by {
            assert(t[0] == h);
        }
        if holds(o, h) {
            let o2 = remove_first(o, h);
            lemma_intersect_sets(rest, o2);
            let i2 = intersect_seq(rest, o2);
            let r = seq![h] + i2;
            assert(intersect_seq(t, o) == r);
            assert(!holds(i2, h));
            assert forall|i: int, j: int| 0 <= i < j < r.len() implies r[i] != r[j] by {
                if i == 0 {
                    assert(r[j] == i2[j - 1]);
                    if r[j] == h {
                        assert(holds(i2, h));
                    }
                } else {
                    assert(r[i] == i2[i - 1] && r[j] == i2[j - 1]);
                }
            }
            assert forall|x: Seq<char>| #[trigger] holds(r, x) <==> holds(t, x) && holds(o, x) by {
                if x != h {
                    lemma_remove_first_holds(o, h, x);
                    if holds(r, x) {
                        let k = choose|k: int| 0 <= k < r.len() && r[k] == x;
                        assert(i2[k - 1] == x);
                        assert(holds(i2, x));
                    }
                    if holds(i2, x) {
                        let k = choose|k: int| 0 <= k < i2.len() && i2[k] == x;
                        assert(r[k + 1] == x);
                    }
                } else {
                    assert(r[0] == h);
                }
            }
        } else {
            lemma_intersect_sets(rest, o);
            assert(intersect_seq(t, o) == intersect_seq(rest, o));
            assert forall|x: Seq<char>| #[trigger] holds(intersect_seq(t, o), x) <==> holds(t, x) && holds(o, x) by {
                if x == h {
                    assert(!holds(o, x));
                }
            }
        }
    }
}

/// Returns the strings that exist in both `target` and `other`.
fn intersect(target: Vec<String>, other: &Vec<String>) -> (r: Vec<String>)
    ensures
        strings_view(r@) == intersect_seq(strings_view(target@), strings_view(other@)),
        no_dups(strings_view(target@)) ==> no_dups(strings_view(r@)),
{
    proof {
        if no_dups(strings_view(target@)) {
            lemma_intersect_sets(strings_view(target@), strings_view(other@));
        }
    }
    let ghost tv = strings_view(target@);
    let mut in_common: Vec<String> = Vec::new();
    let mut other_vec: Vec<&String> = Vec::new();
    let mut k: usize = 0;
    while k < other.len()
        invariant
            k <= other@.len(),
            other_vec@.map_values(|s: &String| s@) == strings_view(other@).take(k as int),
        decreases other@.len() - k,
    {
        let ghost before = other_vec@;
        other_vec.push(&other[k]);
        proof {
            assert(other_vec@.drop_last() =~= before);
            assert(other_vec@.map_values(|s: &String| s@) =~= before.map_values(|s: &String| s@).push(other@[k as int]@));
            assert(other_vec@.map_values(|s: &String| s@) =~= strings_view(other@).take(k + 1));
        }
        k = k + 1;
    }
    assert(strings_view(other@).take(other@.len() as int) =~= strings_view(other@));
    let mut i: usize = 0;
    assert(tv.skip(0) =~= tv);
    assert(strings_view(in_common@) + intersect_seq(tv, strings_view(other@)) =~= intersect_seq(tv, strings_view(other@)));
    while i < target.len()
        invariant
            i <= target@.len(),
            tv == strings_view(target@),
            strings_view(in_common@) + intersect_seq(
                tv.skip(i as int),
                other_vec@.map_values(|s: &String| s@),
            ) == intersect_seq(tv, strings_view(other@)),
        decreases target@.len() - i,
    {
        let e1 = &target[i];
        let ghost rem = other_vec@.map_values(|s: &String| s@);
        proof {
            lemma_index_of(rem, e1@);
            assert(tv.skip(i as int).drop_first() =~= tv.skip(i + 1));
            assert(tv.skip(i as int)[0] == e1@);
        }
        let mut pos: usize = 0;
        let mut found = false;
        while !found && pos < other_vec.len()
            invariant
                pos <= other_vec@.len(),
                rem == other_vec@.map_values(|s: &String| s@),
                found ==> pos < other_vec@.len() && rem[pos as int] == e1@,
                forall|j: int| 0 <= j < pos ==> rem[j] != e1@,
            decreases other_vec@.len() - pos + (if found { 0int } else { 1int }),
        {
            if crate::text::str_eq(other_vec[pos].as_str(), e1.as_str()) {
                found = true;
            } else {
                pos = pos + 1;
            }
        }
        if found {
            proof {
                assert(rem[pos as int] == e1@);
                assert(index_of(rem, e1@) == pos);
            }
            let ghost before_common = in_common@;
            in_common.push(e1.clone());
            let _ = other_vec.remove(pos);
            proof {
                assert(in_common@.drop_last() =~= before_common);
                assert(strings_view(in_common@) =~= strings_view(before_common).push(e1@));
                assert(other_vec@.map_values(|s: &String| s@) =~= rem.remove(pos as int));
                assert(strings_view(in_common@) + intersect_seq(tv.skip(i + 1), other_vec@.map_values(|s: &String| s@)) =~= strings_view(before_common) + (seq![e1@] + intersect_seq(tv.skip(i + 1), remove_first(rem, e1@))));
            }
        } else {
            assert(!holds(rem, e1@));
        }
        i = i + 1;
    }
    assert(tv.skip(target@.len() as int) =~= Seq::<Seq<char>>::empty());
    assert(strings_view(in_common@) =~= strings_view(in_common@) + Seq::<Seq<char>>::empty());
    in_common
}

/// The module paths left after narrowing by each keyword of `segs` in turn: the paths of the
/// first keyword found in the index, intersected with those of each later keyword found (a
/// keyword missing from the index is skipped; an empty result is seeded anew).
pub open spec fn narrow(exp: Seq<(Seq<char>, Seq<Seq<char>>)>, segs: Seq<Seq<char>>) -> Seq<Seq<char>>
    decreases segs.len(),
{
    if segs.len() == 0 {
        seq![]
    } else {
        let r = narrow(exp, segs.drop_last());
        match lookup(exp, segs.last()) {
            Some(m) => if r.len() == 0 {
                m
            } else {
                intersect_seq(r, m)
            },
            None => r,
        }
    }
}

/// Whether `needle` occurs in `hay`.
pub open spec fn contains_text(hay: Seq<char>, needle: Seq<char>) -> bool {
    exists|i: int| crate::text::occurs_at(hay, needle, i)
}

/// The strings of `s` whose lower-case form contains `q`, in order.
pub open spec fn keep_containing(s: Seq<Seq<char>>, q: Seq<char>) -> Seq<Seq<char>>
    decreases s.len(),
{
    if s.len() == 0 {
        seq![]
    } else {
        let r = keep_containing(s.drop_last(), q);
        if contains_text(lowercase(s.last()), q) {
            r.push(s.last())
        } else {
            r
        }
    }
}

/// The module paths matching `query`: those that use every keyword of the lower-cased query
/// known to the index, and whose lower-case text contains the lower-cased query.
pub open spec fn matching_paths(exp: Seq<(Seq<char>, Seq<Seq<char>>)>, query: Seq<char>) -> Seq<
    Seq<char>,
> {
    let q = lowercase(query);
    keep_containing(narrow(exp, split_seq(q, path_sep())), q)
}

/// `str::contains`: whether `needle` occurs in `hay`.
fn contains_str(hay: &str, needle: &str) -> (r: bool)
    ensures
        r == contains_text(hay@, needle@),
{
    let h = crate::text::chars_of(hay);
    let n = crate::text::chars_of(needle);
    let mut i: usize = 0;
    while i <= h.len() && n.len() <= h.len() - i
        invariant
            h@ == hay@,
            n@ == needle@,
            forall|j: int| 0 <= j < i ==> !crate::text::occurs_at(h@, n@, j),
        decreases h@.len() + 1 - i,
    {
        proof {
            if n@.len() == 0 {
                assert(h@.subrange(i as int, i as int) =~= n@);
            }
        }
        if crate::text::matches_at(&h, &n, i) {
            return true;
        }
        i = i + 1;
    }
    assert forall|j: int| !crate::text::occurs_at(h@, n@, j) by {
        if 0 <= j && j < i {
        }
    }
    false
}

/// Returns the module paths which contain all the provided path segments.
pub fn get_all_matching_paths(query: String, module_expansions: &Vec<(String, Vec<String>)>) -> (r: Vec<String>)
    ensures
        strings_view(r@) == matching_paths(expansions_view(module_expansions@), query@),
{
    let ghost exp = expansions_view(module_expansions@);
    let query_lower = to_lowercase(query.as_str());
    proof {
        reveal_strlit("::");
        assert("::"@ =~= path_sep());
    }
    let path_segments = crate::text::split_str(query_lower.as_str(), "::");
    let ghost segs = path_segments@.map_values(|p: String| p@);
    let mut result: Vec<String> = Vec::new();
    let mut i: usize = 0;
    assert(strings_view(result@) =~= narrow(exp, segs.take(0)));
    while i < path_segments.len()
        invariant
            i <= path_segments@.len(),
            segs == path_segments@.map_values(|p: String| p@),
            exp == expansions_view(module_expansions@),
            strings_view(result@) == narrow(exp, segs.take(i as int)),
        decreases path_segments@.len() - i,
    {
        let segment = &path_segments[i];
        proof {
            assert(segs.take(i + 1).drop_last() =~= segs.take(i as int));
            assert(segs.take(i + 1).last() == segment@);
            crate::assoc::lemma_key_index(exp, segment@);
            crate::assoc::lemma_key_index_same_keys(exp, pairs_view(module_expansions@), segment@);
        }
        match find_key(module_expansions, segment.as_str()) {
            Some(j) => {
                let matches = &module_expansions[j].1;
                if result.len() == 0 {
                    let mut copy: Vec<String> = Vec::new();
                    let mut k: usize = 0;
                    while k < matches.len()
                        invariant
                            k <= matches@.len(),
                            strings_view(copy@) == strings_view(matches@).take(k as int),
                        decreases matches@.len() - k,
                    {
                        let ghost before = copy@;
                        copy.push(matches[k].clone());
                        proof {
                            assert(copy@.drop_last() =~= before);
                            assert(strings_view(copy@) =~= strings_view(before).push(matches@[k as int]@));
                            assert(strings_view(copy@) =~= strings_view(matches@).take(k + 1));
                        }
                        k = k + 1;
                    }
                    assert(strings_view(matches@).take(matches@.len() as int) =~= strings_view(matches@));
                    result = copy;
                } else {
                    result = intersect(result, matches);
                }
            },
            None => {},
        }
        i = i + 1;
    }
    assert(segs.take(path_segments@.len() as int) =~= segs);
    let ghost narrowed = strings_view(result@);
    let mut kept: Vec<String> = Vec::new();
    let mut k: usize = 0;
    while k < result.len()
        invariant
            k <= result@.len(),
            narrowed == strings_view(result@),
            query_lower@ == lowercase(query@),
            strings_view(kept@) == keep_containing(narrowed.take(k as int), query_lower@),
        decreases result@.len() - k,
    {
        let lower = to_lowercase(result[k].as_str());
        let ghost before = kept@;
        proof {
            assert(narrowed.take(k + 1).drop_last() =~= narrowed.take(k as int));
            assert(narrowed.take(k + 1).last() == result@[k as int]@);
        }
        if contains_str(lower.as_str(), query_lower.as_str()) {
            kept.push(result[k].clone());
            proof {
                assert(kept@.drop_last() =~= before);
                assert(strings_view(kept@) =~= strings_view(before).push(result@[k as int]@));
            }
        }
        k = k + 1;
    }
    assert(narrowed.take(result@.len() as int) =~= narrowed);
    kept
}

/// The position of the newest version whose docset holds an entry under `key`: among those,
/// the first with the largest version hash; -1 where no version holds one.
pub open spec fn latest_index(vs: Seq<(Seq<char>, Docset)>, key: Seq<char>) -> int
    decreases vs.len(),
{
    if vs.len() == 0 {
        -1
    } else {
        let b = latest_index(vs.drop_last(), key);
        if lookup(vs.last().1.entries(), key) is Some && (b < 0 || version_hash(vs.last().0)
            > version_hash(vs[b].0)) {
            vs.len() - 1
        } else {
            b
        }
    }
}

proof fn lemma_latest_index_range(vs: Seq<(Seq<char>, Docset)>, key: Seq<char>)
    ensures
        -1 <= latest_index(vs, key) < vs.len(),
        latest_index(vs, key) >= 0 ==> lookup(vs[latest_index(vs, key)].1.entries(), key) is Some,
    decreases vs.len(),
{
    if vs.len() > 0 {
        lemma_latest_index_range(vs.drop_last(), key);
    }
}

/// Whether some entry of `docset` is filed under `key`.
fn has_entry(docset: &Docset, key: &str) -> (r: bool)
    ensures
        r == lookup(docset.entries(), key@) is Some,
{
    match find_key(&docset.documents, key) {
        Some(_) => true,
        None => false,
    }
}

/// The position of the newest of `versions` that holds an entry under `key`.
fn latest_version(versions: &Vec<(String, Docset)>, key: &str) -> (r: Option<usize>)
    requires
        forall|j: int| 0 <= j < versions@.len() ==> version_hashable(#[trigger] versions@[j].0@),
    ensures
        r is None <==> latest_index(versions_view(versions@), key@) < 0,
        r matches Some(i) ==> i as int == latest_index(versions_view(versions@), key@),
{
    let ghost vs = versions_view(versions@);
    let mut max: Option<u64> = None;
    let mut res: Option<usize> = None;
    let mut i: usize = 0;
    while i < versions.len()
        invariant
            i <= versions@.len(),
            vs == versions_view(versions@),
            forall|j: int| 0 <= j < versions@.len() ==> version_hashable(#[trigger] versions@[j].0@),
            -1 <= latest_index(vs.take(i as int), key@) < i,
            res is None <==> latest_index(vs.take(i as int), key@) < 0,
            res is None <==> max is None,
            res matches Some(k) ==> k as int == latest_index(vs.take(i as int), key@),
            res matches Some(k) ==> max matches Some(m) && m as int == version_hash(vs[k as int].0),
        decreases versions@.len() - i,
    {
        proof {
            lemma_latest_index_range(vs.take(i as int), key@);
            assert(vs.take(i + 1).drop_last() =~= vs.take(i as int));
            assert(vs.take(i + 1).last() == vs[i as int]);
            assert(versions@[i as int].0@ == vs[i as int].0);
        }
        if has_entry(&versions[i].1, key) {
            let hash = version_number_hash(versions[i].0.as_str());
            let newer = match max {
                None => true,
                Some(m) => hash > m,
            };
            if newer {
                res = Some(i);
                max = Some(hash);
            }
        }
        proof {
            match res {
                Some(k) => {
                    assert(vs.take(i + 1)[k as int] == vs[k as int]);
                },
                None => {},
            }
        }
        i = i + 1;
    }
    assert(vs.take(versions@.len() as int) =~= vs);
    res
}

/// The document a fully resolved, lower-case module path text refers to: in the crate named by
/// its first segment, the entry filed under the rest of the path in the newest version that
/// holds one.
pub open spec fn retrieved(crates: Seq<(Seq<char>, Seq<(Seq<char>, Docset)>)>, mat: Seq<char>) -> Option<
    StoreLocation,
> {
    let parts = split_seq(mat, path_sep());
    let key = path_text(parts.drop_first());
    match lookup(crates, parts[0]) {
        None => None,
        Some(vs) => {
            let b = latest_index(vs, key);
            if b < 0 {
                None
            } else {
                lookup(vs[b].1.entries(), key)
            }
        },
    }
}

/// The documents the module path texts in `mats` refer to, in order, skipping those that refer
/// to none.
pub open spec fn found_locations(
    crates: Seq<(Seq<char>, Seq<(Seq<char>, Docset)>)>,
    mats: Seq<Seq<char>>,
) -> Seq<StoreLocation>
    decreases mats.len(),
{
    if mats.len() == 0 {
        seq![]
    } else {
        let r = found_locations(crates, mats.drop_last());
        match retrieved(crates, mats.last()) {
            Some(l) => r.push(l),
            None => r,
        }
    }
}

/// How far a location's module path text is from the query.
pub open spec fn distance(query: Seq<char>, l: StoreLocation) -> int {
    levenshtein_distance(query, path_text(l.mod_path@)) as int
}

/// `sorted` with `x` inserted after every element no farther from the query than `x`.
pub open spec fn insert_by_distance(query: Seq<char>, sorted: Seq<StoreLocation>, x: StoreLocation) -> Seq<
    StoreLocation,
>
    decreases sorted.len(),
{
    if sorted.len() == 0 {
        seq![x]
    } else if distance(query, x) < distance(query, sorted.last()) {
        insert_by_distance(query, sorted.drop_last(), x).push(sorted.last())
    } else {
        sorted.push(x)
    }
}

/// `s` stably sorted by distance from the query (`sort_by_key` on the distance).
pub open spec fn sort_by_distance(query: Seq<char>, s: Seq<StoreLocation>) -> Seq<StoreLocation>
    decreases s.len(),
{
    if s.len() == 0 {
        seq![]
    } else {
        insert_by_distance(query, sort_by_distance(query, s.drop_last()), s.last())
    }
}

/// The results of a search: the documents of the matching module paths, nearest to the query
/// first.
pub open spec fn search_results(
    crates: Seq<(Seq<char>, Seq<(Seq<char>, Docset)>)>,
    exp: Seq<(Seq<char>, Seq<Seq<char>>)>,
    query: Seq<char>,
) -> Seq<StoreLocation> {
    sort_by_distance(query, found_locations(crates, matching_paths(exp, query)))
}

/// The dereferenced values of a list of references.
pub open spec fn derefs(v: Seq<&StoreLocation>) -> Seq<StoreLocation> {
    v.map_values(|l: &StoreLocation| *l)
}

impl Store {
    /// Every version in the store can be ordered.
    pub open spec fn well_versioned(&self) -> bool {
        all_versions_hashable(self.crates())
    }

    /// Whether every version in the store can be ordered (`well_versioned`), checked.
    pub fn is_well_versioned(&self) -> (r: bool)
        ensures
            r == self.well_versioned(),
    {
        let ghost crates = self.crates();
        let mut c: usize = 0;
        while c < self.items.len()
            invariant
                c <= self.items@.len(),
                crates == self.crates(),
                crates.len() == self.items@.len(),
                forall|i: int, j: int|
                    0 <= i < c && 0 <= j < crates[i].1.len() ==> version_hashable(#[trigger] crates[i].1[j].0),
            decreases self.items@.len() - c,
        {
            let versions = &self.items[c].1;
            let mut v: usize = 0;
            while v < versions.len()
                invariant
                    c < self.items@.len(),
                    v <= versions@.len(),
                    versions == &self.items@[c as int].1,
                    crates == self.crates(),
                    crates.len() == self.items@.len(),
                    crates[c as int].1 == versions_view(versions@),
                    forall|i: int, j: int|
                        0 <= i < c && 0 <= j < crates[i].1.len() ==> version_hashable(#[trigger] crates[i].1[j].0),
                    forall|j: int| 0 <= j < v ==> version_hashable(#[trigger] crates[c as int].1[j].0),
                decreases versions@.len() - v,
            {
                if !crate::version::is_version_hashable(versions[v].0.as_str()) {
                    assert(crates[c as int].1[v as int].0 == versions@[v as int].0@);
                    return false;
                }
                assert(crates[c as int].1[v as int].0 == versions@[v as int].0@);
                v = v + 1;
            }
            c = c + 1;
        }
        true
    }

    /// Retrieves the document filed under the rest of the path in the newest version of crate
    /// `krate_name` that holds one.
    fn latest_doc_with_match(&self, krate_name: &str, path_in_krate: ModPath) -> (r: Option<&StoreLocation>)
        requires
            self.well_versioned(),
            path_in_krate@.len() >= 1,
        ensures
            ({
                let key = path_text(path_in_krate@.drop_first());
                let expected = match lookup(self.crates(), krate_name@) {
                    None => None,
                    Some(vs) => {
                        let b = latest_index(vs, key);
                        if b < 0 {
                            None
                        } else {
                            lookup(vs[b].1.entries(), key)
                        }
                    },
                };
                &&& r matches Some(l) ==> expected == Some(*l)
                &&& r is None ==> expected is None
            }),
    {
        let ghost crates = self.crates();
        proof {
            crate::assoc::lemma_key_index(crates, krate_name@);
            crate::assoc::lemma_key_index_same_keys(crates, pairs_view(self.items@), krate_name@);
        }
        let path = path_in_krate.tail().to_string();
        assert(path@ == path_text(path_in_krate@.drop_first()));
        match find_key(&self.items, krate_name) {
            Some(c) => {
                let krate_versions = &self.items[c].1;
                assert(versions_view(krate_versions@) == crates[c as int].1);
                assert forall|j: int| 0 <= j < krate_versions@.len() implies version_hashable(#[trigger] krate_versions@[j].0@) by {
                    assert(crates[c as int].1[j].0 == krate_versions@[j].0@);
                }
                proof {
                    lemma_latest_index_range(versions_view(krate_versions@), path@);
                }
                match latest_version(krate_versions, path.as_str()) {
                    Some(v) => {
                        let docset = &krate_versions[v].1;
                        assert(versions_view(krate_versions@)[v as int].1 == *docset);
                        let ghost entries = docset.entries();
                        proof {
                            crate::assoc::lemma_key_index(entries, path@);
                        }
                        match find_key(&docset.documents, path.as_str()) {
                            Some(d) => {
                                assert(entries[d as int].1 == docset.documents@[d as int].1);
                                Some(&docset.documents[d].1)
                            },
                            None => None,
                        }
                    },
                    None => None,
                }
            },
            None => None,
        }
    }

    /// The document the fully resolved module path text `mat` refers to.
    fn retrieve_match(&self, mat: String) -> (r: Option<&StoreLocation>)
        requires
            self.well_versioned(),
        ensures
            r matches Some(l) ==> retrieved(self.crates(), mat@) == Some(*l),
            r is None ==> retrieved(self.crates(), mat@) is None,
    {
        proof {
            reveal_strlit("::");
            assert("::"@ =~= path_sep());
            crate::text::lemma_split_nonempty(mat@, path_sep());
        }
        let pieces = crate::text::split_str(mat.as_str(), "::");
        let krate_name = pieces[0].clone();
        assert(krate_name@ == split_seq(mat@, path_sep())[0]);
        let path_in_krate = ModPath::from_string(mat);
        self.latest_doc_with_match(krate_name.as_str(), path_in_krate)
    }

    /// The locations of every document in the store: crate by crate, version by version, in
    /// the order they were added.
    pub fn all_locations(&self) -> (r: Vec<StoreLocation>)
        ensures
            r@.len() == all_locs(self.crates()).len(),
            forall|i: int| 0 <= i < r@.len() ==> same_location(#[trigger] r@[i], all_locs(self.crates())[i]),
    {
        let ghost crates = self.crates();
        let mut results: Vec<StoreLocation> = Vec::new();
        let mut c: usize = 0;
        while c < self.items.len()
            invariant
                c <= self.items@.len(),
                crates == self.crates(),
                results@.len() == all_locs(crates.take(c as int)).len(),
                forall|i: int| 0 <= i < results@.len() ==> same_location(#[trigger] results@[i], all_locs(crates.take(c as int))[i]),
            decreases self.items@.len() - c,
        {
            let versions = &self.items[c].1;
            assert(versions_view(versions@) == crates[c as int].1);
            let ghost base = all_locs(crates.take(c as int));
            let ghost vs = crates[c as int].1;
            let mut v: usize = 0;
            while v < versions.len()
                invariant
                    v <= versions@.len(),
                    vs == versions_view(versions@),
                    results@.len() == base.len() + version_locs(vs.take(v as int)).len(),
                    forall|i: int| 0 <= i < results@.len() ==> same_location(#[trigger] results@[i], (base + version_locs(vs.take(v as int)))[i]),
                decreases versions@.len() - v,
            {
                let docs = &versions[v].1.documents;
                let ghost before_v = base + version_locs(vs.take(v as int));
                let mut d: usize = 0;
                while d < docs.len()
                    invariant
                        d <= docs@.len(),
                        results@.len() == before_v.len() + d,
                        forall|i: int| 0 <= i < results@.len() ==> same_location(#[trigger] results@[i], (before_v + docs@.take(d as int).map_values(|e: (String, StoreLocation)| e.1))[i]),
                    decreases docs@.len() - d,
                {
                    let loc = docs[d].1.clone();
                    let ghost before = results@;
                    results.push(loc);
                    proof {
                        let ext = before_v + docs@.take(d + 1).map_values(|e: (String, StoreLocation)| e.1);
                        assert(ext =~= (before_v + docs@.take(d as int).map_values(|e: (String, StoreLocation)| e.1)).push(docs@[d as int].1));
                        assert forall|i: int| 0 <= i < results@.len() implies same_location(#[trigger] results@[i], ext[i]) by {
                            if i < before.len() {
                                assert(results@[i] == before[i]);
                            }
                        }
                    }
                    d = d + 1;
                }
                proof {
                    assert(vs.take(v + 1).drop_last() =~= vs.take(v as int));
                    assert(vs.take(v + 1).last() == vs[v as int]);
                    assert(vs[v as int].1.entries().map_values(|e: (Seq<char>, StoreLocation)| e.1) =~= docs@.take(docs@.len() as int).map_values(|e: (String, StoreLocation)| e.1));
                    assert(base + version_locs(vs.take(v + 1)) =~= before_v + docs@.take(docs@.len() as int).map_values(|e: (String, StoreLocation)| e.1));
                }
                v = v + 1;
            }
            proof {
                assert(vs.take(versions@.len() as int) =~= vs);
                assert(crates.take(c + 1).drop_last() =~= crates.take(c as int));
                assert(crates.take(c + 1).last() == crates[c as int]);
            }
            c = c + 1;
        }
        assert(crates.take(self.items@.len() as int) =~= crates);
        results
    }

    /// Searches the store for a keyword and returns the documents whose module paths match,
    /// nearest to the query first.
    pub fn lookup_name(&self, query: &str) -> (r: Vec<&StoreLocation>)
        requires
            self.well_versioned(),
        ensures
            derefs(r@) == search_results(self.crates(), self.expansions(), query@),
    {
        let matches = get_all_matching_paths(query.to_owned(), &self.module_expansions);
        let ghost mats = strings_view(matches@);
        let mut results: Vec<&StoreLocation> = Vec::new();
        let mut i: usize = 0;
        while i < matches.len()
            invariant
                i <= matches@.len(),
                mats == strings_view(matches@),
                self.well_versioned(),
                derefs(results@) == found_locations(self.crates(), mats.take(i as int)),
            decreases matches@.len() - i,
        {
            proof {
                assert(mats.take(i + 1).drop_last() =~= mats.take(i as int));
                assert(mats.take(i + 1).last() == matches@[i as int]@);
            }
            let ghost before = results@;
            match self.retrieve_match(matches[i].clone()) {
                Some(loc) => {
                    results.push(loc);
                    assert(results@.drop_last() =~= before);
                    assert(derefs(results@) =~= derefs(before).push(*loc));
                },
                None => {},
            }
            i = i + 1;
        }
        assert(mats.take(matches@.len() as int) =~= mats);
        sort_results(query, results)
    }
}

/// `found`, stably sorted by the distance of each location's module path text from `query`.
fn sort_results<'a>(query: &str, found: Vec<&'a StoreLocation>) -> (r: Vec<&'a StoreLocation>)
    ensures
        derefs(r@) == sort_by_distance(query@, derefs(found@)),
{
    let ghost input = derefs(found@);
    let mut sorted: Vec<&'a StoreLocation> = Vec::new();
    let mut keys: Vec<usize> = Vec::new();
    let mut i: usize = 0;
    while i < found.len()
        invariant
            i <= found@.len(),
            input == derefs(found@),
            keys@.len() == sorted@.len(),
            forall|j: int| 0 <= j < keys@.len() ==> keys@[j] as int == distance(query@, *sorted@[j]),
            derefs(sorted@) == sort_by_distance(query@, input.take(i as int)),
        decreases found@.len() - i,
    {
        let x = found[i];
        let text = x.mod_path.to_string();
        let k = levenshtein(query, text.as_str());
        let ghost s = derefs(sorted@);
        let mut j = sorted.len();
        assert(s.take(j as int) =~= s);
        assert(s.skip(j as int) =~= Seq::<StoreLocation>::empty());
        assert(insert_by_distance(query@, s, *x) =~= insert_by_distance(query@, s.take(j as int), *x) + s.skip(j as int));
        while j > 0 && keys[j - 1] > k
            invariant
                j <= sorted@.len(),
                keys@.len() == sorted@.len(),
                s == derefs(sorted@),
                k as int == distance(query@, *x),
                forall|t: int| 0 <= t < keys@.len() ==> keys@[t] as int == distance(query@, *sorted@[t]),
                insert_by_distance(query@, s, *x) == insert_by_distance(query@, s.take(j as int), *x) + s.skip(j as int),
            decreases j,
        {
            proof {
                let p = s.take(j as int);
                assert(p.drop_last() =~= s.take(j - 1));
                assert(p.last() == s[j - 1]);
                assert(s.skip(j - 1) =~= seq![s[j - 1]] + s.skip(j as int));
                assert(insert_by_distance(query@, p, *x) == insert_by_distance(query@, s.take(j - 1), *x).push(s[j - 1]));
                assert(insert_by_distance(query@, s.take(j - 1), *x).push(s[j - 1]) + s.skip(j as int) =~= insert_by_distance(query@, s.take(j - 1), *x) + s.skip(j - 1));
            }
            j = j - 1;
        }
        proof {
            let p = s.take(j as int);
            if j > 0 {
                assert(p.last() == s[j - 1]);
                assert(insert_by_distance(query@, p, *x) == p.push(*x));
            } else {
                assert(insert_by_distance(query@, p, *x) == seq![*x]);
            }
        }
        let ghost before = sorted@;
        sorted.insert(j, x);
        keys.insert(j, k);
        proof {
            assert(derefs(sorted@) =~= s.take(j as int).push(*x) + s.skip(j as int));
            assert(input.take(i + 1).drop_last() =~= input.take(i as int));
            assert(input.take(i + 1).last() == *x);
            assert forall|t: int| 0 <= t < keys@.len() implies keys@[t] as int == distance(query@, *sorted@[t]) by {
                if t < j {
                    assert(sorted@[t] == before[t]);
                } else if t > j {
                    assert(sorted@[t] == before[t - 1]);
                }
            }
        }
        i = i + 1;
    }
    assert(input.take(found@.len() as int) =~= input);
    sorted
}

/// Whether `s` is ordered nearest to the query first.
pub open spec fn nearest_first(query: Seq<char>, s: Seq<StoreLocation>) -> bool {
    forall|i: int, j: int| 0 <= i <= j < s.len() ==> distance(query, #[trigger] s[i]) <= distance(
        query,
        #[trigger] s[j],
    )
}

proof fn lemma_insert_by_distance(query: Seq<char>, sorted: Seq<StoreLocation>, x: StoreLocation)
    requires
        nearest_first(query, sorted),
    ensures
        nearest_first(query, insert_by_distance(query, sorted, x)),
        insert_by_distance(query, sorted, x).to_multiset() == sorted.to_multiset().insert(x),
    decreases sorted.len(),
{
    broadcast use vstd::seq_lib::group_to_multiset_ensures;

    let r = insert_by_distance(query, sorted, x);
    if sorted.len() == 0 {
        assert(seq![x] =~= Seq::<StoreLocation>::empty().push(x));
    } else if distance(query, x) < distance(query, sorted.last()) {
        let p = sorted.drop_last();
        assert(nearest_first(query, p));
        lemma_insert_by_distance(query, p, x);
        let q = insert_by_distance(query, p, x);
        assert(sorted =~= p.push(sorted.last()));
        assert forall|i: int, j: int| 0 <= i <= j < r.len() implies distance(query, #[trigger] r[i])
            <= distance(query, #[trigger] r[j]) by {
            if j == r.len() - 1 && i < j {
                assert(q.to_multiset().count(r[i]) > 0);
                assert(q.contains(r[i]));
                let k = choose|k: int| 0 <= k < q.len() && q[k] == r[i];
                if r[i] != x {
                    assert(p.to_multiset().count(r[i]) > 0);
                    assert(p.contains(r[i]));
                    let m = choose|m: int| 0 <= m < p.len() && p[m] == r[i];
                    assert(sorted[m] == p[m]);
                }
            }
        }
    } else {
        assert forall|i: int, j: int| 0 <= i <= j < r.len() implies distance(query, #[trigger] r[i])
            <= distance(query, #[trigger] r[j]) by {
            if j == r.len() - 1 && i < j {
                assert(r[i] == sorted[i]);
            }
        }
    }
}

/// Stable sorting by distance leaves the results nearest to the query first, and keeps each
/// of them exactly as often as it came.
pub proof fn lemma_sort_by_distance(query: Seq<char>, s: Seq<StoreLocation>)
    ensures
        nearest_first(query, sort_by_distance(query, s)),
        sort_by_distance(query, s).to_multiset() == s.to_multiset(),
    decreases s.len(),
{
    broadcast use vstd::seq_lib::group_to_multiset_ensures;

    if s.len() > 0 {
        lemma_sort_by_distance(query, s.drop_last());
        lemma_insert_by_distance(query, sort_by_distance(query, s.drop_last()), s.last());
        assert(s =~= s.drop_last().push(s.last()));
    }
}

/// The results of a search come nearest to the query first, and they are exactly the documents
/// that the matching module paths refer to, each as often as it is found.
pub proof fn lemma_search_results_ordered(
    crates: Seq<(Seq<char>, Seq<(Seq<char>, Docset)>)>,
    exp: Seq<(Seq<char>, Seq<Seq<char>>)>,
    query: Seq<char>,
)
    ensures
        nearest_first(query, search_results(crates, exp, query)),
        search_results(crates, exp, query).to_multiset() == found_locations(
            crates,
            matching_paths(exp, query),
        ).to_multiset(),
{
    lemma_sort_by_distance(query, found_locations(crates, matching_paths(exp, query)));
}

/// Searching ignores case: two queries that agree once lower-cased match the same module paths
/// and find the same documents (only their order, by distance from the query as typed, can
/// differ).
pub proof fn lemma_search_ignores_case(
    crates: Seq<(Seq<char>, Seq<(Seq<char>, Docset)>)>,
    exp: Seq<(Seq<char>, Seq<Seq<char>>)>,
    q1: Seq<char>,
    q2: Seq<char>,
)
    requires
        lowercase(q1) == lowercase(q2),
    ensures
        matching_paths(exp, q1) == matching_paths(exp, q2),
        search_results(crates, exp, q1).to_multiset() == search_results(crates, exp, q2).to_multiset(),
{
    lemma_search_results_ordered(crates, exp, q1);
    lemma_search_results_ordered(crates, exp, q2);
}

/// Adding a docset files it under its crate and version, where a lookup finds it again; the
/// other versions of that crate, and the other crates, keep theirs.
pub proof fn lemma_docset_read_back(
    crates: Seq<(Seq<char>, Seq<(Seq<char>, Docset)>)>,
    name: Seq<char>,
    version: Seq<char>,
    docset: Docset,
    other_name: Seq<char>,
    other_version: Seq<char>,
)
    ensures
        ({
            let before = match lookup(crates, name) {
                Some(v) => v,
                None => Seq::<(Seq<char>, Docset)>::empty(),
            };
            let after = upsert(crates, name, upsert(before, version, docset));
            &&& lookup(after, name) == Some(upsert(before, version, docset))
            &&& lookup(upsert(before, version, docset), version) == Some(docset)
            &&& other_version != version ==> lookup(upsert(before, version, docset), other_version)
                == lookup(before, other_version)
            &&& other_name != name ==> lookup(after, other_name) == lookup(crates, other_name)
        }),
{
    let before = match lookup(crates, name) {
        Some(v) => v,
        None => Seq::<(Seq<char>, Docset)>::empty(),
    };
    crate::assoc::lemma_lookup_upsert(crates, name, upsert(before, version, docset), other_name);
    crate::assoc::lemma_lookup_upsert(before, version, docset, other_version);
}

/// A search finds an item wherever some version of its crate holds it: the version retrieval
/// picks holds the item, and no version holding it is newer.
pub proof fn lemma_newest_holder(vs: Seq<(Seq<char>, Docset)>, key: Seq<char>)
    ensures
        latest_index(vs, key) >= 0 <==> exists|j: int|
            0 <= j < vs.len() && #[trigger] lookup(vs[j].1.entries(), key) is Some,
        latest_index(vs, key) >= 0 ==> lookup(vs[latest_index(vs, key)].1.entries(), key) is Some,
        latest_index(vs, key) >= 0 ==> forall|j: int|
            0 <= j < vs.len() && #[trigger] lookup(vs[j].1.entries(), key) is Some ==> version_hash(
                vs[j].0,
            ) <= version_hash(vs[latest_index(vs, key)].0),
    decreases vs.len(),
{
    lemma_latest_index_range(vs, key);
    if vs.len() > 0 {
        let p = vs.drop_last();
        lemma_newest_holder(p, key);
        lemma_latest_index_range(p, key);
        assert forall|j: int| 0 <= j < p.len() implies #[trigger] p[j] == vs[j] by {}
        if latest_index(vs, key) >= 0 {
            assert forall|j: int| 0 <= j < vs.len() && #[trigger] lookup(vs[j].1.entries(), key) is Some
                implies version_hash(vs[j].0) <= version_hash(vs[latest_index(vs, key)].0) by {
                if j < vs.len() - 1 {
                    assert(p[j] == vs[j]);
                    assert(lookup(p[j].1.entries(), key) is Some);
                }
            }
        }
        if exists|j: int| 0 <= j < vs.len() && #[trigger] lookup(vs[j].1.entries(), key) is Some {
            let j = choose|j: int| 0 <= j < vs.len() && #[trigger] lookup(vs[j].1.entries(), key) is Some;
            if j < vs.len() - 1 {
                assert(p[j] == vs[j]);
                assert(lookup(p[j].1.entries(), key) is Some);
            }
        }
        if latest_index(p, key) >= 0 {
            let b = latest_index(p, key);
            assert(p[b] == vs[b]);
        }
    }
}

} // verus!
