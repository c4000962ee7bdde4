//! Module paths and crate identities: how documentation items are named and located.

use vstd::prelude::*;

use crate::text::{join_seq, join_strs, split_seq, split_str};

verus! {

/// The separator between the segments of a module path, `::`.
pub open spec fn path_sep() -> Seq<char> {
    seq![':', ':']
}

/// A single portion of a full module path.
#[derive(Debug)]
pub struct PathSegment {
    /// The identifier of this path segment.
    pub identifier: String,
}

impl View for PathSegment {
    type V = Seq<char>;

    open spec fn view(&self) -> Seq<char> {
        self.identifier@
    }
}

impl Clone for PathSegment {
    fn clone(&self) -> (r: Self)
        ensures
            r@ == self@,
    {
        PathSegment { identifier: self.identifier.clone() }
    }
}

/// A module path, like `std::fmt`: the sequence of its segments.
#[derive(Debug)]
pub struct ModPath(pub Vec<PathSegment>);

/// The identifiers of a list of segments.
pub open spec fn segment_views(v: Seq<PathSegment>) -> Seq<Seq<char>> {
    v.map_values(|s: PathSegment| s@)
}

impl View for ModPath {
    type V = Seq<Seq<char>>;

    open spec fn view(&self) -> Seq<Seq<char>> {
        segment_views(self.0@)
    }
}

/// The on-disk directory of a module path: every segment followed by `/`.
pub open spec fn filepath_of(p: Seq<Seq<char>>) -> Seq<char>
    decreases p.len(),
{
    if p.len() == 0 {
        seq![]
    } else {
        filepath_of(p.drop_last()) + p.last() + seq!['/']
    }
}

/// Copies of the segments `v[from..]`, appended to `dst`.
fn extend_segments(dst: &mut Vec<PathSegment>, v: &Vec<PathSegment>, from: usize)
    requires
        from <= v@.len(),
    ensures
        segment_views(final(dst)@) == segment_views(old(dst)@) + segment_views(v@).skip(from as int),
{
    let mut i = from;
    let ghost start = segment_views(old(dst)@);
    while i < v.len()
        invariant
            from <= i <= v@.len(),
            segment_views(dst@) == start + segment_views(v@).subrange(from as int, i as int),
        decreases v@.len() - i,
    {
        let seg = v[i].clone();
        let ghost before = dst@;
        dst.push(seg);
        proof {
            assert(dst@.drop_last() =~= before);
            assert(segment_views(dst@) =~= segment_views(before).push(seg@));
            assert(start + segment_views(v@).subrange(from as int, i + 1) =~= (start + segment_views(v@).subrange(from as int, i as int)).push(v@[i as int]@));
            assert(segment_views(v@).subrange(from as int, i + 1) =~= segment_views(v@).subrange(
                from as int,
                i as int,
            ).push(v@[i as int]@));
        }
        i = i + 1;
    }
    assert(segment_views(v@).subrange(from as int, v@.len() as int) =~= segment_views(v@).skip(
        from as int,
    ));
}

impl Clone for ModPath {
    fn clone(&self) -> (r: Self)
        ensures
            r@ == self@,
    {
        let mut v: Vec<PathSegment> = Vec::new();
        extend_segments(&mut v, &self.0, 0);
        assert(segment_views(v@) =~= segment_views(self.0@));
        ModPath(v)
    }
}

impl ModPath {
    /// The empty path.
    pub fn new() -> (r: ModPath)
        ensures
            r@ == Seq::<Seq<char>>::empty(),
    {
        ModPath(Vec::new())
    }

    /// Appends a segment.
    pub fn push(&mut self, seg: PathSegment)
        ensures
            final(self)@ == old(self)@.push(seg@),
    {
        self.0.push(seg);
        assert(segment_views(self.0@) =~= segment_views(old(self).0@).push(seg@));
    }

    /// Appends a segment with the given identifier.
    pub fn push_string(&mut self, s: String)
        ensures
            final(self)@ == old(self)@.push(s@),
    {
        self.push(PathSegment { identifier: s });
    }

    /// Removes the final segment, if there is one.
    pub fn pop(&mut self)
        ensures
            final(self)@ == (if old(self)@.len() == 0 {
                old(self)@
            } else {
                old(self)@.drop_last()
            }),
    {
        self.0.pop();
        assert(segment_views(self.0@) =~= (if old(self)@.len() == 0 {
            old(self)@
        } else {
            old(self)@.drop_last()
        }));
    }

    /// All but the final segment of the path; `None` when that would be empty.
    pub fn parent(&self) -> (r: Option<ModPath>)
        ensures
            r is Some <==> self@.len() > 1,
            r matches Some(p) ==> p@ == self@.drop_last(),
    {
        let mut n = self.clone();
        n.pop();
        assert(n.0@.len() == n@.len());
        if n.0.len() > 0 {
            Some(n)
        } else {
            None
        }
    }

    /// The final segment of the path.
    pub fn name(&self) -> (r: Option<PathSegment>)
        ensures
            r is Some <==> self@.len() > 0,
            r matches Some(s) ==> s@ == self@.last(),
    {
        let n = self.0.len();
        if n > 0 {
            Some(self.0[n - 1].clone())
        } else {
            None
        }
    }

    /// The first segment of the path.
    pub fn head(&self) -> (r: Option<PathSegment>)
        ensures
            r is Some <==> self@.len() > 0,
            r matches Some(s) ==> s@ == self@[0],
    {
        if self.0.len() > 0 {
            Some(self.0[0].clone())
        } else {
            None
        }
    }

    /// The path without its first segment.
    pub fn tail(&self) -> (r: ModPath)
        requires
            self@.len() >= 1,
        ensures
            r@ == self@.drop_first(),
    {
        let mut v: Vec<PathSegment> = Vec::new();
        extend_segments(&mut v, &self.0, 1);
        assert(segment_views(v@) =~= self@.drop_first());
        ModPath(v)
    }

    /// The segments of `first` followed by those of `other`.
    pub fn join(first: &ModPath, other: &ModPath) -> (r: ModPath)
        ensures
            r@ == first@ + other@,
    {
        let mut result = first.clone();
        extend_segments(&mut result.0, &other.0, 0);
        assert(segment_views(other.0@).skip(0) =~= other@);
        result
    }

    /// The relative directory holding this path's documentation: each segment followed by `/`.
    pub fn to_filepath(&self) -> (r: String)
        ensures
            r@ == filepath_of(self@),
    {
        let mut res = String::new();
        let mut i: usize = 0;
        while i < self.0.len()
            invariant
                i <= self@.len(),
                res@ == filepath_of(self@.take(i as int)),
            decreases self@.len() - i,
        {
            res.append(self.0[i].identifier.as_str());
            res.append("/");
            proof {
                reveal_strlit("/");
                let t = self@.take(i + 1);
                assert(t.drop_last() =~= self@.take(i as int));
            }
            i = i + 1;
        }
        assert(self@.take(self@.len() as int) =~= self@);
        res
    }

    /// The segments of the path, in order.
    pub fn segments(&self) -> (r: &[PathSegment])
        ensures
            segment_views(r@) == self@,
    {
        self.0.as_slice()
    }

    /// The path written with `::` between its segments, as it is displayed.
    pub fn to_string(&self) -> (r: String)
        ensures
            r@ == join_seq(self@, path_sep()),
    {
        let mut ids: Vec<String> = Vec::new();
        let mut i: usize = 0;
        while i < self.0.len()
            invariant
                i <= self@.len(),
                ids@.map_values(|p: String| p@) == self@.take(i as int),
            decreases self@.len() - i,
        {
            let ghost before = ids@;
            ids.push(self.0[i].identifier.clone());
            proof {
                assert(ids@.drop_last() =~= before);
                assert(ids@.map_values(|p: String| p@) =~= before.map_values(|p: String| p@).push(self@[i as int]));
                assert(ids@.map_values(|p: String| p@) =~= self@.take(i + 1));
            }
            i = i + 1;
        }
        assert(self@.take(self@.len() as int) =~= self@);
        proof {
            reveal_strlit("::");
            assert("::"@ =~= path_sep());
        }
        join_strs(&ids, "::")
    }

    /// Parses a path written with `::` between its segments.
    pub fn from_string(s: String) -> (r: ModPath)
        ensures
            r@ == split_seq(s@, path_sep()),
    {
        proof {
            reveal_strlit("::");
            assert("::"@ =~= path_sep());
        }
        let parts = split_str(s.as_str(), "::");
        let mut v: Vec<PathSegment> = Vec::new();
        let mut i: usize = 0;
        while i < parts.len()
            invariant
                i <= parts@.len(),
                segment_views(v@) == parts@.map_values(|p: String| p@).take(i as int),
            decreases parts@.len() - i,
        {
            let ghost before = v@;
            v.push(PathSegment { identifier: parts[i].clone() });
            proof {
                assert(v@.drop_last() =~= before);
                assert(segment_views(v@) =~= segment_views(before).push(parts@[i as int]@));
                assert(segment_views(v@) =~= parts@.map_values(|p: String| p@).take(i + 1));
            }
            i = i + 1;
        }
        assert(parts@.map_values(|p: String| p@).take(parts@.len() as int) =~= parts@.map_values(
            |p: String| p@,
        ));
        ModPath(v)
    }
}

/// Reading a path from its text and writing it back out gives the same text.
pub proof fn lemma_path_text_round_trip(s: Seq<char>)
    ensures
        join_seq(split_seq(s, path_sep()), path_sep()) == s,
{
    crate::text::lemma_join_split(s, path_sep());
}

/// Popping a segment undoes pushing it.
pub proof fn lemma_pop_undoes_push(p: Seq<Seq<char>>, seg: Seq<char>)
    ensures
        ({
            let pushed = p.push(seg);
            (if pushed.len() == 0 {
                pushed
            } else {
                pushed.drop_last()
            }) == p
        }),
{
    assert(p.push(seg).drop_last() =~= p);
}

/// A path of two or more segments is its parent followed by its name.
pub proof fn lemma_parent_then_name(p: Seq<Seq<char>>)
    requires
        p.len() > 1,
    ensures
        p.drop_last().push(p.last()) == p,
        (seq![p[0]] + p.drop_first()) == p,
{
    assert(p.drop_last().push(p.last()) =~= p);
    assert(seq![p[0]] + p.drop_first() =~= p);
}


/// The name and version of a crate, used to build its documentation directory.
#[derive(Debug)]
pub struct CrateInfo {
    pub name: String,
    pub version: String,
    pub lib_path: Option<String>,
}

impl Clone for CrateInfo {
    fn clone(&self) -> (r: Self)
        ensures
            r.name@ == self.name@,
            r.version@ == self.version@,
            r.lib_path == self.lib_path,
    {
        let lib_path = match &self.lib_path {
            Some(p) => Some(p.clone()),
            None => None,
        };
        CrateInfo { name: self.name.clone(), version: self.version.clone(), lib_path }
    }
}

/// `name-version`: the directory name of a crate's documentation, and its display form.
pub open spec fn crate_prefix(name: Seq<char>, version: Seq<char>) -> Seq<char> {
    name + seq!['-'] + version
}

impl CrateInfo {
    /// The directory name of this crate's documentation, `name-version`.
    pub fn to_path_prefix(&self) -> (r: String)
        ensures
            r@ == crate_prefix(self.name@, self.version@),
    {
        self.to_string()
    }

    /// The crate written as `name-version`.
    pub fn to_string(&self) -> (r: String)
        ensures
            r@ == crate_prefix(self.name@, self.version@),
    {
        let mut s = self.name.clone();
        s.append("-");
        s.append(self.version.as_str());
        proof {
            reveal_strlit("-");
        }
        s
    }
}

/// The documentation comments attached to an item, in order.
#[derive(Debug)]
pub struct Attributes {
    pub doc_strings: Vec<String>,
}

impl Attributes {
    /// No documentation comments.
    pub fn new() -> (r: Attributes)
        ensures
            r.doc_strings@.len() == 0,
    {
        Attributes { doc_strings: Vec::new() }
    }

    /// The first documentation comment, if there is one.
    pub fn doc_value(&self) -> (r: Option<&str>)
        ensures
            r is Some <==> self.doc_strings@.len() > 0,
            r matches Some(v) ==> v@ == self.doc_strings@[0]@,
    {
        if self.doc_strings.len() > 0 {
            Some(self.doc_strings[0].as_str())
        } else {
            None
        }
    }
}

/// Where a function was found.
#[derive(PartialEq, Eq, Structural, Clone, Copy, Debug)]
pub enum FnKind {
    ItemFn,
    MethodFromImpl,
    MethodFromTrait,
}

/// The identifier the parser gave a node.
#[derive(PartialEq, Eq, Structural, Clone, Copy, Debug)]
pub struct NodeId(pub u32);

/// A type as written in the source.
#[derive(Debug)]
pub struct Ty {
    pub id: NodeId,
    pub name: String,
}

} // verus!
