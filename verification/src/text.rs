//! Character-level string helpers shared by the path, store and rendering code.

use vstd::prelude::*;

verus! {

/// The characters of `s`, in order.
pub fn chars_of(s: &str) -> (v: Vec<char>)
    ensures
        v@ == s@,
{
    let mut v: Vec<char> = Vec::new();
    for c in it: s.chars()
        invariant
            v@ == it.seq().take(it.index() as int),
            it.seq() == s@,
    {
        v.push(c);
    }
    v
}

/// `<str as PartialEq>::eq`: whether the two strings hold the same characters.
#[verifier::external_body]
pub(crate) fn str_eq(a: &str, b: &str) -> (r: bool)
    ensures
        r == (a@ == b@),
{
    a == b
}

/// `String::push`: appends `c` to the end of `s`, as the std documentation states.
#[verifier::external_body]
pub(crate) fn push_char(s: &mut String, c: char)
    ensures
        final(s)@ == old(s)@.push(c),
{
    s.push(c);
}

/// A `String` holding exactly the characters of `v`.
pub fn string_from_chars(v: &[char]) -> (s: String)
    ensures
        s@ == v@,
{
    let mut s = String::new();
    let mut i: usize = 0;
    while i < v.len()
        invariant
            i <= v@.len(),
            s@ == v@.take(i as int),
        decreases v@.len() - i,
    {
        push_char(&mut s, v[i]);
        i = i + 1;
        assert(s@ =~= v@.take(i as int));
    }
    assert(v@.take(v@.len() as int) =~= v@);
    s
}

/// True when `sep` occurs in `s` starting at position `i`.
pub open spec fn occurs_at(s: Seq<char>, sep: Seq<char>, i: int) -> bool {
    0 <= i && i + sep.len() <= s.len() && s.subrange(i, i + sep.len()) == sep
}

/// The leftmost position at or after `i` where `sep` occurs in `s`, or -1 where there is none.
pub open spec fn find_from(s: Seq<char>, sep: Seq<char>, i: int) -> int
    decreases s.len() + 1 - i,
{
    if i < 0 || i + sep.len() > s.len() {
        -1
    } else if occurs_at(s, sep, i) {
        i
    } else {
        find_from(s, sep, i + 1)
    }
}

/// The pieces of `s` between the non-overlapping, leftmost-first occurrences of `sep`, as
/// `str::split` yields them.
pub open spec fn split_seq(s: Seq<char>, sep: Seq<char>) -> Seq<Seq<char>>
    decreases s.len(),
{
    let k = find_from(s, sep, 0);
    if sep.len() == 0 || k < 0 || k + sep.len() > s.len() {
        seq![s]
    } else {
        seq![s.take(k)] + split_seq(s.skip(k + sep.len()), sep)
    }
}

/// The pieces in `parts` joined with `sep` between neighbours, as `[String]::join` builds it.
pub open spec fn join_seq(parts: Seq<Seq<char>>, sep: Seq<char>) -> Seq<char>
    decreases parts.len(),
{
    if parts.len() == 0 {
        seq![]
    } else if parts.len() == 1 {
        parts[0]
    } else {
        parts[0] + sep + join_seq(parts.drop_first(), sep)
    }
}

/// Joining pieces ends with the last piece.
pub proof fn lemma_join_ends_with_last(parts: Seq<Seq<char>>, sep: Seq<char>)
    requires
        parts.len() > 0,
    ensures
        join_seq(parts, sep).len() >= parts.last().len(),
        join_seq(parts, sep).subrange(
            join_seq(parts, sep).len() - parts.last().len(),
            join_seq(parts, sep).len() as int,
        ) == parts.last(),
    decreases parts.len(),
{
    if parts.len() > 1 {
        let rest = parts.drop_first();
        lemma_join_ends_with_last(rest, sep);
        let j = join_seq(rest, sep);
        let whole = parts[0] + sep + j;
        assert(join_seq(parts, sep) == whole);
        assert(rest.last() == parts.last());
        assert(whole.subrange(whole.len() - parts.last().len(), whole.len() as int) =~= j.subrange(
            j.len() - parts.last().len(),
            j.len() as int,
        ));
    } else {
        assert(parts[0] == parts.last());
        assert(parts[0].subrange(0, parts[0].len() as int) =~= parts[0]);
    }
}

/// Facts about `find_from`: its result is a real occurrence, and nothing before it is one.
pub proof fn lemma_find_from(s: Seq<char>, sep: Seq<char>, i: int)
    requires
        0 <= i,
    ensures
        find_from(s, sep, i) >= 0 ==> i <= find_from(s, sep, i) && occurs_at(s, sep, find_from(s, sep, i)),
        forall|j: int| i <= j && (find_from(s, sep, i) < 0 || j < find_from(s, sep, i)) ==> !occurs_at(s, sep, j),
    decreases s.len() + 1 - i,
{
    if i + sep.len() > s.len() {
    } else if occurs_at(s, sep, i) {
    } else {
        lemma_find_from(s, sep, i + 1);
    }
}

/// Splitting on a non-empty separator and joining the pieces back with it gives back the
/// original text.
pub proof fn lemma_join_split(s: Seq<char>, sep: Seq<char>)
    requires
        sep.len() > 0,
    ensures
        join_seq(split_seq(s, sep), sep) == s,
    decreases s.len(),
{
    let k = find_from(s, sep, 0);
    lemma_find_from(s, sep, 0);
    if k < 0 || k + sep.len() > s.len() {
    } else {
        let rest = s.skip(k + sep.len());
        lemma_join_split(rest, sep);
        lemma_split_nonempty(rest, sep);
        let parts = split_seq(s, sep);
        assert(parts.drop_first() =~= split_seq(rest, sep));
        assert(s.take(k) + sep + rest =~= s);
    }
}

/// `split_seq` always yields at least one piece.
pub proof fn lemma_split_nonempty(s: Seq<char>, sep: Seq<char>)
    ensures
        split_seq(s, sep).len() >= 1,
    decreases s.len(),
{
    let k = find_from(s, sep, 0);
    if sep.len() == 0 || k < 0 || k + sep.len() > s.len() {
    } else {
        lemma_split_nonempty(s.skip(k + sep.len()), sep);
    }
}

/// True when `sep` occurs in `chars` at position `i` (executable check).
pub fn matches_at(chars: &Vec<char>, sep: &Vec<char>, i: usize) -> (r: bool)
    requires
        i + sep@.len() <= chars.len(),
    ensures
        r == occurs_at(chars@, sep@, i as int),
{
    let mut j: usize = 0;
    while j < sep.len()
        invariant
            j <= sep@.len(),
            i + sep@.len() <= chars.len(),
            forall|t: int| 0 <= t < j ==> chars@[i + t] == sep@[t],
        decreases sep@.len() - j,
    {
        if chars[i + j] != sep[j] {
            assert(chars@.subrange(i as int, i + sep@.len())[j as int] != sep@[j as int]);
            return false;
        }
        j = j + 1;
    }
    assert(chars@.subrange(i as int, i + sep@.len()) =~= sep@);
    true
}

/// `str::split`: the pieces of `s` between the occurrences of the non-empty separator `sep`.
pub fn split_str(s: &str, sep: &str) -> (parts: Vec<String>)
    requires
        sep@.len() > 0,
    ensures
        parts@.map_values(|p: String| p@) == split_seq(s@, sep@),
{
    let chars = chars_of(s);
    let sepc = chars_of(sep);
    let n = chars.len();
    let m = sepc.len();
    let mut parts: Vec<String> = Vec::new();
    let mut start: usize = 0;
    let mut cur: Vec<char> = Vec::new();
    let mut i: usize = 0;
    assert(chars@.skip(0) =~= chars@);
    // `start` is where the current piece began; `i` is the next position to test.
    while i < n
        invariant
            chars@ == s@,
            sepc@ == sep@,
            n == chars@.len(),
            m == sepc@.len(),
            m > 0,
            start <= i <= n,
            cur@ == chars@.subrange(start as int, i as int),
            forall|j: int| start <= j < i ==> !occurs_at(chars@, sepc@, j),
            parts@.map_values(|p: String| p@) + split_seq(chars@.skip(start as int), sepc@) == split_seq(chars@, sepc@),
        decreases n - i,
    {
        if m <= n - i && matches_at(&chars, &sepc, i) {
            let ghost rest = chars@.skip(start as int);
            proof {
                lemma_find_from(rest, sepc@, 0);
                assert forall|j: int| 0 <= j < i - start implies !occurs_at(rest, sepc@, j) by {
                    assert(!occurs_at(chars@, sepc@, start + j));
                    if j + m <= rest.len() {
                        assert(rest.subrange(j, j + m) =~= chars@.subrange(start + j, start + j + m));
                    }
                }
                assert(occurs_at(rest, sepc@, i - start)) by {
                    assert(rest.subrange(i - start, i - start + m) =~= chars@.subrange(i as int, i + m));
                }
                if find_from(rest, sepc@, 0) >= 0 {
                    assert(find_from(rest, sepc@, 0) == i - start);
                }
                assert(find_from(rest, sepc@, 0) == i - start);
                assert(rest.take(i - start) =~= cur@);
                assert(rest.skip(i - start + m) =~= chars@.skip(i + m));
            }
            let piece = string_from_chars(cur.as_slice());
            parts.push(piece);
            proof {
                let old_parts = parts@.drop_last();
                assert(parts@.map_values(|p: String| p@) =~= old_parts.map_values(|p: String| p@).push(cur@));
            }
            i = i + m;
            start = i;
            cur = Vec::new();
            assert(cur@ =~= chars@.subrange(start as int, i as int));
        } else {
            proof {
                if m <= n - i {
                    assert(!occurs_at(chars@, sepc@, i as int));
                }
            }
            cur.push(chars[i]);
            i = i + 1;
            assert(cur@ =~= chars@.subrange(start as int, i as int));
        }
    }
    let ghost rest = chars@.skip(start as int);
    proof {
        lemma_find_from(rest, sepc@, 0);
        assert forall|j: int| 0 <= j && j + m <= rest.len() implies !occurs_at(rest, sepc@, j) by {
            assert(!occurs_at(chars@, sepc@, start + j));
            assert(rest.subrange(j, j + m) =~= chars@.subrange(start + j, start + j + m));
        }
        if find_from(rest, sepc@, 0) >= 0 {
            assert(occurs_at(rest, sepc@, find_from(rest, sepc@, 0)));
        }
        assert(rest =~= cur@);
    }
    let piece = string_from_chars(cur.as_slice());
    parts.push(piece);
    proof {
        let old_parts = parts@.drop_last();
        assert(parts@.map_values(|p: String| p@) =~= old_parts.map_values(|p: String| p@).push(cur@));
    }
    parts
}

/// `[String]::join`: the strings in `parts`, with `sep` between neighbours.
pub fn join_strs(parts: &Vec<String>, sep: &str) -> (r: String)
    ensures
        r@ == join_seq(parts@.map_values(|p: String| p@), sep@),
{
    let ghost views = parts@.map_values(|p: String| p@);
    let n = parts.len();
    if n == 0 {
        return String::new();
    }
    // Build from the right: acc holds the join of parts[i..].
    let mut acc = parts[n - 1].clone();
    let mut i: usize = n - 1;
    assert(views.subrange(i as int, n as int) =~= seq![views[i as int]]);
    while i > 0
        invariant
            0 <= i < n,
            n == parts@.len(),
            views == parts@.map_values(|p: String| p@),
            acc@ == join_seq(views.subrange(i as int, n as int), sep@),
        decreases i,
    {
        i = i - 1;
        let mut next = parts[i].clone();
        next.append(sep);
        next.append(acc.as_str());
        proof {
            let tail = views.subrange(i + 1, n as int);
            let whole = views.subrange(i as int, n as int);
            assert(whole.drop_first() =~= tail);
            assert(whole[0] == views[i as int]);
        }
        acc = next;
    }
    assert(views.subrange(0, n as int) =~= views);
    acc
}

} // verus!
