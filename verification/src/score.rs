//! Where a search query matches a candidate line: the shortest stretch of the line that holds
//! the query's characters in order.
//!
//! Positions and lengths count characters.

use vstd::prelude::*;

use crate::text::{chars_of, push_char};

verus! {

/// `c` with ASCII upper-case letters turned into lower-case ones.
pub open spec fn ascii_lower(c: char) -> char {
    if 'A' <= c && c <= 'Z' {
        ((c as u32) + 32) as char
    } else {
        c
    }
}

/// `s` with every ASCII upper-case letter lower-cased (`str::to_ascii_lowercase`).
pub open spec fn ascii_lower_text(s: Seq<char>) -> Seq<char> {
    s.map_values(|c: char| ascii_lower(c))
}

/// Lower-cases the ASCII letters of `s`, leaving every other character as it is.
pub fn to_ascii_lowercase(s: &str) -> (r: String)
    ensures
        r@ == ascii_lower_text(s@),
{
    let chars = chars_of(s);
    let mut r = String::new();
    let mut i: usize = 0;
    while i < chars.len()
        invariant
            i <= chars@.len(),
            chars@ == s@,
            r@ == ascii_lower_text(s@.take(i as int)),
        decreases chars@.len() - i,
    {
        let c = chars[i];
        let lower = if 'A' <= c && c <= 'Z' {
            let b: u8 = (c as u32 + 32) as u8;
            b as char
        } else {
            c
        };
        push_char(&mut r, lower);
        assert(r@ =~= ascii_lower_text(s@.take(i + 1)));
        i = i + 1;
    }
    assert(s@.take(chars@.len() as int) =~= s@);
    r
}

/// The first position at or after `offset` where `ch` occurs in `c`.
pub open spec fn first_after(c: Seq<char>, ch: char, offset: int) -> Option<int>
    decreases c.len() - offset,
{
    if offset < 0 || offset >= c.len() {
        None
    } else if c[offset] == ch {
        Some(offset)
    } else {
        first_after(c, ch, offset + 1)
    }
}

/// Where a greedy match of the characters `q` ends, each found after the previous one,
/// starting after position `pos`.
pub open spec fn greedy_end(c: Seq<char>, q: Seq<char>, pos: int) -> Option<int>
    decreases q.len(),
{
    if q.len() == 0 {
        Some(pos)
    } else {
        match first_after(c, q[0], pos + 1) {
            Some(n) => greedy_end(c, q.drop_first(), n),
            None => None,
        }
    }
}

/// The length of the greedy match of `rest` that starts with the character at `beginning`.
pub open spec fn match_length(c: Seq<char>, rest: Seq<char>, beginning: int) -> Option<int> {
    match greedy_end(c, rest, beginning) {
        Some(e) => Some(e - beginning + 1),
        None => None,
    }
}

/// Over the beginnings before `n` (positions holding `first`): the shortest match length
/// found, and the last beginning from which a match was found; both `c.len() + 1` while
/// there is none.
pub open spec fn best_match(c: Seq<char>, first: char, rest: Seq<char>, n: int) -> (int, int)
    decreases n,
{
    if n <= 0 {
        (c.len() + 1int, c.len() + 1int)
    } else {
        let prev = best_match(c, first, rest, n - 1);
        if c[n - 1] == first && match_length(c, rest, n - 1) is Some {
            let l = match_length(c, rest, n - 1)->0;
            (if l < prev.0 {
                l
            } else {
                prev.0
            }, n - 1)
        } else {
            prev
        }
    }
}

/// The match of `query` in `choice`: where the last successful beginning is and the length of
/// the shortest match, or `None` where the query is empty or does not occur in order.
pub open spec fn match_of(choice: Seq<char>, query: Seq<char>) -> Option<(int, int)> {
    if query.len() == 0 {
        None
    } else {
        let best = best_match(choice, query[0], query.drop_first(), choice.len() as int);
        if best.0 == choice.len() + 1 {
            None
        } else {
            Some((best.1, best.0))
        }
    }
}

proof fn lemma_first_after(c: Seq<char>, ch: char, offset: int)
    requires
        0 <= offset,
    ensures
        first_after(c, ch, offset) matches Some(n) ==> offset <= n < c.len() && c[n] == ch,
        first_after(c, ch, offset) is None ==> forall|k: int| offset <= k < c.len() ==> c[k] != ch,
        first_after(c, ch, offset) matches Some(n) ==> forall|k: int| offset <= k < n ==> c[k] != ch,
    decreases c.len() - offset,
{
    if offset < c.len() && c[offset] != ch {
        lemma_first_after(c, ch, offset + 1);
    }
}

proof fn lemma_greedy_end(c: Seq<char>, q: Seq<char>, pos: int)
    requires
        0 <= pos < c.len(),
    ensures
        greedy_end(c, q, pos) matches Some(e) ==> pos <= e < c.len(),
    decreases q.len(),
{
    if q.len() > 0 {
        lemma_first_after(c, q[0], pos + 1);
        match first_after(c, q[0], pos + 1) {
            Some(n) => lemma_greedy_end(c, q.drop_first(), n),
            None => {},
        }
    }
}

proof fn lemma_best_match(c: Seq<char>, first: char, rest: Seq<char>, n: int)
    requires
        0 <= n <= c.len(),
    ensures
        1 <= best_match(c, first, rest, n).0 <= c.len() + 1,
        best_match(c, first, rest, n).0 <= c.len() ==> 0 <= best_match(c, first, rest, n).1 < n,
    decreases n,
{
    if n > 0 {
        lemma_best_match(c, first, rest, n - 1);
        lemma_greedy_end(c, rest, n - 1);
    }
}

/// Positions that do not hold `first` add nothing to the best match.
proof fn lemma_best_match_skip(c: Seq<char>, first: char, rest: Seq<char>, m: int, n: int)
    requires
        0 <= m <= n <= c.len(),
        forall|p: int| m <= p < n ==> c[p] != first,
    ensures
        best_match(c, first, rest, n) == best_match(c, first, rest, m),
    decreases n - m,
{
    if n > m {
        lemma_best_match_skip(c, first, rest, m, n - 1);
    }
}

/// The first character of `line` and the rest of it, or `None` where it is empty.
fn slice_shift_char(line: &Vec<char>) -> (r: Option<(char, Vec<char>)>)
    ensures
        r is None <==> line@.len() == 0,
        r matches Some((ch, rest)) ==> ch == line@[0] && rest@ == line@.drop_first(),
{
    if line.len() == 0 {
        None
    } else {
        let mut rest: Vec<char> = Vec::new();
        let mut i: usize = 1;
        while i < line.len()
            invariant
                1 <= i <= line@.len(),
                rest@ == line@.subrange(1, i as int),
            decreases line@.len() - i,
        {
            rest.push(line[i]);
            i = i + 1;
            assert(rest@ =~= line@.subrange(1, i as int));
        }
        Some((line[0], rest))
    }
}

/// The first position at or after `offset` where `query` occurs in `choice`.
fn find_first_after(choice: &Vec<char>, query: char, offset: usize) -> (r: Option<usize>)
    ensures
        r == (match first_after(choice@, query, offset as int) {
            Some(n) => Some(n as usize),
            None => None::<usize>,
        }),
{
    let mut i = offset;
    while i < choice.len()
        invariant
            offset <= i,
            first_after(choice@, query, offset as int) == first_after(choice@, query, i as int),
        decreases choice@.len() - i,
    {
        if choice[i] == query {
            return Some(i);
        }
        i = i + 1;
    }
    None
}

/// The length of the greedy match of `query` (the query without its first character) that
/// starts with the character at `beginning`.
fn match_length_from(choice: &Vec<char>, query: &Vec<char>, beginning: usize) -> (r: Option<usize>)
    requires
        beginning < choice@.len(),
    ensures
        r == (match match_length(choice@, query@, beginning as int) {
            Some(l) => Some(l as usize),
            None => None::<usize>,
        }),
        r matches Some(l) ==> 1 <= l <= choice@.len() - beginning,
        match_length(choice@, query@, beginning as int) matches Some(l) ==> 1 <= l <= choice@.len()
            - beginning,
{
    proof {
        lemma_greedy_end(choice@, query@, beginning as int);
    }
    let n = choice.len();
    let mut match_index = beginning;
    let mut k: usize = 0;
    assert(query@.skip(0) =~= query@);
    while k < query.len()
        invariant
            k <= query@.len(),
            n == choice@.len(),
            beginning <= match_index < choice@.len(),
            greedy_end(choice@, query@, beginning as int) == greedy_end(
                choice@,
                query@.skip(k as int),
                match_index as int,
            ),
        decreases query@.len() - k,
    {
        proof {
            lemma_first_after(choice@, query@[k as int], match_index + 1);
            assert(query@.skip(k as int)[0] == query@[k as int]);
            assert(query@.skip(k as int).drop_first() =~= query@.skip(k + 1));
        }
        match find_first_after(choice, query[k], match_index + 1) {
            Some(n) => {
                match_index = n;
            },
            None => {
                return None;
            },
        }
        k = k + 1;
    }
    assert(query@.skip(query@.len() as int) =~= Seq::<char>::empty());
    Some(match_index - beginning + 1)
}

/// The positions of `choice` that hold `beginning`, in order.
fn for_each_beginning(choice: &Vec<char>, beginning: char) -> (r: Vec<usize>)
    ensures
        forall|j: int| 0 <= j < r@.len() ==> r@[j] < choice@.len() && choice@[r@[j] as int] == beginning,
        forall|j: int, k: int| 0 <= j < k < r@.len() ==> r@[j] < r@[k],
        forall|p: int| 0 <= p < choice@.len() && choice@[p] == beginning ==> exists|j: int|
            0 <= j < r@.len() && r@[j] == p,
{
    let mut r: Vec<usize> = Vec::new();
    let mut idx: usize = 0;
    while idx < choice.len()
        invariant
            idx <= choice@.len(),
            forall|j: int| 0 <= j < r@.len() ==> r@[j] < idx && choice@[r@[j] as int] == beginning,
            forall|j: int, k: int| 0 <= j < k < r@.len() ==> r@[j] < r@[k],
            forall|p: int| 0 <= p < idx && choice@[p] == beginning ==> exists|j: int|
                0 <= j < r@.len() && r@[j] == p,
        decreases choice@.len() - idx,
    {
        let ghost before = r@;
        if choice[idx] == beginning {
            r.push(idx);
            assert(r@[r@.len() - 1] == idx);
            assert forall|p: int| 0 <= p < idx + 1 && choice@[p] == beginning implies exists|j: int|
                0 <= j < r@.len() && r@[j] == p by {
                if p < idx {
                    let j = choose|j: int| 0 <= j < before.len() && before[j] == p;
                    assert(r@[j] == p);
                } else {
                    assert(r@[r@.len() - 1] == p);
                }
            }
        }
        idx = idx + 1;
    }
    r
}

/// Where `query` matches `choice`: the last position from which its characters can be found
/// in order, and the length of the shortest such match; `None` where the query is empty or
/// its characters do not occur in order.
pub fn compute_match_length(choice: &Vec<char>, query: &Vec<char>) -> (r: Option<(usize, usize)>)
    requires
        choice@.len() < usize::MAX,
    ensures
        r == (match match_of(choice@, query@) {
            Some((s, l)) => Some((s as usize, l as usize)),
            None => None::<(usize, usize)>,
        }),
{
    let (first, rest) = match slice_shift_char(query) {
        Some(p) => p,
        None => {
            return None;
        },
    };
    let impossible_match = choice.len() + 1;
    let mut shortest_match = impossible_match;
    let mut shortest_start = impossible_match;
    let starts = for_each_beginning(choice, first);
    let ghost c = choice@;
    let ghost n = starts@.len() as int;
    proof {
        let upto = if n > 0 { starts@[0] as int } else { c.len() as int };
        assert forall|p: int| 0 <= p < upto implies c[p] != first by {
            if c[p] == first {
                let j = choose|j: int| 0 <= j < n && starts@[j] == p;
                if j > 0 {
                    assert(starts@[0] < starts@[j]);
                }
            }
        }
        lemma_best_match_skip(c, first, rest@, 0, upto);
    }
    let mut k: usize = 0;
    while k < starts.len()
        invariant
            k <= n,
            n == starts@.len(),
            c == choice@,
            impossible_match == c.len() + 1,
            query@.len() > 0,
            first == query@[0],
            rest@ == query@.drop_first(),
            forall|j: int| 0 <= j < n ==> starts@[j] < c.len() && c[starts@[j] as int] == first,
            forall|j: int, l: int| 0 <= j < l < n ==> starts@[j] < starts@[l],
            forall|p: int| 0 <= p < c.len() && c[p] == first ==> exists|j: int|
                0 <= j < n && starts@[j] == p,
            (shortest_match as int, shortest_start as int) == best_match(
                c,
                first,
                rest@,
                if k < n {
                    starts@[k as int] as int
                } else {
                    c.len() as int
                },
            ),
        decreases n - k,
    {
        let beginning = starts[k];
        proof {
            lemma_best_match(c, first, rest@, beginning as int);
        }
        match match_length_from(choice, &rest, beginning) {
            Some(length) => {
                if length < shortest_match {
                    shortest_match = length;
                }
                shortest_start = beginning;
            },
            None => {},
        }
        assert(best_match(c, first, rest@, beginning + 1) == (shortest_match as int, shortest_start as int));
        proof {
            let upto = if k + 1 < n { starts@[k + 1] as int } else { c.len() as int };
            assert forall|p: int| beginning + 1 <= p < upto implies c[p] != first by {
                if c[p] == first {
                    let j = choose|j: int| 0 <= j < n && starts@[j] == p;
                    if j <= k {
                        if j < k {
                            assert(starts@[j] < starts@[k as int]);
                        }
                    } else if j > k + 1 {
                        assert(starts@[k + 1] < starts@[j]);
                    }
                }
            }
            lemma_best_match_skip(c, first, rest@, beginning + 1, upto);
        }
        k = k + 1;
    }
    proof {
        lemma_best_match(choice@, first, rest@, choice@.len() as int);
    }
    if shortest_match == impossible_match {
        None
    } else {
        Some((shortest_start, shortest_match))
    }
}

/// The stretch of `choice` that `query` (already lower-cased) matches once the ASCII letters
/// of `choice` are lower-cased, as `(start, length)`: `(0, 0)` for an empty query, `None`
/// where the query's characters do not occur in order.
pub fn match_range(choice: &str, query: &str) -> (r: Option<(usize, usize)>)
    requires
        choice@.len() < usize::MAX,
    ensures
        query@.len() == 0 ==> r == Some((0usize, 0usize)),
        query@.len() > 0 ==> r == (match match_of(ascii_lower_text(choice@), query@) {
            Some((s, l)) => Some((s as usize, l as usize)),
            None => None::<(usize, usize)>,
        }),
{
    let q = chars_of(query);
    if q.len() == 0 {
        return Some((0, 0));
    }
    let lower_choice = to_ascii_lowercase(choice);
    let c = chars_of(lower_choice.as_str());
    compute_match_length(&c, &q)
}

/// Whether `idx` places the characters of `q` in `c` in order: strictly increasing positions
/// holding `q`'s characters, all after `pos`.
pub open spec fn embeds_after(c: Seq<char>, q: Seq<char>, idx: Seq<int>, pos: int) -> bool {
    &&& idx.len() == q.len()
    &&& forall|k: int| 0 <= k < idx.len() ==> pos < #[trigger] idx[k] < c.len() && c[idx[k]] == q[k]
    &&& forall|j: int, k: int| 0 <= j < k < idx.len() ==> idx[j] < idx[k]
}

/// Whether the characters of `q` occur in `c` in order.
pub open spec fn occurs_in_order(c: Seq<char>, q: Seq<char>) -> bool {
    exists|idx: Seq<int>| #[trigger] embeds_after(c, q, idx, -1)
}

proof fn lemma_greedy_complete(c: Seq<char>, q: Seq<char>, pos: int, idx: Seq<int>)
    requires
        -1 <= pos,
        embeds_after(c, q, idx, pos),
    ensures
        greedy_end(c, q, pos) is Some,
    decreases q.len(),
{
    if q.len() > 0 {
        lemma_first_after(c, q[0], pos + 1);
        let n = first_after(c, q[0], pos + 1);
        assert(pos < idx[0] < c.len() && c[idx[0]] == q[0]);
        let m = n->0;
        assert(m <= idx[0]);
        let rest = idx.drop_first();
        assert forall|k: int| 0 <= k < rest.len() implies m < #[trigger] rest[k] < c.len()
            && c[rest[k]] == q.drop_first()[k] by {
            assert(rest[k] == idx[k + 1]);
            assert(idx[0] < idx[k + 1]);
        }
        assert forall|j: int, k: int| 0 <= j < k < rest.len() implies rest[j] < rest[k] by {
            assert(rest[j] == idx[j + 1] && rest[k] == idx[k + 1]);
        }
        lemma_greedy_complete(c, q.drop_first(), m, rest);
    }
}

proof fn lemma_greedy_sound(c: Seq<char>, q: Seq<char>, pos: int) -> (idx: Seq<int>)
    requires
        -1 <= pos,
        greedy_end(c, q, pos) is Some,
    ensures
        embeds_after(c, q, idx, pos),
        q.len() > 0 ==> idx[0] == first_after(c, q[0], pos + 1)->0,
    decreases q.len(),
{
    if q.len() == 0 {
        Seq::<int>::empty()
    } else {
        lemma_first_after(c, q[0], pos + 1);
        let m = first_after(c, q[0], pos + 1)->0;
        let rest = lemma_greedy_sound(c, q.drop_first(), m);
        let idx = seq![m] + rest;
        assert forall|k: int| 0 <= k < idx.len() implies pos < #[trigger] idx[k] < c.len() && c[idx[k]]
            == q[k] by {
            if k > 0 {
                assert(idx[k] == rest[k - 1]);
                assert(q[k] == q.drop_first()[k - 1]);
            }
        }
        assert forall|j: int, k: int| 0 <= j < k < idx.len() implies idx[j] < idx[k] by {
            if j > 0 {
                assert(idx[j] == rest[j - 1] && idx[k] == rest[k - 1]);
            } else {
                assert(idx[k] == rest[k - 1]);
            }
        }
        idx
    }
}

proof fn lemma_best_match_found(c: Seq<char>, first: char, rest: Seq<char>, n: int)
    requires
        0 <= n <= c.len(),
    ensures
        best_match(c, first, rest, n).0 <= c.len() <==> exists|b: int|
            0 <= b < n && c[b] == first && #[trigger] match_length(c, rest, b) is Some,
    decreases n,
{
    if n > 0 {
        lemma_best_match_found(c, first, rest, n - 1);
        lemma_best_match(c, first, rest, n - 1);
        lemma_greedy_end(c, rest, n - 1);
        if c[n - 1] == first && match_length(c, rest, n - 1) is Some {
            assert(match_length(c, rest, n - 1)->0 <= c.len());
        }
    }
}

/// A query matches a candidate exactly when it is not empty and its characters occur in the
/// candidate in order (with anything in between).
pub proof fn lemma_match_iff_in_order(c: Seq<char>, q: Seq<char>)
    ensures
        match_of(c, q) is Some <==> q.len() > 0 && occurs_in_order(c, q),
{
    if q.len() > 0 {
        let first = q[0];
        let rest = q.drop_first();
        lemma_best_match(c, first, rest, c.len() as int);
        lemma_best_match_found(c, first, rest, c.len() as int);
        if match_of(c, q) is Some {
            let b = choose|b: int| 0 <= b < c.len() && c[b] == first && #[trigger] match_length(c, rest, b) is Some;
            let tail = lemma_greedy_sound(c, rest, b);
            let idx = seq![b] + tail;
            assert forall|k: int| 0 <= k < idx.len() implies -1 < #[trigger] idx[k] < c.len() && c[idx[k]]
                == q[k] by {
                if k > 0 {
                    assert(idx[k] == tail[k - 1]);
                    assert(q[k] == rest[k - 1]);
                }
            }
            assert forall|j: int, k: int| 0 <= j < k < idx.len() implies idx[j] < idx[k] by {
                if j > 0 {
                    assert(idx[j] == tail[j - 1] && idx[k] == tail[k - 1]);
                } else {
                    assert(idx[k] == tail[k - 1]);
                }
            }
            assert(embeds_after(c, q, idx, -1));
        }
        if occurs_in_order(c, q) {
            let idx = choose|idx: Seq<int>| #[trigger] embeds_after(c, q, idx, -1);
            let b = idx[0];
            let tail = idx.drop_first();
            assert forall|k: int| 0 <= k < tail.len() implies b < #[trigger] tail[k] < c.len() && c[tail[k]]
                == rest[k] by {
                assert(tail[k] == idx[k + 1]);
                assert(idx[0] < idx[k + 1]);
            }
            assert forall|j: int, k: int| 0 <= j < k < tail.len() implies tail[j] < tail[k] by {
                assert(tail[j] == idx[j + 1] && tail[k] == idx[k + 1]);
            }
            lemma_greedy_complete(c, rest, b, tail);
            assert(match_length(c, rest, b) is Some);
        }
    }
}

} // verus!
