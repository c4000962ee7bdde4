//! The narrowing stack of an interactive search, and moving the selection through its results.

use vstd::prelude::*;

verus! {

/// The candidate lists of an interactive search: the full list at the bottom, and above it the
/// list left after each narrowing step.
#[derive(Debug)]
pub struct ChoiceStack<'s> {
    content: Vec<Vec<&'s String>>,
}

impl<'s> ChoiceStack<'s> {
    /// Well-formed: there is a bottom frame, and it is never removed.
    pub closed spec fn well_formed(&self) -> bool {
        self.content@.len() >= 1
    }

    /// The frames, bottom first.
    pub closed spec fn frames(&self) -> Seq<Seq<&'s String>> {
        self.content@.map_values(|f: Vec<&'s String>| f@)
    }

    /// A stack whose only frame holds every input line, in order.
    pub fn new(input: &'s Vec<String>) -> (r: ChoiceStack<'s>)
        ensures
            r.well_formed(),
            r.frames().len() == 1,
            r.frames()[0].len() == input@.len(),
            forall|i: int| 0 <= i < input@.len() ==> *r.frames()[0][i] == input@[i],
    {
        let mut initial: Vec<&'s String> = Vec::new();
        let mut i: usize = 0;
        while i < input.len()
            invariant
                i <= input@.len(),
                initial@.len() == i,
                forall|j: int| 0 <= j < i ==> *initial@[j] == input@[j],
            decreases input@.len() - i,
        {
            initial.push(&input[i]);
            i = i + 1;
        }
        let r = ChoiceStack { content: vec![initial] };
        assert(r.frames()[0] == initial@);
        r
    }

    /// Pushes a narrower frame.
    pub fn push(&mut self, frame: Vec<&'s String>)
        requires
            old(self).well_formed(),
        ensures
            final(self).well_formed(),
            final(self).frames() == old(self).frames().push(frame@),
    {
        self.content.push(frame);
        assert(self.frames() =~= old(self).frames().push(frame@));
    }

    /// Removes the top frame, unless it is the bottom one.
    pub fn pop(&mut self)
        requires
            old(self).well_formed(),
        ensures
            final(self).well_formed(),
            final(self).frames() == (if old(self).frames().len() > 1 {
                old(self).frames().drop_last()
            } else {
                old(self).frames()
            }),
    {
        if self.content.len() > 1 {
            self.content.pop();
            assert(self.frames() =~= old(self).frames().drop_last());
        }
    }

    /// The top frame.
    pub fn peek(&self) -> (r: &Vec<&'s String>)
        requires
            self.well_formed(),
        ensures
            self.frames().len() >= 1,
            r@ == self.frames().last(),
    {
        let n = self.content.len();
        &self.content[n - 1]
    }

    /// The number of candidates in the top frame.
    pub fn last_size(&self) -> (r: usize)
        requires
            self.well_formed(),
        ensures
            self.frames().len() >= 1,
            r == self.frames().last().len(),
    {
        self.peek().len()
    }
}

/// The selection after moving down: the next result, wrapping to the first after the last.
pub open spec fn next_index_of(current: int, num_matches: int) -> int {
    if current + 1 == num_matches {
        0
    } else {
        current + 1
    }
}

/// The selection after moving up: the previous result, wrapping to the last before the first
/// (and staying at 0 when there are none).
pub open spec fn prev_index_of(current: int, num_matches: int) -> int {
    if num_matches == 0 {
        0
    } else if current == 0 {
        num_matches - 1
    } else {
        current - 1
    }
}

/// The index selected after moving down from `current` among `num_matches` results.
pub fn next_index(current: usize, num_matches: usize) -> (r: usize)
    requires
        current + 1 == num_matches || current < usize::MAX,
    ensures
        r == next_index_of(current as int, num_matches as int),
{
    if current + 1 == num_matches {
        0
    } else {
        current + 1
    }
}

/// The index selected after moving up from `current` among `num_matches` results.
pub fn prev_index(current: usize, num_matches: usize) -> (r: usize)
    ensures
        r == prev_index_of(current as int, num_matches as int),
{
    if num_matches == 0 {
        0
    } else if current == 0 {
        num_matches - 1
    } else {
        current - 1
    }
}

/// Narrowing and then widening again gives back the frames that were there before.
pub proof fn lemma_pop_undoes_push<'s>(frames: Seq<Seq<&'s String>>, frame: Seq<&'s String>)
    requires
        frames.len() >= 1,
    ensures
        ({
            let pushed = frames.push(frame);
            (if pushed.len() > 1 {
                pushed.drop_last()
            } else {
                pushed
            }) == frames
        }),
{
    assert(frames.push(frame).drop_last() =~= frames);
}

/// Moving the selection down and then up comes back to where it was, for every selection
/// among the results.
pub proof fn lemma_up_undoes_down(current: int, num_matches: int)
    requires
        0 <= current < num_matches,
    ensures
        prev_index_of(next_index_of(current, num_matches), num_matches) == current,
        next_index_of(prev_index_of(current, num_matches), num_matches) == current,
        0 <= next_index_of(current, num_matches) < num_matches,
        0 <= prev_index_of(current, num_matches) < num_matches,
{
}

} // verus!
