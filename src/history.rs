//! The history of submitted command lines, most recent last, without repeats.

use vstd::prelude::*;
use crate::text::str_eq;

verus! {

/// Submitted command lines, oldest first.
pub struct History {
    values: Vec<String>,
}

/// `s` without any occurrence of `x`, order kept.
pub open spec fn without(s: Seq<Seq<char>>, x: Seq<char>) -> Seq<Seq<char>>
    decreases s.len(),
{
    if s.len() == 0 {
        s
    } else {
        let r = without(s.drop_last(), x);
        if s.last() == x { r } else { r.push(s.last()) }
    }
}

/// How many times `x` occurs in `s`.
pub open spec fn occurrences(s: Seq<Seq<char>>, x: Seq<char>) -> nat
    decreases s.len(),
{
    if s.len() == 0 {
        0
    } else {
        occurrences(s.drop_last(), x) + if s.last() == x { 1nat } else { 0nat }
    }
}

/// The history after submitting `x`: earlier occurrences go, `x` comes last.
pub open spec fn submitted(s: Seq<Seq<char>>, x: Seq<char>) -> Seq<Seq<char>> {
    without(s, x).push(x)
}

impl View for History {
    type V = Seq<Seq<char>>;

    closed spec fn view(&self) -> Seq<Seq<char>> {
        self.values@.map_values(|v: String| v@)
    }
}

impl History {
    /// An empty history.
    pub fn new() -> (r: History)
        ensures
            r@ == Seq::<Seq<char>>::empty(),
    {
        let r = History { values: Vec::new() };
        assert(r@ =~= Seq::<Seq<char>>::empty());
        r
    }

    /// A history of the given lines, oldest first; a line that comes again
    /// later keeps only its latest place.
    pub fn from_lines(lines: Vec<String>) -> (r: History)
        ensures
            r@ == submitted_all(Seq::empty(), lines@.map_values(|v: String| v@)),
    {
        let mut h = History::new();
        let ghost ls = lines@.map_values(|v: String| v@);
        let mut i: usize = 0;
        while i < lines.len()
            invariant
                i <= lines@.len(),
                ls == lines@.map_values(|v: String| v@),
                h@ == submitted_all(Seq::empty(), ls.take(i as int)),
            decreases lines.len() - i,
        {
            assert(ls.take(i + 1).drop_last() =~= ls.take(i as int));
            h.submit(lines[i].as_str());
            i += 1;
        }
        assert(ls.take(i as int) =~= ls);
        h
    }

    /// The entry at `index`, or an empty text past the end.
    pub fn get(&self, index: usize) -> (r: &str)
        ensures
            index < self@.len() ==> r@ == self@[index as int],
            index >= self@.len() ==> r@.len() == 0,
    {
        if index < self.values.len() {
            self.values[index].as_str()
        } else {
            proof { reveal_strlit(""); }
            ""
        }
    }

    /// Records `value` as the most recent entry, removing an earlier
    /// occurrence of it.
    pub fn submit(&mut self, value: &str)
        ensures
            final(self)@ == submitted(old(self)@, value@),
    {
        let ghost before = self@;
        let mut kept: Vec<String> = Vec::new();
        let mut i: usize = 0;
        while i < self.values.len()
            invariant
                i <= self.values@.len(),
                before == self.values@.map_values(|v: String| v@),
                kept@.map_values(|v: String| v@) == without(before.take(i as int), value@),
            decreases self.values.len() - i,
        {
            assert(before.take(i + 1).drop_last() =~= before.take(i as int));
            let ghost k0 = kept@;
            if !str_eq(self.values[i].as_str(), value) {
                kept.push(self.values[i].clone());
                assert(kept@.map_values(|v: String| v@) =~= k0.map_values(|v: String| v@).push(before[i as int]));
            }
            i += 1;
        }
        assert(before.take(i as int) =~= before);
        let ghost k1 = kept@;
        kept.push(value.to_string());
        assert(kept@.map_values(|v: String| v@) =~= k1.map_values(|v: String| v@).push(value@));
        self.values = kept;
    }

    /// The history has no more entries than an index can count.
    pub proof fn lemma_len_fits(&self)
        ensures
            self@.len() <= usize::MAX,
    {
        assert(self.values.len() == self.values@.len());
    }

    /// The index of the most recent entry, if there is one.
    pub fn get_first_index(&self) -> (r: Option<usize>)
        ensures
            self@.len() <= usize::MAX,
            self@.len() == 0 ==> r is None,
            self@.len() > 0 ==> r == Some((self@.len() - 1) as usize),
    {
        if self.values.len() == 0 {
            None
        } else {
            Some(self.values.len() - 1)
        }
    }

    /// All entries, oldest first.
    pub fn get_values(&self) -> (r: &Vec<String>)
        ensures
            r@.map_values(|v: String| v@) == self@,
    {
        &self.values
    }
}

/// The history after submitting each of `xs` in turn.
pub open spec fn submitted_all(s: Seq<Seq<char>>, xs: Seq<Seq<char>>) -> Seq<Seq<char>>
    decreases xs.len(),
{
    if xs.len() == 0 {
        s
    } else {
        submitted(submitted_all(s, xs.drop_last()), xs.last())
    }
}

proof fn lemma_without_absent(s: Seq<Seq<char>>, x: Seq<char>)
    ensures
        occurrences(without(s, x), x) == 0,
    decreases s.len(),
{
    if s.len() > 0 {
        let r = without(s.drop_last(), x);
        lemma_without_absent(s.drop_last(), x);
        if s.last() != x {
            assert(r.push(s.last()).drop_last() =~= r);
        }
    }
}

/// After `x` is submitted, it occurs exactly once in the history, as the
/// most recent entry.
pub proof fn lemma_submit_once_and_last(s: Seq<Seq<char>>, x: Seq<char>)
    ensures
        occurrences(submitted(s, x), x) == 1,
        submitted(s, x).last() == x,
{
    lemma_without_absent(s, x);
    assert(submitted(s, x).drop_last() =~= without(s, x));
}

} // verus!
