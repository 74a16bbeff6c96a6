use vstd::prelude::*;

verus! {

/// Greedy line filling over the lengths of the first `n` words: the indices
/// of the words that start a line, and the length of the last line. A word
/// goes on the current line, after one space, unless that would make the
/// line longer than `max`.
pub open spec fn wrap_state(lens: Seq<usize>, max: int, n: int) -> (Seq<usize>, int)
    decreases n,
{
    if n <= 0 {
        (Seq::empty(), 0)
    } else {
        let prev = wrap_state(lens, max, n - 1);
        let w = lens[n - 1] as int;
        if prev.1 == 0 || prev.1 + w + 1 > max {
            (prev.0.push((n - 1) as usize), w)
        } else {
            (prev.0, prev.1 + w + 1)
        }
    }
}

/// Breaks a text of words, given by their non-zero lengths, into lines of at
/// most `max_chars` characters (a longer word stands on a line of its own).
/// Returns the index of the first word of each line.
pub fn wrap_lines(lens: &Vec<usize>, max_chars: usize) -> (r: Vec<usize>)
    requires
        forall|i: int| 0 <= i < lens@.len() ==> lens@[i] > 0,
    ensures
        r@ == wrap_state(lens@, max_chars as int, lens@.len() as int).0,
{
    let mut starts: Vec<usize> = Vec::new();
    let mut cur: usize = 0;
    let mut i: usize = 0;
    while i < lens.len()
        invariant
            0 <= i <= lens@.len(),
            forall|j: int| 0 <= j < lens@.len() ==> lens@[j] > 0,
            starts@ == wrap_state(lens@, max_chars as int, i as int).0,
            cur as int == wrap_state(lens@, max_chars as int, i as int).1,
            i > 0 ==> cur > 0,
            i == 0 ==> cur == 0,
        decreases lens.len() - i,
    {
        let w = lens[i];
        if cur == 0 || cur >= max_chars || w >= max_chars - cur {
            starts.push(i);
            cur = w;
        } else {
            cur = cur + w + 1;
        }
        i = i + 1;
    }
    starts
}

} // verus!
