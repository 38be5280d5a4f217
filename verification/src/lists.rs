//! Lists of integers: membership, and the numbers of a range that a list
//! leaves out.

use vstd::prelude::*;

verus! {

/// The integers from `low` to `high`, both included, in ascending order; empty
/// where `high < low`.
pub open spec fn span(low: int, high: int) -> Seq<i32> {
    Seq::new(
        if high < low {
            0nat
        } else {
            (high - low + 1) as nat
        },
        |i: int| (low + i) as i32,
    )
}

/// The integers from `low` to `high` that `excluded` does not hold, in
/// ascending order.
pub open spec fn spec_excluding(low: int, high: int, excluded: Seq<i32>) -> Seq<i32> {
    span(low, high).filter(|c: i32| !excluded.contains(c))
}

/// Filtering a sequence that grew by one item looks at that item alone.
proof fn lemma_filter_push(s: Seq<i32>, x: i32, pred: spec_fn(i32) -> bool)
    ensures
        s.push(x).filter(pred) == if pred(x) {
            s.filter(pred).push(x)
        } else {
            s.filter(pred)
        },
{
    reveal(Seq::filter);
    assert(s.push(x).drop_last() =~= s);
}

/// What a filtered sequence holds: the items of the sequence that pass.
proof fn lemma_filter_holds(s: Seq<i32>, pred: spec_fn(i32) -> bool, x: i32)
    ensures
        s.filter(pred).contains(x) <==> s.contains(x) && pred(x),
    decreases s.len(),
{
    reveal(Seq::filter);
    if s.len() > 0 {
        let front = s.drop_last();
        lemma_filter_holds(front, pred, x);
        assert(s =~= front.push(s.last()));
        lemma_filter_push(front, s.last(), pred);
        if s.contains(x) {
            let i = choose|i: int| 0 <= i < s.len() && s[i] == x;
            if i < s.len() - 1 {
                assert(front[i] == x);
            }
        }
        if front.contains(x) {
            let i = choose|i: int| 0 <= i < front.len() && front[i] == x;
            assert(s[i] == x);
        }
        if pred(s.last()) {
            let kept = front.filter(pred);
            if kept.push(s.last()).contains(x) {
                let i = choose|i: int| 0 <= i < kept.len() + 1 && kept.push(s.last())[i] == x;
                if i < kept.len() {
                    assert(kept[i] == x);
                }
            }
            if kept.contains(x) {
                let i = choose|i: int| 0 <= i < kept.len() && kept[i] == x;
                assert(kept.push(s.last())[i] == x);
            }
            if x == s.last() {
                assert(kept.push(s.last())[kept.len() as int] == x);
                assert(s[s.len() - 1] == x);
            }
        }
    }
}

/// A number is among those that `excluding` keeps exactly when it lies in the
/// range and `excluded` does not hold it; and no more are kept than the range
/// has.
pub proof fn lemma_excluding_holds(low: int, high: int, excluded: Seq<i32>, x: i32)
    requires
        i32::MIN <= low,
        high <= i32::MAX,
    ensures
        spec_excluding(low, high, excluded).contains(x) <==> low <= x <= high
            && !excluded.contains(x),
        spec_excluding(low, high, excluded).len() <= span(low, high).len(),
{
    let all = span(low, high);
    let pred = |c: i32| !excluded.contains(c);
    lemma_filter_holds(all, pred, x);
    all.lemma_filter_len(pred);
    if low <= x <= high {
        assert(all[x - low] == x);
    }
}

/// Tells whether `list` holds `x`.
pub fn holds(list: &Vec<i32>, x: i32) -> (found: bool)
    ensures
        found == list@.contains(x),
{
    let mut k: usize = 0;
    while k < list.len()
        invariant
            k <= list.len(),
            forall|j: int| 0 <= j < k ==> list@[j] != x,
        decreases list.len() - k,
    {
        if list[k] == x {
            return true;
        }
        k += 1;
    }
    false
}

/// Collects, in ascending order, the integers from `low` to `high` that
/// `excluded` does not hold.
pub fn excluding(low: i32, high: i32, excluded: &Vec<i32>) -> (kept: Vec<i32>)
    ensures
        kept@ == spec_excluding(low as int, high as int, excluded@),
{
    let mut kept: Vec<i32> = Vec::new();
    let mut next: i64 = low as i64;
    proof {
        reveal(Seq::filter);
        assert(span(low as int, low - 1) =~= Seq::<i32>::empty());
    }
    while next <= high as i64
        invariant
            low <= next,
            next <= high + 1 || next == low,
            kept@ == spec_excluding(low as int, next - 1, excluded@),
        decreases high - next + 1,
    {
        let c: i32 = next as i32;
        proof {
            assert(span(low as int, next as int) =~= span(low as int, next - 1).push(c));
            lemma_filter_push(span(low as int, next - 1), c, |c: i32| !excluded@.contains(c));
        }
        if !holds(excluded, c) {
            kept.push(c);
        }
        next += 1;
    }
    proof {
        if high < low {
            assert(span(low as int, high as int) =~= span(low as int, low - 1));
        }
    }
    kept
}

} // verus!
