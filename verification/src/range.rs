//! The canonical range type and its engine: containment and iteration over
//! the normalized triple `(start, end, step)`, where `end` is always
//! inclusive.

use vstd::prelude::*;
use crate::elem::RangeElem;

verus! {

/// The stride of a range: either the implicit unit step, or an explicit
/// positive count of elements to skip between visits.
#[derive(Clone, Copy, Debug)]
pub enum Step {
    Unit,
    By(usize),
}

/// A normalized range: `start` and `end` are both inclusive, and `step`
/// records the stride iteration uses. An inverted value (`start > end`)
/// is representable and behaves as empty rather than failing.
#[derive(Clone, Copy, Debug)]
pub struct OneRange<T> {
    pub start: T,
    pub end: T,
    pub step: Step,
}

impl<T: RangeElem> OneRange<T> {
    /// The mathematical value of the inclusive lower bound.
    pub open spec fn lo(self) -> int {
        self.start.as_int()
    }

    /// The mathematical value of the inclusive upper bound.
    pub open spec fn hi(self) -> int {
        self.end.as_int()
    }

    /// The stride as a mathematical integer; the unit step counts as 1.
    pub open spec fn stride(self) -> int {
        match self.step {
            Step::Unit => 1,
            Step::By(k) => k as int,
        }
    }

    /// A well-formed range has a positive stride. Every builder establishes
    /// this; only iteration depends on it.
    pub open spec fn wf(self) -> bool {
        self.stride() >= 1
    }

    /// Containment: both bounds inclusive.
    pub open spec fn contains_spec(self, v: int) -> bool {
        self.lo() <= v && v <= self.hi()
    }

    /// How many elements iteration visits.
    pub open spec fn len_spec(self) -> nat {
        if self.lo() > self.hi() {
            0
        } else {
            ((self.hi() - self.lo()) / self.stride() + 1) as nat
        }
    }

    /// The sequence of values iteration visits: `lo, lo + stride,
    /// lo + 2 * stride, ...`, while the value is at most `hi`.
    pub open spec fn elem_seq(self) -> Seq<int> {
        Seq::new(self.len_spec(), |i: int| self.lo() + i * self.stride())
    }

    /// The closed shape: `[start, end]`, unit step.
    pub fn closed(start: T, end: T) -> (r: Self)
        ensures
            r == (OneRange { start, end, step: Step::Unit }),
    {
        OneRange { start, end, step: Step::Unit }
    }

    /// The half-open shape: `[start, end)`, unit step. The exclusive bound
    /// is turned into an inclusive one in the element type's own arithmetic,
    /// so `end` must not be the type's minimum: that subtraction would
    /// underflow, and is a contract violation rather than a wraparound.
    pub fn half_open(start: T, end: T) -> (r: Self)
        requires
            end.as_int() > T::min_spec(),
        ensures
            r.start == start,
            r.end.as_int() == end.as_int() - 1,
            r.step == Step::Unit,
    {
        OneRange { start, end: end.pred(), step: Step::Unit }
    }

    /// The closed strided shape: `[start, end]` walked with stride `step`.
    pub fn closed_stepped(start: T, end: T, step: usize) -> (r: Self)
        requires
            step >= 1,
        ensures
            r == (OneRange { start, end, step: Step::By(step) }),
    {
        OneRange { start, end, step: Step::By(step) }
    }

    /// The half-open strided shape: the exclusive bound becomes inclusive
    /// (`end - 1`) before the stride applies, so the stride walks the
    /// inclusive window `[start, end - 1]`. As with `half_open`, `end` must
    /// not be the type's minimum.
    pub fn half_open_stepped(start: T, end: T, step: usize) -> (r: Self)
        requires
            step >= 1,
            end.as_int() > T::min_spec(),
        ensures
            r.start == start,
            r.end.as_int() == end.as_int() - 1,
            r.step == Step::By(step),
    {
        OneRange { start, end: end.pred(), step: Step::By(step) }
    }

    /// The open-start closed shape `..=end`: the type's true minimum fills
    /// the missing start.
    pub fn open_start_closed(end: T) -> (r: Self)
        ensures
            r.start.as_int() == T::min_spec(),
            r.end == end,
            r.step == Step::Unit,
    {
        OneRange { start: T::min_value(), end, step: Step::Unit }
    }

    /// The open-start half-open shape `..end`: the type's true minimum fills
    /// the missing start, and the exclusive bound becomes `end - 1`. `end`
    /// must not be the type's minimum.
    pub fn open_start_half_open(end: T) -> (r: Self)
        requires
            end.as_int() > T::min_spec(),
        ensures
            r.start.as_int() == T::min_spec(),
            r.end.as_int() == end.as_int() - 1,
            r.step == Step::Unit,
    {
        OneRange { start: T::min_value(), end: end.pred(), step: Step::Unit }
    }

    /// The open-start closed strided shape `..=end` with a stride.
    pub fn open_start_closed_stepped(end: T, step: usize) -> (r: Self)
        requires
            step >= 1,
        ensures
            r.start.as_int() == T::min_spec(),
            r.end == end,
            r.step == Step::By(step),
    {
        OneRange { start: T::min_value(), end, step: Step::By(step) }
    }

    /// The open-start half-open strided shape `..end` with a stride. `end`
    /// must not be the type's minimum.
    pub fn open_start_half_open_stepped(end: T, step: usize) -> (r: Self)
        requires
            step >= 1,
            end.as_int() > T::min_spec(),
        ensures
            r.start.as_int() == T::min_spec(),
            r.end.as_int() == end.as_int() - 1,
            r.step == Step::By(step),
    {
        OneRange { start: T::min_value(), end: end.pred(), step: Step::By(step) }
    }

    /// True iff `start <= item <= end` under the type's total order; both
    /// ends inclusive.
    pub fn contains(&self, item: &T) -> (r: bool)
        ensures
            r == self.contains_spec(item.as_int()),
    {
        self.start.le(*item) && (*item).le(self.end)
    }

    /// The inclusive lower bound.
    pub fn start_bound(&self) -> (r: T)
        ensures
            r == self.start,
    {
        self.start
    }

    /// The inclusive upper bound.
    pub fn end_bound(&self) -> (r: T)
        ensures
            r == self.end,
    {
        self.end
    }

    /// Enumerates the range without consuming it: the ascending sequence
    /// `start, start + k, start + 2k, ...` of every visited value at most
    /// `end`, where `k` is the stride. An inverted range yields nothing.
    /// The result depends on the range value alone, so repeated calls
    /// enumerate identical sequences.
    pub fn iter(&self) -> (r: Vec<T>)
        requires
            self.wf(),
        ensures
            r@.len() == self.len_spec(),
            forall|i: int| 0 <= i < r@.len() ==> #[trigger] r@[i].as_int() == self.lo() + i
                * self.stride(),
            r@.map_values(|t: T| t.as_int()) == self.elem_seq(),
    {
        let mut out: Vec<T> = Vec::new();
        let k: usize = match self.step {
            Step::Unit => 1,
            Step::By(s) => s,
        };
        if !self.start.le(self.end) {
            proof {
                assert(out@.map_values(|t: T| t.as_int()) =~= self.elem_seq());
            }
            return out;
        }
        let mut cur: T = self.start;
        proof {
            assert(out@.len() * self.stride() == 0) by (nonlinear_arith)
                requires
                    out@.len() == 0,
            ;
        }
        loop
            invariant
                self.wf(),
                k as int == self.stride(),
                self.lo() <= self.hi(),
                self.lo() <= cur.as_int() <= self.hi(),
                cur.as_int() == self.lo() + out@.len() * self.stride(),
                forall|i: int| 0 <= i < out@.len() ==> #[trigger] out@[i].as_int() == self.lo() + i
                    * self.stride(),
            decreases self.hi() - cur.as_int(),
        {
            out.push(cur);
            proof {
                assert((out@.len() as int) * self.stride() == (out@.len() - 1) * self.stride()
                    + self.stride()) by (nonlinear_arith);
            }
            match cur.add_steps(k) {
                Some(next) => {
                    if next.le(self.end) {
                        cur = next;
                    } else {
                        proof {
                            self.lemma_iter_complete(out@, next.as_int());
                        }
                        return out;
                    }
                },
                None => {
                    proof {
                        self.end.lemma_bounds();
                        self.lemma_iter_complete(out@, cur.as_int() + k);
                    }
                    return out;
                },
            }
        }
    }

    /// Enumerates the range, consuming it; the sequence is the one `iter`
    /// produces for the same range value.
    pub fn into_iter(self) -> (r: Vec<T>)
        requires
            self.wf(),
        ensures
            r@.len() == self.len_spec(),
            forall|i: int| 0 <= i < r@.len() ==> #[trigger] r@[i].as_int() == self.lo() + i
                * self.stride(),
            r@.map_values(|t: T| t.as_int()) == self.elem_seq(),
    {
        self.iter()
    }

    /// A traversal that has walked past `hi` has visited the whole range:
    /// `visited` holds the stride multiples from `lo` on, its last entry is
    /// still within the range, and the next value the stride would reach
    /// lies beyond `hi` — so `visited` is exactly the range's sequence.
    proof fn lemma_iter_complete(self, visited: Seq<T>, next: int)
        requires
            self.wf(),
            self.lo() <= self.hi(),
            visited.len() >= 1,
            forall|i: int| 0 <= i < visited.len() ==> #[trigger] visited[i].as_int() == self.lo()
                + i * self.stride(),
            visited.last().as_int() <= self.hi(),
            next == self.lo() + (visited.len() as int) * self.stride(),
            next > self.hi(),
        ensures
            visited.len() == self.len_spec(),
            visited.map_values(|t: T| t.as_int()) == self.elem_seq(),
    {
        let n = visited.len() as int;
        let d = self.hi() - self.lo();
        let k = self.stride();
        assert(n * k == (n - 1) * k + k) by (nonlinear_arith);
        assert(visited.last().as_int() == self.lo() + (n - 1) * k);
        let rem = d - (n - 1) * k;
        assert(0 <= rem < k);
        vstd::arithmetic::div_mod::lemma_fundamental_div_mod_converse(d, k, n - 1, rem);
        assert(n == self.len_spec());
        assert(visited.map_values(|t: T| t.as_int()) =~= self.elem_seq());
    }
}

/// A closed range `[a, b]` contains exactly the values `v` with
/// `a <= v <= b`, and nothing outside that interval.
pub proof fn lemma_closed_contains<T: RangeElem>(a: T, b: T, v: int)
    ensures
        (OneRange { start: a, end: b, step: Step::Unit }).contains_spec(v) <==> (a.as_int() <= v
            <= b.as_int()),
{
}

/// For `a < b`, the range normalized from the half-open shape `(a, b)` —
/// its upper bound rewritten to `b - 1` — contains exactly the half-open
/// interval `a <= v < b`, the same values as the closed shape `[a, b - 1]`.
pub proof fn lemma_half_open_equiv_closed<T: RangeElem>(r: OneRange<T>, a: T, b: T, v: int)
    requires
        a.as_int() < b.as_int(),
        r.start == a,
        r.end.as_int() == b.as_int() - 1,
    ensures
        r.contains_spec(v) <==> (a.as_int() <= v < b.as_int()),
{
}

/// Iterating a non-inverted range with stride `k` visits exactly
/// `lo, lo + k, lo + 2k, ...` up to and including the largest such value
/// at most `hi`: the sequence starts at `lo`, stays inside the bounds,
/// ascends strictly (no duplicates), steps by exactly `k` (no gaps), and
/// one more step would leave the range.
pub proof fn lemma_stepped_seq<T: RangeElem>(r: OneRange<T>)
    requires
        r.wf(),
        r.lo() <= r.hi(),
    ensures
        r.elem_seq().len() >= 1,
        r.elem_seq()[0] == r.lo(),
        forall|i: int| 0 <= i < r.elem_seq().len() ==> r.lo() <= #[trigger] r.elem_seq()[i]
            <= r.hi(),
        forall|i: int| 0 <= i && i + 1 < r.elem_seq().len() ==> #[trigger] r.elem_seq()[i + 1]
            == r.elem_seq()[i] + r.stride(),
        forall|i: int, j: int| 0 <= i < j < r.elem_seq().len() ==> #[trigger] r.elem_seq()[i]
            < #[trigger] r.elem_seq()[j],
        r.lo() + r.elem_seq().len() * r.stride() > r.hi(),
{
    let d = r.hi() - r.lo();
    let k = r.stride();
    let q = d / k;
    vstd::arithmetic::div_mod::lemma_div_pos_is_pos(d, k);
    vstd::arithmetic::div_mod::lemma_fundamental_div_mod(d, k);
    vstd::arithmetic::div_mod::lemma_mod_bound(d, k);
    assert(r.len_spec() == q + 1);
    assert(0 * k == 0) by (nonlinear_arith);
    assert forall|i: int| 0 <= i < r.elem_seq().len() implies r.lo() <= #[trigger] r.elem_seq()[i]
        <= r.hi() by {
        assert(0 <= i * k <= d) by (nonlinear_arith)
            requires
                0 <= i <= q,
                k >= 1,
                d == k * q + (d % k),
                0 <= d % k,
        ;
    };
    assert forall|i: int| 0 <= i && i + 1 < r.elem_seq().len() implies #[trigger] r.elem_seq()[i
        + 1] == r.elem_seq()[i] + r.stride() by {
        assert((i + 1) * k == i * k + k) by (nonlinear_arith);
    };
    assert forall|i: int, j: int| 0 <= i < j < r.elem_seq().len() implies #[trigger] r.elem_seq()[i]
        < #[trigger] r.elem_seq()[j] by {
        assert(i * k < j * k) by (nonlinear_arith)
            requires
                i < j,
                k >= 1,
        ;
    };
    assert((q + 1) * k == k * q + k) by (nonlinear_arith);
}

/// Enumerating the same range value twice yields identical sequences:
/// any two vectors whose contents are the range's element sequence are
/// equal element for element.
pub proof fn lemma_iter_restartable<T: RangeElem>(r: OneRange<T>, first: Seq<T>, second: Seq<T>)
    requires
        first.map_values(|t: T| t.as_int()) == r.elem_seq(),
        second.map_values(|t: T| t.as_int()) == r.elem_seq(),
    ensures
        first == second,
{
    assert(first.map_values(|t: T| t.as_int()).len() == first.len());
    assert(second.map_values(|t: T| t.as_int()).len() == second.len());
    assert forall|i: int| 0 <= i < first.len() implies first[i] == second[i] by {
        assert(first.map_values(|t: T| t.as_int())[i] == first[i].as_int());
        assert(second.map_values(|t: T| t.as_int())[i] == second[i].as_int());
        first[i].lemma_as_int_injective(second[i]);
    };
    assert(first =~= second);
}

/// An inverted range (`start > end`) contains no value and enumerates no
/// element.
pub proof fn lemma_inverted_empty<T: RangeElem>(r: OneRange<T>)
    requires
        r.lo() > r.hi(),
    ensures
        forall|v: int| !r.contains_spec(v),
        r.elem_seq().len() == 0,
{
}

} // verus!
