//! Arranging pixels by colour: a merge sort that keeps pixels of one colour in
//! the order in which they came.

use vstd::prelude::*;
use vstd::multiset::Multiset;
use crate::pixelcollector::{
    color_sorted,
    is_ordered_frame_of,
    is_stable_ordering,
    keeps_order_within_colors,
    of_rank,
    wire_bytes,
    CompressionKind,
};
use crate::wire::{frame_bytes, LogicalPixel, PixelCollectorKind};

verus! {

proof fn lemma_pushed_stays_sorted(s: Seq<LogicalPixel>, p: LogicalPixel)
    requires
        color_sorted(s),
        s.len() > 0 ==> s.last().color.rank() <= p.color.rank(),
    ensures
        color_sorted(s.push(p)),
{
    let t = s.push(p);
    assert forall|i: int, j: int| 0 <= i <= j < t.len() implies (#[trigger] t[i]).color.rank() <= (
    #[trigger] t[j]).color.rank() by {
        if j < s.len() {
            assert(t[i] == s[i] && t[j] == s[j]);
        } else if i < s.len() {
            assert(t[i] == s[i]);
            assert(s[i].color.rank() <= s[s.len() - 1].color.rank());
        }
    }
}

proof fn lemma_nothing_holds_nothing(s: Seq<LogicalPixel>)
    requires
        s.len() == 0,
    ensures
        s.to_multiset() == Multiset::<LogicalPixel>::empty(),
{
    broadcast use vstd::multiset::group_multiset_axioms, vstd::seq_lib::to_multiset_contains;

    assert forall|p: LogicalPixel| s.to_multiset().count(p) == 0 by {
        assert(!s.contains(p));
    }
    assert(s.to_multiset() =~= Multiset::<LogicalPixel>::empty());
}

proof fn lemma_filter_pushed(s: Seq<LogicalPixel>, p: LogicalPixel, r: int)
    ensures
        s.push(p).filter(of_rank(r)) == if p.color.rank() == r {
            s.filter(of_rank(r)).push(p)
        } else {
            s.filter(of_rank(r))
        },
{
    reveal(Seq::filter);
    assert(s.push(p).drop_last() =~= s);
}

proof fn lemma_filter_finds_nothing(s: Seq<LogicalPixel>, r: int)
    requires
        forall|i: int| 0 <= i < s.len() ==> (#[trigger] s[i]).color.rank() != r,
    ensures
        s.filter(of_rank(r)) == Seq::<LogicalPixel>::empty(),
    decreases s.len(),
{
    reveal(Seq::filter);
    if s.len() > 0 {
        let rest = s.drop_last();
        assert forall|i: int| 0 <= i < rest.len() implies (#[trigger] rest[i]).color.rank()
            != r by {
            assert(rest[i] == s[i]);
        }
        lemma_filter_finds_nothing(rest, r);
        assert(s[s.len() - 1].color.rank() != r);
    }
}

proof fn lemma_prefix_grows(s: Seq<LogicalPixel>, i: int, rest: Multiset<LogicalPixel>)
    requires
        0 <= i < s.len(),
    ensures
        s.subrange(0, i + 1).to_multiset().add(rest) == s.subrange(0, i).to_multiset().add(
            rest,
        ).insert(s[i]),
{
    broadcast use vstd::multiset::group_multiset_axioms;

    assert(s.subrange(0, i + 1) =~= s.subrange(0, i).push(s[i]));
    vstd::seq_lib::to_multiset_build(s.subrange(0, i), s[i]);
    assert(s.subrange(0, i).to_multiset().insert(s[i]).add(rest) =~= s.subrange(
        0,
        i,
    ).to_multiset().add(rest).insert(s[i]));
}

/// Merges two runs that are arranged by colour into one. Where colours are
/// equal, the pixels of `left` come first.
fn merge(left: &Vec<LogicalPixel>, right: &Vec<LogicalPixel>) -> (out: Vec<LogicalPixel>)
    requires
        color_sorted(left@),
        color_sorted(right@),
    ensures
        color_sorted(out@),
        out@.to_multiset() == left@.to_multiset().add(right@.to_multiset()),
        forall|r: int|
            #[trigger] out@.filter(of_rank(r)) == left@.filter(of_rank(r)) + right@.filter(
                of_rank(r),
            ),
{
    let n: usize = left.len();
    let m: usize = right.len();
    let mut out: Vec<LogicalPixel> = Vec::new();
    let mut i: usize = 0;
    let mut j: usize = 0;
    proof {
        broadcast use vstd::multiset::group_multiset_axioms;

        lemma_nothing_holds_nothing(left@.subrange(0, 0));
        lemma_nothing_holds_nothing(right@.subrange(0, 0));
        lemma_nothing_holds_nothing(out@);
        assert(out@.to_multiset() =~= left@.subrange(0, 0).to_multiset().add(
            right@.subrange(0, 0).to_multiset(),
        ));
        assert forall|r: int| #[trigger]
            out@.filter(of_rank(r)) == left@.subrange(0, 0).filter(of_rank(r)) + right@.subrange(
                0,
                0,
            ).filter(of_rank(r)) by {
            lemma_filter_finds_nothing(out@, r);
            lemma_filter_finds_nothing(left@.subrange(0, 0), r);
            lemma_filter_finds_nothing(right@.subrange(0, 0), r);
        }
    }
    while i < n || j < m
        invariant
            0 <= i <= n == left@.len(),
            0 <= j <= m == right@.len(),
            color_sorted(left@),
            color_sorted(right@),
            color_sorted(out@),
            out@.to_multiset() == left@.subrange(0, i as int).to_multiset().add(
                right@.subrange(0, j as int).to_multiset(),
            ),
            out@.len() > 0 && i < n ==> out@.last().color.rank() <= left@[i as int].color.rank(),
            out@.len() > 0 && j < m ==> out@.last().color.rank() <= right@[j as int].color.rank(),
            forall|r: int|
                #[trigger] out@.filter(of_rank(r)) == left@.subrange(0, i as int).filter(
                    of_rank(r),
                ) + right@.subrange(0, j as int).filter(of_rank(r)),
            i < n ==> forall|k: int|
                0 <= k < j ==> (#[trigger] right@[k]).color.rank() < left@[i as int].color.rank(),
        decreases (n - i) + (m - j),
    {
        let take_left: bool = if j >= m {
            true
        } else if i >= n {
            false
        } else {
            left[i].color.sort_key() <= right[j].color.sort_key()
        };
        let ghost before = out@;
        if take_left {
            let p: LogicalPixel = left[i];
            proof {
                lemma_pushed_stays_sorted(before, p);
                vstd::seq_lib::to_multiset_build(before, p);
                lemma_prefix_grows(left@, i as int, right@.subrange(0, j as int).to_multiset());
                if i + 1 < n {
                    assert(left@[i as int].color.rank() <= left@[i + 1].color.rank());
                }
                let taken = left@.subrange(0, i as int);
                let others = right@.subrange(0, j as int);
                assert(left@.subrange(0, i + 1) =~= taken.push(p));
                assert forall|r: int| #[trigger]
                    before.push(p).filter(of_rank(r)) == taken.push(p).filter(of_rank(r))
                        + others.filter(of_rank(r)) by {
                    lemma_filter_pushed(before, p, r);
                    lemma_filter_pushed(taken, p, r);
                    assert(before.filter(of_rank(r)) == taken.filter(of_rank(r)) + others.filter(
                        of_rank(r),
                    ));
                    if p.color.rank() == r {
                        assert forall|k: int| 0 <= k < others.len() implies (
                        #[trigger] others[k]).color.rank() != r by {
                            assert(others[k] == right@[k]);
                        }
                        lemma_filter_finds_nothing(others, r);
                        assert(taken.filter(of_rank(r)).push(p) =~= taken.filter(of_rank(r)).push(
                            p,
                        ) + others.filter(of_rank(r)));
                    }
                }
            }
            out.push(p);
            i += 1;
        } else {
            let p: LogicalPixel = right[j];
            proof {
                broadcast use vstd::multiset::group_multiset_axioms;

                lemma_pushed_stays_sorted(before, p);
                vstd::seq_lib::to_multiset_build(before, p);
                lemma_prefix_grows(right@, j as int, left@.subrange(0, i as int).to_multiset());
                assert(left@.subrange(0, i as int).to_multiset().add(
                    right@.subrange(0, j + 1).to_multiset(),
                ) =~= right@.subrange(0, j + 1).to_multiset().add(
                    left@.subrange(0, i as int).to_multiset(),
                ));
                assert(left@.subrange(0, i as int).to_multiset().add(
                    right@.subrange(0, j as int).to_multiset(),
                ) =~= right@.subrange(0, j as int).to_multiset().add(
                    left@.subrange(0, i as int).to_multiset(),
                ));
                if j + 1 < m {
                    assert(right@[j as int].color.rank() <= right@[j + 1].color.rank());
                }
                let taken = right@.subrange(0, j as int);
                let others = left@.subrange(0, i as int);
                assert(right@.subrange(0, j + 1) =~= taken.push(p));
                assert forall|r: int| #[trigger]
                    before.push(p).filter(of_rank(r)) == others.filter(of_rank(r)) + taken.push(
                        p,
                    ).filter(of_rank(r)) by {
                    lemma_filter_pushed(before, p, r);
                    lemma_filter_pushed(taken, p, r);
                    assert(before.filter(of_rank(r)) == others.filter(of_rank(r)) + taken.filter(
                        of_rank(r),
                    ));
                    if p.color.rank() == r {
                        assert((others.filter(of_rank(r)) + taken.filter(of_rank(r))).push(p)
                            =~= others.filter(of_rank(r)) + taken.filter(of_rank(r)).push(p));
                    }
                }
            }
            out.push(p);
            j += 1;
        }
    }
    proof {
        assert(left@.subrange(0, n as int) =~= left@);
        assert(right@.subrange(0, m as int) =~= right@);
    }
    out
}

fn copy_range(pixels: &Vec<LogicalPixel>, from: usize, to: usize) -> (part: Vec<LogicalPixel>)
    requires
        from <= to <= pixels@.len(),
    ensures
        part@ == pixels@.subrange(from as int, to as int),
{
    let mut part: Vec<LogicalPixel> = Vec::new();
    let mut i: usize = from;
    while i < to
        invariant
            from <= i <= to <= pixels@.len(),
            part@ == pixels@.subrange(from as int, i as int),
        decreases to - i,
    {
        part.push(pixels[i]);
        assert(part@ =~= pixels@.subrange(from as int, i + 1));
        i += 1;
    }
    part
}

/// Arranges pixels by ascending colour. The result holds the same pixels,
/// each as often as before; pixels of one colour keep their order.
pub fn sort_by_color(pixels: Vec<LogicalPixel>) -> (sorted: Vec<LogicalPixel>)
    ensures
        is_stable_ordering(sorted@, pixels@),
    decreases pixels@.len(),
{
    let n: usize = pixels.len();
    if n <= 1 {
        return pixels;
    }
    let mid: usize = n / 2;
    let left: Vec<LogicalPixel> = copy_range(&pixels, 0, mid);
    let right: Vec<LogicalPixel> = copy_range(&pixels, mid, n);
    proof {
        assert(pixels@ =~= left@ + right@);
        vstd::seq_lib::lemma_multiset_commutative(left@, right@);
    }
    let left_sorted: Vec<LogicalPixel> = sort_by_color(left);
    let right_sorted: Vec<LogicalPixel> = sort_by_color(right);
    let sorted: Vec<LogicalPixel> = merge(&left_sorted, &right_sorted);
    proof {
        assert forall|r: int| #[trigger]
            sorted@.filter(of_rank(r)) == pixels@.filter(of_rank(r)) by {
            Seq::filter_distributes_over_add(left@, right@, of_rank(r));
            assert(left_sorted@.filter(of_rank(r)) == left@.filter(of_rank(r)));
            assert(right_sorted@.filter(of_rank(r)) == right@.filter(of_rank(r)));
        }
    }
    sorted
}

proof fn lemma_twins_are_equal(a: Seq<LogicalPixel>, b: Seq<LogicalPixel>)
    requires
        a.to_multiset() == b.to_multiset(),
        color_sorted(a),
        color_sorted(b),
        keeps_order_within_colors(a, b),
    ensures
        a == b,
    decreases a.len(),
{
    broadcast use
        vstd::multiset::group_multiset_axioms,
        vstd::seq_lib::to_multiset_len,
        vstd::seq_lib::to_multiset_contains,
    ;

    assert(a.len() == b.len()) by {
        assert(a.to_multiset().len() == a.len());
        assert(b.to_multiset().len() == b.len());
    }
    if a.len() > 0 {
        let x = a.last();
        let y = b.last();
        let a0 = a.drop_last();
        let b0 = b.drop_last();
        let r = x.color.rank();
        assert(y.color.rank() == r) by {
            assert(a.contains(x));
            assert(b.to_multiset().count(x) > 0);
            assert(b.contains(x));
            let i = choose|i: int| 0 <= i < b.len() && b[i] == x;
            assert(b[i].color.rank() <= b[b.len() - 1].color.rank());
            assert(b.contains(y));
            assert(a.to_multiset().count(y) > 0);
            assert(a.contains(y));
            let j = choose|j: int| 0 <= j < a.len() && a[j] == y;
            assert(a[j].color.rank() <= a[a.len() - 1].color.rank());
        }
        assert(a =~= a0.push(x));
        assert(b =~= b0.push(y));
        lemma_filter_pushed(a0, x, r);
        lemma_filter_pushed(b0, y, r);
        assert(a.filter(of_rank(r)) == b.filter(of_rank(r)));
        assert(x == y) by {
            assert(a0.filter(of_rank(r)).push(x).last() == x);
            assert(b0.filter(of_rank(r)).push(y).last() == y);
        }
        assert(a0.to_multiset() =~= b0.to_multiset()) by {
            vstd::seq_lib::to_multiset_build(a0, x);
            vstd::seq_lib::to_multiset_build(b0, x);
            assert forall|v: LogicalPixel|
                a0.to_multiset().count(v) == b0.to_multiset().count(v) by {
                assert(a0.to_multiset().insert(x).count(v) == b0.to_multiset().insert(x).count(v));
            }
        }
        assert(color_sorted(a0)) by {
            assert forall|i: int, j: int| 0 <= i <= j < a0.len() implies (
            #[trigger] a0[i]).color.rank() <= (#[trigger] a0[j]).color.rank() by {
                assert(a0[i] == a[i] && a0[j] == a[j]);
            }
        }
        assert(color_sorted(b0)) by {
            assert forall|i: int, j: int| 0 <= i <= j < b0.len() implies (
            #[trigger] b0[i]).color.rank() <= (#[trigger] b0[j]).color.rank() by {
                assert(b0[i] == b[i] && b0[j] == b[j]);
            }
        }
        assert forall|q: int| #[trigger] a0.filter(of_rank(q)) == b0.filter(of_rank(q)) by {
            lemma_filter_pushed(a0, x, q);
            lemma_filter_pushed(b0, x, q);
            assert(a.filter(of_rank(q)) == b.filter(of_rank(q)));
            if q == r {
                assert(a0.filter(of_rank(q)) =~= a0.filter(of_rank(q)).push(x).drop_last());
                assert(b0.filter(of_rank(q)) =~= b0.filter(of_rank(q)).push(x).drop_last());
            }
        }
        lemma_twins_are_equal(a0, b0);
    }
}

/// The arrangement by colour is determined by what was added and in which
/// order: there is only one arrangement of `stored` by ascending colour that
/// keeps the pixels of each colour in their order.
pub proof fn lemma_stable_ordering_is_unique(
    first: Seq<LogicalPixel>,
    second: Seq<LogicalPixel>,
    stored: Seq<LogicalPixel>,
)
    requires
        is_stable_ordering(first, stored),
        is_stable_ordering(second, stored),
    ensures
        first == second,
{
    assert forall|r: int| #[trigger] first.filter(of_rank(r)) == second.filter(of_rank(r)) by {
        assert(first.filter(of_rank(r)) == stored.filter(of_rank(r)));
        assert(second.filter(of_rank(r)) == stored.filter(of_rank(r)));
    }
    lemma_twins_are_equal(first, second);
}

/// What was added to a collector, and in which order, determines its frame
/// byte for byte.
pub proof fn lemma_ordered_frame_is_unique(
    first: Seq<u8>,
    second: Seq<u8>,
    stored: Seq<LogicalPixel>,
    kind: PixelCollectorKind,
    compression: Option<CompressionKind>,
)
    requires
        is_ordered_frame_of(first, stored, kind, compression),
        is_ordered_frame_of(second, stored, kind, compression),
    ensures
        first == second,
{
    let a = choose|order: Seq<LogicalPixel>|
        #![trigger is_stable_ordering(order, stored)]
        is_stable_ordering(order, stored) && first == wire_bytes(
            frame_bytes(order, kind),
            compression,
        );
    let b = choose|order: Seq<LogicalPixel>|
        #![trigger is_stable_ordering(order, stored)]
        is_stable_ordering(order, stored) && second == wire_bytes(
            frame_bytes(order, kind),
            compression,
        );
    lemma_stable_ordering_is_unique(a, b, stored);
}

} // verus!
