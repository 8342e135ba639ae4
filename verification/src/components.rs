//! Connected regions of marked pixels. Pixels that touch at a side or a corner are neighbours.

use crate::raster::{lemma_pixel_in_range, lemma_pixel_place};
use vstd::prelude::*;

verus! {

/// Two different pixels, given by their numbers in rows of `w`, that touch.
pub open spec fn touching(w: int, a: int, b: int) -> bool {
    &&& a != b
    &&& -1 <= a % w - b % w <= 1
    &&& -1 <= a / w - b / w <= 1
}

/// A walk over marked pixels, from each to a neighbour.
pub open spec fn is_walk(marked: Seq<bool>, w: int, p: Seq<int>) -> bool {
    &&& p.len() > 0
    &&& forall|i: int| 0 <= i < p.len() ==> 0 <= #[trigger] p[i] < marked.len() && marked[p[i]]
    &&& forall|i: int| 0 < i < p.len() ==> touching(w, p[i - 1], #[trigger] p[i])
}

/// There is a walk over marked pixels from `a` to `b`.
pub open spec fn connected(marked: Seq<bool>, w: int, a: int, b: int) -> bool {
    exists|p: Seq<int>| #[trigger] is_walk(marked, w, p) && p[0] == a && p.last() == b
}

/// `order` lists, each once, the pixels connected to `start`.
pub open spec fn is_region(marked: Seq<bool>, w: int, start: int, order: Seq<usize>) -> bool {
    &&& order.no_duplicates()
    &&& forall|i: int|
        0 <= i < order.len() ==> (#[trigger] order[i]) < marked.len() && connected(
            marked,
            w,
            start,
            order[i] as int,
        )
    &&& forall|b: int|
        connected(marked, w, start, b) ==> 0 <= b <= usize::MAX && #[trigger] order.contains(
            b as usize,
        )
}

/// `regions` are the connected regions of the marked pixels below `limit`, in the order in
/// which a scan from the first pixel meets them; `starts` are the pixels at which it does.
pub open spec fn are_regions(
    marked: Seq<bool>,
    w: int,
    starts: Seq<usize>,
    regions: Seq<Vec<usize>>,
    limit: int,
) -> bool {
    &&& starts.len() == regions.len()
    &&& forall|i: int|
        0 <= i < regions.len() ==> (#[trigger] starts[i]) < limit && marked[starts[i] as int]
            && is_region(marked, w, starts[i] as int, regions[i]@)
    &&& forall|i: int, j: int|
        0 <= i < j < starts.len() ==> #[trigger] starts[i] < #[trigger] starts[j] && !connected(
            marked,
            w,
            starts[i] as int,
            starts[j] as int,
        )
    &&& forall|p: int|
        0 <= p < limit && #[trigger] marked[p] ==> exists|i: int|
            0 <= i < starts.len() && #[trigger] starts[i] <= p && connected(
                marked,
                w,
                starts[i] as int,
                p,
            )
}

/// No marked neighbour of a seen pixel is unseen.
pub open spec fn closed_under(marked: Seq<bool>, w: int, seen: Seq<bool>) -> bool {
    &&& seen.len() == marked.len()
    &&& forall|a: int| 0 <= a < seen.len() && #[trigger] seen[a] ==> marked[a]
    &&& forall|a: int, b: int|
        0 <= a < seen.len() && 0 <= b < seen.len() && #[trigger] seen[a] && marked[b]
            && #[trigger] touching(w, a, b) ==> seen[b]
}

proof fn lemma_connected_self(marked: Seq<bool>, w: int, a: int)
    requires
        0 <= a < marked.len(),
        marked[a],
    ensures
        connected(marked, w, a, a),
{
    let p = seq![a];
    assert(is_walk(marked, w, p));
    assert(p[0] == a && p.last() == a);
}

proof fn lemma_connected_step(marked: Seq<bool>, w: int, a: int, b: int, c: int)
    requires
        connected(marked, w, a, b),
        0 <= c < marked.len(),
        marked[c],
        touching(w, b, c),
    ensures
        connected(marked, w, a, c),
{
    let p = choose|p: Seq<int>| #[trigger] is_walk(marked, w, p) && p[0] == a && p.last() == b;
    let q = p.push(c);
    assert forall|i: int| 0 < i < q.len() implies touching(w, q[i - 1], #[trigger] q[i]) by {
        if i < p.len() {
            assert(touching(w, p[i - 1], p[i]));
        }
    }
    assert(is_walk(marked, w, q));
    assert(q[0] == a && q.last() == c);
}

/// A set of pixels closed under neighbours holds all that a walk from it reaches.
proof fn lemma_walk_stays(marked: Seq<bool>, w: int, seen: Seq<bool>, p: Seq<int>, k: int)
    requires
        closed_under(marked, w, seen),
        is_walk(marked, w, p),
        0 <= k < p.len(),
        seen[p[0]],
    ensures
        seen[p[k]],
    decreases k,
{
    if k > 0 {
        lemma_walk_stays(marked, w, seen, p, k - 1);
        assert(touching(w, p[k - 1], p[k]));
    }
}

/// Seen pixels and unseen ones are not connected.
proof fn lemma_closed_separates(marked: Seq<bool>, w: int, seen: Seq<bool>, a: int, b: int)
    requires
        closed_under(marked, w, seen),
        connected(marked, w, a, b),
        seen[a],
    ensures
        0 <= b < seen.len(),
        seen[b],
{
    let p = choose|p: Seq<int>| #[trigger] is_walk(marked, w, p) && p[0] == a && p.last() == b;
    assert(p[p.len() - 1] == b);
    lemma_walk_stays(marked, w, seen, p, p.len() - 1);
}

proof fn lemma_connected_marked(marked: Seq<bool>, w: int, a: int, b: int)
    requires
        connected(marked, w, a, b),
    ensures
        0 <= a < marked.len(),
        0 <= b < marked.len(),
        marked[a],
        marked[b],
{
    let p = choose|p: Seq<int>| #[trigger] is_walk(marked, w, p) && p[0] == a && p.last() == b;
    assert(p[p.len() - 1] == b);
    assert(p[0] == a);
}

/// As many different numbers below `n` as there are: no more than `n`.
proof fn lemma_distinct_below(s: Seq<usize>, n: int)
    requires
        s.no_duplicates(),
        0 <= n,
        forall|i: int| 0 <= i < s.len() ==> #[trigger] s[i] < n,
    ensures
        s.len() <= n,
{
    s.unique_seq_to_set();
    let t = s.to_set();
    let all = vstd::set_lib::set_int_range(0, n);
    vstd::set_lib::lemma_int_range(0, n);
    let f = |x: usize| x as int;
    let image = t.map(f);
    assert(image.subset_of(all)) by {
        assert forall|y: int| image.contains(y) implies all.contains(y) by {
            let x = choose|x: usize| t.contains(x) && f(x) == y;
            assert(s.contains(x));
        }
    }
    vstd::set_lib::lemma_map_size(t, image, f);
    vstd::set_lib::lemma_len_subset(image, all);
}

/// The `k`-th of the eight neighbours of the pixel at `(x, y)`, where the image has one.
fn neighbour(w: usize, h: usize, x: usize, y: usize, k: usize) -> (r: Option<usize>)
    requires
        x < w,
        y < h,
        k < 8,
        w * h <= usize::MAX,
    ensures
        ({
            let (i, j) = step_of(k as int);
            let inside = 0 <= x + i < w && 0 <= y + j < h;
            &&& r is Some == inside
            &&& r matches Some(b) ==> b == (y + j) * w + (x + i) && b < w * h && touching(
                w as int,
                y * w + x,
                b as int,
            )
        }),
{
    let i: i8 = if k < 3 { -1 } else if k < 5 { 0 } else { 1 };
    let j: i8 = if k == 0 || k == 3 || k == 5 {
        -1
    } else if k == 1 || k == 6 {
        0
    } else {
        1
    };
    if (i == -1 && x == 0) || (i == 1 && x == w - 1) || (j == -1 && y == 0) || (j == 1 && y == h
        - 1) {
        return None;
    }
    let nx: usize = if i == -1 {
        x - 1
    } else if i == 1 {
        x + 1
    } else {
        x
    };
    let ny: usize = if j == -1 {
        y - 1
    } else if j == 1 {
        y + 1
    } else {
        y
    };
    proof {
        lemma_pixel_in_range(w as int, h as int, nx as int, ny as int);
        lemma_pixel_in_range(w as int, h as int, x as int, y as int);
        assert(0 <= ny * w) by (nonlinear_arith);
    }
    Some(ny * w + nx)
}

/// The column and row steps to the eight neighbours, in the order in which they are visited.
pub open spec fn step_of(k: int) -> (int, int) {
    if k == 0 {
        (-1, -1)
    } else if k == 1 {
        (-1, 0)
    } else if k == 2 {
        (-1, 1)
    } else if k == 3 {
        (0, -1)
    } else if k == 4 {
        (0, 1)
    } else if k == 5 {
        (1, -1)
    } else if k == 6 {
        (1, 0)
    } else {
        (1, 1)
    }
}

/// The `k`-th of the eight neighbours of the pixel `px`, where the image has one.
pub open spec fn neighbour_of(w: int, h: int, px: int, k: int) -> Option<int> {
    let x = px % w + step_of(k).0;
    let y = px / w + step_of(k).1;
    if 0 <= x < w && 0 <= y < h {
        Some(y * w + x)
    } else {
        None
    }
}

/// How far a region has been followed: the pixels still to be visited, last come first served,
/// those seen so far, and those visited, in their order.
#[verifier::ext_equal]
pub struct Walk {
    pub stack: Seq<usize>,
    pub seen: Seq<bool>,
    pub order: Seq<usize>,
}

/// A walk after the first `k` neighbours of the pixel `px`: marked ones that were not seen are
/// now, and are to be visited.
pub open spec fn after_neighbours(
    marked: Seq<bool>,
    w: int,
    h: int,
    walk: Walk,
    px: int,
    k: int,
) -> Walk
    decreases k,
{
    if k <= 0 {
        walk
    } else {
        let before = after_neighbours(marked, w, h, walk, px, k - 1);
        match neighbour_of(w, h, px, k - 1) {
            Some(b) => if marked[b] && !before.seen[b] {
                Walk {
                    stack: before.stack.push(b as usize),
                    seen: before.seen.update(b, true),
                    order: before.order,
                }
            } else {
                before
            },
            None => before,
        }
    }
}

/// A walk after one more visit, where there is something left to be visited.
pub open spec fn after_visit(marked: Seq<bool>, w: int, h: int, walk: Walk) -> Walk {
    if walk.stack.len() == 0 {
        walk
    } else {
        let px = walk.stack.last();
        after_neighbours(
            marked,
            w,
            h,
            Walk {
                stack: walk.stack.drop_last(),
                seen: walk.seen,
                order: walk.order.push(px),
            },
            px as int,
            8,
        )
    }
}

/// A walk after `n` more visits.
pub open spec fn after_visits(marked: Seq<bool>, w: int, h: int, walk: Walk, n: nat) -> Walk
    decreases n,
{
    if n == 0 {
        walk
    } else {
        after_visit(marked, w, h, after_visits(marked, w, h, walk, (n - 1) as nat))
    }
}

/// The beginning of a walk from `start`.
pub open spec fn walk_from(seen: Seq<bool>, start: usize) -> Walk {
    Walk { stack: seq![start], seen: seen.update(start as int, true), order: Seq::empty() }
}

/// The whole walk from `start`. No pixel is visited twice, so it has ended after as many visits as
/// there are pixels.
pub open spec fn whole_walk(
    marked: Seq<bool>,
    w: int,
    h: int,
    seen: Seq<bool>,
    start: usize,
) -> Walk {
    after_visits(marked, w, h, walk_from(seen, start), marked.len())
}

/// The regions that a scan of the first `p` pixels meets, each in the order of its walk, and the
/// pixels seen by then.
pub open spec fn scan_of(marked: Seq<bool>, w: int, h: int, p: int) -> (Seq<bool>, Seq<Seq<usize>>)
    decreases p,
{
    if p <= 0 {
        (Seq::new(marked.len(), |i: int| false), Seq::empty())
    } else {
        let before = scan_of(marked, w, h, p - 1);
        if marked[p - 1] && !before.0[p - 1] {
            let walk = whole_walk(marked, w, h, before.0, (p - 1) as usize);
            (walk.seen, before.1.push(walk.order))
        } else {
            before
        }
    }
}

/// The regions of the marked pixels, each in the order in which its pixels are visited.
pub open spec fn regions_of(marked: Seq<bool>, w: int, h: int) -> Seq<Seq<usize>> {
    scan_of(marked, w, h, marked.len() as int).1
}

/// Lists as sequences.
pub open spec fn orders_of(v: Seq<Vec<usize>>) -> Seq<Seq<usize>> {
    Seq::new(v.len(), |i: int| v[i]@)
}

proof fn lemma_walk_has_ended(marked: Seq<bool>, w: int, h: int, walk: Walk, n: nat, m: nat)
    requires
        n <= m,
        after_visits(marked, w, h, walk, n).stack.len() == 0,
    ensures
        after_visits(marked, w, h, walk, m) == after_visits(marked, w, h, walk, n),
    decreases m,
{
    if n < m {
        lemma_walk_has_ended(marked, w, h, walk, n, (m - 1) as nat);
    }
}

/// Every neighbour is one of the eight.
proof fn lemma_neighbour_step(w: int, h: int, a: int, b: int) -> (k: int)
    requires
        0 < w,
        0 <= a < w * h,
        0 <= b < w * h,
        touching(w, a, b),
    ensures
        0 <= k < 8,
        b == (a / w + step_of(k).1) * w + (a % w + step_of(k).0),
        0 <= a % w + step_of(k).0 < w,
        0 <= a / w + step_of(k).1 < h,
{
    lemma_pixel_place(w, h, a);
    lemma_pixel_place(w, h, b);
    let i = b % w - a % w;
    let j = b / w - a / w;
    if i == -1 {
        if j == -1 { 0 } else if j == 0 { 1 } else { 2 }
    } else if i == 0 {
        if j == -1 { 3 } else { 4 }
    } else {
        if j == -1 { 5 } else if j == 0 { 6 } else { 7 }
    }
}

/// What holds while a region is being followed: `seen` grew from `before` by the pixels in
/// `order`, whose neighbours are all seen, and those on the `stack`.
#[verifier::opaque]
spec fn following(
    marked: Seq<bool>,
    w: int,
    start: int,
    before: Seq<bool>,
    seen: Seq<bool>,
    order: Seq<usize>,
    stack: Seq<usize>,
) -> bool {
    let both = order + stack;
    &&& seen.len() == marked.len()
    &&& both.no_duplicates()
    &&& forall|i: int|
        0 <= i < both.len() ==> (#[trigger] both[i]) < marked.len() && !before[both[i] as int]
            && seen[both[i] as int] && connected(marked, w, start, both[i] as int)
    &&& forall|a: int|
        0 <= a < seen.len() ==> (#[trigger] seen[a] ==> before[a] || both.contains(a as usize))
    &&& forall|a: int| 0 <= a < seen.len() && #[trigger] before[a] ==> seen[a]
}

spec fn neighbours_seen(marked: Seq<bool>, w: int, seen: Seq<bool>, a: int) -> bool {
    forall|b: int|
        0 <= b < marked.len() && marked[b] && #[trigger] touching(w, a, b) ==> seen[b]
}

/// Listing the pixel that is taken off the stack keeps the same pixels.
proof fn lemma_following_pop(
    marked: Seq<bool>,
    w: int,
    start: int,
    before: Seq<bool>,
    seen: Seq<bool>,
    order: Seq<usize>,
    rest: Seq<usize>,
    px: usize,
)
    requires
        following(marked, w, start, before, seen, order, rest.push(px)),
    ensures
        following(marked, w, start, before, seen, order.push(px), rest),
{
    reveal(following);
    let both = order + rest.push(px);
    let after = order.push(px) + rest;
    let n = order.len() as int;
    let place = |i: int|
        if i < n {
            i
        } else if i == n {
            both.len() - 1
        } else {
            i - 1
        };
    assert forall|i: int| 0 <= i < after.len() implies after[i] == both[#[trigger] place(i)] by {}
    assert forall|i: int| 0 <= i < after.len() implies (#[trigger] after[i]) < marked.len()
        && !before[after[i] as int] && seen[after[i] as int] && connected(
        marked,
        w,
        start,
        after[i] as int,
    ) by {
        assert(after[i] == both[place(i)]);
    }
    assert forall|i: int, j: int|
        0 <= i < after.len() && 0 <= j < after.len() && i != j implies after[i] != after[j] by {
        assert(after[i] == both[place(i)] && after[j] == both[place(j)]);
    }
    assert forall|a: int| 0 <= a < seen.len() && #[trigger] seen[a] && !before[a] implies after.contains(
        a as usize,
    ) by {
        assert(both.contains(a as usize));
        let i = choose|i: int| 0 <= i < both.len() && both[i] == a as usize;
        if i < n {
            assert(after[i] == a as usize);
        } else if i == both.len() - 1 {
            assert(after[n] == a as usize);
        } else {
            assert(after[i + 1] == a as usize);
        }
    }
}

/// A new pixel on the stack.
proof fn lemma_following_push(
    marked: Seq<bool>,
    w: int,
    start: int,
    before: Seq<bool>,
    seen: Seq<bool>,
    order: Seq<usize>,
    stack: Seq<usize>,
    b: usize,
)
    requires
        following(marked, w, start, before, seen, order, stack),
        b < marked.len(),
        marked.len() <= usize::MAX,
        !seen[b as int],
        !before[b as int],
        connected(marked, w, start, b as int),
    ensures
        following(marked, w, start, before, seen.update(b as int, true), order, stack.push(b)),
{
    reveal(following);
    let both = order + stack;
    let now = order + stack.push(b);
    let after = seen.update(b as int, true);
    assert(now =~= both.push(b));
    assert forall|a: int| 0 <= a < after.len() && #[trigger] after[a] && !before[a] implies now.contains(
        a as usize,
    ) by {
        if a == b {
            assert(now[now.len() - 1] == b);
        } else {
            assert(seen[a]);
            assert(both.contains(a as usize));
            let i = choose|i: int| 0 <= i < both.len() && both[i] == a as usize;
            assert(now[i] == a as usize);
        }
    }
    assert(now.no_duplicates());
}

/// What is on record of a listed or stacked pixel.
proof fn lemma_following_at(
    marked: Seq<bool>,
    w: int,
    start: int,
    before: Seq<bool>,
    seen: Seq<bool>,
    order: Seq<usize>,
    stack: Seq<usize>,
)
    requires
        following(marked, w, start, before, seen, order, stack),
    ensures
        seen.len() == marked.len(),
        (order + stack).no_duplicates(),
        forall|i: int|
            0 <= i < order.len() ==> (#[trigger] order[i]) < marked.len()
                && !before[order[i] as int] && seen[order[i] as int] && connected(
                marked,
                w,
                start,
                order[i] as int,
            ),
        forall|i: int| 0 <= i < stack.len() ==> (#[trigger] stack[i]) < marked.len(),
        order.len() + stack.len() <= marked.len(),
        forall|a: int| 0 <= a < seen.len() && !#[trigger] seen[a] ==> !before[a],
{
    reveal(following);
    let both = order + stack;
    lemma_distinct_below(both, marked.len() as int);
    assert forall|i: int| 0 <= i < order.len() implies (#[trigger] order[i]) < marked.len()
        && !before[order[i] as int] && seen[order[i] as int] && connected(
        marked,
        w,
        start,
        order[i] as int,
    ) by {
        assert(both[i] == order[i]);
    }
    assert forall|i: int| 0 <= i < stack.len() implies (#[trigger] stack[i]) < marked.len() by {
        assert(both[order.len() + i] == stack[i]);
    }
}

/// Marks as seen, and stacks, the marked neighbours of `px` that were not seen.
fn push_neighbours(
    marked: &Vec<bool>,
    w: usize,
    h: usize,
    px: usize,
    seen: &mut Vec<bool>,
    stack: &mut Vec<usize>,
    Ghost(start): Ghost<int>,
    Ghost(before): Ghost<Seq<bool>>,
    Ghost(order): Ghost<Seq<usize>>,
)
    requires
        0 < w,
        marked@.len() == w * h,
        px < marked@.len(),
        connected(marked@, w as int, start, px as int),
        following(marked@, w as int, start, before, old(seen)@, order, old(stack)@),
    ensures
        following(marked@, w as int, start, before, final(seen)@, order, final(stack)@),
        neighbours_seen(marked@, w as int, final(seen)@, px as int),
        forall|a: int| 0 <= a < marked@.len() && #[trigger] old(seen)@[a] ==> final(seen)@[a],
        (Walk { stack: final(stack)@, seen: final(seen)@, order }) == after_neighbours(
            marked@,
            w as int,
            h as int,
            Walk { stack: old(stack)@, seen: old(seen)@, order },
            px as int,
            8,
        ),
{
    let ghost begin = Walk { stack: stack@, seen: seen@, order };
    let ghost m = marked@;
    let ghost gw = w as int;
    let ghost first = seen@;
    let count: usize = marked.len();
    let x: usize = px % w;
    let y: usize = px / w;
    proof {
        lemma_pixel_place(w as int, h as int, px as int);
        lemma_following_at(m, gw, start, before, seen@, order, stack@);
    }
    let mut k: usize = 0;
    while k < 8
        invariant
            m == marked@,
            gw == w,
            0 < w,
            m.len() == w * h,
            m.len() == count,
            k <= 8,
            px < m.len(),
            x < w,
            y < h,
            px == y * w + x,
            connected(m, gw, start, px as int),
            following(m, gw, start, before, seen@, order, stack@),
            seen@.len() == m.len(),
            first.len() == m.len(),
            forall|a: int| 0 <= a < m.len() && #[trigger] first[a] ==> seen@[a],
            px % w == x,
            px / w == y,
            (Walk { stack: stack@, seen: seen@, order }) == after_neighbours(
                m,
                gw,
                h as int,
                begin,
                px as int,
                k as int,
            ),
            forall|j: int|
                0 <= j < k ==> {
                    let nx = x + (#[trigger] step_of(j)).0;
                    let ny = y + step_of(j).1;
                    0 <= nx < w && 0 <= ny < h && m[ny * w + nx] ==> seen@[ny * w + nx]
                },
        decreases 8 - k,
    {
        let ghost old_seen = seen@;
        let ghost old_stack = stack@;
        proof {
            lemma_following_at(m, gw, start, before, seen@, order, stack@);
            assert forall|j: int| 0 <= j < 8 && 0 <= x + (#[trigger] step_of(j)).0 < w && 0 <= y
                + step_of(j).1 < h implies 0 <= (y + step_of(j).1) * w + (x + step_of(j).0)
                < m.len() by {
                lemma_pixel_in_range(gw, h as int, x + step_of(j).0, y + step_of(j).1);
            }
        }
        assert(neighbour_of(gw, h as int, px as int, k as int) == ({
            let (i, j) = step_of(k as int);
            if 0 <= x + i < w && 0 <= y + j < h {
                Some((y + j) * w + (x + i))
            } else {
                None
            }
        }));
        match neighbour(w, h, x, y, k) {
            Some(b) => {
                if marked[b] && !seen[b] {
                    proof {
                        lemma_connected_step(m, gw, start, px as int, b as int);
                    }
                    seen.set(b, true);
                    stack.push(b);
                    proof {
                        lemma_following_push(m, gw, start, before, old_seen, order, old_stack, b);
                    }
                }
            },
            None => {},
        }
        k = k + 1;
    }
    proof {
        assert forall|b: int| 0 <= b < m.len() && m[b] && #[trigger] touching(
            gw,
            px as int,
            b,
        ) implies seen@[b] by {
            let j = lemma_neighbour_step(gw, h as int, px as int, b);
            lemma_pixel_in_range(gw, h as int, x as int, y as int);
            assert(step_of(j) == step_of(j));
        }
    }
}

/// With nothing left on the stack, the list is the region.
proof fn lemma_following_ends(
    marked: Seq<bool>,
    w: int,
    start: int,
    before: Seq<bool>,
    seen: Seq<bool>,
    order: Seq<usize>,
)
    requires
        closed_under(marked, w, before),
        following(marked, w, start, before, seen, order, Seq::empty()),
        marked.len() <= usize::MAX,
        0 <= start < marked.len(),
        seen[start],
        !before[start],
        forall|i: int|
            0 <= i < order.len() ==> neighbours_seen(marked, w, seen, #[trigger] order[i] as int),
    ensures
        is_region(marked, w, start, order),
        closed_under(marked, w, seen),
        forall|a: int|
            0 <= a < marked.len() ==> (#[trigger] seen[a] <==> before[a] || connected(
                marked,
                w,
                start,
                a,
            )),
{
    lemma_following_at(marked, w, start, before, seen, order, Seq::empty());
    assert(order + Seq::<usize>::empty() =~= order);
    reveal(following);
    assert forall|a: int| 0 <= a < seen.len() && #[trigger] seen[a] && !before[a] implies exists|
        i: int,
    | 0 <= i < order.len() && #[trigger] order[i] == a by {
        assert(order.contains(a as usize));
    }
    assert forall|a: int, b: int|
        0 <= a < seen.len() && 0 <= b < seen.len() && #[trigger] seen[a] && marked[b]
            && #[trigger] touching(w, a, b) implies seen[b] by {
        if before[a] {
            assert(before[b]);
        } else {
            let i = choose|i: int| 0 <= i < order.len() && #[trigger] order[i] == a;
            assert(neighbours_seen(marked, w, seen, order[i] as int));
        }
    }
    assert forall|a: int| 0 <= a < seen.len() && #[trigger] seen[a] implies marked[a] by {
        if !before[a] {
            let i = choose|i: int| 0 <= i < order.len() && #[trigger] order[i] == a;
            lemma_connected_marked(marked, w, start, order[i] as int);
        }
    }
    assert(closed_under(marked, w, seen));
    assert forall|a: int| 0 <= a < marked.len() implies (#[trigger] seen[a] <==> before[a]
        || connected(marked, w, start, a)) by {
        if connected(marked, w, start, a) {
            lemma_closed_separates(marked, w, seen, start, a);
        }
        if seen[a] && !before[a] {
            let i = choose|i: int| 0 <= i < order.len() && #[trigger] order[i] == a;
        }
    }
    assert forall|b: int| connected(marked, w, start, b) implies 0 <= b <= usize::MAX
        && #[trigger] order.contains(b as usize) by {
        lemma_connected_marked(marked, w, start, b);
        lemma_closed_separates(marked, w, seen, start, b);
        if before[b] {
            lemma_connected_symmetric(marked, w, start, b);
            lemma_closed_separates(marked, w, before, b, start);
        }
    }
}

/// Follows the region of `start`: lists its pixels and marks them as seen.
pub fn follow_region(
    marked: &Vec<bool>,
    w: usize,
    h: usize,
    start: usize,
    seen: &mut Vec<bool>,
) -> (order: Vec<usize>)
    requires
        0 < w,
        marked@.len() == w * h,
        start < marked@.len(),
        marked@[start as int],
        closed_under(marked@, w as int, old(seen)@),
        !old(seen)@[start as int],
    ensures
        is_region(marked@, w as int, start as int, order@),
        closed_under(marked@, w as int, final(seen)@),
        forall|a: int|
            0 <= a < marked@.len() ==> (#[trigger] final(seen)@[a] <==> old(seen)@[a] || connected(
                marked@,
                w as int,
                start as int,
                a,
            )),
        (Walk { stack: Seq::empty(), seen: final(seen)@, order: order@ }) == whole_walk(
            marked@,
            w as int,
            h as int,
            old(seen)@,
            start,
        ),
{
    let count: usize = marked.len();
    let ghost before = seen@;
    let ghost m = marked@;
    let ghost gw = w as int;
    let ghost s = start as int;
    let mut order: Vec<usize> = Vec::new();
    let mut stack: Vec<usize> = Vec::new();
    stack.push(start);
    seen.set(start, true);
    proof {
        lemma_connected_self(m, gw, s);
        reveal(following);
        assert(order@ + stack@ =~= seq![start]);
        assert((order@ + stack@)[0] == start);
        assert(following(m, gw, s, before, seen@, order@, stack@));
        assert(stack@ =~= seq![start]);
        assert(order@ =~= Seq::empty());
    }
    while stack.len() > 0
        invariant
            m == marked@,
            gw == w,
            s == start,
            0 < w,
            start < m.len(),
            m.len() == count,
            m.len() == w * h,
            closed_under(m, gw, before),
            following(m, gw, s, before, seen@, order@, stack@),
            seen@.len() == m.len(),
            seen@[s],
            order@.len() <= m.len(),
            (Walk { stack: stack@, seen: seen@, order: order@ }) == after_visits(
                m,
                gw,
                h as int,
                walk_from(before, start),
                order@.len(),
            ),
            forall|i: int|
                0 <= i < order@.len() ==> neighbours_seen(m, gw, seen@, #[trigger] order@[i] as int),
        decreases m.len() - order@.len(),
    {
        let ghost old_order = order@;
        let ghost old_stack = stack@;
        let ghost old_seen = seen@;
        proof {
            lemma_following_at(m, gw, s, before, seen@, order@, stack@);
        }
        let px: usize = match stack.pop() {
            Some(v) => v,
            None => 0,
        };
        proof {
            assert(stack@ =~= old_stack.drop_last());
            assert(stack@.push(px) =~= old_stack);
            lemma_following_pop(m, gw, s, before, seen@, old_order, stack@, px);
        }
        order.push(px);
        proof {
            lemma_following_at(m, gw, s, before, seen@, order@, stack@);
            assert(order@[order@.len() - 1] == px);
        }
        push_neighbours(marked, w, h, px, seen, &mut stack, Ghost(s), Ghost(before), Ghost(order@));
        proof {
            lemma_following_at(m, gw, s, before, seen@, order@, stack@);
            assert forall|i: int| 0 <= i < order@.len() implies neighbours_seen(
                m,
                gw,
                seen@,
                #[trigger] order@[i] as int,
            ) by {
                if i < old_order.len() {
                    assert(neighbours_seen(m, gw, old_seen, old_order[i] as int));
                }
            }
        }
    }
    proof {
        assert(stack@ =~= Seq::empty());
        lemma_following_ends(m, gw, s, before, seen@, order@);
        lemma_walk_has_ended(
            m,
            gw,
            h as int,
            walk_from(before, start),
            order@.len(),
            m.len(),
        );
    }
    order
}

/// What holds after the scan has passed the pixels below `p`.
#[verifier::opaque]
spec fn scanned(
    m: Seq<bool>,
    w: int,
    seen: Seq<bool>,
    starts: Seq<usize>,
    regions: Seq<Vec<usize>>,
    p: int,
) -> bool {
    &&& are_regions(m, w, starts, regions, p)
    &&& forall|a: int|
        0 <= a < m.len() && #[trigger] seen[a] ==> exists|i: int|
            0 <= i < starts.len() && connected(m, w, #[trigger] starts[i] as int, a)
    &&& forall|a: int, i: int|
        0 <= a < m.len() && 0 <= i < starts.len() && #[trigger] connected(
            m,
            w,
            starts[i] as int,
            a,
        ) ==> seen[a]
}

/// A pixel at which no region starts.
proof fn lemma_scan_past(
    m: Seq<bool>,
    w: int,
    seen: Seq<bool>,
    starts: Seq<usize>,
    regions: Seq<Vec<usize>>,
    p: int,
)
    requires
        scanned(m, w, seen, starts, regions, p),
        0 <= p < m.len(),
        !m[p] || seen[p],
    ensures
        scanned(m, w, seen, starts, regions, p + 1),
{
    reveal(scanned);
    assert forall|q: int| 0 <= q < p + 1 && #[trigger] m[q] implies exists|i: int|
        0 <= i < starts.len() && #[trigger] starts[i] <= q && connected(m, w, starts[i] as int, q) by {
        if q == p {
            let i = choose|i: int|
                0 <= i < starts.len() && connected(m, w, #[trigger] starts[i] as int, q);
            assert(starts[i] < p);
        }
    }
}

/// A pixel at which a region starts.
proof fn lemma_scan_region(
    m: Seq<bool>,
    w: int,
    old_seen: Seq<bool>,
    seen: Seq<bool>,
    old_starts: Seq<usize>,
    old_regions: Seq<Vec<usize>>,
    p: usize,
    region: Vec<usize>,
)
    requires
        scanned(m, w, old_seen, old_starts, old_regions, p as int),
        p < m.len(),
        m[p as int],
        !old_seen[p as int],
        is_region(m, w, p as int, region@),
        forall|a: int|
            0 <= a < m.len() ==> (#[trigger] seen[a] <==> old_seen[a] || connected(
                m,
                w,
                p as int,
                a,
            )),
    ensures
        scanned(m, w, seen, old_starts.push(p), old_regions.push(region), p + 1),
{
    reveal(scanned);
    let starts = old_starts.push(p);
    let regions = old_regions.push(region);
    let n = old_starts.len() as int;
    lemma_connected_self(m, w, p as int);
    assert(starts[n] == p);
    assert forall|i: int| 0 <= i < regions.len() implies (#[trigger] starts[i]) < p + 1
        && m[starts[i] as int] && is_region(m, w, starts[i] as int, regions[i]@) by {
        if i < n {
            assert(starts[i] == old_starts[i]);
            assert(regions[i] == old_regions[i]);
        }
    }
    assert forall|i: int, j: int|
        0 <= i < j < starts.len() implies #[trigger] starts[i] < #[trigger] starts[j] && !connected(
        m,
        w,
        starts[i] as int,
        starts[j] as int,
    ) by {
        assert(starts[i] == old_starts[i]);
        if j < n {
            assert(starts[j] == old_starts[j]);
        } else if connected(m, w, old_starts[i] as int, p as int) {
            assert(old_seen[p as int]);
        }
    }
    assert forall|q: int| 0 <= q < p + 1 && #[trigger] m[q] implies exists|i: int|
        0 <= i < starts.len() && #[trigger] starts[i] <= q && connected(m, w, starts[i] as int, q) by {
        if q < p {
            let i = choose|i: int|
                0 <= i < n && #[trigger] old_starts[i] <= q && connected(
                    m,
                    w,
                    old_starts[i] as int,
                    q,
                );
            assert(starts[i] == old_starts[i]);
        }
    }
    assert forall|a: int| 0 <= a < m.len() && #[trigger] seen[a] implies exists|i: int|
        0 <= i < starts.len() && connected(m, w, #[trigger] starts[i] as int, a) by {
        if old_seen[a] {
            let i = choose|i: int|
                0 <= i < n && connected(m, w, #[trigger] old_starts[i] as int, a);
            assert(starts[i] == old_starts[i]);
        }
    }
    assert forall|a: int, i: int|
        0 <= a < m.len() && 0 <= i < starts.len() && #[trigger] connected(
            m,
            w,
            starts[i] as int,
            a,
        ) implies seen[a] by {
        if i < n {
            assert(starts[i] == old_starts[i]);
            assert(connected(m, w, old_starts[i] as int, a));
            assert(old_seen[a]);
        }
    }
}

/// The connected regions of all marked pixels, each with the pixel at which a scan meets it.
pub fn find_regions(marked: &Vec<bool>, w: usize, h: usize) -> (r: (Vec<usize>, Vec<Vec<usize>>))
    requires
        0 < w,
        marked@.len() == w * h,
    ensures
        are_regions(marked@, w as int, r.0@, r.1@, marked@.len() as int),
        orders_of(r.1@) == regions_of(marked@, w as int, h as int),
{
    let n: usize = marked.len();
    let mut seen: Vec<bool> = vec![false; n];
    let mut starts: Vec<usize> = Vec::new();
    let mut regions: Vec<Vec<usize>> = Vec::new();
    proof {
        reveal(scanned);
        assert(seen@ =~= Seq::new(marked@.len(), |i: int| false));
        assert(orders_of(regions@) =~= Seq::empty());
    }
    let mut p: usize = 0;
    while p < n
        invariant
            0 < w,
            marked@.len() == w * h,
            marked@.len() == n,
            p <= n,
            closed_under(marked@, w as int, seen@),
            scanned(marked@, w as int, seen@, starts@, regions@, p as int),
            (seen@, orders_of(regions@)) == scan_of(marked@, w as int, h as int, p as int),
        decreases n - p,
    {
        let ghost old_seen = seen@;
        if marked[p] && !seen[p] {
            let order: Vec<usize> = follow_region(marked, w, h, p, &mut seen);
            proof {
                lemma_scan_region(
                    marked@, w as int, old_seen, seen@, starts@, regions@, p, order);
            }
            let ghost old_regions = regions@;
            let ghost list = order@;
            starts.push(p);
            regions.push(order);
            assert(orders_of(regions@) =~= orders_of(old_regions).push(list));
        } else {
            proof {
                lemma_scan_past(marked@, w as int, seen@, starts@, regions@, p as int);
            }
        }
        p = p + 1;
    }
    proof {
        reveal(scanned);
    }
    (starts, regions)
}

/// A region holds at least the pixel at which it starts.
pub proof fn lemma_region_is_not_empty(marked: Seq<bool>, w: int, start: int, order: Seq<usize>)
    requires
        0 <= start < marked.len(),
        marked[start],
        is_region(marked, w, start, order),
    ensures
        order.len() > 0,
{
    lemma_connected_self(marked, w, start);
    assert(order.contains(start as usize));
}

/// Distinct regions share no pixel.
pub proof fn law_regions_are_disjoint(
    marked: Seq<bool>,
    w: int,
    starts: Seq<usize>,
    regions: Seq<Vec<usize>>,
    i: int,
    j: int,
    px: usize,
)
    requires
        are_regions(marked, w, starts, regions, marked.len() as int),
        0 <= i < j < regions.len(),
        regions[i]@.contains(px),
    ensures
        !regions[j]@.contains(px),
{
    let a = starts[i] as int;
    let b = starts[j] as int;
    assert(connected(marked, w, a, px as int));
    if regions[j]@.contains(px) {
        assert(connected(marked, w, b, px as int));
        lemma_connected_symmetric(marked, w, b, px as int);
        lemma_connected_join(marked, w, a, px as int, b);
    }
}

/// Every marked pixel lies in a region, and only marked pixels do.
pub proof fn law_regions_cover(
    marked: Seq<bool>,
    w: int,
    starts: Seq<usize>,
    regions: Seq<Vec<usize>>,
    px: usize,
)
    requires
        are_regions(marked, w, starts, regions, marked.len() as int),
        px < marked.len(),
    ensures
        marked[px as int] <==> exists|i: int|
            0 <= i < regions.len() && (#[trigger] regions[i])@.contains(px),
{
    if marked[px as int] {
        let i = choose|i: int|
            0 <= i < starts.len() && #[trigger] starts[i] <= px && connected(
                marked,
                w,
                starts[i] as int,
                px as int,
            );
        assert(regions[i]@.contains(px as int as usize));
    } else if exists|i: int| 0 <= i < regions.len() && (#[trigger] regions[i])@.contains(px) {
        let i = choose|i: int| 0 <= i < regions.len() && (#[trigger] regions[i])@.contains(px);
        let s = starts[i] as int;
        assert(connected(marked, w, s, px as int));
        lemma_connected_marked(marked, w, s, px as int);
    }
}

/// Walks can be joined.
proof fn lemma_connected_join(marked: Seq<bool>, w: int, a: int, b: int, c: int)
    requires
        connected(marked, w, a, b),
        connected(marked, w, b, c),
    ensures
        connected(marked, w, a, c),
{
    let p = choose|p: Seq<int>| #[trigger] is_walk(marked, w, p) && p[0] == a && p.last() == b;
    let q = choose|q: Seq<int>| #[trigger] is_walk(marked, w, q) && q[0] == b && q.last() == c;
    let r = p + q.subrange(1, q.len() as int);
    assert forall|i: int| 0 < i < r.len() implies touching(w, r[i - 1], #[trigger] r[i]) by {
        if i < p.len() {
            assert(touching(w, p[i - 1], p[i]));
        } else {
            let j = i - p.len() + 1;
            assert(touching(w, q[j - 1], q[j]));
            assert(r[i] == q[j]);
            if i > p.len() {
                assert(r[i - 1] == q[j - 1]);
            }
        }
    }
    assert forall|i: int| 0 <= i < r.len() implies 0 <= #[trigger] r[i] < marked.len()
        && marked[r[i]] by {
        if i >= p.len() {
            assert(r[i] == q[i - p.len() + 1]);
        }
    }
    assert(is_walk(marked, w, r));
    if q.len() > 1 {
        assert(r.last() == q[q.len() - 1]);
    }
    assert(r[0] == a && r.last() == c);
}

/// A walk can be taken in the other direction.
pub proof fn lemma_connected_symmetric(marked: Seq<bool>, w: int, a: int, b: int)
    requires
        connected(marked, w, a, b),
    ensures
        connected(marked, w, b, a),
{
    let p = choose|p: Seq<int>| #[trigger] is_walk(marked, w, p) && p[0] == a && p.last() == b;
    let q = p.reverse();
    assert forall|i: int| 0 < i < q.len() implies touching(w, q[i - 1], #[trigger] q[i]) by {
        let j = p.len() - 1 - i;
        assert(q[i] == p[j] && q[i - 1] == p[j + 1]);
        assert(touching(w, p[(j + 1) - 1], p[j + 1]));
    }
    assert(is_walk(marked, w, q));
    assert(q[0] == b && q.last() == a);
}

} // verus!
