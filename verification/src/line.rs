//! The pixels of a line between two pixels.
//!
//! A line from `(x0, y0)` to `(x1, y1)` takes `steps = max(|dx|, |dy|)` steps
//! of equal length; after each step the position is rounded to the nearest
//! pixel, a half upwards.

use vstd::prelude::*;
use vstd::arithmetic::div_mod::lemma_fundamental_div_mod_converse;
use crate::triangle::max2;

verus! {

pub open spec fn abs_gap(a: int, b: int) -> int {
    if a >= b {
        a - b
    } else {
        b - a
    }
}

/// The number of steps from one end of the line to the other.
pub open spec fn line_steps(x0: int, y0: int, x1: int, y1: int) -> int {
    max2(abs_gap(x1, x0), abs_gap(y1, y0))
}

/// `n / d` rounded to the nearest integer, a half upwards.
pub open spec fn nearest(n: int, d: int) -> int {
    (2 * n + d) / (2 * d)
}

/// The pixel that the line reaches after `i` steps.
pub open spec fn line_point(x0: int, y0: int, x1: int, y1: int, i: int) -> (int, int) {
    let s = line_steps(x0, y0, x1, y1);
    if s == 0 {
        (x0, y0)
    } else {
        (x0 + nearest(i * (x1 - x0), s), y0 + nearest(i * (y1 - y0), s))
    }
}

/// Whether the line reaches `(x, y)` in fewer than `n` steps.
pub open spec fn on_line_before(x0: int, y0: int, x1: int, y1: int, n: int, x: int, y: int) -> bool {
    exists|i: int| 0 <= i < n && #[trigger] line_point(x0, y0, x1, y1, i) == (x, y)
}

/// Whether `(x, y)` is a pixel of the line, both ends included.
pub open spec fn on_line(x0: int, y0: int, x1: int, y1: int, x: int, y: int) -> bool {
    on_line_before(x0, y0, x1, y1, line_steps(x0, y0, x1, y1) + 1, x, y)
}

/// The pixels that the line reaches in its first `k` steps, the start included.
pub open spec fn line_prefix(x0: int, y0: int, x1: int, y1: int, k: nat) -> Set<(int, int)>
    decreases k,
{
    if k == 0 {
        set![line_point(x0, y0, x1, y1, 0)]
    } else {
        line_prefix(x0, y0, x1, y1, (k - 1) as nat).insert(line_point(x0, y0, x1, y1, k as int))
    }
}

/// All pixels of the line.
pub open spec fn line_pixels(x0: int, y0: int, x1: int, y1: int) -> Set<(int, int)> {
    line_prefix(x0, y0, x1, y1, line_steps(x0, y0, x1, y1) as nat)
}

/// `q` and `r` are the quotient and remainder that `nearest(i * d, s)` divides to.
pub open spec fn tracks(i: int, d: int, s: int, q: int, r: int) -> bool {
    2 * (i * d) + s == q * (2 * s) + r && 0 <= r < 2 * s
}

pub proof fn lemma_tracks_nearest(i: int, d: int, s: int, q: int, r: int)
    requires
        s > 0,
        tracks(i, d, s, q, r),
    ensures
        q == nearest(i * d, s),
{
    lemma_fundamental_div_mod_converse(2 * (i * d) + s, 2 * s, q, r);
}

/// One more step moves the rounded position by the step's quotient.
pub proof fn lemma_tracks_step(i: int, d: int, s: int, q: int, r: int, q2: int, r2: int)
    requires
        tracks(i, d, s, q, r),
        q2 * (2 * s) + r2 == q * (2 * s) + r + 2 * d,
        0 <= r2 < 2 * s,
    ensures
        tracks(i + 1, d, s, q2, r2),
{
    assert((i + 1) * d == i * d + d) by (nonlinear_arith);
}

/// On its way the line stays between its two ends, in each axis.
pub proof fn lemma_nearest_bounds(i: int, d: int, s: int)
    requires
        0 <= i <= s,
        s > 0,
    ensures
        d >= 0 ==> 0 <= nearest(i * d, s) <= d,
        d <= 0 ==> d <= nearest(i * d, s) <= 0,
        i == 0 ==> nearest(i * d, s) == 0,
        i == s ==> nearest(i * d, s) == d,
{
    let n = 2 * (i * d) + s;
    let q = n / (2 * s);
    let r = n % (2 * s);
    vstd::arithmetic::div_mod::lemma_fundamental_div_mod(n, 2 * s);
    assert(0 <= r < 2 * s) by {
        vstd::arithmetic::div_mod::lemma_mod_bound(n, 2 * s);
    }
    if d >= 0 {
        assert(0 <= i * d <= s * d) by (nonlinear_arith)
            requires
                0 <= i <= s,
                d >= 0,
        ;
        assert(0 <= q <= d) by (nonlinear_arith)
            requires
                n == (2 * s) * q + r,
                0 <= r < 2 * s,
                s <= n <= 2 * (s * d) + s,
                s > 0,
        ;
    }
    if d <= 0 {
        assert(s * d <= i * d <= 0) by (nonlinear_arith)
            requires
                0 <= i <= s,
                d <= 0,
        ;
        assert(d <= q <= 0) by (nonlinear_arith)
            requires
                n == (2 * s) * q + r,
                0 <= r < 2 * s,
                2 * (s * d) + s <= n <= s,
                s > 0,
        ;
    }
    if i == 0 {
        assert(i * d == 0) by (nonlinear_arith)
            requires
                i == 0,
        ;
        lemma_fundamental_div_mod_converse(n, 2 * s, 0, s);
    }
    if i == s {
        assert(2 * (i * d) + s == d * (2 * s) + s) by (nonlinear_arith)
            requires
                i == s,
        ;
        lemma_fundamental_div_mod_converse(n, 2 * s, d, s);
    }
}

/// Along the axis in which the line is longer, each step moves one pixel.
pub proof fn lemma_nearest_major(i: int, d: int, s: int)
    requires
        s > 0,
        d == s || d == -s,
    ensures
        d == s ==> nearest(i * d, s) == i,
        d == -s ==> nearest(i * d, s) == -i,
{
    if d == s {
        assert(2 * (i * d) + s == i * (2 * s) + s) by (nonlinear_arith)
            requires
                d == s,
        ;
        lemma_fundamental_div_mod_converse(2 * (i * d) + s, 2 * s, i, s);
    } else {
        assert(2 * (i * d) + s == (-i) * (2 * s) + s) by (nonlinear_arith)
            requires
                d == -s,
        ;
        lemma_fundamental_div_mod_converse(2 * (i * d) + s, 2 * s, -i, s);
    }
}

/// In no axis does one step move the line by more than one pixel.
pub proof fn lemma_nearest_step(i: int, d: int, s: int)
    requires
        s > 0,
        -s <= d <= s,
    ensures
        -1 <= nearest((i + 1) * d, s) - nearest(i * d, s) <= 1,
{
    let n1 = 2 * (i * d) + s;
    let n2 = 2 * ((i + 1) * d) + s;
    let q1 = n1 / (2 * s);
    let r1 = n1 % (2 * s);
    let q2 = n2 / (2 * s);
    let r2 = n2 % (2 * s);
    vstd::arithmetic::div_mod::lemma_fundamental_div_mod(n1, 2 * s);
    vstd::arithmetic::div_mod::lemma_fundamental_div_mod(n2, 2 * s);
    vstd::arithmetic::div_mod::lemma_mod_bound(n1, 2 * s);
    vstd::arithmetic::div_mod::lemma_mod_bound(n2, 2 * s);
    assert((i + 1) * d == i * d + d) by (nonlinear_arith);
    assert(-1 <= q2 - q1 <= 1) by (nonlinear_arith)
        requires
            n1 == (2 * s) * q1 + r1,
            n2 == (2 * s) * q2 + r2,
            n2 == n1 + 2 * d,
            0 <= r1 < 2 * s,
            0 <= r2 < 2 * s,
            -s <= d <= s,
            s > 0,
    ;
}

/// Two different step counts give two different pixels.
pub proof fn lemma_line_points_distinct(x0: int, y0: int, x1: int, y1: int, i: int, j: int)
    requires
        line_steps(x0, y0, x1, y1) > 0,
        i != j,
    ensures
        line_point(x0, y0, x1, y1, i) != line_point(x0, y0, x1, y1, j),
{
    let s = line_steps(x0, y0, x1, y1);
    if abs_gap(x1, x0) == s {
        lemma_nearest_major(i, x1 - x0, s);
        lemma_nearest_major(j, x1 - x0, s);
    } else {
        lemma_nearest_major(i, y1 - y0, s);
        lemma_nearest_major(j, y1 - y0, s);
    }
}

/// A line has no gaps: each step moves to the same or a neighbouring column,
/// and to the same or a neighbouring row.
pub proof fn lemma_line_has_no_gap(x0: int, y0: int, x1: int, y1: int, i: int)
    ensures
        ({
            let p = line_point(x0, y0, x1, y1, i);
            let q = line_point(x0, y0, x1, y1, i + 1);
            -1 <= q.0 - p.0 <= 1 && -1 <= q.1 - p.1 <= 1
        }),
{
    let s = line_steps(x0, y0, x1, y1);
    if s > 0 {
        lemma_nearest_step(i, x1 - x0, s);
        lemma_nearest_step(i, y1 - y0, s);
    }
}

/// A line starts at its first end and stops at its second.
pub proof fn lemma_line_ends(x0: int, y0: int, x1: int, y1: int)
    ensures
        line_point(x0, y0, x1, y1, 0) == (x0, y0),
        line_point(x0, y0, x1, y1, line_steps(x0, y0, x1, y1)) == (x1, y1),
{
    let s = line_steps(x0, y0, x1, y1);
    if s > 0 {
        lemma_nearest_bounds(0, x1 - x0, s);
        lemma_nearest_bounds(0, y1 - y0, s);
        lemma_nearest_bounds(s, x1 - x0, s);
        lemma_nearest_bounds(s, y1 - y0, s);
    }
}

/// The first `k` steps reach `k + 1` pixels, and they are the pixels that the
/// line reaches in fewer than `k + 1` steps.
pub proof fn lemma_line_prefix(x0: int, y0: int, x1: int, y1: int, k: nat)
    requires
        k <= line_steps(x0, y0, x1, y1),
    ensures
        line_prefix(x0, y0, x1, y1, k).finite(),
        line_prefix(x0, y0, x1, y1, k).len() == k + 1,
        forall|x: int, y: int|
            line_prefix(x0, y0, x1, y1, k).contains((x, y)) <==> on_line_before(
                x0,
                y0,
                x1,
                y1,
                k as int + 1,
                x,
                y,
            ),
    decreases k,
{
    broadcast use vstd::set::group_set_axioms;

    let here = line_point(x0, y0, x1, y1, k as int);
    if k == 0 {
        assert(line_prefix(x0, y0, x1, y1, k) =~= Set::empty().insert(here));
        assert forall|x: int, y: int|
            line_prefix(x0, y0, x1, y1, k).contains((x, y)) <==> on_line_before(
                x0,
                y0,
                x1,
                y1,
                k as int + 1,
                x,
                y,
            ) by {
            if (x, y) == here {
                assert(line_point(x0, y0, x1, y1, 0) == (x, y));
            }
        }
    } else {
        let rest = line_prefix(x0, y0, x1, y1, (k - 1) as nat);
        lemma_line_prefix(x0, y0, x1, y1, (k - 1) as nat);
        assert(!rest.contains(here)) by {
            if rest.contains(here) {
                assert(on_line_before(x0, y0, x1, y1, k as int, here.0, here.1));
                let j = choose|j: int|
                    0 <= j < k && #[trigger] line_point(x0, y0, x1, y1, j) == (here.0, here.1);
                lemma_line_points_distinct(x0, y0, x1, y1, j, k as int);
            }
        }
        assert forall|x: int, y: int|
            line_prefix(x0, y0, x1, y1, k).contains((x, y)) <==> on_line_before(
                x0,
                y0,
                x1,
                y1,
                k as int + 1,
                x,
                y,
            ) by {
            lemma_on_line_before_step(x0, y0, x1, y1, k as int, x, y);
        }
    }
}

/// A line of `steps` steps has exactly `steps + 1` pixels, and they are the
/// pixels that `on_line` accepts.
pub proof fn lemma_line_pixel_count(x0: int, y0: int, x1: int, y1: int)
    ensures
        line_pixels(x0, y0, x1, y1).finite(),
        line_pixels(x0, y0, x1, y1).len() == line_steps(x0, y0, x1, y1) + 1,
        forall|x: int, y: int|
            line_pixels(x0, y0, x1, y1).contains((x, y)) <==> on_line(x0, y0, x1, y1, x, y),
{
    lemma_line_prefix(x0, y0, x1, y1, line_steps(x0, y0, x1, y1) as nat);
}

/// A line between a pixel and itself is that one pixel.
pub proof fn lemma_line_of_one_pixel(x0: int, y0: int, x: int, y: int)
    ensures
        on_line(x0, y0, x0, y0, x, y) <==> (x == x0 && y == y0),
{
    if x == x0 && y == y0 {
        assert(line_point(x0, y0, x0, y0, 0) == (x, y));
    }
}

/// What a line reaches in fewer than `n + 1` steps is what it reaches in fewer
/// than `n`, and the pixel after `n` steps.
pub proof fn lemma_on_line_before_step(x0: int, y0: int, x1: int, y1: int, n: int, x: int, y: int)
    requires
        n >= 0,
    ensures
        on_line_before(x0, y0, x1, y1, n + 1, x, y) <==> (on_line_before(x0, y0, x1, y1, n, x, y)
            || line_point(x0, y0, x1, y1, n) == (x, y)),
{
    if on_line_before(x0, y0, x1, y1, n + 1, x, y) {
        let j = choose|j: int| 0 <= j < n + 1 && #[trigger] line_point(x0, y0, x1, y1, j) == (x, y);
        if j < n {
            assert(on_line_before(x0, y0, x1, y1, n, x, y));
        }
    }
    if on_line_before(x0, y0, x1, y1, n, x, y) {
        let j = choose|j: int| 0 <= j < n && #[trigger] line_point(x0, y0, x1, y1, j) == (x, y);
        assert(0 <= j < n + 1);
    }
    if line_point(x0, y0, x1, y1, n) == (x, y) {
        assert(0 <= n < n + 1);
    }
}

} // verus!
