//! Moving a selection through a list that wraps at both ends.

use vstd::arithmetic::div_mod::lemma_fundamental_div_mod;
use vstd::arithmetic::div_mod::lemma_fundamental_div_mod_converse;
use vstd::prelude::*;

verus! {

/// The item `delta` places from `sel` in a list of `len`, where the end is
/// followed by the start.
pub open spec fn step_of(sel: int, delta: int, len: int) -> int {
    if len <= 0 {
        0
    } else {
        (sel + delta) % len
    }
}

/// Moves a selection, wrapping at both ends; 0 in an empty list.
pub fn step(sel: usize, delta: i32, len: usize) -> (r: usize)
    ensures
        r == step_of(sel as int, delta as int, len as int),
        len > 0 ==> r < len,
{
    if len == 0 {
        return 0;
    }
    let at: usize = sel % len;
    let ghost n = len as int;
    if delta >= 0 {
        let d: usize = delta as usize % len;
        proof {
            lemma_shifted(sel as int, delta as int, n);
        }
        if at >= len - d {
            at - (len - d)
        } else {
            at + d
        }
    } else {
        let back: usize = (-(delta as i64)) as usize;
        let d: usize = back % len;
        proof {
            lemma_shifted_back(sel as int, -(delta as int), n);
        }
        if at >= d {
            at - d
        } else {
            len - (d - at)
        }
    }
}

proof fn lemma_shifted(sel: int, delta: int, n: int)
    requires
        n > 0,
        sel >= 0,
        delta >= 0,
    ensures
        ({
            let a = sel % n;
            let d = delta % n;
            &&& 0 <= a < n
            &&& 0 <= d < n
            &&& (sel + delta) % n == (if a + d >= n {
                a + d - n
            } else {
                a + d
            })
        }),
{
    lemma_fundamental_div_mod(sel, n);
    lemma_fundamental_div_mod(delta, n);
    let a = sel % n;
    let d = delta % n;
    let q = sel / n + delta / n;
    assert(n * (sel / n) + n * (delta / n) == n * q) by (nonlinear_arith)
        requires
            q == sel / n + delta / n,
    ;
    assert(n * (q + 1) == n * q + n) by (nonlinear_arith);
    assert(n * q == q * n) by (nonlinear_arith);
    assert(n * (q + 1) == (q + 1) * n) by (nonlinear_arith);
    if a + d >= n {
        lemma_fundamental_div_mod_converse(sel + delta, n, q + 1, a + d - n);
    } else {
        lemma_fundamental_div_mod_converse(sel + delta, n, q, a + d);
    }
}

proof fn lemma_shifted_back(sel: int, back: int, n: int)
    requires
        n > 0,
        sel >= 0,
        back >= 0,
    ensures
        ({
            let a = sel % n;
            let d = back % n;
            &&& 0 <= a < n
            &&& 0 <= d < n
            &&& (sel - back) % n == (if a >= d {
                a - d
            } else {
                n - (d - a)
            })
        }),
{
    lemma_fundamental_div_mod(sel, n);
    lemma_fundamental_div_mod(back, n);
    let a = sel % n;
    let d = back % n;
    let q = sel / n - back / n;
    assert(n * (sel / n) - n * (back / n) == n * q) by (nonlinear_arith)
        requires
            q == sel / n - back / n,
    ;
    assert(n * (q - 1) == n * q - n) by (nonlinear_arith);
    assert(n * q == q * n) by (nonlinear_arith);
    assert(n * (q - 1) == (q - 1) * n) by (nonlinear_arith);
    if a >= d {
        lemma_fundamental_div_mod_converse(sel - back, n, q, a - d);
    } else {
        lemma_fundamental_div_mod_converse(sel - back, n, q - 1, n - (d - a));
    }
}

/// A step and the step back lead to where the selection was.
pub proof fn law_step_back(sel: int, delta: int, len: int)
    requires
        0 <= sel < len,
    ensures
        step_of(step_of(sel, delta, len), -delta, len) == sel,
{
    let x = sel + delta;
    lemma_fundamental_div_mod(x, len);
    let q = x / len;
    assert(x % len - delta == sel - q * len) by (nonlinear_arith)
        requires
            x == sel + delta,
            x == len * q + x % len,
    ;
    assert((-q) * len == -(q * len)) by (nonlinear_arith);
    lemma_fundamental_div_mod_converse(x % len - delta, len, -q, sel);
}

/// A selection moved inside a list of `n` items, and the first item shown
/// moved so that the selection is among the `visible` ones.
pub open spec fn viewport_of(sel: int, top: int, n: int, visible: int) -> (int, int) {
    let rows = if visible > 0 {
        visible
    } else {
        1
    };
    let at = if sel < n {
        sel
    } else if n > 0 {
        n - 1
    } else {
        0
    };
    let first = if at < top {
        at
    } else if at >= top + rows {
        at + 1 - rows
    } else {
        top
    };
    (at, first)
}

/// Keeps a selection inside the list and the viewport around it.
pub fn viewport(sel: usize, top: usize, n: usize, visible: usize) -> (r: (usize, usize))
    requires
        n < usize::MAX,
    ensures
        (r.0 as int, r.1 as int) == viewport_of(sel as int, top as int, n as int, visible as int),
        n > 0 ==> r.0 < n,
        r.1 <= r.0,
        r.0 < r.1 + (if visible > 0 {
            visible as int
        } else {
            1
        }),
{
    let at: usize = if sel < n {
        sel
    } else if n > 0 {
        n - 1
    } else {
        0
    };
    let rows: usize = if visible > 0 {
        visible
    } else {
        1
    };
    let first: usize = if at < top {
        at
    } else if at - top >= rows {
        at + 1 - rows
    } else {
        top
    };
    (at, first)
}

} // verus!
