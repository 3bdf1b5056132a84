use vstd::prelude::*;

use crate::geometry::{div_toward_zero, share, Rect, GAP};

verus! {

/// Width of the master column on an output shared by `n` windows: the whole
/// available width for a lone window, else half of it less half a gap.
pub open spec fn master_width(o: Rect, n: int) -> int {
    let available = o.width - 2 * GAP;
    if n > 1 {
        div_toward_zero(available - GAP, 2)
    } else {
        available
    }
}

/// Height of one slot of the stack column when `n` windows share the output.
pub open spec fn stack_height(o: Rect, n: int) -> int {
    div_toward_zero(o.height - 2 * GAP, n - 1)
}

/// Gap kept above stack window `i`: none above the first one.
pub open spec fn stack_lead(i: int) -> int {
    if i == 1 {
        0
    } else {
        GAP as int
    }
}

/// The tile of window `i` (insertion order, 0 is the master) when `n`
/// windows are laid out on output `o`.
pub open spec fn tiled(o: Rect, n: int, i: int) -> Rect {
    let mw = master_width(o, n);
    if i == 0 {
        Rect {
            x: (o.x + GAP) as i32,
            y: (o.y + GAP) as i32,
            width: mw as i32,
            height: (o.height - 2 * GAP) as i32,
        }
    } else {
        let sh = stack_height(o, n);
        Rect {
            x: (o.x + GAP + mw + GAP) as i32,
            y: (o.y + GAP + (i - 1) * sh + stack_lead(i)) as i32,
            width: (o.width - 2 * GAP - mw - GAP) as i32,
            height: (sh - stack_lead(i)) as i32,
        }
    }
}

proof fn lemma_master_width_bounds(o: Rect, n: int)
    requires
        o.fits_tiling(),
        n > 1,
    ensures
        -9 <= master_width(o, n) <= o.width,
        2 * master_width(o, n) <= o.width - 3 * GAP || o.width < 3 * GAP,
{
}

proof fn lemma_stack_offset_bounds(o: Rect, n: int, i: int)
    requires
        o.fits_tiling(),
        1 <= i < n,
    ensures
        -2 * GAP <= stack_height(o, n) <= o.height,
        -2 * GAP <= (i - 1) * stack_height(o, n),
        (i - 1) * stack_height(o, n) <= o.height,
        (i - 1) * stack_height(o, n) <= 0 || (i - 1) * stack_height(o, n) <= o.height - 2 * GAP,
        stack_height(o, n) != 0 ==> i - 1 <= o.height + 2 * GAP,
{
    let a = o.height - 2 * GAP;
    let k = n - 1;
    let sh = stack_height(o, n);
    if a >= 0 {
        assert(0 <= sh && k * sh <= a) by (nonlinear_arith)
            requires
                sh == a / k,
                k >= 1,
                a >= 0,
        ;
        assert(0 <= (i - 1) * sh <= k * sh) by (nonlinear_arith)
            requires
                0 <= i - 1 <= k,
                sh >= 0,
        ;
        assert(sh != 0 ==> i - 1 <= a) by (nonlinear_arith)
            requires
                0 <= i - 1 <= k,
                sh >= 0,
                k * sh <= a,
        ;
    } else {
        let p = (-a) / k;
        assert(0 <= p && k * p <= -a) by (nonlinear_arith)
            requires
                p == (-a) / k,
                k >= 1,
                -a > 0,
        ;
        assert(0 <= (i - 1) * p <= k * p) by (nonlinear_arith)
            requires
                0 <= i - 1 <= k,
                p >= 0,
        ;
        assert(p != 0 ==> i - 1 <= -a) by (nonlinear_arith)
            requires
                0 <= i - 1 <= k,
                p >= 0,
                k * p <= -a,
        ;
        assert((i - 1) * sh == -((i - 1) * p)) by (nonlinear_arith)
            requires
                sh == -p,
        ;
    }
}

/// Every field of every tile cut from an output that fits the tiling is a
/// value of `i32`: the casts in `tiled` lose nothing.
pub proof fn lemma_tiled_exact(o: Rect, n: int, i: int)
    requires
        o.fits_tiling(),
        0 <= i < n,
    ensures
        tiled(o, n, i).x == o.x + GAP + if i == 0 {
            0
        } else {
            master_width(o, n) + GAP
        },
        tiled(o, n, i).y == o.y + GAP + if i == 0 {
            0
        } else {
            (i - 1) * stack_height(o, n) + stack_lead(i)
        },
        tiled(o, n, i).width == if i == 0 {
            master_width(o, n)
        } else {
            o.width - 2 * GAP - master_width(o, n) - GAP
        },
        tiled(o, n, i).height == if i == 0 {
            o.height - 2 * GAP
        } else {
            stack_height(o, n) - stack_lead(i)
        },
{
    if n > 1 {
        lemma_master_width_bounds(o, n);
    }
    if i > 0 {
        lemma_stack_offset_bounds(o, n, i);
    }
}

/// Two distinct tiles of one layout never overlap: a gap always separates
/// the tiles that cover any point.
pub proof fn lemma_tiles_apart(o: Rect, n: int, i: int, j: int)
    requires
        o.fits_tiling(),
        0 <= i < n,
        0 <= j < n,
        i != j,
    ensures
        tiled(o, n, i).apart(tiled(o, n, j)),
{
    lemma_tiled_exact(o, n, i);
    lemma_tiled_exact(o, n, j);
    if i > 0 && j > 0 {
        let sh = stack_height(o, n);
        if sh >= 0 {
            let (lo, hi) = if i < j {
                (i, j)
            } else {
                (j, i)
            };
            assert((lo - 1) * sh + sh <= (hi - 1) * sh) by (nonlinear_arith)
                requires
                    1 <= lo < hi,
                    sh >= 0,
            ;
        }
    }
}

/// Rectangles that are apart share no point.
pub proof fn lemma_apart_disjoint(a: Rect, b: Rect, px: int, py: int)
    requires
        a.apart(b),
    ensures
        !(a.contains(px, py) && b.contains(px, py)),
{
}

/// The tile of window `i` among `n` on `output` (see `tiled`).
pub fn tile(output: &Rect, n: usize, i: usize) -> (r: Rect)
    requires
        output.fits_tiling(),
        i < n,
    ensures
        r == tiled(*output, n as int, i as int),
{
    proof {
        lemma_tiled_exact(*output, n as int, i as int);
    }
    let available = output.shrink(GAP);
    if n == 1 {
        return available;
    }
    let master = share(available.width - GAP, 2);
    proof {
        lemma_master_width_bounds(*output, n as int);
    }
    let (master_column, stack_column) = available.split_at(master, GAP);
    if i == 0 {
        return master_column;
    }
    let slot = share(stack_column.height, n - 1);
    proof {
        lemma_stack_offset_bounds(*output, n as int, i as int);
    }
    let offset: i64 = if slot == 0 {
        0
    } else {
        ((i - 1) as i64) * (slot as i64)
    };
    let lead: i32 = if i == 1 {
        0
    } else {
        GAP
    };
    Rect {
        x: stack_column.x,
        y: ((stack_column.y as i64) + offset + (lead as i64)) as i32,
        width: stack_column.width,
        height: slot - lead,
    }
}

} // verus!
