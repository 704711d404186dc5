use vstd::prelude::*;

verus! {

/// The step of a slice, one when absent.
pub open spec fn step_of(step: Option<isize>) -> int {
    match step {
        Some(s) => s as int,
        None => 1,
    }
}

pub open spec fn clamp(x: int, lo: int, hi: int) -> int {
    if x < lo {
        lo
    } else if x > hi {
        hi
    } else {
        x
    }
}

/// A bound counted from the end when negative, then clamped to `lo..=hi`.
pub open spec fn normalize(len: int, x: int, lo: int, hi: int) -> int {
    clamp(if x < 0 { len + x } else { x }, lo, hi)
}

/// Where a walk starts: the first position on a forward walk, the last on a
/// backward one, unless given.
pub open spec fn slice_start(len: int, start: Option<isize>, step: int) -> int {
    match start {
        None => if step > 0 {
            0
        } else {
            len - 1
        },
        Some(s) => if step > 0 {
            normalize(len, s as int, 0, len)
        } else {
            normalize(len, s as int, -1, len - 1)
        },
    }
}

/// Where a walk stops (excluded): the length on a forward walk, before the
/// first position on a backward one, unless given.
pub open spec fn slice_end(len: int, end: Option<isize>, step: int) -> int {
    match end {
        None => if step > 0 {
            len
        } else {
            -1
        },
        Some(e) => if step > 0 {
            normalize(len, e as int, 0, len)
        } else {
            normalize(len, e as int, -1, len - 1)
        },
    }
}

pub open spec fn walk_measure(i: int, e: int, step: int) -> int {
    if step > 0 && i < e {
        e - i
    } else if step < 0 && i > e {
        i - e
    } else {
        0
    }
}

/// The positions `i, i + step, ...` that lie before `e` in the walk's direction.
pub open spec fn walk(i: int, e: int, step: int) -> Seq<int>
    decreases walk_measure(i, e, step),
{
    if (step > 0 && i < e) || (step < 0 && i > e) {
        seq![i] + walk(i + step, e, step)
    } else {
        Seq::empty()
    }
}

/// The positions a slice picks from a sequence of length `len`.
pub open spec fn slice_positions(len: int, start: Option<isize>, end: Option<isize>, step: Option<isize>) -> Seq<int> {
    let st = step_of(step);
    walk(slice_start(len, start, st), slice_end(len, end, st), st)
}

/// The elements of `s` at positions `p`.
pub open spec fn pick<A>(s: Seq<A>, p: Seq<int>) -> Seq<A> {
    p.map_values(|i: int| s[i])
}

/// The slice of `s`: negative bounds count from the end, bounds are clamped,
/// and a negative step walks backward.
pub open spec fn slice_of<A>(s: Seq<A>, start: Option<isize>, end: Option<isize>, step: Option<isize>) -> Seq<A> {
    pick(s, slice_positions(s.len() as int, start, end, step))
}

/// The position that index `i` denotes (negative counts from the end), if in range.
pub open spec fn index_position(len: int, i: int) -> int {
    if i < 0 {
        len + i
    } else {
        i
    }
}

/// The positions of a slice over `len` elements, each below `len`.
pub fn positions(len: usize, start: Option<isize>, end: Option<isize>, step: Option<isize>) -> (r: Vec<usize>)
    ensures
        r@.len() == slice_positions(len as int, start, end, step).len(),
        forall|j: int|
            0 <= j < r@.len() ==> (#[trigger] r@[j]) as int == slice_positions(len as int, start, end, step)[j]
                && r@[j] < len,
{
    let ghost total = slice_positions(len as int, start, end, step);
    let st: i128 = match step {
        Some(s) => s as i128,
        None => 1,
    };
    let n = len as i128;
    if st == 0 {
        proof {
            assert(slice_positions(len as int, start, end, step) =~= Seq::empty());
        }
        return Vec::new();
    }
    let b: i128 = match start {
        None => if st > 0 {
            0
        } else {
            n - 1
        },
        Some(s) => {
            let x: i128 = if s < 0 { n + s as i128 } else { s as i128 };
            let (lo, hi): (i128, i128) = if st > 0 { (0, n) } else { (-1, n - 1) };
            if x < lo { lo } else if x > hi { hi } else { x }
        },
    };
    let e: i128 = match end {
        None => if st > 0 {
            n
        } else {
            -1
        },
        Some(t) => {
            let x: i128 = if t < 0 { n + t as i128 } else { t as i128 };
            let (lo, hi): (i128, i128) = if st > 0 { (0, n) } else { (-1, n - 1) };
            if x < lo { lo } else if x > hi { hi } else { x }
        },
    };
    assert(b == slice_start(len as int, start, st as int));
    assert(e == slice_end(len as int, end, st as int));
    let mut out: Vec<usize> = Vec::new();
    let mut i: i128 = b;
    while (st > 0 && i < e) || (st < 0 && i > e)
        invariant
            st == step_of(step),
            st != 0,
            n == len,
            st > 0 ==> 0 <= i <= n + 0x8000_0000_0000_0000 && e <= n,
            st < 0 ==> -1 - 0x8000_0000_0000_0000 <= i <= n - 1 && -1 <= e,
            -0x8000_0000_0000_0000 <= st <= 0x7fff_ffff_ffff_ffff,
            0 <= n <= 0xffff_ffff_ffff_ffff,
            -1 <= e <= n,
            total == out@.map_values(|p: usize| p as int) + walk(i as int, e as int, st as int),
            forall|j: int| 0 <= j < out@.len() ==> (#[trigger] out@[j]) < len,
        decreases walk_measure(i as int, e as int, st as int),
    {
        let ghost before = out@;
        out.push(i as usize);
        proof {
            assert(out@.map_values(|p: usize| p as int) =~= before.map_values(|p: usize| p as int).push(i as int));
            assert(total =~= out@.map_values(|p: usize| p as int) + walk(i + st, e as int, st as int));
        }
        i = i + st;
    }
    proof {
        assert(walk(i as int, e as int, st as int) =~= Seq::empty());
        assert(total =~= out@.map_values(|p: usize| p as int));
    }
    out
}

} // verus!
