use crate::slicing::{positions, slice_of, slice_positions, pick};
use crate::value::{chars_of, string_of};
use vstd::prelude::*;

verus! {

/// `t` occurs in `s` at position `i`.
pub open spec fn occurs_at(s: Seq<char>, t: Seq<char>, i: int) -> bool {
    0 <= i && i + t.len() <= s.len() && s.subrange(i, i + t.len()) == t
}

/// `t` occurs somewhere in `s`.
pub open spec fn occurs_in(s: Seq<char>, t: Seq<char>) -> bool {
    exists|i: int| occurs_at(s, t, i)
}

/// `s` read backward.
pub open spec fn reversed<A>(s: Seq<A>) -> Seq<A> {
    Seq::new(s.len(), |i: int| s[s.len() - 1 - i])
}

fn matches_at(x: &Vec<char>, y: &Vec<char>, i: usize) -> (r: bool)
    requires
        i + y.len() <= x.len(),
    ensures
        r == occurs_at(x@, y@, i as int),
{
    let mut j: usize = 0;
    while j < y.len()
        invariant
            i + y.len() <= x.len(),
            j <= y.len(),
            x@.subrange(i as int, i + j) == y@.take(j as int),
        decreases y.len() - j,
    {
        if x[i + j] != y[j] {
            proof {
                assert(x@.subrange(i as int, i + y.len())[j as int] != y@[j as int]);
            }
            return false;
        }
        proof {
            assert(x@.subrange(i as int, i + j + 1) =~= y@.take(j + 1));
        }
        j = j + 1;
    }
    proof {
        assert(y@.take(j as int) =~= y@);
    }
    true
}

/// The number of characters (not bytes).
pub fn length(string: &str) -> (r: usize)
    ensures
        r == string@.len(),
{
    chars_of(string).len()
}

/// Whether `search` occurs in `string`.
pub fn contains(string: &str, search: &str) -> (r: bool)
    ensures
        r == occurs_in(string@, search@),
{
    let x = chars_of(string);
    let y = chars_of(search);
    if y.len() > x.len() {
        return false;
    }
    if y.len() == 0 {
        proof {
            assert(x@.subrange(0, 0) =~= y@);
            assert(occurs_at(x@, y@, 0));
        }
        return true;
    }
    let limit = x.len() - y.len();
    let mut i: usize = 0;
    while i <= limit
        invariant
            x@ == string@,
            y@ == search@,
            1 <= y.len() <= x.len(),
            limit == x.len() - y.len(),
            i <= limit + 1,
            forall|k: int| 0 <= k < i ==> !occurs_at(x@, y@, k),
        decreases limit + 1 - i,
    {
        if matches_at(&x, &y, i) {
            return true;
        }
        proof {
            assert(i + 1 <= limit + 1);
        }
        i = i + 1;
    }
    false
}

/// Whether `string` begins with `prefix`.
pub fn starts_with(string: &str, prefix: &str) -> (r: bool)
    ensures
        r == occurs_at(string@, prefix@, 0),
{
    let x = chars_of(string);
    let y = chars_of(prefix);
    if y.len() > x.len() {
        return false;
    }
    matches_at(&x, &y, 0)
}

/// Whether `string` ends with `suffix`.
pub fn ends_with(string: &str, suffix: &str) -> (r: bool)
    ensures
        r == occurs_at(string@, suffix@, string@.len() - suffix@.len()),
{
    let x = chars_of(string);
    let y = chars_of(suffix);
    if y.len() > x.len() {
        return false;
    }
    matches_at(&x, &y, x.len() - y.len())
}

/// The characters of `string` in reverse order.
pub fn reverse(string: &str) -> (r: String)
    ensures
        r@ == reversed(string@),
{
    let x = chars_of(string);
    let mut out: Vec<char> = Vec::new();
    let mut j: usize = 0;
    while j < x.len()
        invariant
            j <= x.len(),
            out@ == reversed(x@).take(j as int),
        decreases x.len() - j,
    {
        out.push(x[x.len() - 1 - j]);
        proof {
            assert(out@ =~= reversed(x@).take(j + 1));
        }
        j = j + 1;
    }
    proof {
        assert(reversed(x@).take(j as int) =~= reversed(x@));
    }
    string_of(&out)
}

/// The characters that a slice picks (see `slice_of`); a step of zero is
/// not a slice.
pub fn slice(string: &str, start: &Option<isize>, end: &Option<isize>, step: &Option<isize>) -> (r: String)
    requires
        *step != Some(0isize),
    ensures
        r@ == slice_of(string@, *start, *end, *step),
{
    let x = chars_of(string);
    let p = positions(x.len(), *start, *end, *step);
    let ghost ps = slice_positions(x.len() as int, *start, *end, *step);
    let mut out: Vec<char> = Vec::new();
    let mut j: usize = 0;
    while j < p.len()
        invariant
            j <= p.len(),
            p@.len() == ps.len(),
            forall|t: int| 0 <= t < p@.len() ==> (#[trigger] p@[t]) as int == ps[t] && p@[t] < x.len(),
            out@ == pick(x@, ps).take(j as int),
        decreases p.len() - j,
    {
        out.push(x[p[j]]);
        proof {
            assert(out@ =~= pick(x@, ps).take(j + 1));
        }
        j = j + 1;
    }
    proof {
        assert(pick(x@, ps).take(j as int) =~= pick(x@, ps));
    }
    string_of(&out)
}

pub open spec fn digit_char(d: int) -> char {
    if d == 0 {
        '0'
    } else if d == 1 {
        '1'
    } else if d == 2 {
        '2'
    } else if d == 3 {
        '3'
    } else if d == 4 {
        '4'
    } else if d == 5 {
        '5'
    } else if d == 6 {
        '6'
    } else if d == 7 {
        '7'
    } else if d == 8 {
        '8'
    } else {
        '9'
    }
}

/// The decimal digits of `n`.
pub open spec fn digits(n: nat) -> Seq<char>
    decreases n,
{
    if n < 10 {
        seq![digit_char(n as int)]
    } else {
        digits(n / 10).push(digit_char((n % 10) as int))
    }
}

/// `x` written in decimal, with a leading `-` when negative.
pub open spec fn decimal(x: int) -> Seq<char> {
    if x < 0 {
        seq!['-'] + digits((-x) as nat)
    } else {
        digits(x as nat)
    }
}

/// A bound of a slice as text: empty when absent.
pub open spec fn bound_text(o: Option<isize>) -> Seq<char> {
    match o {
        Some(v) => decimal(v as int),
        None => Seq::empty(),
    }
}

pub open spec fn slice_text(start: Option<isize>, end: Option<isize>, step: Option<isize>) -> Seq<char> {
    bound_text(start) + seq![':'] + bound_text(end) + match step {
        Some(s) => seq![':'] + decimal(s as int),
        None => Seq::empty(),
    }
}

fn digit_of(d: u128) -> (c: char)
    requires
        d < 10,
    ensures
        c == digit_char(d as int),
{
    if d == 0 {
        '0'
    } else if d == 1 {
        '1'
    } else if d == 2 {
        '2'
    } else if d == 3 {
        '3'
    } else if d == 4 {
        '4'
    } else if d == 5 {
        '5'
    } else if d == 6 {
        '6'
    } else if d == 7 {
        '7'
    } else if d == 8 {
        '8'
    } else {
        '9'
    }
}

fn push_digits(n: u128, out: &mut Vec<char>)
    ensures
        final(out)@ == old(out)@ + digits(n as nat),
    decreases n,
{
    if n >= 10 {
        push_digits(n / 10, out);
    }
    let c = digit_of(n % 10);
    out.push(c);
    proof {
        if n >= 10 {
            assert(final(out)@ =~= old(out)@ + digits(n as nat));
        } else {
            assert(final(out)@ =~= old(out)@ + digits(n as nat));
        }
    }
}

fn push_decimal(x: isize, out: &mut Vec<char>)
    ensures
        final(out)@ == old(out)@ + decimal(x as int),
{
    if x < 0 {
        out.push('-');
        let m: u128 = (-(x as i128)) as u128;
        push_digits(m, out);
        proof {
            assert(final(out)@ =~= old(out)@ + decimal(x as int));
        }
    } else {
        push_digits(x as u128, out);
    }
}

/// A slice written as `start:end` or `start:end:step`, absent bounds left empty.
pub fn display_slice(start: &Option<isize>, end: &Option<isize>, step: &Option<isize>) -> (r: String)
    ensures
        r@ == slice_text(*start, *end, *step),
{
    let mut out: Vec<char> = Vec::new();
    if let Some(v) = start {
        push_decimal(*v, &mut out);
    }
    out.push(':');
    if let Some(v) = end {
        push_decimal(*v, &mut out);
    }
    if let Some(v) = step {
        out.push(':');
        push_decimal(*v, &mut out);
    }
    proof {
        assert(out@ =~= slice_text(*start, *end, *step));
    }
    string_of(&out)
}

} // verus!
