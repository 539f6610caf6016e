//! Comparison of strings up to surrounding whitespace.

use vstd::prelude::*;

use crate::path::chars_of;

verus! {

/// Whether `c` is white space: the space, the controls from tab to carriage
/// return, the next-line control, the no-break space, and the spaces and
/// line separators of the general punctuation and of ideographic text. These
/// are the characters that Unicode gives the property White_Space.
pub open spec fn is_whitespace_spec(c: char) -> bool {
    let n = c as u32;
    ||| n == 0x20
    ||| 0x09 <= n <= 0x0d
    ||| n == 0x85
    ||| n == 0xa0
    ||| n == 0x1680
    ||| 0x2000 <= n <= 0x200a
    ||| n == 0x2028
    ||| n == 0x2029
    ||| n == 0x202f
    ||| n == 0x205f
    ||| n == 0x3000
}

/// Whether `c` is white space.
pub fn is_whitespace(c: char) -> (yes: bool)
    ensures
        yes == is_whitespace_spec(c),
{
    let n: u32 = c as u32;
    n == 0x20 || (0x09 <= n && n <= 0x0d) || n == 0x85 || n == 0xa0 || n == 0x1680 || (0x2000 <= n
        && n <= 0x200a) || n == 0x2028 || n == 0x2029 || n == 0x202f || n == 0x205f || n == 0x3000
}

/// `s` without its leading whitespace.
pub open spec fn trim_start_spec(s: Seq<char>) -> Seq<char>
    decreases s.len(),
{
    if s.len() > 0 && is_whitespace_spec(s.first()) {
        trim_start_spec(s.drop_first())
    } else {
        s
    }
}

/// `s` without its trailing whitespace.
pub open spec fn trim_end_spec(s: Seq<char>) -> Seq<char>
    decreases s.len(),
{
    if s.len() > 0 && is_whitespace_spec(s.last()) {
        trim_end_spec(s.drop_last())
    } else {
        s
    }
}

/// `s` without leading and trailing whitespace.
pub open spec fn trim_spec(s: Seq<char>) -> Seq<char> {
    trim_end_spec(trim_start_spec(s))
}

/// The bounds of `chars` without its surrounding whitespace.
fn trim_bounds(chars: &Vec<char>) -> (bounds: (usize, usize))
    ensures
        bounds.0 <= bounds.1 <= chars.len(),
        trim_spec(chars@) == chars@.subrange(bounds.0 as int, bounds.1 as int),
{
    let n: usize = chars.len();
    let mut from: usize = 0;
    assert(chars@.skip(0) =~= chars@);
    while from < n && is_whitespace(chars[from])
        invariant
            n == chars.len(),
            from <= n,
            trim_start_spec(chars@) == trim_start_spec(chars@.skip(from as int)),
        decreases n - from,
    {
        assert(chars@.skip(from as int).drop_first() =~= chars@.skip(from + 1));
        from = from + 1;
    }
    assert(trim_start_spec(chars@) == chars@.skip(from as int)) by {
        if from < n {
            assert(chars@.skip(from as int).first() == chars@[from as int]);
        }
    }
    let mut to: usize = n;
    assert(chars@.subrange(from as int, n as int) =~= chars@.skip(from as int));
    while to > from && is_whitespace(chars[to - 1])
        invariant
            n == chars.len(),
            from <= to <= n,
            trim_spec(chars@) == trim_end_spec(chars@.subrange(from as int, to as int)),
        decreases to,
    {
        assert(chars@.subrange(from as int, to as int).drop_last() =~= chars@.subrange(
            from as int,
            to - 1,
        ));
        to = to - 1;
    }
    assert(trim_spec(chars@) == chars@.subrange(from as int, to as int)) by {
        if to > from {
            assert(chars@.subrange(from as int, to as int).last() == chars@[to - 1]);
        }
    }
    (from, to)
}

/// Whether `a` and `b` are the same once the whitespace around each is
/// taken away. What is between is compared exactly, case included.
pub fn trimmed_eq(a: &str, b: &str) -> (same: bool)
    ensures
        same == (trim_spec(a@) == trim_spec(b@)),
{
    let left = chars_of(a);
    let right = chars_of(b);
    let (l0, l1) = trim_bounds(&left);
    let (r0, r1) = trim_bounds(&right);
    let ghost lhs = left@.subrange(l0 as int, l1 as int);
    let ghost rhs = right@.subrange(r0 as int, r1 as int);
    if l1 - l0 != r1 - r0 {
        assert(lhs.len() != rhs.len());
        return false;
    }
    let len: usize = l1 - l0;
    let mut i: usize = 0;
    while i < len
        invariant
            i <= len,
            len == l1 - l0,
            len == r1 - r0,
            l1 <= left.len(),
            r1 <= right.len(),
            lhs == left@.subrange(l0 as int, l1 as int),
            rhs == right@.subrange(r0 as int, r1 as int),
            trim_spec(a@) == lhs,
            trim_spec(b@) == rhs,
            forall|k: int| 0 <= k < i ==> lhs[k] == rhs[k],
        decreases len - i,
    {
        if left[l0 + i] != right[r0 + i] {
            assert(lhs[i as int] != rhs[i as int]);
            return false;
        }
        i = i + 1;
    }
    assert(lhs =~= rhs);
    true
}

} // verus!
