//! Character-level text model: white space, stripping and trimming,
//! substring search, and the executable helpers that realise them exactly.

use vstd::prelude::*;
use vstd::string::*;

verus! {

/// The Unicode white-space code points (the `White_Space` property), the set
/// that `char::is_whitespace` recognises.
pub open spec fn is_ws(c: char) -> bool {
    let u = c as u32;
    ||| u == 0x20
    ||| (0x09 <= u && u <= 0x0d)
    ||| u == 0x85
    ||| u == 0xa0
    ||| u == 0x1680
    ||| (0x2000 <= u && u <= 0x200a)
    ||| u == 0x2028
    ||| u == 0x2029
    ||| u == 0x202f
    ||| u == 0x205f
    ||| u == 0x3000
}

/// Executable white-space test, exact against `is_ws`.
pub fn is_ws_char(c: char) -> (r: bool)
    ensures
        r == is_ws(c),
{
    let u = c as u32;
    u == 0x20 || (0x09 <= u && u <= 0x0d) || u == 0x85 || u == 0xa0 || u == 0x1680 || (0x2000 <= u
        && u <= 0x200a) || u == 0x2028 || u == 0x2029 || u == 0x202f || u == 0x205f || u == 0x3000
}

/// White-space test on one character of `s`, for use in loop conditions.
pub fn is_ws_at(s: &str, i: usize) -> (r: bool)
    requires
        i < s@.len(),
    ensures
        r == is_ws(s@[i as int]),
{
    is_ws_char(s.get_char(i))
}

/// `s` with every white-space character removed.
pub open spec fn strip_ws(s: Seq<char>) -> Seq<char>
    decreases s.len(),
{
    if s.len() == 0 {
        Seq::empty()
    } else if is_ws(s.last()) {
        strip_ws(s.drop_last())
    } else {
        strip_ws(s.drop_last()).push(s.last())
    }
}

/// `s` without its leading white space.
pub open spec fn trim_start(s: Seq<char>) -> Seq<char>
    decreases s.len(),
{
    if s.len() == 0 {
        s
    } else if is_ws(s[0]) {
        trim_start(s.drop_first())
    } else {
        s
    }
}

/// `s` without its trailing white space.
pub open spec fn trim_end(s: Seq<char>) -> Seq<char>
    decreases s.len(),
{
    if s.len() == 0 {
        s
    } else if is_ws(s.last()) {
        trim_end(s.drop_last())
    } else {
        s
    }
}

/// `s` without leading and trailing white space, as `str::trim` yields it.
pub open spec fn trim(s: Seq<char>) -> Seq<char> {
    trim_end(trim_start(s))
}

/// `needle` occurs as a contiguous run inside `hay`.
pub open spec fn contains_seq(hay: Seq<char>, needle: Seq<char>) -> bool {
    exists|i: int|
        0 <= i && i + needle.len() <= hay.len() && #[trigger] hay.subrange(i, i + needle.len())
            == needle
}

/// The bounds of `trim(s@)` inside `s`: the trimmed text is `s[r.0 .. r.1]`.
pub fn trim_bounds(s: &str) -> (r: (usize, usize))
    ensures
        r.0 <= r.1 <= s@.len(),
        trim(s@) == s@.subrange(r.0 as int, r.1 as int),
{
    let n = s.unicode_len();
    let mut start: usize = 0;
    proof {
        assert(s@.skip(0) =~= s@);
    }
    while start < n && is_ws_at(s, start)
        invariant
            start <= n,
            n == s@.len(),
            trim_start(s@) == trim_start(s@.skip(start as int)),
        decreases n - start,
    {
        proof {
            assert(s@.skip(start as int)[0] == s@[start as int]);
            assert(s@.skip(start as int).drop_first() =~= s@.skip(start as int + 1));
        }
        start = start + 1;
    }
    proof {
        if start == n {
            assert(s@.skip(start as int) =~= Seq::<char>::empty());
        } else {
            assert(s@.skip(start as int)[0] == s@[start as int]);
        }
        assert(trim_start(s@) == s@.skip(start as int));
        assert(s@.skip(start as int) =~= s@.subrange(start as int, n as int));
    }
    let mut end: usize = n;
    while end > start && is_ws_at(s, end - 1)
        invariant
            start <= end <= n,
            n == s@.len(),
            trim_start(s@) == s@.skip(start as int),
            trim_end(s@.skip(start as int)) == trim_end(s@.subrange(start as int, end as int)),
        decreases end,
    {
        proof {
            let e = s@.subrange(start as int, end as int);
            assert(e.last() == s@[end - 1]);
            assert(e.drop_last() =~= s@.subrange(start as int, end as int - 1));
        }
        end = end - 1;
    }
    proof {
        let e = s@.subrange(start as int, end as int);
        if end > start {
            assert(e.last() == s@[end - 1]);
        }
        assert(trim_end(e) == e);
    }
    (start, end)
}

/// The characters of `s` between `from` and `to` equal the whole of `t`.
pub fn range_eq_str(s: &str, from: usize, to: usize, t: &str) -> (r: bool)
    requires
        from <= to <= s@.len(),
    ensures
        r == (s@.subrange(from as int, to as int) == t@),
{
    let tn = t.unicode_len();
    if to - from != tn {
        proof {
            assert(s@.subrange(from as int, to as int).len() == to - from);
        }
        return false;
    }
    let mut k: usize = 0;
    while k < tn
        invariant
            from <= to <= s@.len(),
            to - from == tn,
            tn == t@.len(),
            k <= tn,
            forall|m: int| 0 <= m < k ==> s@.subrange(from as int, to as int)[m] == t@[m],
        decreases tn - k,
    {
        let a = s.get_char(from + k);
        let b = t.get_char(k);
        if a != b {
            proof {
                assert(s@.subrange(from as int, to as int)[k as int] == s@[from + k]);
            }
            return false;
        }
        proof {
            assert(s@.subrange(from as int, to as int)[k as int] == s@[from + k]);
        }
        k = k + 1;
    }
    proof {
        assert(s@.subrange(from as int, to as int) =~= t@);
    }
    true
}

/// `needle` searched for inside `s[from..to]`, exact against `contains_seq`.
pub fn range_contains_str(s: &str, from: usize, to: usize, needle: &str) -> (r: bool)
    requires
        from <= to <= s@.len(),
    ensures
        r == contains_seq(s@.subrange(from as int, to as int), needle@),
{
    let ghost hay = s@.subrange(from as int, to as int);
    let n = needle.unicode_len();
    let hay_len = to - from;
    if hay_len < n {
        return false;
    }
    if n == 0 {
        proof {
            assert(hay.subrange(0, 0 + needle@.len() as int) =~= needle@);
            assert(contains_seq(hay, needle@));
        }
        return true;
    }
    let mut i: usize = 0;
    while i <= hay_len - n
        invariant
            from <= to <= s@.len(),
            hay == s@.subrange(from as int, to as int),
            hay.len() == hay_len,
            n == needle@.len(),
            n <= hay_len,
            1 <= n,
            i <= hay_len - n + 1,
            forall|m: int|
                0 <= m < i ==> #[trigger] hay.subrange(m, m + needle@.len()) != needle@,
        decreases hay_len - i,
    {
        if range_eq_str(s, from + i, from + i + n, needle) {
            proof {
                assert(hay.subrange(i as int, i + n) =~= s@.subrange(
                    from + i as int,
                    from + i + n,
                ));
            }
            return true;
        }
        proof {
            assert(hay.subrange(i as int, i + n) =~= s@.subrange(from + i as int, from + i + n));
        }
        i = i + 1;
    }
    false
}

/// The collected characters equal the whole of `t`.
pub fn chars_eq_str(v: &Vec<char>, t: &str) -> (r: bool)
    ensures
        r == (v@ == t@),
{
    let tn = t.unicode_len();
    if v.len() != tn {
        return false;
    }
    let mut k: usize = 0;
    while k < tn
        invariant
            v@.len() == tn,
            tn == t@.len(),
            k <= tn,
            forall|m: int| 0 <= m < k ==> v@[m] == t@[m],
        decreases tn - k,
    {
        if v[k] != t.get_char(k) {
            return false;
        }
        k = k + 1;
    }
    proof {
        assert(v@ =~= t@);
    }
    true
}

/// Relies on `String`'s `FromIterator` over `char`: collecting characters
/// yields the string of exactly those characters, in order.
#[verifier::external_body]
pub(crate) fn string_from_chars(v: &Vec<char>) -> (r: String)
    ensures
        r@ == v@,
{
    v.iter().collect()
}

} // verus!
