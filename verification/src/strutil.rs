//! Small verified string routines the rest of the crate builds on.

use vstd::prelude::*;
use vstd::string::*;

verus! {

/// Whether the characters of `s` and `t` agree.
pub fn str_eq(s: &str, t: &str) -> (r: bool)
    ensures
        r == (s@ == t@),
{
    let n = s.unicode_len();
    if n != t.unicode_len() {
        return false;
    }
    let mut i: usize = 0;
    while i < n
        invariant
            n == s@.len(),
            n == t@.len(),
            i <= n,
            forall|j: int| 0 <= j < i ==> s@[j] == t@[j],
        decreases n - i,
    {
        if s.get_char(i) != t.get_char(i) {
            return false;
        }
        i = i + 1;
    }
    proof {
        assert(s@ =~= t@);
    }
    true
}

/// Whether `p` occurs in `s` starting at position `i`.
pub open spec fn spec_matches_at(s: Seq<char>, i: int, p: Seq<char>) -> bool {
    0 <= i && i + p.len() <= s.len() && s.subrange(i, i + p.len() as int) == p
}

/// Whether `p` is a prefix of `s`.
pub open spec fn spec_starts_with(s: Seq<char>, p: Seq<char>) -> bool {
    spec_matches_at(s, 0, p)
}

/// Whether `sub` occurs anywhere in `s`.
pub open spec fn spec_contains(s: Seq<char>, sub: Seq<char>) -> bool {
    exists|i: int| spec_matches_at(s, i, sub)
}

/// Compare the characters of `s` at position `i` with the whole of `p`.
pub fn matches_at(s: &str, s_len: usize, i: usize, p: &str) -> (r: bool)
    requires
        s_len == s@.len(),
        i <= s_len,
    ensures
        r == spec_matches_at(s@, i as int, p@),
{
    let p_len = p.unicode_len();
    if p_len > s_len - i {
        return false;
    }
    let mut j: usize = 0;
    while j < p_len
        invariant
            s_len == s@.len(),
            p_len == p@.len(),
            i + p_len <= s_len,
            j <= p_len,
            forall|k: int| 0 <= k < j ==> s@[i + k] == p@[k],
        decreases p_len - j,
    {
        if s.get_char(i + j) != p.get_char(j) {
            proof {
                assert(s@.subrange(i as int, i + p@.len()) != p@) by {
                    assert(s@.subrange(i as int, i + p@.len())[j as int] != p@[j as int]);
                }
            }
            return false;
        }
        j = j + 1;
    }
    proof {
        assert(s@.subrange(i as int, i + p@.len()) =~= p@);
    }
    true
}

/// Whether `p` is a prefix of `s`.
pub fn starts_with(s: &str, p: &str) -> (r: bool)
    ensures
        r == spec_starts_with(s@, p@),
{
    let n = s.unicode_len();
    matches_at(s, n, 0, p)
}

/// Whether `sub` occurs anywhere in `s`.
pub fn contains(s: &str, sub: &str) -> (r: bool)
    ensures
        r == spec_contains(s@, sub@),
{
    let n = s.unicode_len();
    let m = sub.unicode_len();
    if m > n {
        return false;
    }
    if m == 0 {
        proof {
            assert(spec_matches_at(s@, 0, sub@)) by {
                assert(s@.subrange(0, 0) =~= sub@);
            }
        }
        return true;
    }
    let mut i: usize = 0;
    while i <= n - m
        invariant
            n == s@.len(),
            m == sub@.len(),
            0 < m <= n,
            i <= n - m + 1,
            forall|k: int| 0 <= k < i ==> !spec_matches_at(s@, k, sub@),
        decreases n - i,
    {
        if matches_at(s, n, i, sub) {
            return true;
        }
        i = i + 1;
    }
    proof {
        assert forall|k: int| !spec_matches_at(s@, k, sub@) by {
            if 0 <= k && k + sub@.len() <= s@.len() {
                assert(k < i);
            }
        }
    }
    false
}

/// The Unicode white-space characters: the tab through carriage-return
/// block, space, next line, no-break space, ogham space mark, the en-quad
/// through hair-space block, line and paragraph separators, narrow
/// no-break space, medium mathematical space, and ideographic space.
pub open spec fn spec_is_ws(c: char) -> bool {
    ||| (0x09 <= c as u32 && c as u32 <= 0x0D)
    ||| c as u32 == 0x20
    ||| c as u32 == 0x85
    ||| c as u32 == 0xA0
    ||| c as u32 == 0x1680
    ||| (0x2000 <= c as u32 && c as u32 <= 0x200A)
    ||| c as u32 == 0x2028
    ||| c as u32 == 0x2029
    ||| c as u32 == 0x202F
    ||| c as u32 == 0x205F
    ||| c as u32 == 0x3000
}

/// `s` without its leading whitespace.
pub open spec fn spec_trim_start(s: Seq<char>) -> Seq<char>
    decreases s.len(),
{
    if s.len() > 0 && spec_is_ws(s[0]) {
        spec_trim_start(s.skip(1))
    } else {
        s
    }
}

/// `s` without its trailing whitespace.
pub open spec fn spec_trim_end(s: Seq<char>) -> Seq<char>
    decreases s.len(),
{
    if s.len() > 0 && spec_is_ws(s.last()) {
        spec_trim_end(s.drop_last())
    } else {
        s
    }
}

/// `s` without leading and trailing whitespace.
pub open spec fn spec_trim(s: Seq<char>) -> Seq<char> {
    spec_trim_end(spec_trim_start(s))
}

/// Whether `c` counts as white space for trimming.
pub fn is_ws(c: char) -> (r: bool)
    ensures
        r == spec_is_ws(c),
{
    let n = c as u32;
    (0x09 <= n && n <= 0x0D) || n == 0x20 || n == 0x85 || n == 0xA0 || n == 0x1680 || (0x2000 <= n
        && n <= 0x200A) || n == 0x2028 || n == 0x2029 || n == 0x202F || n == 0x205F || n == 0x3000
}

/// Strip leading and trailing whitespace from `s`.
pub fn trim(s: &str) -> (r: String)
    ensures
        r@ == spec_trim(s@),
{
    let n = s.unicode_len();
    proof {
        assert(s@.skip(0) =~= s@);
    }
    let mut lo: usize = 0;
    while lo < n && is_ws(s.get_char(lo))
        invariant
            n == s@.len(),
            lo <= n,
            spec_trim_start(s@) == spec_trim_start(s@.skip(lo as int)),
        decreases n - lo,
    {
        proof {
            assert(s@.skip(lo as int)[0] == s@[lo as int]);
            assert(s@.skip(lo as int).skip(1) =~= s@.skip(lo + 1));
        }
        lo = lo + 1;
    }
    proof {
        if lo < n {
            assert(s@.skip(lo as int)[0] == s@[lo as int]);
        }
        assert(spec_trim_start(s@.skip(lo as int)) == s@.skip(lo as int));
        assert(s@.skip(lo as int) =~= s@.subrange(lo as int, n as int));
    }
    let mut hi: usize = n;
    while hi > lo && is_ws(s.get_char(hi - 1))
        invariant
            n == s@.len(),
            lo <= hi <= n,
            spec_trim_start(s@) == s@.subrange(lo as int, n as int),
            spec_trim(s@) == spec_trim_end(s@.subrange(lo as int, hi as int)),
        decreases hi,
    {
        proof {
            let t = s@.subrange(lo as int, hi as int);
            assert(t.last() == s@[hi - 1]);
            assert(t.drop_last() =~= s@.subrange(lo as int, hi - 1));
        }
        hi = hi - 1;
    }
    proof {
        let t = s@.subrange(lo as int, hi as int);
        if hi > lo {
            assert(t.last() == s@[hi - 1]);
        }
        assert(spec_trim_end(t) == t);
    }
    let r = s.substring_char(lo, hi);
    r.to_owned()
}

/// `s` with every occurrence of `pat` replaced by `rep`, scanning left to
/// right without revisiting replaced text.
pub open spec fn spec_replace(s: Seq<char>, pat: Seq<char>, rep: Seq<char>) -> Seq<char>
    decreases s.len() when pat.len() > 0
{
    if s.len() == 0 {
        s
    } else if spec_starts_with(s, pat) {
        rep + spec_replace(s.skip(pat.len() as int), pat, rep)
    } else {
        seq![s[0]] + spec_replace(s.skip(1), pat, rep)
    }
}

/// Replace every occurrence of `pat` in `s` with `rep`, scanning left to
/// right.
pub fn replace(s: &str, pat: &str, rep: &str) -> (r: String)
    requires
        pat@.len() > 0,
    ensures
        r@ == spec_replace(s@, pat@, rep@),
{
    let n = s.unicode_len();
    let p_len = pat.unicode_len();
    let mut out = String::new();
    let mut i: usize = 0;
    proof {
        assert(s@.skip(0) =~= s@);
        assert(Seq::<char>::empty() + spec_replace(s@, pat@, rep@) =~= spec_replace(
            s@,
            pat@,
            rep@,
        ));
    }
    while i < n
        invariant
            n == s@.len(),
            p_len == pat@.len(),
            p_len > 0,
            i <= n,
            spec_replace(s@, pat@, rep@) == out@ + spec_replace(s@.skip(i as int), pat@, rep@),
        decreases n - i,
    {
        let ghost out0 = out@;
        let ghost t = s@.skip(i as int);
        if matches_at(s, n, i, pat) {
            proof {
                assert(t.subrange(0, pat@.len() as int) =~= s@.subrange(i as int, i + pat@.len()));
                assert(spec_starts_with(t, pat@));
                assert(t.skip(pat@.len() as int) =~= s@.skip(i + pat@.len()));
            }
            out.append(rep);
            i = i + p_len;
            proof {
                assert(out0 + (rep@ + spec_replace(s@.skip(i as int), pat@, rep@)) =~= out@
                    + spec_replace(s@.skip(i as int), pat@, rep@));
            }
        } else {
            proof {
                if spec_starts_with(t, pat@) {
                    assert(t.subrange(0, pat@.len() as int) =~= s@.subrange(
                        i as int,
                        i + pat@.len(),
                    ));
                }
                assert(!spec_starts_with(t, pat@));
                assert(t.skip(1) =~= s@.skip(i + 1));
                assert(seq![t[0]] =~= s@.subrange(i as int, i + 1));
            }
            let piece = s.substring_char(i, i + 1);
            out.append(piece);
            i = i + 1;
            proof {
                assert(out0 + (seq![t[0]] + spec_replace(s@.skip(i as int), pat@, rep@)) =~= out@
                    + spec_replace(s@.skip(i as int), pat@, rep@));
            }
        }
    }
    proof {
        assert(s@.skip(n as int) =~= Seq::<char>::empty());
        assert(out@ + spec_replace(Seq::<char>::empty(), pat@, rep@) =~= out@);
    }
    out
}

/// The suffix of `s` after its last `/`; the whole of `s` when it holds no
/// `/`.
pub open spec fn spec_after_last_slash(s: Seq<char>) -> Seq<char>
    decreases s.len(),
{
    if s.len() == 0 {
        s
    } else if s.last() == '/' {
        Seq::empty()
    } else {
        spec_after_last_slash(s.drop_last()) + seq![s.last()]
    }
}

/// The suffix of `s` after its last `/`.
pub fn after_last_slash(s: &str) -> (r: String)
    ensures
        r@ == spec_after_last_slash(s@),
{
    let n = s.unicode_len();
    proof {
        assert(s@.subrange(0, n as int) =~= s@);
        assert(s@.subrange(n as int, n as int) =~= Seq::<char>::empty());
        assert(spec_after_last_slash(s@.subrange(0, n as int)) + s@.subrange(n as int, n as int)
            =~= spec_after_last_slash(s@));
    }
    let mut j: usize = n;
    while j > 0 && s.get_char(j - 1) != '/'
        invariant
            n == s@.len(),
            j <= n,
            spec_after_last_slash(s@) == spec_after_last_slash(s@.subrange(0, j as int))
                + s@.subrange(j as int, n as int),
        decreases j,
    {
        proof {
            let t = s@.subrange(0, j as int);
            assert(t.last() == s@[j - 1]);
            assert(t.drop_last() =~= s@.subrange(0, j - 1));
            assert(spec_after_last_slash(s@.subrange(0, j - 1)) + seq![s@[j - 1]] + s@.subrange(
                j as int,
                n as int,
            ) =~= spec_after_last_slash(s@.subrange(0, j - 1)) + s@.subrange(j - 1, n as int));
        }
        j = j - 1;
    }
    proof {
        let t = s@.subrange(0, j as int);
        if j == 0 {
            assert(t.len() == 0);
            assert(spec_after_last_slash(t) + s@.subrange(0, n as int) =~= s@.subrange(
                0,
                n as int,
            ));
        } else {
            assert(t.last() == s@[j - 1]);
            assert(spec_after_last_slash(t) + s@.subrange(j as int, n as int) =~= s@.subrange(
                j as int,
                n as int,
            ));
        }
        assert(spec_after_last_slash(s@) == s@.subrange(j as int, n as int));
    }
    let r = s.substring_char(j, n);
    r.to_owned()
}

} // verus!
