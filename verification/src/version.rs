//! Version identifiers and their normalization.
//!
//! An installed SDK version is named by an identifier that always carries a
//! leading marker character `v` when stored or compared; `1.2.3` and
//! `v1.2.3` denote the same version.

use vstd::prelude::*;
use vstd::string::*;
use crate::config::DevConfig;
use crate::errors::DevError;
use crate::strutil;

verus! {

/// True when `s` already starts with the version marker `v`.
pub open spec fn spec_has_marker(s: Seq<char>) -> bool {
    s.len() > 0 && s[0] == 'v'
}

/// The stored form of a version identifier: the identifier itself when it
/// already carries the marker, otherwise the identifier with the marker
/// prepended.
pub open spec fn spec_normalize_version(s: Seq<char>) -> Seq<char> {
    if spec_has_marker(s) {
        s
    } else {
        seq!['v'] + s
    }
}

/// Normalize a version identifier to its stored, marker-prefixed form.
pub fn normalize_version(s: &str) -> (r: String)
    ensures
        r@ == spec_normalize_version(s@),
{
    if !s.is_empty() && s.get_char(0) == 'v' {
        s.to_owned()
    } else {
        proof {
            reveal_strlit("v");
        }
        let mut out = String::from_str("v");
        out.append(s);
        proof {
            assert(out@ =~= seq!['v'] + s@);
        }
        out
    }
}

/// Normalization is idempotent: a normalized identifier normalizes to
/// itself.
pub proof fn lemma_normalize_idempotent(s: Seq<char>)
    ensures
        spec_normalize_version(spec_normalize_version(s)) == spec_normalize_version(s),
{
    if !spec_has_marker(s) {
        assert((seq!['v'] + s)[0] == 'v');
    }
}

/// A bare identifier and its marker-prefixed form normalize to the same
/// stored value.
pub proof fn lemma_normalize_marker_agnostic(s: Seq<char>)
    requires
        !spec_has_marker(s),
    ensures
        spec_normalize_version(seq!['v'] + s) == spec_normalize_version(s),
{
    assert((seq!['v'] + s)[0] == 'v');
}

/// Whether a directory name under the SDK root names an installed
/// version: it starts with the marker or with a digit.
pub open spec fn spec_is_version_name(s: Seq<char>) -> bool {
    s.len() > 0 && (s[0] == 'v' || (48 <= s[0] as u32 && s[0] as u32 <= 57))
}

/// Whether a directory name looks like an installed version.
pub fn is_version_name(s: &str) -> (r: bool)
    ensures
        r == spec_is_version_name(s@),
{
    if s.is_empty() {
        false
    } else {
        let c = s.get_char(0);
        c == 'v' || (48 <= c as u32 && c as u32 <= 57)
    }
}

/// The version-looking names among `entries`, in their given order.
pub open spec fn spec_filter_versions(entries: Seq<Seq<char>>) -> Seq<Seq<char>>
    decreases entries.len(),
{
    if entries.len() == 0 {
        Seq::empty()
    } else {
        let pre = spec_filter_versions(entries.drop_last());
        if spec_is_version_name(entries.last()) {
            pre.push(entries.last())
        } else {
            pre
        }
    }
}

/// Keep the entries of an SDK-root directory listing that name installed
/// versions, in their given order.
pub fn installed_versions(entries: &Vec<String>) -> (r: Vec<String>)
    ensures
        r.deep_view() == spec_filter_versions(entries.deep_view()),
{
    let n = entries.len();
    let mut out: Vec<String> = Vec::new();
    proof {
        assert(entries.deep_view().take(0) =~= Seq::<Seq<char>>::empty());
        assert(out.deep_view() =~= Seq::<Seq<char>>::empty());
    }
    let mut i: usize = 0;
    while i < n
        invariant
            n == entries.len(),
            i <= n,
            entries.deep_view().len() == n,
            out.deep_view() == spec_filter_versions(entries.deep_view().take(i as int)),
        decreases n - i,
    {
        let ghost pre = entries.deep_view().take(i as int);
        proof {
            assert(entries.deep_view().take(i + 1).drop_last() =~= pre);
            assert(entries.deep_view().take(i + 1).last() == entries.deep_view()[i as int]);
            assert(entries.deep_view()[i as int] == entries[i as int]@);
        }
        if is_version_name(entries[i].as_str()) {
            let v = entries[i].clone();
            out.push(v);
            proof {
                assert(out.deep_view() =~= spec_filter_versions(entries.deep_view().take(i + 1)));
            }
        } else {
            proof {
                assert(out.deep_view() =~= spec_filter_versions(entries.deep_view().take(i + 1)));
            }
        }
        i = i + 1;
    }
    proof {
        assert(entries.deep_view().take(n as int) =~= entries.deep_view());
    }
    out
}

/// `s` without its trailing `/` characters and trailing `.` segments: a
/// current-directory segment at the end names the same entry as the path
/// before it, and a path that is nothing but such segments names no
/// entry at all.
pub open spec fn spec_strip_trailing(s: Seq<char>) -> Seq<char>
    decreases s.len(),
{
    if s.len() > 0 && s.last() == '/' {
        spec_strip_trailing(s.drop_last())
    } else if s.len() >= 2 && s.last() == '.' && s[s.len() - 2] == '/' {
        spec_strip_trailing(s.drop_last())
    } else if s.len() == 1 && s[0] == '.' {
        Seq::empty()
    } else {
        s
    }
}

/// The final path segment of `s`: the suffix after the last `/` once
/// trailing slashes and `.` segments are stripped.  Empty and `..`
/// segments yield nothing.
pub open spec fn spec_last_path_segment(s: Seq<char>) -> Option<Seq<char>> {
    let seg = strutil::spec_after_last_slash(spec_strip_trailing(s));
    if seg.len() == 0 || seg == ".."@ {
        Option::None
    } else {
        Option::Some(seg)
    }
}

/// The final path segment of `s`, if it names a real entry.
pub fn last_path_segment(s: &str) -> (r: Option<String>)
    ensures
        match r {
            Option::Some(seg) => spec_last_path_segment(s@) == Option::Some(seg@),
            Option::None => spec_last_path_segment(s@) is None,
        },
{
    let n = s.unicode_len();
    proof {
        assert(s@.subrange(0, n as int) =~= s@);
    }
    let mut hi: usize = n;
    loop
        invariant
            n == s@.len(),
            hi <= n,
            spec_strip_trailing(s@) == spec_strip_trailing(s@.subrange(0, hi as int)),
        ensures
            spec_strip_trailing(s@) == s@.subrange(0, hi as int),
        decreases hi,
    {
        let ghost t = s@.subrange(0, hi as int);
        if hi == 0 {
            proof {
                assert(t.len() == 0);
                assert(spec_strip_trailing(t) == t);
            }
            break;
        }
        proof {
            assert(t.last() == s@[hi - 1]);
        }
        let c = s.get_char(hi - 1);
        if c == '/' {
            proof {
                assert(t.drop_last() =~= s@.subrange(0, hi - 1));
            }
            hi = hi - 1;
        } else if c == '.' && hi >= 2 && s.get_char(hi - 2) == '/' {
            proof {
                assert(t[t.len() - 2] == s@[hi - 2]);
                assert(t.drop_last() =~= s@.subrange(0, hi - 1));
            }
            hi = hi - 1;
        } else if c == '.' && hi == 1 {
            proof {
                assert(spec_strip_trailing(t) =~= s@.subrange(0, 0));
            }
            hi = 0;
            break;
        } else {
            proof {
                if hi >= 2 {
                    assert(t[t.len() - 2] == s@[hi - 2]);
                }
                assert(spec_strip_trailing(t) == t);
            }
            break;
        }
    }
    let stripped = s.substring_char(0, hi);
    let seg = strutil::after_last_slash(stripped);
    if seg.as_str().is_empty() || strutil::str_eq(seg.as_str(), "..") {
        None
    } else {
        Some(seg)
    }
}

/// The current version as the stores show it: the trimmed contents of the
/// pointer record when that record exists (nothing when the trim leaves an
/// empty string), else the final path segment of the legacy link's target,
/// else nothing.
pub open spec fn spec_current_version(
    pointer: Option<Seq<char>>,
    legacy_target: Option<Seq<char>>,
) -> Option<Seq<char>> {
    match pointer {
        Option::Some(c) => {
            let t = strutil::spec_trim(c);
            if t.len() == 0 {
                Option::None
            } else {
                Option::Some(t)
            }
        },
        Option::None => match legacy_target {
            Option::Some(tgt) => spec_last_path_segment(tgt),
            Option::None => Option::None,
        },
    }
}

/// Resolve the current version from what the stores hold: `pointer` is the
/// contents of the pointer record if it exists, `legacy_target` the target
/// of the legacy link if the record is absent and the link exists.
pub fn current_version(pointer: &Option<String>, legacy_target: &Option<String>) -> (r: Option<
    String,
>)
    ensures
        match r {
            Option::Some(v) => spec_current_version(
                crate::config::view_opt(*pointer),
                crate::config::view_opt(*legacy_target),
            ) == Option::Some(v@),
            Option::None => spec_current_version(
                crate::config::view_opt(*pointer),
                crate::config::view_opt(*legacy_target),
            ) is None,
        },
{
    match pointer {
        Some(c) => {
            let t = strutil::trim(c.as_str());
            if t.as_str().is_empty() {
                None
            } else {
                Some(t)
            }
        },
        None => match legacy_target {
            Some(tgt) => last_path_segment(tgt.as_str()),
            None => None,
        },
    }
}

/// The pointer store round-trips: an identifier with no leading or
/// trailing white space, persisted as the pointer record's contents,
/// is read back unchanged, whatever the legacy link holds.  Identifiers
/// with white space at either end are not read back verbatim, since the
/// read trims.
pub proof fn lemma_pointer_round_trip(v: Seq<char>, legacy_target: Option<Seq<char>>)
    requires
        v.len() > 0,
        !strutil::spec_is_ws(v[0]),
        !strutil::spec_is_ws(v.last()),
    ensures
        spec_current_version(Option::Some(v), legacy_target) == Option::Some(v),
{
    assert(strutil::spec_trim_start(v) == v);
    assert(strutil::spec_trim_end(v) == v);
}

/// Switch to an installed version: normalize the identifier, refuse it
/// when it is not installed, and record it as the last-applied version.
/// `installed` reports whether the normalized version's directory exists
/// under the SDK root; the caller then persists the returned identifier
/// as the current-version pointer.
pub fn use_version(config: &mut DevConfig, version: &str, installed: bool) -> (r: Result<
    String,
    DevError,
>)
    requires
        old(config)@.wf(),
    ensures
        final(config)@.wf(),
        final(config)@.components == old(config)@.components,
        installed ==> match r {
            Result::Ok(v) => v@ == spec_normalize_version(version@) && final(config)@.sdk_version
                == Option::Some(spec_normalize_version(version@)),
            Result::Err(_) => false,
        },
        !installed ==> r == Result::<String, DevError>::Err(DevError::NotFound)
            && final(config)@.sdk_version == old(config)@.sdk_version,
{
    let normalized = normalize_version(version);
    if !installed {
        return Err(DevError::NotFound);
    }
    let out = normalized.clone();
    config.sdk_version = Some(normalized);
    proof {
        assert(config@.components =~= old(config)@.components);
    }
    Ok(out)
}

} // verus!
