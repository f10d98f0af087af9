//! Normalization of executable paths into archive entry names.
//!
//! An entry name is the path with every backslash turned into a forward
//! slash and, when the path begins with a drive prefix (an ASCII letter
//! followed by a colon), with that colon removed, so that the name is a
//! plain relative path inside the archive's namespace.

use vstd::prelude::*;
use vstd::string::StrSliceExecFns;
use crate::strutil::string_push;

verus! {

/// An ASCII letter, the only characters that can open a drive prefix.
pub open spec fn is_ascii_letter(c: char) -> bool {
    (65 <= c as u32 && c as u32 <= 90) || (97 <= c as u32 && c as u32 <= 122)
}

/// A backslash becomes a forward slash; every other character stays.
pub open spec fn slash_char(c: char) -> char {
    if c == '\\' {
        '/'
    } else {
        c
    }
}

/// The path with every backslash turned into a forward slash.
pub open spec fn spec_slashed(s: Seq<char>) -> Seq<char> {
    s.map_values(|c: char| slash_char(c))
}

/// Whether the path begins with a drive prefix: a letter and a colon.
pub open spec fn has_drive_prefix(s: Seq<char>) -> bool {
    s.len() >= 2 && is_ascii_letter(s[0]) && s[1] == ':'
}

/// The path with the colon of a leading drive prefix removed.
pub open spec fn spec_strip_drive(s: Seq<char>) -> Seq<char> {
    if has_drive_prefix(s) {
        s.remove(1)
    } else {
        s
    }
}

/// The archive entry name of a path: slashes normalized, drive colon gone.
pub open spec fn spec_entry_name(s: Seq<char>) -> Seq<char> {
    spec_strip_drive(spec_slashed(s))
}

fn ascii_letter(c: char) -> (r: bool)
    ensures
        r == is_ascii_letter(c),
{
    let u = c as u32;
    (65 <= u && u <= 90) || (97 <= u && u <= 122)
}

/// Turns a filesystem path into its archive entry name.
pub fn entry_name(path: &str) -> (r: String)
    ensures
        r@ == spec_entry_name(path@),
{
    let n = path.unicode_len();
    let strip = n >= 2 && ascii_letter(path.get_char(0)) && path.get_char(1) == ':';
    proof {
        assert forall|k: int| 0 <= k < path@.len() implies #[trigger] is_ascii_letter(
            spec_slashed(path@)[k],
        ) == is_ascii_letter(path@[k]) && (spec_slashed(path@)[k] == ':') == (path@[k]
            == ':') by {
            assert(spec_slashed(path@)[k] == slash_char(path@[k]));
        }
        assert(strip == has_drive_prefix(spec_slashed(path@)));
    }
    let mut out = String::new();
    let mut i: usize = 0;
    while i < n
        invariant
            n == path@.len(),
            0 <= i <= n,
            strip == has_drive_prefix(spec_slashed(path@)),
            !strip ==> out@ == spec_slashed(path@.take(i as int)),
            strip && i <= 1 ==> out@ == spec_slashed(path@.take(i as int)),
            strip && i >= 2 ==> out@ == spec_slashed(path@.take(i as int)).remove(1),
        decreases n - i,
    {
        let ghost prev = out@;
        if !(strip && i == 1) {
            let c = path.get_char(i);
            let c2 = if c == '\\' {
                '/'
            } else {
                c
            };
            string_push(&mut out, c2);
            assert(out@ == prev.push(slash_char(path@[i as int])));
        }
        proof {
            assert(spec_slashed(path@.take(i + 1)) =~= spec_slashed(path@.take(i as int)).push(
                slash_char(path@[i as int]),
            ));
            if strip && i >= 2 {
                assert(out@ =~= spec_slashed(path@.take(i + 1)).remove(1));
            }
            if strip && i == 1 {
                assert(slash_char(path@[1]) == ':');
                assert(out@ =~= spec_slashed(path@.take(2)).remove(1));
            }
        }
        i = i + 1;
    }
    proof {
        assert(path@.take(n as int) == path@);
    }
    out
}

/// Law: a path that holds no backslash and carries no drive prefix is left
/// unchanged by entry-name normalization.
pub proof fn lemma_entry_name_plain_unchanged(s: Seq<char>)
    requires
        !has_drive_prefix(s),
        forall|i: int| 0 <= i < s.len() ==> s[i] != '\\',
    ensures
        spec_entry_name(s) == s,
{
    assert(spec_slashed(s) =~= s);
}

/// Law: entry-name normalization is idempotent. The one shape left out is a
/// path whose drive prefix is followed by a second colon, where removing the
/// first colon manufactures a new drive prefix.
pub proof fn lemma_entry_name_idempotent(s: Seq<char>)
    requires
        !(s.len() >= 3 && is_ascii_letter(s[0]) && s[1] == ':' && s[2] == ':'),
    ensures
        spec_entry_name(spec_entry_name(s)) == spec_entry_name(s),
{
    let t = spec_slashed(s);
    assert forall|k: int| 0 <= k < s.len() implies #[trigger] is_ascii_letter(t[k])
        == is_ascii_letter(s[k]) && (t[k] == ':') == (s[k] == ':') by {
        assert(t[k] == slash_char(s[k]));
    }
    let r = spec_entry_name(s);
    assert forall|k: int| 0 <= k < r.len() implies #[trigger] r[k] != '\\' by {
        if has_drive_prefix(t) {
            assert(r == t.remove(1));
            if k < 1 {
                assert(r[k] == t[k]);
            } else {
                assert(r[k] == t[k + 1]);
            }
        } else {
            assert(r[k] == t[k]);
        }
        assert(forall|j: int| 0 <= j < t.len() ==> #[trigger] t[j] != '\\');
    }
    assert(spec_slashed(r) =~= r);
    if has_drive_prefix(t) {
        assert(r == t.remove(1));
        if r.len() >= 2 {
            assert(r[1] == t[2]);
            assert(t[2] != ':');
            assert(!has_drive_prefix(r));
        } else {
            assert(!has_drive_prefix(r));
        }
    } else {
        assert(r == t);
        assert(!has_drive_prefix(r));
    }
    assert(spec_entry_name(r) == spec_strip_drive(spec_slashed(r)));
    assert(spec_entry_name(r) == r);
}

} // verus!
