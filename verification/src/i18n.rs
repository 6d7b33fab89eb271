//! Normalization of locale tags for the UI language selection. Looking a
//! translation up happens in the surrounding application; the tag
//! normalization is the part with logic of its own.
use crate::chars::{chars_of, replace_all, replace_pat, string_from_chars, trim_chars, trim_seq};
use vstd::prelude::*;

verus! {

/// A locale tag brought to a BCP47-like shape: trimmed, any encoding
/// suffix after the first `.` dropped, and `_` replaced by `-` (so
/// `ja_JP.UTF-8` becomes `ja-JP`).
pub open spec fn normalized_tag(raw: Seq<char>) -> Seq<char> {
    let t = trim_seq(raw);
    let cut = cut_at_dot(t, 0);
    replace_pat(cut, seq!['_'], seq!['-'])
}

/// The text before its first `.`, or the whole text without one.
pub open spec fn cut_at_dot(s: Seq<char>, i: int) -> Seq<char>
    decreases s.len() - i,
    when 0 <= i
{
    if i >= s.len() {
        s
    } else if s[i] == '.' {
        s.take(i)
    } else {
        cut_at_dot(s, i + 1)
    }
}

/// Normalize a locale tag, as `normalized_tag` states.
pub fn normalize_locale_tag(s: &str) -> (r: String)
    ensures
        r@ == normalized_tag(s@),
{
    let sv = chars_of(s);
    let t = trim_chars(&sv);
    let mut cut_idx: usize = t.len();
    let mut i: usize = 0;
    let mut found: bool = false;
    while i < t.len() && !found
        invariant
            i <= t@.len(),
            !found ==> cut_at_dot(t@, 0) == cut_at_dot(t@, i as int),
            found ==> (cut_idx < t@.len() && cut_at_dot(t@, 0) == t@.take(cut_idx as int)),
            !found ==> cut_idx == t@.len(),
        decreases t@.len() - i + (if found {
            0int
        } else {
            1int
        }),
    {
        if t[i] == '.' {
            found = true;
            cut_idx = i;
        } else {
            i = i + 1;
        }
    }
    let k: usize = if found {
        cut_idx
    } else {
        t.len()
    };
    let cut = crate::chars::prefix_chars(&t, k);
    proof {
        assert(cut@ == t@.take(k as int));
        if !found {
            assert(cut_at_dot(t@, t@.len() as int) == t@);
            assert(t@.take(t@.len() as int) =~= t@);
            assert(cut@ == cut_at_dot(t@, 0));
        } else {
            assert(cut_at_dot(t@, 0) == t@.take(cut_idx as int));
            assert(cut@ == cut_at_dot(t@, 0));
        }
    }
    let us = chars_of("_");
    let dash = chars_of("-");
    proof {
        reveal_strlit("_");
        reveal_strlit("-");
        assert("_"@ =~= seq!['_']);
        assert("-"@ =~= seq!['-']);
    }
    let out = replace_all(&cut, &us, &dash);
    proof {
        assert(cut@ == cut_at_dot(trim_seq(s@), 0));
        assert(us@ =~= seq!['_']);
        assert(dash@ =~= seq!['-']);
        assert(out@ == replace_pat(cut_at_dot(trim_seq(s@), 0), seq!['_'], seq!['-']));
    }
    string_from_chars(&out)
}

} // verus!
