//! Update availability logic: parsing an `owner/repo` specification and
//! deciding whether a published version is newer than the running one.
//! Fetching release metadata is network I/O outside the library.
use crate::chars::{chars_of, contains_seq, find_first, occurs_at, string_from_chars, trim_chars,
    trim_seq};
use vstd::prelude::*;

verus! {

/// Update availability, as shown to the surrounding UI.
#[derive(Debug, Clone)]
pub enum UpdateState {
    /// Still checking the release feed.
    Checking,
    /// Running the newest version; both strings kept for display.
    UpToDate { current: String, latest: String },
    /// A newer release with a matching asset exists.
    Available(AvailableUpdate),
    /// The check failed.
    Error(String),
}

/// A newer release and the asset selected for this platform.
#[derive(Debug, Clone)]
pub struct AvailableUpdate {
    pub current: String,
    pub latest: String,
    pub asset_name: String,
    pub asset_url: String,
    pub asset_size: u64,
}

/// A decimal digit.
pub open spec fn is_digit(c: char) -> bool {
    0x30 <= (c as u32) && (c as u32) <= 0x39
}

/// The numeric value of the digit string (most significant first).
pub open spec fn digits_val(s: Seq<char>) -> int
    decreases s.len(),
{
    if s.len() == 0 {
        0
    } else {
        digits_val(s.subrange(0, s.len() - 1)) * 10 + (s[s.len() - 1] as u32 - 0x30)
    }
}

/// All characters are digits.
pub open spec fn all_digits(s: Seq<char>) -> bool {
    forall|i: int| 0 <= i < s.len() ==> is_digit(#[trigger] s[i])
}

/// The number a piece parses to: an optional leading `+`, then at least
/// one digit, valued within `u64`.
pub open spec fn parse_u64_spec(s: Seq<char>) -> Option<u64> {
    let body = if s.len() > 0 && s[0] == '+' {
        s.skip(1)
    } else {
        s
    };
    if body.len() > 0 && all_digits(body) && digits_val(body) <= u64::MAX {
        Some(digits_val(body) as u64)
    } else {
        None
    }
}

proof fn lemma_digits_val_nonneg(s: Seq<char>)
    requires
        all_digits(s),
    ensures
        digits_val(s) >= 0,
    decreases s.len(),
{
    if s.len() > 0 {
        let t = s.subrange(0, s.len() - 1);
        lemma_digits_val_nonneg(t);
    }
}

proof fn lemma_digits_val_mono(s: Seq<char>, k: int)
    requires
        all_digits(s),
        0 <= k <= s.len(),
    ensures
        digits_val(s.take(k)) <= digits_val(s),
    decreases s.len() - k,
{
    if k < s.len() {
        lemma_digits_val_mono(s, k + 1);
        let t = s.take(k + 1);
        assert(t.subrange(0, t.len() - 1) =~= s.take(k));
        lemma_digits_val_nonneg(s.take(k));
    } else {
        assert(s.take(k) =~= s);
    }
}

/// Parse one version piece as a number, as `parse_u64_spec` states.
pub fn parse_u64_piece(v: &Vec<char>) -> (r: Option<u64>)
    ensures
        r == parse_u64_spec(v@),
{
    let start: usize = if v.len() > 0 && v[0] == '+' {
        1
    } else {
        0
    };
    proof {
        if start == 1 {
            assert(v@.skip(1) =~= v@.subrange(1, v@.len() as int));
        } else {
            assert(v@.skip(0) =~= v@);
        }
    }
    let ghost body = if start == 1 {
        v@.skip(1)
    } else {
        v@
    };
    if v.len() == start {
        return None;
    }
    let mut acc: u64 = 0;
    let mut i: usize = start;
    while i < v.len()
        invariant
            start <= i <= v@.len(),
            body == v@.skip(start as int),
            body.len() == v@.len() - start,
            forall|k: int| 0 <= k < i - start ==> is_digit(#[trigger] body[k]),
            acc == digits_val(body.take(i - start)),
        decreases v@.len() - i,
    {
        let c = v[i];
        let u = c as u32;
        if !(0x30 <= u && u <= 0x39) {
            proof {
                assert(body[i - start] == v@[i as int]);
                assert(!is_digit(body[i - start]));
            }
            return None;
        }
        let d: u64 = (u - 0x30) as u64;
        proof {
            assert(body.take(i + 1 - start).subrange(0, i + 1 - start - 1) =~= body.take(
                i - start,
            ));
            assert(body.take(i + 1 - start)[i - start] == v@[i as int]);
            assert(digits_val(body.take(i + 1 - start)) == acc * 10 + d);
        }
        let next = match acc.checked_mul(10) {
            Some(m) => m.checked_add(d),
            None => None,
        };
        match next {
            Some(n) => {
                acc = n;
            },
            None => {
                // the value no longer fits in 64 bits; later digits only
                // grow it further
                proof {
                    if all_digits(body) {
                        lemma_digits_val_mono(body, i + 1 - start);
                    }
                }
                return None;
            },
        }
        i = i + 1;
        proof {
            assert(body[i - 1 - start] == v@[i - 1]);
        }
    }
    proof {
        assert(body.take(body.len() as int) =~= body);
        assert(all_digits(body));
    }
    Some(acc)
}

/// The pieces of a text split on `.` and `-`, empty pieces kept (as
/// `str::split` yields them).
pub open spec fn split_version(s: Seq<char>, buf: Seq<char>, out: Seq<Seq<char>>) -> Seq<
    Seq<char>,
>
    decreases s.len(),
{
    if s.len() == 0 {
        out.push(buf)
    } else if s[0] == '.' || s[0] == '-' {
        split_version(s.skip(1), Seq::empty(), out.push(buf))
    } else {
        split_version(s.skip(1), buf.push(s[0]), out)
    }
}

fn split_version_pieces(v: &Vec<char>) -> (r: Vec<Vec<char>>)
    ensures
        r@.map_values(|p: Vec<char>| p@) == split_version(v@, Seq::empty(), Seq::empty()),
        r@.len() >= 1,
{
    let mut out: Vec<Vec<char>> = Vec::new();
    let mut buf: Vec<char> = Vec::new();
    let mut i: usize = 0;
    proof {
        assert(v@.skip(0) =~= v@);
        assert(buf@ =~= Seq::<char>::empty());
        assert(out@.map_values(|p: Vec<char>| p@) =~= Seq::<Seq<char>>::empty());
    }
    while i < v.len()
        invariant
            i <= v@.len(),
            out@.len() <= i,
            split_version(v@, Seq::empty(), Seq::empty()) == split_version(
                v@.skip(i as int),
                buf@,
                out@.map_values(|p: Vec<char>| p@),
            ),
        decreases v@.len() - i,
    {
        let ghost rem = v@.skip(i as int);
        let ghost pre = out@.map_values(|p: Vec<char>| p@);
        proof {
            assert(rem[0] == v@[i as int]);
            assert(rem.skip(1) =~= v@.skip(i + 1));
        }
        let c = v[i];
        if c == '.' || c == '-' {
            out.push(buf);
            proof {
                assert(out@.map_values(|p: Vec<char>| p@) =~= pre.push(out@.last()@));
            }
            buf = Vec::new();
            proof {
                assert(buf@ =~= Seq::<char>::empty());
            }
        } else {
            buf.push(c);
        }
        i = i + 1;
    }
    proof {
        assert(v@.skip(v@.len() as int) =~= Seq::<char>::empty());
    }
    let ghost pre = out@.map_values(|p: Vec<char>| p@);
    out.push(buf);
    proof {
        assert(out@.map_values(|p: Vec<char>| p@) =~= pre.push(out@.last()@));
    }
    out
}

/// The input without leading `v`/`V` markers (after trimming).
pub open spec fn strip_v(s: Seq<char>) -> Seq<char>
    decreases s.len(),
{
    if s.len() > 0 && (s[0] == 'v' || s[0] == 'V') {
        strip_v(s.skip(1))
    } else {
        s
    }
}

proof fn lemma_strip_v_at(s: Seq<char>, i: int)
    requires
        0 <= i <= s.len(),
        forall|k: int| 0 <= k < i ==> (s[k] == 'v' || s[k] == 'V'),
        i < s.len() ==> !(s[i] == 'v' || s[i] == 'V'),
    ensures
        strip_v(s) == s.skip(i),
    decreases i,
{
    if i == 0 {
        assert(s.skip(0) =~= s);
    } else {
        lemma_strip_v_at(s.skip(1), i - 1);
        assert(s.skip(1).skip(i - 1) =~= s.skip(i));
    }
}

/// The major/minor/patch triple of a version text: trimmed, leading `v`
/// markers dropped, split on `.`/`-`; the major piece must parse, the
/// minor and patch default to zero.
pub open spec fn version_triple(s: Seq<char>) -> Option<(u64, u64, u64)> {
    let core = strip_v(trim_seq(s));
    let pieces = split_version(core, Seq::empty(), Seq::empty());
    match parse_u64_spec(pieces[0]) {
        Some(major) => {
            let minor = if pieces.len() >= 2 {
                match parse_u64_spec(pieces[1]) {
                    Some(m) => m,
                    None => 0u64,
                }
            } else {
                0u64
            };
            let patch = if pieces.len() >= 3 {
                match parse_u64_spec(pieces[2]) {
                    Some(p) => p,
                    None => 0u64,
                }
            } else {
                0u64
            };
            Some((major, minor, patch))
        },
        None => None,
    }
}

/// Parse a version text into its triple, as `version_triple` states.
pub fn parse_version(s: &str) -> (r: Option<(u64, u64, u64)>)
    ensures
        r == version_triple(s@),
{
    let sv = chars_of(s);
    let t = trim_chars(&sv);
    let mut i: usize = 0;
    while i < t.len() && (t[i] == 'v' || t[i] == 'V')
        invariant
            i <= t@.len(),
            forall|k: int| 0 <= k < i ==> (t@[k] == 'v' || t@[k] == 'V'),
        decreases t@.len() - i,
    {
        i = i + 1;
    }
    proof {
        lemma_strip_v_at(t@, i as int);
    }
    let mut core: Vec<char> = Vec::new();
    let mut k: usize = i;
    while k < t.len()
        invariant
            i <= k <= t@.len(),
            core@ == t@.subrange(i as int, k as int),
        decreases t@.len() - k,
    {
        core.push(t[k]);
        k = k + 1;
        proof {
            assert(core@ =~= t@.subrange(i as int, k as int));
        }
    }
    proof {
        assert(t@.subrange(i as int, t@.len() as int) =~= t@.skip(i as int));
    }
    let pieces = split_version_pieces(&core);
    proof {
        assert(pieces@.map_values(|p: Vec<char>| p@)[0] == pieces@[0]@);
    }
    let major = match parse_u64_piece(&pieces[0]) {
        Some(m) => m,
        None => {
            return None;
        },
    };
    let minor = if pieces.len() >= 2 {
        proof {
            assert(pieces@.map_values(|p: Vec<char>| p@)[1] == pieces@[1]@);
        }
        match parse_u64_piece(&pieces[1]) {
            Some(m) => m,
            None => 0,
        }
    } else {
        0
    };
    let patch = if pieces.len() >= 3 {
        proof {
            assert(pieces@.map_values(|p: Vec<char>| p@)[2] == pieces@[2]@);
        }
        match parse_u64_piece(&pieces[2]) {
            Some(p) => p,
            None => 0,
        }
    } else {
        0
    };
    Some((major, minor, patch))
}

/// The first position at which the needle occurs, or -1.
pub open spec fn first_index(h: Seq<char>, n: Seq<char>, i: int) -> int
    decreases h.len() - i + 1,
        when 0 <= i
{
    if i + n.len() > h.len() {
        -1
    } else if occurs_at(h, n, i) {
        i
    } else {
        first_index(h, n, i + 1)
    }
}

proof fn lemma_first_index_of(h: Seq<char>, n: Seq<char>, i: int)
    requires
        0 <= i,
        occurs_at(h, n, i),
        forall|j: int| 0 <= j < i ==> !occurs_at(h, n, j),
    ensures
        first_index(h, n, 0) == i,
{
    lemma_first_index_from(h, n, 0, i);
}

proof fn lemma_first_index_from(h: Seq<char>, n: Seq<char>, k: int, i: int)
    requires
        0 <= k <= i,
        occurs_at(h, n, i),
        forall|j: int| 0 <= j < i ==> !occurs_at(h, n, j),
    ensures
        first_index(h, n, k) == i,
    decreases i - k,
{
    if k < i {
        lemma_first_index_from(h, n, k + 1, i);
    }
}

proof fn lemma_first_index_none(h: Seq<char>, n: Seq<char>, k: int)
    requires
        0 <= k,
        !contains_seq(h, n),
    ensures
        first_index(h, n, k) == -1,
    decreases h.len() - k + 1,
{
    if k + n.len() <= h.len() {
        lemma_first_index_none(h, n, k + 1);
    }
}

/// The non-empty pieces of a text between `/` separators.
pub open spec fn split_slash(s: Seq<char>, buf: Seq<char>, out: Seq<Seq<char>>) -> Seq<Seq<char>>
    decreases s.len(),
{
    if s.len() == 0 {
        if buf.len() > 0 {
            out.push(buf)
        } else {
            out
        }
    } else if s[0] == '/' {
        split_slash(s.skip(1), Seq::empty(), if buf.len() > 0 {
            out.push(buf)
        } else {
            out
        })
    } else {
        split_slash(s.skip(1), buf.push(s[0]), out)
    }
}

fn split_slash_pieces(v: &Vec<char>) -> (r: Vec<Vec<char>>)
    ensures
        r@.map_values(|p: Vec<char>| p@) == split_slash(v@, Seq::empty(), Seq::empty()),
{
    let mut out: Vec<Vec<char>> = Vec::new();
    let mut buf: Vec<char> = Vec::new();
    let mut i: usize = 0;
    proof {
        assert(v@.skip(0) =~= v@);
        assert(buf@ =~= Seq::<char>::empty());
        assert(out@.map_values(|p: Vec<char>| p@) =~= Seq::<Seq<char>>::empty());
    }
    while i < v.len()
        invariant
            i <= v@.len(),
            split_slash(v@, Seq::empty(), Seq::empty()) == split_slash(
                v@.skip(i as int),
                buf@,
                out@.map_values(|p: Vec<char>| p@),
            ),
        decreases v@.len() - i,
    {
        let ghost rem = v@.skip(i as int);
        let ghost pre = out@.map_values(|p: Vec<char>| p@);
        proof {
            assert(rem[0] == v@[i as int]);
            assert(rem.skip(1) =~= v@.skip(i + 1));
        }
        let c = v[i];
        if c == '/' {
            if buf.len() > 0 {
                out.push(buf);
                proof {
                    assert(out@.map_values(|p: Vec<char>| p@) =~= pre.push(out@.last()@));
                }
            }
            buf = Vec::new();
            proof {
                assert(buf@ =~= Seq::<char>::empty());
            }
        } else {
            buf.push(c);
        }
        i = i + 1;
    }
    proof {
        assert(v@.skip(v@.len() as int) =~= Seq::<char>::empty());
    }
    let ghost pre = out@.map_values(|p: Vec<char>| p@);
    if buf.len() > 0 {
        out.push(buf);
        proof {
            assert(out@.map_values(|p: Vec<char>| p@) =~= pre.push(out@.last()@));
        }
    }
    out
}

/// The owner/repo pair a specification names: the part after the first
/// `github.com/` of a URL, or a plain `owner/repo` with exactly two
/// non-empty pieces.
pub open spec fn repo_spec_of(raw: Seq<char>) -> Option<(Seq<char>, Seq<char>)> {
    let t = trim_seq(raw);
    if t.len() == 0 {
        None
    } else if contains_seq(t, "github.com/"@) {
        let p = first_index(t, "github.com/"@, 0);
        let after = t.skip(p + 11);
        let parts = split_slash(after, Seq::empty(), Seq::empty());
        if parts.len() >= 2 {
            Some((parts[0], parts[1]))
        } else {
            None
        }
    } else {
        let parts = split_slash(t, Seq::empty(), Seq::empty());
        if parts.len() == 2 {
            Some((parts[0], parts[1]))
        } else {
            None
        }
    }
}

/// Parse an update source like `owner/repo` or a full repository URL.
pub fn parse_repo_spec(s: &str) -> (r: Option<(String, String)>)
    ensures
        match r {
            Some(p) => repo_spec_of(s@) == Some((p.0@, p.1@)),
            None => repo_spec_of(s@) is None,
        },
{
    let sv = chars_of(s);
    let t = trim_chars(&sv);
    if t.len() == 0 {
        return None;
    }
    let marker = chars_of("github.com/");
    proof {
        reveal_strlit("github.com/");
    }
    match find_first(&t, &marker) {
        Some(p) => {
            proof {
                lemma_first_index_of(t@, "github.com/"@, p as int);
            }
            let mut after: Vec<char> = Vec::new();
            let mut k: usize = p + 11;
            proof {
                assert(after@ =~= t@.subrange(p + 11, p + 11));
            }
            while k < t.len()
                invariant
                    p + 11 <= k <= t@.len(),
                    after@ == t@.subrange(p + 11, k as int),
                decreases t@.len() - k,
            {
                after.push(t[k]);
                k = k + 1;
                proof {
                    assert(after@ =~= t@.subrange(p + 11, k as int));
                }
            }
            proof {
                assert(t@.subrange(p + 11, t@.len() as int) =~= t@.skip(p + 11));
            }
            let parts = split_slash_pieces(&after);
            if parts.len() >= 2 {
                proof {
                    assert(parts@.map_values(|q: Vec<char>| q@)[0] == parts@[0]@);
                    assert(parts@.map_values(|q: Vec<char>| q@)[1] == parts@[1]@);
                }
                Some((string_from_chars(&parts[0]), string_from_chars(&parts[1])))
            } else {
                None
            }
        },
        None => {
            proof {
                lemma_first_index_none(t@, "github.com/"@, 0);
            }
            let parts = split_slash_pieces(&t);
            if parts.len() == 2 {
                proof {
                    assert(parts@.map_values(|q: Vec<char>| q@)[0] == parts@[0]@);
                    assert(parts@.map_values(|q: Vec<char>| q@)[1] == parts@[1]@);
                }
                Some((string_from_chars(&parts[0]), string_from_chars(&parts[1])))
            } else {
                None
            }
        },
    }
}

/// `latest` is newer than `current`: a later triple where both parse;
/// where either does not, any trimmed difference counts as newer.
pub open spec fn latest_is_newer(current: Seq<char>, latest: Seq<char>) -> bool {
    match (version_triple(current), version_triple(latest)) {
        (Some(c), Some(l)) => l.0 > c.0 || (l.0 == c.0 && (l.1 > c.1 || (l.1 == c.1 && l.2
            > c.2))),
        _ => trim_seq(latest) != trim_seq(current),
    }
}

/// Compare two version texts, as `latest_is_newer` states.
pub fn is_latest_newer(current: &str, latest: &str) -> (r: bool)
    ensures
        r == latest_is_newer(current@, latest@),
{
    match (parse_version(current), parse_version(latest)) {
        (Some(c), Some(l)) => {
            l.0 > c.0 || (l.0 == c.0 && (l.1 > c.1 || (l.1 == c.1 && l.2 > c.2)))
        },
        _ => {
            let cv = chars_of(current);
            let lv = chars_of(latest);
            let ct = trim_chars(&cv);
            let lt = trim_chars(&lv);
            !crate::chars::chars_equal(&ct, &lt)
        },
    }
}

} // verus!
