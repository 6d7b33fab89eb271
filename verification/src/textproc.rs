//! Cleanup of recognized text: stripping bracketed non-speech markers,
//! discarding punctuation-only results, and collapsing decoder-loop
//! repetitions.
use crate::chars::{char_is_ascii_punct, char_is_space, char_is_unicode_punct, chars_of, copy_chars,
    is_ascii_punct_char, is_space_char, is_unicode_punct, matches_at, string_from_chars,
    trim_chars, trim_seq, trim_string};
use vstd::prelude::*;

verus! {

/// A character that carries no speech content: whitespace, ASCII
/// punctuation, or Unicode punctuation.
pub open spec fn is_filler_char(c: char) -> bool {
    is_space_char(c) || is_ascii_punct_char(c) || is_unicode_punct(c)
}

/// Every character of the text is filler.
pub open spec fn all_filler(s: Seq<char>) -> bool {
    forall|i: int| 0 <= i < s.len() ==> is_filler_char(#[trigger] s[i])
}

/// Whether the string consists only of punctuation and whitespace.
pub fn is_punct_or_space_only(s: &str) -> (r: bool)
    ensures
        r == all_filler(s@),
{
    let v = chars_of(s);
    let mut i: usize = 0;
    while i < v.len()
        invariant
            i <= v@.len(),
            v@ == s@,
            forall|k: int| 0 <= k < i ==> is_filler_char(#[trigger] s@[k]),
        decreases v@.len() - i,
    {
        let c = v[i];
        if !(char_is_space(c) || char_is_ascii_punct(c) || char_is_unicode_punct(c)) {
            return false;
        }
        i = i + 1;
    }
    true
}

/// The text with every occurrence of the pattern removed, scanning left to
/// right. When a removed occurrence sat between two spaces, one of the two
/// is dropped with it, so the surrounding words keep a single separator.
pub open spec fn strip_pat(h: Seq<char>, p: Seq<char>, prev_space: bool) -> Seq<char>
    decreases h.len(),
{
    if p.len() == 0 {
        h
    } else if h.len() < p.len() {
        h
    } else if h.take(p.len() as int) == p {
        let rest = h.skip(p.len() as int);
        let rest2 = if prev_space && rest.len() > 0 && rest[0] == ' ' {
            rest.skip(1)
        } else {
            rest
        };
        strip_pat(rest2, p, prev_space)
    } else {
        seq![h[0]] + strip_pat(h.skip(1), p, h[0] == ' ')
    }
}

/// Remove every occurrence of `p` from `h`, as `strip_pat` states.
pub fn strip_pattern(h: &Vec<char>, p: &Vec<char>, prev0: bool) -> (r: Vec<char>)
    requires
        p@.len() >= 1,
    ensures
        r@ == strip_pat(h@, p@, prev0),
{
    let mut out: Vec<char> = Vec::new();
    let mut i: usize = 0;
    let mut prev: bool = prev0;
    proof {
        assert(h@.skip(0) =~= h@);
        assert(Seq::<char>::empty() + strip_pat(h@, p@, prev0) =~= strip_pat(h@, p@, prev0));
    }
    while i < h.len()
        invariant
            i <= h@.len(),
            p@.len() >= 1,
            strip_pat(h@, p@, prev0) == out@ + strip_pat(h@.skip(i as int), p@, prev),
        decreases h@.len() - i,
    {
        let ghost rem = h@.skip(i as int);
        if matches_at(h, p, i) {
            proof {
                assert(rem.take(p@.len() as int) =~= h@.subrange(i as int, i + p@.len()));
                assert(rem.skip(p@.len() as int) =~= h@.skip(i + p@.len()));
            }
            let mut ni: usize = i + p.len();
            if prev && ni < h.len() && h[ni] == ' ' {
                proof {
                    assert(h@.skip(ni as int).skip(1) =~= h@.skip(ni + 1));
                }
                ni = ni + 1;
            }
            i = ni;
        } else {
            proof {
                if i + p@.len() <= h@.len() {
                    assert(rem.take(p@.len() as int) =~= h@.subrange(i as int, i + p@.len()));
                }
                assert(rem.skip(1) =~= h@.skip(i + 1));
            }
            let c = h[i];
            out.push(c);
            prev = c == ' ';
            i = i + 1;
            proof {
                assert(out@ + strip_pat(h@.skip(i as int), p@, prev) =~= strip_pat(
                    h@,
                    p@,
                    prev0,
                ));
            }
        }
    }
    proof {
        assert(h@.skip(i as int) =~= Seq::<char>::empty());
        assert(out@ + Seq::<char>::empty() =~= out@);
    }
    out
}

/// The fixed, hand-curated list of bracketed non-speech markers that the
/// noise filter removes verbatim.
pub open spec fn noise_patterns() -> Seq<Seq<char>> {
    seq![
        "(music)"@,
        "(sound)"@,
        "(applause)"@,
        "(laugh)"@,
        "(cough)"@,
        "[music]"@,
        "[sound]"@,
        "[applause]"@,
        "[laugh]"@,
        "[cough]"@,
        "\u{266a}"@,
    ]
}

/// The text after removing each noise pattern in turn.
pub open spec fn strip_all(h: Seq<char>, pats: Seq<Seq<char>>) -> Seq<char>
    decreases pats.len(),
{
    if pats.len() == 0 {
        h
    } else {
        strip_all(strip_pat(h, pats[0], false), pats.skip(1))
    }
}

/// What the noise filter returns: the input with every marker removed and
/// the ends trimmed, or the empty text when only punctuation and
/// whitespace remain.
pub open spec fn filter_noise_spec(t: Seq<char>) -> Seq<char> {
    let stripped = trim_seq(strip_all(t, noise_patterns()));
    if all_filler(stripped) {
        Seq::empty()
    } else {
        stripped
    }
}

/// Strip the fixed set of non-speech markers and trim the result; a result
/// that is only punctuation and whitespace is discarded entirely.
pub fn filter_noise_text(text: &str) -> (r: String)
    ensures
        r@ == filter_noise_spec(text@),
{
    let mut v = chars_of(text);
    let ghost pats = noise_patterns();
    let p0 = chars_of("(music)");
    let p1 = chars_of("(sound)");
    let p2 = chars_of("(applause)");
    let p3 = chars_of("(laugh)");
    let p4 = chars_of("(cough)");
    let p5 = chars_of("[music]");
    let p6 = chars_of("[sound]");
    let p7 = chars_of("[applause]");
    let p8 = chars_of("[laugh]");
    let p9 = chars_of("[cough]");
    let p10 = chars_of("\u{266a}");
    proof {
        reveal_strlit("(music)");
        reveal_strlit("(sound)");
        reveal_strlit("(applause)");
        reveal_strlit("(laugh)");
        reveal_strlit("(cough)");
        reveal_strlit("[music]");
        reveal_strlit("[sound]");
        reveal_strlit("[applause]");
        reveal_strlit("[laugh]");
        reveal_strlit("[cough]");
        reveal_strlit("\u{266a}");
    }
    let ghost h0 = text@;
    v = strip_pattern(&v, &p0, false);
    let ghost h1 = v@;
    v = strip_pattern(&v, &p1, false);
    let ghost h2 = v@;
    v = strip_pattern(&v, &p2, false);
    let ghost h3 = v@;
    v = strip_pattern(&v, &p3, false);
    let ghost h4 = v@;
    v = strip_pattern(&v, &p4, false);
    let ghost h5 = v@;
    v = strip_pattern(&v, &p5, false);
    let ghost h6 = v@;
    v = strip_pattern(&v, &p6, false);
    let ghost h7 = v@;
    v = strip_pattern(&v, &p7, false);
    let ghost h8 = v@;
    v = strip_pattern(&v, &p8, false);
    let ghost h9 = v@;
    v = strip_pattern(&v, &p9, false);
    let ghost h10 = v@;
    v = strip_pattern(&v, &p10, false);
    proof {
        assert(pats[0] == p0@ && pats[1] == p1@ && pats[2] == p2@ && pats[3] == p3@ && pats[4]
            == p4@ && pats[5] == p5@ && pats[6] == p6@ && pats[7] == p7@ && pats[8] == p8@
            && pats[9] == p9@ && pats[10] == p10@);
        assert(pats.skip(11) =~= Seq::<Seq<char>>::empty());
        assert(strip_all(h0, pats) == strip_all(h1, pats.skip(1)));
        assert(strip_all(h1, pats.skip(1)) == strip_all(h2, pats.skip(1).skip(1)));
        assert(pats.skip(1).skip(1) =~= pats.skip(2));
        assert(strip_all(h2, pats.skip(2)) == strip_all(h3, pats.skip(2).skip(1)));
        assert(pats.skip(2).skip(1) =~= pats.skip(3));
        assert(strip_all(h3, pats.skip(3)) == strip_all(h4, pats.skip(3).skip(1)));
        assert(pats.skip(3).skip(1) =~= pats.skip(4));
        assert(strip_all(h4, pats.skip(4)) == strip_all(h5, pats.skip(4).skip(1)));
        assert(pats.skip(4).skip(1) =~= pats.skip(5));
        assert(strip_all(h5, pats.skip(5)) == strip_all(h6, pats.skip(5).skip(1)));
        assert(pats.skip(5).skip(1) =~= pats.skip(6));
        assert(strip_all(h6, pats.skip(6)) == strip_all(h7, pats.skip(6).skip(1)));
        assert(pats.skip(6).skip(1) =~= pats.skip(7));
        assert(strip_all(h7, pats.skip(7)) == strip_all(h8, pats.skip(7).skip(1)));
        assert(pats.skip(7).skip(1) =~= pats.skip(8));
        assert(strip_all(h8, pats.skip(8)) == strip_all(h9, pats.skip(8).skip(1)));
        assert(pats.skip(8).skip(1) =~= pats.skip(9));
        assert(strip_all(h9, pats.skip(9)) == strip_all(h10, pats.skip(9).skip(1)));
        assert(pats.skip(9).skip(1) =~= pats.skip(10));
        assert(strip_all(h10, pats.skip(10)) == strip_all(v@, pats.skip(10).skip(1)));
        assert(pats.skip(10).skip(1) =~= pats.skip(11));
        assert(v@ == strip_all(text@, pats));
    }
    let t = trim_chars(&v);
    let only_filler = {
        let mut i: usize = 0;
        let mut all: bool = true;
        while i < t.len()
            invariant
                i <= t@.len(),
                all == (forall|k: int| 0 <= k < i ==> is_filler_char(#[trigger] t@[k])),
            decreases t@.len() - i,
        {
            let c = t[i];
            if !(char_is_space(c) || char_is_ascii_punct(c) || char_is_unicode_punct(c)) {
                all = false;
            }
            i = i + 1;
        }
        all
    };
    if only_filler {
        String::new()
    } else {
        string_from_chars(&t)
    }
}

/// A sentence-ending character for the sentence-level duplicate check.
pub open spec fn is_terminator(c: char) -> bool {
    c == '\u{3002}' || c == '\u{ff01}' || c == '\u{ff1f}' || c == '!' || c == '?' || c == '\n'
}

fn char_is_terminator(c: char) -> (r: bool)
    ensures
        r == is_terminator(c),
{
    let u = c as u32;
    u == 0x3002 || u == 0xff01 || u == 0xff1f || u == 0x21 || u == 0x3f || u == 0x0a
}

/// The sentences of the text, cut after each terminator and trimmed, with
/// an exact immediate duplicate of the previous sentence dropped; a
/// trailing fragment joins only when non-empty and not a duplicate.
pub open spec fn sentence_fold(s: Seq<char>, out: Seq<Seq<char>>, buf: Seq<char>) -> Seq<
    Seq<char>,
>
    decreases s.len(),
{
    if s.len() == 0 {
        let cur = trim_seq(buf);
        if cur.len() > 0 && (out.len() == 0 || out.last() != cur) {
            out.push(cur)
        } else {
            out
        }
    } else if is_terminator(s[0]) {
        let cur = trim_seq(buf.push(s[0]));
        if out.len() > 0 && out.last() == cur {
            sentence_fold(s.skip(1), out, Seq::empty())
        } else {
            sentence_fold(s.skip(1), out.push(cur), Seq::empty())
        }
    } else {
        sentence_fold(s.skip(1), out, buf.push(s[0]))
    }
}

/// The parts from `i` on, joined with single spaces.
pub open spec fn join_from(parts: Seq<Seq<char>>, i: int) -> Seq<char>
    decreases parts.len() - i,
{
    if i < 0 || i >= parts.len() {
        Seq::empty()
    } else if i == parts.len() - 1 {
        parts[i]
    } else {
        parts[i] + seq![' '] + join_from(parts, i + 1)
    }
}

/// Stage one of the repetition collapse: sentence-level immediate
/// deduplication, the kept sentences joined with spaces.
pub open spec fn dedup_sentences(s: Seq<char>) -> Seq<char> {
    join_from(sentence_fold(s, Seq::empty(), Seq::empty()), 0)
}

/// The views of a vector of character vectors.
pub open spec fn deep_view(vs: Seq<Vec<char>>) -> Seq<Seq<char>> {
    vs.map_values(|v: Vec<char>| v@)
}

/// Whether two character vectors hold the same text.
fn chars_eq(a: &Vec<char>, b: &Vec<char>) -> (r: bool)
    ensures
        r == (a@ == b@),
{
    if a.len() != b.len() {
        proof {
            assert(a@ != b@);
        }
        return false;
    }
    let mut i: usize = 0;
    while i < a.len()
        invariant
            i <= a@.len(),
            a@.len() == b@.len(),
            forall|k: int| 0 <= k < i ==> a@[k] == b@[k],
        decreases a@.len() - i,
    {
        if a[i] != b[i] {
            return false;
        }
        i = i + 1;
    }
    proof {
        assert(a@ =~= b@);
    }
    true
}

fn sentence_pass(v: &Vec<char>) -> (r: Vec<char>)
    ensures
        r@ == dedup_sentences(v@),
{
    let mut out: Vec<Vec<char>> = Vec::new();
    let mut buf: Vec<char> = Vec::new();
    let mut i: usize = 0;
    proof {
        assert(v@.skip(0) =~= v@);
        assert(buf@ =~= Seq::<char>::empty());
        assert(deep_view(out@) =~= Seq::<Seq<char>>::empty());
    }
    while i < v.len()
        invariant
            i <= v@.len(),
            sentence_fold(v@, Seq::empty(), Seq::empty()) == sentence_fold(
                v@.skip(i as int),
                deep_view(out@),
                buf@,
            ),
        decreases v@.len() - i,
    {
        let ghost rem = v@.skip(i as int);
        let ghost pre_out = deep_view(out@);
        let ghost pre_buf = buf@;
        proof {
            assert(rem.skip(1) =~= v@.skip(i + 1));
            assert(rem[0] == v@[i as int]);
        }
        let c = v[i];
        buf.push(c);
        if char_is_terminator(c) {
            let ghost cur_spec = trim_seq(pre_buf.push(c));
            let cur = trim_chars(&buf);
            let mut dup: bool = false;
            if out.len() > 0 {
                dup = chars_eq(&out[out.len() - 1], &cur);
                proof {
                    assert(pre_out.last() == out@.last()@);
                    assert(dup == (pre_out.len() > 0 && pre_out.last() == cur_spec));
                }
            }
            if !dup {
                out.push(cur);
                proof {
                    assert(deep_view(out@) =~= pre_out.push(cur_spec));
                }
            }
            buf = Vec::new();
            proof {
                assert(buf@ =~= Seq::<char>::empty());
                assert(sentence_fold(rem, pre_out, pre_buf) == sentence_fold(
                    rem.skip(1),
                    deep_view(out@),
                    buf@,
                ));
            }
        } else {
            proof {
                assert(buf@ == pre_buf.push(c));
                assert(sentence_fold(rem, pre_out, pre_buf) == sentence_fold(
                    rem.skip(1),
                    deep_view(out@),
                    buf@,
                ));
            }
        }
        i = i + 1;
    }
    proof {
        assert(v@.skip(v@.len() as int) =~= Seq::<char>::empty());
    }
    // close the fold: a non-empty, non-duplicate trailing fragment joins
    let ghost fin_out = deep_view(out@);
    let ghost fin_buf = buf@;
    let cur = trim_chars(&buf);
    let mut push_tail: bool = cur.len() > 0;
    if push_tail && out.len() > 0 {
        if chars_eq(&out[out.len() - 1], &cur) {
            push_tail = false;
        }
    }
    proof {
        if out@.len() > 0 {
            assert(fin_out.last() == out@.last()@);
        }
        assert(push_tail == (trim_seq(fin_buf).len() > 0 && (fin_out.len() == 0
            || fin_out.last() != trim_seq(fin_buf))));
    }
    if push_tail {
        out.push(cur);
        proof {
            assert(deep_view(out@) =~= fin_out.push(trim_seq(fin_buf)));
        }
    }
    proof {
        assert(deep_view(out@) == sentence_fold(Seq::<char>::empty(), fin_out, fin_buf));
    }
    let ghost parts = deep_view(out@);
    // join the kept sentences with spaces
    let mut r: Vec<char> = Vec::new();
    let mut j: usize = 0;
    proof {
        assert(Seq::<char>::empty() + join_from(parts, 0) =~= join_from(parts, 0));
    }
    while j < out.len()
        invariant
            j <= out@.len(),
            parts == deep_view(out@),
            join_from(parts, 0) == r@ + join_from(parts, j as int),
        decreases out@.len() - j,
    {
        let ghost r0 = r@;
        let ghost j0 = j as int;
        proof {
            assert(parts[j0] == out@[j0]@);
        }
        let mut part = copy_chars(&out[j]);
        r.append(&mut part);
        if j + 1 < out.len() {
            r.push(' ');
            proof {
                assert(r@ =~= r0 + parts[j0] + seq![' ']);
                assert(r@ + join_from(parts, j0 + 1) =~= r0 + join_from(parts, j0));
            }
        } else {
            proof {
                assert(r@ =~= r0 + parts[j0]);
                assert(r@ + join_from(parts, j0 + 1) =~= r0 + join_from(parts, j0));
            }
        }
        j = j + 1;
    }
    proof {
        assert(r@ + join_from(parts, out@.len() as int) =~= r@);
    }
    r
}

/// The two `w`-character blocks of `s` at `i` and `j` are equal.
pub open spec fn blocks_equal(s: Seq<char>, i: int, j: int, w: int) -> bool {
    s.subrange(i, i + w) == s.subrange(j, j + w)
}

/// The widest block width in `[12, w]` at which the text repeats itself
/// immediately at position `i`; zero when none does.
pub open spec fn find_w_from(s: Seq<char>, i: int, w: int) -> int
    decreases w,
{
    if w < 12 {
        0
    } else if i + 2 * w <= s.len() && blocks_equal(s, i, i + w, w) {
        w
    } else {
        find_w_from(s, i, w - 1)
    }
}

/// The block width checked first at position `i`: at most 128, and at most
/// half the remaining text.
pub open spec fn max_block_at(s: Seq<char>, i: int) -> int {
    let half = (s.len() - i) / 2;
    if half < 128 {
        half
    } else {
        128
    }
}

/// The repeat width found at position `i`, if any.
pub open spec fn find_w(s: Seq<char>, i: int) -> int {
    find_w_from(s, i, max_block_at(s, i))
}

proof fn lemma_find_w_from_range(s: Seq<char>, i: int, w: int)
    ensures
        find_w_from(s, i, w) == 0 || (12 <= find_w_from(s, i, w) <= w && i + 2 * find_w_from(
            s,
            i,
            w,
        ) <= s.len()),
    decreases w,
{
    if w >= 12 && !(i + 2 * w <= s.len() && blocks_equal(s, i, i + w, w)) {
        lemma_find_w_from_range(s, i, w - 1);
    }
}

/// Where the run of immediate repeats of the block `s[i..i+w]` ends,
/// scanning block by block from `j`.
pub open spec fn next_rep(s: Seq<char>, i: int, w: int, j: int) -> int
    decreases s.len() - j,
        when 1 <= w && 0 <= j
{
    if j + w <= s.len() && blocks_equal(s, i, j, w) {
        next_rep(s, i, w, j + w)
    } else {
        j
    }
}

proof fn lemma_next_rep_ge(s: Seq<char>, i: int, w: int, j: int)
    requires
        1 <= w,
        0 <= j,
    ensures
        next_rep(s, i, w, j) >= j,
        j <= s.len() ==> next_rep(s, i, w, j) <= s.len(),
    decreases s.len() - j,
{
    if j + w <= s.len() && blocks_equal(s, i, j, w) {
        lemma_next_rep_ge(s, i, w, j + w);
    }
}

/// The text from position `i` on with every immediate block repeat
/// (width 12 to 128, widest first) collapsed to one copy.
pub open spec fn collapse_from(s: Seq<char>, i: int) -> Seq<char>
    decreases s.len() - i,
        when 0 <= i
    via collapse_from_decreases
{
    if i >= s.len() {
        Seq::empty()
    } else {
        let w = find_w(s, i);
        if w == 0 {
            seq![s[i]] + collapse_from(s, i + 1)
        } else {
            s.subrange(i, i + w) + collapse_from(s, next_rep(s, i, w, i + w))
        }
    }
}

#[via_fn]
proof fn collapse_from_decreases(s: Seq<char>, i: int) {
    if 0 <= i < s.len() {
        let w = find_w(s, i);
        lemma_find_w_from_range(s, i, max_block_at(s, i));
        if w != 0 {
            lemma_next_rep_ge(s, i, w, i + w);
        }
    }
}

/// What the repetition collapser returns: sentence-level deduplication,
/// then block collapse, then a final trim.
pub open spec fn collapse_repetitions_spec(s: Seq<char>) -> Seq<char> {
    trim_seq(collapse_from(dedup_sentences(s), 0))
}

/// Whether the blocks at `i` and `j` are equal, by characters.
fn blocks_eq(s: &Vec<char>, i: usize, j: usize, w: usize) -> (r: bool)
    requires
        i + w <= s@.len(),
        j + w <= s@.len(),
    ensures
        r == blocks_equal(s@, i as int, j as int, w as int),
{
    let n = s.len();
    let mut k: usize = 0;
    while k < w
        invariant
            k <= w,
            i + w <= n == s@.len(),
            j + w <= n,
            forall|t: int| 0 <= t < k ==> #[trigger] s@[i + t] == s@[j + t],
        decreases w - k,
    {
        if s[i + k] != s[j + k] {
            proof {
                assert(s@.subrange(i as int, i + w)[k as int] != s@.subrange(
                    j as int,
                    j + w,
                )[k as int]);
            }
            return false;
        }
        k = k + 1;
    }
    proof {
        assert forall|t: int| 0 <= t < w implies #[trigger] s@.subrange(i as int, i + w)[t]
            == s@.subrange(j as int, j + w)[t] by {
            assert(s@[i + t] == s@[j + t]);
        }
        assert(s@.subrange(i as int, i + w) =~= s@.subrange(j as int, j + w));
    }
    true
}

/// The widest immediate repeat at `i`, or zero.
fn find_block_w(s: &Vec<char>, i: usize) -> (w: usize)
    requires
        i <= s@.len(),
    ensures
        w == find_w(s@, i as int),
{
    let half = (s.len() - i) / 2;
    let mut w: usize = if half < 128 {
        half
    } else {
        128
    };
    proof {
        assert(w == max_block_at(s@, i as int));
    }
    while w >= 12
        invariant
            i <= s@.len(),
            w <= (s@.len() - i) / 2,
            find_w(s@, i as int) == find_w_from(s@, i as int, w as int),
        decreases w,
    {
        proof {
            assert(i + 2 * w <= s@.len());
        }
        if blocks_eq(s, i, i + w, w) {
            return w;
        }
        w = w - 1;
    }
    0
}

/// Collapse immediate block repeats, as `collapse_from` states.
fn collapse_blocks(s: &Vec<char>) -> (r: Vec<char>)
    ensures
        r@ == collapse_from(s@, 0),
{
    let mut out: Vec<char> = Vec::new();
    let mut i: usize = 0;
    proof {
        assert(Seq::<char>::empty() + collapse_from(s@, 0) =~= collapse_from(s@, 0));
    }
    while i < s.len()
        invariant
            i <= s@.len(),
            collapse_from(s@, 0) == out@ + collapse_from(s@, i as int),
        decreases s@.len() - i,
    {
        let ghost out0 = out@;
        let w = find_block_w(s, i);
        proof {
            lemma_find_w_from_range(s@, i as int, max_block_at(s@, i as int));
        }
        if w == 0 {
            out.push(s[i]);
            i = i + 1;
            proof {
                assert(out@ + collapse_from(s@, i as int) =~= out0 + collapse_from(
                    s@,
                    i - 1,
                ));
            }
        } else {
            let mut j: usize = i + w;
            proof {
                lemma_next_rep_ge(s@, i as int, w as int, j as int);
            }
            while j <= s.len() - w && blocks_eq(s, i, j, w)
                invariant
                    1 <= w,
                    i + w <= j,
                    j <= s@.len(),
                    i + 2 * w <= s@.len(),
                    next_rep(s@, i as int, w as int, (i + w) as int) == next_rep(
                        s@,
                        i as int,
                        w as int,
                        j as int,
                    ),
                decreases s@.len() - j,
            {
                j = j + w;
            }
            let mut k: usize = i;
            while k < i + w
                invariant
                    i <= k <= i + w <= s@.len(),
                    out@ == out0 + s@.subrange(i as int, k as int),
                decreases i + w - k,
            {
                out.push(s[k]);
                k = k + 1;
                proof {
                    assert(out@ =~= out0 + s@.subrange(i as int, k as int));
                }
            }
            proof {
                assert(next_rep(s@, i as int, w as int, j as int) == j);
                assert((out0 + s@.subrange(i as int, (i + w) as int)) + collapse_from(
                    s@,
                    j as int,
                ) =~= out0 + collapse_from(s@, i as int));
            }
            i = j;
        }
    }
    proof {
        assert(out@ + collapse_from(s@, s@.len() as int) =~= out@);
    }
    out
}

/// Collapse contiguous repeated phrases that rare decoder loops produce:
/// exact immediate duplicate sentences are dropped, then repeated
/// character blocks of twelve or more characters are kept once.
pub fn collapse_repetitions(s: &str) -> (r: String)
    ensures
        r@ == collapse_repetitions_spec(s@),
{
    let v = chars_of(s);
    let deduped = sentence_pass(&v);
    let collapsed = collapse_blocks(&deduped);
    let trimmed = trim_chars(&collapsed);
    string_from_chars(&trimmed)
}

/// The decoded text of a chunk is suppressed when the engine's own
/// no-speech probability (in basis points) reaches 8500, or when nothing
/// but punctuation and whitespace was decoded.
pub open spec fn suppresses(t: Seq<char>, no_speech_bp: u32) -> bool {
    no_speech_bp >= 8500 || all_filler(trim_seq(t))
}

/// Whether a decoded text is discarded outright.
pub fn should_suppress_output(text: &str, no_speech_bp: u32) -> (r: bool)
    ensures
        r == suppresses(text@, no_speech_bp),
{
    if no_speech_bp >= 8500 {
        return true;
    }
    let v = chars_of(text);
    let t = trim_chars(&v);
    let mut i: usize = 0;
    while i < t.len()
        invariant
            i <= t@.len(),
            t@ == trim_seq(text@),
            forall|k: int| 0 <= k < i ==> is_filler_char(#[trigger] t@[k]),
        decreases t@.len() - i,
    {
        let c = t[i];
        if !(char_is_space(c) || char_is_ascii_punct(c) || char_is_unicode_punct(c)) {
            return false;
        }
        i = i + 1;
    }
    true
}

/// What the decode stage hands on for a chunk: the trimmed text with
/// repetitions collapsed, or nothing when the result is suppressed.
pub open spec fn clean_decoded_spec(raw: Seq<char>, no_speech_bp: u32) -> Seq<char> {
    let c = collapse_repetitions_spec(trim_seq(raw));
    if suppresses(c, no_speech_bp) {
        Seq::empty()
    } else {
        c
    }
}

/// Tidy one chunk's raw decoded text: trim it, collapse decoder-loop
/// repetitions, and drop it entirely when the no-speech probability is
/// high or only punctuation remains.
pub fn clean_decoded_text(raw: &str, no_speech_bp: u32) -> (r: String)
    ensures
        r@ == clean_decoded_spec(raw@, no_speech_bp),
{
    let trimmed = trim_string(raw);
    let collapsed = collapse_repetitions(trimmed.as_str());
    if should_suppress_output(collapsed.as_str(), no_speech_bp) {
        String::new()
    } else {
        collapsed
    }
}

} // verus!

