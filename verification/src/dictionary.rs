//! User dictionary substitution: entries filtered by context terms are
//! flattened into alias/canonical pairs ordered longest-alias-first, and
//! applied to a transcript by non-overlapping, longest-first replacement
//! on the original text (later pairs never match text produced by earlier
//! replacements).
use crate::chars::{chars_of, contains_chars, contains_seq, lower_of, lowercase, matches_at,
    occurs_at, string_from_chars, utf8_len, utf8_len_of};
use vstd::prelude::*;

verus! {

/// One dictionary entry: a canonical spelling, the aliases replaced by it,
/// and optional context terms; with terms present the entry applies only
/// when the full input text contains one of them.
#[derive(Debug, Clone, PartialEq, Eq)]
pub struct DictionaryEntry {
    pub canonical: String,
    pub aliases: Vec<String>,
    pub context_terms: Vec<String>,
}

/// The entry applies to a text: its context terms are absent, or some
/// non-empty term occurs in the lowercased text.
pub open spec fn entry_applies(e: DictionaryEntry, ctx_lower: Seq<char>) -> bool {
    e.context_terms@.len() == 0 || exists|i: int|
        0 <= i < e.context_terms@.len() && (#[trigger] e.context_terms@[i])@.len() > 0 && contains_seq(
            ctx_lower,
            lower_of(e.context_terms@[i]@),
        )
}

/// The alias/canonical pairs of one entry, for its non-empty aliases.
pub open spec fn alias_pairs(aliases: Seq<String>, canonical: String) -> Seq<(String, String)>
    decreases aliases.len(),
{
    if aliases.len() == 0 {
        Seq::empty()
    } else {
        (if aliases[0]@.len() > 0 {
            seq![(aliases[0], canonical)]
        } else {
            Seq::empty()
        }) + alias_pairs(aliases.skip(1), canonical)
    }
}

/// All pairs of the entries that apply, in dictionary order.
pub open spec fn raw_pairs(dict: Seq<DictionaryEntry>, ctx_lower: Seq<char>) -> Seq<
    (String, String),
>
    decreases dict.len(),
{
    if dict.len() == 0 {
        Seq::empty()
    } else {
        (if entry_applies(dict[0], ctx_lower) {
            alias_pairs(dict[0].aliases@, dict[0].canonical)
        } else {
            Seq::empty()
        }) + raw_pairs(dict.skip(1), ctx_lower)
    }
}

/// Insertion of a pair into a list sorted by decreasing alias byte length,
/// placed after equal lengths so the original order is kept.
pub open spec fn insert_pair(p: (String, String), s: Seq<(String, String)>) -> Seq<
    (String, String),
>
    decreases s.len(),
{
    if s.len() == 0 {
        seq![p]
    } else if utf8_len(p.0@) > utf8_len(s[0].0@) {
        seq![p] + s
    } else {
        seq![s[0]] + insert_pair(p, s.skip(1))
    }
}

/// The pairs stably sorted by decreasing alias byte length.
pub open spec fn sort_pairs(s: Seq<(String, String)>) -> Seq<(String, String)>
    decreases s.len(),
{
    if s.len() == 0 {
        Seq::empty()
    } else {
        insert_pair(s.last(), sort_pairs(s.drop_last()))
    }
}

/// What `flatten_sorted_with_context` returns.
pub open spec fn flatten_spec(dict: Seq<DictionaryEntry>, context: Seq<char>) -> Seq<
    (String, String),
> {
    sort_pairs(raw_pairs(dict, lower_of(context)))
}

/// Whether a non-empty term of the entry occurs in the lowered context.
fn entry_matches(e: &DictionaryEntry, ctx_lower: &Vec<char>) -> (r: bool)
    ensures
        r == entry_applies(*e, ctx_lower@),
{
    if e.context_terms.len() == 0 {
        return true;
    }
    let mut i: usize = 0;
    while i < e.context_terms.len()
        invariant
            i <= e.context_terms@.len(),
            forall|k: int| 0 <= k < i ==> !((#[trigger] e.context_terms@[k])@.len() > 0 && contains_seq(
                ctx_lower@,
                lower_of(e.context_terms@[k]@),
            )),
        decreases e.context_terms@.len() - i,
    {
        let term = &e.context_terms[i];
        if !term.as_str().is_empty() {
            let low = lowercase(term.as_str());
            let lv = chars_of(low.as_str());
            if contains_chars(ctx_lower, &lv) {
                return true;
            }
        }
        i = i + 1;
    }
    false
}

/// Filter entries by their context terms against the full input text and
/// return alias/canonical pairs ordered longest alias first (stably, by
/// UTF-8 byte length of the alias).
pub fn flatten_sorted_with_context(dict: &Vec<DictionaryEntry>, context_text: &str) -> (r: Vec<
    (String, String),
>)
    ensures
        r@ == flatten_spec(dict@, context_text@),
{
    let ctx_low_s = lowercase(context_text);
    let ctx_lower = chars_of(ctx_low_s.as_str());
    // gather the applicable pairs in dictionary order
    let mut raw: Vec<(String, String)> = Vec::new();
    let mut i: usize = 0;
    proof {
        assert(dict@.skip(0) =~= dict@);
        assert(Seq::<(String, String)>::empty() + raw_pairs(dict@, ctx_lower@) =~= raw_pairs(
            dict@,
            ctx_lower@,
        ));
    }
    while i < dict.len()
        invariant
            i <= dict@.len(),
            ctx_lower@ == lower_of(context_text@),
            raw_pairs(dict@, ctx_lower@) == raw@ + raw_pairs(dict@.skip(i as int), ctx_lower@),
        decreases dict@.len() - i,
    {
        let ghost rem = dict@.skip(i as int);
        proof {
            assert(rem[0] == dict@[i as int]);
            assert(rem.skip(1) =~= dict@.skip(i + 1));
        }
        let ghost raw0 = raw@;
        let entry = &dict[i];
        if entry_matches(entry, &ctx_lower) {
            let ghost target = alias_pairs(entry.aliases@, entry.canonical);
            let mut j: usize = 0;
            proof {
                assert(entry.aliases@.skip(0) =~= entry.aliases@);
                assert(raw@ + (Seq::<(String, String)>::empty() + alias_pairs(
                    entry.aliases@,
                    entry.canonical,
                )) =~= raw@ + alias_pairs(entry.aliases@, entry.canonical));
            }
            while j < entry.aliases.len()
                invariant
                    j <= entry.aliases@.len(),
                    raw0 + target == raw@ + alias_pairs(
                        entry.aliases@.skip(j as int),
                        entry.canonical,
                    ),
                    target == alias_pairs(entry.aliases@, entry.canonical),
                decreases entry.aliases@.len() - j,
            {
                let ghost arem = entry.aliases@.skip(j as int);
                proof {
                    assert(arem[0] == entry.aliases@[j as int]);
                    assert(arem.skip(1) =~= entry.aliases@.skip(j + 1));
                }
                let a = &entry.aliases[j];
                if !a.as_str().is_empty() {
                    raw.push((a.clone(), entry.canonical.clone()));
                    proof {
                        assert(raw@ =~= raw@.drop_last().push(raw@.last()));
                        assert(raw@.last() == (entry.aliases@[j as int], entry.canonical));
                        assert(raw0 + target =~= raw@ + alias_pairs(
                            entry.aliases@.skip(j + 1),
                            entry.canonical,
                        ));
                    }
                } else {
                    proof {
                        assert(raw0 + target =~= raw@ + alias_pairs(
                            entry.aliases@.skip(j + 1),
                            entry.canonical,
                        ));
                    }
                }
                j = j + 1;
            }
            proof {
                assert(entry.aliases@.skip(entry.aliases@.len() as int)
                    =~= Seq::<String>::empty());
                assert(raw0 + target =~= raw@);
            }
        }
        i = i + 1;
        proof {
            assert(raw_pairs(dict@, ctx_lower@) =~= raw@ + raw_pairs(
                dict@.skip(i as int),
                ctx_lower@,
            ));
        }
    }
    proof {
        assert(dict@.skip(dict@.len() as int) =~= Seq::<DictionaryEntry>::empty());
        assert(raw@ =~= raw_pairs(dict@, ctx_lower@));
    }
    // sort longest alias first, stably
    let mut sorted: Vec<(String, String)> = Vec::new();
    let mut k: usize = 0;
    while k < raw.len()
        invariant
            k <= raw@.len(),
            sorted@ == sort_pairs(raw@.take(k as int)),
        decreases raw@.len() - k,
    {
        let p = &raw[k];
        let plen = utf8_len_of(&chars_of(p.0.as_str()));
        let mut idx: usize = 0;
        while idx < sorted.len()
            invariant
                idx <= sorted@.len(),
                plen == utf8_len(raw@[k as int].0@),
                forall|t: int| 0 <= t < idx ==> !(utf8_len(raw@[k as int].0@) > utf8_len(
                    (#[trigger] sorted@[t]).0@,
                )),
            decreases sorted@.len() - idx,
        {
            let q = &sorted[idx];
            let qlen = utf8_len_of(&chars_of(q.0.as_str()));
            if plen > qlen {
                break ;
            }
            idx = idx + 1;
        }
        let ghost pre = sorted@;
        sorted.insert(idx, (p.0.clone(), p.1.clone()));
        proof {
            assert(sorted@ == pre.insert(idx as int, raw@[k as int]));
            lemma_insert_pair_at(raw@[k as int], pre, idx as int);
            assert(raw@.take(k + 1).drop_last() =~= raw@.take(k as int));
            assert(raw@.take(k + 1).last() == raw@[k as int]);
        }
        k = k + 1;
    }
    proof {
        assert(raw@.take(raw@.len() as int) =~= raw@);
    }
    sorted
}

/// A replacement range: where a matched alias starts and ends in the
/// original text, and the canonical text that replaces it.
pub open spec fn range_clear(acc: Seq<(usize, usize, String)>, s: int, e: int) -> bool {
    forall|i: int| 0 <= i < acc.len() ==> !(s < (#[trigger] acc[i]).1 && acc[i].0 < e)
}

/// The replacement ranges of one alias: its non-overlapping occurrences,
/// scanned left to right, each admitted only when it does not overlap a
/// range already collected (so later pairs never replace inside an
/// earlier replacement).
pub open spec fn scan_ranges(
    h: Seq<char>,
    a: Seq<char>,
    canon: String,
    from: int,
    acc: Seq<(usize, usize, String)>,
) -> Seq<(usize, usize, String)>
    decreases h.len() - from,
        when 0 <= from && a.len() >= 1
{
    if from + a.len() > h.len() {
        acc
    } else if occurs_at(h, a, from) {
        let acc2 = if range_clear(acc, from, from + a.len()) {
            acc.push(((from as usize), ((from + a.len()) as usize), canon))
        } else {
            acc
        };
        scan_ranges(h, a, canon, from + a.len(), acc2)
    } else {
        scan_ranges(h, a, canon, from + 1, acc)
    }
}

/// All replacement ranges of the pairs, collected in pair order over the
/// original text.
pub open spec fn gather_ranges(
    h: Seq<char>,
    pairs: Seq<(String, String)>,
    acc: Seq<(usize, usize, String)>,
) -> Seq<(usize, usize, String)>
    decreases pairs.len(),
{
    if pairs.len() == 0 {
        acc
    } else {
        let acc2 = if pairs[0].0@.len() > 0 {
            scan_ranges(h, pairs[0].0@, pairs[0].1, 0, acc)
        } else {
            acc
        };
        gather_ranges(h, pairs.skip(1), acc2)
    }
}

/// Insertion of a range into a list sorted by ascending start.
pub open spec fn insert_range(r: (usize, usize, String), s: Seq<(usize, usize, String)>) -> Seq<
    (usize, usize, String),
>
    decreases s.len(),
{
    if s.len() == 0 {
        seq![r]
    } else if r.0 < s[0].0 {
        seq![r] + s
    } else {
        seq![s[0]] + insert_range(r, s.skip(1))
    }
}

/// The ranges sorted by ascending start.
pub open spec fn sort_ranges(s: Seq<(usize, usize, String)>) -> Seq<(usize, usize, String)>
    decreases s.len(),
{
    if s.len() == 0 {
        Seq::empty()
    } else {
        insert_range(s.last(), sort_ranges(s.drop_last()))
    }
}

/// The text with the sorted ranges spliced in: the stretch before each
/// range is kept, the range's span is replaced by its canonical text, and
/// the tail after the last range is kept.
pub open spec fn splice(h: Seq<char>, rs: Seq<(usize, usize, String)>, pos: int) -> Seq<char>
    decreases rs.len(),
{
    if !(0 <= pos <= h.len()) {
        Seq::empty()
    } else if rs.len() == 0 {
        h.skip(pos)
    } else if pos <= rs[0].0 && rs[0].0 <= rs[0].1 && rs[0].1 <= h.len() {
        h.subrange(pos, rs[0].0 as int) + rs[0].2@ + splice(h, rs.skip(1), rs[0].1 as int)
    } else {
        Seq::empty()
    }
}

/// What `apply_pairs` returns.
pub open spec fn apply_pairs_spec(h: Seq<char>, pairs: Seq<(String, String)>) -> Seq<char> {
    splice(h, sort_ranges(gather_ranges(h, pairs, Seq::empty())), 0)
}

/// Whether the span `[s, e)` is clear of every collected range.
fn is_clear(acc: &Vec<(usize, usize, String)>, s: usize, e: usize) -> (r: bool)
    ensures
        r == range_clear(acc@, s as int, e as int),
{
    let mut i: usize = 0;
    while i < acc.len()
        invariant
            i <= acc@.len(),
            forall|k: int| 0 <= k < i ==> !(s < (#[trigger] acc@[k]).1 && acc@[k].0 < e),
        decreases acc@.len() - i,
    {
        let (s0, e0) = (acc[i].0, acc[i].1);
        if s < e0 && s0 < e {
            return false;
        }
        i = i + 1;
    }
    true
}

/// Collect this alias's admitted replacement ranges over the text.
fn scan_alias(h: &Vec<char>, a: &Vec<char>, canon: &String, acc: Vec<(usize, usize, String)>) -> (r:
    Vec<(usize, usize, String)>)
    requires
        a@.len() >= 1,
    ensures
        r@ == scan_ranges(h@, a@, *canon, 0, acc@),
{
    let ghost acc00 = acc@;
    let mut acc = acc;
    let mut from: usize = 0;
    while a.len() <= h.len() && from <= h.len() - a.len()
        invariant
            a@.len() >= 1,
            from <= h@.len(),
            scan_ranges(h@, a@, *canon, 0, acc00) == scan_ranges(
                h@,
                a@,
                *canon,
                from as int,
                acc@,
            ),
        decreases h@.len() - from,
    {
        if matches_at(h, a, from) {
            let e = from + a.len();
            if is_clear(&acc, from, e) {
                acc.push((from, e, canon.clone()));
                proof {
                    assert(acc@ =~= acc@.drop_last().push(acc@.last()));
                }
            }
            from = from + a.len();
        } else {
            from = from + 1;
        }
    }
    acc
}

/// Apply dictionary pairs to a text by longest-first replacement: match
/// ranges are collected on the original text, overlapping later matches
/// are dropped, and the admitted ranges are spliced in ascending order.
pub fn apply_pairs(text: &str, pairs: &Vec<(String, String)>) -> (r: String)
    ensures
        r@ == apply_pairs_spec(text@, pairs@),
{
    let h = chars_of(text);
    // collect ranges pair by pair over the original text
    let mut acc: Vec<(usize, usize, String)> = Vec::new();
    let mut i: usize = 0;
    proof {
        assert(pairs@.skip(0) =~= pairs@);
    }
    while i < pairs.len()
        invariant
            i <= pairs@.len(),
            h@ == text@,
            gather_ranges(h@, pairs@, Seq::empty()) == gather_ranges(
                h@,
                pairs@.skip(i as int),
                acc@,
            ),
        decreases pairs@.len() - i,
    {
        let ghost rem = pairs@.skip(i as int);
        proof {
            assert(rem[0] == pairs@[i as int]);
            assert(rem.skip(1) =~= pairs@.skip(i + 1));
        }
        let alias = &pairs[i].0;
        if !alias.as_str().is_empty() {
            let av = chars_of(alias.as_str());
            let canon = &pairs[i].1;
            acc = scan_alias(&h, &av, canon, acc);
        }
        i = i + 1;
    }
    proof {
        assert(pairs@.skip(pairs@.len() as int) =~= Seq::<(String, String)>::empty());
    }
    let ghost unsorted = acc@;
    // sort the admitted ranges by start position
    let mut sorted: Vec<(usize, usize, String)> = Vec::new();
    let mut k: usize = 0;
    while k < acc.len()
        invariant
            k <= acc@.len(),
            unsorted == acc@,
            sorted@ == sort_ranges(acc@.take(k as int)),
        decreases acc@.len() - k,
    {
        let p = &acc[k];
        let mut idx: usize = 0;
        while idx < sorted.len()
            invariant
                idx <= sorted@.len(),
                forall|t: int| 0 <= t < idx ==> !(acc@[k as int].0 < (#[trigger] sorted@[t]).0),
            decreases sorted@.len() - idx,
        {
            if p.0 < sorted[idx].0 {
                break ;
            }
            idx = idx + 1;
        }
        let ghost pre = sorted@;
        sorted.insert(idx, (p.0, p.1, p.2.clone()));
        proof {
            assert(sorted@ == pre.insert(idx as int, acc@[k as int]));
            lemma_insert_range_at(acc@[k as int], pre, idx as int);
            assert(acc@.take(k + 1).drop_last() =~= acc@.take(k as int));
            assert(acc@.take(k + 1).last() == acc@[k as int]);
        }
        k = k + 1;
    }
    proof {
        assert(acc@.take(acc@.len() as int) =~= acc@);
    }
    // splice: keep the stretches between ranges, replace each range's span
    let ghost rs_all = sorted@;
    let mut out: Vec<char> = Vec::new();
    let mut pos: usize = 0;
    let mut j: usize = 0;
    proof {
        assert(rs_all.skip(0) =~= rs_all);
    }
    while j < sorted.len()
        invariant
            j <= sorted@.len(),
            rs_all == sorted@,
            pos <= h@.len(),
            h@ == text@,
            splice(h@, rs_all, 0) == out@ + splice(h@, rs_all.skip(j as int), pos as int),
        decreases sorted@.len() - j,
    {
        let ghost rem = rs_all.skip(j as int);
        proof {
            assert(rem[0] == rs_all[j as int]);
            assert(rem.skip(1) =~= rs_all.skip(j + 1));
        }
        let (s0, e0) = (sorted[j].0, sorted[j].1);
        if !(pos <= s0 && s0 <= e0 && e0 <= h.len()) {
            proof {
                assert(splice(h@, rem, pos as int) =~= Seq::<char>::empty());
                assert(out@ + Seq::<char>::empty() =~= out@);
            }
            return string_from_chars(&out);
        }
        let ghost out0 = out@;
        let mut t: usize = pos;
        while t < s0
            invariant
                pos <= t <= s0 <= h@.len(),
                out@ == out0 + h@.subrange(pos as int, t as int),
            decreases s0 - t,
        {
            out.push(h[t]);
            t = t + 1;
            proof {
                assert(out@ =~= out0 + h@.subrange(pos as int, t as int));
            }
        }
        let ghost out1 = out@;
        let cv = chars_of(sorted[j].2.as_str());
        let mut u: usize = 0;
        while u < cv.len()
            invariant
                u <= cv@.len(),
                cv@ == rs_all[j as int].2@,
                out@ == out1 + cv@.take(u as int),
            decreases cv@.len() - u,
        {
            out.push(cv[u]);
            u = u + 1;
            proof {
                assert(out@ =~= out1 + cv@.take(u as int));
            }
        }
        proof {
            assert(cv@.take(cv@.len() as int) =~= cv@);
            assert(out@ =~= (out0 + h@.subrange(pos as int, s0 as int)) + cv@);
            assert(out@ + splice(h@, rs_all.skip(j + 1), e0 as int) =~= out0 + splice(
                h@,
                rem,
                pos as int,
            ));
        }
        pos = e0;
        j = j + 1;
    }
    // the tail after the last range
    let ghost out_fin = out@;
    let mut t: usize = pos;
    while t < h.len()
        invariant
            pos <= t <= h@.len(),
            out@ == out_fin + h@.subrange(pos as int, t as int),
        decreases h@.len() - t,
    {
        out.push(h[t]);
        t = t + 1;
        proof {
            assert(out@ =~= out_fin + h@.subrange(pos as int, t as int));
        }
    }
    proof {
        assert(rs_all.skip(rs_all.len() as int) =~= Seq::<(usize, usize, String)>::empty());
        assert(h@.subrange(pos as int, h@.len() as int) =~= h@.skip(pos as int));
    }
    string_from_chars(&out)
}

/// The parts from `i` on, joined with the separator.
pub open spec fn join_sep(parts: Seq<Seq<char>>, i: int, sep: Seq<char>) -> Seq<char>
    decreases parts.len() - i,
{
    if i < 0 || i >= parts.len() {
        Seq::empty()
    } else if i == parts.len() - 1 {
        parts[i]
    } else {
        parts[i] + sep + join_sep(parts, i + 1, sep)
    }
}

/// Join character vectors with a separator string.
fn join_with(parts: &Vec<Vec<char>>, sep: &Vec<char>) -> (r: Vec<char>)
    ensures
        r@ == join_sep(parts@.map_values(|p: Vec<char>| p@), 0, sep@),
{
    let ghost ps = parts@.map_values(|p: Vec<char>| p@);
    let mut r: Vec<char> = Vec::new();
    let mut j: usize = 0;
    proof {
        assert(Seq::<char>::empty() + join_sep(ps, 0, sep@) =~= join_sep(ps, 0, sep@));
    }
    while j < parts.len()
        invariant
            j <= parts@.len(),
            ps == parts@.map_values(|p: Vec<char>| p@),
            join_sep(ps, 0, sep@) == r@ + join_sep(ps, j as int, sep@),
        decreases parts@.len() - j,
    {
        let ghost r0 = r@;
        let ghost j0 = j as int;
        proof {
            assert(ps[j0] == parts@[j0]@);
        }
        let mut part = crate::chars::copy_chars(&parts[j]);
        r.append(&mut part);
        if j + 1 < parts.len() {
            let mut s = crate::chars::copy_chars(sep);
            r.append(&mut s);
            proof {
                assert(r@ =~= r0 + ps[j0] + sep@);
                assert(r@ + join_sep(ps, j0 + 1, sep@) =~= r0 + join_sep(ps, j0, sep@));
            }
        } else {
            proof {
                assert(r@ =~= r0 + ps[j0]);
                assert(r@ + join_sep(ps, j0 + 1, sep@) =~= r0 + join_sep(ps, j0, sep@));
            }
        }
        j = j + 1;
    }
    proof {
        assert(r@ + join_sep(ps, ps.len() as int, sep@) =~= r@);
    }
    r
}

/// The line one entry contributes to the dictionary hint handed to the
/// LLM: its canonical spelling, its aliases, and its context terms.
pub open spec fn entry_line(e: DictionaryEntry) -> Seq<char> {
    let base = "- "@ + e.canonical@ + ": "@ + join_sep(
        crate::chars::deep_str(e.aliases@),
        0,
        ", "@,
    );
    if e.context_terms@.len() > 0 {
        base + " (context: "@ + join_sep(crate::chars::deep_str(e.context_terms@), 0, ", "@)
            + ")"@
    } else {
        base
    }
}

/// The hint's lines: one per entry with aliases, at most `room` of them.
pub open spec fn hint_lines(entries: Seq<DictionaryEntry>, room: int) -> Seq<Seq<char>>
    decreases entries.len(),
{
    if entries.len() == 0 || room <= 0 {
        Seq::empty()
    } else if entries[0].aliases@.len() > 0 {
        seq![entry_line(entries[0])] + hint_lines(entries.skip(1), room - 1)
    } else {
        hint_lines(entries.skip(1), room)
    }
}

/// What the dictionary hint says, if anything: a heading and one line per
/// entry with aliases, capped at forty lines.
pub open spec fn dictionary_prompt_spec(entries: Seq<DictionaryEntry>) -> Option<Seq<char>> {
    let lines = hint_lines(entries, 40);
    if lines.len() == 0 {
        None
    } else {
        Some("User dictionary replacements:\n"@ + join_sep(lines, 0, "\n"@))
    }
}

/// Render one entry's hint line.
fn render_entry_line(e: &DictionaryEntry) -> (r: Vec<char>)
    ensures
        r@ == entry_line(*e),
{
    let mut line = chars_of("- ");
    proof {
        reveal_strlit("- ");
        reveal_strlit(": ");
        reveal_strlit(", ");
        reveal_strlit(" (context: ");
        reveal_strlit(")");
    }
    let mut canon = chars_of(e.canonical.as_str());
    line.append(&mut canon);
    let mut colon = chars_of(": ");
    line.append(&mut colon);
    let mut alias_parts: Vec<Vec<char>> = Vec::new();
    let mut i: usize = 0;
    while i < e.aliases.len()
        invariant
            i <= e.aliases@.len(),
            alias_parts@.len() == i,
            forall|k: int| 0 <= k < i ==> (#[trigger] alias_parts@[k])@ == e.aliases@[k]@,
        decreases e.aliases@.len() - i,
    {
        alias_parts.push(chars_of(e.aliases[i].as_str()));
        i = i + 1;
    }
    proof {
        assert(alias_parts@.map_values(|p: Vec<char>| p@) =~= crate::chars::deep_str(
            e.aliases@,
        ));
    }
    let comma = chars_of(", ");
    let mut joined = join_with(&alias_parts, &comma);
    line.append(&mut joined);
    if e.context_terms.len() > 0 {
        let mut open_ctx = chars_of(" (context: ");
        line.append(&mut open_ctx);
        let mut ctx_parts: Vec<Vec<char>> = Vec::new();
        let mut k: usize = 0;
        while k < e.context_terms.len()
            invariant
                k <= e.context_terms@.len(),
                ctx_parts@.len() == k,
                forall|t: int| 0 <= t < k ==> (#[trigger] ctx_parts@[t])@
                    == e.context_terms@[t]@,
            decreases e.context_terms@.len() - k,
        {
            ctx_parts.push(chars_of(e.context_terms[k].as_str()));
            k = k + 1;
        }
        proof {
            assert(ctx_parts@.map_values(|p: Vec<char>| p@) =~= crate::chars::deep_str(
                e.context_terms@,
            ));
        }
        let mut joined_ctx = join_with(&ctx_parts, &comma);
        line.append(&mut joined_ctx);
        let mut close_ctx = chars_of(")");
        line.append(&mut close_ctx);
        proof {
            assert(line@ =~= entry_line(*e));
        }
    } else {
        proof {
            assert(line@ =~= entry_line(*e));
        }
    }
    line
}

/// The dictionary hint handed to the LLM alongside the transcript: one
/// line per entry that has aliases, at most forty, under a heading; no
/// hint when no entry contributes.
pub fn dictionary_prompt_text(entries: &Vec<DictionaryEntry>) -> (r: Option<String>)
    ensures
        match r {
            Some(s) => dictionary_prompt_spec(entries@) == Some(s@),
            None => dictionary_prompt_spec(entries@) is None,
        },
{
    let mut lines: Vec<Vec<char>> = Vec::new();
    let mut i: usize = 0;
    proof {
        assert(entries@.skip(0) =~= entries@);
        assert(Seq::<Seq<char>>::empty() + hint_lines(entries@, 40) =~= hint_lines(
            entries@,
            40,
        ));
    }
    while i < entries.len() && lines.len() < 40
        invariant
            i <= entries@.len(),
            lines@.len() <= 40,
            hint_lines(entries@, 40) == lines@.map_values(|p: Vec<char>| p@) + hint_lines(
                entries@.skip(i as int),
                40 - lines@.len(),
            ),
        decreases entries@.len() - i,
    {
        let ghost rem = entries@.skip(i as int);
        let ghost pre = lines@.map_values(|p: Vec<char>| p@);
        proof {
            assert(rem[0] == entries@[i as int]);
            assert(rem.skip(1) =~= entries@.skip(i + 1));
        }
        let entry = &entries[i];
        if entry.aliases.len() > 0 {
            let line = render_entry_line(entry);
            lines.push(line);
            proof {
                assert(lines@.map_values(|p: Vec<char>| p@) =~= pre.push(lines@.last()@));
                assert(pre + (seq![entry_line(rem[0])] + hint_lines(
                    rem.skip(1),
                    40 - pre.len() - 1,
                )) =~= lines@.map_values(|p: Vec<char>| p@) + hint_lines(
                    rem.skip(1),
                    40 - lines@.len(),
                ));
            }
        }
        i = i + 1;
    }
    proof {
        if i == entries@.len() {
            assert(entries@.skip(entries@.len() as int) =~= Seq::<DictionaryEntry>::empty());
        }
        assert(hint_lines(entries@, 40) =~= lines@.map_values(|p: Vec<char>| p@));
    }
    if lines.len() == 0 {
        return None;
    }
    let mut prompt = chars_of("User dictionary replacements:\n");
    proof {
        reveal_strlit("User dictionary replacements:\n");
        reveal_strlit("\n");
    }
    let nl = chars_of("\n");
    let mut body = join_with(&lines, &nl);
    prompt.append(&mut body);
    Some(string_from_chars(&prompt))
}

proof fn lemma_insert_range_at(
    r: (usize, usize, String),
    s: Seq<(usize, usize, String)>,
    idx: int,
)
    requires
        0 <= idx <= s.len(),
        forall|t: int| 0 <= t < idx ==> !(r.0 < (#[trigger] s[t]).0),
        idx < s.len() ==> r.0 < s[idx].0,
    ensures
        insert_range(r, s) == s.insert(idx, r),
    decreases idx,
{
    if s.len() == 0 {
        assert(s.insert(0, r) =~= seq![r]);
    } else if idx == 0 {
        assert(s.insert(0, r) =~= seq![r] + s);
    } else {
        lemma_insert_range_at(r, s.skip(1), idx - 1);
        assert(s.skip(1).insert(idx - 1, r) =~= s.insert(idx, r).skip(1));
        assert(seq![s[0]] + s.skip(1).insert(idx - 1, r) =~= s.insert(idx, r));
    }
}

proof fn lemma_insert_pair_at(p: (String, String), s: Seq<(String, String)>, idx: int)
    requires
        0 <= idx <= s.len(),
        forall|t: int| 0 <= t < idx ==> !(utf8_len(p.0@) > utf8_len((#[trigger] s[t]).0@)),
        idx < s.len() ==> utf8_len(p.0@) > utf8_len(s[idx].0@),
    ensures
        insert_pair(p, s) == s.insert(idx, p),
    decreases idx,
{
    if s.len() == 0 {
        assert(s.insert(0, p) =~= seq![p]);
    } else if idx == 0 {
        assert(s.insert(0, p) =~= seq![p] + s);
    } else {
        lemma_insert_pair_at(p, s.skip(1), idx - 1);
        assert(s.skip(1).insert(idx - 1, p) =~= s.insert(idx, p).skip(1));
        assert(seq![s[0]] + s.skip(1).insert(idx - 1, p) =~= s.insert(idx, p));
    }
}

} // verus!
