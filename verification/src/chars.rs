//! Character classes and verified building blocks for text handling:
//! conversion between `String` and `Vec<char>`, trimming, and substring
//! search, all specified over `Seq<char>`.
use unicode_categories::UnicodeCategories;
use vstd::prelude::*;

verus! {

/// The Unicode `White_Space` code points (the set `str::trim` removes).
pub open spec fn is_space_char(c: char) -> bool {
    let u = c as u32;
    ||| u == 0x20
    ||| (0x09 <= u && u <= 0x0d)
    ||| u == 0x85
    ||| u == 0xa0
    ||| u == 0x1680
    ||| (0x2000 <= u && u <= 0x200a)
    ||| u == 0x2028
    ||| u == 0x2029
    ||| u == 0x202f
    ||| u == 0x205f
    ||| u == 0x3000
}

/// The ASCII punctuation ranges `!`..`/`, `:`..`@`, `[`..`` ` ``, `{`..`~`.
pub open spec fn is_ascii_punct_char(c: char) -> bool {
    let u = c as u32;
    ||| (0x21 <= u && u <= 0x2f)
    ||| (0x3a <= u && u <= 0x40)
    ||| (0x5b <= u && u <= 0x60)
    ||| (0x7b <= u && u <= 0x7e)
}

/// Membership of a character in the Unicode punctuation categories
/// (Pc, Pd, Pe, Pf, Pi, Po, Ps), as classified by the `unicode_categories`
/// tables; a function of the character alone.
pub uninterp spec fn is_unicode_punct(c: char) -> bool;

/// Relies on `unicode_categories::UnicodeCategories::is_punctuation`:
/// a table lookup deciding membership in the Unicode punctuation categories.
#[verifier::external_body]
pub fn char_is_unicode_punct(c: char) -> (r: bool)
    ensures
        r == is_unicode_punct(c),
{
    c.is_punctuation()
}

pub fn char_is_space(c: char) -> (r: bool)
    ensures
        r == is_space_char(c),
{
    let u = c as u32;
    u == 0x20 || (0x09 <= u && u <= 0x0d) || u == 0x85 || u == 0xa0 || u == 0x1680
        || (0x2000 <= u && u <= 0x200a) || u == 0x2028 || u == 0x2029 || u == 0x202f
        || u == 0x205f || u == 0x3000
}

pub fn char_is_ascii_punct(c: char) -> (r: bool)
    ensures
        r == is_ascii_punct_char(c),
{
    let u = c as u32;
    (0x21 <= u && u <= 0x2f) || (0x3a <= u && u <= 0x40) || (0x5b <= u && u <= 0x60)
        || (0x7b <= u && u <= 0x7e)
}

/// The characters of a string as a vector, in order.
pub fn chars_of(s: &str) -> (r: Vec<char>)
    ensures
        r@ == s@,
{
    let n = s.unicode_len();
    let mut r: Vec<char> = Vec::new();
    let mut i: usize = 0;
    while i < n
        invariant
            i <= n,
            r@ == s@.take(i as int),
        decreases n - i,
    {
        let c = s.get_char(i);
        r.push(c);
        i = i + 1;
        proof {
            assert(r@ =~= s@.take(i as int));
        }
    }
    proof {
        assert(r@ =~= s@);
    }
    r
}

/// Relies on `String::push`: appends exactly the one character.
#[verifier::external_body]
pub fn push_char(s: &mut String, c: char)
    ensures
        final(s)@ == old(s)@.push(c),
{
    s.push(c);
}

/// A string holding exactly the given characters, in order.
pub fn string_from_chars(v: &Vec<char>) -> (r: String)
    ensures
        r@ == v@,
{
    let mut r = String::new();
    let mut i: usize = 0;
    while i < v.len()
        invariant
            i <= v.len(),
            r@ == v@.take(i as int),
        decreases v.len() - i,
    {
        push_char(&mut r, v[i]);
        i = i + 1;
        proof {
            assert(r@ =~= v@.take(i as int));
        }
    }
    proof {
        assert(r@ =~= v@);
    }
    r
}

/// The needle occurs in the haystack starting at position `i`.
pub open spec fn occurs_at(h: Seq<char>, n: Seq<char>, i: int) -> bool {
    0 <= i && i + n.len() <= h.len() && h.subrange(i, i + n.len() as int) == n
}

/// The needle occurs somewhere in the haystack.
pub open spec fn contains_seq(h: Seq<char>, n: Seq<char>) -> bool {
    exists|i: int| occurs_at(h, n, i)
}

/// Whether `n` occurs in `h` at position `i`.
pub fn matches_at(h: &Vec<char>, n: &Vec<char>, i: usize) -> (r: bool)
    requires
        i <= h.len(),
    ensures
        r == occurs_at(h@, n@, i as int),
{
    if h.len() - i < n.len() {
        return false;
    }
    let mut j: usize = 0;
    while j < n.len()
        invariant
            j <= n.len(),
            i + n.len() <= h.len(),
            forall|k: int| 0 <= k < j ==> h@[i + k] == n@[k],
        decreases n.len() - j,
    {
        if h[i + j] != n[j] {
            assert(h@.subrange(i as int, i + n@.len()) != n@) by {
                assert(h@.subrange(i as int, i + n@.len())[j as int] != n@[j as int]);
            }
            return false;
        }
        j = j + 1;
    }
    proof {
        assert(h@.subrange(i as int, i + n@.len()) =~= n@);
    }
    true
}

/// The first position at which `n` occurs in `h`, if any.
pub fn find_first(h: &Vec<char>, n: &Vec<char>) -> (r: Option<usize>)
    ensures
        match r {
            Some(i) => occurs_at(h@, n@, i as int) && forall|j: int|
                0 <= j < i ==> !occurs_at(h@, n@, j),
            None => !contains_seq(h@, n@),
        },
{
    if n.len() == 0 {
        proof {
            assert(h@.subrange(0, 0) =~= n@);
        }
        return Some(0);
    }
    let mut i: usize = 0;
    while i < h.len()
        invariant
            i <= h.len(),
            forall|j: int| 0 <= j < i ==> !occurs_at(h@, n@, j),
        decreases h.len() - i,
    {
        if matches_at(h, n, i) {
            return Some(i);
        }
        i = i + 1;
    }
    None
}

/// Whether `n` occurs anywhere in `h`.
pub fn contains_chars(h: &Vec<char>, n: &Vec<char>) -> (r: bool)
    ensures
        r == contains_seq(h@, n@),
{
    match find_first(h, n) {
        Some(_) => true,
        None => false,
    }
}

/// The haystack ends with the needle.
pub open spec fn ends_with_seq(h: Seq<char>, n: Seq<char>) -> bool {
    n.len() <= h.len() && h.subrange(h.len() - n.len(), h.len() as int) == n
}

pub fn ends_with_chars(h: &Vec<char>, n: &Vec<char>) -> (r: bool)
    ensures
        r == ends_with_seq(h@, n@),
{
    if n.len() > h.len() {
        return false;
    }
    matches_at(h, n, h.len() - n.len())
}

/// The input without leading `White_Space` characters.
pub open spec fn trim_front(s: Seq<char>) -> Seq<char>
    decreases s.len(),
{
    if s.len() > 0 && is_space_char(s[0]) {
        trim_front(s.subrange(1, s.len() as int))
    } else {
        s
    }
}

/// The input without trailing `White_Space` characters.
pub open spec fn trim_back(s: Seq<char>) -> Seq<char>
    decreases s.len(),
{
    if s.len() > 0 && is_space_char(s[s.len() - 1]) {
        trim_back(s.subrange(0, s.len() - 1))
    } else {
        s
    }
}

/// The input without leading and trailing `White_Space` (what `str::trim` keeps).
pub open spec fn trim_seq(s: Seq<char>) -> Seq<char> {
    trim_back(trim_front(s))
}

proof fn lemma_trim_front_skip(s: Seq<char>, i: int)
    requires
        0 <= i <= s.len(),
        forall|k: int| 0 <= k < i ==> is_space_char(s[k]),
        i < s.len() ==> !is_space_char(s[i]),
    ensures
        trim_front(s) == s.subrange(i, s.len() as int),
    decreases i,
{
    if i == 0 {
        if s.len() > 0 && is_space_char(s[0]) {
        } else {
            assert(s.subrange(0, s.len() as int) =~= s);
        }
    } else {
        let t = s.subrange(1, s.len() as int);
        lemma_trim_front_skip(t, i - 1);
        assert(t.subrange(i - 1, t.len() as int) =~= s.subrange(i, s.len() as int));
    }
}

proof fn lemma_trim_back_take(s: Seq<char>, j: int)
    requires
        0 <= j <= s.len(),
        forall|k: int| j <= k < s.len() ==> is_space_char(s[k]),
        j > 0 ==> !is_space_char(s[j - 1]),
    ensures
        trim_back(s) == s.subrange(0, j),
    decreases s.len(),
{
    if j == s.len() {
        if s.len() > 0 && is_space_char(s[s.len() - 1]) {
            let t = s.subrange(0, s.len() - 1);
            lemma_trim_back_take(t, j - 1);
        } else {
            assert(s.subrange(0, s.len() as int) =~= s);
        }
    } else {
        let t = s.subrange(0, s.len() - 1);
        lemma_trim_back_take(t, j);
    }
}

/// The characters `str::trim` would keep: the input without leading and
/// trailing `White_Space`.
pub fn trim_chars(v: &Vec<char>) -> (r: Vec<char>)
    ensures
        r@ == trim_seq(v@),
{
    let mut i: usize = 0;
    while i < v.len() && char_is_space(v[i])
        invariant
            i <= v.len(),
            forall|k: int| 0 <= k < i ==> is_space_char(v@[k]),
        decreases v.len() - i,
    {
        i = i + 1;
    }
    proof {
        lemma_trim_front_skip(v@, i as int);
    }
    let ghost f = trim_front(v@);
    let mut j: usize = v.len();
    while j > i && char_is_space(v[j - 1])
        invariant
            i <= j <= v.len(),
            forall|k: int| j <= k < v.len() ==> is_space_char(v@[k]),
        decreases j,
    {
        j = j - 1;
    }
    proof {
        assert(f =~= v@.subrange(i as int, v@.len() as int));
        lemma_trim_back_take(f, j - i);
    }
    let mut r: Vec<char> = Vec::new();
    let mut k: usize = i;
    while k < j
        invariant
            i <= k <= j <= v.len(),
            r@ == v@.subrange(i as int, k as int),
        decreases j - k,
    {
        r.push(v[k]);
        k = k + 1;
        proof {
            assert(r@ =~= v@.subrange(i as int, k as int));
        }
    }
    proof {
        assert(v@.subrange(i as int, j as int) =~= f.subrange(0, (j - i) as int));
    }
    r
}

/// The Unicode-lowercased form of a text, as `str::to_lowercase` computes
/// it; a function of the characters alone.
pub uninterp spec fn lower_of(s: Seq<char>) -> Seq<char>;

/// Relies on `str::to_lowercase`: the Unicode-lowercased text, which
/// depends only on the input characters and is empty only for empty input.
#[verifier::external_body]
pub fn lowercase(s: &str) -> (r: String)
    ensures
        r@ == lower_of(s@),
        s@.len() == 0 ==> r@.len() == 0,
{
    s.to_lowercase()
}

/// The Unicode-uppercased form of a text, as `str::to_uppercase` computes
/// it; a function of the characters alone.
pub uninterp spec fn upper_of(s: Seq<char>) -> Seq<char>;

/// Relies on `str::to_uppercase`: the Unicode-uppercased text, which
/// depends only on the input characters and is empty only for empty input.
#[verifier::external_body]
pub fn uppercase(s: &str) -> (r: String)
    ensures
        r@ == upper_of(s@),
        s@.len() == 0 ==> r@.len() == 0,
{
    s.to_uppercase()
}

/// The ASCII-lowercased form of one character.
pub open spec fn ascii_lower_char(c: char) -> char {
    if 'A' <= c && c <= 'Z' {
        ((c as u32) + 0x20) as char
    } else {
        c
    }
}

/// The ASCII-lowercased form of a text.
pub open spec fn ascii_lower(s: Seq<char>) -> Seq<char> {
    s.map_values(|c: char| ascii_lower_char(c))
}

/// Lowercase the ASCII letters of the text, as `str::to_ascii_lowercase`.
pub fn to_ascii_lower(v: &Vec<char>) -> (r: Vec<char>)
    ensures
        r@ == ascii_lower(v@),
{
    let mut r: Vec<char> = Vec::new();
    let mut i: usize = 0;
    while i < v.len()
        invariant
            i <= v@.len(),
            r@.len() == i,
            forall|k: int| 0 <= k < i ==> r@[k] == ascii_lower_char(v@[k]),
        decreases v@.len() - i,
    {
        let c = v[i];
        let u = c as u32;
        if 0x41 <= u && u <= 0x5a {
            let lowered_u: u8 = (u as u8) + 0x20;
            let lowered: char = lowered_u as char;
            r.push(lowered);
        } else {
            r.push(c);
        }
        i = i + 1;
    }
    proof {
        assert(r@ =~= ascii_lower(v@));
    }
    r
}

/// The decimal digit character for a value below ten.
pub open spec fn dec_digit(d: int) -> char {
    if d == 0 {
        '0'
    } else if d == 1 {
        '1'
    } else if d == 2 {
        '2'
    } else if d == 3 {
        '3'
    } else if d == 4 {
        '4'
    } else if d == 5 {
        '5'
    } else if d == 6 {
        '6'
    } else if d == 7 {
        '7'
    } else if d == 8 {
        '8'
    } else {
        '9'
    }
}

/// The decimal representation of a number, without leading zeroes.
pub open spec fn dec_str(n: int) -> Seq<char>
    decreases n,
{
    if n < 10 {
        seq![dec_digit(n)]
    } else {
        dec_str(n / 10).push(dec_digit(n % 10))
    }
}

/// Relies on the standard decimal formatting of `u64` (`Display`): digits
/// without leading zeroes.
#[verifier::external_body]
pub fn u64_to_string(n: u64) -> (r: String)
    ensures
        r@ == dec_str(n as int),
{
    format!("{}", n)
}

/// The text with every occurrence of the pattern replaced, scanning left
/// to right without revisiting replaced text (`str::replace`).
pub open spec fn replace_pat(h: Seq<char>, p: Seq<char>, rep: Seq<char>) -> Seq<char>
    decreases h.len(),
{
    if p.len() == 0 {
        h
    } else if h.len() < p.len() {
        h
    } else if h.take(p.len() as int) == p {
        rep + replace_pat(h.skip(p.len() as int), p, rep)
    } else {
        seq![h[0]] + replace_pat(h.skip(1), p, rep)
    }
}

/// Replace every occurrence of `p` by `rep`, as `replace_pat` states.
pub fn replace_all(h: &Vec<char>, p: &Vec<char>, rep: &Vec<char>) -> (r: Vec<char>)
    requires
        p@.len() >= 1,
    ensures
        r@ == replace_pat(h@, p@, rep@),
{
    let mut out: Vec<char> = Vec::new();
    let mut i: usize = 0;
    proof {
        assert(h@.skip(0) =~= h@);
        assert(Seq::<char>::empty() + replace_pat(h@, p@, rep@) =~= replace_pat(h@, p@, rep@));
    }
    while i < h.len()
        invariant
            i <= h@.len(),
            p@.len() >= 1,
            replace_pat(h@, p@, rep@) == out@ + replace_pat(h@.skip(i as int), p@, rep@),
        decreases h@.len() - i,
    {
        let ghost rem = h@.skip(i as int);
        let ghost out0 = out@;
        if matches_at(h, p, i) {
            proof {
                assert(rem.take(p@.len() as int) =~= h@.subrange(i as int, i + p@.len()));
                assert(rem.skip(p@.len() as int) =~= h@.skip(i + p@.len()));
            }
            let mut j: usize = 0;
            while j < rep.len()
                invariant
                    j <= rep@.len(),
                    out@ == out0 + rep@.take(j as int),
                decreases rep@.len() - j,
            {
                out.push(rep[j]);
                j = j + 1;
                proof {
                    assert(out@ =~= out0 + rep@.take(j as int));
                }
            }
            proof {
                assert(rep@.take(rep@.len() as int) =~= rep@);
                assert((out0 + rep@) + replace_pat(h@.skip(i + p@.len()), p@, rep@)
                    =~= out0 + replace_pat(rem, p@, rep@));
            }
            i = i + p.len();
        } else {
            proof {
                if i + p@.len() <= h@.len() {
                    assert(rem.take(p@.len() as int) =~= h@.subrange(i as int, i + p@.len()));
                }
                assert(rem.skip(1) =~= h@.skip(i + 1));
            }
            out.push(h[i]);
            i = i + 1;
            proof {
                assert(out@ + replace_pat(h@.skip(i as int), p@, rep@) =~= replace_pat(
                    h@,
                    p@,
                    rep@,
                ));
            }
        }
    }
    proof {
        assert(h@.skip(h@.len() as int) =~= Seq::<char>::empty());
        assert(out@ + Seq::<char>::empty() =~= out@);
    }
    out
}

/// How many bytes the character takes in UTF-8.
pub open spec fn utf8_len_char(c: char) -> int {
    let u = c as u32;
    if u < 0x80 {
        1
    } else if u < 0x800 {
        2
    } else if u < 0x10000 {
        3
    } else {
        4
    }
}

/// How many bytes the text takes in UTF-8.
pub open spec fn utf8_len(s: Seq<char>) -> int
    decreases s.len(),
{
    if s.len() == 0 {
        0
    } else {
        utf8_len(s.subrange(0, s.len() - 1)) + utf8_len_char(s[s.len() - 1])
    }
}

pub proof fn lemma_utf8_len_bounds(s: Seq<char>)
    ensures
        s.len() <= utf8_len(s) <= 4 * s.len(),
    decreases s.len(),
{
    if s.len() > 0 {
        lemma_utf8_len_bounds(s.subrange(0, s.len() - 1));
    }
}

/// UTF-8 byte length of the first `k` characters.
pub fn utf8_prefix_len(v: &Vec<char>, k: usize) -> (r: u128)
    requires
        k <= v@.len(),
    ensures
        r == utf8_len(v@.take(k as int)),
{
    let mut r: u128 = 0;
    let mut i: usize = 0;
    proof {
        lemma_utf8_len_bounds(v@.take(0));
    }
    while i < k
        invariant
            i <= k <= v@.len(),
            r == utf8_len(v@.take(i as int)),
            r <= 4 * i,
        decreases k - i,
    {
        let u = v[i] as u32;
        let step: u128 = if u < 0x80 {
            1
        } else if u < 0x800 {
            2
        } else if u < 0x10000 {
            3
        } else {
            4
        };
        r = r + step;
        i = i + 1;
        proof {
            assert(v@.take(i as int).subrange(0, i - 1) =~= v@.take(i - 1));
        }
    }
    r
}

/// UTF-8 byte length of the whole text.
pub fn utf8_len_of(v: &Vec<char>) -> (r: u128)
    ensures
        r == utf8_len(v@),
{
    let r = utf8_prefix_len(v, v.len());
    proof {
        assert(v@.take(v@.len() as int) =~= v@);
    }
    r
}

/// The first `k` characters as a fresh vector.
pub fn prefix_chars(v: &Vec<char>, k: usize) -> (r: Vec<char>)
    requires
        k <= v@.len(),
    ensures
        r@ == v@.take(k as int),
{
    let mut r: Vec<char> = Vec::new();
    let mut i: usize = 0;
    while i < k
        invariant
            i <= k <= v@.len(),
            r@ == v@.take(i as int),
        decreases k - i,
    {
        r.push(v[i]);
        i = i + 1;
        proof {
            assert(r@ =~= v@.take(i as int));
        }
    }
    r
}

/// A fresh vector with the same characters.
pub fn copy_chars(src: &Vec<char>) -> (r: Vec<char>)
    ensures
        r@ == src@,
{
    let mut r: Vec<char> = Vec::new();
    let mut i: usize = 0;
    while i < src.len()
        invariant
            i <= src@.len(),
            r@ == src@.take(i as int),
        decreases src@.len() - i,
    {
        r.push(src[i]);
        i = i + 1;
        proof {
            assert(r@ =~= src@.take(i as int));
        }
    }
    proof {
        assert(src@.take(src@.len() as int) =~= src@);
    }
    r
}

/// Whether two character vectors hold the same text.
pub fn chars_equal(a: &Vec<char>, b: &Vec<char>) -> (r: bool)
    ensures
        r == (a@ == b@),
{
    if a.len() != b.len() {
        proof {
            assert(a@ != b@);
        }
        return false;
    }
    let mut i: usize = 0;
    while i < a.len()
        invariant
            i <= a@.len(),
            a@.len() == b@.len(),
            forall|k: int| 0 <= k < i ==> a@[k] == b@[k],
        decreases a@.len() - i,
    {
        if a[i] != b[i] {
            return false;
        }
        i = i + 1;
    }
    proof {
        assert(a@ =~= b@);
    }
    true
}

/// Whether two strings hold the same text.
pub fn str_eq(a: &str, b: &str) -> (r: bool)
    ensures
        r == (a@ == b@),
{
    let av = chars_of(a);
    let bv = chars_of(b);
    chars_equal(&av, &bv)
}

/// The views of a vector of strings.
pub open spec fn deep_str(vs: Seq<String>) -> Seq<Seq<char>> {
    vs.map_values(|v: String| v@)
}

/// The input without leading copies of one character.
pub open spec fn trim_front_matching(s: Seq<char>, m: char) -> Seq<char>
    decreases s.len(),
{
    if s.len() > 0 && s[0] == m {
        trim_front_matching(s.subrange(1, s.len() as int), m)
    } else {
        s
    }
}

/// The input without trailing copies of one character.
pub open spec fn trim_back_matching(s: Seq<char>, m: char) -> Seq<char>
    decreases s.len(),
{
    if s.len() > 0 && s[s.len() - 1] == m {
        trim_back_matching(s.subrange(0, s.len() - 1), m)
    } else {
        s
    }
}

proof fn lemma_trim_front_matching_skip(s: Seq<char>, m: char, i: int)
    requires
        0 <= i <= s.len(),
        forall|k: int| 0 <= k < i ==> s[k] == m,
        i < s.len() ==> s[i] != m,
    ensures
        trim_front_matching(s, m) == s.subrange(i, s.len() as int),
    decreases i,
{
    if i == 0 {
        if s.len() > 0 && s[0] == m {
        } else {
            assert(s.subrange(0, s.len() as int) =~= s);
        }
    } else {
        let t = s.subrange(1, s.len() as int);
        lemma_trim_front_matching_skip(t, m, i - 1);
        assert(t.subrange(i - 1, t.len() as int) =~= s.subrange(i, s.len() as int));
    }
}

proof fn lemma_trim_back_matching_take(s: Seq<char>, m: char, j: int)
    requires
        0 <= j <= s.len(),
        forall|k: int| j <= k < s.len() ==> s[k] == m,
        j > 0 ==> s[j - 1] != m,
    ensures
        trim_back_matching(s, m) == s.subrange(0, j),
    decreases s.len(),
{
    if j == s.len() {
        if s.len() > 0 && s[s.len() - 1] == m {
            let t = s.subrange(0, s.len() - 1);
            lemma_trim_back_matching_take(t, m, j - 1);
        } else {
            assert(s.subrange(0, s.len() as int) =~= s);
        }
    } else {
        let t = s.subrange(0, s.len() - 1);
        lemma_trim_back_matching_take(t, m, j);
    }
}

/// Drop leading copies of `m`, as `str::trim_start_matches` with one
/// character does.
pub fn trim_start_char(v: &Vec<char>, m: char) -> (r: Vec<char>)
    ensures
        r@ == trim_front_matching(v@, m),
{
    let mut i: usize = 0;
    while i < v.len() && v[i] == m
        invariant
            i <= v@.len(),
            forall|k: int| 0 <= k < i ==> v@[k] == m,
        decreases v@.len() - i,
    {
        i = i + 1;
    }
    proof {
        lemma_trim_front_matching_skip(v@, m, i as int);
    }
    let mut r: Vec<char> = Vec::new();
    let mut k: usize = i;
    while k < v.len()
        invariant
            i <= k <= v@.len(),
            r@ == v@.subrange(i as int, k as int),
        decreases v@.len() - k,
    {
        r.push(v[k]);
        k = k + 1;
        proof {
            assert(r@ =~= v@.subrange(i as int, k as int));
        }
    }
    r
}

/// Drop trailing copies of `m`, as `str::trim_end_matches` with one
/// character does.
pub fn trim_end_char(v: &Vec<char>, m: char) -> (r: Vec<char>)
    ensures
        r@ == trim_back_matching(v@, m),
{
    let mut j: usize = v.len();
    while j > 0 && v[j - 1] == m
        invariant
            j <= v@.len(),
            forall|k: int| j <= k < v@.len() ==> v@[k] == m,
        decreases j,
    {
        j = j - 1;
    }
    proof {
        lemma_trim_back_matching_take(v@, m, j as int);
    }
    let mut r: Vec<char> = Vec::new();
    let mut k: usize = 0;
    while k < j
        invariant
            k <= j <= v@.len(),
            r@ == v@.subrange(0, k as int),
        decreases j - k,
    {
        r.push(v[k]);
        k = k + 1;
        proof {
            assert(r@ =~= v@.subrange(0, k as int));
        }
    }
    r
}

/// Trimming a string, as `str::trim` does.
pub fn trim_string(s: &str) -> (r: String)
    ensures
        r@ == trim_seq(s@),
{
    let v = chars_of(s);
    let t = trim_chars(&v);
    string_from_chars(&t)
}

} // verus!
