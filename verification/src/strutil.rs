//! Character-sequence utilities: the whitespace model, trimming, whitespace
//! collapsing, word counting and substring search. All text handled by the
//! library is carried as `Vec<char>` so that positions are character indices.

#![verifier::loop_isolation(false)]

use vstd::prelude::*;

verus! {

/// A character counts as whitespace exactly when the Unicode `White_Space`
/// property holds of it: the set used both by `char::is_whitespace` and by
/// the regex class `\s`.
pub open spec fn is_space(c: char) -> bool {
    c as int == 0x09 || c as int == 0x0A || c as int == 0x0B || c as int == 0x0C
        || c as int == 0x0D || c as int == 0x20 || c as int == 0x85 || c as int == 0xA0
        || c as int == 0x1680 || (0x2000 <= c as int && c as int <= 0x200A)
        || c as int == 0x2028 || c as int == 0x2029 || c as int == 0x202F
        || c as int == 0x205F || c as int == 0x3000
}

pub fn is_space_ch(c: char) -> (r: bool)
    ensures
        r == is_space(c),
{
    let u = c as u32;
    u == 0x09 || u == 0x0A || u == 0x0B || u == 0x0C || u == 0x0D || u == 0x20 || u == 0x85
        || u == 0xA0 || u == 0x1680 || (0x2000 <= u && u <= 0x200A) || u == 0x2028 || u == 0x2029
        || u == 0x202F || u == 0x205F || u == 0x3000
}

/// Index of the first non-whitespace character at or after `i`.
pub open spec fn skip_ws(s: Seq<char>, i: int) -> int
    decreases s.len() - i,
{
    if 0 <= i < s.len() && is_space(s[i]) {
        skip_ws(s, i + 1)
    } else {
        i
    }
}

pub proof fn lemma_skip_ws_bounds(s: Seq<char>, i: int)
    requires
        0 <= i <= s.len(),
    ensures
        i <= skip_ws(s, i) <= s.len(),
        forall|k: int| i <= k < skip_ws(s, i) ==> is_space(s[k]),
        skip_ws(s, i) < s.len() ==> !is_space(s[skip_ws(s, i)]),
    decreases s.len() - i,
{
    if i < s.len() && is_space(s[i]) {
        lemma_skip_ws_bounds(s, i + 1);
    }
}

/// One past the last non-whitespace character strictly before `i`.
pub open spec fn rskip_ws(s: Seq<char>, i: int) -> int
    decreases i,
{
    if 0 < i <= s.len() && is_space(s[i - 1]) {
        rskip_ws(s, i - 1)
    } else {
        i
    }
}

pub proof fn lemma_rskip_ws_bounds(s: Seq<char>, i: int)
    requires
        0 <= i <= s.len(),
    ensures
        0 <= rskip_ws(s, i) <= i,
        forall|k: int| rskip_ws(s, i) <= k < i ==> is_space(s[k]),
        rskip_ws(s, i) > 0 ==> !is_space(s[rskip_ws(s, i) - 1]),
    decreases i,
{
    if 0 < i && is_space(s[i - 1]) {
        lemma_rskip_ws_bounds(s, i - 1);
    }
}

/// If position `a` holds a non-whitespace character, the backward scan from
/// any point past it stops after `a`.
pub proof fn lemma_rskip_ws_past(s: Seq<char>, i: int, a: int)
    requires
        0 <= a < i <= s.len(),
        !is_space(s[a]),
    ensures
        rskip_ws(s, i) > a,
    decreases i,
{
    if 0 < i && is_space(s[i - 1]) {
        lemma_rskip_ws_past(s, i - 1, a);
    }
}

/// The string with leading and trailing whitespace removed.
pub open spec fn trim(s: Seq<char>) -> Seq<char> {
    if skip_ws(s, 0) == s.len() {
        Seq::empty()
    } else {
        s.subrange(skip_ws(s, 0), rskip_ws(s, s.len() as int))
    }
}

pub proof fn lemma_trim_wf(s: Seq<char>)
    ensures
        skip_ws(s, 0) < s.len() ==> skip_ws(s, 0) < rskip_ws(s, s.len() as int) <= s.len(),
{
    lemma_skip_ws_bounds(s, 0);
    if skip_ws(s, 0) < s.len() {
        lemma_rskip_ws_past(s, s.len() as int, skip_ws(s, 0));
        lemma_rskip_ws_bounds(s, s.len() as int);
    }
}

/// Copy of `s[a..b]`.
pub fn sub_chars(s: &Vec<char>, a: usize, b: usize) -> (r: Vec<char>)
    requires
        a <= b <= s@.len(),
    ensures
        r@ == s@.subrange(a as int, b as int),
{
    let mut r: Vec<char> = Vec::new();
    let mut i: usize = a;
    while i < b
        invariant
            a <= i <= b <= s@.len(),
            r@ == s@.subrange(a as int, i as int),
        decreases b - i,
    {
        r.push(s[i]);
        proof {
            assert(r@ =~= s@.subrange(a as int, i + 1 as int));
        }
        i += 1;
    }
    r
}

fn skip_ws_exec(s: &Vec<char>, from: usize) -> (r: usize)
    requires
        from <= s@.len(),
    ensures
        r == skip_ws(s@, from as int),
        from <= r <= s@.len(),
{
    let mut i: usize = from;
    while i < s.len() && is_space_ch(s[i])
        invariant
            from <= i <= s@.len(),
            skip_ws(s@, from as int) == skip_ws(s@, i as int),
        decreases s@.len() - i,
    {
        proof {
            assert(skip_ws(s@, i as int) == skip_ws(s@, i + 1));
        }
        i += 1;
    }
    proof {
        assert(skip_ws(s@, i as int) == i as int);
    }
    i
}

fn rskip_ws_exec(s: &Vec<char>, from: usize) -> (r: usize)
    requires
        from <= s@.len(),
    ensures
        r == rskip_ws(s@, from as int),
        r <= from,
{
    let mut i: usize = from;
    while i > 0 && is_space_ch(s[i - 1])
        invariant
            0 <= i <= from <= s@.len(),
            rskip_ws(s@, from as int) == rskip_ws(s@, i as int),
        decreases i,
    {
        i -= 1;
    }
    i
}

/// Leading and trailing whitespace removed; the characters between stay.
pub fn trim_chars(s: &Vec<char>) -> (r: Vec<char>)
    ensures
        r@ == trim(s@),
{
    proof {
        lemma_trim_wf(s@);
    }
    let a = skip_ws_exec(s, 0);
    if a == s.len() {
        let r: Vec<char> = Vec::new();
        proof {
            assert(r@ =~= trim(s@));
        }
        r
    } else {
        let b = rskip_ws_exec(s, s.len());
        sub_chars(s, a, b)
    }
}

/// Whitespace-normal form: outer whitespace dropped, every inner maximal
/// whitespace run replaced by one space. `pending` records whether a run is
/// waiting to be emitted before the next ordinary character.
pub open spec fn collapse_go(s: Seq<char>, i: int, pending: bool) -> Seq<char>
    decreases s.len() - i,
{
    if i < 0 || i >= s.len() {
        Seq::empty()
    } else if is_space(s[i]) {
        collapse_go(s, i + 1, true)
    } else if pending {
        seq![' ', s[i]] + collapse_go(s, i + 1, false)
    } else {
        seq![s[i]] + collapse_go(s, i + 1, false)
    }
}

pub open spec fn normalize_ws(s: Seq<char>) -> Seq<char> {
    collapse_go(s, skip_ws(s, 0), false)
}

pub fn normalize_ws_chars(s: &Vec<char>) -> (r: Vec<char>)
    ensures
        r@ == normalize_ws(s@),
{
    let start = skip_ws_exec(s, 0);
    let mut r: Vec<char> = Vec::new();
    let mut pending = false;
    let mut i: usize = start;
    while i < s.len()
        invariant
            start <= i <= s@.len() || (start <= s@.len() && i <= s@.len()),
            i >= start,
            normalize_ws(s@) == r@ + collapse_go(s@, i as int, pending),
        decreases s@.len() - i,
    {
        if is_space_ch(s[i]) {
            pending = true;
        } else {
            if pending {
                r.push(' ');
            }
            r.push(s[i]);
            pending = false;
        }
        i += 1;
    }
    proof {
        assert(r@ =~= normalize_ws(s@));
    }
    r
}

/// Number of whitespace-separated words: positions that start a maximal
/// non-whitespace run, counted from `i` on.
pub open spec fn word_count_from(s: Seq<char>, i: int) -> int
    decreases s.len() - i,
{
    if i < 0 || i >= s.len() {
        0
    } else {
        (if !is_space(s[i]) && (i == 0 || is_space(s[i - 1])) {
            1int
        } else {
            0int
        }) + word_count_from(s, i + 1)
    }
}

pub open spec fn word_count(s: Seq<char>) -> int {
    word_count_from(s, 0)
}

pub proof fn lemma_word_count_from_nonneg(s: Seq<char>, i: int)
    ensures
        word_count_from(s, i) >= 0,
        word_count_from(s, i) <= s.len() - i || word_count_from(s, i) == 0,
    decreases s.len() - i,
{
    if 0 <= i < s.len() {
        lemma_word_count_from_nonneg(s, i + 1);
    }
}

pub fn count_words(s: &Vec<char>) -> (r: usize)
    ensures
        r == word_count(s@),
{
    let mut r: usize = 0;
    let mut i: usize = 0;
    while i < s.len()
        invariant
            0 <= i <= s@.len(),
            r <= i,
            word_count(s@) == r + word_count_from(s@, i as int),
        decreases s@.len() - i,
    {
        proof {
            lemma_word_count_from_nonneg(s@, i + 1);
        }
        if !is_space_ch(s[i]) && (i == 0 || is_space_ch(s[i - 1])) {
            r += 1;
        }
        i += 1;
    }
    r
}

/// The pattern occurs in `s` at position `i`.
pub open spec fn matches_at(s: Seq<char>, pat: Seq<char>, i: int) -> bool {
    0 <= i && i + pat.len() <= s.len() && s.subrange(i, i + pat.len() as int) == pat
}

/// Position of the first occurrence of `pat` at or after `i`, if any.
pub open spec fn find_from(s: Seq<char>, pat: Seq<char>, i: int) -> Option<int>
    decreases s.len() - i + 1,
{
    if i < 0 || i + pat.len() > s.len() {
        None
    } else if matches_at(s, pat, i) {
        Some(i)
    } else {
        find_from(s, pat, i + 1)
    }
}

pub open spec fn find_sub(s: Seq<char>, pat: Seq<char>) -> Option<int> {
    find_from(s, pat, 0)
}

fn eq_at(s: &Vec<char>, pat: &Vec<char>, i: usize) -> (r: bool)
    requires
        i + pat@.len() <= s@.len(),
    ensures
        r == matches_at(s@, pat@, i as int),
{
    let n = s.len();
    let mut j: usize = 0;
    while j < pat.len()
        invariant
            0 <= j <= pat@.len(),
            i + pat@.len() <= s@.len(),
            n == s@.len(),
            forall|k: int| 0 <= k < j ==> s@[i + k] == pat@[k],
        decreases pat@.len() - j,
    {
        if s[i + j] != pat[j] {
            proof {
                assert(s@.subrange(i as int, i + pat@.len() as int)[j as int] != pat@[j as int]);
            }
            return false;
        }
        j += 1;
    }
    proof {
        assert(s@.subrange(i as int, i + pat@.len() as int) =~= pat@);
    }
    true
}

/// First occurrence of `pat` in `s`, as a character index.
pub fn find_in(s: &Vec<char>, pat: &Vec<char>) -> (r: Option<usize>)
    ensures
        match r {
            Some(p) => find_sub(s@, pat@) == Some(p as int),
            None => find_sub(s@, pat@) is None,
        },
{
    if pat.len() > s.len() {
        return None;
    }
    if pat.len() == 0 {
        proof {
            assert(s@.subrange(0, 0) =~= pat@);
        }
        return Some(0);
    }
    let bound = s.len() - pat.len();
    let mut i: usize = 0;
    while i <= bound
        invariant
            0 <= i <= bound + 1,
            1 <= pat@.len() <= s@.len(),
            s@.len() <= usize::MAX,
            bound == s@.len() - pat@.len(),
            find_sub(s@, pat@) == find_from(s@, pat@, i as int),
        decreases bound + 1 - i,
    {
        if eq_at(s, pat, i) {
            return Some(i);
        }
        i += 1;
    }
    None
}

/// Position of the last occurrence of `c` strictly before `i`, if any.
pub open spec fn rfind_from(s: Seq<char>, c: char, i: int) -> Option<int>
    decreases i,
{
    if i <= 0 || i > s.len() {
        None
    } else if s[i - 1] == c {
        Some(i - 1)
    } else {
        rfind_from(s, c, i - 1)
    }
}

/// Last occurrence of a single character.
pub fn rfind_char(s: &Vec<char>, c: char) -> (r: Option<usize>)
    ensures
        match r {
            Some(p) => rfind_from(s@, c, s@.len() as int) == Some(p as int),
            None => rfind_from(s@, c, s@.len() as int) is None,
        },
{
    let mut i: usize = s.len();
    while i > 0
        invariant
            0 <= i <= s@.len(),
            rfind_from(s@, c, s@.len() as int) == rfind_from(s@, c, i as int),
        decreases i,
    {
        i -= 1;
        if s[i] == c {
            return Some(i);
        }
    }
    None
}

/// The characters of `s`, in order.
pub fn str_chars(s: &str) -> (r: Vec<char>)
    ensures
        r@ == s@,
{
    let n = s.unicode_len();
    let mut r: Vec<char> = Vec::new();
    let mut i: usize = 0;
    while i < n
        invariant
            n == s@.len(),
            0 <= i <= n,
            r@ == s@.subrange(0, i as int),
        decreases n - i,
    {
        r.push(s.get_char(i));
        proof {
            assert(r@ =~= s@.subrange(0, i + 1 as int));
        }
        i += 1;
    }
    proof {
        assert(r@ =~= s@);
    }
    r
}

/// Relies on `core::iter::Iterator::collect` for `String`: collecting the
/// characters of a `Vec<char>` yields the string of exactly those characters.
#[verifier::external_body]
pub fn chars_to_string(v: &Vec<char>) -> (r: String)
    ensures
        r@ == v@,
{
    v.iter().collect()
}

/// Two sequences hold the same characters.
pub fn chars_eq(a: &Vec<char>, b: &Vec<char>) -> (r: bool)
    ensures
        r == (a@ == b@),
{
    if a.len() != b.len() {
        proof {
            assert(a@.len() != b@.len());
        }
        return false;
    }
    let mut i: usize = 0;
    while i < a.len()
        invariant
            a@.len() == b@.len(),
            0 <= i <= a@.len(),
            forall|k: int| 0 <= k < i ==> a@[k] == b@[k],
        decreases a@.len() - i,
    {
        if a[i] != b[i] {
            return false;
        }
        i += 1;
    }
    proof {
        assert(a@ =~= b@);
    }
    true
}

/// ASCII-lowercased code point, used for case-insensitive comparison.
pub open spec fn lower_code(c: char) -> int {
    if 0x41 <= c as u32 && c as u32 <= 0x5A {
        c as u32 + 0x20
    } else {
        c as u32 as int
    }
}

/// The two sequences are equal up to ASCII case.
pub open spec fn eq_ignore_case(a: Seq<char>, b: Seq<char>) -> bool {
    a.len() == b.len() && forall|k: int| 0 <= k < a.len() ==> lower_code(a[k]) == lower_code(b[k])
}

pub fn chars_eq_ignore_case(a: &Vec<char>, b: &Vec<char>) -> (r: bool)
    ensures
        r == eq_ignore_case(a@, b@),
{
    if a.len() != b.len() {
        return false;
    }
    let mut i: usize = 0;
    while i < a.len()
        invariant
            a@.len() == b@.len(),
            0 <= i <= a@.len(),
            forall|k: int| 0 <= k < i ==> lower_code(a@[k]) == lower_code(b@[k]),
        decreases a@.len() - i,
    {
        let x = a[i] as u32;
        let y = b[i] as u32;
        let xl = if 0x41 <= x && x <= 0x5A {
            x + 0x20
        } else {
            x
        };
        let yl = if 0x41 <= y && y <= 0x5A {
            y + 0x20
        } else {
            y
        };
        if xl != yl {
            return false;
        }
        i += 1;
    }
    true
}

} // verus!
