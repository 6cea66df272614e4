//! The title cleaner: strip a site-name suffix or prefix from a raw title.
//! Separator detection is delegated to `regex`; the two patterns' matches are
//! characterized exactly over character sequences.

#![verifier::loop_isolation(false)]

use vstd::prelude::*;
use crate::dom::Node;
use crate::dom::NodeV;
use crate::dom::nodes_view;
use crate::dom::text_of;
use crate::strutil;
use crate::strutil::find_sub;
use crate::strutil::is_space;
use crate::strutil::normalize_ws;
use crate::strutil::rfind_from;
use crate::strutil::skip_ws;
use crate::strutil::trim;
use crate::strutil::word_count;

verus! {

broadcast use vstd::std_specs::vec::group_vec_axioms;

/// A separator character: `|`, `\`, `/`, `>` or `»`.
pub open spec fn sep_char(c: char) -> bool {
    c as u32 == 0x7C || c as u32 == 0x5C || c as u32 == 0x2F || c as u32 == 0x3E || c as u32
        == 0xBB
}

/// A dash character: em dash, hyphen-minus or en dash.
pub open spec fn dash_char(c: char) -> bool {
    c as u32 == 0x2014 || c as u32 == 0x2D || c as u32 == 0x2013
}

/// A separator match starts at `i`: a whitespace run, a separator character,
/// more whitespace.
pub open spec fn sep_match_at(s: Seq<char>, i: int) -> bool {
    0 <= i < s.len() && is_space(s[i]) && {
        let p = skip_ws(s, i);
        p < s.len() && sep_char(s[p]) && p + 1 < s.len() && is_space(s[p + 1])
    }
}

/// Where the separator match starting at `i` ends: after the whitespace run
/// that follows the separator character.
pub open spec fn sep_match_end(s: Seq<char>, i: int) -> int {
    skip_ws(s, skip_ws(s, i) + 1)
}

/// The first separator match, with its end.
pub open spec fn sep_find_from(s: Seq<char>, i: int) -> Option<(int, int)>
    decreases s.len() - i + 1,
{
    if i < 0 || i >= s.len() {
        None
    } else if sep_match_at(s, i) {
        Some((i, sep_match_end(s, i)))
    } else {
        sep_find_from(s, i + 1)
    }
}

pub open spec fn sep_find(s: Seq<char>) -> Option<(int, int)> {
    sep_find_from(s, 0)
}

/// No line feed at or after `q`: the trailing-dash pattern's final `.*$`
/// cannot cross one.
pub open spec fn no_newline_after(s: Seq<char>, q: int) -> bool {
    forall|k: int| q <= k < s.len() ==> s[k] as u32 != 0x0A
}

/// A trailing-dash match starts at `i`: a whitespace run, an optional colon,
/// a dash, more whitespace, then anything up to the end of the string.
pub open spec fn dash_match_at(s: Seq<char>, i: int) -> bool {
    0 <= i < s.len() && is_space(s[i]) && {
        let p = skip_ws(s, i);
        let d = if p < s.len() && s[p] as u32 == 0x3A {
            p + 1
        } else {
            p
        };
        d < s.len() && dash_char(s[d]) && d + 1 < s.len() && is_space(s[d + 1])
            && no_newline_after(s, skip_ws(s, d + 1))
    }
}

/// The first trailing-dash match.
pub open spec fn dash_find_from(s: Seq<char>, i: int) -> Option<int>
    decreases s.len() - i + 1,
{
    if i < 0 || i >= s.len() {
        None
    } else if dash_match_at(s, i) {
        Some(i)
    } else {
        dash_find_from(s, i + 1)
    }
}

pub open spec fn dash_find(s: Seq<char>) -> Option<int> {
    dash_find_from(s, 0)
}

/// Relies on `regex::Regex::find` with the pattern `\s+[\|\\/>»]\s+`: the
/// match is leftmost, its first `\s+` runs up to the separator character and
/// its second over the following whitespace run, both greedy; the byte
/// offsets become character positions before they are returned.
#[verifier::external_body]
fn find_separator(s: &Vec<char>) -> (r: Option<(usize, usize)>)
    ensures
        match r {
            Some(m) => sep_find(s@) == Some((m.0 as int, m.1 as int)),
            None => sep_find(s@) is None,
        },
{
    let text: String = s.iter().collect();
    let re = regex::Regex::new(r"\s+[\|\\/>»]\s+").unwrap();
    match re.find(&text) {
        Some(m) => {
            let a = text[..m.start()].chars().count();
            let b = text[..m.end()].chars().count();
            Some((a, b))
        },
        None => None,
    }
}

/// Relies on `regex::Regex::find` with the pattern `\s+(:?[—\-–])\s+.*$`: the
/// match is leftmost; its `\s+` runs are greedy, the group takes an optional
/// colon and a dash, and `.*$` reaches the end of the string without crossing
/// a line feed. Only the start is reported.
#[verifier::external_body]
fn find_end_dash(s: &Vec<char>) -> (r: Option<usize>)
    ensures
        match r {
            Some(a) => dash_find(s@) == Some(a as int),
            None => dash_find(s@) is None,
        },
{
    let text: String = s.iter().collect();
    let re = regex::Regex::new(r"\s+(:?[—\-–])\s+.*$").unwrap();
    match re.find(&text) {
        Some(m) => Some(text[..m.start()].chars().count()),
        None => None,
    }
}

/// A heading (h1 or h2) somewhere below one of `ns` has exactly this
/// whitespace-normalized text.
pub open spec fn any_heading_matches(ns: Seq<NodeV>, t: Seq<char>) -> bool
    decreases ns,
{
    if ns.len() == 0 {
        false
    } else {
        heading_matches(ns[0], t) || any_heading_matches(ns.drop_first(), t)
    }
}

pub open spec fn heading_matches(n: NodeV, t: Seq<char>) -> bool
    decreases n,
{
    match n {
        NodeV::Elem { tag, children, .. } => ((tag == "h1"@ || tag == "h2"@) && trim(
            normalize_ws(text_of(n)),
        ) == trim(t)) || any_heading_matches(children, t),
        _ => false,
    }
}

fn heading_matches_exec(n: &Node, t: &Vec<char>) -> (r: bool)
    ensures
        r == heading_matches(n@, t@),
    decreases *n,
{
    match n {
        Node::Elem { tag, children, .. } => {
            if crate::dom::string_is(tag, "h1") || crate::dom::string_is(tag, "h2") {
                let text = crate::dom::extract_text(n, true);
                let trimmed = strutil::trim_chars(&text);
                let tt = strutil::trim_chars(t);
                if strutil::chars_eq(&trimmed, &tt) {
                    return true;
                }
            }
            proof {
                assert(*children == (*n)->Elem_children);
                assert(decreases_to!(*n => (*n)->Elem_children));
            }
            any_heading_exec(children, t)
        },
        _ => false,
    }
}

fn any_heading_exec(ns: &Vec<Node>, t: &Vec<char>) -> (r: bool)
    ensures
        r == any_heading_matches(nodes_view(ns@), t@),
    decreases *ns,
{
    proof {
        crate::dom::lemma_nodes_view_len(ns@);
    }
    let mut i: usize = 0;
    while i < ns.len()
        invariant
            0 <= i <= ns@.len(),
            nodes_view(ns@).len() == ns@.len(),
            forall|k: int| 0 <= k < ns@.len() ==> #[trigger] nodes_view(ns@)[k] == crate::dom::node_view(
                ns@[k],
            ),
            forall|k: int| 0 <= k < i ==> !#[trigger] heading_matches(nodes_view(ns@)[k], t@),
        decreases ns@.len() - i,
    {
        proof {
            assert(decreases_to!(*ns => ns[i as int]));
        }
        if heading_matches_exec(&ns[i], t) {
            proof {
                assert(heading_matches(nodes_view(ns@)[i as int], t@));
                lemma_any_heading_iff(nodes_view(ns@), t@);
            }
            return true;
        }
        i += 1;
    }
    proof {
        lemma_any_heading_iff(nodes_view(ns@), t@);
    }
    false
}

/// A heading matches somewhere in the list exactly when one of its members
/// holds a match.
proof fn lemma_any_heading_iff(ns: Seq<NodeV>, t: Seq<char>)
    ensures
        any_heading_matches(ns, t) <==> exists|k: int|
            0 <= k < ns.len() && #[trigger] heading_matches(ns[k], t),
    decreases ns,
{
    if ns.len() > 0 {
        lemma_any_heading_iff(ns.drop_first(), t);
        if any_heading_matches(ns, t) {
            if heading_matches(ns[0], t) {
                assert(0 <= 0 < ns.len() && heading_matches(ns[0], t));
            } else {
                let k = choose|k: int|
                    0 <= k < ns.drop_first().len() && #[trigger] heading_matches(
                        ns.drop_first()[k],
                        t,
                    );
                assert(ns.drop_first()[k] == ns[k + 1]);
                assert(heading_matches(ns[k + 1], t));
            }
        }
        if exists|k: int| 0 <= k < ns.len() && #[trigger] heading_matches(ns[k], t) {
            let k = choose|k: int| 0 <= k < ns.len() && #[trigger] heading_matches(ns[k], t);
            if k > 0 {
                assert(ns.drop_first()[k - 1] == ns[k]);
                assert(heading_matches(ns.drop_first()[k - 1], t));
            }
            assert(any_heading_matches(ns, t));
        }
    }
}

/// The cleaned form of a raw title against a document: the first matching
/// rule of separator, trailing dash, colon; otherwise the title unchanged.
pub open spec fn spec_clean_title(dom: Seq<NodeV>, title: Seq<char>) -> Seq<char> {
    match sep_find(title) {
        Some(m) => {
            let left = title.subrange(0, m.0);
            if word_count(left) < 3 {
                trim(title.subrange(m.1, title.len() as int))
            } else {
                trim(left)
            }
        },
        None => match dash_find(title) {
            Some(a) => {
                let trailing = title.subrange(a, title.len() as int);
                if word_count(trailing) <= 4 {
                    title.subrange(0, a)
                } else {
                    title
                }
            },
            None => {
                if find_sub(title, seq![':', ' ']) is Some {
                    if any_heading_matches(dom, title) {
                        title
                    } else {
                        let cur = match rfind_from(title, ':', title.len() as int) {
                            Some(p) => title.subrange(p + 1, title.len() as int),
                            None => title.subrange(0, title.len() as int),
                        };
                        if word_count(cur) < 3 {
                            let tail = match find_sub(title, seq![':']) {
                                Some(p) => title.subrange(p + 1, title.len() as int),
                                None => title.subrange(0, title.len() as int),
                            };
                            trim(tail)
                        } else {
                            let first = match find_sub(title, seq![':']) {
                                Some(p) => p,
                                None => 0,
                            };
                            if word_count(title.subrange(0, first)) > 5 {
                                title
                            } else {
                                trim(cur)
                            }
                        }
                    }
                } else {
                    title
                }
            },
        },
    }
}

/// Clean a raw title. The first matching rule wins: a separator keeps the
/// longer side; a short trailing dash segment is dropped; a colon keeps the
/// part after it unless a heading carries the whole title.
pub fn clean_title(roots: &Vec<Node>, title: String) -> (r: String)
    ensures
        r@ == spec_clean_title(nodes_view(roots@), title@),
{
    let tc = strutil::str_chars(title.as_str());
    let n = tc.len();
    match find_separator(&tc) {
        Some((a, b)) => {
            proof {
                lemma_sep_find_bounds(tc@, 0);
            }
            let left = strutil::sub_chars(&tc, 0, a);
            let cur = if strutil::count_words(&left) < 3 {
                strutil::sub_chars(&tc, b, n)
            } else {
                left
            };
            let t = strutil::trim_chars(&cur);
            strutil::chars_to_string(&t)
        },
        None => {
            match find_end_dash(&tc) {
                Some(a) => {
                    proof {
                        lemma_dash_find_bounds(tc@, 0);
                    }
                    let trailing = strutil::sub_chars(&tc, a, n);
                    if strutil::count_words(&trailing) <= 4 {
                        let kept = strutil::sub_chars(&tc, 0, a);
                        strutil::chars_to_string(&kept)
                    } else {
                        title
                    }
                },
                None => {
                    let mut pat: Vec<char> = Vec::new();
                    pat.push(':');
                    pat.push(' ');
                    proof {
                        assert(pat@ =~= seq![':', ' ']);
                    }
                    if strutil::find_in(&tc, &pat).is_some() {
                        if any_heading_exec(roots, &tc) {
                            return title;
                        }
                        proof {
                            lemma_rfind_bounds(tc@, ':', tc@.len() as int);
                            lemma_find_sub_bounds(tc@, seq![':'], 0);
                        }
                        let cur = match strutil::rfind_char(&tc, ':') {
                            Some(p) => strutil::sub_chars(&tc, p + 1, n),
                            None => strutil::sub_chars(&tc, 0, n),
                        };
                        let mut cpat: Vec<char> = Vec::new();
                        cpat.push(':');
                        proof {
                            assert(cpat@ =~= seq![':']);
                        }
                        if strutil::count_words(&cur) < 3 {
                            let tail = match strutil::find_in(&tc, &cpat) {
                                Some(p) => strutil::sub_chars(&tc, p + 1, n),
                                None => strutil::sub_chars(&tc, 0, n),
                            };
                            let t = strutil::trim_chars(&tail);
                            strutil::chars_to_string(&t)
                        } else {
                            let first = match strutil::find_in(&tc, &cpat) {
                                Some(p) => p,
                                None => 0,
                            };
                            let head = strutil::sub_chars(&tc, 0, first);
                            if strutil::count_words(&head) > 5 {
                                title
                            } else {
                                let t = strutil::trim_chars(&cur);
                                strutil::chars_to_string(&t)
                            }
                        }
                    } else {
                        title
                    }
                },
            }
        },
    }
}

pub proof fn lemma_sep_find_bounds(s: Seq<char>, i: int)
    requires
        0 <= i,
    ensures
        match sep_find_from(s, i) {
            Some(m) => i <= m.0 < m.1 <= s.len(),
            None => true,
        },
    decreases s.len() - i + 1,
{
    if i < s.len() {
        if sep_match_at(s, i) {
            strutil::lemma_skip_ws_bounds(s, i);
            let p = skip_ws(s, i);
            strutil::lemma_skip_ws_bounds(s, p + 1);
        } else {
            lemma_sep_find_bounds(s, i + 1);
        }
    }
}

pub proof fn lemma_dash_find_bounds(s: Seq<char>, i: int)
    requires
        0 <= i,
    ensures
        match dash_find_from(s, i) {
            Some(a) => i <= a < s.len(),
            None => true,
        },
    decreases s.len() - i + 1,
{
    if i < s.len() && !dash_match_at(s, i) {
        lemma_dash_find_bounds(s, i + 1);
    }
}

pub proof fn lemma_rfind_bounds(s: Seq<char>, c: char, i: int)
    requires
        i <= s.len(),
    ensures
        match rfind_from(s, c, i) {
            Some(p) => 0 <= p < i,
            None => true,
        },
    decreases i,
{
    if 0 < i <= s.len() && s[i - 1] != c {
        lemma_rfind_bounds(s, c, i - 1);
    }
}

pub proof fn lemma_find_sub_bounds(s: Seq<char>, pat: Seq<char>, i: int)
    requires
        0 <= i,
    ensures
        match strutil::find_from(s, pat, i) {
            Some(p) => i <= p && p + pat.len() <= s.len(),
            None => true,
        },
    decreases s.len() - i + 1,
{
    if i + pat.len() <= s.len() && !strutil::matches_at(s, pat, i) {
        lemma_find_sub_bounds(s, pat, i + 1);
    }
}

} // verus!
