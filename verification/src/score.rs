//! The scorer and selector: content-likelihood scores for block ancestors of
//! text-rich paragraphs, the running top-five candidate set, the alternative
//! (ancestor) candidate search, and the sibling appender. Scores are integers
//! in units of one one-hundred-eightieth of a point, so that halves, ninths,
//! twelfths and fifteenths stay exact; saturation replaces overflow.

#![verifier::loop_isolation(false)]

use vstd::prelude::*;
use crate::dom::Node;
use crate::dom::NodeV;
use crate::dom::attr_of;
use crate::dom::node_view;
use crate::dom::nodes_view;
use crate::dom::string_is;
use crate::dom::text_of;
use crate::preprocess::all_phrasing;
use crate::strutil;
use crate::strutil::find_sub;
use crate::strutil::normalize_ws;

verus! {

broadcast use vstd::std_specs::vec::group_vec_axioms;

/// Clamped to the `i64` range.
pub open spec fn clamp64(x: int) -> int {
    if x > i64::MAX {
        i64::MAX as int
    } else if x < i64::MIN {
        i64::MIN as int
    } else {
        x
    }
}

/// Division truncating toward zero, for a positive divisor.
pub open spec fn tdiv(a: int, b: int) -> int {
    if a >= 0 {
        a / b
    } else {
        -((-a) / b)
    }
}

fn sat_add64(a: i64, b: i64) -> (r: i64)
    ensures
        r as int == clamp64(a + b),
{
    let s: i128 = a as i128 + b as i128;
    if s > i64::MAX as i128 {
        i64::MAX
    } else if s < i64::MIN as i128 {
        i64::MIN
    } else {
        s as i64
    }
}

fn sat_mul64(a: i64, b: i64) -> (r: i64)
    ensures
        r as int == clamp64(a * b),
{
    proof {
        assert(-0x40000000000000000000000000000000 <= (a as int) * (b as int)
            <= 0x40000000000000000000000000000000) by (nonlinear_arith)
            requires
                -0x8000000000000000 <= a as int <= 0x7FFFFFFFFFFFFFFF,
                -0x8000000000000000 <= b as int <= 0x7FFFFFFFFFFFFFFF,
        ;
    }
    let s: i128 = a as i128 * b as i128;
    if s > i64::MAX as i128 {
        i64::MAX
    } else if s < i64::MIN as i128 {
        i64::MIN
    } else {
        s as i64
    }
}

fn abs_u128(x: i64) -> (r: u128)
    ensures
        r == (if x >= 0 {
            x as int
        } else {
            -(x as int)
        }),
{
    if x >= 0 {
        x as u128
    } else {
        (-(x as i128)) as u128
    }
}

/// `a * num / den`, truncated toward zero, clamped.
fn mul_div64(a: i64, num: i64, den: i64) -> (r: i64)
    requires
        den > 0,
    ensures
        r as int == clamp64(tdiv(a * num, den as int)),
{
    let neg = (a < 0) != (num < 0);
    let aa = abs_u128(a);
    let nn = abs_u128(num);
    proof {
        assert(aa * nn == (if a * num >= 0 {
            a * num
        } else {
            -(a * num)
        })) by (nonlinear_arith)
            requires
                aa == (if a >= 0 { a as int } else { -(a as int) }),
                nn == (if num >= 0 { num as int } else { -(num as int) }),
        ;
        assert(aa * nn <= 0xFFFFFFFFFFFFFFFFFFFFFFFFFFFFFFFFu128) by (nonlinear_arith)
            requires
                0 <= aa < 0x10000000000000000u128,
                0 <= nn < 0x10000000000000000u128,
        ;
    }
    let p: u128 = aa * nn;
    let q: u128 = p / (den as u128);
    proof {
        assert(neg ==> a * num <= 0) by (nonlinear_arith)
            requires
                neg == ((a < 0) != (num < 0)),
        ;
        assert(!neg ==> a * num >= 0) by (nonlinear_arith)
            requires
                neg == ((a < 0) != (num < 0)),
        ;
        assert(q as int == (p as int) / (den as int));
    }
    if neg {
        proof {
            assert(p as int == -((a as int) * (num as int)) || ((a as int) * (num as int) == 0 && p == 0));
            assert(tdiv((a as int) * (num as int), den as int) == -(q as int));
        }
        if q >= 0x8000000000000000u128 {
            i64::MIN
        } else {
            let qi = q as i64;
            -qi
        }
    } else {
        proof {
            assert(p as int == (a as int) * (num as int));
            assert(tdiv((a as int) * (num as int), den as int) == q as int);
        }
        if q > i64::MAX as u128 {
            i64::MAX
        } else {
            q as i64
        }
    }
}

/// Commas in a text.
pub open spec fn comma_count(s: Seq<char>) -> int
    decreases s.len(),
{
    if s.len() == 0 {
        0
    } else {
        (if s[0] == ',' {
            1int
        } else {
            0int
        }) + comma_count(s.drop_first())
    }
}

proof fn lemma_comma_nonneg(s: Seq<char>)
    ensures
        0 <= comma_count(s) <= s.len(),
    decreases s.len(),
{
    if s.len() > 0 {
        lemma_comma_nonneg(s.drop_first());
    }
}

pub fn comma_count_exec(s: &Vec<char>) -> (r: usize)
    ensures
        r == comma_count(s@),
{
    proof {
        assert(s@.skip(0) =~= s@);
    }
    let mut r: usize = 0;
    let mut i: usize = 0;
    while i < s.len()
        invariant
            0 <= i <= s@.len(),
            r <= i,
            comma_count(s@) == r + comma_count(s@.skip(i as int)),
        decreases s@.len() - i,
    {
        proof {
            assert(s@.skip(i as int)[0] == s@[i as int]);
            assert(s@.skip(i as int).drop_first() =~= s@.skip(i + 1));
            lemma_comma_nonneg(s@.skip(i + 1));
        }
        if s[i] == ',' {
            r += 1;
        }
        i += 1;
    }
    proof {
        assert(s@.skip(s@.len() as int) =~= Seq::<char>::empty());
    }
    r
}

/// The whitespace-normal text length of a subtree.
pub open spec fn text_len(n: NodeV) -> int {
    normalize_ws(text_of(n)).len() as int
}

/// The text length held by anchor descendants.
pub open spec fn link_len(n: NodeV) -> int
    decreases n,
{
    match n {
        NodeV::Elem { tag, children, .. } => {
            if tag == "a"@ {
                text_len(n)
            } else {
                link_len_list(children)
            }
        },
        _ => 0,
    }
}

pub open spec fn link_len_list(ns: Seq<NodeV>) -> int
    decreases ns,
{
    if ns.len() == 0 {
        0
    } else {
        link_len(ns[0]) + link_len_list(ns.drop_first())
    }
}

pub proof fn lemma_link_len_nonneg(n: NodeV)
    ensures
        link_len(n) >= 0,
    decreases n,
{
    match n {
        NodeV::Elem { tag, children, .. } => {
            if !(tag == "a"@) {
                lemma_link_len_list_nonneg(children);
            }
        },
        _ => {},
    }
}

pub proof fn lemma_link_len_list_nonneg(ns: Seq<NodeV>)
    ensures
        link_len_list(ns) >= 0,
    decreases ns,
{
    if ns.len() > 0 {
        lemma_link_len_nonneg(ns[0]);
        lemma_link_len_list_nonneg(ns.drop_first());
    }
}

pub fn text_len_exec(n: &Node) -> (r: usize)
    ensures
        r == text_len(n@),
{
    let t = crate::dom::extract_text(n, true);
    t.len()
}

pub fn link_len_exec(n: &Node) -> (r: i64)
    ensures
        r as int == clamp64(link_len(n@)),
    decreases *n,
{
    match n {
        Node::Elem { tag, children, .. } => {
            if string_is(tag, "a") {
                let t = crate::dom::extract_text(n, true);
                proof {
                    lemma_link_len_nonneg(n@);
                }
                if t.len() as u128 > i64::MAX as u128 {
                    i64::MAX
                } else {
                    t.len() as i64
                }
            } else {
                proof {
                    assert(*children == (*n)->Elem_children);
                    assert(decreases_to!(*n => (*n)->Elem_children));
                }
                link_len_list_exec(children)
            }
        },
        _ => 0,
    }
}

fn link_len_list_exec(ns: &Vec<Node>) -> (r: i64)
    ensures
        r as int == clamp64(link_len_list(nodes_view(ns@))),
    decreases *ns,
{
    proof {
        crate::dom::lemma_nodes_view_len(ns@);
        assert(nodes_view(ns@).skip(0) =~= nodes_view(ns@));
        lemma_link_len_list_nonneg(nodes_view(ns@));
    }
    let mut acc: i64 = 0;
    let mut i: usize = 0;
    while i < ns.len()
        invariant
            0 <= i <= ns@.len(),
            acc >= 0,
            clamp64(acc + link_len_list(nodes_view(ns@).skip(i as int))) == clamp64(
                link_len_list(nodes_view(ns@)),
            ),
        decreases ns@.len() - i,
    {
        proof {
            assert(decreases_to!(*ns => ns[i as int]));
            assert(nodes_view(ns@).skip(i as int)[0] == nodes_view(ns@)[i as int]);
            assert(nodes_view(ns@).skip(i as int).drop_first() =~= nodes_view(ns@).skip(i + 1));
            lemma_link_len_nonneg(nodes_view(ns@)[i as int]);
            lemma_link_len_list_nonneg(nodes_view(ns@).skip(i + 1));
        }
        let c = link_len_exec(&ns[i]);
        acc = sat_add64(acc, c);
        i += 1;
    }
    proof {
        assert(nodes_view(ns@).skip(ns@.len() as int) =~= Seq::<NodeV>::empty());
    }
    acc
}

/// The tag-dependent seed a fresh candidate starts from, in whole points.
pub open spec fn tag_seed(t: Seq<char>) -> int {
    if t == "div"@ {
        5
    } else if t == "section"@ || t == "article"@ || t == "blockquote"@ || t == "pre"@ || t
        == "td"@ {
        0
    } else if t == "form"@ || t == "ol"@ || t == "ul"@ || t == "dl"@ || t == "dd"@ || t == "dt"@
        || t == "li"@ || t == "address"@ {
        -3
    } else if t == "th"@ || t == "h1"@ || t == "h2"@ || t == "h3"@ || t == "h4"@ || t == "h5"@
        || t == "h6"@ {
        -5
    } else {
        0
    }
}

fn tag_seed_exec(t: &String) -> (r: i64)
    ensures
        r as int == tag_seed(t@),
        -5 <= r <= 5,
{
    if string_is(t, "div") {
        5
    } else if string_is(t, "section") || string_is(t, "article") || string_is(t, "blockquote")
        || string_is(t, "pre") || string_is(t, "td") {
        0
    } else if string_is(t, "form") || string_is(t, "ol") || string_is(t, "ul") || string_is(
        t,
        "dl",
    ) || string_is(t, "dd") || string_is(t, "dt") || string_is(t, "li") || string_is(
        t,
        "address",
    ) {
        -3
    } else if string_is(t, "th") || string_is(t, "h1") || string_is(t, "h2") || string_is(t, "h3")
        || string_is(t, "h4") || string_is(t, "h5") || string_is(t, "h6") {
        -5
    } else {
        0
    }
}

/// A hint that a class or id marks boilerplate.
pub open spec fn negative_hint(s: Seq<char>) -> bool {
    find_sub(s, "combx"@) is Some || find_sub(s, "comment"@) is Some || find_sub(
        s,
        "community"@,
    ) is Some || find_sub(s, "disqus"@) is Some || find_sub(s, "extra"@) is Some || find_sub(
        s,
        "foot"@,
    ) is Some || find_sub(s, "header"@) is Some || find_sub(s, "menu"@) is Some || find_sub(
        s,
        "remark"@,
    ) is Some || find_sub(s, "rss"@) is Some || find_sub(s, "shoutbox"@) is Some || find_sub(
        s,
        "sidebar"@,
    ) is Some || find_sub(s, "sponsor"@) is Some || find_sub(s, "pagination"@) is Some
        || find_sub(s, "pager"@) is Some || find_sub(s, "popup"@) is Some || find_sub(
        s,
        "promo"@,
    ) is Some
}

/// A hint that a class or id marks the article body.
pub open spec fn positive_hint(s: Seq<char>) -> bool {
    find_sub(s, "article"@) is Some || find_sub(s, "body"@) is Some || find_sub(
        s,
        "content"@,
    ) is Some || find_sub(s, "entry"@) is Some || find_sub(s, "hentry"@) is Some || find_sub(
        s,
        "main"@,
    ) is Some || find_sub(s, "page"@) is Some || find_sub(s, "post"@) is Some || find_sub(
        s,
        "text"@,
    ) is Some || find_sub(s, "blog"@) is Some || find_sub(s, "story"@) is Some
}

/// The class/id weight of one attribute value, in whole points.
pub open spec fn hint_weight(s: Seq<char>) -> int {
    (if negative_hint(s) {
        -25int
    } else {
        0int
    }) + (if positive_hint(s) {
        25int
    } else {
        0int
    })
}

/// The class/id weight of an element's attributes, in whole points.
pub open spec fn class_weight(attrs: Seq<(Seq<char>, Seq<char>)>) -> int {
    (match attr_of(attrs, "class"@) {
        Some(c) => hint_weight(c),
        None => 0,
    }) + (match attr_of(attrs, "id"@) {
        Some(c) => hint_weight(c),
        None => 0,
    })
}

fn has_sub(s: &Vec<char>, lit: &str) -> (r: bool)
    ensures
        r == (find_sub(s@, lit@) is Some),
{
    let pat = strutil::str_chars(lit);
    strutil::find_in(s, &pat).is_some()
}

fn hint_weight_exec(s: &String) -> (r: i64)
    ensures
        r as int == hint_weight(s@),
        -25 <= r <= 25,
{
    let cs = strutil::str_chars(s.as_str());
    let neg = has_sub(&cs, "combx") || has_sub(&cs, "comment") || has_sub(&cs, "community")
        || has_sub(&cs, "disqus") || has_sub(&cs, "extra") || has_sub(&cs, "foot") || has_sub(
        &cs,
        "header",
    ) || has_sub(&cs, "menu") || has_sub(&cs, "remark") || has_sub(&cs, "rss") || has_sub(
        &cs,
        "shoutbox",
    ) || has_sub(&cs, "sidebar") || has_sub(&cs, "sponsor") || has_sub(&cs, "pagination")
        || has_sub(&cs, "pager") || has_sub(&cs, "popup") || has_sub(&cs, "promo");
    let pos = has_sub(&cs, "article") || has_sub(&cs, "body") || has_sub(&cs, "content")
        || has_sub(&cs, "entry") || has_sub(&cs, "hentry") || has_sub(&cs, "main") || has_sub(
        &cs,
        "page",
    ) || has_sub(&cs, "post") || has_sub(&cs, "text") || has_sub(&cs, "blog") || has_sub(
        &cs,
        "story",
    );
    (if neg {
        -25
    } else {
        0
    }) + (if pos {
        25
    } else {
        0
    })
}

pub fn class_weight_exec(attrs: &Vec<(String, String)>) -> (r: i64)
    ensures
        r as int == class_weight(crate::dom::attrs_view(attrs@)),
        -50 <= r <= 50,
{
    let a = match crate::dom::get_attr(attrs, "class") {
        Some(c) => hint_weight_exec(c),
        None => 0,
    };
    let b = match crate::dom::get_attr(attrs, "id") {
        Some(c) => hint_weight_exec(c),
        None => 0,
    };
    a + b
}

/// The element kinds whose text feeds scores to their ancestors.
pub open spec fn scorable(n: NodeV) -> bool {
    match n {
        NodeV::Elem { tag, children, .. } => tag == "p"@ || tag == "pre"@ || tag == "td"@ || (tag
            == "div"@ && all_phrasing(children)),
        _ => false,
    }
}

/// The paragraph's base score, in whole points, clamped.
pub open spec fn base_of(n: NodeV) -> int {
    clamp64(
        1 + comma_count(normalize_ws(text_of(n))) + (if text_len(n) / 100 < 3 {
            text_len(n) / 100
        } else {
            3
        }),
    )
}

/// Scaled contributions a paragraph sends one to five levels up.
pub open spec fn para_pend(n: NodeV) -> (int, int, int, int, int) {
    let b = base_of(n);
    (clamp64(b * 180), clamp64(b * 90), clamp64(b * 20), clamp64(b * 15), clamp64(b * 12))
}

pub open spec fn pend_add(a: (int, int, int, int, int), b: (int, int, int, int, int)) -> (
    int,
    int,
    int,
    int,
    int,
) {
    (
        clamp64(a.0 + b.0),
        clamp64(a.1 + b.1),
        clamp64(a.2 + b.2),
        clamp64(a.3 + b.3),
        clamp64(a.4 + b.4),
    )
}

pub open spec fn pend_zero() -> (int, int, int, int, int) {
    (0int, 0int, 0int, 0int, 0int)
}

/// The views of a candidate list: path and score of each.
pub open spec fn cands_view(cs: Seq<(Vec<usize>, i64)>) -> Seq<(Seq<usize>, int)> {
    cs.map_values(|c: (Vec<usize>, i64)| (c.0@, c.1 as int))
}

/// The final score of a candidate element: seed, class weight and received
/// contributions, damped by the link density of its subtree.
pub open spec fn candidate_score(n: NodeV, recv: int) -> int {
    let raw = clamp64(tag_seed(n->Elem_tag) * 180 + class_weight(n->Elem_attrs) * 180 + recv);
    let total = clamp64(text_len(n));
    let link = clamp64(link_len(n));
    if total == 0 {
        raw
    } else {
        clamp64(tdiv(raw * (total - link), total))
    }
}

/// Walk one node: the contributions it sends upward, and the candidates in
/// its subtree, in document order (the node before its descendants).
pub open spec fn spec_score_node(n: NodeV, path: Seq<usize>) -> (
    (int, int, int, int, int),
    Seq<(Seq<usize>, int)>,
)
    decreases n, 0int,
{
    match n {
        NodeV::Elem { tag, attrs, children } => {
            let sub = spec_score_list(children, path, 0);
            let recv = sub.0.0;
            let shifted = (sub.0.1, sub.0.2, sub.0.3, sub.0.4, 0int);
            let own = if scorable(n) && text_len(n) >= 25 {
                para_pend(n)
            } else {
                pend_zero()
            };
            let pend = pend_add(shifted, own);
            let cands = if recv > 0 {
                seq![(path, candidate_score(n, recv))] + sub.1
            } else {
                sub.1
            };
            (pend, cands)
        },
        _ => (pend_zero(), Seq::empty()),
    }
}

pub open spec fn spec_score_list(ns: Seq<NodeV>, path: Seq<usize>, i: int) -> (
    (int, int, int, int, int),
    Seq<(Seq<usize>, int)>,
)
    decreases ns, ns.len() - i,
{
    if i < 0 || i >= ns.len() {
        (pend_zero(), Seq::empty())
    } else {
        let head = spec_score_node(ns[i], path.push(i as usize));
        let rest = spec_score_list(ns, path, i + 1);
        (pend_add(head.0, rest.0), head.1 + rest.1)
    }
}

proof fn lemma_cands_concat(a: Seq<(Vec<usize>, i64)>, b: Seq<(Vec<usize>, i64)>)
    ensures
        cands_view(a + b) == cands_view(a) + cands_view(b),
{
    assert(cands_view(a + b) =~= cands_view(a) + cands_view(b)) by {
        assert forall|i: int| 0 <= i < a.len() + b.len() implies cands_view(a + b)[i] == (
        cands_view(a) + cands_view(b))[i] by {
            if i < a.len() {
                assert((a + b)[i] == a[i]);
            } else {
                assert((a + b)[i] == b[i - a.len()]);
            }
        }
    }
}

/// Move every entry of `src` onto the end of `dst`, keeping order.
fn move_cands(dst: &mut Vec<(Vec<usize>, i64)>, src: Vec<(Vec<usize>, i64)>)
    ensures
        cands_view(final(dst)@) == cands_view(old(dst)@) + cands_view(src@),
{
    let ghost dst0 = cands_view(dst@);
    let ghost src0 = cands_view(src@);
    let mut src = src;
    while src.len() > 0
        invariant
            cands_view(dst@) + cands_view(src@) =~= dst0 + src0,
        decreases src@.len(),
    {
        let ghost dprev = dst@;
        let ghost sprev = src@;
        let item = src.remove(0);
        dst.push(item);
        proof {
            assert(src@ =~= sprev.drop_first());
            assert(dst@ =~= dprev.push(sprev[0]));
            assert(cands_view(dst@) + cands_view(src@) =~= cands_view(dprev) + cands_view(sprev))
                by {
                assert forall|i: int|
                    0 <= i < cands_view(dprev).len() + cands_view(sprev).len() implies (
                cands_view(dst@) + cands_view(src@))[i] == (cands_view(dprev) + cands_view(
                    sprev,
                ))[i] by {
                    if i < dprev.len() {
                        assert(dst@[i] == dprev[i]);
                    } else if i == dprev.len() {
                        assert(dst@[i] == sprev[0]);
                    } else {
                        assert(src@[i - dprev.len() - 1] == sprev[i - dprev.len()]);
                    }
                }
            }
        }
    }
    proof {
        assert(cands_view(src@) =~= Seq::<(Seq<usize>, int)>::empty());
        assert(cands_view(dst@) =~= dst0 + src0);
    }
}

fn score_node_exec(n: &Node, path: Vec<usize>) -> (r: (
    (i64, i64, i64, i64, i64),
    Vec<(Vec<usize>, i64)>,
))
    ensures
        ({
            let out = spec_score_node(n@, path@);
            (r.0.0 as int, r.0.1 as int, r.0.2 as int, r.0.3 as int, r.0.4 as int) == out.0
                && cands_view(r.1@) == out.1
        }),
    decreases *n, 0int,
{
    match n {
        Node::Elem { tag, attrs, children } => {
            proof {
                assert(*children == (*n)->Elem_children);
                assert(decreases_to!(*n => (*n)->Elem_children));
            }
            let sub = score_list_exec(children, &path);
            let pend_sub = sub.0;
            let mut sub_cands = sub.1;
            let recv = pend_sub.0;
            let shifted = (pend_sub.1, pend_sub.2, pend_sub.3, pend_sub.4, 0i64);
            let kind_ok = string_is(tag, "p") || string_is(tag, "pre") || string_is(tag, "td") || (
            string_is(tag, "div") && crate::preprocess::all_phrasing_exec(children));
            let tl = text_len_exec(n);
            let own: (i64, i64, i64, i64, i64) = if kind_ok && tl >= 25 {
                let t = crate::dom::extract_text(n, true);
                let commas = comma_count_exec(&t);
                proof {
                    lemma_comma_nonneg(t@);
                }
                let extra: i64 = if tl / 100 < 3 {
                    (tl / 100) as i64
                } else {
                    3
                };
                let cap: i64 = if commas as u128 > (i64::MAX - 1) as u128 {
                    i64::MAX - 1
                } else {
                    commas as i64
                };
                let b = sat_add64(sat_add64(1, cap), extra);
                proof {
                    assert(b as int == base_of(n@));
                }
                (
                    sat_mul64(b, 180),
                    sat_mul64(b, 90),
                    sat_mul64(b, 20),
                    sat_mul64(b, 15),
                    sat_mul64(b, 12),
                )
            } else {
                (0, 0, 0, 0, 0)
            };
            proof {
                if kind_ok && tl >= 25 {
                    assert((own.0 as int, own.1 as int, own.2 as int, own.3 as int, own.4 as int)
                        == para_pend(n@));
                }
            }
            let pend = (
                sat_add64(shifted.0, own.0),
                sat_add64(shifted.1, own.1),
                sat_add64(shifted.2, own.2),
                sat_add64(shifted.3, own.3),
                sat_add64(shifted.4, own.4),
            );
            if recv > 0 {
                let seed = tag_seed_exec(tag);
                let cw = class_weight_exec(attrs);
                let raw = sat_add64(sat_add64(sat_mul64(seed, 180), sat_mul64(cw, 180)), recv);
                let link = link_len_exec(n);
                let fscore: i64 = if tl == 0 {
                    raw
                } else {
                    let total64: i64 = if tl as u128 > i64::MAX as u128 {
                        i64::MAX
                    } else {
                        tl as i64
                    };
                    proof {
                        lemma_link_len_nonneg(n@);
                    }
                    mul_div64(raw, sat_add64(total64, sat_mul64(link, -1)), total64)
                };
                proof {
                    assert(fscore as int == candidate_score(n@, recv as int));
                }
                let mut out: Vec<(Vec<usize>, i64)> = Vec::new();
                let ghost path_v = path@;
                out.push((path, fscore));
                proof {
                    assert(cands_view(out@) =~= seq![(path_v, fscore as int)]);
                }
                move_cands(&mut out, sub_cands);
                proof {
                    assert(cands_view(out@) =~= spec_score_node(n@, path_v).1);
                }
                (pend, out)
            } else {
                proof {
                    assert(cands_view(sub_cands@) == spec_score_node(n@, path@).1);
                }
                (pend, sub_cands)
            }
        },
        _ => {
            let empty: Vec<(Vec<usize>, i64)> = Vec::new();
            proof {
                assert(cands_view(empty@) =~= Seq::<(Seq<usize>, int)>::empty());
            }
            ((0, 0, 0, 0, 0), empty)
        },
    }
}

fn score_list_exec(ns: &Vec<Node>, path: &Vec<usize>) -> (r: (
    (i64, i64, i64, i64, i64),
    Vec<(Vec<usize>, i64)>,
))
    ensures
        ({
            let out = spec_score_list(nodes_view(ns@), path@, 0);
            (r.0.0 as int, r.0.1 as int, r.0.2 as int, r.0.3 as int, r.0.4 as int) == out.0
                && cands_view(r.1@) == out.1
        }),
    decreases *ns, 1int,
{
    proof {
        crate::dom::lemma_nodes_view_len(ns@);
    }
    let mut pend: (i64, i64, i64, i64, i64) = (0, 0, 0, 0, 0);
    let mut cands: Vec<(Vec<usize>, i64)> = Vec::new();
    proof {
        assert(cands_view(cands@) =~= Seq::<(Seq<usize>, int)>::empty());
    }
    let mut i: usize = ns.len();
    // walk from the back so the accumulator matches the tail recursion
    while i > 0
        invariant
            0 <= i <= ns@.len(),
            ({
                let out = spec_score_list(nodes_view(ns@), path@, i as int);
                (pend.0 as int, pend.1 as int, pend.2 as int, pend.3 as int, pend.4 as int)
                    == out.0 && cands_view(cands@) == out.1
            }),
        decreases i,
    {
        i -= 1;
        proof {
            assert(decreases_to!(*ns => ns[i as int]));
        }
        let mut child_path: Vec<usize> = Vec::new();
        let mut k: usize = 0;
        while k < path.len()
            invariant
                0 <= k <= path@.len(),
                child_path@ == path@.subrange(0, k as int),
            decreases path@.len() - k,
        {
            child_path.push(path[k]);
            proof {
                assert(child_path@ =~= path@.subrange(0, k + 1));
            }
            k += 1;
        }
        proof {
            assert(child_path@ =~= path@);
        }
        child_path.push(i);
        proof {
            assert(child_path@ =~= path@.push(i as usize));
        }
        let head = score_node_exec(&ns[i], child_path);
        let head_pend = head.0;
        let mut head_cands = head.1;
        pend = (
            sat_add64(head_pend.0, pend.0),
            sat_add64(head_pend.1, pend.1),
            sat_add64(head_pend.2, pend.2),
            sat_add64(head_pend.3, pend.3),
            sat_add64(head_pend.4, pend.4),
        );
        move_cands(&mut head_cands, cands);
        cands = head_cands;
        proof {
            assert(nodes_view(ns@)[i as int] == node_view(ns@[i as int]));
        }
    }
    (pend, cands)
}

/// Score the preprocessed document: every element that received a
/// contribution from a text-rich paragraph within five levels below becomes a
/// candidate, listed in document order with its damped score.
pub fn find_candidates(roots: &Vec<Node>) -> (r: Vec<(Vec<usize>, i64)>)
    ensures
        cands_view(r@) == spec_score_list(nodes_view(roots@), Seq::<usize>::empty(), 0).1,
{
    let empty_path: Vec<usize> = Vec::new();
    proof {
        assert(empty_path@ =~= Seq::<usize>::empty());
    }
    let out = score_list_exec(roots, &empty_path);
    out.1
}

} // verus!
