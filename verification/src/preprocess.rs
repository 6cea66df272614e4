//! The preprocessor: strip non-content nodes and rewrite structural shapes.
//! Scripts, styles, stylesheet links and comments are removed; a `<noscript>`
//! holding a single image replaces itself (and a duplicate image just before
//! it); a `<div>` holding one `<p>` becomes that `<p>`; a phrasing-only
//! `<div>` becomes a `<p>`; a run of two or more `<br>` starts a new `<p>`.

#![verifier::loop_isolation(false)]

use vstd::prelude::*;
use crate::dom::Node;
use crate::dom::NodeV;
use crate::dom::attr_of;
use crate::dom::attrs_view;
use crate::dom::get_attr;
use crate::dom::node_view;
use crate::dom::nodes_view;
use crate::dom::string_is;
use crate::strutil;
use crate::strutil::is_space;

verus! {

broadcast use vstd::std_specs::vec::group_vec_axioms;

/// Every character is whitespace.
pub open spec fn ws_only(s: Seq<char>) -> bool {
    forall|k: int| 0 <= k < s.len() ==> is_space(s[k])
}

/// A whitespace-only text node.
pub open spec fn is_ws_text(n: NodeV) -> bool {
    n is Text && ws_only(n->Text_0)
}

pub open spec fn is_br(n: NodeV) -> bool {
    n is Elem && n->Elem_tag == "br"@
}

pub open spec fn is_img(n: NodeV) -> bool {
    n is Elem && n->Elem_tag == "img"@
}

/// Tags that hold phrasing (inline) content.
pub open spec fn phrasing_tag(t: Seq<char>) -> bool {
    t == "a"@ || t == "span"@ || t == "b"@ || t == "i"@ || t == "em"@ || t == "strong"@
        || t == "u"@ || t == "s"@ || t == "small"@ || t == "sub"@ || t == "sup"@ || t == "code"@
        || t == "abbr"@ || t == "cite"@ || t == "q"@ || t == "time"@ || t == "var"@ || t == "kbd"@
        || t == "mark"@ || t == "br"@ || t == "img"@ || t == "wbr"@ || t == "picture"@ || t
        == "label"@
}

/// A node is phrasing content: text, or an inline element whose descendants
/// are phrasing.
pub open spec fn is_phrasing(n: NodeV) -> bool
    decreases n,
{
    match n {
        NodeV::Text(_) => true,
        NodeV::Comment(_) => false,
        NodeV::Elem { tag, children, .. } => phrasing_tag(tag) && all_phrasing(children),
    }
}

pub open spec fn all_phrasing(ns: Seq<NodeV>) -> bool
    decreases ns,
{
    if ns.len() == 0 {
        true
    } else {
        is_phrasing(ns[0]) && all_phrasing(ns.drop_first())
    }
}

/// An image element carrying these attributes and nothing inside.
pub open spec fn img_of(attrs: Seq<(Seq<char>, Seq<char>)>) -> NodeV {
    NodeV::Elem { tag: "img"@, attrs, children: Seq::empty() }
}

/// Search a `<noscript>`'s content for its single image, looking through
/// span, picture and figure wrappers; more than one image, or any other
/// content, yields nothing.
pub open spec fn scan_img_node(n: NodeV, acc: Option<NodeV>) -> Option<Option<NodeV>>
    decreases n,
{
    match n {
        NodeV::Text(s) => if ws_only(s) {
            Some(acc)
        } else {
            None
        },
        NodeV::Comment(_) => Some(acc),
        NodeV::Elem { tag, attrs, children } => {
            if tag == "img"@ {
                if acc is Some {
                    None
                } else {
                    Some(Some(img_of(attrs)))
                }
            } else if tag == "span"@ || tag == "picture"@ || tag == "figure"@ {
                scan_img_list(children, acc)
            } else {
                None
            }
        },
    }
}

pub open spec fn scan_img_list(ns: Seq<NodeV>, acc: Option<NodeV>) -> Option<Option<NodeV>>
    decreases ns,
{
    if ns.len() == 0 {
        Some(acc)
    } else {
        match scan_img_node(ns[0], acc) {
            None => None,
            Some(acc2) => scan_img_list(ns.drop_first(), acc2),
        }
    }
}

/// The index of the last node before `i` that is not whitespace-only text.
pub open spec fn prev_solid(out: Seq<NodeV>, i: int) -> Option<int>
    decreases i,
{
    if i <= 0 || i > out.len() {
        None
    } else if is_ws_text(out[i - 1]) {
        prev_solid(out, i - 1)
    } else {
        Some(i - 1)
    }
}

/// Two images share a `src`.
pub open spec fn same_src(a: NodeV, b: NodeV) -> bool {
    is_img(a) && is_img(b) && attr_of(a->Elem_attrs, "src"@) == attr_of(b->Elem_attrs, "src"@)
}

/// Push the image a `<noscript>` yielded, deleting a duplicate image sibling
/// just before it.
pub open spec fn push_dedup(out: Seq<NodeV>, img: NodeV) -> Seq<NodeV> {
    match prev_solid(out, out.len() as int) {
        Some(j) => if same_src(out[j], img) {
            out.remove(j).push(img)
        } else {
            out.push(img)
        },
        None => out.push(img),
    }
}

/// First pass over a sibling list: comments, scripts, styles and stylesheet
/// links dropped, noscript images unwrapped, other elements preprocessed in
/// full, appended to `out` in order.
pub open spec fn strip_node(n: NodeV, out: Seq<NodeV>) -> Seq<NodeV>
    decreases n, 2int,
{
    match n {
        NodeV::Comment(_) => out,
        NodeV::Text(_) => out.push(n),
        NodeV::Elem { tag, attrs, children } => {
            if tag == "script"@ || tag == "style"@ {
                out
            } else if tag == "link"@ && attr_of(attrs, "rel"@) == Some("stylesheet"@) {
                out
            } else if tag == "noscript"@ {
                match scan_img_list(children, None) {
                    Some(Some(img)) => push_dedup(out, img),
                    _ => out,
                }
            } else {
                out.push(NodeV::Elem { tag, attrs, children: pre_list(children) })
            }
        },
    }
}

pub open spec fn strip_list(ns: Seq<NodeV>, out: Seq<NodeV>) -> Seq<NodeV>
    decreases ns, 0int,
{
    if ns.len() == 0 {
        out
    } else {
        strip_list(ns.drop_first(), strip_node(ns[0], out))
    }
}

/// The full preprocessing of a sibling list: strip, then div rewrites, then
/// br-chain paragraphs.
pub open spec fn pre_list(ns: Seq<NodeV>) -> Seq<NodeV>
    decreases ns, 1int,
{
    br_pass(div_pass(strip_list(ns, Seq::empty())), Seq::empty(), None)
}

/// A `<div>` whose only element child is one `<p>` (whitespace text aside).
pub open spec fn scan_p(ns: Seq<NodeV>, acc: Option<NodeV>) -> Option<Option<NodeV>>
    decreases ns,
{
    if ns.len() == 0 {
        Some(acc)
    } else {
        let n = ns[0];
        if is_ws_text(n) {
            scan_p(ns.drop_first(), acc)
        } else if n is Elem && n->Elem_tag == "p"@ && acc is None {
            scan_p(ns.drop_first(), Some(n))
        } else {
            None
        }
    }
}

/// Trailing `<br>` elements and whitespace text removed.
pub open spec fn drop_tail_brs(ns: Seq<NodeV>) -> Seq<NodeV>
    decreases ns.len(),
{
    if ns.len() > 0 && (is_ws_text(ns.last()) || is_br(ns.last())) {
        drop_tail_brs(ns.drop_last())
    } else {
        ns
    }
}

/// Rewrite one already-preprocessed node: a div with a single `<p>` becomes
/// that `<p>`; a phrasing-only div becomes a `<p>` without its trailing
/// `<br>` run; anything else stays.
pub open spec fn div_rewrite(n: NodeV) -> NodeV {
    match n {
        NodeV::Elem { tag, attrs, children } => {
            if tag == "div"@ {
                match scan_p(children, None) {
                    Some(Some(p)) => p,
                    _ => {
                        if all_phrasing(children) {
                            NodeV::Elem { tag: "p"@, attrs, children: drop_tail_brs(children) }
                        } else {
                            n
                        }
                    },
                }
            } else {
                n
            }
        },
        _ => n,
    }
}

pub open spec fn div_pass(ns: Seq<NodeV>) -> Seq<NodeV>
    decreases ns.len(),
{
    if ns.len() == 0 {
        Seq::empty()
    } else {
        seq![div_rewrite(ns[0])] + div_pass(ns.drop_first())
    }
}

/// Leading whitespace-only text nodes dropped.
pub open spec fn ws_drop(ns: Seq<NodeV>) -> Seq<NodeV>
    decreases ns.len(),
{
    if ns.len() > 0 && is_ws_text(ns[0]) {
        ws_drop(ns.drop_first())
    } else {
        ns
    }
}

/// A `<br>` run of two or more starts here.
pub open spec fn chain_at(ns: Seq<NodeV>) -> bool {
    ns.len() > 0 && is_br(ns[0]) && {
        let rest = ws_drop(ns.drop_first());
        rest.len() > 0 && is_br(rest[0])
    }
}

/// What remains after the whole `<br>` run (whitespace between the breaks
/// included) is dropped.
pub open spec fn chain_rest(ns: Seq<NodeV>) -> Seq<NodeV>
    decreases ns.len(),
    via chain_rest_dec
{
    if ns.len() == 0 {
        ns
    } else {
        let r1 = ns.drop_first();
        let r2 = ws_drop(r1);
        if r2.len() > 0 && is_br(r2[0]) {
            chain_rest(r2)
        } else {
            r1
        }
    }
}

#[via_fn]
proof fn chain_rest_dec(ns: Seq<NodeV>) {
    if ns.len() > 0 {
        lemma_ws_drop_len(ns.drop_first());
    }
}

/// Some collected node is more than whitespace.
pub open spec fn has_solid(ns: Seq<NodeV>) -> bool {
    exists|k: int| 0 <= k < ns.len() && !is_ws_text(ns[k])
}

/// Close an open paragraph: whitespace alone is dropped, anything more
/// becomes a `<p>`.
pub open spec fn close_para(out: Seq<NodeV>, para: Option<Seq<NodeV>>) -> Seq<NodeV> {
    match para {
        None => out,
        Some(p) => if !has_solid(p) {
            out
        } else {
            out.push(NodeV::Elem { tag: "p"@, attrs: Seq::empty(), children: p })
        },
    }
}

/// The `<br>`-chain pass: a run of two or more breaks is removed and the
/// phrasing content after it, up to the next run or block element, becomes a
/// new `<p>`.
pub open spec fn br_pass(ns: Seq<NodeV>, out: Seq<NodeV>, para: Option<Seq<NodeV>>) -> Seq<NodeV>
    decreases ns.len(),
    via br_pass_dec
{
    if ns.len() == 0 {
        close_para(out, para)
    } else if chain_at(ns) {
        br_pass(chain_rest(ns), close_para(out, para), Some(Seq::empty()))
    } else {
        let n = ns[0];
        match para {
            None => br_pass(ns.drop_first(), out.push(n), None),
            Some(p) => {
                if is_phrasing(n) {
                    br_pass(ns.drop_first(), out, Some(p.push(n)))
                } else {
                    br_pass(ns.drop_first(), close_para(out, Some(p)).push(n), None)
                }
            },
        }
    }
}

#[via_fn]
proof fn br_pass_dec(ns: Seq<NodeV>, out: Seq<NodeV>, para: Option<Seq<NodeV>>) {
    if ns.len() > 0 && chain_at(ns) {
        lemma_chain_rest_len(ns);
    }
}

/// Dropping trailing breaks and whitespace settles in one pass: a second
/// pass changes nothing.
pub proof fn lemma_drop_tail_brs_idempotent(ns: Seq<NodeV>)
    ensures
        drop_tail_brs(drop_tail_brs(ns)) == drop_tail_brs(ns),
    decreases ns.len(),
{
    if ns.len() > 0 && (is_ws_text(ns.last()) || is_br(ns.last())) {
        lemma_drop_tail_brs_idempotent(ns.drop_last());
    }
}

/// Dropping leading whitespace settles in one pass: a second pass changes
/// nothing.
pub proof fn lemma_ws_drop_idempotent(ns: Seq<NodeV>)
    ensures
        ws_drop(ws_drop(ns)) == ws_drop(ns),
    decreases ns.len(),
{
    if ns.len() > 0 && is_ws_text(ns[0]) {
        lemma_ws_drop_idempotent(ns.drop_first());
    }
}

pub proof fn lemma_ws_drop_len(ns: Seq<NodeV>)
    ensures
        ws_drop(ns).len() <= ns.len(),
    decreases ns.len(),
{
    if ns.len() > 0 && is_ws_text(ns[0]) {
        lemma_ws_drop_len(ns.drop_first());
    }
}

pub proof fn lemma_chain_rest_len(ns: Seq<NodeV>)
    requires
        ns.len() > 0,
    ensures
        chain_rest(ns).len() < ns.len(),
    decreases ns.len(),
{
    let r1 = ns.drop_first();
    let r2 = ws_drop(r1);
    lemma_ws_drop_len(r1);
    if r2.len() > 0 && is_br(r2[0]) {
        lemma_chain_rest_len(r2);
    }
}

/// The views of an optional collected node.
pub open spec fn opt_node_view(o: Option<Node>) -> Option<NodeV> {
    match o {
        Some(n) => Some(n@),
        None => None,
    }
}

pub proof fn lemma_nodes_view_drop_first(ns: Seq<Node>)
    requires
        ns.len() > 0,
    ensures
        nodes_view(ns.drop_first()) == nodes_view(ns).drop_first(),
        nodes_view(ns)[0] == node_view(ns[0]),
{
    crate::dom::lemma_nodes_view_len(ns);
    crate::dom::lemma_nodes_view_len(ns.drop_first());
    assert forall|i: int| 0 <= i < nodes_view(ns.drop_first()).len() implies nodes_view(
        ns.drop_first(),
    )[i] == nodes_view(ns).drop_first()[i] by {
        assert(ns.drop_first()[i] == ns[i + 1]);
    }
    assert(nodes_view(ns.drop_first()) =~= nodes_view(ns).drop_first());
}

pub fn is_ws_text_exec(n: &Node) -> (r: bool)
    ensures
        r == is_ws_text(n@),
{
    match n {
        Node::Text(s) => {
            let cs = strutil::str_chars(s.as_str());
            let mut i: usize = 0;
            while i < cs.len()
                invariant
                    cs@ == s@,
                    0 <= i <= cs@.len(),
                    forall|k: int| 0 <= k < i ==> is_space(s@[k]),
                decreases cs@.len() - i,
            {
                if !strutil::is_space_ch(cs[i]) {
                    proof {
                        assert(!is_space(s@[i as int]));
                        assert(n@ == NodeV::Text(s@));
                        assert(!ws_only(s@));
                    }
                    return false;
                }
                i += 1;
            }
            proof {
                assert(n@ == NodeV::Text(s@));
                assert(ws_only(s@));
            }
            true
        },
        _ => false,
    }
}

fn is_br_exec(n: &Node) -> (r: bool)
    ensures
        r == is_br(n@),
{
    crate::dom::elem_has_tag(n, "br")
}

fn is_phrasing_exec(n: &Node) -> (r: bool)
    ensures
        r == is_phrasing(n@),
    decreases *n,
{
    match n {
        Node::Text(_) => true,
        Node::Comment(_) => false,
        Node::Elem { tag, children, .. } => {
            let ok = string_is(tag, "a") || string_is(tag, "span") || string_is(tag, "b")
                || string_is(tag, "i") || string_is(tag, "em") || string_is(tag, "strong")
                || string_is(tag, "u") || string_is(tag, "s") || string_is(tag, "small")
                || string_is(tag, "sub") || string_is(tag, "sup") || string_is(tag, "code")
                || string_is(tag, "abbr") || string_is(tag, "cite") || string_is(tag, "q")
                || string_is(tag, "time") || string_is(tag, "var") || string_is(tag, "kbd")
                || string_is(tag, "mark") || string_is(tag, "br") || string_is(tag, "img")
                || string_is(tag, "wbr") || string_is(tag, "picture") || string_is(tag, "label");
            if !ok {
                return false;
            }
            proof {
                assert(*children == (*n)->Elem_children);
                assert(decreases_to!(*n => (*n)->Elem_children));
            }
            all_phrasing_exec(children)
        },
    }
}

pub fn all_phrasing_exec(ns: &Vec<Node>) -> (r: bool)
    ensures
        r == all_phrasing(nodes_view(ns@)),
    decreases *ns,
{
    proof {
        crate::dom::lemma_nodes_view_len(ns@);
        assert(nodes_view(ns@).skip(0) =~= nodes_view(ns@));
    }
    let mut i: usize = 0;
    while i < ns.len()
        invariant
            0 <= i <= ns@.len(),
            nodes_view(ns@).len() == ns@.len(),
            forall|k: int| 0 <= k < ns@.len() ==> #[trigger] nodes_view(ns@)[k] == node_view(
                ns@[k],
            ),
            all_phrasing(nodes_view(ns@)) == all_phrasing(nodes_view(ns@).skip(i as int)),
        decreases ns@.len() - i,
    {
        proof {
            assert(decreases_to!(*ns => ns[i as int]));
            assert(nodes_view(ns@).skip(i as int)[0] == nodes_view(ns@)[i as int]);
            assert(nodes_view(ns@).skip(i as int).drop_first() =~= nodes_view(ns@).skip(i + 1));
        }
        if !is_phrasing_exec(&ns[i]) {
            return false;
        }
        i += 1;
    }
    proof {
        assert(nodes_view(ns@).skip(ns@.len() as int) =~= Seq::<NodeV>::empty());
    }
    true
}

fn clone_attrs(attrs: &Vec<(String, String)>) -> (r: Vec<(String, String)>)
    ensures
        attrs_view(r@) == attrs_view(attrs@),
{
    let mut r: Vec<(String, String)> = Vec::new();
    let mut i: usize = 0;
    while i < attrs.len()
        invariant
            0 <= i <= attrs@.len(),
            r@.len() == i,
            forall|k: int| 0 <= k < i ==> r@[k].0@ == attrs@[k].0@ && r@[k].1@ == attrs@[k].1@,
        decreases attrs@.len() - i,
    {
        r.push((attrs[i].0.clone(), attrs[i].1.clone()));
        i += 1;
    }
    proof {
        assert(attrs_view(r@) =~= attrs_view(attrs@));
    }
    r
}

fn scan_img_step(n: &Node, acc: Option<Node>) -> (r: Option<Option<Node>>)
    ensures
        match r {
            Some(a2) => scan_img_node(n@, opt_node_view(acc)) == Some(opt_node_view(a2)),
            None => scan_img_node(n@, opt_node_view(acc)) is None,
        },
    decreases *n,
{
    match n {
        Node::Text(_) => {
            if is_ws_text_exec(n) {
                Some(acc)
            } else {
                None
            }
        },
        Node::Comment(_) => Some(acc),
        Node::Elem { tag, attrs, children } => {
            if string_is(tag, "img") {
                if acc.is_some() {
                    None
                } else {
                    let img = Node::Elem {
                        tag: String::from_str("img"),
                        attrs: clone_attrs(attrs),
                        children: Vec::new(),
                    };
                    proof {
                        assert(nodes_view(Seq::<Node>::empty()) == Seq::<NodeV>::empty());
                        assert(img@ =~= img_of(attrs_view(attrs@)));
                    }
                    Some(Some(img))
                }
            } else if string_is(tag, "span") || string_is(tag, "picture") || string_is(
                tag,
                "figure",
            ) {
                proof {
                    assert(*children == (*n)->Elem_children);
                    assert(decreases_to!(*n => (*n)->Elem_children));
                }
                scan_img_exec(children, acc)
            } else {
                None
            }
        },
    }
}

fn scan_img_exec(ns: &Vec<Node>, acc: Option<Node>) -> (r: Option<Option<Node>>)
    ensures
        match r {
            Some(a2) => scan_img_list(nodes_view(ns@), opt_node_view(acc)) == Some(
                opt_node_view(a2),
            ),
            None => scan_img_list(nodes_view(ns@), opt_node_view(acc)) is None,
        },
    decreases *ns,
{
    proof {
        crate::dom::lemma_nodes_view_len(ns@);
        assert(nodes_view(ns@).skip(0) =~= nodes_view(ns@));
    }
    let ghost init = scan_img_list(nodes_view(ns@), opt_node_view(acc));
    let mut acc = acc;
    let mut i: usize = 0;
    while i < ns.len()
        invariant
            0 <= i <= ns@.len(),
            nodes_view(ns@).len() == ns@.len(),
            forall|k: int| 0 <= k < ns@.len() ==> #[trigger] nodes_view(ns@)[k] == node_view(
                ns@[k],
            ),
            init == scan_img_list(nodes_view(ns@).skip(i as int), opt_node_view(acc)),
        decreases ns@.len() - i,
    {
        proof {
            assert(decreases_to!(*ns => ns[i as int]));
            assert(nodes_view(ns@).skip(i as int)[0] == nodes_view(ns@)[i as int]);
            assert(nodes_view(ns@).skip(i as int).drop_first() =~= nodes_view(ns@).skip(i + 1));
        }
        match scan_img_step(&ns[i], acc) {
            Some(a2) => {
                acc = a2;
            },
            None => {
                proof {
                    assert(scan_img_list(nodes_view(ns@).skip(i as int), opt_node_view(acc))
                        is None);
                }
                return None;
            },
        }
        i += 1;
    }
    proof {
        assert(nodes_view(ns@).skip(ns@.len() as int) =~= Seq::<NodeV>::empty());
    }
    Some(acc)
}

/// Append one node, in view terms.
fn push_node(out: &mut Vec<Node>, n: Node)
    ensures
        nodes_view(final(out)@) == nodes_view(old(out)@).push(n@),
{
    let ghost g = n;
    out.push(n);
    proof {
        crate::dom::lemma_nodes_view_push(old(out)@, g);
    }
}

/// Append the image a `<noscript>` yielded, deleting a duplicate just before.
fn push_dedup_exec(out: &mut Vec<Node>, img: Node)
    requires
        is_img(img@),
    ensures
        nodes_view(final(out)@) == push_dedup(nodes_view(old(out)@), img@),
{
    proof {
        crate::dom::lemma_nodes_view_len(out@);
    }
    let ghost img_v = img@;
    let ghost out0 = nodes_view(out@);
    let mut j: usize = out.len();
    while j > 0
        invariant
            0 <= j <= out@.len(),
            out@ == old(out)@,
            out0 == nodes_view(out@),
            out0.len() == out@.len(),
            forall|k: int| 0 <= k < out@.len() ==> #[trigger] out0[k] == node_view(out@[k]),
            prev_solid(out0, out0.len() as int) == prev_solid(out0, j as int),
        decreases j,
    {
        if !is_ws_text_exec(&out[j - 1]) {
            let dup = match &out[j - 1] {
                Node::Elem { tag, attrs, children: _ } => {
                    if string_is(tag, "img") {
                        let same = match (get_attr(attrs, "src"), img_src(&img)) {
                            (Some(x), Some(y)) => {
                                let xv = strutil::str_chars(x.as_str());
                                crate::json::str_is(&xv, y.as_str())
                            },
                            (None, None) => true,
                            _ => false,
                        };
                        same
                    } else {
                        false
                    }
                },
                _ => false,
            };
            proof {
                assert(out0[j - 1] == node_view(out@[j - 1]));
                assert(!is_ws_text(out0[j - 1]));
                assert(prev_solid(out0, out0.len() as int) == Some(j - 1));
                assert(dup == same_src(out0[j - 1], img_v));
            }
            if dup {
                let ghost prev_nodes = out@;
                let _removed = out.remove(j - 1);
                proof {
                    assert(out@ =~= prev_nodes.remove(j - 1));
                    lemma_nodes_view_remove(prev_nodes, j - 1);
                }
                push_node(out, img);
                proof {
                    assert(nodes_view(out@) =~= push_dedup(out0, img_v));
                }
            } else {
                push_node(out, img);
                proof {
                    assert(nodes_view(out@) =~= push_dedup(out0, img_v));
                }
            }
            return ;
        }
        j -= 1;
    }
    push_node(out, img);
    proof {
        assert(nodes_view(out@) =~= push_dedup(out0, img_v));
    }
}

fn img_src<'a>(img: &'a Node) -> (r: Option<&'a String>)
    ensures
        match r {
            Some(v) => img@ is Elem && attr_of(img@->Elem_attrs, "src"@) == Some(v@),
            None => !(img@ is Elem) || attr_of(img@->Elem_attrs, "src"@) is None,
        },
{
    match img {
        Node::Elem { attrs, .. } => get_attr(attrs, "src"),
        _ => None,
    }
}

fn strip_node_exec(n: Node, out: &mut Vec<Node>)
    ensures
        nodes_view(final(out)@) == strip_node(n@, nodes_view(old(out)@)),
    decreases n@, 2int,
{
    let ghost nv = n@;
    let ghost out0 = nodes_view(out@);
    match n {
        Node::Comment(_) => {},
        Node::Text(_) => {
            push_node(out, n);
        },
        Node::Elem { tag, attrs, children } => {
            proof {
                assert(nv == (NodeV::Elem {
                    tag: tag@,
                    attrs: attrs_view(attrs@),
                    children: nodes_view(children@),
                }));
            }
            if string_is(&tag, "script") || string_is(&tag, "style") {
                return ;
            }
            let mut drop_link = false;
            if string_is(&tag, "link") {
                match get_attr(&attrs, "rel") {
                    Some(v) => {
                        drop_link = string_is(v, "stylesheet");
                    },
                    None => {},
                }
            }
            if drop_link {
                return ;
            }
            if string_is(&tag, "noscript") {
                match scan_img_exec(&children, None) {
                    Some(Some(img)) => {
                        proof {
                            lemma_scan_img_list_shape(nodes_view(children@), None);
                        }
                        push_dedup_exec(out, img);
                    },
                    Some(None) => {},
                    None => {},
                }
                return ;
            }
            proof {
                assert(decreases_to!(nv => nv->Elem_children));
                assert(nv->Elem_children == nodes_view(children@));
            }
            let sub = pre_exec(children);
            push_node(out, Node::Elem { tag, attrs, children: sub });
            proof {
                assert(nodes_view(out@) =~= strip_node(nv, out0));
            }
        },
    }
}

fn strip_exec(ns: Vec<Node>, out: &mut Vec<Node>)
    ensures
        nodes_view(final(out)@) == strip_list(nodes_view(ns@), nodes_view(old(out)@)),
    decreases nodes_view(ns@), 0int,
{
    let ghost ns0 = nodes_view(ns@);
    let mut ns = ns;
    if ns.len() == 0 {
        proof {
            assert(ns0 =~= Seq::<NodeV>::empty());
        }
        return ;
    }
    proof {
        lemma_nodes_view_drop_first(ns@);
        crate::dom::lemma_nodes_view_len(ns@);
    }
    let ghost prev = ns@;
    let first = ns.remove(0);
    proof {
        assert(ns@ =~= prev.drop_first());
        assert(first@ == ns0[0]);
        assert(nodes_view(ns@) == ns0.drop_first());
        assert(ns0.drop_first() =~= ns0.subrange(1, ns0.len() as int));
        assert(decreases_to!(ns0 => ns0.subrange(1, ns0.len() as int)));
        assert(decreases_to!(ns0 => ns0[0]));
    }
    strip_node_exec(first, out);
    strip_exec(ns, out);
}

fn div_rewrite_exec(n: Node) -> (r: Node)
    ensures
        r@ == div_rewrite(n@),
{
    let ghost nv = n@;
    match n {
        Node::Elem { tag, attrs, children } => {
            proof {
                assert(nv == (NodeV::Elem {
                    tag: tag@,
                    attrs: attrs_view(attrs@),
                    children: nodes_view(children@),
                }));
            }
            if string_is(&tag, "div") {
                let mut children = children;
                let ghost cv = nodes_view(children@);
                match scan_p_exec(&children) {
                    Some(j) => {
                        proof {
                            crate::dom::lemma_nodes_view_len(children@);
                        }
                        let p = children.remove(j);
                        proof {
                            assert(p@ == cv[j as int]);
                        }
                        p
                    },
                    None => {
                        if all_phrasing_exec(&children) {
                            drop_tail_exec(&mut children);
                            let r = Node::Elem { tag: String::from_str("p"), attrs, children };
                            proof {
                                assert(r@ =~= div_rewrite(nv));
                            }
                            r
                        } else {
                            let r = Node::Elem { tag, attrs, children };
                            proof {
                                assert(r@ =~= nv);
                            }
                            r
                        }
                    },
                }
            } else {
                let r = Node::Elem { tag, attrs, children };
                proof {
                    assert(r@ =~= nv);
                }
                r
            }
        },
        _ => n,
    }
}

/// The single `<p>` child of a div, by index; nothing when the div holds
/// anything else.
fn scan_p_exec(ns: &Vec<Node>) -> (r: Option<usize>)
    ensures
        match r {
            Some(j) => j < ns@.len() && scan_p(nodes_view(ns@), None) == Some(
                Some(nodes_view(ns@)[j as int]),
            ),
            None => scan_p(nodes_view(ns@), None) is None || scan_p(nodes_view(ns@), None)
                == Some(None::<NodeV>),
        },
{
    proof {
        crate::dom::lemma_nodes_view_len(ns@);
        assert(nodes_view(ns@).skip(0) =~= nodes_view(ns@));
    }
    let mut found: Option<usize> = None;
    let mut i: usize = 0;
    while i < ns.len()
        invariant
            0 <= i <= ns@.len(),
            nodes_view(ns@).len() == ns@.len(),
            forall|k: int| 0 <= k < ns@.len() ==> #[trigger] nodes_view(ns@)[k] == node_view(
                ns@[k],
            ),
            match found {
                Some(j) => j < i && scan_p(nodes_view(ns@), None) == scan_p(
                    nodes_view(ns@).skip(i as int),
                    Some(nodes_view(ns@)[j as int]),
                ),
                None => scan_p(nodes_view(ns@), None) == scan_p(
                    nodes_view(ns@).skip(i as int),
                    None,
                ),
            },
        decreases ns@.len() - i,
    {
        proof {
            assert(nodes_view(ns@).skip(i as int)[0] == nodes_view(ns@)[i as int]);
            assert(nodes_view(ns@).skip(i as int).drop_first() =~= nodes_view(ns@).skip(i + 1));
        }
        if is_ws_text_exec(&ns[i]) {
        } else if crate::dom::elem_has_tag(&ns[i], "p") && found.is_none() {
            found = Some(i);
        } else {
            return None;
        }
        i += 1;
    }
    proof {
        assert(nodes_view(ns@).skip(ns@.len() as int) =~= Seq::<NodeV>::empty());
    }
    found
}

fn drop_tail_exec(ns: &mut Vec<Node>)
    ensures
        nodes_view(final(ns)@) == drop_tail_brs(nodes_view(old(ns)@)),
{
    proof {
        crate::dom::lemma_nodes_view_len(ns@);
    }
    let ghost init = nodes_view(ns@);
    while ns.len() > 0
        invariant
            drop_tail_brs(init) == drop_tail_brs(nodes_view(ns@)),
            nodes_view(ns@).len() == ns@.len(),
            forall|k: int| 0 <= k < ns@.len() ==> #[trigger] nodes_view(ns@)[k] == node_view(
                ns@[k],
            ),
        decreases ns@.len(),
    {
        let last = ns.len() - 1;
        proof {
            assert(nodes_view(ns@).last() == nodes_view(ns@)[last as int]);
        }
        let is_tail = is_ws_text_exec(&ns[last]) || is_br_exec(&ns[last]);
        if !is_tail {
            proof {
                assert(drop_tail_brs(nodes_view(ns@)) == nodes_view(ns@));
            }
            return ;
        }
        let ghost prev = ns@;
        let _popped = ns.pop();
        proof {
            assert(ns@ =~= prev.drop_last());
            lemma_nodes_view_drop_last(prev);
            crate::dom::lemma_nodes_view_len(ns@);
        }
    }
    proof {
        assert(nodes_view(ns@) =~= Seq::<NodeV>::empty());
    }
}

pub proof fn lemma_nodes_view_drop_last(ns: Seq<Node>)
    requires
        ns.len() > 0,
    ensures
        nodes_view(ns.drop_last()) == nodes_view(ns).drop_last(),
{
    crate::dom::lemma_nodes_view_len(ns);
    crate::dom::lemma_nodes_view_len(ns.drop_last());
    assert forall|i: int| 0 <= i < nodes_view(ns.drop_last()).len() implies nodes_view(
        ns.drop_last(),
    )[i] == nodes_view(ns).drop_last()[i] by {
        assert(ns.drop_last()[i] == ns[i]);
    }
    assert(nodes_view(ns.drop_last()) =~= nodes_view(ns).drop_last());
}

fn div_exec(ns: Vec<Node>) -> (r: Vec<Node>)
    ensures
        nodes_view(r@) == div_pass(nodes_view(ns@)),
{
    let ghost init = nodes_view(ns@);
    let mut ns = ns;
    let mut out: Vec<Node> = Vec::new();
    proof {
        crate::dom::lemma_nodes_view_len(ns@);
        assert(nodes_view(out@) =~= Seq::<NodeV>::empty());
    }
    while ns.len() > 0
        invariant
            div_pass(init) == nodes_view(out@) + div_pass(nodes_view(ns@)),
            nodes_view(ns@).len() == ns@.len(),
        decreases ns@.len(),
    {
        proof {
            lemma_nodes_view_drop_first(ns@);
        }
        let ghost prev = ns@;
        let ghost prev_v = nodes_view(ns@);
        let first = ns.remove(0);
        proof {
            assert(ns@ =~= prev.drop_first());
            crate::dom::lemma_nodes_view_len(ns@);
            assert(first@ == prev_v[0]);
            assert(nodes_view(ns@) == prev_v.drop_first());
        }
        let ghost pre_out = nodes_view(out@);
        let rewritten = div_rewrite_exec(first);
        push_node(&mut out, rewritten);
        proof {
            assert(div_pass(prev_v) == seq![div_rewrite(prev_v[0])] + div_pass(
                prev_v.drop_first(),
            ));
            assert(nodes_view(out@) + div_pass(nodes_view(ns@)) =~= pre_out + div_pass(prev_v));
        }
    }
    proof {
        assert(nodes_view(ns@) =~= Seq::<NodeV>::empty());
        assert(nodes_view(out@) + div_pass(Seq::<NodeV>::empty()) =~= nodes_view(out@));
    }
    out
}

/// First index whose node is not whitespace-only text.
fn ws_drop_count(ns: &Vec<Node>) -> (r: usize)
    ensures
        r <= ns@.len(),
        ws_drop(nodes_view(ns@)) == nodes_view(ns@).skip(r as int),
{
    proof {
        crate::dom::lemma_nodes_view_len(ns@);
        assert(nodes_view(ns@).skip(0) =~= nodes_view(ns@));
    }
    let mut i: usize = 0;
    while i < ns.len()
        invariant
            0 <= i <= ns@.len(),
            nodes_view(ns@).len() == ns@.len(),
            forall|k: int| 0 <= k < ns@.len() ==> #[trigger] nodes_view(ns@)[k] == node_view(
                ns@[k],
            ),
            ws_drop(nodes_view(ns@)) == ws_drop(nodes_view(ns@).skip(i as int)),
        decreases ns@.len() - i,
    {
        proof {
            assert(nodes_view(ns@).skip(i as int)[0] == nodes_view(ns@)[i as int]);
            assert(nodes_view(ns@).skip(i as int).drop_first() =~= nodes_view(ns@).skip(i + 1));
        }
        if !is_ws_text_exec(&ns[i]) {
            proof {
                assert(ws_drop(nodes_view(ns@).skip(i as int)) == nodes_view(ns@).skip(i as int));
            }
            return i;
        }
        i += 1;
    }
    proof {
        assert(nodes_view(ns@).skip(ns@.len() as int) =~= Seq::<NodeV>::empty());
    }
    ns.len()
}

/// A `<br>` run of two or more starts the list.
fn chain_at_exec(ns: &Vec<Node>) -> (r: bool)
    ensures
        r == chain_at(nodes_view(ns@)),
{
    proof {
        crate::dom::lemma_nodes_view_len(ns@);
    }
    if ns.len() == 0 {
        return false;
    }
    if !is_br_exec(&ns[0]) {
        proof {
            assert(nodes_view(ns@)[0] == node_view(ns@[0]));
        }
        return false;
    }
    let mut i: usize = 1;
    proof {
        assert(nodes_view(ns@)[0] == node_view(ns@[0]));
        assert(nodes_view(ns@).drop_first() =~= nodes_view(ns@).skip(1));
    }
    while i < ns.len()
        invariant
            1 <= i <= ns@.len(),
            nodes_view(ns@).len() == ns@.len(),
            forall|k: int| 0 <= k < ns@.len() ==> #[trigger] nodes_view(ns@)[k] == node_view(
                ns@[k],
            ),
            is_br(nodes_view(ns@)[0]),
            ws_drop(nodes_view(ns@).drop_first()) == ws_drop(nodes_view(ns@).skip(i as int)),
        decreases ns@.len() - i,
    {
        proof {
            assert(nodes_view(ns@).skip(i as int)[0] == nodes_view(ns@)[i as int]);
            assert(nodes_view(ns@).skip(i as int).drop_first() =~= nodes_view(ns@).skip(i + 1));
        }
        if !is_ws_text_exec(&ns[i]) {
            let r = is_br_exec(&ns[i]);
            proof {
                assert(ws_drop(nodes_view(ns@).skip(i as int)) == nodes_view(ns@).skip(i as int));
            }
            return r;
        }
        i += 1;
    }
    proof {
        assert(nodes_view(ns@).skip(ns@.len() as int) =~= Seq::<NodeV>::empty());
    }
    false
}

/// Remove the whole leading `<br>` run.
#[verifier::rlimit(60)]
fn chain_drop_exec(ns: &mut Vec<Node>)
    requires
        old(ns)@.len() > 0,
    ensures
        nodes_view(final(ns)@) == chain_rest(nodes_view(old(ns)@)),
    decreases old(ns)@.len(),
{
    let ghost entry = nodes_view(ns@);
    proof {
        lemma_nodes_view_drop_first(ns@);
        crate::dom::lemma_nodes_view_len(ns@);
    }
    let ghost prev0 = ns@;
    let _br = ns.remove(0);
    proof {
        assert(ns@ =~= prev0.drop_first());
        assert(nodes_view(ns@) == entry.drop_first());
        crate::dom::lemma_nodes_view_len(ns@);
    }
    let k = ws_drop_count(ns);
    let ghost r2 = ws_drop(entry.drop_first());
    let more = if k < ns.len() {
        proof {
            assert(nodes_view(ns@).skip(k as int)[0] == nodes_view(ns@)[k as int]);
        }
        is_br_exec(&ns[k])
    } else {
        proof {
            assert(nodes_view(ns@).skip(k as int) =~= Seq::<NodeV>::empty());
        }
        false
    };
    proof {
        assert(more == (r2.len() > 0 && is_br(r2[0])));
    }
    if more {
        let ghost before_ws = ns@;
        let mut j: usize = 0;
        while j < k
            invariant
                0 <= j <= k,
                k <= before_ws.len(),
                ns@ =~= before_ws.skip(j as int),
            decreases k - j,
        {
            let ghost prev = ns@;
            let _ws = ns.remove(0);
            proof {
                assert(ns@ =~= prev.drop_first());
                assert(before_ws.skip(j as int).drop_first() =~= before_ws.skip(j + 1));
            }
            j += 1;
        }
        proof {
            lemma_nodes_view_skip(before_ws, k as int);
            assert(nodes_view(ns@) == r2);
            lemma_ws_drop_len(entry.drop_first());
        }
        chain_drop_exec(ns);
        proof {
            assert(chain_rest(entry) == chain_rest(r2));
        }
    } else {
        proof {
            assert(nodes_view(ns@) =~= chain_rest(entry));
        }
    }
}

pub proof fn lemma_nodes_view_skip(ns: Seq<Node>, k: int)
    requires
        0 <= k <= ns.len(),
    ensures
        nodes_view(ns.skip(k)) == nodes_view(ns).skip(k),
{
    crate::dom::lemma_nodes_view_len(ns);
    crate::dom::lemma_nodes_view_len(ns.skip(k));
    assert forall|i: int| 0 <= i < nodes_view(ns.skip(k)).len() implies nodes_view(ns.skip(k))[i]
        == nodes_view(ns).skip(k)[i] by {
        assert(ns.skip(k)[i] == ns[i + k]);
    }
    assert(nodes_view(ns.skip(k)) =~= nodes_view(ns).skip(k));
}

fn close_para_exec(out: &mut Vec<Node>, para: Option<Vec<Node>>)
    ensures
        nodes_view(final(out)@) == close_para(nodes_view(old(out)@), para_view(para)),
{
    match para {
        None => {},
        Some(p) => {
            proof {
                crate::dom::lemma_nodes_view_len(p@);
            }
            let mut solid = false;
            let mut i: usize = 0;
            while i < p.len()
                invariant
                    0 <= i <= p@.len(),
                    solid == exists|k: int| 0 <= k < i && !is_ws_text(nodes_view(p@)[k]),
                decreases p@.len() - i,
            {
                if !is_ws_text_exec(&p[i]) {
                    proof {
                        assert(!is_ws_text(nodes_view(p@)[i as int]));
                    }
                    solid = true;
                }
                i += 1;
            }
            proof {
                assert(solid == has_solid(nodes_view(p@)));
            }
            if solid {
                push_node(
                    out,
                    Node::Elem { tag: String::from_str("p"), attrs: Vec::new(), children: p },
                );
                proof {
                    assert(attrs_view(Seq::<(String, String)>::empty()) =~= Seq::<
                        (Seq<char>, Seq<char>),
                    >::empty());
                    assert(nodes_view(out@) =~= close_para(nodes_view(old(out)@), para_view(para)));
                }
            }
        },
    }
}

#[verifier::rlimit(60)]
fn br_exec(ns: Vec<Node>, out: Vec<Node>, para: Option<Vec<Node>>) -> (r: Vec<Node>)
    ensures
        nodes_view(r@) == br_pass(nodes_view(ns@), nodes_view(out@), para_view(para)),
    decreases nodes_view(ns@).len(),
{
    let ghost ns0 = nodes_view(ns@);
    let ghost out0 = nodes_view(out@);
    let ghost para0 = para_view(para);
    let mut ns = ns;
    let mut out = out;
    proof {
        crate::dom::lemma_nodes_view_len(ns@);
    }
    if ns.len() == 0 {
        close_para_exec(&mut out, para);
        proof {
            assert(ns0 =~= Seq::<NodeV>::empty());
        }
        return out;
    }
    if chain_at_exec(&ns) {
        close_para_exec(&mut out, para);
        chain_drop_exec(&mut ns);
        proof {
            lemma_chain_rest_len(ns0);
        }
        let empty_para: Vec<Node> = Vec::new();
        proof {
            assert(nodes_view(empty_para@) =~= Seq::<NodeV>::empty());
        }
        return br_exec(ns, out, Some(empty_para));
    }
    proof {
        lemma_nodes_view_drop_first(ns@);
    }
    let ghost prev = ns@;
    let first = ns.remove(0);
    proof {
        assert(ns@ =~= prev.drop_first());
        assert(first@ == ns0[0]);
        assert(nodes_view(ns@) == ns0.drop_first());
    }
    match para {
        None => {
            push_node(&mut out, first);
            br_exec(ns, out, None)
        },
        Some(mut p) => {
            if is_phrasing_exec(&first) {
                let ghost pv = nodes_view(p@);
                push_node2(&mut p, first);
                proof {
                    assert(para_view(Some(p)) == Some(pv.push(ns0[0])));
                }
                br_exec(ns, out, Some(p))
            } else {
                close_para_exec(&mut out, Some(p));
                push_node(&mut out, first);
                br_exec(ns, out, None)
            }
        },
    }
}

/// Append one node, in view terms.
fn push_node2(out: &mut Vec<Node>, n: Node)
    ensures
        nodes_view(final(out)@) == nodes_view(old(out)@).push(n@),
{
    let ghost g = n;
    out.push(n);
    proof {
        crate::dom::lemma_nodes_view_push(old(out)@, g);
    }
}

/// Preprocess a sibling list in full, per `pre_list`.
pub fn pre_exec(ns: Vec<Node>) -> (r: Vec<Node>)
    ensures
        nodes_view(r@) == pre_list(nodes_view(ns@)),
    decreases nodes_view(ns@), 1int,
{
    let mut stripped: Vec<Node> = Vec::new();
    proof {
        assert(nodes_view(stripped@) =~= Seq::<NodeV>::empty());
    }
    strip_exec(ns, &mut stripped);
    let dived = div_exec(stripped);
    let out: Vec<Node> = Vec::new();
    proof {
        assert(nodes_view(out@) =~= Seq::<NodeV>::empty());
    }
    br_exec(dived, out, None)
}

} // verus!

verus! {

/// A found noscript image is image-shaped.
proof fn lemma_scan_img_node_shape(n: NodeV, acc: Option<NodeV>)
    ensures
        (match scan_img_node(n, acc) {
            Some(inner) => match inner {
                Some(v) => is_img(v) || acc == Some(v),
                None => true,
            },
            None => true,
        }),
    decreases n,
{
    match n {
        NodeV::Elem { tag, children, .. } => {
            if !(tag == "img"@) && (tag == "span"@ || tag == "picture"@ || tag == "figure"@) {
                lemma_scan_img_list_shape(children, acc);
            }
        },
        _ => {},
    }
}

proof fn lemma_scan_img_list_shape(ns: Seq<NodeV>, acc: Option<NodeV>)
    ensures
        (match scan_img_list(ns, acc) {
            Some(inner) => match inner {
                Some(v) => is_img(v) || acc == Some(v),
                None => true,
            },
            None => true,
        }),
    decreases ns,
{
    if ns.len() > 0 {
        lemma_scan_img_node_shape(ns[0], acc);
        match scan_img_node(ns[0], acc) {
            Some(acc2) => {
                lemma_scan_img_list_shape(ns.drop_first(), acc2);
            },
            None => {},
        }
    }
}

/// The views of an optional collected paragraph.
pub open spec fn para_view(p: Option<Vec<Node>>) -> Option<Seq<NodeV>> {
    match p {
        Some(v) => Some(nodes_view(v@)),
        None => None,
    }
}

pub proof fn lemma_nodes_view_remove(ns: Seq<Node>, j: int)
    requires
        0 <= j < ns.len(),
    ensures
        nodes_view(ns.remove(j)) == nodes_view(ns).remove(j),
{
    crate::dom::lemma_nodes_view_len(ns);
    crate::dom::lemma_nodes_view_len(ns.remove(j));
    assert forall|i: int| 0 <= i < nodes_view(ns.remove(j)).len() implies nodes_view(
        ns.remove(j),
    )[i] == nodes_view(ns).remove(j)[i] by {
        if i < j {
            assert(ns.remove(j)[i] == ns[i]);
        } else {
            assert(ns.remove(j)[i] == ns[i + 1]);
        }
    }
    assert(nodes_view(ns.remove(j)) =~= nodes_view(ns).remove(j));
}

} // verus!
