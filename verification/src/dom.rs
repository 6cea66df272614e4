//! The document tree: elements with lowercased tag names and ordered
//! attributes, text and comments. Trees are values; every rewrite builds the
//! new tree. The serializer emits the conventional HTML form: void elements
//! without a closing tag, text and attribute values escaped.

#![verifier::loop_isolation(false)]

use vstd::prelude::*;
use crate::strutil;

verus! {

broadcast use vstd::std_specs::vec::group_vec_axioms;

/// A node of the document tree.
#[derive(Debug)]
pub enum Node {
    Elem { tag: String, attrs: Vec<(String, String)>, children: Vec<Node> },
    Text(String),
    Comment(String),
}

/// The mathematical value of a node: every string as its character sequence.
#[verifier::ext_equal]
pub enum NodeV {
    Elem { tag: Seq<char>, attrs: Seq<(Seq<char>, Seq<char>)>, children: Seq<NodeV> },
    Text(Seq<char>),
    Comment(Seq<char>),
}

/// The mathematical value of an attribute list.
pub open spec fn attrs_view(attrs: Seq<(String, String)>) -> Seq<(Seq<char>, Seq<char>)> {
    attrs.map_values(|p: (String, String)| (p.0@, p.1@))
}

pub open spec fn node_view(n: Node) -> NodeV
    decreases n,
{
    match n {
        Node::Elem { tag, attrs, children } => NodeV::Elem {
            tag: tag@,
            attrs: attrs_view(attrs@),
            children: nodes_view(children@),
        },
        Node::Text(s) => NodeV::Text(s@),
        Node::Comment(s) => NodeV::Comment(s@),
    }
}

pub open spec fn nodes_view(ns: Seq<Node>) -> Seq<NodeV>
    decreases ns,
{
    if ns.len() == 0 {
        Seq::empty()
    } else {
        seq![node_view(ns[0])] + nodes_view(ns.drop_first())
    }
}

impl View for Node {
    type V = NodeV;

    open spec fn view(&self) -> NodeV {
        node_view(*self)
    }
}

pub proof fn lemma_nodes_view_len(ns: Seq<Node>)
    ensures
        nodes_view(ns).len() == ns.len(),
        forall|i: int| 0 <= i < ns.len() ==> #[trigger] nodes_view(ns)[i] == node_view(ns[i]),
    decreases ns,
{
    if ns.len() > 0 {
        lemma_nodes_view_len(ns.drop_first());
        assert forall|i: int| 0 <= i < ns.len() implies #[trigger] nodes_view(ns)[i] == node_view(
            ns[i],
        ) by {
            if i > 0 {
                assert(ns.drop_first()[i - 1] == ns[i]);
            }
        }
    }
}

pub proof fn lemma_nodes_view_push(ns: Seq<Node>, n: Node)
    ensures
        nodes_view(ns.push(n)) == nodes_view(ns).push(node_view(n)),
    decreases ns,
{
    if ns.len() == 0 {
        assert(ns.push(n)[0] == n);
        assert(ns.push(n).drop_first() =~= Seq::<Node>::empty());
        assert(nodes_view(ns.push(n).drop_first()) == Seq::<NodeV>::empty());
        assert(nodes_view(ns.push(n)) == seq![node_view(n)] + Seq::<NodeV>::empty());
        assert(nodes_view(ns.push(n)) =~= nodes_view(ns).push(node_view(n)));
    } else {
        assert(ns.push(n)[0] == ns[0]);
        assert(ns.push(n).drop_first() =~= ns.drop_first().push(n));
        lemma_nodes_view_push(ns.drop_first(), n);
        assert(nodes_view(ns.push(n)) == seq![node_view(ns[0])] + nodes_view(
            ns.drop_first().push(n),
        ));
        assert(nodes_view(ns) == seq![node_view(ns[0])] + nodes_view(ns.drop_first()));
        assert(nodes_view(ns.push(n)) =~= nodes_view(ns).push(node_view(n)));
    }
}

/// The value under the first attribute named `name`, if any.
pub open spec fn attr_of(attrs: Seq<(Seq<char>, Seq<char>)>, name: Seq<char>) -> Option<Seq<char>>
    decreases attrs.len(),
{
    if attrs.len() == 0 {
        None
    } else if attrs[0].0 == name {
        Some(attrs[0].1)
    } else {
        attr_of(attrs.drop_first(), name)
    }
}

/// Look an attribute up on an element's attribute list.
pub fn get_attr<'a>(attrs: &'a Vec<(String, String)>, name: &str) -> (r: Option<&'a String>)
    ensures
        match r {
            Some(v) => attr_of(attrs_view(attrs@), name@) == Some(v@),
            None => attr_of(attrs_view(attrs@), name@) is None,
        },
{
    let nc = strutil::str_chars(name);
    proof {
        assert(attrs_view(attrs@).skip(0) =~= attrs_view(attrs@));
    }
    let mut i: usize = 0;
    while i < attrs.len()
        invariant
            0 <= i <= attrs@.len(),
            nc@ == name@,
            attr_of(attrs_view(attrs@), name@) == attr_of(
                attrs_view(attrs@).skip(i as int),
                name@,
            ),
        decreases attrs@.len() - i,
    {
        proof {
            assert(attrs_view(attrs@).skip(i as int)[0] == attrs_view(attrs@)[i as int]);
            assert(attrs_view(attrs@)[i as int] == (attrs@[i as int].0@, attrs@[i as int].1@));
            assert(attrs_view(attrs@).skip(i as int).drop_first() =~= attrs_view(attrs@).skip(
                i + 1,
            ));
        }
        let kc = strutil::str_chars(attrs[i].0.as_str());
        if strutil::chars_eq(&kc, &nc) {
            return Some(&attrs[i].1);
        }
        i += 1;
    }
    None
}

/// A string holds the characters of `lit`.
pub fn string_is(s: &String, lit: &str) -> (r: bool)
    ensures
        r == (s@ == lit@),
{
    let sc = strutil::str_chars(s.as_str());
    crate::json::str_is(&sc, lit)
}

/// The element's tag reads `tag`.
pub open spec fn is_tag(n: NodeV, tag: Seq<char>) -> bool {
    n is Elem && n->Elem_tag == tag
}

pub fn elem_has_tag(n: &Node, tag: &str) -> (r: bool)
    ensures
        r == is_tag(n@, tag@),
{
    match n {
        Node::Elem { tag: t, .. } => string_is(t, tag),
        _ => false,
    }
}

/// The concatenated text of a subtree, in document order.
pub open spec fn text_of(n: NodeV) -> Seq<char>
    decreases n,
{
    match n {
        NodeV::Text(s) => s,
        NodeV::Comment(_) => Seq::empty(),
        NodeV::Elem { children, .. } => texts_of(children),
    }
}

pub open spec fn texts_of(ns: Seq<NodeV>) -> Seq<char>
    decreases ns,
{
    if ns.len() == 0 {
        Seq::empty()
    } else {
        text_of(ns[0]) + texts_of(ns.drop_first())
    }
}

proof fn lemma_texts_of_push(ns: Seq<NodeV>, n: NodeV)
    ensures
        texts_of(ns.push(n)) == texts_of(ns) + text_of(n),
    decreases ns,
{
    if ns.len() == 0 {
        assert(ns.push(n)[0] == n);
        assert(ns.push(n).drop_first() =~= Seq::<NodeV>::empty());
        assert(texts_of(ns.push(n).drop_first()) == Seq::<char>::empty());
        assert(texts_of(ns.push(n)) == text_of(n) + Seq::<char>::empty());
        assert(texts_of(ns.push(n)) =~= texts_of(ns) + text_of(n));
    } else {
        assert(ns.push(n)[0] == ns[0]);
        assert(ns.push(n).drop_first() =~= ns.drop_first().push(n));
        lemma_texts_of_push(ns.drop_first(), n);
        assert(texts_of(ns.push(n)) == text_of(ns[0]) + texts_of(ns.drop_first().push(n)));
        assert(texts_of(ns) == text_of(ns[0]) + texts_of(ns.drop_first()));
        assert(texts_of(ns.push(n)) =~= texts_of(ns) + text_of(n));
    }
}

/// Append the subtree's text to `out`.
pub fn extract_text_into(n: &Node, out: &mut Vec<char>)
    ensures
        final(out)@ == old(out)@ + text_of(n@),
    decreases *n,
{
    match n {
        Node::Text(s) => {
            let cs = strutil::str_chars(s.as_str());
            let mut j: usize = 0;
            while j < cs.len()
                invariant
                    0 <= j <= cs@.len(),
                    out@ == old(out)@ + cs@.subrange(0, j as int),
                decreases cs@.len() - j,
            {
                out.push(cs[j]);
                proof {
                    assert(old(out)@ + cs@.subrange(0, j + 1) =~= (old(out)@ + cs@.subrange(
                        0,
                        j as int,
                    )).push(cs@[j as int]));
                }
                j += 1;
            }
            proof {
                assert(out@ =~= old(out)@ + text_of(n@));
            }
        },
        Node::Comment(_) => {
            proof {
                assert(out@ =~= old(out)@ + text_of(n@));
            }
        },
        Node::Elem { children, .. } => {
            proof {
                assert(*children == (*n)->Elem_children);
                assert(decreases_to!(*n => (*n)->Elem_children));
            }
            extract_text_nodes(children, out);
            proof {
                assert(out@ =~= old(out)@ + text_of(n@));
            }
        },
    }
}

fn extract_text_nodes(ns: &Vec<Node>, out: &mut Vec<char>)
    ensures
        final(out)@ == old(out)@ + texts_of(nodes_view(ns@)),
    decreases *ns,
{
    proof {
        lemma_nodes_view_len(ns@);
    }
    let mut i: usize = 0;
    while i < ns.len()
        invariant
            0 <= i <= ns@.len(),
            nodes_view(ns@).len() == ns@.len(),
            forall|k: int| 0 <= k < ns@.len() ==> #[trigger] nodes_view(ns@)[k] == node_view(
                ns@[k],
            ),
            out@ == old(out)@ + texts_of(nodes_view(ns@).subrange(0, i as int)),
        decreases ns@.len() - i,
    {
        proof {
            assert(decreases_to!(*ns => ns[i as int]));
        }
        extract_text_into(&ns[i], out);
        proof {
            assert(nodes_view(ns@).subrange(0, i + 1) =~= nodes_view(ns@).subrange(
                0,
                i as int,
            ).push(nodes_view(ns@)[i as int]));
            lemma_texts_of_push(nodes_view(ns@).subrange(0, i as int), nodes_view(ns@)[i as int]);
        }
        i += 1;
    }
    proof {
        assert(nodes_view(ns@).subrange(0, ns@.len() as int) =~= nodes_view(ns@));
        assert(out@ =~= old(out)@ + texts_of(nodes_view(ns@)));
    }
}

/// The subtree's text, whitespace-normalized when `trim` is set.
pub fn extract_text(n: &Node, trim: bool) -> (r: Vec<char>)
    ensures
        trim ==> r@ == strutil::normalize_ws(text_of(n@)),
        !trim ==> r@ == text_of(n@),
{
    let mut out: Vec<char> = Vec::new();
    extract_text_into(n, &mut out);
    if trim {
        strutil::normalize_ws_chars(&out)
    } else {
        out
    }
}

/// Tags serialized without contents or a closing tag.
pub open spec fn void_tag(t: Seq<char>) -> bool {
    t == "area"@ || t == "base"@ || t == "basefont"@ || t == "bgsound"@ || t == "br"@
        || t == "col"@ || t == "embed"@ || t == "frame"@ || t == "hr"@ || t == "img"@
        || t == "input"@ || t == "keygen"@ || t == "link"@ || t == "meta"@ || t == "param"@
        || t == "source"@ || t == "track"@ || t == "wbr"@
}

fn is_void_tag(t: &String) -> (r: bool)
    ensures
        r == void_tag(t@),
{
    string_is(t, "area") || string_is(t, "base") || string_is(t, "basefont") || string_is(
        t,
        "bgsound",
    ) || string_is(t, "col") || string_is(t, "embed") || string_is(t, "frame") || string_is(
        t,
        "hr",
    ) || string_is(t, "img") || string_is(t, "input") || string_is(t, "keygen") || string_is(
        t,
        "link",
    ) || string_is(t, "meta") || string_is(t, "param") || string_is(t, "source") || string_is(
        t,
        "track",
    ) || string_is(t, "wbr") || string_is(t, "br")
}

/// A text character, escaped for serialization.
pub open spec fn esc_text_char(c: char) -> Seq<char> {
    if c as u32 == 0x26 {
        seq!['&', 'a', 'm', 'p', ';']
    } else if c as u32 == 0xA0 {
        seq!['&', 'n', 'b', 's', 'p', ';']
    } else if c as u32 == 0x3C {
        seq!['&', 'l', 't', ';']
    } else if c as u32 == 0x3E {
        seq!['&', 'g', 't', ';']
    } else {
        seq![c]
    }
}

pub open spec fn esc_text(s: Seq<char>) -> Seq<char>
    decreases s.len(),
{
    if s.len() == 0 {
        Seq::empty()
    } else {
        esc_text_char(s[0]) + esc_text(s.drop_first())
    }
}

/// An attribute-value character, escaped for serialization.
pub open spec fn esc_attr_char(c: char) -> Seq<char> {
    if c as u32 == 0x26 {
        seq!['&', 'a', 'm', 'p', ';']
    } else if c as u32 == 0xA0 {
        seq!['&', 'n', 'b', 's', 'p', ';']
    } else if c as u32 == 0x22 {
        seq!['&', 'q', 'u', 'o', 't', ';']
    } else {
        seq![c]
    }
}

pub open spec fn esc_attr(s: Seq<char>) -> Seq<char>
    decreases s.len(),
{
    if s.len() == 0 {
        Seq::empty()
    } else {
        esc_attr_char(s[0]) + esc_attr(s.drop_first())
    }
}

/// One serialized attribute: a space, the name, `="`, the escaped value, `"`.
pub open spec fn ser_attr(name: Seq<char>, value: Seq<char>) -> Seq<char> {
    seq![' '] + name + seq!['=', '"'] + esc_attr(value) + seq!['"']
}

pub open spec fn ser_attrs(attrs: Seq<(Seq<char>, Seq<char>)>) -> Seq<char>
    decreases attrs.len(),
{
    if attrs.len() == 0 {
        Seq::empty()
    } else {
        ser_attr(attrs[0].0, attrs[0].1) + ser_attrs(attrs.drop_first())
    }
}

/// The serialized form of a subtree, the node itself included.
pub open spec fn ser_node(n: NodeV) -> Seq<char>
    decreases n,
{
    match n {
        NodeV::Text(s) => esc_text(s),
        NodeV::Comment(s) => seq!['<', '!', '-', '-'] + s + seq!['-', '-', '>'],
        NodeV::Elem { tag, attrs, children } => {
            seq!['<'] + tag + ser_attrs(attrs) + seq!['>'] + (if void_tag(tag) {
                Seq::<char>::empty()
            } else {
                ser_nodes(children) + seq!['<', '/'] + tag + seq!['>']
            })
        },
    }
}

pub open spec fn ser_nodes(ns: Seq<NodeV>) -> Seq<char>
    decreases ns,
{
    if ns.len() == 0 {
        Seq::empty()
    } else {
        ser_node(ns[0]) + ser_nodes(ns.drop_first())
    }
}

proof fn lemma_ser_nodes_push(ns: Seq<NodeV>, n: NodeV)
    ensures
        ser_nodes(ns.push(n)) == ser_nodes(ns) + ser_node(n),
    decreases ns,
{
    if ns.len() == 0 {
        assert(ns.push(n)[0] == n);
        assert(ns.push(n).drop_first() =~= Seq::<NodeV>::empty());
        assert(ser_nodes(ns.push(n).drop_first()) == Seq::<char>::empty());
        assert(ser_nodes(ns.push(n)) == ser_node(n) + Seq::<char>::empty());
        assert(ser_nodes(ns.push(n)) =~= ser_nodes(ns) + ser_node(n));
    } else {
        assert(ns.push(n)[0] == ns[0]);
        assert(ns.push(n).drop_first() =~= ns.drop_first().push(n));
        lemma_ser_nodes_push(ns.drop_first(), n);
        assert(ser_nodes(ns.push(n)) == ser_node(ns[0]) + ser_nodes(ns.drop_first().push(n)));
        assert(ser_nodes(ns) == ser_node(ns[0]) + ser_nodes(ns.drop_first()));
        assert(ser_nodes(ns.push(n)) =~= ser_nodes(ns) + ser_node(n));
    }
}

#[verifier::rlimit(60)]
fn push_escaped(out: &mut Vec<char>, s: &str, attr_mode: bool)
    ensures
        attr_mode ==> final(out)@ == old(out)@ + esc_attr(s@),
        !attr_mode ==> final(out)@ == old(out)@ + esc_text(s@),
{
    let cs = strutil::str_chars(s);
    let mut i: usize = 0;
    while i < cs.len()
        invariant
            cs@ == s@,
            0 <= i <= cs@.len(),
            attr_mode ==> out@ == old(out)@ + esc_attr(cs@.subrange(0, i as int)),
            !attr_mode ==> out@ == old(out)@ + esc_text(cs@.subrange(0, i as int)),
        decreases cs@.len() - i,
    {
        let c = cs[i];
        let u = c as u32;
        if u == 0x26 {
            out.push('&');
            out.push('a');
            out.push('m');
            out.push('p');
            out.push(';');
        } else if u == 0xA0 {
            out.push('&');
            out.push('n');
            out.push('b');
            out.push('s');
            out.push('p');
            out.push(';');
        } else if !attr_mode && u == 0x3C {
            out.push('&');
            out.push('l');
            out.push('t');
            out.push(';');
        } else if !attr_mode && u == 0x3E {
            out.push('&');
            out.push('g');
            out.push('t');
            out.push(';');
        } else if attr_mode && u == 0x22 {
            out.push('&');
            out.push('q');
            out.push('u');
            out.push('o');
            out.push('t');
            out.push(';');
        } else {
            out.push(c);
        }
        proof {
            lemma_esc_snoc(cs@, i as int, attr_mode);
            if attr_mode {
                assert(out@ =~= old(out)@ + esc_attr(cs@.subrange(0, i + 1)));
            } else {
                assert(out@ =~= old(out)@ + esc_text(cs@.subrange(0, i + 1)));
            }
        }
        i += 1;
    }
    proof {
        assert(cs@.subrange(0, cs@.len() as int) =~= cs@);
    }
}

proof fn lemma_esc_push(s: Seq<char>, c: char)
    ensures
        esc_text(s.push(c)) == esc_text(s) + esc_text_char(c),
        esc_attr(s.push(c)) == esc_attr(s) + esc_attr_char(c),
    decreases s.len(),
{
    if s.len() == 0 {
        assert(s.push(c)[0] == c);
        assert(s.push(c).drop_first() =~= Seq::<char>::empty());
        assert(esc_text(s.push(c).drop_first()) == Seq::<char>::empty());
        assert(esc_attr(s.push(c).drop_first()) == Seq::<char>::empty());
        assert(esc_text(s.push(c)) == esc_text_char(c) + Seq::<char>::empty());
        assert(esc_attr(s.push(c)) == esc_attr_char(c) + Seq::<char>::empty());
        assert(esc_text(s.push(c)) =~= esc_text(s) + esc_text_char(c));
        assert(esc_attr(s.push(c)) =~= esc_attr(s) + esc_attr_char(c));
    } else {
        assert(s.push(c)[0] == s[0]);
        assert(s.push(c).drop_first() =~= s.drop_first().push(c));
        lemma_esc_push(s.drop_first(), c);
        assert(esc_text(s.push(c)) == esc_text_char(s[0]) + esc_text(s.drop_first().push(c)));
        assert(esc_text(s) == esc_text_char(s[0]) + esc_text(s.drop_first()));
        assert(esc_attr(s.push(c)) == esc_attr_char(s[0]) + esc_attr(s.drop_first().push(c)));
        assert(esc_attr(s) == esc_attr_char(s[0]) + esc_attr(s.drop_first()));
        assert(esc_text(s.push(c)) =~= esc_text(s) + esc_text_char(c));
        assert(esc_attr(s.push(c)) =~= esc_attr(s) + esc_attr_char(c));
    }
}

proof fn lemma_esc_snoc(s: Seq<char>, i: int, attr_mode: bool)
    requires
        0 <= i < s.len(),
    ensures
        esc_text(s.subrange(0, i + 1)) == esc_text(s.subrange(0, i)) + esc_text_char(s[i]),
        esc_attr(s.subrange(0, i + 1)) == esc_attr(s.subrange(0, i)) + esc_attr_char(s[i]),
{
    assert(s.subrange(0, i + 1) =~= s.subrange(0, i).push(s[i]));
    lemma_esc_push(s.subrange(0, i), s[i]);
}

/// Serialize a subtree, the node itself included.
pub fn serialize_node(n: &Node, out: &mut Vec<char>)
    ensures
        final(out)@ == old(out)@ + ser_node(n@),
    decreases *n,
{
    match n {
        Node::Text(s) => {
            push_escaped(out, s.as_str(), false);
        },
        Node::Comment(s) => {
            out.push('<');
            out.push('!');
            out.push('-');
            out.push('-');
            push_str_plain(out, s.as_str());
            out.push('-');
            out.push('-');
            out.push('>');
            proof {
                assert(out@ =~= old(out)@ + ser_node(n@));
            }
        },
        Node::Elem { tag, attrs, children } => {
            out.push('<');
            push_str_plain(out, tag.as_str());
            let ghost attrs_v = attrs_view(attrs@);
            let mut i: usize = 0;
            proof {
                assert(attrs_v.skip(0) =~= attrs_v);
            }
            let ghost mid0 = out@;
            while i < attrs.len()
                invariant
                    0 <= i <= attrs@.len(),
                    attrs_v == attrs_view(attrs@),
                    out@ + ser_attrs(attrs_v.skip(i as int)) == mid0 + ser_attrs(attrs_v),
                decreases attrs@.len() - i,
            {
                proof {
                    assert(attrs_v.skip(i as int)[0] == attrs_v[i as int]);
                    assert(attrs_v[i as int] == (attrs@[i as int].0@, attrs@[i as int].1@));
                    assert(attrs_v.skip(i as int).drop_first() =~= attrs_v.skip(i + 1));
                }
                out.push(' ');
                push_str_plain(out, attrs[i].0.as_str());
                out.push('=');
                out.push('"');
                push_escaped(out, attrs[i].1.as_str(), true);
                out.push('"');
                proof {
                    assert(out@ + ser_attrs(attrs_v.skip(i + 1)) =~= mid0 + ser_attrs(attrs_v));
                }
                i += 1;
            }
            proof {
                assert(ser_attrs(attrs_v.skip(attrs_v.len() as int)) == Seq::<char>::empty());
                assert(out@ =~= mid0 + ser_attrs(attrs_v));
            }
            out.push('>');
            if !is_void_tag(tag) {
                proof {
                    assert(*children == (*n)->Elem_children);
                    assert(decreases_to!(*n => (*n)->Elem_children));
                }
                serialize_nodes(children, out);
                out.push('<');
                out.push('/');
                push_str_plain(out, tag.as_str());
                out.push('>');
            }
            proof {
                assert(out@ =~= old(out)@ + ser_node(n@));
            }
        },
    }
}

pub fn push_str_plain(out: &mut Vec<char>, s: &str)
    ensures
        final(out)@ == old(out)@ + s@,
{
    let cs = strutil::str_chars(s);
    let mut i: usize = 0;
    while i < cs.len()
        invariant
            cs@ == s@,
            0 <= i <= cs@.len(),
            out@ == old(out)@ + cs@.subrange(0, i as int),
        decreases cs@.len() - i,
    {
        out.push(cs[i]);
        proof {
            assert(old(out)@ + cs@.subrange(0, i + 1) =~= (old(out)@ + cs@.subrange(
                0,
                i as int,
            )).push(cs@[i as int]));
        }
        i += 1;
    }
    proof {
        assert(out@ =~= old(out)@ + s@);
    }
}

/// Serialize a list of trees in order.
pub fn serialize_nodes(ns: &Vec<Node>, out: &mut Vec<char>)
    ensures
        final(out)@ == old(out)@ + ser_nodes(nodes_view(ns@)),
    decreases *ns,
{
    proof {
        lemma_nodes_view_len(ns@);
    }
    let mut i: usize = 0;
    while i < ns.len()
        invariant
            0 <= i <= ns@.len(),
            nodes_view(ns@).len() == ns@.len(),
            forall|k: int| 0 <= k < ns@.len() ==> #[trigger] nodes_view(ns@)[k] == node_view(
                ns@[k],
            ),
            out@ == old(out)@ + ser_nodes(nodes_view(ns@).subrange(0, i as int)),
        decreases ns@.len() - i,
    {
        proof {
            assert(decreases_to!(*ns => ns[i as int]));
        }
        serialize_node(&ns[i], out);
        proof {
            assert(nodes_view(ns@).subrange(0, i + 1) =~= nodes_view(ns@).subrange(
                0,
                i as int,
            ).push(nodes_view(ns@)[i as int]));
            lemma_ser_nodes_push(nodes_view(ns@).subrange(0, i as int), nodes_view(ns@)[i as int]);
        }
        i += 1;
    }
    proof {
        assert(nodes_view(ns@).subrange(0, ns@.len() as int) =~= nodes_view(ns@));
        assert(out@ =~= old(out)@ + ser_nodes(nodes_view(ns@)));
    }
}

} // verus!
