//! The metadata extractor: walk the document for JSON-LD blocks, `<meta>`
//! tags and the `<title>` element, and combine them into one record. JSON-LD
//! wins over tags, tags over the title text.

#![verifier::loop_isolation(false)]

use vstd::prelude::*;
use crate::dom::Node;
use crate::dom::NodeV;
use crate::dom::attr_of;
use crate::dom::get_attr;
use crate::dom::node_view;
use crate::dom::nodes_view;
use crate::dom::text_of;
use crate::jsonld::AUTHOR_FUEL;
use crate::jsonld::spec_jsonld;
use crate::meta::Meta;
use crate::meta::MetaV;
use crate::meta::merge_spec;
use crate::strutil;
use crate::strutil::find_sub;
use crate::strutil::normalize_ws;
use crate::strutil::trim;

use kuchiki::traits::TendrilSink;

verus! {

broadcast use vstd::std_specs::vec::group_vec_axioms;

/// What the HTML fragment parser yields for a string: the concatenated text
/// of the parsed fragment, character entities decoded and markup dropped.
pub uninterp spec fn fragment_text(s: Seq<char>) -> Seq<char>;

/// Relies on `kuchiki::parse_fragment` and `NodeRef::text_contents`: parsing
/// a string as an HTML fragment and reading the text of the result decodes
/// entities and drops markup; the result is a function of the input alone.
#[verifier::external_body]
pub fn parse_fragment_text(s: &str) -> (r: String)
    ensures
        r@ == fragment_text(s@),
{
    let ctx = html5ever::QualName::new(
        None,
        html5ever::Namespace::from("http://www.w3.org/1999/xhtml"),
        html5ever::LocalName::from("div"),
    );
    kuchiki::parse_fragment(ctx, Vec::new()).one(s).text_contents()
}

/// The element is `<script type="application/ld+json">`.
pub open spec fn is_jsonld_script(n: NodeV) -> bool {
    n is Elem && n->Elem_tag == "script"@ && attr_of(n->Elem_attrs, "type"@) == Some(
        "application/ld+json"@,
    )
}

/// Walk for the first JSON-LD block that parses: document order, the record
/// updated by the first accepted block only.
pub open spec fn jsonld_node(n: NodeV, m: MetaV) -> (bool, MetaV)
    decreases n,
{
    match n {
        NodeV::Elem { children, .. } => {
            if is_jsonld_script(n) {
                let out = spec_jsonld(text_of(n), m, AUTHOR_FUEL as nat);
                if out.0 is Ok {
                    (true, out.1)
                } else {
                    jsonld_walk(children, m)
                }
            } else {
                jsonld_walk(children, m)
            }
        },
        _ => (false, m),
    }
}

pub open spec fn jsonld_walk(ns: Seq<NodeV>, m: MetaV) -> (bool, MetaV)
    decreases ns,
{
    if ns.len() == 0 {
        (false, m)
    } else {
        let first = jsonld_node(ns[0], m);
        if first.0 {
            first
        } else {
            jsonld_walk(ns.drop_first(), m)
        }
    }
}

/// What one `<meta>` element's attributes do to the tag-derived record.
pub open spec fn meta_step(attrs: Seq<(Seq<char>, Seq<char>)>, m: MetaV) -> MetaV {
    match attr_of(attrs, "property"@) {
        Some(prop) => match attr_of(attrs, "content"@) {
            Some(content) => apply_property(prop, content, m),
            None => m,
        },
        None => match attr_of(attrs, "charset"@) {
            Some(cs) => MetaV { charset: Some(cs), ..m },
            None => match attr_of(attrs, "http-equiv"@) {
                Some(he) => {
                    if strutil::eq_ignore_case(he, "content-type"@) {
                        match attr_of(attrs, "content"@) {
                            Some(content) => match charset_of(content) {
                                Some(cs) => MetaV { charset: Some(cs), ..m },
                                None => m,
                            },
                            None => m,
                        }
                    } else {
                        m
                    }
                },
                None => m,
            },
        },
    }
}

/// The text after `charset=` in a `Content-Type` value, up to any further
/// `charset=`, whitespace-trimmed.
pub open spec fn charset_of(content: Seq<char>) -> Option<Seq<char>> {
    match find_sub(content, "charset="@) {
        Some(p) => {
            let rest = content.subrange(p + 8, content.len() as int);
            match find_sub(rest, "charset="@) {
                Some(q) => Some(trim(rest.subrange(0, q))),
                None => Some(trim(rest)),
            }
        },
        None => None,
    }
}

/// The property names that set each field.
pub open spec fn is_title_prop(p: Seq<char>) -> bool {
    p == "dc:title"@ || p == "dcterm:title"@ || p == "og:title"@ || p == "weibo:article:title"@
        || p == "weibo:webpage:title"@ || p == "title"@ || p == "twitter:title"@
}

pub open spec fn is_description_prop(p: Seq<char>) -> bool {
    p == "description"@ || p == "dc:description"@ || p == "dcterm:description"@
        || p == "og:description"@ || p == "weibo:article:description"@
        || p == "weibo:webpage:description"@ || p == "twitter:description"@
}

pub open spec fn is_author_prop(p: Seq<char>) -> bool {
    p == "dc:creator"@ || p == "dcterm:creator"@ || p == "author"@
}

/// A description is truncated at the first `". "`, keeping the prefix before
/// the dot.
pub open spec fn truncate_description(content: Seq<char>) -> Seq<char> {
    match find_sub(content, ". "@) {
        Some(p) => content.subrange(0, p),
        None => content,
    }
}

pub open spec fn apply_property(prop: Seq<char>, content: Seq<char>, m: MetaV) -> MetaV {
    if is_title_prop(prop) {
        MetaV { title: content, ..m }
    } else if is_description_prop(prop) {
        MetaV { description: Some(truncate_description(content)), ..m }
    } else if is_author_prop(prop) {
        MetaV { author: Some(content), ..m }
    } else {
        m
    }
}

/// Every `<meta>` element applied in document order.
pub open spec fn tag_meta_node(n: NodeV, m: MetaV) -> MetaV
    decreases n,
{
    match n {
        NodeV::Elem { tag, attrs, children } => {
            let m1 = if tag == "meta"@ {
                meta_step(attrs, m)
            } else {
                m
            };
            tag_meta_walk(children, m1)
        },
        _ => m,
    }
}

pub open spec fn tag_meta_walk(ns: Seq<NodeV>, m: MetaV) -> MetaV
    decreases ns,
{
    if ns.len() == 0 {
        m
    } else {
        tag_meta_walk(ns.drop_first(), tag_meta_node(ns[0], m))
    }
}

/// The whitespace-normal text of the first `<title>` element.
pub open spec fn first_title_node(n: NodeV) -> Option<Seq<char>>
    decreases n,
{
    match n {
        NodeV::Elem { tag, children, .. } => {
            if tag == "title"@ {
                Some(normalize_ws(text_of(n)))
            } else {
                first_title_walk(children)
            }
        },
        _ => None,
    }
}

pub open spec fn first_title_walk(ns: Seq<NodeV>) -> Option<Seq<char>>
    decreases ns,
{
    if ns.len() == 0 {
        None
    } else {
        match first_title_node(ns[0]) {
            Some(t) => Some(t),
            None => first_title_walk(ns.drop_first()),
        }
    }
}

/// A non-empty text run through the fragment parser, whitespace-normalized;
/// the original is kept where the result would be empty.
pub open spec fn refine_text(s: Seq<char>) -> Seq<char> {
    if s.len() == 0 {
        s
    } else {
        let ft = normalize_ws(fragment_text(s));
        if ft.len() > 0 {
            ft
        } else {
            s
        }
    }
}

/// The record extracted from a document: JSON-LD merged over tags, the title
/// falling back to `<title>`, then title and description re-read through the
/// fragment parser to decode entities and drop stray markup.
pub open spec fn spec_extract_metadata(dom: Seq<NodeV>) -> MetaV {
    let empty = MetaV {
        title: Seq::empty(),
        author: None,
        description: None,
        charset: None,
        last_modified: None,
    };
    let mj = jsonld_walk(dom, empty).1;
    let mt = tag_meta_walk(dom, empty);
    let merged = merge_spec(mj, mt);
    let with_title = if merged.title.len() == 0 {
        match first_title_walk(dom) {
            Some(t) => MetaV { title: t, ..merged },
            None => merged,
        }
    } else {
        merged
    };
    let refined_title = MetaV { title: refine_text(with_title.title), ..with_title };
    match refined_title.description {
        Some(d) => MetaV { description: Some(refine_text(d)), ..refined_title },
        None => refined_title,
    }
}

/// A block that is not accepted leaves the record as it was.
proof fn lemma_jsonld_node_unchanged(n: NodeV, m: MetaV)
    ensures
        !jsonld_node(n, m).0 ==> jsonld_node(n, m).1 == m,
    decreases n,
{
    match n {
        NodeV::Elem { children, .. } => {
            lemma_jsonld_walk_unchanged(children, m);
        },
        _ => {},
    }
}

proof fn lemma_jsonld_walk_unchanged(ns: Seq<NodeV>, m: MetaV)
    ensures
        !jsonld_walk(ns, m).0 ==> jsonld_walk(ns, m).1 == m,
    decreases ns,
{
    if ns.len() > 0 {
        lemma_jsonld_node_unchanged(ns[0], m);
        lemma_jsonld_walk_unchanged(ns.drop_first(), m);
    }
}

fn is_jsonld_script_exec(n: &Node) -> (r: bool)
    ensures
        r == is_jsonld_script(n@),
{
    match n {
        Node::Elem { tag, attrs, .. } => {
            if crate::dom::string_is(tag, "script") {
                match get_attr(attrs, "type") {
                    Some(v) => crate::dom::string_is(v, "application/ld+json"),
                    None => false,
                }
            } else {
                false
            }
        },
        _ => false,
    }
}

fn jsonld_node_exec(n: &Node, m: &mut Meta) -> (found: bool)
    requires
        crate::meta::meta_wf(old(m)@),
    ensures
        crate::meta::meta_wf(final(m)@),
        jsonld_node(n@, old(m)@) == (found, final(m)@),
    decreases *n,
{
    match n {
        Node::Elem { children, .. } => {
            if is_jsonld_script_exec(n) {
                let blob_chars = crate::dom::extract_text(n, false);
                let blob = strutil::chars_to_string(&blob_chars);
                let ghost m0 = m@;
                let res = crate::jsonld::try_parse_untyped_jsonld(blob.as_str(), m);
                if res.is_ok() {
                    return true;
                }
                // a rejected block leaves the record unchanged
                proof {
                    assert(m@ =~= m0);
                }
            }
            proof {
                assert(*children == (*n)->Elem_children);
                assert(decreases_to!(*n => (*n)->Elem_children));
            }
            jsonld_walk_exec(children, m)
        },
        _ => false,
    }
}

fn jsonld_walk_exec(ns: &Vec<Node>, m: &mut Meta) -> (found: bool)
    requires
        crate::meta::meta_wf(old(m)@),
    ensures
        crate::meta::meta_wf(final(m)@),
        jsonld_walk(nodes_view(ns@), old(m)@) == (found, final(m)@),
    decreases *ns,
{
    proof {
        crate::dom::lemma_nodes_view_len(ns@);
    }
    let ghost m0 = m@;
    proof {
        assert(nodes_view(ns@).skip(0) =~= nodes_view(ns@));
    }
    let mut i: usize = 0;
    while i < ns.len()
        invariant
            0 <= i <= ns@.len(),
            old(m)@ == m0,
            m@ == m0,
            nodes_view(ns@).len() == ns@.len(),
            forall|k: int| 0 <= k < ns@.len() ==> #[trigger] nodes_view(ns@)[k] == node_view(
                ns@[k],
            ),
            jsonld_walk(nodes_view(ns@), m0) == jsonld_walk(nodes_view(ns@).skip(i as int), m0),
        decreases ns@.len() - i,
    {
        proof {
            assert(decreases_to!(*ns => ns[i as int]));
            assert(nodes_view(ns@).skip(i as int)[0] == nodes_view(ns@)[i as int]);
            assert(nodes_view(ns@).skip(i as int).drop_first() =~= nodes_view(ns@).skip(i + 1));
        }
        let found = jsonld_node_exec(&ns[i], m);
        if found {
            return true;
        }
        proof {
            lemma_jsonld_node_unchanged(nodes_view(ns@)[i as int], m0);
        }
        i += 1;
    }
    proof {
        assert(nodes_view(ns@).skip(ns@.len() as int) =~= Seq::<NodeV>::empty());
    }
    false
}

fn apply_meta_elem(attrs: &Vec<(String, String)>, m: &mut Meta)
    ensures
        final(m)@ == meta_step(crate::dom::attrs_view(attrs@), old(m)@),
{
    match get_attr(attrs, "property") {
        Some(prop) => {
            let pc = strutil::str_chars(prop.as_str());
            match get_attr(attrs, "content") {
                Some(content) => {
                    if crate::json::str_is(&pc, "dc:title") || crate::json::str_is(
                        &pc,
                        "dcterm:title",
                    ) || crate::json::str_is(&pc, "og:title") || crate::json::str_is(
                        &pc,
                        "weibo:article:title",
                    ) || crate::json::str_is(&pc, "weibo:webpage:title") || crate::json::str_is(
                        &pc,
                        "title",
                    ) || crate::json::str_is(&pc, "twitter:title") {
                        m.title = content.clone();
                    } else if crate::json::str_is(&pc, "description") || crate::json::str_is(
                        &pc,
                        "dc:description",
                    ) || crate::json::str_is(&pc, "dcterm:description") || crate::json::str_is(
                        &pc,
                        "og:description",
                    ) || crate::json::str_is(&pc, "weibo:article:description")
                        || crate::json::str_is(&pc, "weibo:webpage:description")
                        || crate::json::str_is(&pc, "twitter:description") {
                        let cc = strutil::str_chars(content.as_str());
                        let mut pat: Vec<char> = Vec::new();
                        pat.push('.');
                        pat.push(' ');
                        proof {
                            reveal_strlit(". ");
                            assert(pat@ =~= ". "@);
                            crate::title::lemma_find_sub_bounds(cc@, ". "@, 0);
                        }
                        let truncated = match strutil::find_in(&cc, &pat) {
                            Some(p) => strutil::sub_chars(&cc, 0, p),
                            None => strutil::sub_chars(&cc, 0, cc.len()),
                        };
                        proof {
                            assert(cc@.subrange(0, cc@.len() as int) =~= cc@);
                        }
                        m.description = Some(strutil::chars_to_string(&truncated));
                    } else if crate::json::str_is(&pc, "dc:creator") || crate::json::str_is(
                        &pc,
                        "dcterm:creator",
                    ) || crate::json::str_is(&pc, "author") {
                        m.author = Some(content.clone());
                    }
                },
                None => {},
            }
        },
        None => {
            match get_attr(attrs, "charset") {
                Some(cs) => {
                    m.charset = Some(cs.clone());
                },
                None => {
                    match get_attr(attrs, "http-equiv") {
                        Some(he) => {
                            let hc = strutil::str_chars(he.as_str());
                            let lit = strutil::str_chars("content-type");
                            if strutil::chars_eq_ignore_case(&hc, &lit) {
                                match get_attr(attrs, "content") {
                                    Some(content) => {
                                        let cc = strutil::str_chars(content.as_str());
                                        let mut pat: Vec<char> = Vec::new();
                                        pat.push('c');
                                        pat.push('h');
                                        pat.push('a');
                                        pat.push('r');
                                        pat.push('s');
                                        pat.push('e');
                                        pat.push('t');
                                        pat.push('=');
                                        proof {
                                            reveal_strlit("charset=");
                                            assert(pat@ =~= "charset="@);
                                            crate::title::lemma_find_sub_bounds(cc@, "charset="@, 0);
                                        }
                                        let cl = cc.len();
                                        match strutil::find_in(&cc, &pat) {
                                            Some(p) => {
                                                let rest = strutil::sub_chars(&cc, p + 8, cl);
                                                proof {
                                                    crate::title::lemma_find_sub_bounds(
                                                        rest@,
                                                        "charset="@,
                                                        0,
                                                    );
                                                }
                                                let piece = match strutil::find_in(&rest, &pat) {
                                                    Some(q) => strutil::sub_chars(&rest, 0, q),
                                                    None => strutil::sub_chars(
                                                        &rest,
                                                        0,
                                                        rest.len(),
                                                    ),
                                                };
                                                proof {
                                                    assert(rest@.subrange(0, rest@.len() as int)
                                                        =~= rest@);
                                                }
                                                let t = strutil::trim_chars(&piece);
                                                m.charset = Some(strutil::chars_to_string(&t));
                                            },
                                            None => {},
                                        }
                                    },
                                    None => {},
                                }
                            }
                        },
                        None => {},
                    }
                },
            }
        },
    }
    proof {
        assert(m@ =~= meta_step(crate::dom::attrs_view(attrs@), old(m)@));
    }
}

fn tag_meta_node_exec(n: &Node, m: &mut Meta)
    ensures
        final(m)@ == tag_meta_node(n@, old(m)@),
        final(m)@.last_modified == old(m)@.last_modified,
    decreases *n,
{
    match n {
        Node::Elem { tag, attrs, children } => {
            if crate::dom::string_is(tag, "meta") {
                apply_meta_elem(attrs, m);
            }
            proof {
                assert(*children == (*n)->Elem_children);
                assert(decreases_to!(*n => (*n)->Elem_children));
            }
            tag_meta_walk_exec(children, m);
        },
        _ => {},
    }
}

fn tag_meta_walk_exec(ns: &Vec<Node>, m: &mut Meta)
    ensures
        final(m)@ == tag_meta_walk(nodes_view(ns@), old(m)@),
        final(m)@.last_modified == old(m)@.last_modified,
    decreases *ns,
{
    proof {
        crate::dom::lemma_nodes_view_len(ns@);
    }
    let ghost m0 = m@;
    proof {
        assert(nodes_view(ns@).skip(0) =~= nodes_view(ns@));
    }
    let mut i: usize = 0;
    while i < ns.len()
        invariant
            0 <= i <= ns@.len(),
            nodes_view(ns@).len() == ns@.len(),
            forall|k: int| 0 <= k < ns@.len() ==> #[trigger] nodes_view(ns@)[k] == node_view(
                ns@[k],
            ),
            old(m)@ == m0,
            m@.last_modified == m0.last_modified,
            tag_meta_walk(nodes_view(ns@), m0) == tag_meta_walk(
                nodes_view(ns@).skip(i as int),
                m@,
            ),
        decreases ns@.len() - i,
    {
        proof {
            assert(decreases_to!(*ns => ns[i as int]));
            assert(nodes_view(ns@).skip(i as int)[0] == nodes_view(ns@)[i as int]);
            assert(nodes_view(ns@).skip(i as int).drop_first() =~= nodes_view(ns@).skip(i + 1));
        }
        tag_meta_node_exec(&ns[i], m);
        i += 1;
    }
    proof {
        assert(nodes_view(ns@).skip(ns@.len() as int) =~= Seq::<NodeV>::empty());
    }
}

fn first_title_node_exec(n: &Node) -> (r: Option<Vec<char>>)
    ensures
        match r {
            Some(t) => first_title_node(n@) == Some(t@),
            None => first_title_node(n@) is None,
        },
    decreases *n,
{
    match n {
        Node::Elem { tag, children, .. } => {
            if crate::dom::string_is(tag, "title") {
                Some(crate::dom::extract_text(n, true))
            } else {
                proof {
                    assert(*children == (*n)->Elem_children);
                    assert(decreases_to!(*n => (*n)->Elem_children));
                }
                first_title_walk_exec(children)
            }
        },
        _ => None,
    }
}

fn first_title_walk_exec(ns: &Vec<Node>) -> (r: Option<Vec<char>>)
    ensures
        match r {
            Some(t) => first_title_walk(nodes_view(ns@)) == Some(t@),
            None => first_title_walk(nodes_view(ns@)) is None,
        },
    decreases *ns,
{
    proof {
        crate::dom::lemma_nodes_view_len(ns@);
        assert(nodes_view(ns@).skip(0) =~= nodes_view(ns@));
    }
    let mut i: usize = 0;
    while i < ns.len()
        invariant
            0 <= i <= ns@.len(),
            nodes_view(ns@).len() == ns@.len(),
            forall|k: int| 0 <= k < ns@.len() ==> #[trigger] nodes_view(ns@)[k] == node_view(
                ns@[k],
            ),
            first_title_walk(nodes_view(ns@)) == first_title_walk(
                nodes_view(ns@).skip(i as int),
            ),
        decreases ns@.len() - i,
    {
        proof {
            assert(decreases_to!(*ns => ns[i as int]));
            assert(nodes_view(ns@).skip(i as int)[0] == nodes_view(ns@)[i as int]);
            assert(nodes_view(ns@).skip(i as int).drop_first() =~= nodes_view(ns@).skip(i + 1));
        }
        match first_title_node_exec(&ns[i]) {
            Some(t) => {
                return Some(t);
            },
            None => {},
        }
        i += 1;
    }
    proof {
        assert(nodes_view(ns@).skip(ns@.len() as int) =~= Seq::<NodeV>::empty());
    }
    None
}

/// Refine a non-empty text through the fragment parser.
fn refine_text_exec(s: String) -> (r: String)
    ensures
        r@ == refine_text(s@),
{
    if s.as_str().unicode_len() == 0 {
        return s;
    }
    let raw = parse_fragment_text(s.as_str());
    let rc = strutil::str_chars(raw.as_str());
    let norm = strutil::normalize_ws_chars(&rc);
    if norm.len() > 0 {
        strutil::chars_to_string(&norm)
    } else {
        s
    }
}

/// Extract the metadata record of a document, per `spec_extract_metadata`.
pub fn extract_metadata(roots: &Vec<Node>) -> (r: Meta)
    ensures
        r@ == spec_extract_metadata(nodes_view(roots@)),
        crate::meta::meta_wf(r@),
{
    let mut mj = Meta::default();
    proof {
        assert(mj@ =~= (MetaV {
            title: Seq::empty(),
            author: None,
            description: None,
            charset: None,
            last_modified: None,
        }));
    }
    let _found = jsonld_walk_exec(roots, &mut mj);
    let mut mt = Meta::default();
    proof {
        assert(mt@ =~= (MetaV {
            title: Seq::empty(),
            author: None,
            description: None,
            charset: None,
            last_modified: None,
        }));
    }
    tag_meta_walk_exec(roots, &mut mt);
    let mut merged = mj.merge(mt);
    if merged.title.as_str().unicode_len() == 0 {
        match first_title_walk_exec(roots) {
            Some(t) => {
                merged.title = strutil::chars_to_string(&t);
            },
            None => {},
        }
    }
    let title = refine_text_exec(merged.title);
    let description = match merged.description {
        Some(d) => Some(refine_text_exec(d)),
        None => None,
    };
    let r = Meta {
        title,
        author: merged.author,
        description,
        charset: merged.charset,
        last_modified: merged.last_modified,
    };
    proof {
        assert(r@ =~= spec_extract_metadata(nodes_view(roots@)));
    }
    r
}

} // verus!
