//! The selector and the end of the pipeline: keep the five best candidates,
//! pick the top one, look for a stronger ancestor, merge related siblings,
//! clean low-value descendants, inject the metadata header and serialize.

#![verifier::loop_isolation(false)]

use vstd::prelude::*;
use crate::dom::Node;
use crate::dom::NodeV;
use crate::dom::attrs_view;
use crate::dom::node_view;
use crate::dom::nodes_view;
use crate::dom::ser_node;
use crate::dom::string_is;
use crate::dom::text_of;
use crate::meta::Meta;
use crate::meta::MetaV;
use crate::meta::fmt_updated;
use crate::meta::date_parts_wf;
use crate::score::cands_view;
use crate::score::clamp64;
use crate::score::comma_count;
use crate::score::link_len;
use crate::score::tdiv;
use crate::score::text_len;
use crate::strutil;
use crate::strutil::normalize_ws;
use crate::strutil::trim;

use kuchiki::traits::TendrilSink;

verus! {

broadcast use vstd::std_specs::vec::group_vec_axioms;

/// The extraction product: the metadata record and the serialized fragment.
#[derive(Debug)]
pub struct Product {
    pub meta: Meta,
    pub content: String,
}

/// Why an extraction failed.
#[derive(Debug, PartialEq, Eq)]
pub enum ExtractError {
    NoCandidates,
}

impl ExtractError {
    /// The human-readable message of this failure.
    pub fn message(&self) -> (r: &'static str)
        ensures
            r@ == "No candidates found."@,
    {
        "No candidates found."
    }
}

/// The rule switches handed to the cleaner: a name mapped to zero disables
/// the rule, any other value (or no entry) leaves it on.
pub struct Features {
    pub entries: Vec<(String, u32)>,
}

pub open spec fn feature_lookup(entries: Seq<(String, u32)>, name: Seq<char>) -> Option<u32>
    decreases entries.len(),
{
    if entries.len() == 0 {
        None
    } else if entries[0].0@ == name {
        Some(entries[0].1)
    } else {
        feature_lookup(entries.drop_first(), name)
    }
}

pub open spec fn feature_on(entries: Seq<(String, u32)>, name: Seq<char>) -> bool {
    match feature_lookup(entries, name) {
        Some(v) => v != 0,
        None => true,
    }
}

impl Features {
    pub fn new() -> (r: Features)
        ensures
            r.entries@.len() == 0,
    {
        Features { entries: Vec::new() }
    }

    pub fn set(&mut self, name: String, value: u32)
        ensures
            final(self).entries@ == old(self).entries@.push((name, value)),
    {
        self.entries.push((name, value));
    }

    fn on(&self, name: &str) -> (r: bool)
        ensures
            r == feature_on(self.entries@, name@),
    {
        let nc = strutil::str_chars(name);
        proof {
            assert(self.entries@.skip(0) =~= self.entries@);
        }
        let mut i: usize = 0;
        while i < self.entries.len()
            invariant
                0 <= i <= self.entries@.len(),
                feature_lookup(self.entries@, name@) == feature_lookup(
                    self.entries@.skip(i as int),
                    name@,
                ),
            decreases self.entries@.len() - i,
        {
            proof {
                assert(self.entries@.skip(i as int)[0] == self.entries@[i as int]);
                assert(self.entries@.skip(i as int).drop_first() =~= self.entries@.skip(i + 1));
            }
            let kc = strutil::str_chars(self.entries[i].0.as_str());
            if strutil::chars_eq(&kc, &nc) {
                return self.entries[i].1 != 0;
            }
            i += 1;
        }
        proof {
            assert(self.entries@.skip(self.entries@.len() as int) =~= Seq::<
                (String, u32),
            >::empty());
        }
        true
    }
}

/// The index of the smallest score, earliest on ties, folded left to right.
pub open spec fn argmin_acc(acc: Seq<(Seq<usize>, int)>, i: int, best: int) -> int
    decreases acc.len() - i,
{
    if i < 0 || i >= acc.len() || best < 0 || best >= acc.len() {
        best
    } else if acc[i].1 < acc[best].1 {
        argmin_acc(acc, i + 1, i)
    } else {
        argmin_acc(acc, i + 1, best)
    }
}

/// The index of the largest score, earliest on ties.
pub open spec fn argmax_acc(acc: Seq<(Seq<usize>, int)>, i: int, best: int) -> int
    decreases acc.len() - i,
{
    if i < 0 || i >= acc.len() || best < 0 || best >= acc.len() {
        best
    } else if acc[i].1 > acc[best].1 {
        argmax_acc(acc, i + 1, i)
    } else {
        argmax_acc(acc, i + 1, best)
    }
}

/// The running top-five retention: append while there is room, else replace
/// the current minimum when the newcomer beats it.
pub open spec fn top5_sel(cs: Seq<(Seq<usize>, int)>, i: int, acc: Seq<(Seq<usize>, int)>) -> Seq<
    (Seq<usize>, int),
>
    decreases cs.len() - i,
{
    if i < 0 || i >= cs.len() {
        acc
    } else if acc.len() < 5 {
        top5_sel(cs, i + 1, acc.push(cs[i]))
    } else {
        let m = argmin_acc(acc, 1, 0);
        if cs[i].1 > acc[m].1 {
            top5_sel(cs, i + 1, acc.update(m, cs[i]))
        } else {
            top5_sel(cs, i + 1, acc)
        }
    }
}

/// One path is an ancestor-or-self prefix of another.
pub open spec fn is_prefix(a: Seq<usize>, b: Seq<usize>) -> bool {
    a.len() <= b.len() && b.subrange(0, a.len() as int) == a
}

/// How many of the other retained candidates sit under this ancestor with at
/// least three quarters of the top score.
pub open spec fn qual_count(
    others: Seq<(Seq<usize>, int)>,
    prefix: Seq<usize>,
    top_score: int,
    i: int,
) -> int
    decreases others.len() - i,
{
    if i < 0 || i >= others.len() {
        0
    } else {
        (if is_prefix(prefix, others[i].0) && 4 * others[i].1 >= 3 * top_score {
            1int
        } else {
            0int
        }) + qual_count(others, prefix, top_score, i + 1)
    }
}

/// The shortest (highest) ancestor prefix of the top path containing at
/// least three strong other candidates, if any.
pub open spec fn alt_from(top: (Seq<usize>, int), others: Seq<(Seq<usize>, int)>, depth: int)
    -> Option<Seq<usize>>
    decreases top.0.len() - depth,
{
    if depth <= 0 || depth >= top.0.len() {
        None
    } else if qual_count(others, top.0.subrange(0, depth), top.1, 0) >= 3 {
        Some(top.0.subrange(0, depth))
    } else {
        alt_from(top, others, depth + 1)
    }
}

fn argmin_exec(acc: &Vec<(Vec<usize>, i64)>) -> (r: usize)
    requires
        acc@.len() > 0,
    ensures
        r < acc@.len(),
        r as int == argmin_acc(cands_view(acc@), 1, 0),
{
    let mut best: usize = 0;
    let mut i: usize = 1;
    while i < acc.len()
        invariant
            0 <= best < acc@.len(),
            1 <= i <= acc@.len(),
            argmin_acc(cands_view(acc@), 1, 0) == argmin_acc(
                cands_view(acc@),
                i as int,
                best as int,
            ),
        decreases acc@.len() - i,
    {
        if acc[i].1 < acc[best].1 {
            best = i;
        }
        i += 1;
    }
    best
}

fn argmax_exec(acc: &Vec<(Vec<usize>, i64)>) -> (r: usize)
    requires
        acc@.len() > 0,
    ensures
        r < acc@.len(),
        r as int == argmax_acc(cands_view(acc@), 1, 0),
{
    let mut best: usize = 0;
    let mut i: usize = 1;
    while i < acc.len()
        invariant
            0 <= best < acc@.len(),
            1 <= i <= acc@.len(),
            argmax_acc(cands_view(acc@), 1, 0) == argmax_acc(
                cands_view(acc@),
                i as int,
                best as int,
            ),
        decreases acc@.len() - i,
    {
        if acc[i].1 > acc[best].1 {
            best = i;
        }
        i += 1;
    }
    best
}

fn clone_path(p: &Vec<usize>) -> (r: Vec<usize>)
    ensures
        r@ == p@,
{
    let mut r: Vec<usize> = Vec::new();
    let mut k: usize = 0;
    while k < p.len()
        invariant
            0 <= k <= p@.len(),
            r@ == p@.subrange(0, k as int),
        decreases p@.len() - k,
    {
        r.push(p[k]);
        proof {
            assert(r@ =~= p@.subrange(0, k + 1));
        }
        k += 1;
    }
    proof {
        assert(r@ =~= p@);
    }
    r
}

/// The five best candidates of the list, by the running retention rule.
pub fn select_top5(cands: &Vec<(Vec<usize>, i64)>) -> (r: Vec<(Vec<usize>, i64)>)
    ensures
        cands_view(r@) == top5_sel(cands_view(cands@), 0, Seq::empty()),
{
    let mut acc: Vec<(Vec<usize>, i64)> = Vec::new();
    proof {
        assert(cands_view(acc@) =~= Seq::<(Seq<usize>, int)>::empty());
    }
    let mut i: usize = 0;
    while i < cands.len()
        invariant
            0 <= i <= cands@.len(),
            acc@.len() <= 5,
            top5_sel(cands_view(cands@), 0, Seq::empty()) == top5_sel(
                cands_view(cands@),
                i as int,
                cands_view(acc@),
            ),
        decreases cands@.len() - i,
    {
        let item = (clone_path(&cands[i].0), cands[i].1);
        proof {
            assert(cands_view(cands@)[i as int] == (cands@[i as int].0@, cands@[i as int].1 as int));
        }
        if acc.len() < 5 {
            let ghost before = cands_view(acc@);
            acc.push(item);
            proof {
                assert(cands_view(acc@) =~= before.push(cands_view(cands@)[i as int]));
            }
        } else {
            let m = argmin_exec(&acc);
            if cands[i].1 > acc[m].1 {
                let ghost before = cands_view(acc@);
                acc.set(m, item);
                proof {
                    assert(cands_view(acc@) =~= before.update(
                        m as int,
                        cands_view(cands@)[i as int],
                    ));
                }
            }
        }
        i += 1;
    }
    acc
}

/// The score retained for a path, zero where it is no candidate.
pub open spec fn score_at(cands: Seq<(Seq<usize>, int)>, path: Seq<usize>) -> int
    decreases cands.len(),
{
    if cands.len() == 0 {
        0
    } else if cands[0].0 == path {
        cands[0].1
    } else {
        score_at(cands.drop_first(), path)
    }
}

fn paths_eq(a: &Vec<usize>, b: &Vec<usize>) -> (r: bool)
    ensures
        r == (a@ == b@),
{
    if a.len() != b.len() {
        proof {
            assert(a@.len() != b@.len());
        }
        return false;
    }
    let mut k: usize = 0;
    while k < a.len()
        invariant
            a@.len() == b@.len(),
            0 <= k <= a@.len(),
            forall|j: int| 0 <= j < k ==> a@[j] == b@[j],
        decreases a@.len() - k,
    {
        if a[k] != b[k] {
            return false;
        }
        k += 1;
    }
    proof {
        assert(a@ =~= b@);
    }
    true
}

fn score_at_exec(cands: &Vec<(Vec<usize>, i64)>, path: &Vec<usize>) -> (r: i64)
    ensures
        r as int == score_at(cands_view(cands@), path@),
{
    proof {
        assert(cands_view(cands@).skip(0) =~= cands_view(cands@));
    }
    let mut i: usize = 0;
    while i < cands.len()
        invariant
            0 <= i <= cands@.len(),
            score_at(cands_view(cands@), path@) == score_at(
                cands_view(cands@).skip(i as int),
                path@,
            ),
        decreases cands@.len() - i,
    {
        proof {
            assert(cands_view(cands@).skip(i as int)[0] == cands_view(cands@)[i as int]);
            assert(cands_view(cands@).skip(i as int).drop_first() =~= cands_view(cands@).skip(
                i + 1,
            ));
        }
        if paths_eq(&cands[i].0, path) {
            return cands[i].1;
        }
        i += 1;
    }
    proof {
        assert(cands_view(cands@).skip(cands@.len() as int) =~= Seq::<(Seq<usize>, int)>::empty());
    }
    0
}

fn is_prefix_exec(a: &Vec<usize>, b: &Vec<usize>) -> (r: bool)
    ensures
        r == is_prefix(a@, b@),
{
    if a.len() > b.len() {
        return false;
    }
    let mut k: usize = 0;
    while k < a.len()
        invariant
            a@.len() <= b@.len(),
            0 <= k <= a@.len(),
            forall|j: int| 0 <= j < k ==> a@[j] == b@[j],
        decreases a@.len() - k,
    {
        if a[k] != b[k] {
            proof {
                assert(b@.subrange(0, a@.len() as int)[k as int] == b@[k as int]);
            }
            return false;
        }
        k += 1;
    }
    proof {
        assert(b@.subrange(0, a@.len() as int) =~= a@);
    }
    true
}

/// The ancestor search: walk the top candidate's ancestor chain from the
/// highest level down, and take the first level at which at least three of
/// the other retained candidates sit below with a strong enough score.
pub fn search_alternative(top: &(Vec<usize>, i64), others: &Vec<(Vec<usize>, i64)>) -> (r: Option<
    Vec<usize>,
>)
    ensures
        match r {
            Some(p) => alt_from((top.0@, top.1 as int), cands_view(others@), 1) == Some(p@),
            None => alt_from((top.0@, top.1 as int), cands_view(others@), 1) is None,
        },
{
    let mut depth: usize = 1;
    while depth < top.0.len()
        invariant
            1 <= depth,
            alt_from((top.0@, top.1 as int), cands_view(others@), 1) == alt_from(
                (top.0@, top.1 as int),
                cands_view(others@),
                depth as int,
            ),
        decreases top.0@.len() - depth,
    {
        let prefix = sub_path(&top.0, depth);
        let mut count: usize = 0;
        let mut i: usize = 0;
        while i < others.len()
            invariant
                0 <= i <= others@.len(),
                count <= i,
                prefix@ == top.0@.subrange(0, depth as int),
                qual_count(cands_view(others@), prefix@, top.1 as int, 0) == count + qual_count(
                    cands_view(others@),
                    prefix@,
                    top.1 as int,
                    i as int,
                ),
            decreases others@.len() - i,
        {
            proof {
                assert(cands_view(others@)[i as int] == (others@[i as int].0@, others@[i as int].1
                    as int));
            }
            let strong = {
                let s = others[i].1;
                let t = top.1;
                (s as i128) * 4 >= (t as i128) * 3
            };
            if is_prefix_exec(&prefix, &others[i].0) && strong {
                count += 1;
            }
            i += 1;
        }
        if count >= 3 {
            return Some(prefix);
        }
        depth += 1;
    }
    None
}

fn sub_path(p: &Vec<usize>, k: usize) -> (r: Vec<usize>)
    requires
        k <= p@.len(),
    ensures
        r@ == p@.subrange(0, k as int),
{
    let mut r: Vec<usize> = Vec::new();
    let mut j: usize = 0;
    while j < k
        invariant
            0 <= j <= k <= p@.len(),
            r@ == p@.subrange(0, j as int),
        decreases k - j,
    {
        r.push(p[j]);
        proof {
            assert(r@ =~= p@.subrange(0, j + 1));
        }
        j += 1;
    }
    r
}



/// The node reached from the roots along a path of child indices.
pub open spec fn node_at(ns: Seq<NodeV>, path: Seq<usize>) -> Option<NodeV>
    decreases path.len(),
{
    if path.len() == 0 {
        None
    } else if path[0] >= ns.len() {
        None
    } else {
        let n = ns[path[0] as int];
        if path.len() == 1 {
            Some(n)
        } else {
            match n {
                NodeV::Elem { children, .. } => node_at(children, path.drop_first()),
                _ => None,
            }
        }
    }
}

/// The sibling-merge test: an element of the top candidate's kind with a
/// score at least a fifth of the top's (and at least ten points), or a
/// paragraph that is long and link-poor, or link-free and ending with a
/// full stop.
pub open spec fn include_sib(
    sib: NodeV,
    path: Seq<usize>,
    top_tag: Seq<char>,
    top_score: int,
    cands: Seq<(Seq<usize>, int)>,
) -> bool {
    sib is Elem && {
        let total = clamp64(text_len(sib));
        let link = clamp64(link_len(sib));
        let threshold = if 1800 > tdiv(top_score, 5) {
            1800int
        } else {
            tdiv(top_score, 5)
        };
        (sib->Elem_tag == top_tag && score_at(cands, path) >= threshold) || (sib->Elem_tag == "p"@
            && ((4 * link < total && total > 80) || (link == 0 && ends_with_stop(sib))))
    }
}

/// The whitespace-normal text ends with a full stop.
pub open spec fn ends_with_stop(n: NodeV) -> bool {
    let t = normalize_ws(text_of(n));
    t.len() > 0 && t.last() == '.'
}

/// The siblings merged into the top candidate, in their original order.
pub open spec fn included_sibs(
    children: Seq<NodeV>,
    parent_path: Seq<usize>,
    top_idx: int,
    top_tag: Seq<char>,
    top_score: int,
    cands: Seq<(Seq<usize>, int)>,
    k: int,
) -> Seq<NodeV>
    decreases children.len() - k,
{
    if k < 0 || k >= children.len() {
        Seq::empty()
    } else {
        let rest = included_sibs(children, parent_path, top_idx, top_tag, top_score, cands, k + 1);
        if k != top_idx && include_sib(
            children[k],
            parent_path.push(k as usize),
            top_tag,
            top_score,
            cands,
        ) {
            seq![children[k]] + rest
        } else {
            rest
        }
    }
}

/// The top candidate with the merged siblings appended to its children.
pub open spec fn assemble(top: NodeV, extra: Seq<NodeV>) -> NodeV {
    match top {
        NodeV::Elem { tag, attrs, children } => NodeV::Elem { tag, attrs, children: children + extra },
        _ => top,
    }
}

/// What the URL library yields when a reference is resolved against a base:
/// nothing where the base does not parse or the join fails.
pub uninterp spec fn url_join(base: Seq<char>, rel: Seq<char>) -> Option<Seq<char>>;

/// Relies on `url::Url::parse`, `Url::join` and the display form of the
/// resolved URL: the result is a function of the two strings alone.
#[verifier::external_body]
fn join_url(base: &str, rel: &str) -> (r: Option<String>)
    ensures
        match r {
            Some(u) => url_join(base@, rel@) == Some(u@),
            None => url_join(base@, rel@) is None,
        },
{
    match url::Url::parse(base) {
        Ok(b) => match b.join(rel) {
            Ok(u) => Some(u.to_string()),
            Err(_) => None,
        },
        Err(_) => None,
    }
}

/// Whether a string parses as an absolute URL.
pub uninterp spec fn url_ok(s: Seq<char>) -> bool;

/// Relies on `url::Url::parse`: acceptance is a function of the string alone.
#[verifier::external_body]
fn parse_url_ok(s: &str) -> (r: bool)
    ensures
        r == url_ok(s@),
{
    url::Url::parse(s).is_ok()
}

/// An element the cleaner always removes, or removes under a rule switch:
/// forms and embedded objects; a heading that repeats the title; a
/// link-heavy, comma-poor table, list, division or section.
pub open spec fn removable(n: NodeV, title: Seq<char>, hclean: bool, tclean: bool) -> bool {
    match n {
        NodeV::Elem { tag, children, .. } => {
            tag == "form"@ || tag == "object"@ || tag == "embed"@ || tag == "iframe"@ || (hclean
                && tag == "h1"@ && trim(normalize_ws(text_of(n))) == trim(title) && text_len(n)
                > 0) || (tclean && (tag == "table"@ || tag == "ul"@ || tag == "div"@ || tag
                == "section"@) && comma_count(normalize_ws(text_of(n))) < 3 && 3 * clamp64(
                link_len(n),
            ) > 2 * clamp64(text_len(n)))
        },
        _ => false,
    }
}

/// Attributes with `src` and `href` values resolved against the base URL
/// where resolution succeeds.
pub open spec fn resolve_attrs(attrs: Seq<(Seq<char>, Seq<char>)>, base: Seq<char>) -> Seq<
    (Seq<char>, Seq<char>),
>
    decreases attrs.len(),
{
    if attrs.len() == 0 {
        Seq::empty()
    } else {
        let a = attrs[0];
        let v = if a.0 == "src"@ || a.0 == "href"@ {
            match url_join(base, a.1) {
                Some(u) => u,
                None => a.1,
            }
        } else {
            a.1
        };
        seq![(a.0, v)] + resolve_attrs(attrs.drop_first(), base)
    }
}

/// Clean a kept node: resolve its links and clean its children.
pub open spec fn spec_clean_node(
    n: NodeV,
    title: Seq<char>,
    hclean: bool,
    tclean: bool,
    base: Seq<char>,
) -> NodeV
    decreases n, 1int,
{
    match n {
        NodeV::Elem { tag, attrs, children } => NodeV::Elem {
            tag,
            attrs: resolve_attrs(attrs, base),
            children: spec_clean_list(children, title, hclean, tclean, base),
        },
        _ => n,
    }
}

pub open spec fn spec_clean_list(
    ns: Seq<NodeV>,
    title: Seq<char>,
    hclean: bool,
    tclean: bool,
    base: Seq<char>,
) -> Seq<NodeV>
    decreases ns, 0int,
{
    if ns.len() == 0 {
        Seq::empty()
    } else {
        let rest = spec_clean_list(ns.drop_first(), title, hclean, tclean, base);
        if removable(ns[0], title, hclean, tclean) {
            rest
        } else {
            seq![spec_clean_node(ns[0], title, hclean, tclean, base)] + rest
        }
    }
}

/// An attribute list with `name` set to `value`, replacing the first
/// existing entry of that name.
pub open spec fn set_attr_spec(
    attrs: Seq<(Seq<char>, Seq<char>)>,
    name: Seq<char>,
    value: Seq<char>,
) -> Seq<(Seq<char>, Seq<char>)>
    decreases attrs.len(),
{
    if attrs.len() == 0 {
        seq![(name, value)]
    } else if attrs[0].0 == name {
        seq![(name, value)] + attrs.drop_first()
    } else {
        seq![attrs[0]] + set_attr_spec(attrs.drop_first(), name, value)
    }
}

/// The metadata header nodes injected before the article: title, subhead,
/// byline and date, each only when the record carries it.
pub open spec fn header_nodes(m: MetaV) -> Seq<NodeV> {
    let t: Seq<NodeV> = if m.title.len() > 0 {
        seq![
            NodeV::Elem {
                tag: "h1"@,
                attrs: seq![("class"@, "title metadata"@)],
                children: seq![NodeV::Text(m.title)],
            },
        ]
    } else {
        Seq::empty()
    };
    let d: Seq<NodeV> = match m.description {
        Some(desc) => seq![
            NodeV::Elem {
                tag: "p"@,
                attrs: seq![("class"@, "subhead metadata"@)],
                children: seq![NodeV::Text(desc)],
            },
        ],
        None => Seq::empty(),
    };
    let a: Seq<NodeV> = match m.author {
        Some(author) => seq![
            NodeV::Elem {
                tag: "p"@,
                attrs: seq![("class"@, "metadata"@)],
                children: seq![NodeV::Text("By "@ + author)],
            },
        ],
        None => Seq::empty(),
    };
    let dt: Seq<NodeV> = match m.last_modified {
        Some(parts) => seq![
            NodeV::Elem {
                tag: "p"@,
                attrs: seq![("class"@, "metadata date"@)],
                children: seq![NodeV::Text(fmt_updated(parts))],
            },
        ],
        None => Seq::empty(),
    };
    let heads = t + d + a + dt;
    if heads.len() > 0 {
        heads + seq![NodeV::Elem { tag: "hr"@, attrs: Seq::empty(), children: Seq::empty() }]
    } else {
        heads
    }
}

/// The post-processed article: `id="article"` on the root and, when the root
/// has content, the metadata header before it.
pub open spec fn spec_post(top: NodeV, m: MetaV) -> NodeV {
    match top {
        NodeV::Elem { tag, attrs, children } => {
            let with_id = set_attr_spec(attrs, "id"@, "article"@);
            let kids = if children.len() > 0 {
                header_nodes(m) + children
            } else {
                children
            };
            NodeV::Elem { tag, attrs: with_id, children: kids }
        },
        _ => top,
    }
}

/// The serialized product: the charset declaration, where one was found,
/// then the article subtree.
pub open spec fn spec_content(top: NodeV, m: MetaV) -> Seq<char> {
    let body = ser_node(spec_post(top, m));
    match m.charset {
        Some(cs) => "<meta charset=\""@ + cs + "\"/>"@ + body,
        None => body,
    }
}



/// Walk to the node a path denotes.
fn get_node<'a>(ns: &'a Vec<Node>, path: &Vec<usize>, from: usize) -> (r: Option<&'a Node>)
    requires
        from <= path@.len(),
    ensures
        match r {
            Some(n) => node_at(nodes_view(ns@), path@.skip(from as int)) == Some(n@),
            None => node_at(nodes_view(ns@), path@.skip(from as int)) is None,
        },
    decreases path@.len() - from,
{
    proof {
        crate::dom::lemma_nodes_view_len(ns@);
    }
    if from == path.len() {
        proof {
            assert(path@.skip(from as int) =~= Seq::<usize>::empty());
        }
        return None;
    }
    let idx = path[from];
    if idx >= ns.len() {
        proof {
            assert(path@.skip(from as int)[0] == path@[from as int]);
        }
        return None;
    }
    proof {
        assert(path@.skip(from as int)[0] == path@[from as int]);
        assert(path@.skip(from as int).drop_first() =~= path@.skip(from + 1));
    }
    if from + 1 == path.len() {
        proof {
            assert(path@.skip(from as int).len() == 1);
        }
        Some(&ns[idx])
    } else {
        match &ns[idx] {
            Node::Elem { children, .. } => {
                let r = get_node(children, path, from + 1);
                proof {
                    assert(nodes_view(ns@)[idx as int] == node_view(ns@[idx as int]));
                }
                r
            },
            _ => {
                proof {
                    assert(nodes_view(ns@)[idx as int] == node_view(ns@[idx as int]));
                }
                None
            },
        }
    }
}

/// Take ownership of the children of the node a path denotes; an empty path
/// takes the root list itself.
fn take_children(ns: Vec<Node>, path: &Vec<usize>, from: usize) -> (r: Option<Vec<Node>>)
    requires
        from <= path@.len(),
    ensures
        match r {
            Some(cs) => (if from == path@.len() {
                nodes_view(cs@) == nodes_view(ns@)
            } else {
                match node_at(nodes_view(ns@), path@.skip(from as int)) {
                    Some(n) => n is Elem && nodes_view(cs@) == n->Elem_children,
                    None => false,
                }
            }),
            None => from < path@.len() && (match node_at(
                nodes_view(ns@),
                path@.skip(from as int),
            ) {
                Some(n) => !(n is Elem),
                None => true,
            }),
        },
    decreases path@.len() - from,
{
    proof {
        crate::dom::lemma_nodes_view_len(ns@);
    }
    let mut ns = ns;
    if from == path.len() {
        return Some(ns);
    }
    let idx = path[from];
    if idx >= ns.len() {
        return None;
    }
    proof {
        assert(path@.skip(from as int)[0] == path@[from as int]);
        assert(path@.skip(from as int).drop_first() =~= path@.skip(from + 1));
        assert(nodes_view(ns@)[idx as int] == node_view(ns@[idx as int]));
    }
    let ghost prev = ns@;
    let ghost prev_v = nodes_view(ns@);
    let node = ns.remove(idx);
    proof {
        assert(node == prev[idx as int]);
        assert(node@ == prev_v[idx as int]);
    }
    match node {
        Node::Elem { children, .. } => {
            if from + 1 == path.len() {
                proof {
                    assert(path@.skip(from as int).len() == 1);
                }
                Some(children)
            } else {
                take_children(children, path, from + 1)
            }
        },
        _ => None,
    }
}

fn ends_with_stop_exec(n: &Node) -> (r: bool)
    ensures
        r == ends_with_stop(n@),
{
    let t = crate::dom::extract_text(n, true);
    if t.len() == 0 {
        return false;
    }
    t[t.len() - 1] == '.'
}

fn include_sib_exec(
    sib: &Node,
    path: &Vec<usize>,
    top_tag: &String,
    top_score: i64,
    cands: &Vec<(Vec<usize>, i64)>,
) -> (r: bool)
    ensures
        r == include_sib(sib@, path@, top_tag@, top_score as int, cands_view(cands@)),
{
    match sib {
        Node::Elem { tag, .. } => {
            let total64 = {
                let tl = text_len_sat(sib);
                tl
            };
            let link = crate::score::link_len_exec(sib);
            let threshold: i64 = {
                let t = if top_score >= 0 {
                    top_score / 5
                } else {
                    let m = ((-(top_score as i128)) / 5) as i64;
                    -m
                };
                proof {
                    assert(t as int == tdiv(top_score as int, 5));
                }
                if 1800 > t {
                    1800
                } else {
                    t
                }
            };
            let kind_match = {
                let tc = strutil::str_chars(tag.as_str());
                let oc = strutil::str_chars(top_tag.as_str());
                strutil::chars_eq(&tc, &oc)
            };
            if kind_match {
                let s = score_at_exec(cands, path);
                if s >= threshold {
                    return true;
                }
            }
            if string_is(tag, "p") {
                proof {
                    crate::score::lemma_link_len_nonneg(sib@);
                }
                let long_enough = (link as i128) * 4 < total64 as i128 && total64 > 80;
                if long_enough {
                    return true;
                }
                if link == 0 && ends_with_stop_exec(sib) {
                    return true;
                }
            }
            false
        },
        _ => false,
    }
}

/// The subtree's clamped text length.
fn text_len_sat(n: &Node) -> (r: i64)
    ensures
        r as int == clamp64(text_len(n@)),
{
    let tl = crate::score::text_len_exec(n);
    if tl as u128 > i64::MAX as u128 {
        i64::MAX
    } else {
        tl as i64
    }
}

fn removable_exec(n: &Node, title: &Vec<char>, hclean: bool, tclean: bool) -> (r: bool)
    ensures
        r == removable(n@, title@, hclean, tclean),
{
    match n {
        Node::Elem { tag, .. } => {
            if string_is(tag, "form") || string_is(tag, "object") || string_is(tag, "embed")
                || string_is(tag, "iframe") {
                return true;
            }
            if hclean && string_is(tag, "h1") {
                let t = crate::dom::extract_text(n, true);
                let tt = strutil::trim_chars(&t);
                let tl = strutil::trim_chars(title);
                if t.len() > 0 && strutil::chars_eq(&tt, &tl) {
                    return true;
                }
            }
            if tclean && (string_is(tag, "table") || string_is(tag, "ul") || string_is(tag, "div")
                || string_is(tag, "section")) {
                let t = crate::dom::extract_text(n, true);
                let commas = crate::score::comma_count_exec(&t);
                let link = crate::score::link_len_exec(n);
                let total = text_len_sat(n);
                proof {
                    crate::score::lemma_link_len_nonneg(n@);
                }
                if (commas as u128) < 3 && (link as i128) * 3 > (total as i128) * 2 {
                    return true;
                }
            }
            false
        },
        _ => false,
    }
}

fn resolve_attrs_exec(attrs: Vec<(String, String)>, base: &Vec<char>) -> (r: Vec<(String, String)>)
    ensures
        attrs_view(r@) == resolve_attrs(attrs_view(attrs@), base@),
{
    let ghost init = attrs_view(attrs@);
    let base_str = strutil::chars_to_string(base);
    let mut attrs = attrs;
    let mut out: Vec<(String, String)> = Vec::new();
    proof {
        assert(attrs_view(out@) =~= Seq::<(Seq<char>, Seq<char>)>::empty());
    }
    while attrs.len() > 0
        invariant
            resolve_attrs(init, base@) =~= attrs_view(out@) + resolve_attrs(
                attrs_view(attrs@),
                base@,
            ),
            base_str@ == base@,
        decreases attrs@.len(),
    {
        let ghost prev = attrs@;
        let (k, v) = attrs.remove(0);
        proof {
            assert(attrs@ =~= prev.drop_first());
            assert(attrs_view(prev)[0] == (prev[0].0@, prev[0].1@));
            assert(attrs_view(prev).drop_first() =~= attrs_view(prev.drop_first()));
        }
        let kc = strutil::str_chars(k.as_str());
        let is_link_attr = crate::json::str_is(&kc, "src") || crate::json::str_is(&kc, "href");
        let v2 = if is_link_attr {
            match join_url(base_str.as_str(), v.as_str()) {
                Some(u) => u,
                None => v,
            }
        } else {
            v
        };
        let ghost out_prev = attrs_view(out@);
        out.push((k, v2));
        proof {
            assert(attrs_view(out@) =~= out_prev.push((prev[0].0@, resolve_attrs(
                attrs_view(prev),
                base@,
            )[0].1)));
            assert(attrs_view(out@) + resolve_attrs(attrs_view(attrs@), base@) =~= out_prev
                + resolve_attrs(attrs_view(prev), base@));
        }
    }
    proof {
        assert(attrs_view(attrs@) =~= Seq::<(Seq<char>, Seq<char>)>::empty());
        assert(attrs_view(out@) =~= resolve_attrs(init, base@));
    }
    out
}

fn clean_node_exec(n: Node, title: &Vec<char>, hclean: bool, tclean: bool, base: &Vec<char>) -> (r:
    Node)
    ensures
        r@ == spec_clean_node(n@, title@, hclean, tclean, base@),
    decreases n@, 1int,
{
    let ghost nv = n@;
    match n {
        Node::Elem { tag, attrs, children } => {
            proof {
                assert(decreases_to!(nv => nv->Elem_children));
                assert(nv->Elem_children == nodes_view(children@));
            }
            let new_attrs = resolve_attrs_exec(attrs, base);
            let new_children = clean_list_exec(children, title, hclean, tclean, base);
            let r = Node::Elem { tag, attrs: new_attrs, children: new_children };
            proof {
                assert(r@ =~= spec_clean_node(nv, title@, hclean, tclean, base@));
            }
            r
        },
        _ => n,
    }
}

fn clean_list_exec(
    ns: Vec<Node>,
    title: &Vec<char>,
    hclean: bool,
    tclean: bool,
    base: &Vec<char>,
) -> (r: Vec<Node>)
    ensures
        nodes_view(r@) == spec_clean_list(nodes_view(ns@), title@, hclean, tclean, base@),
    decreases nodes_view(ns@), 0int,
{
    let ghost init = nodes_view(ns@);
    let mut ns = ns;
    if ns.len() == 0 {
        let out: Vec<Node> = Vec::new();
        proof {
            assert(init =~= Seq::<NodeV>::empty());
            assert(nodes_view(out@) =~= Seq::<NodeV>::empty());
        }
        return out;
    }
    proof {
        crate::preprocess::lemma_nodes_view_drop_first(ns@);
        crate::dom::lemma_nodes_view_len(ns@);
        assert(init.drop_first() =~= init.subrange(1, init.len() as int));
        assert(decreases_to!(init => init.subrange(1, init.len() as int)));
        assert(decreases_to!(init => init[0]));
    }
    let ghost prev = ns@;
    let first = ns.remove(0);
    proof {
        assert(ns@ =~= prev.drop_first());
        assert(first@ == init[0]);
        assert(nodes_view(ns@) == init.drop_first());
    }
    let rest = clean_list_exec(ns, title, hclean, tclean, base);
    if removable_exec(&first, title, hclean, tclean) {
        rest
    } else {
        let cleaned = clean_node_exec(first, title, hclean, tclean, base);
        let mut out: Vec<Node> = Vec::new();
        push_one(&mut out, cleaned);
        move_nodes(&mut out, rest);
        proof {
            assert(nodes_view(out@) =~= spec_clean_list(init, title@, hclean, tclean, base@));
        }
        out
    }
}

/// Move every node of `src` onto the end of `dst`, keeping order.
fn move_nodes(dst: &mut Vec<Node>, src: Vec<Node>)
    ensures
        nodes_view(final(dst)@) == nodes_view(old(dst)@) + nodes_view(src@),
{
    let ghost dst0 = nodes_view(dst@);
    let ghost src0 = nodes_view(src@);
    let mut src = src;
    while src.len() > 0
        invariant
            nodes_view(dst@) + nodes_view(src@) =~= dst0 + src0,
        decreases src@.len(),
    {
        let ghost dprev = dst@;
        let ghost sprev = src@;
        let item = src.remove(0);
        dst.push(item);
        proof {
            assert(src@ =~= sprev.drop_first());
            crate::preprocess::lemma_nodes_view_drop_first(sprev);
            assert(dst@ =~= dprev.push(sprev[0]));
            crate::dom::lemma_nodes_view_push(dprev, sprev[0]);
            assert(nodes_view(dst@) + nodes_view(src@) =~= nodes_view(dprev) + nodes_view(sprev));
        }
    }
    proof {
        assert(nodes_view(src@) =~= Seq::<NodeV>::empty());
        assert(nodes_view(dst@) =~= dst0 + src0);
    }
}

fn set_attr_exec(attrs: Vec<(String, String)>, name: &str, value: &str) -> (r: Vec<
    (String, String),
>)
    ensures
        attrs_view(r@) == set_attr_spec(attrs_view(attrs@), name@, value@),
{
    let ghost init = attrs_view(attrs@);
    let mut attrs = attrs;
    let mut out: Vec<(String, String)> = Vec::new();
    let nc = strutil::str_chars(name);
    proof {
        assert(attrs_view(out@) =~= Seq::<(Seq<char>, Seq<char>)>::empty());
    }
    while attrs.len() > 0
        invariant
            nc@ == name@,
            set_attr_spec(init, name@, value@) =~= attrs_view(out@) + set_attr_spec(
                attrs_view(attrs@),
                name@,
                value@,
            ),
        decreases attrs@.len(),
    {
        let ghost prev = attrs@;
        let (k, v) = attrs.remove(0);
        proof {
            assert(attrs@ =~= prev.drop_first());
            assert(attrs_view(prev)[0] == (prev[0].0@, prev[0].1@));
            assert(attrs_view(prev).drop_first() =~= attrs_view(prev.drop_first()));
        }
        let kc = strutil::str_chars(k.as_str());
        if strutil::chars_eq(&kc, &nc) {
            // replace this entry and keep the rest unchanged
            let ghost out_prev = attrs_view(out@);
            out.push((String::from_str(name), String::from_str(value)));
            while attrs.len() > 0
                invariant
                    set_attr_spec(init, name@, value@) =~= attrs_view(out@) + attrs_view(attrs@),
                decreases attrs@.len(),
            {
                let ghost prev2 = attrs@;
                let ghost out_prev2 = attrs_view(out@);
                let item = attrs.remove(0);
                out.push(item);
                proof {
                    assert(attrs@ =~= prev2.drop_first());
                    assert(attrs_view(out@) =~= out_prev2.push((prev2[0].0@, prev2[0].1@)));
                    assert(attrs_view(prev2)[0] == (prev2[0].0@, prev2[0].1@));
                    assert(attrs_view(prev2).drop_first() =~= attrs_view(prev2.drop_first()));
                    assert(attrs_view(out@) + attrs_view(attrs@) =~= out_prev2 + attrs_view(prev2));
                }
            }
            proof {
                assert(attrs_view(attrs@) =~= Seq::<(Seq<char>, Seq<char>)>::empty());
                assert(attrs_view(out@) =~= set_attr_spec(init, name@, value@));
            }
            return out;
        }
        let ghost out_prev = attrs_view(out@);
        out.push((k, v));
        proof {
            assert(attrs_view(out@) =~= out_prev.push((prev[0].0@, prev[0].1@)));
            assert(attrs_view(out@) + set_attr_spec(attrs_view(attrs@), name@, value@) =~= out_prev
                + set_attr_spec(attrs_view(prev), name@, value@));
        }
    }
    let ghost out_prev = attrs_view(out@);
    out.push((String::from_str(name), String::from_str(value)));
    proof {
        assert(attrs_view(attrs@) =~= Seq::<(Seq<char>, Seq<char>)>::empty());
        assert(attrs_view(out@) =~= out_prev.push((name@, value@)));
        assert(attrs_view(out@) =~= set_attr_spec(init, name@, value@));
    }
    out
}

fn text_node(s: &Vec<char>) -> (r: Node)
    ensures
        r@ == NodeV::Text(s@),
{
    Node::Text(strutil::chars_to_string(s))
}

fn simple_elem(tag: &str, class: Option<&str>, text: Option<Node>) -> (r: Node)
    ensures
        r@ == (NodeV::Elem {
            tag: tag@,
            attrs: (match class {
                Some(c) => seq![("class"@, c@)],
                None => Seq::<(Seq<char>, Seq<char>)>::empty(),
            }),
            children: (match text {
                Some(t) => seq![t@],
                None => Seq::<NodeV>::empty(),
            }),
        }),
{
    let mut attrs: Vec<(String, String)> = Vec::new();
    match class {
        Some(c) => {
            attrs.push((String::from_str("class"), String::from_str(c)));
            proof {
                assert(attrs_view(attrs@) =~= seq![("class"@, c@)]);
            }
        },
        None => {
            proof {
                assert(attrs_view(attrs@) =~= Seq::<(Seq<char>, Seq<char>)>::empty());
            }
        },
    }
    let mut children: Vec<Node> = Vec::new();
    let had_text = text.is_some();
    match text {
        Some(t) => {
            let ghost g = t;
            children.push(t);
            proof {
                crate::dom::lemma_nodes_view_push(Seq::<Node>::empty(), g);
                assert(nodes_view(children@) =~= seq![g@]);
            }
        },
        None => {
            proof {
                assert(nodes_view(children@) =~= Seq::<NodeV>::empty());
            }
        },
    }
    let ghost av = attrs_view(attrs@);
    let ghost cv = nodes_view(children@);
    let r = Node::Elem { tag: String::from_str(tag), attrs, children };
    proof {
        assert(r@ =~= (NodeV::Elem { tag: tag@, attrs: av, children: cv }));
    }
    r
}

/// Inject the metadata header and the article id, per `spec_post`.
pub fn post_process(top: Node, meta: &Meta) -> (r: Node)
    requires
        meta.last_modified is Some ==> date_parts_wf(meta.last_modified->0)
            && 0 <= meta.last_modified->0.year < 10000,
    ensures
        r@ == spec_post(top@, meta@),
{
    let ghost tv = top@;
    match top {
        Node::Elem { tag, attrs, children } => {
            let with_id = set_attr_exec(attrs, "id", "article");
            let kids = if children.len() > 0 {
                proof {
                    crate::dom::lemma_nodes_view_len(children@);
                }
                let mut heads: Vec<Node> = Vec::new();
                proof {
                    assert(nodes_view(heads@) =~= Seq::<NodeV>::empty());
                }
                if meta.title.as_str().unicode_len() > 0 {
                    let t = strutil::str_chars(meta.title.as_str());
                    let tn = text_node(&t);
                    let h = simple_elem("h1", Some("title metadata"), Some(tn));
                    push_one(&mut heads, h);
                }
                match &meta.description {
                    Some(d) => {
                        let t = strutil::str_chars(d.as_str());
                        let tn = text_node(&t);
                        let h = simple_elem("p", Some("subhead metadata"), Some(tn));
                        push_one(&mut heads, h);
                    },
                    None => {},
                }
                match &meta.author {
                    Some(a) => {
                        let mut by: Vec<char> = Vec::new();
                        by.push('B');
                        by.push('y');
                        by.push(' ');
                        let ac = strutil::str_chars(a.as_str());
                        let mut k: usize = 0;
                        while k < ac.len()
                            invariant
                                0 <= k <= ac@.len(),
                                by@ == seq!['B', 'y', ' '] + ac@.subrange(0, k as int),
                            decreases ac@.len() - k,
                        {
                            by.push(ac[k]);
                            proof {
                                assert(by@ =~= seq!['B', 'y', ' '] + ac@.subrange(0, k + 1));
                            }
                            k += 1;
                        }
                        proof {
                            reveal_strlit("By ");
                            assert(by@ =~= "By "@ + a@);
                        }
                        let tn = text_node(&by);
                        let h = simple_elem("p", Some("metadata"), Some(tn));
                        push_one(&mut heads, h);
                    },
                    None => {},
                }
                match &meta.last_modified {
                    Some(parts) => {
                        let formatted = crate::meta::format_updated(parts);
                        let tn = text_node(&formatted);
                        let h = simple_elem("p", Some("metadata date"), Some(tn));
                        push_one(&mut heads, h);
                    },
                    None => {},
                }
                if heads.len() > 0 {
                    let hr = simple_elem("hr", None, None);
                    push_one(&mut heads, hr);
                }
                let mut kids = heads;
                let mut rest = children;
                while rest.len() > 0
                    invariant
                        nodes_view(kids@) + nodes_view(rest@) =~= header_nodes(meta@)
                            + tv->Elem_children,
                    decreases rest@.len(),
                {
                    let ghost kprev = kids@;
                    let ghost rprev = rest@;
                    let item = rest.remove(0);
                    kids.push(item);
                    proof {
                        assert(rest@ =~= rprev.drop_first());
                        crate::preprocess::lemma_nodes_view_drop_first(rprev);
                        assert(kids@ =~= kprev.push(rprev[0]));
                        crate::dom::lemma_nodes_view_push(kprev, rprev[0]);
                        assert(nodes_view(kids@) + nodes_view(rest@) =~= (nodes_view(kprev)
                            + nodes_view(rprev)));
                    }
                }
                proof {
                    assert(nodes_view(rest@) =~= Seq::<NodeV>::empty());
                    assert(nodes_view(kids@) =~= header_nodes(meta@) + tv->Elem_children);
                }
                kids
            } else {
                proof {
                    assert(nodes_view(children@) =~= Seq::<NodeV>::empty());
                }
                children
            };
            let r = Node::Elem { tag, attrs: with_id, children: kids };
            proof {
                assert(r@ =~= spec_post(tv, meta@));
            }
            r
        },
        _ => top,
    }
}

fn push_one(out: &mut Vec<Node>, n: Node)
    ensures
        nodes_view(final(out)@) == nodes_view(old(out)@).push(n@),
{
    let ghost g = n;
    out.push(n);
    proof {
        crate::dom::lemma_nodes_view_push(old(out)@, g);
    }
}



/// The whole pipeline on a parsed document: metadata, title cleaning,
/// preprocessing, scoring, selection, sibling merge, cleaning, the metadata
/// header and serialization. Malformed selections (which the scorer never
/// produces) fall back to the failure case.
pub open spec fn spec_extract_dom(
    dom: Seq<NodeV>,
    base: Seq<char>,
    feats: Seq<(String, u32)>,
) -> Result<(MetaV, Seq<char>), ()> {
    let meta0 = crate::metadata::spec_extract_metadata(dom);
    let meta = MetaV { title: crate::title::spec_clean_title(dom, meta0.title), ..meta0 };
    let pre = crate::preprocess::pre_list(dom);
    let cands = crate::score::spec_score_list(pre, Seq::empty(), 0).1;
    if cands.len() == 0 {
        Err(())
    } else {
        let sel = top5_sel(cands, 0, Seq::empty());
        if sel.len() == 0 {
            Err(())
        } else {
            let mx = argmax_acc(sel, 1, 0);
            let top = sel[mx];
            let others = sel.remove(mx);
            let top_path = match alt_from(top, others, 1) {
                Some(p) => p,
                None => top.0,
            };
            if top_path.len() == 0 {
                Err(())
            } else {
                let top_score = score_at(cands, top_path);
                let parent_path = top_path.subrange(0, top_path.len() - 1);
                let sibs = if parent_path.len() == 0 {
                    Some(pre)
                } else {
                    match node_at(pre, parent_path) {
                        Some(n) => if n is Elem {
                            Some(n->Elem_children)
                        } else {
                            None
                        },
                        None => None,
                    }
                };
                match sibs {
                    None => Err(()),
                    Some(siblings) => {
                        let top_idx = top_path.last() as int;
                        if top_idx >= siblings.len() || !(siblings[top_idx] is Elem) {
                            Err(())
                        } else {
                            let top_node = siblings[top_idx];
                            let extra = included_sibs(
                                siblings,
                                parent_path,
                                top_idx,
                                top_node->Elem_tag,
                                top_score,
                                cands,
                                0,
                            );
                            let assembled = assemble(top_node, extra);
                            let hclean = feature_on(feats, "enable-heading-cleanup"@);
                            let tclean = feature_on(feats, "enable-table-cleanup"@);
                            let cleaned = match assembled {
                                NodeV::Elem { tag, attrs, children } => NodeV::Elem {
                                    tag,
                                    attrs,
                                    children: spec_clean_list(
                                        children,
                                        meta.title,
                                        hclean,
                                        tclean,
                                        base,
                                    ),
                                },
                                _ => assembled,
                            };
                            Ok((meta, spec_content(cleaned, meta)))
                        }
                    },
                }
            }
        }
    }
}

proof fn lemma_cands_view_remove(cs: Seq<(Vec<usize>, i64)>, j: int)
    requires
        0 <= j < cs.len(),
    ensures
        cands_view(cs.remove(j)) == cands_view(cs).remove(j),
{
    assert(cands_view(cs.remove(j)) =~= cands_view(cs).remove(j)) by {
        assert forall|i: int| 0 <= i < cs.len() - 1 implies cands_view(cs.remove(j))[i]
            == cands_view(cs).remove(j)[i] by {
            if i < j {
                assert(cs.remove(j)[i] == cs[i]);
            } else {
                assert(cs.remove(j)[i] == cs[i + 1]);
            }
        }
    }
}

/// Run the whole extraction pipeline on a parsed document against a base URL
/// and the cleaner's rule switches.
#[verifier::rlimit(100)]
pub fn extract_dom(dom: Vec<Node>, url: &str, features: &Features) -> (r: Result<
    Product,
    ExtractError,
>)
    ensures
        match r {
            Ok(p) => spec_extract_dom(nodes_view(dom@), url@, features.entries@) == Ok::<
                (MetaV, Seq<char>),
                (),
            >((p.meta@, p.content@)),
            Err(e) => spec_extract_dom(nodes_view(dom@), url@, features.entries@) is Err && e
                == ExtractError::NoCandidates,
        },
{
    let ghost dom_v = nodes_view(dom@);
    let ghost spec_meta = (MetaV {
        title: crate::title::spec_clean_title(
            dom_v,
            crate::metadata::spec_extract_metadata(dom_v).title,
        ),
        ..crate::metadata::spec_extract_metadata(dom_v)
    });
    let mut meta = extract_metadata_pub(&dom);
    let mut tmp = String::new();
    core::mem::swap(&mut meta.title, &mut tmp);
    meta.title = crate::title::clean_title(&dom, tmp);
    proof {
        assert(meta@ =~= spec_meta);
        assert(crate::meta::meta_wf(meta@));
    }
    let pre = crate::preprocess::pre_exec(dom);
    let ghost pre_v = crate::preprocess::pre_list(dom_v);
    let cands = crate::score::find_candidates(&pre);
    let ghost cands_v = crate::score::spec_score_list(pre_v, Seq::<usize>::empty(), 0).1;
    proof {
        assert(cands_view(cands@) == cands_v);
        assert(cands_view(cands@).len() == cands@.len());
    }
    if cands.len() == 0 {
        return Err(ExtractError::NoCandidates);
    }
    let top5 = select_top5(&cands);
    proof {
        assert(cands_view(top5@) == top5_sel(cands_v, 0, Seq::empty()));
        assert(cands_view(top5@).len() == top5@.len());
    }
    if top5.len() == 0 {
        return Err(ExtractError::NoCandidates);
    }
    let mx = argmax_exec(&top5);
    let mut sel = top5;
    let ghost sel_view = cands_view(sel@);
    let ghost sel_nodes = sel@;
    let top = sel.remove(mx);
    let others = sel;
    proof {
        assert(others@ =~= sel_nodes.remove(mx as int));
        lemma_cands_view_remove(sel_nodes, mx as int);
        assert((top.0@, top.1 as int) == sel_view[mx as int]);
    }
    let alt = search_alternative(&top, &others);
    let top_path = match alt {
        Some(p) => p,
        None => top.0,
    };
    proof {
        assert(top_path@ == (match alt_from(sel_view[mx as int], sel_view.remove(mx as int), 1) {
            Some(p) => p,
            None => sel_view[mx as int].0,
        }));
    }
    if top_path.len() == 0 {
        return Err(ExtractError::NoCandidates);
    }
    let top_score = score_at_exec(&cands, &top_path);
    let parent_path = sub_path(&top_path, top_path.len() - 1);
    let top_idx = top_path[top_path.len() - 1];
    proof {
        assert(top_path@.last() == top_path@[top_path@.len() - 1]);
    }
    // the sibling list the top candidate sits in, borrowed for the tests
    let ghost spec_sibs: Option<Seq<NodeV>> = if parent_path@.len() == 0 {
        Some(pre_v)
    } else {
        match node_at(pre_v, parent_path@) {
            Some(n) => if n is Elem {
                Some(n->Elem_children)
            } else {
                None
            },
            None => None,
        }
    };
    let sibs_ref: &Vec<Node> = if parent_path.len() == 0 {
        proof {
            assert(spec_sibs == Some(nodes_view(pre@)));
        }
        &pre
    } else {
        proof {
            assert(parent_path@.skip(0) =~= parent_path@);
        }
        match get_node(&pre, &parent_path, 0) {
            Some(n) => match n {
                Node::Elem { children, .. } => {
                    proof {
                        assert(spec_sibs == Some(nodes_view(children@)));
                    }
                    children
                },
                _ => {
                    return Err(ExtractError::NoCandidates);
                },
            },
            None => {
                return Err(ExtractError::NoCandidates);
            },
        }
    };
    let ghost sib_v = nodes_view(sibs_ref@);
    proof {
        crate::dom::lemma_nodes_view_len(sibs_ref@);
    }
    if top_idx >= sibs_ref.len() {
        return Err(ExtractError::NoCandidates);
    }
    let top_tag: String = match &sibs_ref[top_idx] {
        Node::Elem { tag, .. } => tag.clone(),
        _ => {
            proof {
                assert(!(sib_v[top_idx as int] is Elem));
            }
            return Err(ExtractError::NoCandidates);
        },
    };
    proof {
        assert(sib_v[top_idx as int] is Elem);
        assert(top_tag@ == sib_v[top_idx as int]->Elem_tag);
    }
    // first pass: decide which siblings come along
    let mut flags: Vec<bool> = Vec::new();
    let mut k: usize = 0;
    while k < sibs_ref.len()
        invariant
            0 <= k <= sibs_ref@.len(),
            flags@.len() == k,
            forall|j: int| 0 <= j < k ==> flags@[j] == include_sib(
                sib_v[j],
                parent_path@.push(j as usize),
                top_tag@,
                top_score as int,
                cands_v,
            ),
        decreases sibs_ref@.len() - k,
    {
        let mut child_path = clone_path(&parent_path);
        child_path.push(k);
        proof {
            assert(child_path@ =~= parent_path@.push(k as usize));
        }
        let f = include_sib_exec(&sibs_ref[k], &child_path, &top_tag, top_score, &cands);
        flags.push(f);
        k += 1;
    }
    // second pass: take the nodes
    let siblings = match take_children(pre, &parent_path, 0) {
        Some(cs) => cs,
        None => {
            return Err(ExtractError::NoCandidates);
        },
    };
    proof {
        assert(nodes_view(siblings@) == sib_v);
        crate::dom::lemma_nodes_view_len(siblings@);
    }
    let ghost extra_v = included_sibs(
        sib_v,
        parent_path@,
        top_idx as int,
        top_tag@,
        top_score as int,
        cands_v,
        0,
    );
    let mut rest = siblings;
    let mut included: Vec<Node> = Vec::new();
    let mut top_node_opt: Option<Node> = None;
    let mut k2: usize = 0;
    proof {
        assert(nodes_view(rest@).skip(0) =~= nodes_view(rest@));
        assert(nodes_view(included@) =~= Seq::<NodeV>::empty());
    }
    while k2 < flags.len()
        invariant
            0 <= k2 <= sib_v.len(),
            flags@.len() == sib_v.len(),
            rest@.len() == sib_v.len() - k2,
            nodes_view(rest@) == sib_v.skip(k2 as int),
            (match top_node_opt {
                Some(n) => k2 > top_idx && n@ == sib_v[top_idx as int],
                None => k2 <= top_idx,
            }),
            extra_v == nodes_view(included@) + included_sibs(
                sib_v,
                parent_path@,
                top_idx as int,
                top_tag@,
                top_score as int,
                cands_v,
                k2 as int,
            ),
        decreases flags@.len() - k2,
    {
        let ghost prev = rest@;
        let node = rest.remove(0);
        proof {
            assert(rest@ =~= prev.drop_first());
            crate::preprocess::lemma_nodes_view_drop_first(prev);
            assert(node@ == sib_v[k2 as int]);
            assert(nodes_view(rest@) =~= sib_v.skip(k2 + 1));
        }
        if k2 == top_idx {
            top_node_opt = Some(node);
        } else if flags[k2] {
            push_one(&mut included, node);
        }
        k2 += 1;
        proof {
            assert(extra_v == nodes_view(included@) + included_sibs(
                sib_v,
                parent_path@,
                top_idx as int,
                top_tag@,
                top_score as int,
                cands_v,
                k2 as int,
            ));
        }
    }
    proof {
        assert(included_sibs(
            sib_v,
            parent_path@,
            top_idx as int,
            top_tag@,
            top_score as int,
            cands_v,
            sib_v.len() as int,
        ) =~= Seq::<NodeV>::empty());
        assert(nodes_view(included@) =~= extra_v);
    }
    let top_node = match top_node_opt {
        Some(n) => n,
        None => {
            proof {
                assert(false);
            }
            return Err(ExtractError::NoCandidates);
        },
    };
    let hclean = features.on("enable-heading-cleanup");
    let tclean = features.on("enable-table-cleanup");
    let title_chars = strutil::str_chars(meta.title.as_str());
    let base_chars = strutil::str_chars(url);
    let cleaned = match top_node {
        Node::Elem { tag, attrs, children } => {
            let mut ch = children;
            move_nodes(&mut ch, included);
            proof {
                assert(nodes_view(ch@) == sib_v[top_idx as int]->Elem_children + extra_v);
            }
            let cleaned_children = clean_list_exec(ch, &title_chars, hclean, tclean, &base_chars);
            Node::Elem { tag, attrs, children: cleaned_children }
        },
        _ => {
            proof {
                assert(false);
            }
            return Err(ExtractError::NoCandidates);
        },
    };
    proof {
        assert(cleaned@ =~= (match assemble(sib_v[top_idx as int], extra_v) {
            NodeV::Elem { tag, attrs, children } => NodeV::Elem {
                tag,
                attrs,
                children: spec_clean_list(children, spec_meta.title, feature_on(
                    features.entries@,
                    "enable-heading-cleanup"@,
                ), feature_on(features.entries@, "enable-table-cleanup"@), url@),
            },
            _ => assemble(sib_v[top_idx as int], extra_v),
        }));
    }
    let post = post_process(cleaned, &meta);
    let mut out_chars: Vec<char> = Vec::new();
    match &meta.charset {
        Some(cs) => {
            crate::dom::push_str_plain(&mut out_chars, "<meta charset=\"");
            crate::dom::push_str_plain(&mut out_chars, cs.as_str());
            crate::dom::push_str_plain(&mut out_chars, "\"/>");
        },
        None => {},
    }
    crate::dom::serialize_node(&post, &mut out_chars);
    let content = strutil::chars_to_string(&out_chars);
    let r = Product { meta, content };
    proof {
        assert(r.content@ =~= spec_content(cleaned@, spec_meta));
        assert(spec_extract_dom(dom_v, url@, features.entries@) == Ok::<(MetaV, Seq<char>), ()>(
            (r.meta@, r.content@),
        ));
    }
    Ok(r)
}

/// The metadata record of a parsed document.
fn extract_metadata_pub(roots: &Vec<Node>) -> (r: Meta)
    ensures
        r@ == crate::metadata::spec_extract_metadata(nodes_view(roots@)),
        crate::meta::meta_wf(r@),
{
    crate::metadata::extract_metadata(roots)
}



#[verifier::external_type_specification]
#[verifier::external_body]
pub struct ExNodeRef(kuchiki::NodeRef);

/// What the HTML parser yields for a byte stream: the document's children as
/// trees of elements (lowercased tags, attributes in the parser's order),
/// text and comments, with the doctype dropped.
pub uninterp spec fn parsed_dom(bytes: Seq<u8>) -> Seq<NodeV>;

/// Relies on the shape of `kuchiki::NodeRef`: each child is carried over to
/// the matching `Node` variant, elements with their local tag name and
/// attribute map entries in order, doctypes and document nodes dropped.
#[verifier::external_body]
fn convert_kuchiki(n: &kuchiki::NodeRef, out: &mut Vec<Node>) {
    for child in n.children() {
        if let Some(el) = child.as_element() {
            let attrs = el.attributes.borrow().map.iter().map(
                |(k, v)| (k.local.to_string(), v.value.clone()),
            ).collect();
            let mut kids = Vec::new();
            convert_kuchiki(&child, &mut kids);
            out.push(Node::Elem { tag: el.name.local.to_string(), attrs, children: kids });
        } else if let Some(t) = child.as_text() {
            out.push(Node::Text(t.borrow().clone()));
        } else if let Some(c) = child.as_comment() {
            out.push(Node::Comment(c.borrow().clone()));
        }
    }
}

/// Relies on `kuchiki::parse_html_with_options`: parsing is a function of the
/// input bytes alone, named by `parsed_dom`; scripting is off so `<noscript>`
/// content parses as elements; reading from an in-memory slice cannot fail.
#[verifier::external_body]
pub fn parse_html(input: &[u8]) -> (r: Vec<Node>)
    ensures
        nodes_view(r@) == parsed_dom(input@),
{
    let mut opts = kuchiki::ParseOpts::default();
    opts.tree_builder.scripting_enabled = false;
    let mut bytes = input;
    let doc = kuchiki::parse_html_with_options(opts).from_utf8().read_from(&mut bytes).unwrap();
    let mut out = Vec::new();
    convert_kuchiki(&doc, &mut out);
    out
}

/// The base URL an extraction resolves links against: the given URL when it
/// parses, else the example host.
pub open spec fn spec_base(url: Option<Seq<char>>) -> Seq<char> {
    match url {
        Some(u) => if url_ok(u) {
            u
        } else {
            "https://example.com"@
        },
        None => "https://example.com"@,
    }
}

/// Parse a byte stream and extract its article with no rule switched off.
pub fn extract(input: &[u8], url: Option<&str>) -> (r: Result<Product, ExtractError>)
    ensures
        ({
            let base = spec_base(match url {
                Some(u) => Some(u@),
                None => None,
            });
            match r {
                Ok(p) => spec_extract_dom(parsed_dom(input@), base, Seq::empty()) == Ok::<
                    (MetaV, Seq<char>),
                    (),
                >((p.meta@, p.content@)),
                Err(e) => spec_extract_dom(parsed_dom(input@), base, Seq::empty()) is Err && e
                    == ExtractError::NoCandidates,
            }
        }),
{
    let base: String = match url {
        Some(u) => {
            if parse_url_ok(u) {
                String::from_str(u)
            } else {
                String::from_str("https://example.com")
            }
        },
        None => String::from_str("https://example.com"),
    };
    let dom = parse_html(input);
    let features = Features::new();
    proof {
        assert(features.entries@ =~= Seq::<(String, u32)>::empty());
    }
    extract_dom(dom, base.as_str(), &features)
}

} // verus!
