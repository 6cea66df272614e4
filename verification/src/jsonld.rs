//! The JSON-LD article rules: context and type validation, and extraction of
//! title, author, description and modification date from a JSON-LD block.

#![verifier::loop_isolation(false)]

use vstd::prelude::*;
use crate::json::JsonValue;
use crate::json::get_key;
use crate::json::json_parse;
use crate::json::obj_get;
use crate::json::parse_json;
use crate::meta::Meta;
use crate::meta::MetaV;
use crate::meta::ostr;
use crate::meta::parse_rfc3339;
use crate::meta::rfc3339_parts;
use crate::strutil;

verus! {

broadcast use vstd::std_specs::vec::group_vec_axioms;

/// Why a JSON-LD block was rejected.
#[derive(Debug, PartialEq, Eq)]
pub enum JsonLdError {
    ParseError(String),
    MissingContext,
    InvalidContext,
    MissingType,
    InvalidType,
}

/// The mathematical value of a rejection: the parse error as its text.
pub enum JsonLdErrV {
    ParseError(Seq<char>),
    MissingContext,
    InvalidContext,
    MissingType,
    InvalidType,
}

impl View for JsonLdError {
    type V = JsonLdErrV;

    open spec fn view(&self) -> JsonLdErrV {
        match *self {
            JsonLdError::ParseError(s) => JsonLdErrV::ParseError(s@),
            JsonLdError::MissingContext => JsonLdErrV::MissingContext,
            JsonLdError::InvalidContext => JsonLdErrV::InvalidContext,
            JsonLdError::MissingType => JsonLdErrV::MissingType,
            JsonLdError::InvalidType => JsonLdErrV::InvalidType,
        }
    }
}

/// The `@context` value must read `schema.org` under either scheme.
pub open spec fn schema_context(s: Seq<char>) -> bool {
    s == "http://schema.org"@ || s == "https://schema.org"@
}

/// The nineteen recognized article types.
pub open spec fn article_type(s: Seq<char>) -> bool {
    s == "Article"@ || s == "AdvertiserContentArticle"@ || s == "NewsArticle"@
        || s == "AnalysisNewsArticle"@ || s == "AskPublicNewsArticle"@
        || s == "BackgroundNewsArticle"@ || s == "OpinionNewsArticle"@
        || s == "ReportageNewsArticle"@ || s == "ReviewNewsArticle"@ || s == "Report"@
        || s == "SatiricalArticle"@ || s == "ScholarlyArticle"@ || s == "MedicalScholarlyArticle"@
        || s == "SocialMediaPosting"@ || s == "BlogPosting"@ || s == "LiveBlogPosting"@
        || s == "DiscussionForumPosting"@ || s == "TechArticle"@ || s == "APIReference"@
}

/// A non-empty string value, else nothing.
pub open spec fn nonempty_str(v: JsonValue) -> Option<Seq<char>> {
    match v {
        JsonValue::Str(s) => if s@.len() > 0 {
            Some(s@)
        } else {
            None
        },
        _ => None,
    }
}

/// The author read from a JSON-LD value. A string is re-parsed as JSON and,
/// where that succeeds, looked into recursively (`fuel` bounds that nesting);
/// an array joins its members' authors with a comma; an object contributes
/// its `name` string.
pub open spec fn author_of(v: JsonValue, fuel: nat) -> Option<Seq<char>>
    decreases fuel, v,
{
    match v {
        JsonValue::Str(s) => {
            if fuel == 0 {
                Some(s@)
            } else {
                match json_parse(s@) {
                    Ok(p) => author_of(p, (fuel - 1) as nat),
                    Err(_) => Some(s@),
                }
            }
        },
        JsonValue::Arr(a) => {
            if a@.len() == 0 {
                None
            } else {
                Some(join_comma(author_items(a@, fuel)))
            }
        },
        JsonValue::Obj(o) => {
            match obj_get(o@, "name"@) {
                Some(n) => match n {
                    JsonValue::Str(s) => Some(s@),
                    _ => None,
                },
                None => None,
            }
        },
        _ => None,
    }
}

/// The authors found among the members of an array, in order.
pub open spec fn author_items(a: Seq<JsonValue>, fuel: nat) -> Seq<Seq<char>>
    decreases fuel, a,
{
    if a.len() == 0 {
        Seq::empty()
    } else {
        (match author_of(a[0], fuel) {
            Some(s) => seq![s],
            None => Seq::<Seq<char>>::empty(),
        }) + author_items(a.drop_first(), fuel)
    }
}

/// The pieces joined with a comma and a space.
pub open spec fn join_from(xs: Seq<Seq<char>>, i: int) -> Seq<char>
    decreases xs.len() - i,
{
    if i < 0 || i >= xs.len() {
        Seq::empty()
    } else if i == xs.len() - 1 {
        xs[i]
    } else {
        xs[i] + seq![',', ' '] + join_from(xs, i + 1)
    }
}

pub open spec fn join_comma(xs: Seq<Seq<char>>) -> Seq<char> {
    join_from(xs, 0)
}

/// The views of a list of strings.
pub open spec fn strs(v: Seq<String>) -> Seq<Seq<char>> {
    v.map_values(|s: String| s@)
}

proof fn lemma_author_items_push(a: Seq<JsonValue>, x: JsonValue, fuel: nat)
    ensures
        author_items(a.push(x), fuel) == author_items(a, fuel) + (match author_of(x, fuel) {
            Some(s) => seq![s],
            None => Seq::<Seq<char>>::empty(),
        }),
    decreases a.len(),
{
    let item = (match author_of(x, fuel) {
        Some(s) => seq![s],
        None => Seq::<Seq<char>>::empty(),
    });
    if a.len() == 0 {
        assert(a.push(x)[0] == x);
        assert(a.push(x).drop_first() =~= Seq::<JsonValue>::empty());
        assert(author_items(a.push(x).drop_first(), fuel) == Seq::<Seq<char>>::empty());
        assert(author_items(a.push(x), fuel) == item + Seq::<Seq<char>>::empty());
        assert(item + Seq::<Seq<char>>::empty() =~= item);
        assert(author_items(a, fuel) + item =~= item);
    } else {
        assert(a.push(x)[0] == a[0]);
        assert(a.push(x).drop_first() =~= a.drop_first().push(x));
        lemma_author_items_push(a.drop_first(), x, fuel);
        let head = (match author_of(a[0], fuel) {
            Some(s) => seq![s],
            None => Seq::<Seq<char>>::empty(),
        });
        assert(author_items(a.push(x), fuel) == head + author_items(a.drop_first().push(x), fuel));
        assert(author_items(a, fuel) == head + author_items(a.drop_first(), fuel));
        assert(head + (author_items(a.drop_first(), fuel) + item) =~= (head + author_items(
            a.drop_first(),
            fuel,
        )) + item);
    }
}

fn push_str_chars(out: &mut Vec<char>, s: &str)
    ensures
        final(out)@ == old(out)@ + s@,
{
    let cs = strutil::str_chars(s);
    let mut i: usize = 0;
    while i < cs.len()
        invariant
            cs@ == s@,
            0 <= i <= cs@.len(),
            out@ == old(out)@ + cs@.subrange(0, i as int),
        decreases cs@.len() - i,
    {
        out.push(cs[i]);
        proof {
            assert(old(out)@ + cs@.subrange(0, i + 1) =~= (old(out)@ + cs@.subrange(0, i as int)).push(
                cs@[i as int]));
        }
        i += 1;
    }
    proof {
        assert(out@ =~= old(out)@ + s@);
    }
}

/// Join the pieces with a comma and a space.
fn join_comma_exec(items: &Vec<String>) -> (r: Vec<char>)
    ensures
        r@ == join_comma(strs(items@)),
{
    let mut out: Vec<char> = Vec::new();
    let mut i: usize = 0;
    while i < items.len()
        invariant
            0 <= i <= items@.len(),
            join_comma(strs(items@)) == out@ + join_from(strs(items@), i as int),
        decreases items@.len() - i,
    {
        proof {
            assert(strs(items@)[i as int] == items@[i as int]@);
        }
        push_str_chars(&mut out, items[i].as_str());
        if i + 1 < items.len() {
            out.push(',');
            out.push(' ');
            proof {
                assert(out@ =~= (out@.subrange(0, out@.len() - 2) + seq![',', ' ']));
            }
        }
        i += 1;
        proof {
            assert(join_comma(strs(items@)) =~= out@ + join_from(strs(items@), i as int));
        }
    }
    proof {
        assert(out@ =~= join_comma(strs(items@)));
    }
    out
}

/// Nesting allowance for authors given as JSON text inside JSON strings.
pub const AUTHOR_FUEL: u64 = 64;

/// The author read from a JSON-LD value, per `author_of`.
pub fn try_parse_author(v: &JsonValue, fuel: u64) -> (r: Option<String>)
    ensures
        ostr(r) == author_of(*v, fuel as nat),
    decreases fuel, *v,
{
    match v {
        JsonValue::Str(s) => {
            if fuel == 0 {
                Some(s.clone())
            } else {
                match parse_json(s.as_str()) {
                    Ok(p) => try_parse_author(&p, fuel - 1),
                    Err(_) => Some(s.clone()),
                }
            }
        },
        JsonValue::Arr(a) => {
            proof {
                assert(*a == (*v)->Arr_0);
                assert(decreases_to!(*v => (*v)->Arr_0));
            }
            author_arr(a, fuel)
        },
        JsonValue::Obj(o) => {
            match get_key(o, "name") {
                Some(n) => match n {
                    JsonValue::Str(s) => Some(s.clone()),
                    _ => None,
                },
                None => None,
            }
        },
        _ => None,
    }
}

/// The author read from an array of JSON-LD values: the members' authors,
/// joined with a comma; an empty array yields nothing.
fn author_arr(a: &Vec<JsonValue>, fuel: u64) -> (r: Option<String>)
    ensures
        ostr(r) == (if a@.len() == 0 {
            None::<Seq<char>>
        } else {
            Some(join_comma(author_items(a@, fuel as nat)))
        }),
    decreases fuel, *a,
{
    if a.len() == 0 {
        return None;
    }
    let mut items: Vec<String> = Vec::new();
    let mut i: usize = 0;
    proof {
        assert(a@.subrange(0, 0) =~= Seq::<JsonValue>::empty());
        assert(strs(items@) =~= author_items(a@.subrange(0, 0), fuel as nat));
    }
    while i < a.len()
        invariant
            0 <= i <= a@.len(),
            strs(items@) == author_items(a@.subrange(0, i as int), fuel as nat),
        decreases a@.len() - i,
    {
        proof {
            assert(decreases_to!(*a => a[i as int]));
        }
        let sub = try_parse_author(&a[i], fuel);
        proof {
            assert(a@.subrange(0, i + 1) =~= a@.subrange(0, i as int).push(a@[i as int]));
            lemma_author_items_push(a@.subrange(0, i as int), a@[i as int], fuel as nat);
        }
        match sub {
            Some(s) => {
                items.push(s);
                proof {
                    assert(strs(items@) =~= author_items(a@.subrange(0, i + 1), fuel as nat));
                }
            },
            None => {
                proof {
                    assert(strs(items@) =~= author_items(a@.subrange(0, i + 1), fuel as nat));
                }
            },
        }
        i += 1;
    }
    proof {
        assert(a@.subrange(0, a@.len() as int) =~= a@);
    }
    let joined = join_comma_exec(&items);
    Some(strutil::chars_to_string(&joined))
}

/// A `name` (else `headline`) entry holding a non-empty string. A present
/// `name` key hides `headline` even when it does not yield a title.
pub open spec fn keyed_nonempty(o: Seq<(String, JsonValue)>, first: Seq<char>, second: Seq<char>)
    -> Option<Seq<char>> {
    match obj_get(o, first) {
        Some(v) => nonempty_str(v),
        None => match obj_get(o, second) {
            Some(v) => nonempty_str(v),
            None => None,
        },
    }
}

/// What a JSON-LD block does to a metadata record: the rejection or
/// acceptance, and the record afterwards.
pub open spec fn spec_jsonld(s: Seq<char>, m: MetaV, fuel: nat) -> (Result<(), JsonLdErrV>, MetaV) {
    match json_parse(s) {
        Err(e) => (Err(JsonLdErrV::ParseError(e)), m),
        Ok(v) => match v {
            JsonValue::Obj(o) => {
                match obj_get(o@, "@context"@) {
                    None => (Err(JsonLdErrV::MissingContext), m),
                    Some(c) => match c {
                        JsonValue::Str(cs) => {
                            if !schema_context(cs@) {
                                (Err(JsonLdErrV::InvalidContext), m)
                            } else {
                                match obj_get(o@, "@type"@) {
                                    None => (Err(JsonLdErrV::MissingType), m),
                                    Some(t) => match t {
                                        JsonValue::Str(ts) => {
                                            if !article_type(ts@) {
                                                (Err(JsonLdErrV::InvalidType), m)
                                            } else {
                                                (Ok(()), jsonld_fields(o@, m, fuel))
                                            }
                                        },
                                        _ => (Err(JsonLdErrV::MissingType), m),
                                    },
                                }
                            }
                        },
                        _ => (Err(JsonLdErrV::MissingContext), m),
                    },
                }
            },
            _ => (Ok(()), m),
        },
    }
}

/// The fields a validated JSON-LD object writes into the record.
pub open spec fn jsonld_fields(o: Seq<(String, JsonValue)>, m: MetaV, fuel: nat) -> MetaV {
    let title = match keyed_nonempty(o, "name"@, "headline"@) {
        Some(t) => t,
        None => m.title,
    };
    let author = match obj_get(o, "author"@) {
        Some(av) => match author_of(av, fuel) {
            Some(a) => Some(a),
            None => m.author,
        },
        None => m.author,
    };
    let description = match obj_get(o, "description"@) {
        Some(dv) => match nonempty_str(dv) {
            Some(d) => Some(d),
            None => m.description,
        },
        None => m.description,
    };
    let last_modified = match keyed_nonempty(o, "dateModified"@, "datePublished"@) {
        Some(ts) => rfc3339_parts(ts),
        None => m.last_modified,
    };
    MetaV { title, author, description, charset: m.charset, last_modified }
}

/// Read a JSON-LD block into `meta`. Rejections leave the record unchanged;
/// a non-object root is accepted and also leaves it unchanged.
pub fn try_parse_untyped_jsonld(content: &str, meta: &mut Meta) -> (r: Result<(), JsonLdError>)
    requires
        crate::meta::meta_wf(old(meta)@),
    ensures
        crate::meta::meta_wf(final(meta)@),
        final(meta)@ == spec_jsonld(content@, old(meta)@, AUTHOR_FUEL as nat).1,
        (match r {
            Ok(u) => spec_jsonld(content@, old(meta)@, AUTHOR_FUEL as nat).0 is Ok,
            Err(e) => spec_jsonld(content@, old(meta)@, AUTHOR_FUEL as nat).0 == Err::<
                (),
                JsonLdErrV,
            >(e@),
        }),
{
    let parsed = match parse_json(content) {
        Ok(v) => v,
        Err(e) => {
            return Err(JsonLdError::ParseError(e));
        },
    };
    let o = match parsed {
        JsonValue::Obj(o) => o,
        _ => {
            return Ok(());
        },
    };
    match get_key(&o, "@context") {
        None => {
            return Err(JsonLdError::MissingContext);
        },
        Some(c) => match c {
            JsonValue::Str(cs) => {
                let cc = strutil::str_chars(cs.as_str());
                if !(crate::json::str_is(&cc, "http://schema.org") || crate::json::str_is(
                    &cc,
                    "https://schema.org",
                )) {
                    return Err(JsonLdError::InvalidContext);
                }
            },
            _ => {
                return Err(JsonLdError::MissingContext);
            },
        },
    }
    match get_key(&o, "@type") {
        None => {
            return Err(JsonLdError::MissingType);
        },
        Some(t) => match t {
            JsonValue::Str(ts) => {
                let tc = strutil::str_chars(ts.as_str());
                if !is_article_type(&tc) {
                    return Err(JsonLdError::InvalidType);
                }
            },
            _ => {
                return Err(JsonLdError::MissingType);
            },
        },
    }
    let mut m = Meta::default();
    core::mem::swap(meta, &mut m);
    let title = match lookup_nonempty(&o, "name", "headline") {
        Some(t) => t,
        None => m.title,
    };
    let author = match get_key(&o, "author") {
        Some(av) => match try_parse_author(av, AUTHOR_FUEL) {
            Some(a) => Some(a),
            None => m.author,
        },
        None => m.author,
    };
    let description = match get_key(&o, "description") {
        Some(dv) => match nonempty_of(dv) {
            Some(d) => Some(d),
            None => m.description,
        },
        None => m.description,
    };
    let last_modified = match lookup_nonempty(&o, "dateModified", "datePublished") {
        Some(ts) => parse_rfc3339(ts.as_str()),
        None => m.last_modified,
    };
    *meta = Meta { title, author, description, charset: m.charset, last_modified };
    proof {
        assert(meta@ =~= spec_jsonld(content@, old(meta)@, AUTHOR_FUEL as nat).1);
    }
    Ok(())
}

/// A non-empty string value, cloned out.
fn nonempty_of(v: &JsonValue) -> (r: Option<String>)
    ensures
        ostr(r) == nonempty_str(*v),
{
    match v {
        JsonValue::Str(s) => {
            if s.as_str().unicode_len() > 0 {
                Some(s.clone())
            } else {
                None
            }
        },
        _ => None,
    }
}

fn lookup_nonempty(o: &Vec<(String, JsonValue)>, first: &str, second: &str) -> (r: Option<String>)
    ensures
        ostr(r) == keyed_nonempty(o@, first@, second@),
{
    match get_key(o, first) {
        Some(v) => nonempty_of(v),
        None => match get_key(o, second) {
            Some(v) => nonempty_of(v),
            None => None,
        },
    }
}

fn is_article_type(s: &Vec<char>) -> (r: bool)
    ensures
        r == article_type(s@),
{
    crate::json::str_is(s, "Article") || crate::json::str_is(s, "AdvertiserContentArticle")
        || crate::json::str_is(s, "NewsArticle") || crate::json::str_is(s, "AnalysisNewsArticle")
        || crate::json::str_is(s, "AskPublicNewsArticle") || crate::json::str_is(
        s,
        "BackgroundNewsArticle",
    ) || crate::json::str_is(s, "OpinionNewsArticle") || crate::json::str_is(
        s,
        "ReportageNewsArticle",
    ) || crate::json::str_is(s, "ReviewNewsArticle") || crate::json::str_is(s, "Report")
        || crate::json::str_is(s, "SatiricalArticle") || crate::json::str_is(s, "ScholarlyArticle")
        || crate::json::str_is(s, "MedicalScholarlyArticle") || crate::json::str_is(
        s,
        "SocialMediaPosting",
    ) || crate::json::str_is(s, "BlogPosting") || crate::json::str_is(s, "LiveBlogPosting")
        || crate::json::str_is(s, "DiscussionForumPosting") || crate::json::str_is(s, "TechArticle")
        || crate::json::str_is(s, "APIReference")
}

} // verus!
