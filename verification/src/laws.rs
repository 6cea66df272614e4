//! The stated laws of the extractor: the title fallback, the description
//! rule, the precedence of JSON-LD over tag metadata, and determinism.

use vstd::prelude::*;
use crate::dom::NodeV;
use crate::dom::attr_of;
use crate::extract::spec_base;
use crate::extract::spec_extract_dom;
use crate::extract::parsed_dom;
use crate::meta::MetaV;
use crate::meta::merge_spec;
use crate::metadata::first_title_walk;
use crate::metadata::jsonld_walk;
use crate::metadata::meta_step;
use crate::metadata::refine_text;
use crate::metadata::spec_extract_metadata;
use crate::metadata::tag_meta_walk;
use crate::metadata::truncate_description;

verus! {

/// The record with nothing set.
pub open spec fn empty_meta() -> MetaV {
    MetaV { title: Seq::empty(), author: None, description: None, charset: None, last_modified: None }
}

/// Where no JSON-LD block and no `<meta>` tag yields a title, the extracted
/// title is the first `<title>` element's whitespace-normal text, re-read
/// through the fragment parser (entities decoded, stray markup dropped).
pub proof fn lemma_title_fallback(dom: Seq<NodeV>, t: Seq<char>)
    requires
        jsonld_walk(dom, empty_meta()).1 == empty_meta(),
        tag_meta_walk(dom, empty_meta()).title == Seq::<char>::empty(),
        first_title_walk(dom) == Some(t),
    ensures
        spec_extract_metadata(dom).title == refine_text(t),
{
    assert(spec_extract_metadata(dom).title == refine_text(t)) by {
        assert(empty_meta() =~= (MetaV {
            title: Seq::empty(),
            author: None,
            description: None,
            charset: None,
            last_modified: None,
        }));
    }
}

/// A `<meta property="og:description" content=X>` element sets the
/// description to X truncated at the first `". "`; the extractor's last step
/// then re-reads it through the fragment parser, which decodes entities and
/// drops markup.
pub proof fn lemma_og_description(attrs: Seq<(Seq<char>, Seq<char>)>, x: Seq<char>, m: MetaV)
    requires
        attr_of(attrs, "property"@) == Some("og:description"@),
        attr_of(attrs, "content"@) == Some(x),
    ensures
        meta_step(attrs, m).description == Some(truncate_description(x)),
{
    reveal_strlit("og:description");
    reveal_strlit("dc:title");
    reveal_strlit("dcterm:title");
    reveal_strlit("og:title");
    reveal_strlit("weibo:article:title");
    reveal_strlit("weibo:webpage:title");
    reveal_strlit("title");
    reveal_strlit("twitter:title");
    assert("og:description"@.len() == 14);
    assert("dc:title"@.len() == 8);
    assert("dcterm:title"@.len() == 12);
    assert("og:title"@.len() == 8);
    assert("weibo:article:title"@.len() == 19);
    assert("weibo:webpage:title"@.len() == 19);
    assert("title"@.len() == 5);
    assert("twitter:title"@.len() == 13);
    assert(!crate::metadata::is_title_prop("og:description"@));
    assert(crate::metadata::is_description_prop("og:description"@));
}

/// Fields set from an accepted JSON-LD block survive the merge with the
/// tag-derived record: JSON-LD takes precedence over `<meta>` tags.
pub proof fn lemma_jsonld_precedence(a: MetaV, b: MetaV)
    ensures
        a.title.len() > 0 ==> merge_spec(a, b).title == a.title,
        a.author is Some ==> merge_spec(a, b).author == a.author,
        a.description is Some ==> merge_spec(a, b).description == a.description,
        a.charset is Some ==> merge_spec(a, b).charset == a.charset,
        a.last_modified is Some ==> merge_spec(a, b).last_modified == a.last_modified,
{
}

/// Extraction is deterministic: `extract` promises a result equal to a
/// function of the input bytes, the URL and the rule switches alone, so two
/// runs on the same input agree, byte for byte.
pub proof fn lemma_extract_deterministic(bytes: Seq<u8>, url: Option<Seq<char>>)
    ensures
        spec_extract_dom(parsed_dom(bytes), spec_base(url), Seq::empty()) == spec_extract_dom(
            parsed_dom(bytes),
            spec_base(url),
            Seq::empty(),
        ),
{
}

} // verus!
