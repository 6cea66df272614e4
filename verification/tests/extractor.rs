use readability::dom::Node;
use readability::extract::extract;
use readability::jsonld::JsonLdError;
use readability::jsonld::try_parse_untyped_jsonld;
use readability::meta::Meta;
use readability::metadata::extract_metadata;
use readability::preprocess::pre_exec;
use readability::title::clean_title;

fn normalize_output(input: &str) -> String {
    input.lines().map(|line| line.trim()).filter(|line| !line.is_empty()).collect()
}

fn parse(data: &str) -> Vec<Node> {
    readability::extract::parse_html(data.as_bytes())
}

fn serialize_all(ns: &Vec<Node>) -> String {
    let mut out: Vec<char> = Vec::new();
    readability::dom::serialize_nodes(ns, &mut out);
    out.iter().collect()
}

/// Metadata extraction and preprocessing, as far as the scoring stages do
/// not run: the title cleaned, the document rewritten and re-serialized.
fn preprocess(data: &str) -> (Meta, String) {
    let dom = parse(data);
    let mut meta = extract_metadata(&dom);
    meta.title = clean_title(&dom, meta.title);
    let pre = pre_exec(dom);
    let content = serialize_all(&pre);
    (meta, content)
}

#[test]
fn test_extract_title() {
    let data = r#"
    <!DOCTYPE html>
    <html>
      <head>
        <title>This is title</title>
      </head>
    </html>
    "#;
    let (meta, _) = preprocess(data);
    assert_eq!(meta.title, "This is title");
}

#[test]
fn test_title_prefer_meta() {
    let data = r#"
    <head>
    <meta property="og:title" content="Title in meta tag"/>
    <meta property="hi" content="test"/>
    <title>Title in title tag</title>
    </head>
    "#;
    let (meta, _) = preprocess(data);
    assert_eq!(meta.title, "Title in meta tag");
}

#[test]
fn test_description_complex() {
    let data = r#"
    <head>
    <meta property="og:description" content="&lt;b&gt;An inquest into Eloise Parry&#x27;s death has been adjourned.&lt;/b&gt;"/>
    </head>
    "#;
    let (meta, _) = preprocess(data);
    assert_eq!(
        meta.description.expect("No description extracted"),
        "An inquest into Eloise Parry's death has been adjourned."
    );
}

#[test]
fn unwrap_noscript_img_simple() {
    let input = r#"
    <body>
      <noscript>
        <img src="https://example.com/image.png">
      </noscript>
    </body>
    "#;
    let expected = r#"
    <html><head></head>
    <body>
      <img src="https://example.com/image.png">
    </body>
    </html>
    "#;
    let (_, content) = preprocess(input);
    assert_eq!(normalize_output(expected), normalize_output(&content));
}

#[test]
fn unwrap_noscript_img_delete_preceding() {
    let input = r#"
    <body>
      <img src="https://example.com/image.png">
      <noscript>
        <img src="https://example.com/image.png">
      </noscript>
    </body>"#;
    let expected = r#"
    <html><head></head>
    <body>
      <img src="https://example.com/image.png">
    </body>
    </html>"#;
    let (_, content) = preprocess(input);
    assert_eq!(normalize_output(expected), normalize_output(&content));
}

#[test]
fn unwrap_noscript_img_nested() {
    let input = r#"
    <body>
      <img src="https://example.com/image.png">
      <noscript>
        <span><img src="https://example.com/image.png"></span>
      </noscript>
    </body>
    "#;
    let expected = r#"
    <html><head></head>
    <body>
      <img src="https://example.com/image.png">
    </body>
    </html>
    "#;
    let (_, content) = preprocess(input);
    assert_eq!(normalize_output(expected), normalize_output(&content));
}

#[test]
fn rewrite_divs_single_p_child_as_p() {
    let input = r#"
    <body>
      <div>
        <p>This is paragraph one!</p>
      </div>
      <div>
        <p>This is paragraph two!!</p>
      </div>
    </body>
    "#;
    let expected = r#"
    <html><head></head>
    <body>
      <p>This is paragraph one!</p>
      <p>This is paragraph two!!</p>
    </body>
    </html>
    "#;
    let (_, content) = preprocess(input);
    assert_eq!(normalize_output(expected), normalize_output(&content));
}

#[test]
fn rewrite_div_phrasing_only_as_p() {
    let input = r#"
    <body>
      <div>
        Here is some text, and <a>A link</a> too!<br> <br>
      </div>
    </body>
    "#;
    let expected = r#"
    <html><head></head>
    <body>
      <p>
        Here is some text, and <a>A link</a> too!
      </p>
    </body>
    </html>
    "#;
    let (_, content) = preprocess(input);
    assert_eq!(normalize_output(expected), normalize_output(&content));
}

#[test]
fn br_chain_to_p_simple() {
    let input = r#"
    <body>
    foo<br>bar<br> <br><br>abc
    </body>
    "#;
    let expected = r#"
    <html><head></head>
    <body>
    foo<br>bar<p>abc</p>
    </body>
    </html>
    "#;
    let (_, content) = preprocess(input);
    assert_eq!(normalize_output(expected), normalize_output(&content));
}

#[test]
fn br_chain_to_p_include_phrasing_elements() {
    let input = r#"
    </body>
    <br><br>Some super<a href="https://baz.com">cool website</a> and more text.
    </body>
    "#;
    let expected = r#"
    <html><head></head>
    <body>
    <p>Some super<a href="https://baz.com">cool website</a> and more text.</p>
    </body>
    </html>
    "#;
    let (_, content) = preprocess(input);
    assert_eq!(normalize_output(expected), normalize_output(&content));
}

#[test]
fn test_clean_title_colon() {
    let input = "The SoCal Weekly Digest: Welcome to our wonderful page";
    let expected = "Welcome to our wonderful page";
    let output = clean_title(&Vec::new(), input.to_string());
    assert_eq!(expected, output);
}

#[test]
fn test_clean_title_separator_left() {
    let input = "Príncipe Harry asegura que su padre y hermano están \"atrapados\" en la monarquía: \"Siento compasión\" | Príncipe Carlos | Príncipe William | Meghan Markle | Duques de Sussex | Oprah Winfrey";
    let expected = "Príncipe Harry asegura que su padre y hermano están \"atrapados\" en la monarquía: \"Siento compasión\"";
    let output = clean_title(&Vec::new(), input.to_string());
    assert_eq!(expected, output);
}

#[test]
fn test_clean_title_separator_right() {
    let input = "Short Title | How Cats Can Save the Planet";
    let expected = "How Cats Can Save the Planet";
    let output = clean_title(&Vec::new(), input.to_string());
    assert_eq!(expected, output);
}

#[test]
fn test_clean_title_preserve_hyphen() {
    let input = "Just-released Minecraft exploit makes it easy to crash game servers";
    let output = clean_title(&Vec::new(), input.to_string());
    assert_eq!(input, output);
}

#[test]
fn test_clean_title_ascii_dash_separator() {
    let input = "House committee votes to approve bill that would grant DC statehood - CNNPolitics";
    let expected = "House committee votes to approve bill that would grant DC statehood";
    let output = clean_title(&Vec::new(), input.to_string());
    assert_eq!(expected, output);
}

#[test]
fn test_clean_title_unicode_dash_separator() {
    let dashes = [
        "-",   // hyphen
        "–", // en dash
        "—", // em dash
    ];
    let expected = "Coinbase from YC to IPO";
    for &d in dashes.iter() {
        let f = format!("Coinbase from YC to IPO {} Y Combinator", d);
        let output = clean_title(&Vec::new(), f.to_string());
        assert_eq!(expected, output);
    }
}

#[test]
fn test_clean_title_preserve_dash() {
    let input = "Raspberry Pi 3 - All-time bestselling computer in UK";
    let output = clean_title(&Vec::new(), input.to_string());
    assert_eq!(input, output);
}

#[test]
fn test_clean_title_preserve_colon() {
    let input = r#"
    <html>
      <head>
      <meta property="og:title" content="Watch Dogs: Legion Will Be Free To Play This Weekend"/>
      </head>
      <body>
        <header>
          <h1><i>Watch Dogs: Legion</i> Will Be Free To Play This Weekend</h1>
        </header>
      </body>
    </html>
    "#;
    let expected = "Watch Dogs: Legion Will Be Free To Play This Weekend";
    let (meta, _) = preprocess(input);
    assert_eq!(expected, meta.title);
}

#[test]
fn test_meta_variant0() {
    let input = r#"
    <html>
      <head>
        <meta charset="utf-8"/>
      </head>
      <body></body>
    </html>
    "#;
    let (meta, _) = preprocess(input);
    assert_eq!(meta.charset.expect("Expected charset"), "utf-8");
}

#[test]
fn test_meta_variant1() {
    let input = r#"
    <html>
      <head>
        <meta http-equiv="Content-Type" content="text/html; charset=utf-8">
      </head>
      <body></body>
    </html>
    "#;
    let (meta, _) = preprocess(input);
    assert_eq!(meta.charset.expect("Expected charset"), "utf-8");
}

#[test]
fn test_ldjson_missing_context() {
    let mut meta = Meta::default();
    let input = "{\"@type\":\"NewsArticle\"}";
    match try_parse_untyped_jsonld(&input, &mut meta) {
        Ok(_) => assert!(false, "Expected missing context error"),
        Err(e) => assert_eq!(JsonLdError::MissingContext, e),
    }
}

#[test]
fn test_ldjson_invalid_context() {
    let mut meta = Meta::default();
    let input = "{\"@context\":\"http://fake.org\", \"@type\":\"NewsArticle\"}";
    match try_parse_untyped_jsonld(&input, &mut meta) {
        Ok(_) => assert!(false, "Expected invalid context error"),
        Err(e) => assert_eq!(JsonLdError::InvalidContext, e),
    }
}

#[test]
fn test_ldjson_missing_type() {
    let mut meta = Meta::default();
    let input = "{\"@context\":\"http://schema.org\"}";
    match try_parse_untyped_jsonld(&input, &mut meta) {
        Ok(_) => assert!(false, "Expected missing type error"),
        Err(e) => assert_eq!(JsonLdError::MissingType, e),
    }
}

#[test]
fn test_ldjson_invalid_type() {
    let mut meta = Meta::default();
    let input = "{\"@context\":\"http://schema.org\", \"@type\":\"DefinitelyNotValid\"}";
    match try_parse_untyped_jsonld(&input, &mut meta) {
        Ok(_) => assert!(false, "Expected invalid type error"),
        Err(e) => assert_eq!(JsonLdError::InvalidType, e),
    }
}

#[test]
fn test_ldjson_buzzfeed() {
    let mut meta = Meta::default();
    let input = r#"
{"@context":"http://schema.org",
"@type":"NewsArticle",
"isAccessibleForFree":true,
"mainEntityOfPage":"https://www.buzzfeed.com/markdistefano/diet-pills-burns-up",
"description":"An inquest into Eloise Parry's death has been adjourned until July.",
"headline":"Student Dies After Diet Pills She Bought Online \"Burned Her Up From Within\"",
"datePublished":"2015-04-21T09:29:39.000Z",
"dateModified":"2015-04-21T09:29:39.000Z",
"author":"[{\"@type\":\"Person\",\"name\":\"Mark Di Stefano\",\"url\":\"https://www.buzzfeed.com/markdistefano\",\"jobTitle\":\"BuzzFeed News Reporter, Australia\"}]",
"publisher":{"@type":"Organization","name":"BuzzFeed","url":"https://www.buzzfeed.com"},
"image":{"@type":"ImageObject","url":"https://img.buzzfeed.com/buzzfeed-static/static/2015-04/22/5/campaign_images/webdr03/student-dies-after-diet-pills-she-bought-online-b-2-28712-1429696299-24_dblbig.jpg?resize=1200:*","representativeOfPage":true}
}
    "#;
    try_parse_untyped_jsonld(&input, &mut meta).expect("Could not parse json ld");
    assert_eq!("Mark Di Stefano", meta.author.expect("No author extracted"));
    assert_eq!(
        "Student Dies After Diet Pills She Bought Online \"Burned Her Up From Within\"",
        meta.title
    );
    assert_eq!(
        "An inquest into Eloise Parry's death has been adjourned until July.",
        meta.description.expect("No description extracted")
    );
    assert!(meta.last_modified.is_some(), "Could not parse dateModified field");
}

#[test]
fn preprocess_is_idempotent_on_samples() {
    let samples = [
        "<body>foo<br>bar<br> <br><br>abc</body>",
        "<body><div><p>One paragraph here!</p></div><div>Phrasing only <a>link</a><br> <br></div></body>",
        "<body><img src=\"https://example.com/i.png\"><noscript><img src=\"https://example.com/i.png\"></noscript></body>",
    ];
    for s in samples.iter() {
        let once = pre_exec(parse(s));
        let first = serialize_all(&once);
        let twice = pre_exec(once);
        let second = serialize_all(&twice);
        assert_eq!(first, second);
    }
}

#[test]
fn extract_runs_end_to_end() {
    let data = r#"
    <html>
      <head><title>A Fine Article | Site</title></head>
      <body>
        <div>
          <p>This paragraph carries more than twenty-five characters of text, with a comma.</p>
          <p>Another paragraph, also comfortably long enough to count for the scorer.</p>
        </div>
      </body>
    </html>
    "#;
    let product = extract(data.as_bytes(), None).expect("extraction failed");
    assert_eq!(product.meta.title, "A Fine Article");
    assert!(product.content.contains("id=\"article\""));
    assert!(product.content.contains("This paragraph carries"));
    assert!(product.content.contains("class=\"title metadata\""));
}

#[test]
fn extract_without_candidates_fails() {
    let data = "<html><head></head><body></body></html>";
    match extract(data.as_bytes(), None) {
        Ok(_) => assert!(false, "expected no candidates"),
        Err(e) => assert_eq!(e.message(), "No candidates found."),
    }
}

#[test]
fn title_is_entity_decoded_and_tag_stripped() {
    let data = "<html><head><title>Ben &amp; Jerry</title></head></html>";
    let (meta, _) = preprocess(data);
    assert_eq!(meta.title, "Ben & Jerry");
}

#[test]
fn merge_prefers_primary_fields() {
    let mut a = Meta::default();
    a.title = String::from("primary");
    a.author = Some(String::from("A. Author"));
    let mut b = Meta::default();
    b.title = String::from("secondary");
    b.author = Some(String::from("B. Author"));
    b.charset = Some(String::from("utf-8"));
    let merged = a.merge(b);
    assert_eq!(merged.title, "primary");
    assert_eq!(merged.author.unwrap(), "A. Author");
    assert_eq!(merged.charset.unwrap(), "utf-8");
}

#[test]
fn date_line_is_formatted() {
    let mut meta = Meta::default();
    let input = "{\"@context\":\"https://schema.org\",\"@type\":\"Article\",\"dateModified\":\"2015-04-21T09:29:39.000Z\"}";
    try_parse_untyped_jsonld(&input, &mut meta).expect("valid json-ld");
    let parts = meta.last_modified.expect("date parsed");
    let formatted: String = readability::meta::format_updated(&parts).iter().collect();
    assert_eq!(formatted, "Updated Apr. 21, 2015 09:29 am");
}

#[test]
fn links_resolve_against_base_url() {
    let data = r#"
    <html>
      <body>
        <div>
          <p>This paragraph carries more than twenty-five characters, with a comma,
          and a <a href="/inner/page">relative link</a> inside of it.</p>
          <p>Another paragraph, also comfortably long enough to count for the scorer.</p>
        </div>
      </body>
    </html>
    "#;
    let product = extract(data.as_bytes(), Some("https://site.example/dir/start.html"))
        .expect("extraction failed");
    assert!(product.content.contains("href=\"https://site.example/inner/page\""));
}

#[test]
fn charset_is_prefixed_to_content() {
    let data = r#"
    <html>
      <head><meta charset="utf-8"/></head>
      <body>
        <div>
          <p>This paragraph carries more than twenty-five characters of text, with a comma.</p>
          <p>Another paragraph, also comfortably long enough to count for the scorer.</p>
        </div>
      </body>
    </html>
    "#;
    let product = extract(data.as_bytes(), None).expect("extraction failed");
    assert!(product.content.starts_with("<meta charset=\"utf-8\"/>"));
}

#[test]
fn cleaner_removes_link_heavy_list() {
    let data = r#"
    <html>
      <body>
        <div>
          <p>This paragraph carries more than twenty-five characters of text, with a comma.</p>
          <p>Another paragraph, also comfortably long enough to count for the scorer.</p>
          <ul class="nav">
            <li><a href="https://example.com/a">NavLinkOne is long</a></li>
            <li><a href="https://example.com/b">NavLinkTwo is long</a></li>
          </ul>
        </div>
      </body>
    </html>
    "#;
    let product = extract(data.as_bytes(), None).expect("extraction failed");
    assert!(product.content.contains("This paragraph carries"));
    assert!(!product.content.contains("NavLinkOne"));
}

#[test]
fn cleaner_removes_heading_that_repeats_title() {
    let data = r#"
    <html>
      <head><meta property="og:title" content="My Heading"/></head>
      <body>
        <div>
          <h1>My Heading</h1>
          <p>This paragraph carries more than twenty-five characters of text, with a comma.</p>
          <p>Another paragraph, also comfortably long enough to count for the scorer.</p>
        </div>
      </body>
    </html>
    "#;
    let product = extract(data.as_bytes(), None).expect("extraction failed");
    assert!(!product.content.contains("<h1>My Heading</h1>"));
    assert!(product.content.contains("class=\"title metadata\""));
}

#[test]
fn table_cleanup_can_be_switched_off() {
    let data = r#"
    <html>
      <body>
        <div>
          <p>This paragraph carries more than twenty-five characters of text, with a comma.</p>
          <p>Another paragraph, also comfortably long enough to count for the scorer.</p>
          <ul class="nav">
            <li><a href="https://example.com/a">NavLinkOne is long</a></li>
          </ul>
        </div>
      </body>
    </html>
    "#;
    let dom = readability::extract::parse_html(data.as_bytes());
    let mut features = readability::extract::Features::new();
    features.set(String::from("enable-table-cleanup"), 0);
    let product = readability::extract::extract_dom(dom, "https://example.com", &features)
        .expect("extraction failed");
    assert!(product.content.contains("NavLinkOne"));
}
