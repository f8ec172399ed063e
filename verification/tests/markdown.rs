use webtools::dom::{build_document, DomAttr, DomElement, DomNode, HtmlEvent, NodeData};
use webtools::markdown::{extract, extract_from_matches, PageMatches};

#[test]
fn extracts_article_markdown() {
    let html = r#"
            <html>
              <head><title>Hello</title><meta name="description" content="A tiny page"></head>
              <body>
                <nav>ignore me</nav>
                <article><h1>Hello</h1><p>Read <a href="/docs">the docs</a>.</p></article>
              </body>
            </html>
        "#;
    let extracted = extract(html, "https://example.com/post");
    assert!(extracted.content.contains("# Hello"));
    assert!(!extracted.content.contains("# Hello\n\n# Hello"));
    assert!(extracted
        .content
        .contains("[the docs](<https://example.com/docs>)"));
    assert!(!extracted.content.contains("ignore me"));
}

#[test]
fn renders_code_fence() {
    let html = "<html><body><main><pre>fn main() {}</pre></main></body></html>";
    let extracted = extract(html, "https://example.com");
    assert!(extracted.content.contains("```"));
    assert!(extracted.content.contains("fn main() {}"));
}

#[test]
fn article_page_exact_markdown() {
    let html = r#"<html><head><title>Hello</title><meta name="description" content="A tiny page"></head>
<body><nav>ignore me</nav><article><h1>Hello</h1><p>Read <a href="/docs">the docs</a>.</p></article></body></html>"#;
    let e = extract(html, "https://example.com/post");
    assert_eq!(e.title.as_deref(), Some("Hello"));
    assert_eq!(
        e.content,
        "# Hello\n\nA tiny page\n\nRead [the docs](<https://example.com/docs>)."
    );
    assert_eq!(e.warnings, vec!["low_content_yield".to_string()]);
}

#[test]
fn code_fence_outlasts_backticks() {
    let html = "<html><body><main><pre>a ``` b</pre></main></body></html>";
    let e = extract(html, "https://example.com");
    assert_eq!(e.content, "````\na ``` b\n````");
    assert_eq!(e.title, None);
}

#[test]
fn inline_formatting() {
    let html = "<html><body><main><p>Use <code>x`y</code>, <strong> bold </strong> and <em>it</em>.<br>Next</p></main></body></html>";
    let e = extract(html, "https://example.com");
    assert_eq!(e.content, "Use ``x`y``, **bold** and *it*. Next");
}

#[test]
fn link_text_is_escaped_and_fragment_links_dropped() {
    let html = "<html><body><main><p><a href=\"/x\">[a]\\b</a> <a href=\"#top\">top</a> <a href=\"javascript:void(0)\">js</a></p></main></body></html>";
    let e = extract(html, "https://example.com/dir/page");
    assert_eq!(e.content, "[\\[a\\]\\\\b](<https://example.com/x>) top js");
}

#[test]
fn relative_links_without_base_stay_text() {
    let html = "<html><body><main><p><a href=\"/x\">rel</a> <a href=\"https://rust-lang.org\">abs</a></p></main></body></html>";
    let e = extract(html, "not a url");
    assert_eq!(e.content, "rel [abs](<https://rust-lang.org/>)");
}

#[test]
fn lists_and_quotes() {
    let html = "<html><body><main><ul><li>one</li><li> </li><li>two</li></ul><ol><li>a</li><li>b</li></ol><blockquote><p>q1</p><p>q2</p></blockquote><hr></main></body></html>";
    let e = extract(html, "https://example.com");
    assert_eq!(e.content, "- one\n- two\n\n1. a\n2. b\n\n> q1\n>\n> q2\n\n---");
}

#[test]
fn tables_are_padded() {
    let html = "<html><body><main><table><tr><th>h1</th><th>h|2</th></tr><tr><td>x</td></tr></table></main></body></html>";
    let e = extract(html, "https://example.com");
    assert_eq!(e.content, "| h1 | h\\|2 |\n| --- | --- |\n| x |  |");
}

#[test]
fn headings_keep_level() {
    let html = "<html><body><main><h3>Deep <em>one</em></h3><p>x</p></main></body></html>";
    let e = extract(html, "https://example.com");
    assert_eq!(e.content, "### Deep *one*\n\nx");
}

#[test]
fn title_falls_back_to_meta() {
    let html = r#"<html><head><meta property="og:title" content=" Open  Graph "><meta property="og:description" content="Open Graph"></head><body><p>x</p></body></html>"#;
    let e = extract(html, "https://example.com");
    assert_eq!(e.title.as_deref(), Some("Open Graph"));
    assert_eq!(e.content, "# Open Graph\n\nx");
}

#[test]
fn twitter_title_and_description() {
    let html = r#"<html><head><meta name="twitter:title" content="T"><meta name="description" content="About"></head><body><p>x</p></body></html>"#;
    let e = extract(html, "https://example.com");
    assert_eq!(e.title.as_deref(), Some("T"));
    assert_eq!(e.content, "# T\n\nAbout\n\nx");
}

#[test]
fn noisy_blocks_are_dropped() {
    let html = r#"<html><body><main><div class="cookie-banner">Accept cookies</div><div id="share-bar">Share</div><p>Real text</p><footer>foot</footer><script>var x;</script></main></body></html>"#;
    let e = extract(html, "https://example.com");
    assert_eq!(e.content, "Real text");
}

#[test]
fn long_pages_have_no_warning() {
    let para = "word ".repeat(60);
    let html = format!("<html><body><article><p>{para}</p></article></body></html>");
    let e = extract(&html, "https://example.com");
    assert!(e.content.chars().count() >= 200);
    assert!(e.warnings.is_empty());
}

#[test]
fn empty_document() {
    let e = extract("", "https://example.com");
    assert_eq!(e.title, None);
    assert_eq!(e.content, "");
    assert_eq!(e.warnings, vec!["low_content_yield".to_string()]);
}

fn text(s: &str) -> DomNode {
    DomNode::Text(s.chars().collect())
}

fn element(name: &str, attrs: Vec<(&str, &str)>, children: Vec<DomNode>) -> DomNode {
    DomNode::Element(DomElement {
        name: name.chars().collect(),
        attrs: attrs
            .into_iter()
            .map(|(k, v)| DomAttr {
                ns: Vec::new(),
                local: k.chars().collect(),
                value: v.chars().collect(),
            })
            .collect(),
        children,
    })
}

#[test]
fn extract_from_built_matches() {
    let title = element("title", vec![], vec![text("  My \n Page ")]);
    let root = element(
        "div",
        vec![("class", "post-content")],
        vec![
            element("h2", vec![], vec![text("My Page")]),
            element("p", vec![], vec![text("Body text.")]),
        ],
    );
    let noisy = element("div", vec![("class", "content share")], vec![text("a much longer text than the root has")]);
    let mut roots: Vec<Option<Vec<DomNode>>> = (0..10).map(|_| Some(Vec::new())).collect();
    roots[5] = Some(vec![root]);
    roots[7] = Some(vec![noisy]);
    let page = PageMatches {
        title: Some(vec![title]),
        og_title: Some(Vec::new()),
        twitter_title: Some(Vec::new()),
        description: Some(vec![element("meta", vec![("name", "description"), ("content", "My  Page")], vec![])]),
        og_description: Some(Vec::new()),
        roots,
    };
    let e = extract_from_matches(&page, None);
    assert_eq!(e.title.as_deref(), Some("My Page"));
    assert_eq!(e.content, "# My Page\n\nBody text.");
}

#[test]
fn unparsed_root_selector_gives_no_body() {
    let mut roots: Vec<Option<Vec<DomNode>>> = (0..10).map(|_| Some(Vec::new())).collect();
    roots[0] = Some(vec![element("p", vec![], vec![text("kept out")])]);
    roots[9] = None;
    let page = PageMatches {
        title: None,
        og_title: None,
        twitter_title: None,
        description: None,
        og_description: None,
        roots,
    };
    let e = extract_from_matches(&page, None);
    assert_eq!(e.title, None);
    assert_eq!(e.content, "");
}

#[test]
fn title_in_creation_order() {
    let html = "<div><table><tr><td><title>X</title></td></tr><title>Y</title></table></div>";
    let e = extract(html, "https://example.com");
    assert_eq!(e.title.as_deref(), Some("X"));
}

#[test]
fn blank_line_runs_are_shortened() {
    let html = "<html><body><main><pre>a\r\n\r\n\r\n\r\nb  </pre><p>  </p><br><br><br><p>c</p></main></body></html>";
    let e = extract(html, "https://example.com");
    assert_eq!(e.content, "```\na\n\nb\n```\n\nc");
    assert!(!e.content.contains("\n\n\n"));
    assert_eq!(e.content.trim(), e.content);
}

#[test]
fn document_from_a_walk() {
    let events = vec![
        HtmlEvent::Open(NodeData::Other),
        HtmlEvent::Open(NodeData::Element(
            "p".to_string(),
            vec![(String::new(), "class".to_string(), "lead".to_string())],
        )),
        HtmlEvent::Open(NodeData::Text("hi".to_string())),
        HtmlEvent::Close,
        HtmlEvent::Close,
        HtmlEvent::Close,
    ];
    match build_document(&events) {
        DomNode::Other(kids) => {
            assert_eq!(kids.len(), 1);
            match &kids[0] {
                DomNode::Element(e) => {
                    assert_eq!(e.name, vec!['p']);
                    assert_eq!(e.attrs.len(), 1);
                    assert_eq!(e.attrs[0].value, "lead".chars().collect::<Vec<char>>());
                    assert_eq!(e.children.len(), 1);
                }
                other => panic!("unexpected {:?}", other),
            }
        }
        other => panic!("unexpected {:?}", other),
    }
    match build_document(&Vec::new()) {
        DomNode::Other(kids) => assert!(kids.is_empty()),
        other => panic!("unexpected {:?}", other),
    }
}

#[test]
fn normalized_markdown_is_stable() {
    let html = "<html><body><main><pre>a  \r\n\r\n\r\n\nb\n</pre><p>c</p></main></body></html>";
    let e = extract(html, "https://example.com");
    assert_eq!(e.content, "```\na\n\nb\n```\n\nc");
    assert!(!e.content.contains('\r'));
    assert!(e.content.lines().all(|l| l.trim_end() == l));
    let again = extract(&format!("<html><body><main><pre>{}</pre></main></body></html>", "x \n\n\n y"), "https://example.com");
    assert_eq!(again.content, "```\nx\n\n y\n```");
}
