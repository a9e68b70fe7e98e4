use mrml::attributes::{resolve, Attributes};
use mrml::body::{BodyElement, MJColumn, MJColumnParser};
use mrml::header::{FontRegistry, Header};
use mrml::error::Error;
use mrml::head::MJBreakpoint;
use mrml::node::parse_node;
use mrml::size::{parse_size, Size};
use mrml::tokens::XmlToken;
use mrml::{parse, to_email, to_html, to_preview, to_title, Options};

const BREAKPOINT: &str = "<mjml><mj-head><mj-breakpoint width=\"600px\"/></mj-head><mj-body><mj-column/></mj-body></mjml>";

fn attrs(pairs: &[(&str, &str)]) -> Attributes {
    let mut a = Attributes::new();
    for (k, v) in pairs {
        a.set(k.to_string(), v.to_string());
    }
    a
}

fn value(a: &Attributes, k: &str) -> Option<String> {
    a.get(&k.to_string()).cloned()
}

#[test]
fn base() {
    let html = to_html(BREAKPOINT, Options::default()).unwrap();
    assert!(html.contains("@media only screen and (min-width:600px)"));
    assert!(!html.contains("480px"));
    assert!(html.contains("mj-column-per-100"));
}

#[test]
fn invalid_mjml() {
    let res = to_html("<mjml", Options::default());
    assert!(res.is_err());
}

#[test]
fn breakpoint_scenario_sets_context() {
    let doc = parse(BREAKPOINT, Options::default()).unwrap();
    assert_eq!(doc.head.header.breakpoint, Size::Pixel(600));
}

#[test]
fn default_breakpoint_is_480() {
    let html = to_html("<mjml><mj-body><mj-column/></mj-body></mjml>", Options::default()).unwrap();
    assert!(html.contains("(min-width:480px)"));
}

#[test]
fn title_scenario() {
    let t = to_title("<mjml><mj-head><mj-title>Hello</mj-title></mj-head></mjml>", Options::default()).unwrap();
    assert_eq!(t, "Hello");
    let doc = parse("<mjml><mj-head><mj-title>Hello</mj-title></mj-head></mjml>", Options::default()).unwrap();
    assert_eq!(doc.get_title(), "Hello");
}

#[test]
fn email_scenario() {
    let src = "<mjml>\n  <mj-head>\n    <mj-title>Testing</mj-title>\n    <mj-preview>Preview</mj-preview>\n  </mj-head>\n</mjml>";
    let e = to_email(src, Options::default()).unwrap();
    assert_eq!(e.subject, "Testing");
    assert_eq!(e.text, "Preview");
    assert!(e.html.contains("<title>Testing</title>"));
    assert_eq!(to_preview(src, Options::default()).unwrap(), "Preview");
}

#[test]
fn malformed_root_is_rejected() {
    assert!(parse("<mjml", Options::default()).is_err());
    assert!(to_title("<mjml", Options::default()).is_err());
    assert!(to_preview("<mjml", Options::default()).is_err());
    assert!(to_email("<mjml", Options::default()).is_err());
}

#[test]
fn empty_root_renders() {
    assert!(to_preview("<mjml></mjml>", Options::default()).is_ok());
    assert!(to_html("<mjml></mjml>", Options::default()).is_ok());
}

#[test]
fn unknown_tag_is_rejected() {
    match parse("<mjml><mj-body><mj-unknown/></mj-body></mjml>", Options::default()) {
        Err(Error::UnknownElement(t)) => assert_eq!(t, "mj-unknown"),
        _ => panic!("expected an unknown element"),
    }
    match parse("<mjml><mj-head><mj-nothing/></mj-head></mjml>", Options::default()) {
        Err(Error::UnknownElement(t)) => assert_eq!(t, "mj-nothing"),
        _ => panic!("expected an unknown element"),
    }
    match parse("<mjml><mj-other/></mjml>", Options::default()) {
        Err(Error::UnknownElement(t)) => assert_eq!(t, "mj-other"),
        _ => panic!("expected an unknown element"),
    }
}

#[test]
fn root_other_than_mjml_is_unknown() {
    match parse("<html></html>", Options::default()) {
        Err(Error::UnknownElement(t)) => assert_eq!(t, "html"),
        _ => panic!("expected an unknown element"),
    }
}

#[test]
fn root_must_come_first() {
    assert!(matches!(parse("<!-- c --><mjml></mjml>", Options::default()), Err(Error::InvalidChild)));
    assert!(parse("\n  <mjml></mjml>", Options::default()).is_ok());
}

#[test]
fn first_failure_in_document_order() {
    match parse("<mjml><mj-unknown/><mj-body></mjml>", Options::default()) {
        Err(Error::UnknownElement(t)) => assert_eq!(t, "mj-unknown"),
        _ => panic!("expected an unknown element"),
    }
}

#[test]
fn column_own_width_is_used() {
    let src = "<mjml><mj-body><mj-section><mj-column width=\"25%\"/><mj-column width=\"150px\"/></mj-section></mj-body></mjml>";
    let html = to_html(src, Options::default()).unwrap();
    assert!(html.contains("mj-column-per-25 "));
    assert!(html.contains("width:150px;"));
    assert!(html.contains("mj-column-px-150 "));
}

#[test]
fn default_options_register_web_fonts() {
    let o = Options::default();
    assert_eq!(o.fonts.fonts.len(), 5);
    assert_eq!(value(&o.fonts.fonts, "Lato").unwrap(), "https://fonts.googleapis.com/css?family=Lato:300,400,500,700");
    assert!(o.keep_comments);
    assert_eq!(o.breakpoint, Size::Pixel(480));
}

#[test]
fn body_before_head_is_invalid() {
    let src = "<mjml><mj-body></mj-body><mj-head></mj-head></mjml>";
    assert!(matches!(parse(src, Options::default()), Err(Error::InvalidChild)));
}

#[test]
fn leaf_text_rejects_elements() {
    let src = "<mjml><mj-body><mj-text><mj-column/></mj-text></mj-body></mjml>";
    assert!(matches!(parse(src, Options::default()), Err(Error::InvalidChild)));
}

#[test]
fn font_requires_name_and_href() {
    let src = "<mjml><mj-head><mj-font name=\"Raleway\"/></mj-head></mjml>";
    match parse(src, Options::default()) {
        Err(Error::MissingRequiredAttribute(k, n)) => {
            assert_eq!(k, "mj-font");
            assert_eq!(n, "href");
        }
        _ => panic!("expected a missing attribute"),
    }
    let ok = "<mjml><mj-head><mj-font name=\"Raleway\" href=\"https://example.com/r.css\"/></mj-head></mjml>";
    let doc = parse(ok, Options::default()).unwrap();
    assert_eq!(value(&doc.head.header.fonts.fonts, "Raleway").unwrap(), "https://example.com/r.css");
}

#[test]
fn invalid_column_width() {
    let src = "<mjml><mj-body><mj-column width=\"wide\"/></mj-body></mjml>";
    match parse(src, Options::default()) {
        Err(Error::InvalidAttributeValue(k, n, v)) => {
            assert_eq!(k, "mj-column");
            assert_eq!(n, "width");
            assert_eq!(v, "wide");
        }
        _ => panic!("expected an invalid attribute value"),
    }
}

#[test]
fn tokenizer_error_is_reported() {
    assert!(matches!(parse("<mjml><mj-body>", Options::default()), Err(_)));
    assert!(matches!(parse("<mjml attr=></mjml>", Options::default()), Err(Error::Tokenize)));
}

#[test]
fn comments_dropped_when_not_kept() {
    let src = "<mjml><mj-body><mj-column><!-- note --></mj-column></mj-body></mjml>";
    let mut opts = Options::default();
    opts.keep_comments = false;
    let html = to_html(src, opts).unwrap();
    assert!(!html.contains("note"));
    let doc = parse(src, Options::default()).unwrap();
    match &doc.body.children[0] {
        BodyElement::Component(c) => {
            assert_eq!(c.children.len(), 1);
            assert!(matches!(&c.children[0], BodyElement::Comment(t) if t == " note "));
        }
        _ => panic!("expected a column"),
    }
    let html = to_html(src, Options::default()).unwrap();
    assert!(html.contains("<!-- note -->"));
}

#[test]
fn render_is_idempotent() {
    let src = "<mjml><mj-head><mj-title>T</mj-title></mj-head><mj-body><mj-section><mj-column><mj-text>Hi</mj-text></mj-column><mj-column/></mj-section></mj-body></mjml>";
    let doc = parse(src, Options::default()).unwrap();
    let a = doc.get_html().unwrap();
    let b = doc.get_html().unwrap();
    assert_eq!(a, b);
    assert!(a.contains("mj-column-per-50"));
    assert!(a.contains("width:300px;"));
    assert!(a.contains(">Hi</div>"));
}

#[test]
fn cascade_layers_in_order() {
    let d = attrs(&[("a", "d"), ("b", "d"), ("c", "d"), ("x", "d")]);
    let c = attrs(&[("a", "c"), ("b", "c"), ("c", "c")]);
    let e = attrs(&[("a", "e"), ("b", "e")]);
    let l = attrs(&[("a", "l")]);
    let r = resolve(&d, Some(&c), Some(&e), &l);
    assert_eq!(value(&r, "a").unwrap(), "l");
    assert_eq!(value(&r, "b").unwrap(), "e");
    assert_eq!(value(&r, "c").unwrap(), "c");
    assert_eq!(value(&r, "x").unwrap(), "d");
    assert_eq!(value(&r, "y"), None);
}

#[test]
fn context_defaults_apply_to_body() {
    let src = "<mjml><mj-head><mj-attributes><mj-text color=\"#ff0000\"/></mj-attributes></mj-head><mj-body><mj-text>x</mj-text><mj-text color=\"#00ff00\">y</mj-text></mj-body></mjml>";
    let html = to_html(src, Options::default()).unwrap();
    assert!(html.contains("color:#ff0000;"));
    assert!(html.contains("color:#00ff00;"));
    assert!(!html.contains("color:#000000;"));
}

#[test]
fn set_replaces_and_merge_prefers_other() {
    let mut a = attrs(&[("k", "1"), ("j", "2")]);
    a.set("k".to_string(), "3".to_string());
    assert_eq!(a.len(), 2);
    assert_eq!(value(&a, "k").unwrap(), "3");
    let b = attrs(&[("j", "4"), ("m", "5")]);
    a.merge(&b);
    assert_eq!(value(&a, "j").unwrap(), "4");
    assert_eq!(value(&a, "m").unwrap(), "5");
    assert_eq!(value(&a, "k").unwrap(), "3");
}

#[test]
fn sizes() {
    assert_eq!(parse_size("600px"), Some(Size::Pixel(600)));
    assert_eq!(parse_size("50%"), Some(Size::Percent(50)));
    assert_eq!(parse_size("px"), None);
    assert_eq!(parse_size("12em"), None);
    assert_eq!(parse_size("99999999999px"), None);
    assert_eq!(parse_size("4294967295px"), Some(Size::Pixel(4294967295)));
}

#[test]
fn breakpoint_element() {
    let toks = vec![
        XmlToken::Start("mj-breakpoint".to_string()),
        XmlToken::Attribute("width".to_string(), "320px".to_string()),
        XmlToken::Empty,
    ];
    let (node, end) = parse_node(&toks, 0).unwrap();
    assert_eq!(end, 3);
    let b = MJBreakpoint::parse(&node).unwrap();
    assert_eq!(b.value, Some(Size::Pixel(320)));
}

#[test]
fn tree_builder_checks_close_tags() {
    let toks = vec![
        XmlToken::Start("mjml".to_string()),
        XmlToken::Open,
        XmlToken::Close("other".to_string()),
    ];
    assert!(parse_node(&toks, 0).is_err());
    assert!(mrml::MJMLElement::parse_root(&vec![XmlToken::Text("x".to_string())], Options::default()).is_err());
}

#[test]
fn column_parser_hooks() {
    let header = Header::new(Size::Pixel(480), FontRegistry::new(), false);
    let extra = attrs(&[("vertical-align", "middle"), ("padding", "4px")]);
    let mut p = MJColumnParser::new(&header, Some(&extra));
    p.parse_attribute("padding".to_string(), "8px".to_string());
    p.parse_child_text("hello".to_string());
    p.parse_child_comment("dropped".to_string());
    let c = p.build(&"mj-column".to_string()).unwrap();
    assert_eq!(value(&c.attributes, "direction").unwrap(), "ltr");
    assert_eq!(value(&c.attributes, "vertical-align").unwrap(), "middle");
    assert_eq!(value(&c.attributes, "padding").unwrap(), "8px");
    assert_eq!(c.children.len(), 1);

    let toks = vec![
        XmlToken::Start("mj-column".to_string()),
        XmlToken::Attribute("width".to_string(), "50%".to_string()),
        XmlToken::Open,
        XmlToken::Text("x".to_string()),
        XmlToken::Close("mj-column".to_string()),
    ];
    let (node, end) = parse_node(&toks, 0).unwrap();
    assert_eq!(end, 5);
    let col = MJColumn::parse(&node, &header, None).unwrap();
    assert_eq!(value(&col.attributes, "width").unwrap(), "50%");
    assert!(matches!(&col.children[0], BodyElement::Raw(t) if t == "x"));
}
