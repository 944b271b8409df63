use sitegen::dom::Dom;
use sitegen::dom::Node;

fn leaf(tag: &str, content: Option<&str>) -> Node {
    Node {
        domtype: tag.to_string(),
        class: None,
        id: None,
        content: content.map(|t| t.to_string()),
        children: Vec::new(),
    }
}

#[test]
fn fresh_document_serializes_to_the_default_skeleton() {
    let dom = Dom::new();
    assert_eq!(
        dom.serialize(),
        "<html>\n<head>\n<title>Generated with sitegen!</title>\n</head>\n<body>\n</body>\n</html>"
    );
}

#[test]
fn setters_fill_the_head() {
    let mut dom = Dom::new();
    dom.set_title("T".to_string());
    dom.set_style("s".to_string());
    dom.set_script("j".to_string());
    dom.push_metadata("k".to_string(), "v".to_string());
    assert_eq!(
        dom.serialize(),
        "<html>\n<head>\n<title>T</title>\n<link rel=\"styleshet\" type=\"text/css\" href=\"s\" />\n<script src=\"j\" type=\"text/javascript\"><script>\n<meta name=\"k\" content=\"v\">\n</head>\n<body>\n</body>\n</html>"
    );
}

#[test]
fn later_setter_calls_overwrite() {
    let mut dom = Dom::new();
    dom.set_title("first".to_string());
    dom.set_title("second".to_string());
    dom.set_style("s1".to_string());
    dom.set_style("s2".to_string());
    let html = dom.serialize();
    assert!(html.contains("<title>second</title>"));
    assert!(!html.contains("first"));
    assert!(html.contains("href=\"s2\""));
    assert!(!html.contains("s1"));
}

#[test]
fn push_metadata_overwrites_in_place() {
    let mut dom = Dom::new();
    dom.push_metadata("a".to_string(), "1".to_string());
    dom.push_metadata("b".to_string(), "2".to_string());
    dom.push_metadata("a".to_string(), "3".to_string());
    let html = dom.serialize();
    let a = html.find("<meta name=\"a\" content=\"3\">").unwrap();
    let b = html.find("<meta name=\"b\" content=\"2\">").unwrap();
    assert!(a < b);
    assert_eq!(html.matches("<meta").count(), 2);
}

#[test]
fn bare_node_keeps_the_empty_attribute_slots() {
    let n = leaf("span", None);
    assert_eq!(n.serialize(), "<span  >\n</span>");
}

#[test]
fn node_with_everything_set() {
    let n = Node {
        domtype: "div".to_string(),
        class: Some("wide".to_string()),
        id: Some("main".to_string()),
        content: Some("hello".to_string()),
        children: Vec::new(),
    };
    assert_eq!(
        n.serialize(),
        "<div class=\"wide\" id=\"main\">hello\n</div>"
    );
}

#[test]
fn children_serialize_depth_first_in_order() {
    let inner = Node {
        domtype: "em".to_string(),
        class: None,
        id: None,
        content: Some("deep".to_string()),
        children: Vec::new(),
    };
    let first = Node {
        domtype: "p".to_string(),
        class: Some("intro".to_string()),
        id: None,
        content: Some("hi".to_string()),
        children: vec![inner],
    };
    let second = leaf("hr", None);
    let root = Node {
        domtype: "div".to_string(),
        class: None,
        id: Some("root".to_string()),
        content: None,
        children: vec![first, second],
    };
    assert_eq!(
        root.serialize(),
        "<div  id=\"root\">\n<p class=\"intro\" >hi\n<em  >deep\n</em>\n</p>\n<hr  >\n</hr>\n</div>"
    );
}

#[test]
fn pushed_nodes_appear_in_the_body() {
    let mut dom = Dom::new();
    dom.push_node(leaf("p", Some("one")));
    dom.push_node(leaf("p", Some("two")));
    assert_eq!(
        dom.serialize(),
        "<html>\n<head>\n<title>Generated with sitegen!</title>\n</head>\n<body>\n<p  >one\n</p>\n<p  >two\n</p>\n</body>\n</html>"
    );
}
