//! The document model and its HTML serialization, and the parser that builds
//! a document from directive lines.

use vstd::prelude::*;

use crate::scan::invalid_line_message;
use crate::scan::line_at;
use crate::scan::line_end;
use crate::scan::lemma_line_end_bounds;
use crate::scan::normalize;
use crate::scan::normalize_text;
use crate::scan::scan_line;
use crate::scan::scan_logical_line;
use crate::scan::copy_range;
use crate::scan::LineScan;
use crate::scan::ScannedLine;

verus! {

// ---------------------------------------------------------------------------
// The document model
// ---------------------------------------------------------------------------

/// The mathematical shape of a body element: a tag, optional class and id
/// attributes, optional text content, and the children in order.
#[verifier::ext_equal]
pub struct NodeView {
    pub tag: Seq<char>,
    pub class: Option<Seq<char>>,
    pub id: Option<Seq<char>>,
    pub content: Option<Seq<char>>,
    pub children: Seq<NodeView>,
}

/// The mathematical shape of a document: the title (a fixed placeholder until
/// a `title` directive sets it), the optional stylesheet and script
/// references, the metadata entries in first-insertion order with unique
/// keys, and the body elements in order.
#[verifier::ext_equal]
pub struct DocView {
    pub title: Seq<char>,
    pub style: Option<Seq<char>>,
    pub script: Option<Seq<char>>,
    pub metadata: Seq<(Seq<char>, Seq<char>)>,
    pub nodes: Seq<NodeView>,
}

/// The document before any directive was applied.
pub open spec fn empty_doc() -> DocView {
    DocView {
        title: "Generated with sitegen!"@,
        style: Option::None,
        script: Option::None,
        metadata: Seq::empty(),
        nodes: Seq::empty(),
    }
}

/// The index of the first metadata entry with key `k` at or after `i`, or -1
/// if there is none.
pub open spec fn find_key(m: Seq<(Seq<char>, Seq<char>)>, k: Seq<char>, i: int) -> int
    decreases m.len() - i,
{
    if i < 0 || i >= m.len() {
        -1
    } else if m[i].0 == k {
        i
    } else {
        find_key(m, k, i + 1)
    }
}

/// Inserts or overwrites the entry for key `k`: an existing entry keeps its
/// position and gets the new value, a new key is appended.
pub open spec fn upsert(
    m: Seq<(Seq<char>, Seq<char>)>,
    k: Seq<char>,
    v: Seq<char>,
) -> Seq<(Seq<char>, Seq<char>)> {
    let i = find_key(m, k, 0);
    if i == -1 {
        m.push((k, v))
    } else {
        m.update(i, (k, v))
    }
}

/// Applies one scanned directive to the document: the reserved keys `style`,
/// `script` and `title` set their dedicated fields (last occurrence wins),
/// every other key is upserted into the metadata.
pub open spec fn apply_directive(d: DocView, k: Seq<char>, v: Seq<char>) -> DocView {
    if k == "style"@ {
        DocView { style: Option::Some(v), ..d }
    } else if k == "script"@ {
        DocView { script: Option::Some(v), ..d }
    } else if k == "title"@ {
        DocView { title: v, ..d }
    } else {
        DocView { metadata: upsert(d.metadata, k, v), ..d }
    }
}

// ---------------------------------------------------------------------------
// Parsing
// ---------------------------------------------------------------------------

/// Runs the scanner over the normalized text from position `i` on, applying
/// each directive to `d` in line order. The first line that starts with `[`
/// but does not match the directive grammar aborts the whole parse with a
/// message that carries that line; every other line is skipped silently.
pub open spec fn scan_from(s: Seq<char>, i: int, d: DocView) -> Result<DocView, Seq<char>>
    decreases s.len() - i,
        when 0 <= i
    via scan_from_dec
{
    if i >= s.len() {
        Result::Ok(d)
    } else {
        let j = line_end(s, i);
        let next = if j + 1 <= s.len() {
            j + 1
        } else {
            s.len() as int
        };
        let line = line_at(s, i);
        match scan_line(line) {
            LineScan::Skipped => scan_from(s, next, d),
            LineScan::Directive(k, v) => scan_from(s, next, apply_directive(d, k, v)),
            LineScan::Invalid => Result::Err(invalid_line_message(line)),
        }
    }
}

#[via_fn]
proof fn scan_from_dec(s: Seq<char>, i: int, d: DocView) {
    if 0 <= i < s.len() {
        lemma_line_end_bounds(s, i);
    }
}

/// What parsing an input text yields: the document built from its directive
/// lines, or the message of the error raised for its first invalid line.
pub open spec fn parse_result(input: Seq<char>) -> Result<DocView, Seq<char>> {
    scan_from(normalize(input), 0, empty_doc())
}

// ---------------------------------------------------------------------------
// Rendering
// ---------------------------------------------------------------------------

/// The stylesheet reference line, if a stylesheet is set, with the `\n` that
/// joins it to the previous line. The `rel` value is spelled `styleshet`,
/// kept as-is for output compatibility.
pub open spec fn render_style(o: Option<Seq<char>>) -> Seq<char> {
    match o {
        Option::None => Seq::empty(),
        Option::Some(s) => "\n<link rel=\"styleshet\" type=\"text/css\" href=\""@ + s + "\" />"@,
    }
}

/// The script reference line, if a script is set. The closing marker is
/// `<script>` rather than `</script>`, kept as-is for output compatibility.
pub open spec fn render_script(o: Option<Seq<char>>) -> Seq<char> {
    match o {
        Option::None => Seq::empty(),
        Option::Some(s) => "\n<script src=\""@ + s + "\" type=\"text/javascript\"><script>"@,
    }
}

/// One `<meta>` line per metadata entry from `i` on, in entry order.
pub open spec fn render_meta(m: Seq<(Seq<char>, Seq<char>)>, i: int) -> Seq<char>
    decreases m.len() - i,
{
    if i < 0 || i >= m.len() {
        Seq::empty()
    } else {
        "\n<meta name=\""@ + m[i].0 + "\" content=\""@ + m[i].1 + "\">"@ + render_meta(m, i + 1)
    }
}

/// The class attribute slot of an opening tag; empty when no class is set.
pub open spec fn render_class(o: Option<Seq<char>>) -> Seq<char> {
    match o {
        Option::None => Seq::empty(),
        Option::Some(c) => "class=\""@ + c + "\""@,
    }
}

/// The id attribute slot of an opening tag; empty when no id is set.
pub open spec fn render_id(o: Option<Seq<char>>) -> Seq<char> {
    match o {
        Option::None => Seq::empty(),
        Option::Some(v) => "id=\""@ + v + "\""@,
    }
}

/// The text content of an element; empty when none is set.
pub open spec fn render_content(o: Option<Seq<char>>) -> Seq<char> {
    match o {
        Option::None => Seq::empty(),
        Option::Some(t) => t,
    }
}

/// The serialization of one body element: its opening tag line (the attribute
/// slots stay in place, empty or not, so a bare tag renders as `<tag  >`),
/// each child on the following lines, then the closing tag line.
pub open spec fn render_node(n: NodeView) -> Seq<char>
    decreases n, 0int,
{
    "<"@ + n.tag + " "@ + render_class(n.class) + " "@ + render_id(n.id) + ">"@ + render_content(
        n.content,
    ) + render_children(n.children, 0) + "\n</"@ + n.tag + ">"@
}

/// The serializations of the children from `i` on, each preceded by the `\n`
/// that joins it to the line before it.
pub open spec fn render_children(ns: Seq<NodeView>, i: int) -> Seq<char>
    decreases ns, ns.len() - i,
{
    if i < 0 || i >= ns.len() {
        Seq::empty()
    } else {
        "\n"@ + render_node(ns[i]) + render_children(ns, i + 1)
    }
}

/// The full HTML text of a document: head metadata between `<html>`/`<head>`
/// openers and the head closer, then the body elements, newline-separated.
pub open spec fn render_doc(d: DocView) -> Seq<char> {
    "<html>\n<head>\n<title>"@ + d.title + "</title>"@ + render_style(d.style) + render_script(
        d.script,
    ) + render_meta(d.metadata, 0) + "\n</head>\n<body>"@ + render_children(d.nodes, 0)
        + "\n</body>\n</html>"@
}

// ---------------------------------------------------------------------------
// Executable document types
// ---------------------------------------------------------------------------

/// A body element: a tag name, optional class and id attributes, optional
/// text content, and the children it exclusively owns.
pub struct Node {
    pub domtype: String,
    pub class: Option<String>,
    pub id: Option<String>,
    pub content: Option<String>,
    pub children: Vec<Node>,
}

/// The view of an optional owned string.
pub open spec fn opt_view(o: Option<String>) -> Option<Seq<char>> {
    match o {
        Option::None => Option::None,
        Option::Some(s) => Option::Some(s@),
    }
}

/// The view of one body element.
pub open spec fn node_view(n: Node) -> NodeView
    decreases n, 0int,
{
    NodeView {
        tag: n.domtype@,
        class: opt_view(n.class),
        id: opt_view(n.id),
        content: opt_view(n.content),
        children: children_view(n.children, 0),
    }
}

/// The views of the children from `i` on.
pub open spec fn children_view(v: Vec<Node>, i: int) -> Seq<NodeView>
    decreases v, v.len() - i,
{
    if i < 0 || i >= v.len() {
        Seq::empty()
    } else {
        seq![node_view(v[i])] + children_view(v, i + 1)
    }
}

impl View for Node {
    type V = NodeView;

    open spec fn view(&self) -> NodeView {
        node_view(*self)
    }
}

proof fn lemma_children_view(v: Vec<Node>, i: int)
    requires
        0 <= i <= v.len(),
    ensures
        children_view(v, i).len() == v.len() - i,
        forall|k: int|
            i <= k < v.len() ==> children_view(v, i)[k - i] == node_view(#[trigger] v[k]),
    decreases v.len() - i,
{
    if i < v.len() {
        lemma_children_view(v, i + 1);
    }
}

/// A document under construction: the title, the optional stylesheet and
/// script references, the metadata entries, and the body elements.
pub struct Dom {
    title: String,
    styles: Option<String>,
    script: Option<String>,
    metadata: Vec<(String, String)>,
    nodes: Vec<Node>,
}

impl View for Dom {
    type V = DocView;

    closed spec fn view(&self) -> DocView {
        DocView {
            title: self.title@,
            style: opt_view(self.styles),
            script: opt_view(self.script),
            metadata: self.metadata@.map_values(|p: (String, String)| (p.0@, p.1@)),
            nodes: children_view(self.nodes, 0),
        }
    }
}

impl Dom {
    /// A fresh document: placeholder title, nothing else.
    pub fn new() -> (d: Dom)
        ensures
            d@ == empty_doc(),
    {
        let d = Dom {
            metadata: Vec::new(),
            styles: Option::None,
            script: Option::None,
            title: String::from_str("Generated with sitegen!"),
            nodes: Vec::new(),
        };
        proof {
            assert(d@ =~= empty_doc());
        }
        d
    }

    /// Sets the title; a later call overwrites an earlier one.
    pub fn set_title(&mut self, title: String)
        ensures
            final(self)@ == (DocView { title: title@, ..old(self)@ }),
    {
        self.title = title;
        proof {
            assert(self@ =~= (DocView { title: self.title@, ..old(self)@ }));
        }
    }

    /// Sets the stylesheet reference; a later call overwrites an earlier one.
    pub fn set_style(&mut self, css: String)
        ensures
            final(self)@ == (DocView { style: Option::Some(css@), ..old(self)@ }),
    {
        self.styles = Option::Some(css);
        proof {
            assert(self@ =~= (DocView { style: opt_view(self.styles), ..old(self)@ }));
        }
    }

    /// Sets the script reference; a later call overwrites an earlier one.
    pub fn set_script(&mut self, js: String)
        ensures
            final(self)@ == (DocView { script: Option::Some(js@), ..old(self)@ }),
    {
        self.script = Option::Some(js);
        proof {
            assert(self@ =~= (DocView { script: opt_view(self.script), ..old(self)@ }));
        }
    }

    /// Inserts or overwrites one metadata entry.
    pub fn push_metadata(&mut self, key: String, val: String)
        ensures
            final(self)@ == (DocView {
                metadata: upsert(old(self)@.metadata, key@, val@),
                ..old(self)@
            }),
    {
        let ghost m = self@.metadata;
        let n = self.metadata.len();
        let mut i: usize = 0;
        while i < n
            invariant
                i <= n,
                n == self.metadata.len(),
                *self == *old(self),
                m == self@.metadata,
                find_key(m, key@, 0) == find_key(m, key@, i as int),
                forall|k: int| 0 <= k < i ==> m[k].0 != key@,
            decreases n - i,
        {
            if self.metadata[i].0 == key {
                proof {
                    assert(m[i as int].0 == key@);
                    assert(find_key(m, key@, i as int) == i);
                }
                self.metadata.set(i, (key, val));
                proof {
                    assert(self@.metadata =~= m.update(i as int, (key@, val@)));
                    assert(self@ =~= (DocView {
                        metadata: upsert(old(self)@.metadata, key@, val@),
                        ..old(self)@
                    }));
                }
                return ;
            }
            i = i + 1;
        }
        proof {
            assert(find_key(m, key@, n as int) == -1);
        }
        self.metadata.push((key, val));
        proof {
            assert(self@.metadata =~= m.push((key@, val@)));
            assert(self@ =~= (DocView {
                metadata: upsert(old(self)@.metadata, key@, val@),
                ..old(self)@
            }));
        }
    }

    /// Appends one body element.
    pub fn push_node(&mut self, node: Node)
        ensures
            final(self)@ == (DocView { nodes: old(self)@.nodes.push(node@), ..old(self)@ }),
    {
        let ghost v = self.nodes;
        self.nodes.push(node);
        proof {
            lemma_children_view(v, 0);
            lemma_children_view(self.nodes, 0);
            let a = children_view(self.nodes, 0);
            let b = children_view(v, 0).push(node_view(node));
            assert forall|k: int| 0 <= k < a.len() implies a[k] == b[k] by {
                assert(a[k] == node_view(self.nodes[k]));
                if k < v@.len() {
                    assert(self.nodes[k] == v[k]);
                } else {
                    assert(self.nodes[k] == node);
                }
            }
            assert(self@.nodes =~= old(self)@.nodes.push(node@));
            assert(self@ =~= (DocView { nodes: old(self)@.nodes.push(node@), ..old(self)@ }));
        }
    }

    /// Renders the document as newline-joined HTML text.
    pub fn serialize(&self) -> (r: String)
        ensures
            r@ == render_doc(self@),
    {
        let mut out = String::from_str("<html>\n<head>\n<title>");
        out.append(self.title.as_str());
        out.append("</title>");
        match &self.styles {
            Option::Some(s) => {
                out.append("\n<link rel=\"styleshet\" type=\"text/css\" href=\"");
                out.append(s.as_str());
                out.append("\" />");
            },
            Option::None => {},
        }
        match &self.script {
            Option::Some(s) => {
                out.append("\n<script src=\"");
                out.append(s.as_str());
                out.append("\" type=\"text/javascript\"><script>");
            },
            Option::None => {},
        }
        let ghost head = out@ + render_meta(self@.metadata, 0);
        let n = self.metadata.len();
        let mut i: usize = 0;
        while i < n
            invariant
                i <= n,
                n == self.metadata.len(),
                n == self@.metadata.len(),
                head == out@ + render_meta(self@.metadata, i as int),
            decreases n - i,
        {
            out.append("\n<meta name=\"");
            out.append(self.metadata[i].0.as_str());
            out.append("\" content=\"");
            out.append(self.metadata[i].1.as_str());
            out.append("\">");
            i = i + 1;
        }
        out.append("\n</head>\n<body>");
        proof {
            lemma_children_view(self.nodes, 0);
        }
        let ghost all = out@ + render_children(self@.nodes, 0);
        let m = self.nodes.len();
        let mut k: usize = 0;
        while k < m
            invariant
                k <= m,
                m == self.nodes.len(),
                self@.nodes == children_view(self.nodes, 0),
                self@.nodes.len() == m,
                all == out@ + render_children(self@.nodes, k as int),
            decreases m - k,
        {
            proof {
                lemma_children_view(self.nodes, 0);
            }
            out.append("\n");
            let part = (&self.nodes[k]).serialize();
            out.append(part.as_str());
            k = k + 1;
        }
        out.append("\n</body>\n</html>");
        out
    }
}

impl Node {
    /// Renders this element and its children as newline-joined HTML text.
    pub fn serialize(&self) -> (r: String)
        ensures
            r@ == render_node(self@),
        decreases *self,
    {
        let mut out = String::from_str("<");
        out.append(self.domtype.as_str());
        out.append(" ");
        match &self.class {
            Option::Some(c) => {
                out.append("class=\"");
                out.append(c.as_str());
                out.append("\"");
            },
            Option::None => {},
        }
        out.append(" ");
        match &self.id {
            Option::Some(v) => {
                out.append("id=\"");
                out.append(v.as_str());
                out.append("\"");
            },
            Option::None => {},
        }
        out.append(">");
        match &self.content {
            Option::Some(t) => out.append(t.as_str()),
            Option::None => {},
        }
        proof {
            lemma_children_view(self.children, 0);
        }
        let ghost all = out@ + render_children(self@.children, 0);
        let m = self.children.len();
        let mut k: usize = 0;
        while k < m
            invariant
                k <= m,
                m == self.children.len(),
                self@.children == children_view(self.children, 0),
                self@.children.len() == m,
                all == out@ + render_children(self@.children, k as int),
            decreases m - k,
        {
            proof {
                lemma_children_view(self.children, 0);
            }
            out.append("\n");
            let part = (&self.children[k]).serialize();
            out.append(part.as_str());
            k = k + 1;
        }
        out.append("\n</");
        out.append(self.domtype.as_str());
        out.append(">");
        out
    }
}

// ---------------------------------------------------------------------------
// The parser
// ---------------------------------------------------------------------------

/// The error a parse fails with: its description carries the offending line.
#[derive(Debug)]
pub struct ParseError {
    pub description: String,
}

fn find_line_end(text: &str, start: usize) -> (r: usize)
    requires
        start <= text@.len(),
    ensures
        r == line_end(text@, start as int),
        start <= r <= text@.len(),
{
    let n: usize = text.unicode_len();
    let mut j: usize = start;
    while j < n
        invariant
            start <= j <= n,
            n == text@.len(),
            line_end(text@, start as int) == line_end(text@, j as int),
        ensures
            start <= j <= n,
            line_end(text@, start as int) == line_end(text@, j as int),
            j == n || text@[j as int] == '\n',
        decreases n - j,
    {
        if text.get_char(j) == '\n' {
            break ;
        }
        j = j + 1;
    }
    j
}

/// Parses one input text and renders the resulting document as HTML.
pub fn parse(input: String) -> (r: Result<String, ParseError>)
    ensures
        match parse_result(input@) {
            Result::Ok(d) => r matches Result::Ok(out) && out@ == render_doc(d),
            Result::Err(m) => r matches Result::Err(e) && e.description@ == m,
        },
{
    let mut dom = Dom::new();
    let norm = normalize_text(input.as_str());
    let text = norm.as_str();
    let n: usize = text.unicode_len();
    let mut i: usize = 0;
    while i < n
        invariant
            i <= n,
            n == text@.len(),
            text@ == normalize(input@),
            scan_from(text@, i as int, dom@) == parse_result(input@),
        decreases n - i,
    {
        let j = find_line_end(text, i);
        let line_to = if j < n && i < j && text.get_char(j - 1) == '\r' {
            j - 1
        } else {
            j
        };
        let line = copy_range(text, i, line_to);
        proof {
            assert(line@ == line_at(text@, i as int));
        }
        match scan_logical_line(line.as_str()) {
            ScannedLine::Skipped => {},
            ScannedLine::Directive(key, val) => {
                let style_key = String::from_str("style");
                let script_key = String::from_str("script");
                let title_key = String::from_str("title");
                if key == style_key {
                    dom.set_style(val);
                } else if key == script_key {
                    dom.set_script(val);
                } else if key == title_key {
                    dom.set_title(val);
                } else {
                    dom.push_metadata(key, val);
                }
            },
            ScannedLine::Invalid => {
                let mut msg = String::from_str("Invalid line:\n");
                msg.append(line.as_str());
                return Result::Err(ParseError { description: msg });
            },
        }
        if j < n {
            i = j + 1;
        } else {
            i = n;
        }
    }
    let out = dom.serialize();
    Result::Ok(out)
}

} // verus!
