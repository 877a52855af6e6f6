//! The web framework's generator: a page described in Sovereign becomes an
//! HTML document, with a WebAssembly loader, and a stylesheet.
use vstd::prelude::*;
use crate::page_syntax::{page_spec, page_view, read_page};
use crate::text::{push_char, string_of};

verus! {

/// A page: its title, style rules, body, and the tasks exported to
/// WebAssembly.
pub struct WebPage {
    pub title: String,
    pub styles: Vec<StyleRule>,
    pub body: Vec<HtmlNode>,
    pub scripts: Vec<String>,
}

/// A CSS rule: a selector and its properties.
pub struct StyleRule {
    pub selector: String,
    pub properties: Vec<(String, String)>,
}

/// A node of the page's body.
pub enum HtmlNode {
    /// An element with attributes, children, and event handlers (event
    /// name, exported task name).
    Element {
        tag: String,
        attrs: Vec<(String, String)>,
        children: Vec<HtmlNode>,
        events: Vec<(String, String)>,
    },
    Text(String),
    /// A `{variable}` in text, bound at run time by the WebAssembly code.
    Interpolated(String),
}

/// The generated files.
pub struct GeneratedWeb {
    pub html: String,
    pub css: String,
}

/// The generator. Its style cache is not filled by the generation.
pub struct WebGenerator {
    style_cache: Vec<(String, Vec<(String, String)>)>,
}

/// The WebAssembly loader put at the end of every page: it binds the DOM
/// functions the compiled code imports and wires up the event handlers.
pub const WASM_LOADER: &'static str = r#"
(async () => {
    const wasm = await WebAssembly.instantiateStreaming(fetch('app.wasm'), {
        env: {
            sov_dom_set_text: (idPtr, textPtr) => {
                const id   = readStr(idPtr);
                const text = readStr(textPtr);
                const el   = document.getElementById(id);
                if (el) el.textContent = text;
            },
            sov_dom_set_html: (idPtr, htmlPtr) => {
                const id   = readStr(idPtr);
                const html = readStr(htmlPtr);
                const el   = document.getElementById(id);
                if (el) el.innerHTML = html;
            },
            sov_dom_add_class: (idPtr, classPtr) => {
                const id  = readStr(idPtr);
                const cls = readStr(classPtr);
                document.getElementById(id)?.classList.add(cls);
            },
            sov_dom_remove_class: (idPtr, classPtr) => {
                const id  = readStr(idPtr);
                const cls = readStr(classPtr);
                document.getElementById(id)?.classList.remove(cls);
            },
            sov_dom_get_value: (idPtr) => {
                const id = readStr(idPtr);
                const val = document.getElementById(id)?.value ?? '';
                return writeStr(val);
            },
            sov_fetch: (urlPtr, cbIdx) => {
                const url = readStr(urlPtr);
                fetch(url).then(r => r.text()).then(body => {
                    const ptr = writeStr(body);
                    wasm.instance.exports.__indirect_function_table.get(cbIdx)(ptr);
                });
            },
            abort: () => { throw new Error('Sovereign abort'); }
        }
    });

    const mem = new Uint8Array(wasm.instance.exports.memory.buffer);

    function readStr(ptr) {
        let s = '', i = ptr;
        while (mem[i]) s += String.fromCharCode(mem[i++]);
        return s;
    }

    function writeStr(s) {
        const ptr = wasm.instance.exports.sov_alloc(s.length + 1);
        const mem8 = new Uint8Array(wasm.instance.exports.memory.buffer);
        for (let i = 0; i < s.length; i++) mem8[ptr + i] = s.charCodeAt(i);
        mem8[ptr + s.length] = 0;
        return ptr;
    }

    // Wire up event handlers
    document.querySelectorAll('[data-sov-on-click]').forEach(el => {
        const fn_name = el.getAttribute('data-sov-on-click');
        el.addEventListener('click', () => {
            wasm.instance.exports[fn_name]?.();
        });
    });

    document.querySelectorAll('[data-sov-on-input]').forEach(el => {
        const fn_name = el.getAttribute('data-sov-on-input');
        el.addEventListener('input', () => {
            wasm.instance.exports[fn_name]?.();
        });
    });

    // Run main
    wasm.instance.exports.main?.();
})();
"#;

/// The DOM tasks available to programs built for the web.
pub const DOM_STDLIB: &'static str = r#"
// DOM manipulation (only available with --web or --target wasm32)
extern task dom_set_text(id: string, text: string) -> void
extern task dom_set_html(id: string, html: string) -> void
extern task dom_get_value(id: string) -> string
extern task dom_add_class(id: string, class: string) -> void
extern task dom_remove_class(id: string, class: string) -> void
extern task dom_fetch(url: string) -> string
"#;

// ── Escaping ────────────────────────────────────────────────────────────

/// The HTML form of one character: `&`, `<`, `>` and `"` as entities.
pub open spec fn escape_char(c: char) -> Seq<char> {
    if c == '&' {
        "&amp;"@
    } else if c == '<' {
        "&lt;"@
    } else if c == '>' {
        "&gt;"@
    } else if c == '"' {
        "&quot;"@
    } else {
        seq![c]
    }
}

/// Text made safe for HTML.
pub open spec fn escape_html(s: Seq<char>) -> Seq<char>
    decreases s.len(),
{
    if s.len() == 0 {
        Seq::empty()
    } else {
        escape_html(s.drop_last()) + escape_char(s.last())
    }
}

fn escape_html_text(s: &str) -> (r: String)
    ensures
        r@ == escape_html(s@),
{
    let cs = crate::text::chars_of(s);
    let mut out = String::new();
    let mut i: usize = 0;
    while i < cs.len()
        invariant
            cs@ == s@,
            i <= cs@.len(),
            out@ == escape_html(s@.take(i as int)),
        decreases cs.len() - i,
    {
        proof {
            assert(s@.take(i + 1).drop_last() =~= s@.take(i as int));
        }
        let c = cs[i];
        if c == '&' {
            out.append("&amp;");
        } else if c == '<' {
            out.append("&lt;");
        } else if c == '>' {
            out.append("&gt;");
        } else if c == '"' {
            out.append("&quot;");
        } else {
            push_char(&mut out, c);
            assert(out@ =~= escape_html(s@.take(i as int)) + seq![c]);
        }
        i = i + 1;
    }
    assert(s@.take(s@.len() as int) =~= s@);
    out
}

// ── HTML ────────────────────────────────────────────────────────────────

/// Four spaces per level of indentation.
pub open spec fn pad(n: nat) -> Seq<char>
    decreases n,
{
    if n == 0 {
        Seq::empty()
    } else {
        pad((n - 1) as nat) + "    "@
    }
}

/// The indentation of an element's children.
pub open spec fn next_indent(i: usize) -> usize {
    if i < usize::MAX { (i + 1) as usize } else { i }
}

/// ` key="value"` for each attribute, the value escaped.
pub open spec fn attrs_html(attrs: Seq<(String, String)>) -> Seq<char>
    decreases attrs.len(),
{
    if attrs.len() == 0 {
        Seq::empty()
    } else {
        attrs_html(attrs.drop_last()) + " "@ + attrs.last().0@ + "=\""@ + escape_html(attrs.last().1@) + "\""@
    }
}

/// ` data-sov-on-event="handler"` for each event handler.
pub open spec fn events_html(events: Seq<(String, String)>) -> Seq<char>
    decreases events.len(),
{
    if events.len() == 0 {
        Seq::empty()
    } else {
        events_html(events.drop_last()) + " data-sov-on-"@ + events.last().0@ + "=\""@ + events.last().1@ + "\""@
    }
}

/// A node's HTML at an indentation level, one line per tag or text.
pub open spec fn node_html(node: HtmlNode, indent: usize) -> Seq<char>
    decreases node,
{
    match node {
        HtmlNode::Text(s) => pad(indent as nat) + escape_html(s@) + "\n"@,
        HtmlNode::Interpolated(v) => pad(indent as nat) + "<span data-sov-bind=\""@ + v@ + "\"></span>\n"@,
        HtmlNode::Element { tag, attrs, children, events } => {
            let attr_str = attrs_html(attrs@) + events_html(events@);
            if children@.len() == 0 {
                pad(indent as nat) + "<"@ + tag@ + attr_str + " />\n"@
            } else {
                pad(indent as nat) + "<"@ + tag@ + attr_str + ">\n"@ + nodes_html(children@, next_indent(indent))
                    + pad(indent as nat) + "</"@ + tag@ + ">\n"@
            }
        },
    }
}

/// Nodes' HTML in order.
pub open spec fn nodes_html(nodes: Seq<HtmlNode>, indent: usize) -> Seq<char>
    decreases nodes,
{
    if nodes.len() == 0 {
        Seq::empty()
    } else {
        nodes_html(nodes.drop_last(), indent) + node_html(nodes.last(), indent)
    }
}

/// The page's HTML document: head, body, and the WebAssembly loader.
pub open spec fn page_html(page: WebPage) -> Seq<char> {
    "<!DOCTYPE html>\n<html lang=\"en\">\n<head>\n"@ + "<meta charset=\"UTF-8\">\n"@
        + "<meta name=\"viewport\" content=\"width=device-width, initial-scale=1.0\">\n"@ + "<title>"@
        + escape_html(page.title@) + "</title>\n"@ + "<link rel=\"stylesheet\" href=\"app.css\">\n"@
        + "</head>\n<body>\n"@ + nodes_html(page.body@, 0) + "\n<script>\n"@ + WASM_LOADER@ + "\n</script>\n"@
        + "</body>\n</html>"@
}

fn append_pad(out: &mut String, n: usize)
    ensures
        final(out)@ == old(out)@ + pad(n as nat),
{
    let mut k: usize = 0;
    while k < n
        invariant
            k <= n,
            out@ == old(out)@ + pad(k as nat),
        decreases n - k,
    {
        out.append("    ");
        proof {
            assert(pad((k + 1) as nat) == pad(k as nat) + "    "@);
        }
        k = k + 1;
    }
}

fn attrs_to_html(attrs: &Vec<(String, String)>) -> (r: String)
    ensures
        r@ == attrs_html(attrs@),
{
    let mut out = String::new();
    let mut i: usize = 0;
    while i < attrs.len()
        invariant
            i <= attrs@.len(),
            out@ == attrs_html(attrs@.take(i as int)),
        decreases attrs.len() - i,
    {
        proof {
            assert(attrs@.take(i + 1).drop_last() =~= attrs@.take(i as int));
        }
        out.append(" ");
        out.append(attrs[i].0.as_str());
        out.append("=\"");
        out.append(escape_html_text(attrs[i].1.as_str()).as_str());
        out.append("\"");
        i = i + 1;
    }
    assert(attrs@.take(attrs@.len() as int) =~= attrs@);
    out
}

fn events_to_html(events: &Vec<(String, String)>) -> (r: String)
    ensures
        r@ == events_html(events@),
{
    let mut out = String::new();
    let mut i: usize = 0;
    while i < events.len()
        invariant
            i <= events@.len(),
            out@ == events_html(events@.take(i as int)),
        decreases events.len() - i,
    {
        proof {
            assert(events@.take(i + 1).drop_last() =~= events@.take(i as int));
        }
        out.append(" data-sov-on-");
        out.append(events[i].0.as_str());
        out.append("=\"");
        out.append(events[i].1.as_str());
        out.append("\"");
        i = i + 1;
    }
    assert(events@.take(events@.len() as int) =~= events@);
    out
}

fn render_nodes(nodes: &Vec<HtmlNode>, indent: usize) -> (r: String)
    ensures
        r@ == nodes_html(nodes@, indent),
    decreases nodes,
{
    let mut out = String::new();
    let mut i: usize = 0;
    while i < nodes.len()
        invariant
            i <= nodes@.len(),
            out@ == nodes_html(nodes@.take(i as int), indent),
        decreases nodes.len() - i,
    {
        proof {
            assert(nodes@.take(i + 1).drop_last() =~= nodes@.take(i as int));
        }
        let s = render_node(&nodes[i], indent);
        out.append(s.as_str());
        i = i + 1;
    }
    assert(nodes@.take(nodes@.len() as int) =~= nodes@);
    out
}

fn render_node(node: &HtmlNode, indent: usize) -> (r: String)
    ensures
        r@ == node_html(*node, indent),
    decreases node,
{
    let mut out = String::new();
    append_pad(&mut out, indent);
    match node {
        HtmlNode::Text(s) => {
            out.append(escape_html_text(s.as_str()).as_str());
            out.append("\n");
        },
        HtmlNode::Interpolated(v) => {
            out.append("<span data-sov-bind=\"");
            out.append(v.as_str());
            out.append("\"></span>\n");
        },
        HtmlNode::Element { tag, attrs, children, events } => {
            let a = attrs_to_html(attrs);
            let e = events_to_html(events);
            out.append("<");
            out.append(tag.as_str());
            out.append(a.as_str());
            out.append(e.as_str());
            if children.len() == 0 {
                out.append(" />\n");
            } else {
                out.append(">\n");
                let inner = if indent < usize::MAX { indent + 1 } else { indent };
                let c = render_nodes(children, inner);
                out.append(c.as_str());
                append_pad(&mut out, indent);
                out.append("</");
                out.append(tag.as_str());
                out.append(">\n");
            }
        },
    }
    out
}

// ── CSS ─────────────────────────────────────────────────────────────────

/// `key:value` for each property, joined by `;`.
pub open spec fn props_css(props: Seq<(String, String)>) -> Seq<char>
    decreases props.len(),
{
    if props.len() == 0 {
        Seq::empty()
    } else if props.len() == 1 {
        props[0].0@ + ":"@ + props[0].1@
    } else {
        props_css(props.drop_last()) + ";"@ + props.last().0@ + ":"@ + props.last().1@
    }
}

/// A rule on one line: `selector{key:value;...}`.
pub open spec fn rule_css(rule: StyleRule) -> Seq<char> {
    rule.selector@ + "{"@ + props_css(rule.properties@) + "}\n"@
}

/// Some text of `seen` is `x`.
pub open spec fn seen_has(seen: Seq<String>, x: Seq<char>) -> bool {
    exists|k: int| 0 <= k < seen.len() && #[trigger] seen[k]@ == x
}

/// Some rule among `rules` renders as `text`.
pub open spec fn rendered_in(rules: Seq<StyleRule>, text: Seq<char>) -> bool {
    exists|j: int| 0 <= j < rules.len() && rule_css(#[trigger] rules[j]) == text
}

/// The rules in order, each rendered rule once: a rule that renders as an
/// earlier one is left out.
pub open spec fn rules_css(rules: Seq<StyleRule>) -> Seq<char>
    decreases rules.len(),
{
    if rules.len() == 0 {
        Seq::empty()
    } else if rendered_in(rules.drop_last(), rule_css(rules.last())) {
        rules_css(rules.drop_last())
    } else {
        rules_css(rules.drop_last()) + rule_css(rules.last())
    }
}

/// The stylesheet: a small reset, then the page's rules, deduplicated.
pub open spec fn page_css(page: WebPage) -> Seq<char> {
    "*{box-sizing:border-box;margin:0;padding:0}\n"@ + rules_css(page.styles@)
}

fn render_css_rule(rule: &StyleRule) -> (r: String)
    ensures
        r@ == rule_css(*rule),
{
    let props = &rule.properties;
    let mut body = String::new();
    let mut i: usize = 0;
    while i < props.len()
        invariant
            i <= props@.len(),
            body@ == props_css(props@.take(i as int)),
        decreases props.len() - i,
    {
        proof {
            assert(props@.take(i + 1).drop_last() =~= props@.take(i as int));
        }
        if i > 0 {
            body.append(";");
        }
        body.append(props[i].0.as_str());
        body.append(":");
        body.append(props[i].1.as_str());
        proof {
            if i == 0 {
                assert(props@.take(1)[0] == props@[0]);
            }
        }
        i = i + 1;
    }
    assert(props@.take(props@.len() as int) =~= props@);
    let mut out = string_of(rule.selector.as_str());
    out.append("{");
    out.append(body.as_str());
    out.append("}\n");
    out
}

fn generate_css(page: &WebPage) -> (r: String)
    ensures
        r@ == page_css(*page),
{
    let mut css = string_of("*{box-sizing:border-box;margin:0;padding:0}\n");
    let rules = &page.styles;
    let mut seen: Vec<String> = Vec::new();
    let mut i: usize = 0;
    while i < rules.len()
        invariant
            i <= rules@.len(),
            css@ == "*{box-sizing:border-box;margin:0;padding:0}\n"@ + rules_css(rules@.take(i as int)),
            forall|x: Seq<char>| #[trigger] seen_has(seen@, x) <==> rendered_in(rules@.take(i as int), x),
        decreases rules.len() - i,
    {
        let ghost pre = rules@.take(i as int);
        proof {
            assert(rules@.take(i + 1).drop_last() =~= pre);
            assert(rules@.take(i + 1).last() == rules@[i as int]);
        }
        let text = render_css_rule(&rules[i]);
        let mut found = false;
        let mut k: usize = 0;
        while k < seen.len()
            invariant
                k <= seen@.len(),
                found <==> exists|q: int| 0 <= q < k && #[trigger] seen@[q]@ == text@,
            decreases seen.len() - k,
        {
            if crate::text::str_eq(seen[k].as_str(), text.as_str()) {
                found = true;
            }
            k = k + 1;
        }
        proof {
            assert(found == seen_has(seen@, text@));
            assert forall|x: Seq<char>| #[trigger] rendered_in(rules@.take(i + 1), x) <==> (rendered_in(pre, x) || x == rule_css(rules@[i as int])) by {
                if rendered_in(rules@.take(i + 1), x) {
                    let j = choose|j: int| 0 <= j < rules@.take(i + 1).len() && rule_css(#[trigger] rules@.take(i + 1)[j]) == x;
                    if j < i {
                        assert(pre[j] == rules@.take(i + 1)[j]);
                    }
                }
                if rendered_in(pre, x) {
                    let j = choose|j: int| 0 <= j < pre.len() && rule_css(#[trigger] pre[j]) == x;
                    assert(rules@.take(i + 1)[j] == pre[j]);
                }
                if x == rule_css(rules@[i as int]) {
                    assert(rules@.take(i + 1)[i as int] == rules@[i as int]);
                }
            }
        }
        if !found {
            css.append(text.as_str());
            let ghost before = seen@;
            seen.push(text);
            proof {
                assert forall|x: Seq<char>| #[trigger] seen_has(seen@, x) <==> rendered_in(rules@.take(i + 1), x) by {
                    if seen_has(seen@, x) {
                        let k = choose|k: int| 0 <= k < seen@.len() && #[trigger] seen@[k]@ == x;
                        if k < before.len() {
                            assert(before[k] == seen@[k]);
                            assert(seen_has(before, x));
                            assert(rendered_in(pre, x));
                        } else {
                            assert(x == rule_css(rules@[i as int]));
                        }
                    }
                    if rendered_in(pre, x) {
                        assert(seen_has(before, x));
                        let k = choose|k: int| 0 <= k < before.len() && #[trigger] before[k]@ == x;
                        assert(seen@[k] == before[k]);
                    }
                    if rendered_in(rules@.take(i + 1), x) && !rendered_in(pre, x) {
                        assert(x == rule_css(rules@[i as int]));
                    }
                    if x == rule_css(rules@[i as int]) {
                        assert(seen@[before.len() as int]@ == x);
                    }
                }
            }
        }
        i = i + 1;
    }
    assert(rules@.take(rules@.len() as int) =~= rules@);
    css
}

fn generate_html(page: &WebPage) -> (r: String)
    ensures
        r@ == page_html(*page),
{
    let mut html = string_of("<!DOCTYPE html>\n<html lang=\"en\">\n<head>\n");
    html.append("<meta charset=\"UTF-8\">\n");
    html.append("<meta name=\"viewport\" content=\"width=device-width, initial-scale=1.0\">\n");
    html.append("<title>");
    html.append(escape_html_text(page.title.as_str()).as_str());
    html.append("</title>\n");
    html.append("<link rel=\"stylesheet\" href=\"app.css\">\n");
    html.append("</head>\n<body>\n");
    html.append(render_nodes(&page.body, 0).as_str());
    html.append("\n<script>\n");
    html.append(WASM_LOADER);
    html.append("\n</script>\n");
    html.append("</body>\n</html>");
    html
}

impl WebGenerator {
    /// A generator with an empty style cache.
    pub fn new() -> (r: WebGenerator)
        ensures
            r.style_cache_len() == 0,
    {
        WebGenerator { style_cache: Vec::new() }
    }

    pub closed spec fn style_cache_len(&self) -> nat {
        self.style_cache@.len()
    }

    /// The page's HTML document and stylesheet.
    pub fn generate(&mut self, page: &WebPage) -> (r: GeneratedWeb)
        ensures
            r.html@ == page_html(*page),
            r.css@ == page_css(*page),
            final(self).style_cache_len() == old(self).style_cache_len(),
    {
        let html = generate_html(page);
        let css = generate_css(page);
        GeneratedWeb { html, css }
    }
}

/// Reads the page definition that a Sovereign source starts with: its
/// title, style rules, body and the tasks declared after it (the syntax is
/// described in `page_syntax`). `None` when the source does not start with
/// a well-formed page.
pub fn parse_page(source: &str) -> (r: Option<WebPage>)
    ensures
        match r {
            Some(p) => page_spec(source@) == Some(page_view(p)),
            None => page_spec(source@) is None,
        },
{
    read_page(source)
}

/// Escaped text holds no `<`, `>` or `"`: whatever a page's text says, it
/// cannot open or close a tag or end an attribute value.
pub proof fn law_escaped_text_has_no_markup(s: Seq<char>)
    ensures
        forall|i: int| 0 <= i < escape_html(s).len() ==> {
            let c = #[trigger] escape_html(s)[i];
            c != '<' && c != '>' && c != '"'
        },
    decreases s.len(),
{
    reveal_strlit("&amp;");
    reveal_strlit("&lt;");
    reveal_strlit("&gt;");
    reveal_strlit("&quot;");
    if s.len() > 0 {
        law_escaped_text_has_no_markup(s.drop_last());
        let pre = escape_html(s.drop_last());
        let tail = escape_char(s.last());
        assert forall|i: int| 0 <= i < escape_html(s).len() implies {
            let c = #[trigger] escape_html(s)[i];
            c != '<' && c != '>' && c != '"'
        } by {
            if i < pre.len() {
                assert(escape_html(s)[i] == pre[i]);
            } else {
                assert(escape_html(s)[i] == tail[i - pre.len()]);
            }
        }
    }
}

} // verus!
