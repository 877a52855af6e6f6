//! The page syntax of the web framework:
//!
//! ```text
//! page "Title" {
//!     style {
//!         selector { property: "value", property: "value" }
//!     }
//!     tag key="value" onevent=handler {
//!         "text"
//!         tag { ... }
//!     }
//! }
//! task handler() { ... }
//! ```
//!
//! Blanks separate the pieces. A word is made of letters, digits and
//! `_ - . #`; a string is written between double quotes. An attribute whose
//! name starts with `on` is an event handler (the event is the rest of the
//! name). The tasks declared after the page are the page's scripts.
use vstd::prelude::*;
use crate::text::push_char;
use crate::web::{WebPage, StyleRule, HtmlNode};

verus! {

// ── The model of a page ─────────────────────────────────────────────────

pub type SpecPairs = Seq<(Seq<char>, Seq<char>)>;

/// A node of the page's body, as plain values.
pub enum SpecNode {
    Element { tag: Seq<char>, attrs: SpecPairs, children: Seq<SpecNode>, events: SpecPairs },
    Text(Seq<char>),
    Interpolated(Seq<char>),
}

/// A page as plain values: title, style rules (selector, properties),
/// body and script names.
pub struct SpecPage {
    pub title: Seq<char>,
    pub styles: Seq<(Seq<char>, SpecPairs)>,
    pub body: Seq<SpecNode>,
    pub scripts: Seq<Seq<char>>,
}

pub open spec fn pairs_view(s: Seq<(String, String)>) -> SpecPairs {
    s.map_values(|p: (String, String)| (p.0@, p.1@))
}

pub open spec fn node_view(n: HtmlNode) -> SpecNode
    decreases n,
{
    match n {
        HtmlNode::Element { tag, attrs, children, events } => SpecNode::Element {
            tag: tag@,
            attrs: pairs_view(attrs@),
            children: nodes_view(children@),
            events: pairs_view(events@),
        },
        HtmlNode::Text(s) => SpecNode::Text(s@),
        HtmlNode::Interpolated(s) => SpecNode::Interpolated(s@),
    }
}

pub open spec fn nodes_view(s: Seq<HtmlNode>) -> Seq<SpecNode>
    decreases s,
{
    if s.len() == 0 {
        Seq::empty()
    } else {
        nodes_view(s.drop_last()).push(node_view(s.last()))
    }
}

pub open spec fn rules_view(s: Seq<StyleRule>) -> Seq<(Seq<char>, SpecPairs)> {
    s.map_values(|r: StyleRule| (r.selector@, pairs_view(r.properties@)))
}

pub open spec fn page_view(p: WebPage) -> SpecPage {
    SpecPage {
        title: p.title@,
        styles: rules_view(p.styles@),
        body: nodes_view(p.body@),
        scripts: p.scripts@.map_values(|s: String| s@),
    }
}

// ── Pieces ──────────────────────────────────────────────────────────────

pub open spec fn is_blank(c: char) -> bool {
    c == ' ' || c == '\t' || c == '\n' || c == '\r'
}

pub open spec fn is_word_char(c: char) -> bool {
    ('a' <= c && c <= 'z') || ('A' <= c && c <= 'Z') || ('0' <= c && c <= '9') || c == '_' || c == '-' || c == '.'
        || c == '#'
}

/// The first position at or after `i` that holds no blank.
pub open spec fn skip_ws(cs: Seq<char>, i: int) -> int
    decreases cs.len() - i,
{
    if 0 <= i < cs.len() && is_blank(cs[i]) {
        skip_ws(cs, i + 1)
    } else {
        i
    }
}

/// The end of the word characters that start at `i`.
pub open spec fn word_end(cs: Seq<char>, i: int) -> int
    decreases cs.len() - i,
{
    if 0 <= i < cs.len() && is_word_char(cs[i]) {
        word_end(cs, i + 1)
    } else {
        i
    }
}

/// The first double quote at or after `i`, or the end of the text.
pub open spec fn quote_end(cs: Seq<char>, i: int) -> int
    decreases cs.len() - i,
{
    if 0 <= i < cs.len() && cs[i] != '"' {
        quote_end(cs, i + 1)
    } else {
        i
    }
}

/// The word after the blanks at `i`, and the position after it.
pub open spec fn word_at(cs: Seq<char>, i: int) -> Option<(Seq<char>, int)> {
    let s = skip_ws(cs, i);
    let e = word_end(cs, s);
    if s < e {
        Some((cs.subrange(s, e), e))
    } else {
        None
    }
}

/// The string after the blanks at `i` (without its quotes), and the
/// position after its closing quote.
pub open spec fn str_at(cs: Seq<char>, i: int) -> Option<(Seq<char>, int)> {
    let s = skip_ws(cs, i);
    if 0 <= s < cs.len() && cs[s] == '"' {
        let e = quote_end(cs, s + 1);
        if e < cs.len() {
            Some((cs.subrange(s + 1, e), e + 1))
        } else {
            None
        }
    } else {
        None
    }
}

/// The position after the character `c` that follows the blanks at `i`.
pub open spec fn sym_at(cs: Seq<char>, i: int, c: char) -> Option<int> {
    let s = skip_ws(cs, i);
    if 0 <= s < cs.len() && cs[s] == c {
        Some(s + 1)
    } else {
        None
    }
}

// ── Grammar ─────────────────────────────────────────────────────────────

/// One `name: "value"` property, with an optional `,` after it.
pub open spec fn prop_at(cs: Seq<char>, i: int) -> Option<((Seq<char>, Seq<char>), int)> {
    match word_at(cs, i) {
        Some((k, j1)) => match sym_at(cs, j1, ':') {
            Some(j2) => match str_at(cs, j2) {
                Some((v, j3)) => Some(((k, v), match sym_at(cs, j3, ',') { Some(j4) => j4, None => j3 })),
                None => None,
            },
            None => None,
        },
        None => None,
    }
}

/// Properties from `i` up to a `}` (which is left), appended to `acc`.
pub open spec fn props_from(cs: Seq<char>, i: int, acc: SpecPairs) -> Option<(SpecPairs, int)>
    decreases cs.len() - i,
{
    if sym_at(cs, i, '}') is Some {
        Some((acc, i))
    } else {
        match prop_at(cs, i) {
            Some((p, j)) => if i < j <= cs.len() { props_from(cs, j, acc.push(p)) } else { None },
            None => None,
        }
    }
}

/// One style rule: `selector { properties }`.
pub open spec fn rule_at(cs: Seq<char>, i: int) -> Option<((Seq<char>, SpecPairs), int)> {
    match word_at(cs, i) {
        Some((sel, j1)) => match sym_at(cs, j1, '{') {
            Some(j2) => match props_from(cs, j2, Seq::empty()) {
                Some((ps, j3)) => match sym_at(cs, j3, '}') {
                    Some(j4) => Some(((sel, ps), j4)),
                    None => None,
                },
                None => None,
            },
            None => None,
        },
        None => None,
    }
}

/// Style rules from `i` up to a `}` (which is left), appended to `acc`.
pub open spec fn rules_from(cs: Seq<char>, i: int, acc: Seq<(Seq<char>, SpecPairs)>) -> Option<(Seq<(Seq<char>, SpecPairs)>, int)>
    decreases cs.len() - i,
{
    if sym_at(cs, i, '}') is Some {
        Some((acc, i))
    } else {
        match rule_at(cs, i) {
            Some((r, j)) => if i < j <= cs.len() { rules_from(cs, j, acc.push(r)) } else { None },
            None => None,
        }
    }
}

pub open spec fn is_event_name(k: Seq<char>) -> bool {
    k.len() >= 2 && k[0] == 'o' && k[1] == 'n'
}

/// One `name=value` attribute, the value a string or a word.
pub open spec fn attr_at(cs: Seq<char>, i: int) -> Option<((Seq<char>, Seq<char>), int)> {
    match word_at(cs, i) {
        Some((k, j1)) => match sym_at(cs, j1, '=') {
            Some(j2) => match str_at(cs, j2) {
                Some((v, j3)) => Some(((k, v), j3)),
                None => match word_at(cs, j2) {
                    Some((v, j3)) => Some(((k, v), j3)),
                    None => None,
                },
            },
            None => None,
        },
        None => None,
    }
}

/// The attributes from `i` on: plain ones into `attrs`, event handlers
/// (`onclick=f` gives `("click", "f")`) into `events`.
pub open spec fn attrs_from(cs: Seq<char>, i: int, attrs: SpecPairs, events: SpecPairs) -> (SpecPairs, SpecPairs, int)
    decreases cs.len() - i,
{
    match attr_at(cs, i) {
        Some((a, j)) => if i < j <= cs.len() {
            if is_event_name(a.0) {
                attrs_from(cs, j, attrs, events.push((a.0.subrange(2, a.0.len() as int), a.1)))
            } else {
                attrs_from(cs, j, attrs.push(a), events)
            }
        } else {
            (attrs, events, i)
        },
        None => (attrs, events, i),
    }
}

/// One node: a string is a text node; a word is an element's tag, followed
/// by its attributes and its children in braces.
pub open spec fn node_at(cs: Seq<char>, i: int) -> Option<(SpecNode, int)>
    decreases cs.len() - i, 0int,
{
    match str_at(cs, i) {
        Some((s, j)) => Some((SpecNode::Text(s), j)),
        None => match word_at(cs, i) {
            Some((tag, j1)) => {
                let (attrs, events, j2) = attrs_from(cs, j1, Seq::empty(), Seq::empty());
                match sym_at(cs, j2, '{') {
                    Some(j3) => if i < j3 <= cs.len() {
                        match nodes_from(cs, j3, Seq::empty()) {
                            Some((children, j4)) => match sym_at(cs, j4, '}') {
                                Some(j5) => Some((SpecNode::Element { tag, attrs, children, events }, j5)),
                                None => None,
                            },
                            None => None,
                        }
                    } else {
                        None
                    },
                    None => None,
                }
            },
            None => None,
        },
    }
}

/// Nodes from `i` up to a `}` (which is left), appended to `acc`.
pub open spec fn nodes_from(cs: Seq<char>, i: int, acc: Seq<SpecNode>) -> Option<(Seq<SpecNode>, int)>
    decreases cs.len() - i, 1int,
{
    if sym_at(cs, i, '}') is Some {
        Some((acc, i))
    } else if 0 <= i <= cs.len() {
        match node_at(cs, i) {
            Some((n, j)) => if i < j <= cs.len() { nodes_from(cs, j, acc.push(n)) } else { None },
            None => None,
        }
    } else {
        None
    }
}

/// The names of the tasks declared from `i` on (`task name`), appended to
/// `acc`.
pub open spec fn tasks_from(cs: Seq<char>, i: int, acc: Seq<Seq<char>>) -> Seq<Seq<char>>
    decreases cs.len() - i,
{
    let s = skip_ws(cs, i);
    if !(0 <= i <= s < cs.len()) {
        acc
    } else {
        let e = word_end(cs, s);
        if !(s < e <= cs.len()) {
            tasks_from(cs, s + 1, acc)
        } else if cs.subrange(s, e) == "task"@ {
            match word_at(cs, e) {
                Some((n, e2)) => if e < e2 <= cs.len() { tasks_from(cs, e2, acc.push(n)) } else { acc },
                None => tasks_from(cs, e, acc),
            }
        } else {
            tasks_from(cs, e, acc)
        }
    }
}

/// The style section after `i`, if there is one: its rules and the
/// position after it; otherwise no rules and `i`.
pub open spec fn styles_at(cs: Seq<char>, i: int) -> Option<(Seq<(Seq<char>, SpecPairs)>, int)> {
    match word_at(cs, i) {
        Some((w, j1)) => if w == "style"@ && sym_at(cs, j1, '{') is Some {
            match rules_from(cs, sym_at(cs, j1, '{')->0, Seq::empty()) {
                Some((rules, j2)) => match sym_at(cs, j2, '}') {
                    Some(j3) => Some((rules, j3)),
                    None => None,
                },
                None => None,
            }
        } else {
            Some((Seq::empty(), i))
        },
        None => Some((Seq::empty(), i)),
    }
}

/// The page a source defines, if it starts with one.
pub open spec fn page_spec(cs: Seq<char>) -> Option<SpecPage> {
    match word_at(cs, 0) {
        Some((w, j1)) => if w == "page"@ {
            match str_at(cs, j1) {
                Some((title, j2)) => match sym_at(cs, j2, '{') {
                    Some(j3) => match styles_at(cs, j3) {
                        Some((styles, j4)) => match nodes_from(cs, j4, Seq::empty()) {
                            Some((body, j5)) => match sym_at(cs, j5, '}') {
                                Some(j6) => Some(SpecPage { title, styles, body, scripts: tasks_from(cs, j6, Seq::empty()) }),
                                None => None,
                            },
                            None => None,
                        },
                        None => None,
                    },
                    None => None,
                },
                None => None,
            }
        } else {
            None
        },
        None => None,
    }
}

// ── Reading ─────────────────────────────────────────────────────────────

fn blank(c: char) -> (r: bool)
    ensures
        r == is_blank(c),
{
    c == ' ' || c == '\t' || c == '\n' || c == '\r'
}

fn word_char(c: char) -> (r: bool)
    ensures
        r == is_word_char(c),
{
    ('a' <= c && c <= 'z') || ('A' <= c && c <= 'Z') || ('0' <= c && c <= '9') || c == '_' || c == '-' || c == '.'
        || c == '#'
}

fn skip_ws_exec(cs: &Vec<char>, i: usize) -> (r: usize)
    requires
        i <= cs@.len(),
    ensures
        r == skip_ws(cs@, i as int),
        i <= r <= cs@.len(),
{
    let mut j = i;
    while j < cs.len()
        invariant
            i <= j <= cs@.len(),
            skip_ws(cs@, j as int) == skip_ws(cs@, i as int),
        decreases cs.len() - j,
    {
        if !blank(cs[j]) {
            return j;
        }
        j = j + 1;
    }
    j
}

fn word_end_exec(cs: &Vec<char>, i: usize) -> (r: usize)
    requires
        i <= cs@.len(),
    ensures
        r == word_end(cs@, i as int),
        i <= r <= cs@.len(),
{
    let mut j = i;
    while j < cs.len()
        invariant
            i <= j <= cs@.len(),
            word_end(cs@, j as int) == word_end(cs@, i as int),
        decreases cs.len() - j,
    {
        if !word_char(cs[j]) {
            return j;
        }
        j = j + 1;
    }
    j
}

fn quote_end_exec(cs: &Vec<char>, i: usize) -> (r: usize)
    requires
        i <= cs@.len(),
    ensures
        r == quote_end(cs@, i as int),
        i <= r <= cs@.len(),
{
    let mut j = i;
    while j < cs.len()
        invariant
            i <= j <= cs@.len(),
            quote_end(cs@, j as int) == quote_end(cs@, i as int),
        decreases cs.len() - j,
    {
        if cs[j] == '"' {
            return j;
        }
        j = j + 1;
    }
    j
}

fn substring(cs: &Vec<char>, s: usize, e: usize) -> (r: String)
    requires
        s <= e <= cs@.len(),
    ensures
        r@ == cs@.subrange(s as int, e as int),
{
    let mut out = String::new();
    let mut k = s;
    while k < e
        invariant
            s <= k <= e,
            e <= cs@.len(),
            out@ == cs@.subrange(s as int, k as int),
        decreases e - k,
    {
        push_char(&mut out, cs[k]);
        k = k + 1;
        assert(out@ =~= cs@.subrange(s as int, k as int));
    }
    out
}

fn word_at_exec(cs: &Vec<char>, i: usize) -> (r: Option<(String, usize)>)
    requires
        i <= cs@.len(),
    ensures
        match r {
            Some(p) => word_at(cs@, i as int) == Some((p.0@, p.1 as int)) && i < p.1 <= cs@.len(),
            None => word_at(cs@, i as int) is None,
        },
{
    let s = skip_ws_exec(cs, i);
    let e = word_end_exec(cs, s);
    if s < e {
        Some((substring(cs, s, e), e))
    } else {
        None
    }
}

fn str_at_exec(cs: &Vec<char>, i: usize) -> (r: Option<(String, usize)>)
    requires
        i <= cs@.len(),
    ensures
        match r {
            Some(p) => str_at(cs@, i as int) == Some((p.0@, p.1 as int)) && i < p.1 <= cs@.len(),
            None => str_at(cs@, i as int) is None,
        },
{
    let s = skip_ws_exec(cs, i);
    if s < cs.len() && cs[s] == '"' {
        let e = quote_end_exec(cs, s + 1);
        if e < cs.len() {
            Some((substring(cs, s + 1, e), e + 1))
        } else {
            None
        }
    } else {
        None
    }
}

fn sym_at_exec(cs: &Vec<char>, i: usize, c: char) -> (r: Option<usize>)
    requires
        i <= cs@.len(),
    ensures
        match r {
            Some(j) => sym_at(cs@, i as int, c) == Some(j as int) && i < j <= cs@.len(),
            None => sym_at(cs@, i as int, c) is None,
        },
{
    let s = skip_ws_exec(cs, i);
    if s < cs.len() && cs[s] == c {
        Some(s + 1)
    } else {
        None
    }
}

fn prop_at_exec(cs: &Vec<char>, i: usize) -> (r: Option<((String, String), usize)>)
    requires
        i <= cs@.len(),
    ensures
        match r {
            Some(p) => prop_at(cs@, i as int) == Some(((p.0.0@, p.0.1@), p.1 as int)) && i < p.1 <= cs@.len(),
            None => prop_at(cs@, i as int) is None,
        },
{
    match word_at_exec(cs, i) {
        Some((k, j1)) => match sym_at_exec(cs, j1, ':') {
            Some(j2) => match str_at_exec(cs, j2) {
                Some((v, j3)) => {
                    let j4 = match sym_at_exec(cs, j3, ',') {
                        Some(j4) => j4,
                        None => j3,
                    };
                    Some(((k, v), j4))
                },
                None => None,
            },
            None => None,
        },
        None => None,
    }
}

fn props_from_exec(cs: &Vec<char>, i: usize) -> (r: Option<(Vec<(String, String)>, usize)>)
    requires
        i <= cs@.len(),
    ensures
        match r {
            Some(p) => props_from(cs@, i as int, Seq::empty()) == Some((pairs_view(p.0@), p.1 as int)) && i <= p.1 <= cs@.len(),
            None => props_from(cs@, i as int, Seq::empty()) is None,
        },
{
    let mut acc: Vec<(String, String)> = Vec::new();
    let mut j = i;
    assert(pairs_view(acc@) =~= Seq::empty());
    loop
        invariant
            i <= j <= cs@.len(),
            props_from(cs@, i as int, Seq::empty()) == props_from(cs@, j as int, pairs_view(acc@)),
        decreases cs.len() - j,
    {
        if sym_at_exec(cs, j, '}').is_some() {
            return Some((acc, j));
        }
        match prop_at_exec(cs, j) {
            Some((p, k)) => {
                let ghost before = acc@;
                let ghost pv = (p.0@, p.1@);
                acc.push(p);
                assert(pairs_view(acc@) =~= pairs_view(before).push(pv));
                j = k;
            },
            None => {
                return None;
            },
        }
    }
}

fn rule_at_exec(cs: &Vec<char>, i: usize) -> (r: Option<(StyleRule, usize)>)
    requires
        i <= cs@.len(),
    ensures
        match r {
            Some(p) => rule_at(cs@, i as int) == Some(((p.0.selector@, pairs_view(p.0.properties@)), p.1 as int))
                && i < p.1 <= cs@.len(),
            None => rule_at(cs@, i as int) is None,
        },
{
    match word_at_exec(cs, i) {
        Some((sel, j1)) => match sym_at_exec(cs, j1, '{') {
            Some(j2) => match props_from_exec(cs, j2) {
                Some((ps, j3)) => match sym_at_exec(cs, j3, '}') {
                    Some(j4) => Some((StyleRule { selector: sel, properties: ps }, j4)),
                    None => None,
                },
                None => None,
            },
            None => None,
        },
        None => None,
    }
}

fn rules_from_exec(cs: &Vec<char>, i: usize) -> (r: Option<(Vec<StyleRule>, usize)>)
    requires
        i <= cs@.len(),
    ensures
        match r {
            Some(p) => rules_from(cs@, i as int, Seq::empty()) == Some((rules_view(p.0@), p.1 as int)) && i <= p.1 <= cs@.len(),
            None => rules_from(cs@, i as int, Seq::empty()) is None,
        },
{
    let mut acc: Vec<StyleRule> = Vec::new();
    let mut j = i;
    assert(rules_view(acc@) =~= Seq::empty());
    loop
        invariant
            i <= j <= cs@.len(),
            rules_from(cs@, i as int, Seq::empty()) == rules_from(cs@, j as int, rules_view(acc@)),
        decreases cs.len() - j,
    {
        if sym_at_exec(cs, j, '}').is_some() {
            return Some((acc, j));
        }
        match rule_at_exec(cs, j) {
            Some((rule, k)) => {
                let ghost before = acc@;
                let ghost rv = (rule.selector@, pairs_view(rule.properties@));
                acc.push(rule);
                assert(rules_view(acc@) =~= rules_view(before).push(rv));
                j = k;
            },
            None => {
                return None;
            },
        }
    }
}

fn is_event_name_exec(k: &String) -> (r: bool)
    ensures
        r == is_event_name(k@),
{
    let kc = crate::text::chars_of(k.as_str());
    kc.len() >= 2 && kc[0] == 'o' && kc[1] == 'n'
}

fn event_of(k: &String) -> (r: String)
    requires
        k@.len() >= 2,
    ensures
        r@ == k@.subrange(2, k@.len() as int),
{
    let kc = crate::text::chars_of(k.as_str());
    substring(&kc, 2, kc.len())
}

fn attr_at_exec(cs: &Vec<char>, i: usize) -> (r: Option<((String, String), usize)>)
    requires
        i <= cs@.len(),
    ensures
        match r {
            Some(p) => attr_at(cs@, i as int) == Some(((p.0.0@, p.0.1@), p.1 as int)) && i < p.1 <= cs@.len(),
            None => attr_at(cs@, i as int) is None,
        },
{
    match word_at_exec(cs, i) {
        Some((k, j1)) => match sym_at_exec(cs, j1, '=') {
            Some(j2) => match str_at_exec(cs, j2) {
                Some((v, j3)) => Some(((k, v), j3)),
                None => match word_at_exec(cs, j2) {
                    Some((v, j3)) => Some(((k, v), j3)),
                    None => None,
                },
            },
            None => None,
        },
        None => None,
    }
}

fn attrs_from_exec(cs: &Vec<char>, i: usize) -> (r: (Vec<(String, String)>, Vec<(String, String)>, usize))
    requires
        i <= cs@.len(),
    ensures
        attrs_from(cs@, i as int, Seq::empty(), Seq::empty()) == (pairs_view(r.0@), pairs_view(r.1@), r.2 as int),
        i <= r.2 <= cs@.len(),
{
    let mut attrs: Vec<(String, String)> = Vec::new();
    let mut events: Vec<(String, String)> = Vec::new();
    let mut j = i;
    assert(pairs_view(attrs@) =~= Seq::empty());
    assert(pairs_view(events@) =~= Seq::empty());
    loop
        invariant
            i <= j <= cs@.len(),
            attrs_from(cs@, i as int, Seq::empty(), Seq::empty()) == attrs_from(cs@, j as int, pairs_view(attrs@), pairs_view(events@)),
        decreases cs.len() - j,
    {
        match attr_at_exec(cs, j) {
            Some((a, k)) => {
                if is_event_name_exec(&a.0) {
                    let ev = event_of(&a.0);
                    let ghost before = events@;
                    let ghost pv = (ev@, a.1@);
                    events.push((ev, a.1));
                    assert(pairs_view(events@) =~= pairs_view(before).push(pv));
                } else {
                    let ghost before = attrs@;
                    let ghost pv = (a.0@, a.1@);
                    attrs.push(a);
                    assert(pairs_view(attrs@) =~= pairs_view(before).push(pv));
                }
                j = k;
            },
            None => {
                return (attrs, events, j);
            },
        }
    }
}

fn node_at_exec(cs: &Vec<char>, i: usize) -> (r: Option<(HtmlNode, usize)>)
    requires
        i <= cs@.len(),
    ensures
        match r {
            Some(p) => node_at(cs@, i as int) == Some((node_view(p.0), p.1 as int)) && i < p.1 <= cs@.len(),
            None => node_at(cs@, i as int) is None,
        },
    decreases cs@.len() - i, 0int,
{
    match str_at_exec(cs, i) {
        Some((s, j)) => Some((HtmlNode::Text(s), j)),
        None => match word_at_exec(cs, i) {
            Some((tag, j1)) => {
                let (attrs, events, j2) = attrs_from_exec(cs, j1);
                match sym_at_exec(cs, j2, '{') {
                    Some(j3) => match nodes_from_exec(cs, j3) {
                        Some((children, j4)) => match sym_at_exec(cs, j4, '}') {
                            Some(j5) => Some((HtmlNode::Element { tag, attrs, children, events }, j5)),
                            None => None,
                        },
                        None => None,
                    },
                    None => None,
                }
            },
            None => None,
        },
    }
}

fn nodes_from_exec(cs: &Vec<char>, i: usize) -> (r: Option<(Vec<HtmlNode>, usize)>)
    requires
        i <= cs@.len(),
    ensures
        match r {
            Some(p) => nodes_from(cs@, i as int, Seq::empty()) == Some((nodes_view(p.0@), p.1 as int)) && i <= p.1 <= cs@.len(),
            None => nodes_from(cs@, i as int, Seq::empty()) is None,
        },
    decreases cs@.len() - i, 1int,
{
    let mut acc: Vec<HtmlNode> = Vec::new();
    let mut j = i;
    assert(nodes_view(acc@) =~= Seq::empty());
    loop
        invariant
            i <= j <= cs@.len(),
            nodes_from(cs@, i as int, Seq::empty()) == nodes_from(cs@, j as int, nodes_view(acc@)),
        decreases cs.len() - j,
    {
        if sym_at_exec(cs, j, '}').is_some() {
            return Some((acc, j));
        }
        match node_at_exec(cs, j) {
            Some((n, k)) => {
                let ghost before = acc@;
                let ghost nv = node_view(n);
                acc.push(n);
                assert(acc@.drop_last() =~= before);
                assert(nodes_view(acc@) == nodes_view(before).push(nv));
                j = k;
            },
            None => {
                return None;
            },
        }
    }
}

fn tasks_from_exec(cs: &Vec<char>, i: usize) -> (r: Vec<String>)
    requires
        i <= cs@.len(),
    ensures
        tasks_from(cs@, i as int, Seq::empty()) == r@.map_values(|s: String| s@),
{
    let mut acc: Vec<String> = Vec::new();
    let mut j = i;
    assert(acc@.map_values(|s: String| s@) =~= Seq::<Seq<char>>::empty());
    loop
        invariant
            i <= j <= cs@.len(),
            tasks_from(cs@, i as int, Seq::empty()) == tasks_from(cs@, j as int, acc@.map_values(|s: String| s@)),
        decreases cs.len() - j,
    {
        let s = skip_ws_exec(cs, j);
        if s >= cs.len() {
            return acc;
        }
        let e = word_end_exec(cs, s);
        if e == s {
            j = s + 1;
        } else {
            let w = substring(cs, s, e);
            if crate::text::str_eq(w.as_str(), "task") {
                match word_at_exec(cs, e) {
                    Some((n, e2)) => {
                        let ghost before = acc@;
                        acc.push(n);
                        assert(acc@.map_values(|s: String| s@) =~= before.map_values(|s: String| s@).push(n@));
                        j = e2;
                    },
                    None => {
                        j = e;
                    },
                }
            } else {
                j = e;
            }
        }
    }
}

fn styles_at_exec(cs: &Vec<char>, i: usize) -> (r: Option<(Vec<StyleRule>, usize)>)
    requires
        i <= cs@.len(),
    ensures
        match r {
            Some(p) => styles_at(cs@, i as int) == Some((rules_view(p.0@), p.1 as int)) && i <= p.1 <= cs@.len(),
            None => styles_at(cs@, i as int) is None,
        },
{
    match word_at_exec(cs, i) {
        Some((w, j1)) => {
            if crate::text::str_eq(w.as_str(), "style") {
                match sym_at_exec(cs, j1, '{') {
                    Some(j2) => match rules_from_exec(cs, j2) {
                        Some((rules, j3)) => match sym_at_exec(cs, j3, '}') {
                            Some(j4) => Some((rules, j4)),
                            None => None,
                        },
                        None => None,
                    },
                    None => {
                        let v: Vec<StyleRule> = Vec::new();
                        assert(rules_view(v@) =~= Seq::empty());
                        Some((v, i))
                    },
                }
            } else {
                let v: Vec<StyleRule> = Vec::new();
                assert(rules_view(v@) =~= Seq::empty());
                Some((v, i))
            }
        },
        None => {
            let v: Vec<StyleRule> = Vec::new();
            assert(rules_view(v@) =~= Seq::empty());
            Some((v, i))
        },
    }
}

/// Reads the page that a source starts with (see the module's syntax);
/// `None` when it does not start with one.
pub(crate) fn read_page(source: &str) -> (r: Option<WebPage>)
    ensures
        match r {
            Some(p) => page_spec(source@) == Some(page_view(p)),
            None => page_spec(source@) is None,
        },
{
    let cs = crate::text::chars_of(source);
    match word_at_exec(&cs, 0) {
        Some((w, j1)) => {
            if !crate::text::str_eq(w.as_str(), "page") {
                return None;
            }
            match str_at_exec(&cs, j1) {
                Some((title, j2)) => match sym_at_exec(&cs, j2, '{') {
                    Some(j3) => match styles_at_exec(&cs, j3) {
                        Some((styles, j4)) => match nodes_from_exec(&cs, j4) {
                            Some((body, j5)) => match sym_at_exec(&cs, j5, '}') {
                                Some(j6) => {
                                    let scripts = tasks_from_exec(&cs, j6);
                                    let p = WebPage { title, styles, body, scripts };
                                    Some(p)
                                },
                                None => None,
                            },
                            None => None,
                        },
                        None => None,
                    },
                    None => None,
                },
                None => None,
            }
        },
        None => None,
    }
}

} // verus!
