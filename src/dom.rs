//! The parsed page that the analysers read: its nodes in document order.
//!
//! Each node records where its subtree ends, so the descendants of node `i`
//! are the nodes from `i + 1` up to (not including) its end. The builder keeps
//! the ends consistent; the readers clamp an end that is out of place, so
//! every document, however it was put together, can be read.

use vstd::prelude::*;
use crate::text::{chars_of, text_eq};

verus! {

/// What a node of the page is.
#[derive(Clone, Copy, Debug, PartialEq, Eq, Structural)]
pub enum NodeKind {
    Element,
    Text,
    /// A comment, a doctype or anything else that holds no text.
    Other,
}

/// One node of a parsed page.
#[derive(Clone, Debug)]
pub struct DomNode {
    pub kind: NodeKind,
    /// Tag name of an element, in lower case; empty for other nodes.
    pub name: String,
    /// Attributes of an element, in source order.
    pub attributes: Vec<(String, String)>,
    /// The class names of an element.
    pub classes: Vec<String>,
    /// The characters of a text node; empty for other nodes.
    pub text: String,
    /// One past the index of the last node of this node's subtree.
    pub end: usize,
}

/// A parsed page: its nodes in document order, and the elements that are
/// still open while it is being built.
#[derive(Clone, Debug)]
pub struct Document {
    pub nodes: Vec<DomNode>,
    pub open: Vec<usize>,
}

/// The end of the subtree of node `i`, kept between `i + 1` and the length.
pub open spec fn subtree_end(nodes: Seq<DomNode>, i: int) -> int {
    let e = nodes[i].end as int;
    if e <= i {
        i + 1
    } else if e > nodes.len() {
        nodes.len() as int
    } else {
        e
    }
}

/// The characters of the text nodes among `nodes[from..to]`, in order.
pub open spec fn text_between(nodes: Seq<DomNode>, from: int, to: int) -> Seq<char>
    decreases to - from,
{
    if to <= from {
        Seq::empty()
    } else {
        text_between(nodes, from, to - 1) + if nodes[to - 1].kind == NodeKind::Text {
            nodes[to - 1].text@
        } else {
            Seq::empty()
        }
    }
}

/// The text of node `i` and all its descendants, concatenated.
pub open spec fn flat_text(nodes: Seq<DomNode>, i: int) -> Seq<char> {
    text_between(nodes, i, subtree_end(nodes, i))
}

/// The number of elements named `name` among `nodes[from..to]`.
pub open spec fn count_named(nodes: Seq<DomNode>, from: int, to: int, name: Seq<char>) -> nat
    decreases to - from,
{
    if to <= from {
        0
    } else {
        count_named(nodes, from, to - 1, name) + if nodes[to - 1].kind == NodeKind::Element
            && nodes[to - 1].name@ == name {
            1nat
        } else {
            0nat
        }
    }
}

/// Elements of three different names together are no more than the nodes.
pub proof fn lemma_count_three_names(nodes: Seq<DomNode>, from: int, to: int, a: Seq<char>, b: Seq<char>, c: Seq<char>)
    requires
        from <= to,
        a != b,
        b != c,
        a != c,
    ensures
        count_named(nodes, from, to, a) + count_named(nodes, from, to, b) + count_named(nodes, from, to, c) <= to - from,
    decreases to - from,
{
    if to > from {
        lemma_count_three_names(nodes, from, to - 1, a, b, c);
    }
}

/// The number of elements named `name` strictly inside node `i`.
pub open spec fn descendants_named(nodes: Seq<DomNode>, i: int, name: Seq<char>) -> nat {
    count_named(nodes, i + 1, subtree_end(nodes, i), name)
}

/// The value of the first attribute called `name`.
pub open spec fn attr_value(attrs: Seq<(String, String)>, name: Seq<char>) -> Option<Seq<char>>
    decreases attrs.len(),
{
    if attrs.len() == 0 {
        None
    } else if attrs[0].0@ == name {
        Some(attrs[0].1@)
    } else {
        attr_value(attrs.drop_first(), name)
    }
}

/// Whether the node has the class `c`.
pub open spec fn has_class(node: DomNode, c: Seq<char>) -> bool {
    exists|k: int| 0 <= k < node.classes@.len() && #[trigger] node.classes@[k]@ == c
}

pub fn subtree_end_exec(nodes: &Vec<DomNode>, i: usize) -> (r: usize)
    requires
        i < nodes.len(),
    ensures
        r == subtree_end(nodes@, i as int),
        i < r <= nodes@.len(),
{
    let e = nodes[i].end;
    if e <= i {
        i + 1
    } else if e > nodes.len() {
        nodes.len()
    } else {
        e
    }
}

/// The text of node `i` and its descendants.
pub fn flat_text_exec(nodes: &Vec<DomNode>, i: usize) -> (r: Vec<char>)
    requires
        i < nodes.len(),
    ensures
        r@ == flat_text(nodes@, i as int),
{
    let end = subtree_end_exec(nodes, i);
    let mut r: Vec<char> = Vec::new();
    let mut k: usize = i;
    while k < end
        invariant
            i <= k <= end,
            end <= nodes@.len(),
            r@ == text_between(nodes@, i as int, k as int),
        decreases end - k,
    {
        if nodes[k].kind == NodeKind::Text {
            let mut t = chars_of(nodes[k].text.as_str());
            r.append(&mut t);
        }
        k = k + 1;
        assert(r@ =~= text_between(nodes@, i as int, k as int));
    }
    r
}

/// The number of elements named `name` strictly inside node `i`.
pub fn descendants_named_exec(nodes: &Vec<DomNode>, i: usize, name: &str) -> (r: usize)
    requires
        i < nodes.len(),
    ensures
        r == descendants_named(nodes@, i as int, name@),
{
    let end = subtree_end_exec(nodes, i);
    let mut r: usize = 0;
    let mut k: usize = i + 1;
    while k < end
        invariant
            i + 1 <= k <= end,
            end <= nodes@.len(),
            r == count_named(nodes@, i + 1, k as int, name@),
            r <= k - (i + 1),
        decreases end - k,
    {
        if nodes[k].kind == NodeKind::Element && text_eq(nodes[k].name.as_str(), name) {
            r = r + 1;
        }
        k = k + 1;
    }
    r
}

/// The value of the first attribute called `name`.
pub fn attr_value_exec(attrs: &Vec<(String, String)>, name: &str) -> (r: Option<String>)
    ensures
        match r {
            Some(v) => attr_value(attrs@, name@) == Some(v@),
            None => attr_value(attrs@, name@) is None,
        },
{
    let mut k: usize = 0;
    proof {
        assert(attrs@.subrange(0, attrs@.len() as int) =~= attrs@);
    }
    while k < attrs.len()
        invariant
            k <= attrs@.len(),
            attr_value(attrs@, name@) == attr_value(attrs@.subrange(k as int, attrs@.len() as int), name@),
        decreases attrs.len() - k,
    {
        let ghost rest = attrs@.subrange(k as int, attrs@.len() as int);
        if text_eq(attrs[k].0.as_str(), name) {
            assert(rest[0] == attrs@[k as int]);
            return Some(attrs[k].1.clone());
        }
        proof {
            assert(rest[0] == attrs@[k as int]);
            assert(rest.drop_first() =~= attrs@.subrange(k + 1, attrs@.len() as int));
        }
        k = k + 1;
    }
    None
}

pub fn has_class_exec(node: &DomNode, c: &str) -> (r: bool)
    ensures
        r == has_class(*node, c@),
{
    let mut k: usize = 0;
    while k < node.classes.len()
        invariant
            k <= node.classes@.len(),
            forall|m: int| 0 <= m < k ==> node.classes@[m]@ != c@,
        decreases node.classes.len() - k,
    {
        if text_eq(node.classes[k].as_str(), c) {
            return true;
        }
        k = k + 1;
    }
    false
}

/// A compound selector: a tag name, an id, a class and an attribute test,
/// each optional, that one element must all meet.
#[derive(Clone, Debug)]
pub struct Compound {
    pub tag: Option<String>,
    pub id: Option<String>,
    pub class: Option<String>,
    /// An attribute that must be present, with the value it must have if one
    /// is given.
    pub attribute: Option<(String, Option<String>)>,
}

/// Whether the node is an element that meets every part of `c`.
pub open spec fn matches_compound(node: DomNode, c: Compound) -> bool {
    &&& node.kind == NodeKind::Element
    &&& (c.tag matches Some(t) ==> node.name@ == t@)
    &&& (c.id matches Some(d) ==> attr_value(node.attributes@, "id"@) == Some(d@))
    &&& (c.class matches Some(k) ==> has_class(node, k@))
    &&& (c.attribute matches Some((n, v)) ==> match v {
        Some(v) => attr_value(node.attributes@, n@) == Some(v@),
        None => attr_value(node.attributes@, n@) is Some,
    })
}

pub fn matches_compound_exec(node: &DomNode, c: &Compound) -> (r: bool)
    ensures
        r == matches_compound(*node, *c),
{
    if node.kind != NodeKind::Element {
        return false;
    }
    if let Some(t) = &c.tag {
        if !text_eq(node.name.as_str(), t.as_str()) {
            return false;
        }
    }
    if let Some(d) = &c.id {
        match attr_value_exec(&node.attributes, "id") {
            Some(v) => {
                if !text_eq(v.as_str(), d.as_str()) {
                    return false;
                }
            },
            None => {
                return false;
            },
        }
    }
    if let Some(k) = &c.class {
        if !has_class_exec(node, k.as_str()) {
            return false;
        }
    }
    if let Some((n, want)) = &c.attribute {
        match attr_value_exec(&node.attributes, n.as_str()) {
            Some(v) => {
                if let Some(w) = want {
                    if !text_eq(v.as_str(), w.as_str()) {
                        return false;
                    }
                }
            },
            None => {
                return false;
            },
        }
    }
    true
}

/// Whether a character may stand in a name of a selector.
pub open spec fn is_name_char(c: char) -> bool {
    ('a' <= c && c <= 'z') || ('A' <= c && c <= 'Z') || ('0' <= c && c <= '9') || c == '-' || c == '_'
}

pub open spec fn opt_text(o: Option<String>) -> Seq<char> {
    match o {
        Some(s) => s@,
        None => Seq::empty(),
    }
}

/// `mark` followed by the text, or nothing.
pub open spec fn prefixed(mark: char, o: Option<String>) -> Seq<char> {
    match o {
        Some(s) => seq![mark] + s@,
        None => Seq::empty(),
    }
}

/// The canonical text of a compound selector: tag, `#id`, `.class`, then
/// `[name]` or `[name='value']`.
pub open spec fn render_compound(c: Compound) -> Seq<char> {
    opt_text(c.tag) + prefixed('#', c.id) + prefixed('.', c.class) + attribute_text(c.attribute)
}

/// The canonical text of a selector: its compounds separated by one space.
pub open spec fn render_selector(chain: Seq<Compound>) -> Seq<char>
    decreases chain.len(),
{
    if chain.len() == 0 {
        Seq::empty()
    } else if chain.len() == 1 {
        render_compound(chain[0])
    } else {
        render_selector(chain.drop_last()) + seq![' '] + render_compound(chain.last())
    }
}

/// Whether node `i` matches the descendant selector `chain`: it meets the
/// last compound, and the rest is met by one of its ancestors.
pub open spec fn matches_chain(nodes: Seq<DomNode>, i: int, chain: Seq<Compound>) -> bool
    decreases chain.len(), 0int,
{
    if chain.len() == 0 {
        false
    } else if !matches_compound(nodes[i], chain.last()) {
        false
    } else if chain.len() == 1 {
        true
    } else {
        ancestor_matches(nodes, i, chain.drop_last(), i)
    }
}

/// Whether one of the nodes before `j` is an ancestor of node `i` that
/// matches `chain`.
pub open spec fn ancestor_matches(nodes: Seq<DomNode>, i: int, chain: Seq<Compound>, j: int) -> bool
    decreases chain.len(), j + 1,
{
    if j <= 0 {
        false
    } else {
        ancestor_matches(nodes, i, chain, j - 1) || ((j - 1) < i && i < subtree_end(nodes, j - 1)
            && matches_chain(nodes, j - 1, chain))
    }
}

pub fn matches_chain_exec(nodes: &Vec<DomNode>, i: usize, chain: &[Compound]) -> (r: bool)
    requires
        i < nodes.len(),
    ensures
        r == matches_chain(nodes@, i as int, chain@),
    decreases chain@.len(),
{
    let n = chain.len();
    if n == 0 {
        return false;
    }
    if !matches_compound_exec(&nodes[i], &chain[n - 1]) {
        return false;
    }
    if n == 1 {
        return true;
    }
    let rest = prefix_of(chain, n - 1);
    let rs = rest.as_slice();
    assert(rs@ =~= chain@.drop_last());
    let mut found = false;
    let mut j: usize = 0;
    while j < i
        invariant
            j <= i,
            i < nodes@.len(),
            n == chain@.len(),
            n > 1,
            rs@ == chain@.drop_last(),
            found == ancestor_matches(nodes@, i as int, rs@, j as int),
        decreases i - j,
    {
        if !found {
            let e = subtree_end_exec(nodes, j);
            if i < e && matches_chain_exec(nodes, j, rs) {
                found = true;
            }
        }
        j = j + 1;
    }
    found
}

fn is_name_char_exec(c: char) -> (r: bool)
    ensures
        r == is_name_char(c),
{
    ('a' <= c && c <= 'z') || ('A' <= c && c <= 'Z') || ('0' <= c && c <= '9') || c == '-' || c == '_'
}

/// The end of the run of name characters of `w` that starts at `from`.
fn read_name(w: &Vec<char>, from: usize) -> (j: usize)
    requires
        from <= w@.len(),
    ensures
        from <= j <= w@.len(),
        forall|k: int| from <= k < j ==> is_name_char(#[trigger] w@[k]),
        j < w@.len() ==> !is_name_char(w@[j as int]),
{
    let mut j = from;
    while j < w.len() && is_name_char_exec(w[j])
        invariant
            from <= j <= w@.len(),
            forall|k: int| from <= k < j ==> is_name_char(#[trigger] w@[k]),
        decreases w.len() - j,
    {
        j = j + 1;
    }
    j
}

/// The characters `w[from..to]`.
fn slice_string(w: &Vec<char>, from: usize, to: usize) -> (r: String)
    requires
        from <= to <= w@.len(),
    ensures
        r@ == w@.subrange(from as int, to as int),
{
    let mut v: Vec<char> = Vec::new();
    let mut k = from;
    while k < to
        invariant
            from <= k <= to,
            to <= w@.len(),
            v@ == w@.subrange(from as int, k as int),
        decreases to - k,
    {
        v.push(w[k]);
        k = k + 1;
        assert(v@ =~= w@.subrange(from as int, k as int));
    }
    crate::text::string_of(&v)
}

/// The text of an attribute test.
pub open spec fn attribute_text(a: Option<(String, Option<String>)>) -> Seq<char> {
    match a {
        Some((n, None)) => seq!['['] + n@ + seq![']'],
        Some((n, Some(v))) => seq!['['] + n@ + seq!['=', '\''] + v@ + seq!['\'', ']'],
        None => Seq::empty(),
    }
}

/// A name of a selector: not empty, of name characters only.
pub open spec fn name_ok(s: Seq<char>) -> bool {
    s.len() > 0 && forall|k: int| 0 <= k < s.len() ==> is_name_char(#[trigger] s[k])
}

/// An attribute value of a selector: no quote and no space.
pub open spec fn value_ok(s: Seq<char>) -> bool {
    forall|k: int| 0 <= k < s.len() ==> (#[trigger] s[k]) != '\'' && s[k] != ' '
}

pub open spec fn opt_name_ok(o: Option<String>) -> bool {
    o matches Some(s) ==> name_ok(s@)
}

pub open spec fn attribute_ok(a: Option<(String, Option<String>)>) -> bool {
    a matches Some((n, v)) ==> name_ok(n@) && (v matches Some(x) ==> value_ok(x@))
}

/// A compound selector that can be written in canonical form: some part is
/// given, and every name and value is well formed.
pub open spec fn compound_ok(c: Compound) -> bool {
    &&& opt_name_ok(c.tag)
    &&& opt_name_ok(c.id)
    &&& opt_name_ok(c.class)
    &&& attribute_ok(c.attribute)
    &&& !(c.tag is None && c.id is None && c.class is None && c.attribute is None)
}

pub open spec fn attribute_view(a: Option<(String, Option<String>)>) -> Option<(Seq<char>, Option<Seq<char>>)> {
    match a {
        Some((n, v)) => Some((n@, match v { Some(x) => Some(x@), None => None })),
        None => None,
    }
}

/// A compound selector with its strings seen as character sequences.
pub open spec fn compound_view(c: Compound) -> (Option<Seq<char>>, Option<Seq<char>>, Option<Seq<char>>, Option<(Seq<char>, Option<Seq<char>>)>) {
    (
        match c.tag { Some(x) => Some(x@), None => None },
        match c.id { Some(x) => Some(x@), None => None },
        match c.class { Some(x) => Some(x@), None => None },
        attribute_view(c.attribute),
    )
}

/// `j` ends the run of name characters of `w` that starts at `from`.
pub open spec fn run_end(w: Seq<char>, from: int, j: int) -> bool {
    &&& from <= j <= w.len()
    &&& forall|k: int| from <= k < j ==> is_name_char(#[trigger] w[k])
    &&& j < w.len() ==> !is_name_char(w[j])
}

proof fn lemma_run_end_unique(w: Seq<char>, from: int, j1: int, j2: int)
    requires
        run_end(w, from, j1),
        run_end(w, from, j2),
    ensures
        j1 == j2,
{
    if j1 < j2 {
        assert(is_name_char(w[j1]));
    } else if j2 < j1 {
        assert(is_name_char(w[j2]));
    }
}

/// What reading `mark` and a name at `i` gives.
pub open spec fn marked_read(w: Seq<char>, i: int, mark: char, r: Option<(Option<String>, usize)>) -> bool {
    &&& (r matches Some((o, j)) ==> i <= j <= w.len() && w.subrange(i, j as int) == prefixed(mark, o) && opt_name_ok(o))
    &&& (!(i < w.len() && w[i] == mark) ==> (r matches Some((o, j)) && o is None && j == i))
    &&& ((i < w.len() && w[i] == mark) ==> match r {
        None => run_end(w, i + 1, i + 1),
        Some((o, j)) => o is Some && run_end(w, i + 1, j as int),
    })
}

/// What reading an attribute test at `i` gives.
pub open spec fn attribute_read(w: Seq<char>, i: int, r: Option<(Option<(String, Option<String>)>, usize)>) -> bool {
    &&& (r matches Some((a, j)) ==> i <= j <= w.len() && w.subrange(i, j as int) == attribute_text(a) && attribute_ok(a))
    &&& (!(i < w.len() && w[i] == '[') ==> (r matches Some((a, j)) && a is None && j == i))
    &&& forall|a: Option<(String, Option<String>)>|
        a is Some && attribute_ok(a) && i + attribute_text(a).len() == w.len()
            && w.subrange(i, w.len() as int) == #[trigger] attribute_text(a)
            ==> (r matches Some((b, j)) && j == w.len() && attribute_view(b) == attribute_view(a))
}

/// Reads `mark` and a name at `i`, if `mark` is there. None when the mark
/// is not followed by a name.
fn read_marked(w: &Vec<char>, i: usize, mark: char) -> (r: Option<(Option<String>, usize)>)
    requires
        i <= w@.len(),
    ensures
        marked_read(w@, i as int, mark, r),
{
    if i < w.len() && w[i] == mark {
        let j = read_name(w, i + 1);
        if j == i + 1 {
            return None;
        }
        let d = slice_string(w, i + 1, j);
        assert(seq![mark] + d@ =~= w@.subrange(i as int, j as int));
        assert forall|k: int| 0 <= k < d@.len() implies is_name_char(#[trigger] d@[k]) by {
            assert(d@[k] == w@[i + 1 + k]);
        }
        Some((Some(d), j))
    } else {
        assert(w@.subrange(i as int, i as int) =~= Seq::<char>::empty());
        Some((None, i))
    }
}

/// Where each part of a well-formed attribute text lies in `w` from `i`.
proof fn lemma_attribute_layout(w: Seq<char>, i: int, a: Option<(String, Option<String>)>)
    requires
        0 <= i,
        a is Some,
        attribute_ok(a),
        i + attribute_text(a).len() == w.len(),
        w.subrange(i, w.len() as int) == attribute_text(a),
    ensures
        ({
            let nm = (a->0).0@;
            let e = i + 1 + nm.len();
            &&& i < w.len() && w[i] == '['
            &&& run_end(w, i + 1, e)
            &&& e < w.len()
            &&& w.subrange(i + 1, e) == nm
            &&& ((a->0).1 is None ==> w[e] == ']' && e + 1 == w.len())
            &&& ((a->0).1 matches Some(x) ==> {
                &&& w[e] == '=' && e + 1 < w.len() && w[e + 1] == '\''
                &&& e + 2 + x@.len() + 2 == w.len()
                &&& w.subrange(e + 2, e + 2 + x@.len()) == x@
                &&& w[e + 2 + x@.len()] == '\'' && w[e + 3 + x@.len()] == ']'
                &&& forall|m: int| e + 2 <= m < e + 2 + x@.len() ==> (#[trigger] w[m]) != '\'' && w[m] != ' '
            })
        }),
{
    let t = attribute_text(a);
    let nm = (a->0).0@;
    let e = i + 1 + nm.len();
    assert(w[i] == t[0]);
    assert forall|k: int| i + 1 <= k < e implies is_name_char(#[trigger] w[k]) by {
        assert(w[k] == w.subrange(i, w.len() as int)[k - i]);
        assert(t[k - i] == nm[k - i - 1]);
    }
    assert(w[e] == t[e - i]);
    assert(w.subrange(i + 1, e) =~= nm) by {
        assert forall|k: int| 0 <= k < nm.len() implies w.subrange(i + 1, e)[k] == nm[k] by {
            assert(w[i + 1 + k] == w.subrange(i, w.len() as int)[1 + k]);
        }
    }
    match (a->0).1 {
        None => {
            assert(t[e - i] == ']');
        },
        Some(x) => {
            let xs = x@;
            assert(t[e - i] == '=');
            assert(w[e + 1] == w.subrange(i, w.len() as int)[e + 1 - i]);
            assert forall|k: int| 0 <= k < xs.len() implies w[e + 2 + k] == xs[k] by {
                assert(w[e + 2 + k] == w.subrange(i, w.len() as int)[e + 2 + k - i]);
            }
            assert(w.subrange(e + 2, e + 2 + xs.len()) =~= xs);
            assert forall|m: int| e + 2 <= m < e + 2 + xs.len() implies (#[trigger] w[m]) != '\'' && w[m] != ' ' by {
                assert(w[m] == xs[m - e - 2]);
            }
            assert(w[e + 2 + xs.len()] == w.subrange(i, w.len() as int)[e + 2 + xs.len() - i]);
            assert(w[e + 3 + xs.len()] == w.subrange(i, w.len() as int)[e + 3 + xs.len() - i]);
        },
    }
}

/// Reads an attribute test at `i`, if one starts there.
fn read_attribute(w: &Vec<char>, i: usize) -> (r: Option<(Option<(String, Option<String>)>, usize)>)
    requires
        i <= w@.len(),
    ensures
        attribute_read(w@, i as int, r),
{
    let n = w.len();
    if !(i < n && w[i] == '[') {
        assert(w@.subrange(i as int, i as int) =~= Seq::<char>::empty());
        proof {
            assert forall|a: Option<(String, Option<String>)>|
                a is Some && attribute_ok(a) && i + attribute_text(a).len() == w@.len()
                    && w@.subrange(i as int, w@.len() as int) == #[trigger] attribute_text(a)
                    implies false by {
                lemma_attribute_layout(w@, i as int, a);
            }
        }
        return Some((None, i));
    }
    let j = read_name(w, i + 1);
    proof {
        assert forall|a: Option<(String, Option<String>)>|
            a is Some && attribute_ok(a) && i + attribute_text(a).len() == w@.len()
                && w@.subrange(i as int, w@.len() as int) == #[trigger] attribute_text(a)
                implies j == i + 1 + (a->0).0@.len() by {
            lemma_attribute_layout(w@, i as int, a);
            lemma_run_end_unique(w@, i + 1, j as int, i + 1 + (a->0).0@.len());
        }
    }
    if j == i + 1 || j >= n {
        proof {
            assert forall|a: Option<(String, Option<String>)>|
                a is Some && attribute_ok(a) && i + attribute_text(a).len() == w@.len()
                    && w@.subrange(i as int, w@.len() as int) == #[trigger] attribute_text(a)
                    implies false by {
                lemma_attribute_layout(w@, i as int, a);
            }
        }
        return None;
    }
    let name = slice_string(w, i + 1, j);
    assert forall|k: int| 0 <= k < name@.len() implies is_name_char(#[trigger] name@[k]) by {
        assert(name@[k] == w@[i + 1 + k]);
    }
    if w[j] == ']' {
        assert(seq!['['] + name@ + seq![']'] =~= w@.subrange(i as int, j + 1));
        proof {
            assert forall|a: Option<(String, Option<String>)>|
                a is Some && attribute_ok(a) && i + attribute_text(a).len() == w@.len()
                    && w@.subrange(i as int, w@.len() as int) == #[trigger] attribute_text(a)
                    implies (j + 1 == w@.len() && attribute_view(Some((name, None))) == attribute_view(a)) by {
                lemma_attribute_layout(w@, i as int, a);
            }
        }
        return Some((Some((name, None)), j + 1));
    }
    if !(j + 1 < n && w[j] == '=' && w[j + 1] == '\'') {
        proof {
            assert forall|a: Option<(String, Option<String>)>|
                a is Some && attribute_ok(a) && i + attribute_text(a).len() == w@.len()
                    && w@.subrange(i as int, w@.len() as int) == #[trigger] attribute_text(a)
                    implies false by {
                lemma_attribute_layout(w@, i as int, a);
            }
        }
        return None;
    }
    let mut k = j + 2;
    while k < n && w[k] != '\'' && w[k] != ' '
        invariant
            j + 2 <= k <= n,
            n == w@.len(),
            forall|m: int| j + 2 <= m < k ==> (#[trigger] w@[m]) != '\'' && w@[m] != ' ',
        decreases n - k,
    {
        k = k + 1;
    }
    proof {
        assert forall|a: Option<(String, Option<String>)>|
            a is Some && attribute_ok(a) && i + attribute_text(a).len() == w@.len()
                && w@.subrange(i as int, w@.len() as int) == #[trigger] attribute_text(a)
                implies ((a->0).1 is Some && k == j + 2 + (a->0).1->0@.len()) by {
            lemma_attribute_layout(w@, i as int, a);
            if (a->0).1 is Some {
                let xl = (a->0).1->0@.len();
                if k < j + 2 + xl {
                    assert(w@[k as int] != '\'' && w@[k as int] != ' ');
                } else if k > j + 2 + xl {
                    assert(w@[j + 2 + xl] != '\'');
                }
            }
        }
    }
    if k >= n || w[k] != '\'' || k + 1 >= n || w[k + 1] != ']' {
        proof {
            assert forall|a: Option<(String, Option<String>)>|
                a is Some && attribute_ok(a) && i + attribute_text(a).len() == w@.len()
                    && w@.subrange(i as int, w@.len() as int) == #[trigger] attribute_text(a)
                    implies false by {
                lemma_attribute_layout(w@, i as int, a);
            }
        }
        return None;
    }
    let value = slice_string(w, j + 2, k);
    assert(seq!['['] + name@ + seq!['=', '\''] + value@ + seq!['\'', ']'] =~= w@.subrange(i as int, k + 2));
    assert forall|m: int| 0 <= m < value@.len() implies (#[trigger] value@[m]) != '\'' && value@[m] != ' ' by {
        assert(value@[m] == w@[j + 2 + m]);
    }
    proof {
        assert forall|a: Option<(String, Option<String>)>|
            a is Some && attribute_ok(a) && i + attribute_text(a).len() == w@.len()
                && w@.subrange(i as int, w@.len() as int) == #[trigger] attribute_text(a)
                implies (k + 2 == w@.len() && attribute_view(Some((name, Some(value)))) == attribute_view(a)) by {
            lemma_attribute_layout(w@, i as int, a);
        }
    }
    Some((Some((name, Some(value))), k + 2))
}

proof fn lemma_first_char_not_name(c: Compound, part: Seq<char>)
    requires
        part.len() > 0,
        part == prefixed('#', c.id) + prefixed('.', c.class) + attribute_text(c.attribute)
            || part == prefixed('.', c.class) + attribute_text(c.attribute)
            || part == attribute_text(c.attribute),
    ensures
        part[0] == '#' || part[0] == '.' || part[0] == '[',
        !is_name_char(part[0]),
{
    let i = prefixed('#', c.id);
    let k = prefixed('.', c.class);
    let a = attribute_text(c.attribute);
    if part == i + k + a {
        if i.len() > 0 {
            assert(part[0] == i[0]);
        } else if k.len() > 0 {
            assert(part[0] == k[0]);
        } else {
            assert(part[0] == a[0]);
        }
    } else if part == k + a {
        if k.len() > 0 {
            assert(part[0] == k[0]);
        } else {
            assert(part[0] == a[0]);
        }
    } else {
        assert(part[0] == a[0]);
    }
}

/// Where each part of a well-formed compound's text lies.
#[verifier::spinoff_prover]
proof fn lemma_compound_layout(w: Seq<char>, c: Compound)
    requires
        compound_ok(c),
        render_compound(c) == w,
    ensures
        ({
            let p0 = opt_text(c.tag).len() as int;
            let p1 = p0 + prefixed('#', c.id).len();
            let p2 = p1 + prefixed('.', c.class).len();
            &&& run_end(w, 0, p0)
            &&& w.subrange(0, p0) == opt_text(c.tag)
            &&& (c.id matches Some(d) ==> p0 < w.len() && w[p0] == '#' && p1 > p0 + 1 && run_end(w, p0 + 1, p1)
                && w.subrange(p0 + 1, p1) == d@)
            &&& (c.id is None ==> p1 == p0 && !(p0 < w.len() && w[p0] == '#'))
            &&& (c.class matches Some(d) ==> p1 < w.len() && w[p1] == '.' && p2 > p1 + 1 && run_end(w, p1 + 1, p2)
                && w.subrange(p1 + 1, p2) == d@)
            &&& (c.class is None ==> p2 == p1 && !(p1 < w.len() && w[p1] == '.'))
            &&& p2 + attribute_text(c.attribute).len() == w.len()
            &&& w.subrange(p2, w.len() as int) == attribute_text(c.attribute)
            &&& (c.attribute is None ==> p2 == w.len())
            &&& w.len() > 0
        }),
{
    let t = opt_text(c.tag);
    let i = prefixed('#', c.id);
    let k = prefixed('.', c.class);
    let a = attribute_text(c.attribute);
    let p0 = t.len() as int;
    let p1 = p0 + i.len();
    let p2 = p1 + k.len();
    assert(w =~= t + (i + k + a));
    let rest0 = i + k + a;
    let rest1 = k + a;
    assert forall|q: int| 0 <= q < p0 implies is_name_char(#[trigger] w[q]) by {
        assert(w[q] == t[q]);
    }
    if p0 < w.len() {
        lemma_first_char_not_name(c, rest0);
        assert(w[p0] == rest0[0]);
    }
    assert(w.subrange(0, p0) =~= t);
    if c.id is Some {
        let d = c.id->0@;
        assert(w[p0] == i[0]);
        assert forall|q: int| p0 + 1 <= q < p1 implies is_name_char(#[trigger] w[q]) by {
            assert(w[q] == i[q - p0]);
            assert(i[q - p0] == d[q - p0 - 1]);
        }
        if p1 < w.len() {
            lemma_first_char_not_name(c, rest1);
            assert(w[p1] == rest1[0]);
        }
        assert(w.subrange(p0 + 1, p1) =~= d) by {
            assert forall|q: int| 0 <= q < d.len() implies w.subrange(p0 + 1, p1)[q] == d[q] by {
                assert(w[p0 + 1 + q] == i[1 + q]);
            }
        }
    } else {
        if p0 < w.len() {
            lemma_first_char_not_name(c, rest1);
            assert(w[p0] == rest1[0]);
        }
    }
    if c.class is Some {
        let d = c.class->0@;
        assert(w[p1] == k[0]);
        assert forall|q: int| p1 + 1 <= q < p2 implies is_name_char(#[trigger] w[q]) by {
            assert(w[q] == k[q - p1]);
            assert(k[q - p1] == d[q - p1 - 1]);
        }
        if p2 < w.len() {
            lemma_first_char_not_name(c, a);
            assert(w[p2] == a[0]);
        }
        assert(w.subrange(p1 + 1, p2) =~= d) by {
            assert forall|q: int| 0 <= q < d.len() implies w.subrange(p1 + 1, p2)[q] == d[q] by {
                assert(w[p1 + 1 + q] == k[1 + q]);
            }
        }
    } else {
        if p1 < w.len() {
            lemma_first_char_not_name(c, a);
            assert(w[p1] == a[0]);
        }
    }
    assert(w.subrange(p2, w.len() as int) =~= a);
    if c.tag is Some {
        assert(t.len() > 0);
    }
}

/// Each stage of reading a well-formed compound's text finds that
/// compound's part.
proof fn lemma_parse_agrees(
    w: Seq<char>,
    c: Compound,
    i0: int,
    tag: Option<String>,
    r1: Option<(Option<String>, usize)>,
    r2: Option<(Option<String>, usize)>,
    r3: Option<(Option<(String, Option<String>)>, usize)>,
)
    requires
        compound_ok(c),
        render_compound(c) == w,
        run_end(w, 0, i0),
        tag is Some <==> i0 > 0,
        tag matches Some(t) ==> t@ == w.subrange(0, i0),
        marked_read(w, i0, '#', r1),
        r1 matches Some((_, i1)) ==> marked_read(w, i1 as int, '.', r2),
        r2 matches Some((_, i2)) ==> attribute_read(w, i2 as int, r3),
    ensures
        compound_view(Compound { tag, id: None, class: None, attribute: None }).0 == compound_view(c).0,
        r1 matches Some((id, _)) && compound_view(Compound { tag: None, id, class: None, attribute: None }).1
            == compound_view(c).1,
        r2 matches Some((class, _)) && compound_view(Compound { tag: None, id: None, class, attribute: None }).2
            == compound_view(c).2,
        r3 matches Some((a, i3)) && i3 == w.len() && attribute_view(a) == attribute_view(c.attribute),
        w.len() > 0,
{
    lemma_compound_layout(w, c);
    let p0 = opt_text(c.tag).len() as int;
    let p1 = p0 + prefixed('#', c.id).len();
    let p2 = p1 + prefixed('.', c.class).len();
    lemma_run_end_unique(w, 0, i0, p0);
    if c.tag is Some {
        assert(tag->0@ == c.tag->0@);
    }
    if c.id is Some {
        if r1 is None {
            lemma_run_end_unique(w, p0 + 1, p0 + 1, p1);
        }
        let j = (r1->0).1 as int;
        lemma_run_end_unique(w, p0 + 1, j, p1);
        let o = (r1->0).0->0@;
        assert(w.subrange(p0, p1) == seq!['#'] + o);
        assert(o =~= w.subrange(p0 + 1, p1)) by {
            assert forall|q: int| 0 <= q < o.len() implies o[q] == w.subrange(p0 + 1, p1)[q] by {
                assert(w.subrange(p0, p1)[q + 1] == o[q]);
            }
        }
    }
    let i1 = (r1->0).1 as int;
    assert(i1 == p1);
    if c.class is Some {
        if r2 is None {
            lemma_run_end_unique(w, p1 + 1, p1 + 1, p2);
        }
        let j = (r2->0).1 as int;
        lemma_run_end_unique(w, p1 + 1, j, p2);
        let o = (r2->0).0->0@;
        assert(w.subrange(p1, p2) == seq!['.'] + o);
        assert(o =~= w.subrange(p1 + 1, p2)) by {
            assert forall|q: int| 0 <= q < o.len() implies o[q] == w.subrange(p1 + 1, p2)[q] by {
                assert(w.subrange(p1, p2)[q + 1] == o[q]);
            }
        }
    }
    let i2 = (r2->0).1 as int;
    assert(i2 == p2);
    if c.attribute is Some {
        assert(attribute_text(c.attribute) == attribute_text(c.attribute));
    }
}

/// Reads one compound selector written in canonical form; none when `w`
/// is not one. Every well-formed compound selector reads back from its
/// canonical text.
#[verifier::spinoff_prover]
pub fn parse_compound(w: &Vec<char>) -> (r: Option<Compound>)
    ensures
        r matches Some(c) ==> render_compound(c) == w@ && compound_ok(c),
        forall|c: Compound| compound_ok(c) && #[trigger] render_compound(c) == w@
            ==> (r matches Some(d) && compound_view(d) == compound_view(c)),
{
    let n = w.len();
    let i0: usize = read_name(w, 0);
    let tag = if i0 > 0 { Some(slice_string(w, 0, i0)) } else { None };
    assert(opt_text(tag) =~= w@.subrange(0, i0 as int));
    proof {
        if i0 > 0 {
            assert forall|k: int| 0 <= k < tag->0@.len() implies is_name_char(#[trigger] tag->0@[k]) by {
                assert(tag->0@[k] == w@[k]);
            }
        }
    }
    let r1 = read_marked(w, i0, '#');
    let (id, i1) = match r1 {
        Some(x) => x,
        None => {
            proof {
                assert forall|c: Compound| compound_ok(c) && #[trigger] render_compound(c) == w@ implies false by {
                    lemma_parse_agrees(w@, c, i0 as int, tag, r1, None, None);
                }
            }
            return None;
        },
    };
    let r2 = read_marked(w, i1, '.');
    let (class, i2) = match r2 {
        Some(x) => x,
        None => {
            proof {
                assert forall|c: Compound| compound_ok(c) && #[trigger] render_compound(c) == w@ implies false by {
                    lemma_parse_agrees(w@, c, i0 as int, tag, r1, r2, None);
                }
            }
            return None;
        },
    };
    let r3 = read_attribute(w, i2);
    let (attribute, i3) = match r3 {
        Some(x) => x,
        None => {
            proof {
                assert forall|c: Compound| compound_ok(c) && #[trigger] render_compound(c) == w@ implies false by {
                    lemma_parse_agrees(w@, c, i0 as int, tag, r1, r2, r3);
                }
            }
            return None;
        },
    };
    if i3 != n || n == 0 {
        proof {
            assert forall|c: Compound| compound_ok(c) && #[trigger] render_compound(c) == w@ implies false by {
                lemma_parse_agrees(w@, c, i0 as int, tag, r1, r2, r3);
            }
        }
        return None;
    }
    let c = Compound { tag, id, class, attribute };
    proof {
        assert(w@.subrange(0, i1 as int) =~= w@.subrange(0, i0 as int) + w@.subrange(i0 as int, i1 as int));
        assert(w@.subrange(0, i2 as int) =~= w@.subrange(0, i1 as int) + w@.subrange(i1 as int, i2 as int));
        assert(w@.subrange(0, i3 as int) =~= w@.subrange(0, i2 as int) + w@.subrange(i2 as int, i3 as int));
        assert(render_compound(c) == opt_text(c.tag) + prefixed('#', c.id) + prefixed('.', c.class) + attribute_text(c.attribute));
        assert(w@.subrange(0, n as int) =~= w@);
        assert forall|x: Compound| compound_ok(x) && #[trigger] render_compound(x) == w@ implies compound_view(c) == compound_view(x) by {
            lemma_parse_agrees(w@, x, i0 as int, tag, r1, r2, r3);
        }
    }
    Some(c)
}

/// A selector that can be written in canonical form: at least one
/// compound, each well formed.
pub open spec fn chain_ok(ch: Seq<Compound>) -> bool {
    ch.len() > 0 && forall|t: int| 0 <= t < ch.len() ==> compound_ok(#[trigger] ch[t])
}

/// Where the `t`-th compound's text starts in the canonical text.
pub open spec fn word_offset(ch: Seq<Compound>, t: int) -> int
    decreases t,
{
    if t <= 0 {
        0
    } else {
        word_offset(ch, t - 1) + render_compound(ch[t - 1]).len() + 1
    }
}

proof fn lemma_no_space(c: Compound)
    requires
        compound_ok(c),
    ensures
        forall|k: int| 0 <= k < render_compound(c).len() ==> #[trigger] render_compound(c)[k] != ' ',
{
    let t = opt_text(c.tag);
    let i = prefixed('#', c.id);
    let k = prefixed('.', c.class);
    let a = attribute_text(c.attribute);
    let w = render_compound(c);
    assert(w =~= t + (i + (k + a)));
    assert forall|q: int| 0 <= q < w.len() implies #[trigger] w[q] != ' ' by {
        if q < t.len() {
            assert(w[q] == t[q]);
            assert(is_name_char(t[q]));
        } else if q < t.len() + i.len() {
            let r = q - t.len();
            assert(w[q] == i[r]);
            if r > 0 {
                assert(i[r] == (c.id->0)@[r - 1]);
                assert(is_name_char((c.id->0)@[r - 1]));
            }
        } else if q < t.len() + i.len() + k.len() {
            let r = q - t.len() - i.len();
            assert(w[q] == k[r]);
            if r > 0 {
                assert(k[r] == (c.class->0)@[r - 1]);
                assert(is_name_char((c.class->0)@[r - 1]));
            }
        } else {
            let r = q - t.len() - i.len() - k.len();
            assert(w[q] == a[r]);
            let n = ((c.attribute->0).0)@;
            if 1 <= r < 1 + n.len() {
                assert(a[r] == n[r - 1]);
                assert(is_name_char(n[r - 1]));
            } else if (c.attribute->0).1 is Some {
                let v = ((c.attribute->0).1->0)@;
                if 3 + n.len() <= r < 3 + n.len() + v.len() {
                    assert(a[r] == v[r - 3 - n.len()]);
                }
            }
        }
    }
}

proof fn lemma_offset_prefix(ch: Seq<Compound>, t: int)
    requires
        0 <= t < ch.len(),
    ensures
        word_offset(ch.drop_last(), t) == word_offset(ch, t),
    decreases t,
{
    if t > 0 {
        lemma_offset_prefix(ch, t - 1);
        assert(ch.drop_last()[t - 1] == ch[t - 1]);
    }
}

/// Where each compound's text lies in the canonical text of a selector.
#[verifier::spinoff_prover]
proof fn lemma_selector_layout(ch: Seq<Compound>)
    requires
        chain_ok(ch),
    ensures
        forall|t: int| 0 <= t < ch.len() ==> {
            let o = word_offset(ch, t);
            let rt = render_compound(#[trigger] ch[t]);
            &&& 0 <= o
            &&& o + rt.len() <= render_selector(ch).len()
            &&& render_selector(ch).subrange(o, o + rt.len()) == rt
            &&& (t + 1 < ch.len() ==> o + rt.len() < render_selector(ch).len() && render_selector(ch)[o + rt.len()] == ' ')
            &&& (t + 1 == ch.len() ==> o + rt.len() == render_selector(ch).len())
        },
    decreases ch.len(),
{
    if ch.len() == 1 {
        assert(render_selector(ch) == render_compound(ch[0]));
        assert(render_selector(ch).subrange(0, render_compound(ch[0]).len() as int) =~= render_compound(ch[0]));
    } else {
        let d = ch.drop_last();
        assert forall|t: int| 0 <= t < d.len() implies compound_ok(#[trigger] d[t]) by {
            assert(d[t] == ch[t]);
        }
        lemma_selector_layout(d);
        let rd = render_selector(d);
        let last = ch.last();
        let full = render_selector(ch);
        assert(full == rd + seq![' '] + render_compound(last));
        assert forall|t: int| 0 <= t < ch.len() implies {
            let o = word_offset(ch, t);
            let rt = render_compound(#[trigger] ch[t]);
            &&& 0 <= o
            &&& o + rt.len() <= full.len()
            &&& full.subrange(o, o + rt.len()) == rt
            &&& (t + 1 < ch.len() ==> o + rt.len() < full.len() && full[o + rt.len()] == ' ')
            &&& (t + 1 == ch.len() ==> o + rt.len() == full.len())
        } by {
            if t < d.len() {
                lemma_offset_prefix(ch, t);
                assert(d[t] == ch[t]);
                let o = word_offset(ch, t);
                let rt = render_compound(ch[t]);
                assert(full.subrange(o, o + rt.len()) =~= rd.subrange(o, o + rt.len()));
                if t + 1 < d.len() {
                    assert(full[o + rt.len()] == rd[o + rt.len()]);
                } else {
                    assert(full[o + rt.len()] == ' ');
                }
            } else {
                lemma_offset_prefix(ch, t - 1);
                assert(d[t - 1] == ch[t - 1]);
                assert(word_offset(ch, t) == rd.len() + 1);
                assert(ch[t] == last);
                assert(full.subrange(rd.len() as int + 1, full.len() as int) =~= render_compound(last));
            }
        }
    }
}

/// The word that starts at the `t`-th compound's offset and runs to the
/// next space is that compound's text.
#[verifier::spinoff_prover]
proof fn lemma_word_at(c: Seq<char>, ch: Seq<Compound>, t: int, start: int, end: int)
    requires
        chain_ok(ch),
        render_selector(ch) == c,
        0 <= t < ch.len(),
        start == word_offset(ch, t),
        start <= end <= c.len(),
        forall|k: int| start <= k < end ==> #[trigger] c[k] != ' ',
        end < c.len() ==> c[end] == ' ',
    ensures
        end == word_offset(ch, t) + render_compound(ch[t]).len(),
        c.subrange(start, end) == render_compound(ch[t]),
        compound_ok(ch[t]),
        end == c.len() <==> t + 1 == ch.len(),
{
    let o = word_offset(ch, t);
    let rt = render_compound(ch[t]);
    assert(0 <= o && o + rt.len() <= c.len() && c.subrange(o, o + rt.len()) == rt
        && (t + 1 < ch.len() ==> o + rt.len() < c.len() && c[o + rt.len()] == ' ') && (t + 1 == ch.len() ==> o + rt.len() == c.len())) by {
        lemma_selector_layout(ch);
    }
    assert(compound_ok(ch[t]));
    assert(forall|k: int| 0 <= k < rt.len() ==> #[trigger] rt[k] != ' ') by {
        lemma_no_space(ch[t]);
    }
    let sub = c.subrange(o, o + rt.len());
    if end < o + rt.len() {
        assert(c[end] == sub[end - o]);
        assert(rt[end - o] != ' ');
    } else if end > o + rt.len() {
        assert(c[o + rt.len()] != ' ');
    }
}

/// Whether `v` holds the same compounds as `ch`.
pub open spec fn same_chain(v: Seq<Compound>, ch: Seq<Compound>) -> bool {
    v.len() == ch.len() && forall|t: int| 0 <= t < ch.len() ==> compound_view(#[trigger] v[t]) == compound_view(ch[t])
}

/// Reads a selector written in canonical form: compounds separated by
/// single spaces, each an ancestor of the next. None when `s` is not one;
/// every well-formed selector reads back from its canonical text.
#[verifier::rlimit(60)]
#[verifier::spinoff_prover]
pub fn parse_selector(s: &str) -> (r: Option<Vec<Compound>>)
    ensures
        r matches Some(chain) ==> chain@.len() > 0 && render_selector(chain@) == s@,
        forall|ch: Seq<Compound>| chain_ok(ch) && #[trigger] render_selector(ch) == s@ ==> (r matches Some(v)
            && same_chain(v@, ch)),
{
    let c = crate::text::chars_of(s);
    let n = c.len();
    let mut chain: Vec<Compound> = Vec::new();
    let mut start: usize = 0;
    loop
        invariant
            n == c@.len(),
            c@ == s@,
            start <= n,
            chain@.len() == 0 ==> start == 0,
            chain@.len() > 0 ==> start > 0 && c@[start - 1] == ' ' && render_selector(chain@) == c@.subrange(0, start - 1),
            forall|ch: Seq<Compound>| chain_ok(ch) && #[trigger] render_selector(ch) == s@ ==> {
                &&& chain@.len() < ch.len()
                &&& start == word_offset(ch, chain@.len() as int)
                &&& forall|t: int| 0 <= t < chain@.len() ==> compound_view(#[trigger] chain@[t]) == compound_view(ch[t])
            },
        decreases n - start,
    {
        let mut end = start;
        while end < n && c[end] != ' '
            invariant
                start <= end <= n,
                n == c@.len(),
                forall|k: int| start <= k < end ==> #[trigger] c@[k] != ' ',
            decreases n - end,
        {
            end = end + 1;
        }
        let mut word: Vec<char> = Vec::new();
        let mut k = start;
        while k < end
            invariant
                start <= k <= end,
                end <= n,
                n == c@.len(),
                word@ == c@.subrange(start as int, k as int),
            decreases end - k,
        {
            word.push(c[k]);
            k = k + 1;
            assert(word@ =~= c@.subrange(start as int, k as int));
        }
        proof {
            assert forall|ch: Seq<Compound>| chain_ok(ch) && #[trigger] render_selector(ch) == s@ implies ({
                let t = chain@.len() as int;
                &&& end == word_offset(ch, t) + render_compound(ch[t]).len()
                &&& word@ == render_compound(ch[t])
                &&& compound_ok(ch[t])
                &&& (end == n <==> t + 1 == ch.len())
            }) by {
                lemma_word_at(c@, ch, chain@.len() as int, start as int, end as int);
                assert(word@ =~= c@.subrange(start as int, end as int));
            }
        }
        let x = match parse_compound(&word) {
            Some(x) => x,
            None => {
                return None;
            },
        };
        let ghost before = chain@;
        chain.push(x);
        proof {
            if before.len() == 0 {
                assert(chain@ =~= seq![x]);
                assert(render_selector(chain@) == render_compound(x));
                assert(c@.subrange(0, end as int) =~= c@.subrange(start as int, end as int));
            } else {
                assert(chain@.drop_last() =~= before);
                assert(chain@.last() == x);
                assert(c@.subrange(0, end as int) =~= c@.subrange(0, start - 1) + seq![' '] + c@.subrange(start as int, end as int));
            }
            assert forall|ch: Seq<Compound>| chain_ok(ch) && #[trigger] render_selector(ch) == s@ implies
                forall|t: int| 0 <= t < chain@.len() ==> compound_view(#[trigger] chain@[t]) == compound_view(ch[t]) by {
                assert forall|t: int| 0 <= t < chain@.len() implies compound_view(#[trigger] chain@[t]) == compound_view(ch[t]) by {
                    if t < before.len() {
                        assert(chain@[t] == before[t]);
                    }
                }
            }
        }
        if end == n {
            assert(c@.subrange(0, end as int) =~= c@);
            return Some(chain);
        }
        start = end + 1;
    }
}

/// A copy of a compound selector.
pub fn copy_compound(c: &Compound) -> (r: Compound)
    ensures
        r == *c,
{
    let attribute = match &c.attribute {
        Some((n, v)) => Some((n.clone(), crate::text::copy_opt(v))),
        None => None,
    };
    Compound {
        tag: crate::text::copy_opt(&c.tag),
        id: crate::text::copy_opt(&c.id),
        class: crate::text::copy_opt(&c.class),
        attribute,
    }
}

/// The first `k` compounds of a selector.
pub fn prefix_of(chain: &[Compound], k: usize) -> (r: Vec<Compound>)
    requires
        k <= chain@.len(),
    ensures
        r@ == chain@.subrange(0, k as int),
{
    let mut r: Vec<Compound> = Vec::new();
    let mut m: usize = 0;
    while m < k
        invariant
            m <= k,
            k <= chain@.len(),
            r@ == chain@.subrange(0, m as int),
        decreases k - m,
    {
        r.push(copy_compound(&chain[m]));
        m = m + 1;
        assert(r@ =~= chain@.subrange(0, m as int));
    }
    r
}

impl Document {
    /// An empty document.
    pub fn new() -> (r: Document)
        ensures
            r.nodes@.len() == 0,
            r.open@.len() == 0,
    {
        Document { nodes: Vec::new(), open: Vec::new() }
    }

    /// Opens an element; the nodes that follow, up to the matching
    /// `close_element`, are its descendants.
    pub fn open_element(&mut self, name: &str, attributes: Vec<(String, String)>, classes: Vec<String>)
        requires
            old(self).nodes@.len() < usize::MAX,
        ensures
            final(self).nodes@.len() == old(self).nodes@.len() + 1,
            final(self).nodes@.drop_last() == old(self).nodes@,
            final(self).nodes@.last().kind == NodeKind::Element,
            final(self).nodes@.last().name@ == name@,
            final(self).nodes@.last().attributes == attributes,
            final(self).nodes@.last().classes == classes,
            final(self).open@ == old(self).open@.push(old(self).nodes@.len() as usize),
    {
        let i = self.nodes.len();
        let node = DomNode {
            kind: NodeKind::Element,
            name: name.to_string(),
            attributes,
            classes,
            text: String::new(),
            end: i + 1,
        };
        self.nodes.push(node);
        self.open.push(i);
        assert(self.nodes@.drop_last() =~= old(self).nodes@);
    }

    /// Adds a text node under the innermost open element.
    pub fn push_text(&mut self, text: &str)
        requires
            old(self).nodes@.len() < usize::MAX,
        ensures
            final(self).nodes@.len() == old(self).nodes@.len() + 1,
            final(self).nodes@.drop_last() == old(self).nodes@,
            final(self).nodes@.last().kind == NodeKind::Text,
            final(self).nodes@.last().text@ == text@,
            final(self).open == old(self).open,
    {
        let i = self.nodes.len();
        let node = DomNode {
            kind: NodeKind::Text,
            name: String::new(),
            attributes: Vec::new(),
            classes: Vec::new(),
            text: text.to_string(),
            end: i + 1,
        };
        self.nodes.push(node);
        assert(self.nodes@.drop_last() =~= old(self).nodes@);
    }

    /// Closes the innermost open element: its subtree ends here. Does
    /// nothing when no element is open.
    pub fn close_element(&mut self)
        ensures
            final(self).nodes@.len() == old(self).nodes@.len(),
            old(self).open@.len() == 0 ==> *final(self) == *old(self),
            old(self).open@.len() > 0 ==> final(self).open@ == old(self).open@.drop_last(),
            forall|k: int|
                0 <= k < old(self).nodes@.len() && (old(self).open@.len() == 0
                    || k != old(self).open@.last()) ==> #[trigger] final(self).nodes@[k]
                    == old(self).nodes@[k],
            old(self).open@.len() > 0 && old(self).open@.last() < old(self).nodes@.len()
                ==> final(self).nodes@[old(self).open@.last() as int].end
                == old(self).nodes@.len(),
    {
        if self.open.len() == 0 {
            return;
        }
        match self.open.pop() {
            Some(i) => {
                if i < self.nodes.len() {
                    let n = self.nodes.len();
                    let mut node = self.nodes.remove(i);
                    node.end = n;
                    self.nodes.insert(i, node);
                }
            },
            None => {},
        }
    }
}

} // verus!
