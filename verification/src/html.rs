//! The element-tree model of a parsed HTML document, the document-order
//! search the anchor resolver runs over it, the one-shot marker synthesis,
//! and the trusted boundary to the HTML parser.
//!
//! Search order is an explicit contract here: the first match in genuine
//! document order wins, both in the specification and in the executable
//! search.

use vstd::prelude::*;

use crate::dom::{SourceCharacter, SourceDocument, TagSpan};

verus! {

/// One element as the parser reports it: tag name, void flag, attributes
/// other than `class` (in the order the parser's map hands them out),
/// classes, source span, and children.
pub struct HtmlElement {
    pub name: Vec<u8>,
    pub void: bool,
    pub attrs: Vec<(Vec<u8>, Option<Vec<u8>>)>,
    pub classes: Vec<Vec<u8>>,
    pub span: TagSpan,
    pub children: Vec<HtmlNode>,
}

/// One node of the tree.
pub enum HtmlNode {
    Element(HtmlElement),
    Text(Vec<u8>),
    Comment(Vec<u8>),
}

/// ASCII lower-casing of one byte.
pub open spec fn lower(b: u8) -> u8 {
    if 65 <= b <= 90 {
        (b + 32) as u8
    } else {
        b
    }
}

/// ASCII lower-casing of a byte string.
pub open spec fn lower_bytes(s: Seq<u8>) -> Seq<u8> {
    s.map_values(|b: u8| lower(b))
}

/// The UTF-8 bytes of a character sequence.
pub open spec fn chars_bytes(s: Seq<char>) -> Seq<u8> {
    vstd::utf8::encode_utf8(s)
}

/// The value of the first attribute named `key`, if any.
pub open spec fn spec_attr_value(attrs: Seq<(Vec<u8>, Option<Vec<u8>>)>, key: Seq<u8>) -> Option<
    Option<Vec<u8>>,
>
    decreases attrs.len(),
{
    if attrs.len() == 0 {
        None
    } else if attrs[0].0@ == key {
        Some(attrs[0].1)
    } else {
        spec_attr_value(attrs.drop_first(), key)
    }
}

/// The element carries `id` with exactly this value.
pub open spec fn spec_has_id(attrs: Seq<(Vec<u8>, Option<Vec<u8>>)>, id: Seq<u8>) -> bool {
    match spec_attr_value(attrs, chars_bytes("id"@)) {
        Some(v) => match v {
            Some(bytes) => bytes@ == id,
            None => false,
        },
        None => false,
    }
}

/// What the resolver searches for.
pub ghost enum GSelector {
    /// An element whose name ASCII-lower-cases to this.
    Name(Seq<u8>),
    /// An element whose `id` attribute equals this.
    Id(Seq<u8>),
    /// Both at once.
    NameId(Seq<u8>, Seq<u8>),
}

/// Executable selector; `view` gives its specification counterpart.
pub enum Selector {
    Name(Vec<u8>),
    Id(Vec<u8>),
    NameId(Vec<u8>, Vec<u8>),
}

impl Selector {
    pub open spec fn view(&self) -> GSelector {
        match self {
            Selector::Name(n) => GSelector::Name(n@),
            Selector::Id(i) => GSelector::Id(i@),
            Selector::NameId(n, i) => GSelector::NameId(n@, i@),
        }
    }
}

/// The element matches the selector.
pub open spec fn spec_sel_matches(e: HtmlElement, sel: GSelector) -> bool {
    match sel {
        GSelector::Name(n) => lower_bytes(e.name@) == n,
        GSelector::Id(id) => spec_has_id(e.attrs@, id),
        GSelector::NameId(n, id) => lower_bytes(e.name@) == n && spec_has_id(e.attrs@, id),
    }
}

/// The first match in document order among the nodes, leftmost subtree
/// first.
pub open spec fn spec_find_nodes(nodes: Seq<HtmlNode>, sel: GSelector) -> Option<HtmlElement>
    decreases nodes,
{
    if nodes.len() == 0 {
        None
    } else {
        match spec_find_node(nodes[0], sel) {
            Some(e) => Some(e),
            None => spec_find_nodes(nodes.drop_first(), sel),
        }
    }
}

/// The first match in document order within one node: the node itself, then
/// its subtree.
pub open spec fn spec_find_node(node: HtmlNode, sel: GSelector) -> Option<HtmlElement>
    decreases node,
{
    match node {
        HtmlNode::Element(e) => if spec_sel_matches(e, sel) {
            Some(e)
        } else {
            spec_find_nodes(e.children@, sel)
        },
        _ => None,
    }
}

fn bytes_eq(a: &Vec<u8>, b: &Vec<u8>) -> (r: bool)
    ensures
        r == (a@ == b@),
{
    if a.len() != b.len() {
        return false;
    }
    let mut i: usize = 0;
    while i < a.len()
        invariant
            a@.len() == b@.len(),
            i <= a@.len(),
            forall|k: int| 0 <= k < i ==> a@[k] == b@[k],
        decreases a@.len() - i,
    {
        if a[i] != b[i] {
            return false;
        }
        i += 1;
    }
    proof {
        assert(a@ =~= b@);
    }
    true
}

/// Does `a` ASCII-lower-case to `b`?
fn lower_eq(a: &Vec<u8>, b: &Vec<u8>) -> (r: bool)
    ensures
        r == (lower_bytes(a@) == b@),
{
    if a.len() != b.len() {
        proof {
            assert(lower_bytes(a@).len() == a@.len());
        }
        return false;
    }
    let mut i: usize = 0;
    while i < a.len()
        invariant
            a@.len() == b@.len(),
            i <= a@.len(),
            forall|k: int| 0 <= k < i ==> lower(a@[k]) == b@[k],
        decreases a@.len() - i,
    {
        let c = a[i];
        let lc: u8 = if c >= 65 && c <= 90 {
            c + 32
        } else {
            c
        };
        if lc != b[i] {
            proof {
                assert(lower_bytes(a@)[i as int] == lower(a@[i as int]));
            }
            return false;
        }
        i += 1;
    }
    proof {
        assert(lower_bytes(a@) =~= b@);
    }
    true
}

fn has_id(attrs: &Vec<(Vec<u8>, Option<Vec<u8>>)>, id: &Vec<u8>) -> (r: bool)
    ensures
        r == spec_has_id(attrs@, id@),
{
    let key = "id".as_bytes_vec();
    let mut i: usize = 0;
    proof {
        assert(attrs@.skip(0) =~= attrs@);
    }
    while i < attrs.len()
        invariant
            key@ == chars_bytes("id"@),
            i <= attrs@.len(),
            spec_attr_value(attrs@, key@) == spec_attr_value(attrs@.skip(i as int), key@),
        decreases attrs@.len() - i,
    {
        proof {
            assert(attrs@.skip(i as int)[0] == attrs@[i as int]);
            assert(attrs@.skip(i as int).drop_first() =~= attrs@.skip(i + 1));
        }
        if bytes_eq(&attrs[i].0, &key) {
            return match &attrs[i].1 {
                Some(v) => bytes_eq(v, id),
                None => false,
            };
        }
        i += 1;
    }
    proof {
        assert(attrs@.skip(attrs@.len() as int) =~= Seq::<(Vec<u8>, Option<Vec<u8>>)>::empty());
    }
    false
}

/// Does the element match the selector?
fn sel_matches(e: &HtmlElement, sel: &Selector) -> (r: bool)
    ensures
        r == spec_sel_matches(*e, sel.view()),
{
    match sel {
        Selector::Name(n) => lower_eq(&e.name, n),
        Selector::Id(id) => has_id(&e.attrs, id),
        Selector::NameId(n, id) => lower_eq(&e.name, n) && has_id(&e.attrs, id),
    }
}

/// Find the first matching element among the nodes, in document order.
pub fn find_in_nodes<'a>(nodes: &'a Vec<HtmlNode>, sel: &Selector) -> (r: Option<&'a HtmlElement>)
    ensures
        match r {
            Some(e) => spec_find_nodes(nodes@, sel.view()) == Some(*e),
            None => spec_find_nodes(nodes@, sel.view()) is None,
        },
    decreases nodes@,
{
    let mut i: usize = 0;
    proof {
        assert(nodes@.skip(0) =~= nodes@);
    }
    while i < nodes.len()
        invariant
            i <= nodes@.len(),
            spec_find_nodes(nodes@, sel.view()) == spec_find_nodes(
                nodes@.skip(i as int),
                sel.view(),
            ),
        decreases nodes@.len() - i,
    {
        proof {
            assert(nodes@.skip(i as int)[0] == nodes@[i as int]);
            assert(nodes@.skip(i as int).drop_first() =~= nodes@.skip(i + 1));
        }
        let found = find_in_node(&nodes[i], sel);
        if found.is_some() {
            return found;
        }
        i += 1;
    }
    proof {
        assert(nodes@.skip(nodes@.len() as int) =~= Seq::<HtmlNode>::empty());
    }
    None
}

/// Find the first matching element within one node, in document order.
pub fn find_in_node<'a>(node: &'a HtmlNode, sel: &Selector) -> (r: Option<&'a HtmlElement>)
    ensures
        match r {
            Some(e) => spec_find_node(*node, sel.view()) == Some(*e),
            None => spec_find_node(*node, sel.view()) is None,
        },
    decreases *node,
{
    match node {
        HtmlNode::Element(e) => {
            if sel_matches(e, sel) {
                Some(e)
            } else {
                find_in_nodes(&e.children, sel)
            }
        },
        _ => None,
    }
}

/// Equal in everything but the children.
pub open spec fn spec_same_but_children(a: HtmlElement, b: HtmlElement) -> bool {
    &&& b.name == a.name
    &&& b.void == a.void
    &&& b.attrs == a.attrs
    &&& b.classes == a.classes
    &&& b.span == a.span
}

/// `new` is `old` with `marker` added to the child list of the first
/// element (in document order) whose name lower-cases to `target`: at the
/// front when `at_front`, else at the back. Everything else is unchanged.
pub open spec fn spec_inserted_nodes(
    old: Seq<HtmlNode>,
    new: Seq<HtmlNode>,
    target: Seq<u8>,
    marker: HtmlNode,
    at_front: bool,
) -> bool
    decreases old,
{
    &&& old.len() > 0
    &&& new.len() == old.len()
    &&& if spec_find_node(old[0], GSelector::Name(target)) is Some {
        new.drop_first() == old.drop_first() && spec_inserted_node(
            old[0],
            new[0],
            target,
            marker,
            at_front,
        )
    } else {
        new[0] == old[0] && spec_inserted_nodes(
            old.drop_first(),
            new.drop_first(),
            target,
            marker,
            at_front,
        )
    }
}

/// The per-node case of `spec_inserted_nodes`.
pub open spec fn spec_inserted_node(
    old: HtmlNode,
    new: HtmlNode,
    target: Seq<u8>,
    marker: HtmlNode,
    at_front: bool,
) -> bool
    decreases old,
{
    &&& old matches HtmlNode::Element(oe)
    &&& new matches HtmlNode::Element(ne)
    &&& {
        let oe = old->Element_0;
        let ne = new->Element_0;
        &&& spec_same_but_children(oe, ne)
        &&& if lower_bytes(oe.name@) == target {
            ne.children@ == if at_front {
                seq![marker] + oe.children@
            } else {
                oe.children@.push(marker)
            }
        } else {
            spec_inserted_nodes(oe.children@, ne.children@, target, marker, at_front)
        }
    }
}

/// Add `marker` to the child list of the first element in document order
/// named `target`; report whether one was found. The tree is unchanged when
/// none is.
pub fn insert_marker(
    nodes: &mut Vec<HtmlNode>,
    target: &Vec<u8>,
    marker: HtmlNode,
    at_front: bool,
) -> (found: bool)
    ensures
        found == (spec_find_nodes(old(nodes)@, GSelector::Name(target@)) is Some),
        found ==> spec_inserted_nodes(old(nodes)@, final(nodes)@, target@, marker, at_front),
        !found ==> final(nodes)@ == old(nodes)@,
    decreases old(nodes)@,
{
    let mut i: usize = 0;
    proof {
        assert(nodes@.skip(0) =~= nodes@);
    }
    while i < nodes.len()
        invariant
            i <= nodes@.len(),
            nodes@ == old(nodes)@,
            spec_find_nodes(nodes@, GSelector::Name(target@)) == spec_find_nodes(
                nodes@.skip(i as int),
                GSelector::Name(target@),
            ),
            forall|k: int|
                0 <= k < i ==> spec_find_node(
                    nodes@[k],
                    GSelector::Name(target@),
                ) is None,
        decreases nodes@.len() - i,
    {
        proof {
            assert(nodes@.skip(i as int)[0] == nodes@[i as int]);
            assert(nodes@.skip(i as int).drop_first() =~= nodes@.skip(i + 1));
        }
        let hit = find_in_node(&nodes[i], &Selector::Name(copy_bytes(target))).is_some();
        if hit {
            let node = nodes.remove(i);
            proof {
                assert(decreases_to!(old(nodes)@ => old(nodes)@[i as int]));
            }
            let node2 = insert_into_node(node, target, marker, at_front);
            nodes.insert(i, node2);
            proof {
                assert(nodes@ =~= old(nodes)@.update(i as int, node2));
                lemma_inserted_at(old(nodes)@, nodes@, i as int, target@, marker, at_front);
            }
            return true;
        }
        i += 1;
    }
    proof {
        assert(nodes@.skip(nodes@.len() as int) =~= Seq::<HtmlNode>::empty());
    }
    false
}

proof fn lemma_inserted_at(
    old: Seq<HtmlNode>,
    new: Seq<HtmlNode>,
    i: int,
    target: Seq<u8>,
    marker: HtmlNode,
    at_front: bool,
)
    requires
        0 <= i < old.len(),
        new.len() == old.len(),
        forall|k: int| 0 <= k < i ==> spec_find_node(#[trigger] old[k], GSelector::Name(target)) is None,
        forall|k: int| 0 <= k < old.len() && k != i ==> new[k] == old[k],
        spec_find_node(old[i], GSelector::Name(target)) is Some,
        spec_inserted_node(old[i], new[i], target, marker, at_front),
    ensures
        spec_inserted_nodes(old, new, target, marker, at_front),
    decreases i,
{
    if i == 0 {
        assert(new.drop_first() =~= old.drop_first());
    } else {
        assert(new[0] == old[0]);
        assert(old.drop_first()[i - 1] == old[i]);
        assert(forall|k: int|
            0 <= k < i - 1 ==> #[trigger] old.drop_first()[k] == old[k + 1]);
        assert(forall|k: int|
            0 <= k < old.len() - 1 && k != i - 1 ==> #[trigger] new.drop_first()[k]
                == old.drop_first()[k]);
        lemma_inserted_at(old.drop_first(), new.drop_first(), i - 1, target, marker, at_front);
    }
}

/// Add `marker` inside a node known to contain a `target` element.
fn insert_into_node(node: HtmlNode, target: &Vec<u8>, marker: HtmlNode, at_front: bool) -> (r:
    HtmlNode)
    requires
        spec_find_node(node, GSelector::Name(target@)) is Some,
    ensures
        spec_inserted_node(node, r, target@, marker, at_front),
    decreases node,
{
    match node {
        HtmlNode::Element(mut e) => {
            if lower_eq(&e.name, target) {
                let ghost oc = e.children@;
                if at_front {
                    e.children.insert(0, marker);
                    proof {
                        assert(e.children@ =~= seq![marker] + oc);
                    }
                } else {
                    e.children.push(marker);
                }
                HtmlNode::Element(e)
            } else {
                let found = insert_marker(&mut e.children, target, marker, at_front);
                assert(found);
                HtmlNode::Element(e)
            }
        },
        n => {
            proof {
                assert(false);
            }
            n
        },
    }
}

/// Occurrences of `>` among the first `n` bytes.
pub open spec fn gt_upto(s: Seq<u8>, n: int) -> int
    decreases n,
{
    if n <= 0 {
        0
    } else {
        gt_upto(s, n - 1) + if s[n - 1] == 62u8 {
            1int
        } else {
            0int
        }
    }
}

/// Occurrences of `>` in the whole byte string.
pub open spec fn count_gt(s: Seq<u8>) -> int {
    gt_upto(s, s.len() as int)
}

/// Occurrences of `>` in one attribute's name and value.
pub open spec fn pair_gt(p: (Vec<u8>, Option<Vec<u8>>)) -> int {
    count_gt(p.0@) + match p.1 {
        Some(v) => count_gt(v@),
        None => 0,
    }
}

/// Occurrences of `>` across all attribute names and values.
pub open spec fn attrs_gt(attrs: Seq<(Vec<u8>, Option<Vec<u8>>)>) -> int
    decreases attrs.len(),
{
    if attrs.len() == 0 {
        0
    } else {
        pair_gt(attrs[0]) + attrs_gt(attrs.drop_first())
    }
}

proof fn lemma_gt_upto_bounds(s: Seq<u8>, n: int)
    requires
        0 <= n,
    ensures
        0 <= gt_upto(s, n) <= n,
    decreases n,
{
    if n > 0 {
        lemma_gt_upto_bounds(s, n - 1);
    }
}

proof fn lemma_attrs_gt_nonneg(attrs: Seq<(Vec<u8>, Option<Vec<u8>>)>)
    ensures
        attrs_gt(attrs) >= 0,
    decreases attrs.len(),
{
    if attrs.len() > 0 {
        lemma_gt_upto_bounds(attrs[0].0@, attrs[0].0@.len() as int);
        match attrs[0].1 {
            Some(v) => {
                lemma_gt_upto_bounds(v@, v@.len() as int);
            },
            None => {},
        }
        lemma_attrs_gt_nonneg(attrs.drop_first());
    }
}

proof fn lemma_attrs_gt_split(attrs: Seq<(Vec<u8>, Option<Vec<u8>>)>, j: int)
    requires
        0 <= j < attrs.len(),
    ensures
        attrs_gt(attrs) == attrs_gt(attrs.take(j)) + pair_gt(attrs[j]) + attrs_gt(
            attrs.skip(j + 1),
        ),
    decreases j,
{
    if j == 0 {
        assert(attrs.take(0) =~= Seq::<(Vec<u8>, Option<Vec<u8>>)>::empty());
        assert(attrs.drop_first() =~= attrs.skip(1));
    } else {
        assert(attrs.drop_first() =~= attrs.skip(1));
        lemma_attrs_gt_split(attrs.drop_first(), j - 1);
        assert(attrs.drop_first().take(j - 1) =~= attrs.take(j).drop_first());
        assert(attrs.drop_first()[j - 1] == attrs[j]);
        assert(attrs.drop_first().skip(j) =~= attrs.skip(j + 1));
    }
}

/// Count `>` bytes in a buffer.
fn count_gt_bytes(v: &Vec<u8>) -> (r: usize)
    ensures
        r == count_gt(v@),
{
    let mut r: usize = 0;
    let mut i: usize = 0;
    while i < v.len()
        invariant
            i <= v@.len(),
            r == gt_upto(v@, i as int),
            r <= i,
        decreases v@.len() - i,
    {
        if v[i] == 62u8 {
            r += 1;
        }
        i += 1;
    }
    r
}

/// Count `>` characters across all attribute names and values, bailing out
/// once the count passes `cap`.
fn attrs_gt_count(attrs: &Vec<(Vec<u8>, Option<Vec<u8>>)>, cap: usize) -> (r: Option<usize>)
    ensures
        match r {
            Some(n) => n == attrs_gt(attrs@) && n <= cap,
            None => attrs_gt(attrs@) > cap,
        },
{
    let mut sum: usize = 0;
    let mut j: usize = 0;
    proof {
        assert(attrs@.take(0) =~= Seq::<(Vec<u8>, Option<Vec<u8>>)>::empty());
    }
    while j < attrs.len()
        invariant
            j <= attrs@.len(),
            sum == attrs_gt(attrs@.take(j as int)),
            sum <= cap,
        decreases attrs@.len() - j,
    {
        let mut pair: usize = count_gt_bytes(&attrs[j].0);
        proof {
            lemma_gt_upto_bounds(attrs@[j as int].0@, attrs@[j as int].0@.len() as int);
        }
        match &attrs[j].1 {
            Some(v) => {
                let extra = count_gt_bytes(v);
                proof {
                    lemma_gt_upto_bounds(v@, v@.len() as int);
                }
                if extra > cap || pair > cap - extra {
                    proof {
                        lemma_attrs_gt_split(attrs@, j as int);
                        lemma_attrs_gt_nonneg(attrs@.skip(j + 1));
                        lemma_attrs_gt_nonneg(attrs@.take(j as int));
                    }
                    return None;
                }
                pair = pair + extra;
            },
            None => {},
        }
        if pair > cap - sum {
            proof {
                lemma_attrs_gt_split(attrs@, j as int);
                lemma_attrs_gt_nonneg(attrs@.skip(j + 1));
            }
            return None;
        }
        sum = sum + pair;
        proof {
            lemma_attrs_gt_split(attrs@.take(j + 1), j as int);
            assert(attrs@.take(j + 1).take(j as int) =~= attrs@.take(j as int));
            assert(attrs@.take(j + 1)[j as int] == attrs@[j as int]);
            assert(attrs@.take(j + 1).skip(j + 1) =~= Seq::<(Vec<u8>, Option<Vec<u8>>)>::empty());
        }
        j += 1;
    }
    proof {
        assert(attrs@.take(attrs@.len() as int) =~= attrs@);
    }
    Some(sum)
}

/// The offset just past the closing `>` of the element's opening tag,
/// relative to the element's outer extent: `p` is one past the index of the
/// first `>` not accounted for by the `n` attribute-embedded `>` bytes.
pub open spec fn spec_end_of_start_tag(outer: Seq<u8>, n: int, p: int) -> bool {
    &&& 1 <= p <= outer.len()
    &&& outer[p - 1] == 62u8
    &&& gt_upto(outer, p - 1) == n
}

/// Compute the relative offset just past the `>` that closes the element's
/// opening tag, skipping every `>` that occurs inside attribute names or
/// values. Fails when the outer extent has no such `>`.
pub fn element_end_of_start_tag(doc: &SourceDocument, el: &HtmlElement) -> (r: Option<usize>)
    requires
        doc.wf(),
        doc.char_in_table(el.span.start),
        doc.char_in_table(el.span.end),
        doc.spec_char_offset(el.span.start) <= doc.spec_char_offset(el.span.end),
        doc.spec_char_offset(el.span.end) <= doc.text_view().len(),
    ensures
        r matches Some(p) ==> spec_end_of_start_tag(
            doc.text_view().subrange(
                doc.spec_char_offset(el.span.start),
                doc.spec_char_offset(el.span.end),
            ),
            attrs_gt(el.attrs@),
            p as int,
        ),
        r is None ==> count_gt(
            doc.text_view().subrange(
                doc.spec_char_offset(el.span.start),
                doc.spec_char_offset(el.span.end),
            ),
        ) <= attrs_gt(el.attrs@),
{
    let range = doc.span(el.span);
    let text = doc.text_bytes();
    let outer_vec = crate::compose::copy_range(text, range.start, range.end);
    let ghost outer = doc.text_view().subrange(
        doc.spec_char_offset(el.span.start),
        doc.spec_char_offset(el.span.end),
    );
    let m = count_gt_bytes(&outer_vec);
    let n = match attrs_gt_count(&el.attrs, m) {
        Some(n) => n,
        None => {
            return None;
        },
    };
    let mut count: usize = 0;
    let mut i: usize = 0;
    while i < outer_vec.len()
        invariant
            outer_vec@ == outer,
            outer == doc.text_view().subrange(
                doc.spec_char_offset(el.span.start),
                doc.spec_char_offset(el.span.end),
            ),
            i <= outer.len(),
            count == gt_upto(outer, i as int),
            n == attrs_gt(el.attrs@),
            count <= i,
            count <= n,
        decreases outer.len() - i,
    {
        if outer_vec[i] == 62u8 {
            if count == n {
                return Some(i + 1);
            }
            count += 1;
        }
        i += 1;
    }
    proof {
        lemma_gt_upto_bounds(outer, outer.len() as int);
    }
    None
}

/// An empty element named `name`, carrying only `id=\u{60}id\u{60}`, as synthesis
/// appends it.
pub open spec fn spec_is_marker(n: HtmlNode, name: Seq<u8>, id: Seq<u8>) -> bool {
    &&& n matches HtmlNode::Element(e)
    &&& {
        let e = n->Element_0;
        &&& e.name@ == name
        &&& !e.void
        &&& e.attrs@.len() == 1
        &&& e.attrs@[0].0@ == chars_bytes("id"@)
        &&& e.attrs@[0].1 matches Some(v) && v@ == id
        &&& e.classes@.len() == 0
        &&& e.children@.len() == 0
    }
}

/// Build a synthesized marker element.
pub fn make_marker(name: &str, id: &str, span: TagSpan) -> (r: HtmlNode)
    ensures
        spec_is_marker(r, chars_bytes(name@), chars_bytes(id@)),
{
    HtmlNode::Element(
        HtmlElement {
            name: name.as_bytes_vec(),
            void: false,
            attrs: vec![("id".as_bytes_vec(), Some(id.as_bytes_vec()))],
            classes: Vec::new(),
            span,
            children: Vec::new(),
        },
    )
}

/// Copy a byte buffer.
fn copy_bytes(v: &Vec<u8>) -> (r: Vec<u8>)
    ensures
        r@ == v@,
{
    let mut r: Vec<u8> = Vec::new();
    let mut i: usize = 0;
    while i < v.len()
        invariant
            i <= v@.len(),
            r@ == v@.take(i as int),
        decreases v@.len() - i,
    {
        r.push(v[i]);
        proof {
            assert(r@ =~= v@.take(i + 1));
        }
        i += 1;
    }
    proof {
        assert(v@.take(v@.len() as int) =~= v@);
    }
    r
}

/// The HTML parser's node type, opaque to verification.
#[verifier::external_type_specification]
#[verifier::external_body]
pub struct ExLithtmlNode<'s>(lithtml::Node<'s>);

/// The HTML parser's element type, opaque to verification.
#[verifier::external_type_specification]
#[verifier::external_body]
pub struct ExLithtmlElement<'s>(lithtml::Element<'s>);

/// Whether `outcome` is a possible result of parsing `text`: `None` for a
/// rejection, `Some(nodes)` for this crate's reading of the element tree.
/// The parser's attribute map does not pin an attribute order, so the parse
/// is related to its outcomes rather than named as one fixed tree.
pub uninterp spec fn spec_parse_outcome(text: Seq<u8>, outcome: Option<Seq<HtmlNode>>) -> bool;

/// Converts one parsed node into the model; used only by the parse
/// boundary. Spans come from the parser's source positions; the `class`
/// list stays separate from the other attributes, as the parser keeps it.
#[verifier::external_body]
fn node_from_ext(n: &lithtml::Node) -> (r: HtmlNode)
{
    match n {
        lithtml::Node::Element(e) => HtmlNode::Element(element_from_ext(e)),
        lithtml::Node::Text(t) => HtmlNode::Text(t.as_bytes().to_vec()),
        lithtml::Node::Comment(c) => HtmlNode::Comment(c.as_bytes().to_vec()),
    }
}

/// Converts one parsed element into the model; used only by the parse
/// boundary.
#[verifier::external_body]
fn element_from_ext(e: &lithtml::Element) -> (r: HtmlElement)
{
    HtmlElement {
        name: e.name.as_bytes().to_vec(),
        void: matches!(e.variant, lithtml::ElementVariant::Void),
        attrs: attrs_from_ext(e),
        classes: e.classes.iter().map(|c| c.as_bytes().to_vec()).collect(),
        span: TagSpan {
            start: SourceCharacter { line: e.source_span.start_line, column: e.source_span.start_column },
            end: SourceCharacter { line: e.source_span.end_line, column: e.source_span.end_column } },
        children: e.children.iter().map(node_from_ext).collect(),
    }
}

/// Converts a parsed element's attribute map into pairs of byte strings;
/// used only by the parse boundary.
#[verifier::external_body]
fn attrs_from_ext(e: &lithtml::Element) -> (r: Vec<(Vec<u8>, Option<Vec<u8>>)>)
{
    e.attributes.iter().map(
        |(k, v)| (k.as_bytes().to_vec(), v.as_ref().map(|x| x.as_bytes().to_vec())),
    ).collect()
}

/// Relies on lithtml::Dom::parse: turns document text into an element tree,
/// read into the model by the converters above. Text that is not UTF-8
/// counts as a parse failure.
#[verifier::external_body]
pub fn parse_html(text: &Vec<u8>) -> (r: Result<Vec<HtmlNode>, ()>)
    ensures
        match r {
            Ok(nodes) => spec_parse_outcome(text@, Some(nodes@)),
            Err(_) => spec_parse_outcome(text@, None),
        },
{
    let s = match core::str::from_utf8(text.as_slice()) {
        Ok(s) => s,
        Err(_) => return Err(()),
    };
    match lithtml::Dom::parse(s) {
        Ok(dom) => Ok(dom.children.iter().map(node_from_ext).collect()),
        Err(_) => Err(()),
    }
}

/// What lithtml's serializer prints for a model tree. The printer orders
/// attributes itself, so this is a function of the tree value alone.
pub uninterp spec fn spec_render(nodes: Seq<HtmlNode>) -> Seq<u8>;

/// Converts a model node back into the parser's tree for printing; used
/// only by the render boundary.
#[verifier::external_body]
fn node_to_ext(n: &HtmlNode) -> (r: lithtml::Node<'static>)
{
    match n {
        HtmlNode::Element(e) => lithtml::Node::Element(element_to_ext(e)),
        HtmlNode::Text(t) => lithtml::Node::Text(String::from_utf8_lossy(t).into_owned().into()),
        HtmlNode::Comment(c) => lithtml::Node::Comment(String::from_utf8_lossy(c).into_owned().into()),
    }
}

/// Converts a model element back into the parser's element; used only by
/// the render boundary.
#[verifier::external_body]
fn element_to_ext(e: &HtmlElement) -> (r: lithtml::Element<'static>)
{
    lithtml::Element {
        name: String::from_utf8_lossy(&e.name).into_owned().into(),
        variant: if e.void { lithtml::ElementVariant::Void } else { lithtml::ElementVariant::Normal },
        attributes: e.attrs.iter().map(
            |(k, v)| (String::from_utf8_lossy(k).into_owned().into(), v.as_ref().map(|x| String::from_utf8_lossy(x).into_owned().into())),
        ).collect(),
        classes: e.classes.iter().map(|c| String::from_utf8_lossy(c).into_owned().into()).collect(),
        children: e.children.iter().map(node_to_ext).collect(),
        ..lithtml::Element::default()
    }
}

/// Relies on lithtml's printer (Display for Dom): re-serializes an element
/// tree to document text, deterministically in the tree.
#[verifier::external_body]
pub fn render_html(nodes: &Vec<HtmlNode>) -> (r: Vec<u8>)
    ensures
        r@ == spec_render(nodes@),
{
    let dom = lithtml::Dom {
        tree_type: lithtml::DomVariant::DocumentFragment,
        children: nodes.iter().map(node_to_ext).collect(),
        warnings: vec![],
    };
    dom.to_string().into_bytes()
}

} // verus!
