//! The codec's own document tree: element names, attributes, classes and
//! source spans as plain byte values, so that the anchor searches, the
//! fallback injections and the recovery scan over saved copies are verified
//! logic. Parsing text into this tree and printing it back are the outside
//! parser's work, behind the trusted boundary in the neighbouring module.

use vstd::prelude::*;

use crate::engine::spec_lower_seq;

verus! {

/// A position in the source text, one-based, as the parser reports it.
#[derive(Clone, Copy, Debug, PartialEq, Eq, Structural)]
pub struct SourceCharacter {
    pub line: usize,
    pub column: usize,
}

/// Where an element's text runs in the source, from its opening tag to the
/// end of its closing tag.
#[derive(Clone, Copy, Debug, PartialEq, Eq, Structural)]
pub struct TagSpan {
    pub start: SourceCharacter,
    pub end: SourceCharacter,
}

/// Can the element have children?
#[derive(Clone, Copy, Debug, PartialEq, Eq, Structural)]
pub enum ElementKind {
    Normal,
    Void,
}

/// One attribute: a name, and a value unless the attribute is bare.
pub struct Attribute {
    pub name: Vec<u8>,
    pub value: Option<Vec<u8>>,
}

/// One element: name, kind, attributes sorted by name, classes in document
/// order, children, and its span in the source text.
pub struct DomElement {
    pub name: Vec<u8>,
    pub kind: ElementKind,
    pub attributes: Vec<Attribute>,
    pub classes: Vec<Vec<u8>>,
    pub children: Vec<DomNode>,
    pub span: TagSpan,
}

/// One node of the tree.
pub enum DomNode {
    DomElement(DomElement),
    Text(Vec<u8>),
    Comment(Vec<u8>),
}

/// A parsed document: its root nodes.
pub struct Dom {
    pub children: Vec<DomNode>,
}

/// What an element is searched by.
pub enum Selector {
    /// Elements whose lowercased name equals the given bytes.
    ByName(Vec<u8>),
    /// Elements whose `id` attribute has the given value.
    ById(Vec<u8>),
    /// Elements with the given lowercased name whose `id` attribute has the
    /// given value.
    NamedWithId(Vec<u8>, Vec<u8>),
    /// Elements that carry the given class.
    ByClass(Vec<u8>),
}

/// A selector as the specifications see it: plain byte sequences.
pub enum SelView {
    ByName(Seq<u8>),
    ById(Seq<u8>),
    NamedWithId(Seq<u8>, Seq<u8>),
    ByClass(Seq<u8>),
}

/// The ghost value of a selector.
pub open spec fn sel_view(sel: Selector) -> SelView {
    match sel {
        Selector::ByName(n) => SelView::ByName(n@),
        Selector::ById(i) => SelView::ById(i@),
        Selector::NamedWithId(n, i) => SelView::NamedWithId(n@, i@),
        Selector::ByClass(c) => SelView::ByClass(c@),
    }
}

/// The first attribute of that name, if any.
pub open spec fn spec_find_attr(attrs: Seq<Attribute>, key: Seq<u8>) -> Option<Attribute>
    decreases attrs.len(),
{
    if attrs.len() == 0 {
        None
    } else if attrs[0].name@ == key {
        Some(attrs[0])
    } else {
        spec_find_attr(attrs.skip(1), key)
    }
}

/// Does the class list hold these bytes?
pub open spec fn spec_has_class(classes: Seq<Vec<u8>>, c: Seq<u8>) -> bool {
    exists|i: int| 0 <= i < classes.len() && classes[i]@ == c
}

/// Does the element match the selector?
pub open spec fn spec_sel_matches(sel: SelView, el: DomElement) -> bool {
    match sel {
        SelView::ByName(name) => spec_lower_seq(el.name@) == name,
        SelView::ById(id) => match spec_find_attr(el.attributes@, seq![105u8, 100u8]) {
            Some(attr) => match attr.value {
                Some(v) => v@ == id,
                None => false,
            },
            None => false,
        },
        SelView::NamedWithId(name, id) => spec_lower_seq(el.name@) == name && match
            spec_find_attr(el.attributes@, seq![105u8, 100u8]) {
            Some(attr) => match attr.value {
                Some(v) => v@ == id,
                None => false,
            },
            None => false,
        },
        SelView::ByClass(c) => spec_has_class(el.classes@, c),
    }
}

/// The first match under one node: the node itself, else its children in
/// document order.
pub open spec fn spec_find_node(n: DomNode, sel: SelView) -> Option<DomElement>
    decreases n,
{
    match n {
        DomNode::DomElement(el) => if spec_sel_matches(sel, el) {
            Some(el)
        } else {
            spec_find_in(el.children@, sel)
        },
        _ => None,
    }
}

/// The first match in a node list, in document order.
pub open spec fn spec_find_in(nodes: Seq<DomNode>, sel: SelView) -> Option<DomElement>
    decreases nodes,
{
    if nodes.len() == 0 {
        None
    } else {
        match spec_find_node(nodes[0], sel) {
            Some(el) => Some(el),
            None => spec_find_in(nodes.skip(1), sel),
        }
    }
}

/// The first match over the root nodes, walking them back to front, each
/// subtree in document order: the order the recovery scan fixes.
pub open spec fn spec_find_dom(dom: Dom, sel: SelView) -> Option<DomElement> {
    spec_find_rev(dom.children@, sel)
}

pub open spec fn spec_find_rev(nodes: Seq<DomNode>, sel: SelView) -> Option<DomElement>
    decreases nodes,
{
    if nodes.len() == 0 {
        None
    } else {
        match spec_find_node(nodes.last(), sel) {
            Some(el) => Some(el),
            None => spec_find_rev(nodes.drop_last(), sel),
        }
    }
}

/// The first attribute of that name, matching `spec_find_attr`.
pub fn find_attr<'a>(attrs: &'a Vec<Attribute>, key: &Vec<u8>) -> (r: Option<&'a Attribute>)
    ensures
        match r {
            Some(attr) => spec_find_attr(attrs@, key@) == Some(*attr),
            None => spec_find_attr(attrs@, key@) is None,
        },
{
    let n = attrs.len();
    proof {
        assert(attrs@.skip(0) =~= attrs@);
    }
    let mut i: usize = 0;
    while i < n
        invariant
            n == attrs@.len(),
            i <= n,
            spec_find_attr(attrs@, key@) == spec_find_attr(attrs@.skip(i as int), key@),
        decreases n - i,
    {
        if crate::decompiler::vec_equal(&attrs[i].name, key) {
            proof {
                assert(attrs@.skip(i as int)[0] == attrs@[i as int]);
            }
            return Some(&attrs[i]);
        }
        proof {
            assert(attrs@.skip(i as int).skip(1) =~= attrs@.skip(i + 1));
            assert(attrs@.skip(i as int)[0] == attrs@[i as int]);
        }
        i += 1;
    }
    proof {
        assert(attrs@.skip(n as int).len() == 0);
    }
    None
}

/// Does the class list hold these bytes, matching `spec_has_class`.
pub fn has_class(classes: &Vec<Vec<u8>>, c: &Vec<u8>) -> (r: bool)
    ensures
        r == spec_has_class(classes@, c@),
{
    let n = classes.len();
    let mut i: usize = 0;
    while i < n
        invariant
            n == classes@.len(),
            i <= n,
            forall|j: int| 0 <= j < i ==> classes@[j]@ != c@,
        decreases n - i,
    {
        if crate::decompiler::vec_equal(&classes[i], c) {
            return true;
        }
        i += 1;
    }
    false
}

/// Does the element match the selector, matching `spec_sel_matches`.
pub fn sel_matches(sel: &Selector, el: &DomElement) -> (r: bool)
    ensures
        r == spec_sel_matches(sel_view(*sel), *el),
{
    let mut id_key: Vec<u8> = Vec::new();
    id_key.push(105u8);
    id_key.push(100u8);
    proof {
        assert(id_key@ =~= seq![105u8, 100u8]);
    }
    match sel {
        Selector::ByName(name) => {
            let lowered = crate::engine::lower_bytes(&el.name);
            crate::decompiler::vec_equal(&lowered, name)
        },
        Selector::ById(id) => match find_attr(&el.attributes, &id_key) {
            Some(attr) => match &attr.value {
                Some(v) => crate::decompiler::vec_equal(v, id),
                None => false,
            },
            None => false,
        },
        Selector::NamedWithId(name, id) => {
            let lowered = crate::engine::lower_bytes(&el.name);
            if !crate::decompiler::vec_equal(&lowered, name) {
                return false;
            }
            match find_attr(&el.attributes, &id_key) {
                Some(attr) => match &attr.value {
                    Some(v) => crate::decompiler::vec_equal(v, id),
                    None => false,
                },
                None => false,
            }
        },
        Selector::ByClass(c) => has_class(&el.classes, c),
    }
}

/// The first match under one node, matching `spec_find_node`.
pub fn find_node<'a>(n: &'a DomNode, sel: &Selector) -> (r: Option<&'a DomElement>)
    ensures
        match r {
            Some(el) => spec_find_node(*n, sel_view(*sel)) == Some(*el),
            None => spec_find_node(*n, sel_view(*sel)) is None,
        },
    decreases *n,
{
    match n {
        DomNode::DomElement(el) => {
            if sel_matches(sel, el) {
                Some(el)
            } else {
                find_in(&el.children, sel)
            }
        },
        _ => None,
    }
}

/// The first match in a node list, matching `spec_find_in`.
pub fn find_in<'a>(nodes: &'a Vec<DomNode>, sel: &Selector) -> (r: Option<&'a DomElement>)
    ensures
        match r {
            Some(el) => spec_find_in(nodes@, sel_view(*sel)) == Some(*el),
            None => spec_find_in(nodes@, sel_view(*sel)) is None,
        },
    decreases nodes@,
{
    proof {
        assert(nodes@.skip(0) =~= nodes@);
    }
    find_in_from(nodes, sel, 0)
}

fn find_in_from<'a>(nodes: &'a Vec<DomNode>, sel: &Selector, from: usize) -> (r: Option<
    &'a DomElement,
>)
    requires
        from <= nodes@.len(),
    ensures
        match r {
            Some(el) => spec_find_in(nodes@.skip(from as int), sel_view(*sel)) == Some(*el),
            None => spec_find_in(nodes@.skip(from as int), sel_view(*sel)) is None,
        },
    decreases nodes@, nodes@.len() - from,
{
    if from == nodes.len() {
        proof {
            assert(nodes@.skip(from as int).len() == 0);
        }
        return None;
    }
    proof {
        assert(nodes@.skip(from as int)[0] == nodes@[from as int]);
        assert(nodes@.skip(from as int).skip(1) =~= nodes@.skip(from as int + 1));
    }
    match find_node(&nodes[from], sel) {
        Some(el) => Some(el),
        None => find_in_from(nodes, sel, from + 1),
    }
}

/// The first match over the root nodes, matching `spec_find_dom`.
pub fn find_dom<'a>(dom: &'a Dom, sel: &Selector) -> (r: Option<&'a DomElement>)
    ensures
        match r {
            Some(el) => spec_find_dom(*dom, sel_view(*sel)) == Some(*el),
            None => spec_find_dom(*dom, sel_view(*sel)) is None,
        },
{
    let n = dom.children.len();
    proof {
        assert(dom.children@.take(n as int) =~= dom.children@);
    }
    find_rev_upto(&dom.children, sel, n)
}

fn find_rev_upto<'a>(nodes: &'a Vec<DomNode>, sel: &Selector, upto: usize) -> (r: Option<
    &'a DomElement,
>)
    requires
        upto <= nodes@.len(),
    ensures
        match r {
            Some(el) => spec_find_rev(nodes@.take(upto as int), sel_view(*sel)) == Some(*el),
            None => spec_find_rev(nodes@.take(upto as int), sel_view(*sel)) is None,
        },
    decreases upto,
{
    if upto == 0 {
        return None;
    }
    proof {
        assert(nodes@.take(upto as int).last() == nodes@[upto - 1]);
        assert(nodes@.take(upto as int).drop_last() =~= nodes@.take(upto as int - 1));
    }
    match find_node(&nodes[upto - 1], sel) {
        Some(el) => Some(el),
        None => find_rev_upto(nodes, sel, upto - 1),
    }
}


/// One recovered data-carrying element: the value of its file-name
/// attribute, the value of its header-tail attribute, and its first text
/// child, if any.
pub struct DataElement {
    pub id: Vec<u8>,
    pub header_tail: Vec<u8>,
    pub text: Option<Vec<u8>>,
}

/// The ghost shape of one recovered record.
pub struct DataRecord {
    pub id: Seq<u8>,
    pub header_tail: Seq<u8>,
    pub text: Option<Seq<u8>>,
}

/// Does the exec record carry exactly the ghost one?
pub open spec fn record_matches(d: DataElement, t: DataRecord) -> bool {
    &&& d.id@ == t.id
    &&& d.header_tail@ == t.header_tail
    &&& match (d.text, t.text) {
        (Some(v), Some(s)) => v@ == s,
        (None, None) => true,
        _ => false,
    }
}

/// The class that marks a data-carrying element.
pub open spec fn spec_data_class() -> Seq<u8> {
    seq![119u8, 97u8, 104u8, 95u8, 112u8, 111u8, 108u8, 121u8, 103u8, 108u8, 111u8, 116u8,
        95u8, 100u8, 97u8, 116u8, 97u8]
}

/// The attribute naming the embedded file.
pub open spec fn spec_id_attr() -> Seq<u8> {
    seq![100u8, 97u8, 116u8, 97u8, 45u8, 119u8, 97u8, 104u8, 116u8, 109u8, 108u8, 95u8,
        105u8, 100u8]
}

/// The attribute carrying the tail of the file's tar header.
pub open spec fn spec_b_attr() -> Seq<u8> {
    seq![100u8, 97u8, 116u8, 97u8, 45u8, 98u8]
}

/// The first text child of an element, if any.
pub open spec fn spec_first_text(nodes: Seq<DomNode>) -> Option<Seq<u8>>
    decreases nodes,
{
    if nodes.len() == 0 {
        None
    } else {
        match nodes[0] {
            DomNode::Text(t) => Some(t@),
            _ => spec_first_text(nodes.skip(1)),
        }
    }
}

/// The record an element yields, when it is a data carrier with both
/// attributes present.
pub open spec fn spec_record_of(el: DomElement) -> Seq<DataRecord> {
    if spec_has_class(el.classes@, spec_data_class()) {
        match spec_find_attr(el.attributes@, spec_id_attr()) {
            Some(id_attr) => match id_attr.value {
                Some(idv) => match spec_find_attr(el.attributes@, spec_b_attr()) {
                    Some(b_attr) => match b_attr.value {
                        Some(bv) => seq![
                            DataRecord {
                                id: idv@,
                                header_tail: bv@,
                                text: spec_first_text(el.children@),
                            },
                        ],
                        None => Seq::empty(),
                    },
                    None => Seq::empty(),
                },
                None => Seq::empty(),
            },
            None => Seq::empty(),
        }
    } else {
        Seq::empty()
    }
}

/// Every record under one node, the node's own first.
pub open spec fn spec_collect_node(n: DomNode) -> Seq<DataRecord>
    decreases n,
{
    match n {
        DomNode::DomElement(el) => spec_record_of(el) + spec_collect_in(el.children@),
        _ => Seq::empty(),
    }
}

/// Every record in a node list, in document order.
pub open spec fn spec_collect_in(nodes: Seq<DomNode>) -> Seq<DataRecord>
    decreases nodes,
{
    if nodes.len() == 0 {
        Seq::empty()
    } else {
        spec_collect_node(nodes[0]) + spec_collect_in(nodes.skip(1))
    }
}

/// Every record in the document, the root nodes walked back to front, each
/// subtree in document order.
pub open spec fn spec_collect_dom(dom: Dom) -> Seq<DataRecord> {
    spec_collect_rev(dom.children@)
}

pub open spec fn spec_collect_rev(nodes: Seq<DomNode>) -> Seq<DataRecord>
    decreases nodes,
{
    if nodes.len() == 0 {
        Seq::empty()
    } else {
        spec_collect_node(nodes.last()) + spec_collect_rev(nodes.drop_last())
    }
}

/// Do the collected exec records carry exactly the ghost ones?
pub open spec fn records_match(ds: Seq<DataElement>, ts: Seq<DataRecord>) -> bool {
    ds.len() == ts.len() && forall|i: int|
        0 <= i < ds.len() ==> record_matches(#[trigger] ds[i], ts[i])
}

/// The first text child of an element, matching `spec_first_text`.
fn first_text(nodes: &Vec<DomNode>) -> (r: Option<Vec<u8>>)
    ensures
        match r {
            Some(v) => spec_first_text(nodes@) == Some(v@),
            None => spec_first_text(nodes@) is None,
        },
{
    let n = nodes.len();
    proof {
        assert(nodes@.skip(0) =~= nodes@);
    }
    let mut i: usize = 0;
    while i < n
        invariant
            n == nodes@.len(),
            i <= n,
            spec_first_text(nodes@) == spec_first_text(nodes@.skip(i as int)),
        decreases n - i,
    {
        proof {
            assert(nodes@.skip(i as int)[0] == nodes@[i as int]);
            assert(nodes@.skip(i as int).skip(1) =~= nodes@.skip(i + 1));
        }
        match &nodes[i] {
            DomNode::Text(t) => {
                let c = crate::bytes::copy_range(t, 0, t.len());
                proof {
                    assert(c@ =~= t@);
                }
                return Some(c);
            },
            _ => {},
        }
        i += 1;
    }
    None
}

/// Collects every data-carrying element of the document, matching
/// `spec_collect_dom`.
pub fn collect_data_elements(dom: &Dom) -> (r: Vec<DataElement>)
    ensures
        records_match(r@, spec_collect_dom(*dom)),
{
    let mut out: Vec<DataElement> = Vec::new();
    proof {
        assert(dom.children@.take(dom.children@.len() as int) =~= dom.children@);
    }
    collect_rev_upto(&dom.children, dom.children.len(), &mut out);
    proof {
        let specs = spec_collect_dom(*dom);
        assert forall|i: int| 0 <= i < out@.len() implies record_matches(
            #[trigger] out@[i],
            specs[i],
        ) by {
            assert(record_matches(out@[0 + i], specs[i]));
        }
    }
    out
}

fn collect_rev_upto(nodes: &Vec<DomNode>, upto: usize, out: &mut Vec<DataElement>)
    requires
        upto <= nodes@.len(),
    ensures
        final(out)@.len() == old(out)@.len() + spec_collect_rev(nodes@.take(upto as int)).len(),
        forall|i: int| 0 <= i < old(out)@.len() ==> final(out)@[i] == old(out)@[i],
        forall|i: int|
            0 <= i < spec_collect_rev(nodes@.take(upto as int)).len() ==> record_matches(
                #[trigger] final(out)@[old(out)@.len() + i],
                spec_collect_rev(nodes@.take(upto as int))[i],
            ),
    decreases upto,
{
    if upto == 0 {
        return ;
    }
    proof {
        assert(nodes@.take(upto as int).last() == nodes@[upto - 1]);
        assert(nodes@.take(upto as int).drop_last() =~= nodes@.take(upto as int - 1));
    }
    collect_node(&nodes[upto - 1], out);
    let ghost mid = out@;
    collect_rev_upto(nodes, upto - 1, out);
    proof {
        let a = spec_collect_node(nodes@[upto - 1]);
        let b = spec_collect_rev(nodes@.take(upto as int - 1));
        let whole = spec_collect_rev(nodes@.take(upto as int));
        assert(whole == a + b);
        assert forall|i: int|
            0 <= i < whole.len() implies record_matches(
            out@[old(out)@.len() + i],
            whole[i],
        ) by {
            if i < a.len() {
                assert(whole[i] == (a + b)[i]);
                assert((a + b)[i] == a[i]);
                assert(record_matches(mid[old(out)@.len() + i], a[i]));
            } else {
                assert(whole[i] == (a + b)[i]);
                assert((a + b)[i] == b[i - a.len()]);
                assert(mid.len() == old(out)@.len() + a.len());
                assert(record_matches(out@[mid.len() + (i - a.len())], b[i - a.len()]));
            }
        }
    }
}

fn collect_node(n: &DomNode, out: &mut Vec<DataElement>)
    ensures
        final(out)@.len() == old(out)@.len() + spec_collect_node(*n).len(),
        forall|i: int| 0 <= i < old(out)@.len() ==> final(out)@[i] == old(out)@[i],
        forall|i: int|
            0 <= i < spec_collect_node(*n).len() ==> record_matches(
                #[trigger] final(out)@[old(out)@.len() + i],
                spec_collect_node(*n)[i],
            ),
    decreases *n,
{
    match n {
        DomNode::DomElement(el) => {
            let data_class = data_class_bytes();
            if has_class(&el.classes, &data_class) {
                let id_key = id_attr_bytes();
                let b_key = b_attr_bytes();
                let id_val = match find_attr(&el.attributes, &id_key) {
                    Some(attr) => match &attr.value {
                        Some(v) => {
                            let c = crate::bytes::copy_range(v, 0, v.len());
                            proof {
                                assert(c@ =~= v@);
                            }
                            Some(c)
                        },
                        None => None,
                    },
                    None => None,
                };
                match id_val {
                    Some(idv) => {
                        match find_attr(&el.attributes, &b_key) {
                            Some(attr) => match &attr.value {
                                Some(bv) => {
                                    let tail = crate::bytes::copy_range(bv, 0, bv.len());
                                    proof {
                                        assert(tail@ =~= bv@);
                                    }
                                    let text = first_text(&el.children);
                                    out.push(
                                        DataElement { id: idv, header_tail: tail, text },
                                    );
                                },
                                None => {},
                            },
                            None => {},
                        }
                    },
                    None => {},
                }
            }
            let ghost mid = out@;
            collect_in_from(&el.children, 0, out);
            proof {
                assert(el.children@.skip(0) =~= el.children@);
                let a = spec_record_of(*el);
                let b = spec_collect_in(el.children@);
                let whole = spec_collect_node(*n);
                assert(whole == a + b);
                assert(mid.len() == old(out)@.len() + a.len());
                assert forall|i: int|
                    0 <= i < whole.len() implies record_matches(
                    out@[old(out)@.len() + i],
                    whole[i],
                ) by {
                    if i < a.len() {
                        assert((a + b)[i] == a[i]);
                        assert(record_matches(mid[old(out)@.len() + i], a[i]));
                    } else {
                        assert((a + b)[i] == b[i - a.len()]);
                        assert(record_matches(out@[mid.len() + (i - a.len())], b[i - a.len()]));
                    }
                }
            }
        },
        _ => {},
    }
}

fn collect_in_from(nodes: &Vec<DomNode>, from: usize, out: &mut Vec<DataElement>)
    requires
        from <= nodes@.len(),
    ensures
        final(out)@.len() == old(out)@.len() + spec_collect_in(nodes@.skip(from as int)).len(),
        forall|i: int| 0 <= i < old(out)@.len() ==> final(out)@[i] == old(out)@[i],
        forall|i: int|
            0 <= i < spec_collect_in(nodes@.skip(from as int)).len() ==> record_matches(
                #[trigger] final(out)@[old(out)@.len() + i],
                spec_collect_in(nodes@.skip(from as int))[i],
            ),
    decreases nodes@, nodes@.len() - from,
{
    if from == nodes.len() {
        return ;
    }
    proof {
        assert(nodes@.skip(from as int)[0] == nodes@[from as int]);
        assert(nodes@.skip(from as int).skip(1) =~= nodes@.skip(from as int + 1));
    }
    collect_node(&nodes[from], out);
    let ghost mid = out@;
    collect_in_from(nodes, from + 1, out);
    proof {
        let a = spec_collect_node(nodes@[from as int]);
        let b = spec_collect_in(nodes@.skip(from as int + 1));
        let whole = spec_collect_in(nodes@.skip(from as int));
        assert(whole == a + b);
        assert(mid.len() == old(out)@.len() + a.len());
        assert forall|i: int|
            0 <= i < whole.len() implies record_matches(
            out@[old(out)@.len() + i],
            whole[i],
        ) by {
            if i < a.len() {
                assert((a + b)[i] == a[i]);
                assert(record_matches(mid[old(out)@.len() + i], a[i]));
            } else {
                assert((a + b)[i] == b[i - a.len()]);
                assert(record_matches(out@[mid.len() + (i - a.len())], b[i - a.len()]));
            }
        }
    }
}

/// The class marking data elements, as bytes.
pub fn data_class_bytes() -> (r: Vec<u8>)
    ensures
        r@ == spec_data_class(),
{
    let mut v: Vec<u8> = Vec::new();
    v.push(119u8);
    v.push(97u8);
    v.push(104u8);
    v.push(95u8);
    v.push(112u8);
    v.push(111u8);
    v.push(108u8);
    v.push(121u8);
    v.push(103u8);
    v.push(108u8);
    v.push(111u8);
    v.push(116u8);
    v.push(95u8);
    v.push(100u8);
    v.push(97u8);
    v.push(116u8);
    v.push(97u8);
    proof {
        assert(v@ =~= spec_data_class());
    }
    v
}

/// The file-name attribute, as bytes.
pub fn id_attr_bytes() -> (r: Vec<u8>)
    ensures
        r@ == spec_id_attr(),
{
    let mut v: Vec<u8> = Vec::new();
    v.push(100u8);
    v.push(97u8);
    v.push(116u8);
    v.push(97u8);
    v.push(45u8);
    v.push(119u8);
    v.push(97u8);
    v.push(104u8);
    v.push(116u8);
    v.push(109u8);
    v.push(108u8);
    v.push(95u8);
    v.push(105u8);
    v.push(100u8);
    proof {
        assert(v@ =~= spec_id_attr());
    }
    v
}

/// The header-tail attribute, as bytes.
pub fn b_attr_bytes() -> (r: Vec<u8>)
    ensures
        r@ == spec_b_attr(),
{
    let mut v: Vec<u8> = Vec::new();
    v.push(100u8);
    v.push(97u8);
    v.push(116u8);
    v.push(97u8);
    v.push(45u8);
    v.push(98u8);
    proof {
        assert(v@ =~= spec_b_attr());
    }
    v
}

/// The element nodes of a list, in order.
pub open spec fn spec_keep_elements(nodes: Seq<DomNode>) -> Seq<DomNode>
    decreases nodes,
{
    if nodes.len() == 0 {
        Seq::empty()
    } else {
        (match nodes[0] {
            DomNode::DomElement(_) => seq![nodes[0]],
            _ => Seq::<DomNode>::empty(),
        }) + spec_keep_elements(nodes.skip(1))
    }
}

/// Keeps only the element nodes of the root list. A saved page may hold
/// comments or stray text between the doctype and the root element; they do
/// not survive a rebuild.
pub fn clean_start_of_file(dom: Dom) -> (r: Dom)
    ensures
        r.children@ == spec_keep_elements(dom.children@),
{
    let mut rest = dom.children;
    let ghost orig = rest@;
    let mut out: Vec<DomNode> = Vec::new();
    proof {
        assert(out@ + spec_keep_elements(rest@) =~= spec_keep_elements(orig));
    }
    while rest.len() > 0
        invariant
            out@ + spec_keep_elements(rest@) == spec_keep_elements(orig),
        decreases rest@.len(),
    {
        let ghost before = rest@;
        let node = rest.remove(0);
        proof {
            assert(rest@ =~= before.skip(1));
        }
        match node {
            DomNode::DomElement(_) => {
                out.push(node);
            },
            _ => {},
        }
        proof {
            assert(out@ + spec_keep_elements(rest@) =~= spec_keep_elements(orig));
        }
    }
    proof {
        assert(out@ =~= spec_keep_elements(orig));
    }
    Dom { children: out }
}


/// The attribute the build once injected on the root element.
pub fn data_a_bytes() -> (r: Vec<u8>)
    ensures
        r@ == seq![100u8, 97u8, 116u8, 97u8, 45u8, 97u8],
{
    let mut v: Vec<u8> = Vec::new();
    v.push(100u8);
    v.push(97u8);
    v.push(116u8);
    v.push(97u8);
    v.push(45u8);
    v.push(97u8);
    proof {
        assert(v@ =~= seq![100u8, 97u8, 116u8, 97u8, 45u8, 97u8]);
    }
    v
}

/// The shape of a synthesized anchor: the given tag name, exactly one
/// `id` attribute with the given value, no classes, no children, and the
/// parent's span.
pub open spec fn is_synth_anchor(n: DomNode, name: Seq<u8>, id: Seq<u8>, span: TagSpan) -> bool {
    match n {
        DomNode::DomElement(el) => {
            &&& el.name@ == name
            &&& el.kind == ElementKind::Normal
            &&& el.attributes@.len() == 1
            &&& el.attributes@[0].name@ == seq![105u8, 100u8]
            &&& match el.attributes@[0].value {
                Some(v) => v@ == id,
                None => false,
            }
            &&& el.classes@.len() == 0
            &&& el.children@.len() == 0
            &&& el.span == span
        },
        _ => false,
    }
}

/// Is `out` the node `inp` with one synthesized anchor added: to `inp`
/// itself when its lowercased name is the target, appended or prepended to
/// its children, else to the first child subtree holding a match?
pub open spec fn inject_rel(
    out: DomNode,
    inp: DomNode,
    target: Seq<u8>,
    sname: Seq<u8>,
    sid: Seq<u8>,
    front: bool,
) -> bool
    decreases inp,
{
    match inp {
        DomNode::DomElement(el) => match out {
            DomNode::DomElement(oel) => {
                &&& oel.name == el.name
                &&& oel.kind == el.kind
                &&& oel.attributes == el.attributes
                &&& oel.classes == el.classes
                &&& oel.span == el.span
                &&& if spec_lower_seq(el.name@) == target {
                    &&& oel.children@.len() == el.children@.len() + 1
                    &&& if front {
                        is_synth_anchor(oel.children@[0], sname, sid, el.span)
                            && oel.children@.skip(1) == el.children@
                    } else {
                        is_synth_anchor(oel.children@.last(), sname, sid, el.span)
                            && oel.children@.drop_last() == el.children@
                    }
                } else {
                    inject_seq_rel(oel.children@, el.children@, target, sname, sid, front)
                }
            },
            _ => false,
        },
        _ => false,
    }
}

/// Is `out` the list `inp` with one anchor injected into the first subtree
/// holding a matching element, every other node untouched?
pub open spec fn inject_seq_rel(
    out: Seq<DomNode>,
    inp: Seq<DomNode>,
    target: Seq<u8>,
    sname: Seq<u8>,
    sid: Seq<u8>,
    front: bool,
) -> bool
    decreases inp,
{
    if inp.len() == 0 {
        false
    } else if spec_find_node(inp[0], SelView::ByName(target)) is Some {
        out.len() == inp.len() && inject_rel(out[0], inp[0], target, sname, sid, front)
            && out.skip(1) == inp.skip(1)
    } else {
        out.len() == inp.len() && out[0] == inp[0] && inject_seq_rel(
            out.skip(1),
            inp.skip(1),
            target,
            sname,
            sid,
            front,
        )
    }
}

/// A synthesized anchor element: the given tag name, one `id` attribute,
/// no children, spanning where its parent does.
fn synth_anchor(name: &Vec<u8>, id: &Vec<u8>, span: TagSpan) -> (r: DomNode)
    ensures
        is_synth_anchor(r, name@, id@, span),
{
    let mut id_key: Vec<u8> = Vec::new();
    id_key.push(105u8);
    id_key.push(100u8);
    proof {
        assert(id_key@ =~= seq![105u8, 100u8]);
    }
    let value = crate::bytes::copy_range(id, 0, id.len());
    proof {
        assert(value@ =~= id@);
    }
    let attr = Attribute { name: id_key, value: Some(value) };
    let mut attributes: Vec<Attribute> = Vec::new();
    attributes.push(attr);
    let name_copy = crate::bytes::copy_range(name, 0, name.len());
    proof {
        assert(name_copy@ =~= name@);
    }
    DomNode::DomElement(
        DomElement {
            name: name_copy,
            kind: ElementKind::Normal,
            attributes,
            classes: Vec::new(),
            children: Vec::new(),
            span,
        },
    )
}

/// Walks the tree for the first element of the given lowercased name and
/// gives it a synthesized anchor child, appended or prepended. The flag
/// says whether such an element was found; when it is set, the result is
/// the input with exactly that anchor added.
pub fn inject_anchor(
    n: DomNode,
    target: &Vec<u8>,
    synth_name: &Vec<u8>,
    synth_id: &Vec<u8>,
    at_front: bool,
) -> (r: (DomNode, bool))
    ensures
        r.1 == (spec_find_node(n, SelView::ByName(target@)) is Some),
        r.1 ==> inject_rel(r.0, n, target@, synth_name@, synth_id@, at_front),
    decreases n,
{
    match n {
        DomNode::DomElement(el) => {
            let lowered = crate::engine::lower_bytes(&el.name);
            if crate::decompiler::vec_equal(&lowered, target) {
                let mut el = el;
                let ghost before = el.children@;
                let anchor = synth_anchor(synth_name, synth_id, el.span);
                if at_front {
                    el.children.insert(0, anchor);
                    proof {
                        assert(el.children@[0] == anchor);
                        assert(el.children@.skip(1) =~= before);
                    }
                } else {
                    el.children.push(anchor);
                    proof {
                        assert(el.children@.last() == anchor);
                        assert(el.children@.drop_last() =~= before);
                    }
                }
                (DomNode::DomElement(el), true)
            } else {
                let DomElement { name, kind, attributes, classes, children, span } = el;
                let (children, found) = inject_in(children, target, synth_name, synth_id, at_front);
                (
                    DomNode::DomElement(DomElement { name, kind, attributes, classes, children, span }),
                    found,
                )
            }
        },
        other => (other, false),
    }
}

/// Walks a node list in order, injecting into the first subtree that holds
/// a matching element; nodes before and after it come back untouched.
pub fn inject_in(
    nodes: Vec<DomNode>,
    target: &Vec<u8>,
    synth_name: &Vec<u8>,
    synth_id: &Vec<u8>,
    at_front: bool,
) -> (r: (Vec<DomNode>, bool))
    ensures
        r.1 == (spec_find_in(nodes@, SelView::ByName(target@)) is Some),
        r.1 ==> inject_seq_rel(r.0@, nodes@, target@, synth_name@, synth_id@, at_front),
    decreases nodes@,
{
    let mut rest = nodes;
    if rest.len() == 0 {
        return (rest, false);
    }
    let ghost orig = rest@;
    let head = rest.remove(0);
    proof {
        assert(rest@ =~= orig.skip(1));
        assert(head == orig[0]);
    }
    let sel = Selector::ByName(crate::bytes::copy_range(target, 0, target.len()));
    proof {
        assert((match sel {
            Selector::ByName(ref b) => b@ =~= target@,
            _ => false,
        }));
        assert(sel_view(sel) == SelView::ByName(target@));
    }
    let hit = match find_node(&head, &sel) {
        Some(_) => true,
        None => false,
    };
    if hit {
        let (head, did) = inject_anchor(head, target, synth_name, synth_id, at_front);
        let ghost before = rest@;
        let mut out = rest;
        out.insert(0, head);
        proof {
            assert(out@[0] == head);
            assert(out@.skip(1) =~= before);
        }
        (out, true)
    } else {
        let (tail, found) = inject_in(rest, target, synth_name, synth_id, at_front);
        let ghost before = tail@;
        let mut out = tail;
        out.insert(0, head);
        proof {
            assert(out@[0] == head);
            assert(out@.skip(1) =~= before);
        }
        (out, found)
    }
}

/// Is this node an element carrying the data class?
pub open spec fn is_data_element(n: DomNode) -> bool {
    match n {
        DomNode::DomElement(el) => spec_has_class(el.classes@, spec_data_class()),
        _ => false,
    }
}

/// Is `out` the node `inp` with every data-carrying element removed from
/// among its descendants?
pub open spec fn strip_rel(out: DomNode, inp: DomNode) -> bool
    decreases inp,
{
    match inp {
        DomNode::DomElement(el) => match out {
            DomNode::DomElement(oel) => {
                &&& oel.name == el.name
                &&& oel.kind == el.kind
                &&& oel.attributes == el.attributes
                &&& oel.classes == el.classes
                &&& oel.span == el.span
                &&& strip_seq_rel(oel.children@, el.children@)
            },
            _ => false,
        },
        _ => out == inp,
    }
}

/// Is `out` the list `inp` with data-carrying elements dropped and every
/// kept node stripped in turn?
pub open spec fn strip_seq_rel(out: Seq<DomNode>, inp: Seq<DomNode>) -> bool
    decreases inp,
{
    if inp.len() == 0 {
        out.len() == 0
    } else if is_data_element(inp[0]) {
        strip_seq_rel(out, inp.skip(1))
    } else {
        out.len() > 0 && strip_rel(out[0], inp[0]) && strip_seq_rel(out.skip(1), inp.skip(1))
    }
}

/// Rebuilds a subtree without any data-carrying element, so that a
/// recovered document is clean for a fresh build.
pub fn strip_data_elements(n: DomNode) -> (r: DomNode)
    ensures
        strip_rel(r, n),
    decreases n,
{
    match n {
        DomNode::DomElement(el) => {
            let DomElement { name, kind, attributes, classes, children, span } = el;
            let children = strip_data_list(children);
            DomNode::DomElement(DomElement { name, kind, attributes, classes, children, span })
        },
        other => other,
    }
}

/// Rebuilds a node list without any data-carrying element.
pub fn strip_data_list(nodes: Vec<DomNode>) -> (r: Vec<DomNode>)
    ensures
        strip_seq_rel(r@, nodes@),
    decreases nodes@,
{
    let mut rest = nodes;
    if rest.len() == 0 {
        return rest;
    }
    let ghost orig = rest@;
    let head = rest.remove(0);
    proof {
        assert(rest@ =~= orig.skip(1));
        assert(head == orig[0]);
    }
    let keep = match &head {
        DomNode::DomElement(el) => {
            let dc = data_class_bytes();
            !has_class(&el.classes, &dc)
        },
        _ => true,
    };
    let mut tail = strip_data_list(rest);
    if keep {
        let head = strip_data_elements(head);
        let ghost before = tail@;
        tail.insert(0, head);
        proof {
            assert(tail@[0] == head);
            assert(tail@.skip(1) =~= before);
        }
    }
    tail
}

/// Is `out` the node `inp` with every childless normal element given one
/// empty text child, so the printer does not write it self-closed?
pub open spec fn fixed_rel(out: DomNode, inp: DomNode) -> bool
    decreases inp,
{
    match inp {
        DomNode::DomElement(el) => match out {
            DomNode::DomElement(oel) => {
                &&& oel.name == el.name
                &&& oel.kind == el.kind
                &&& oel.attributes == el.attributes
                &&& oel.classes == el.classes
                &&& oel.span == el.span
                &&& if el.children@.len() == 0 {
                    match el.kind {
                        ElementKind::Normal => oel.children@.len() == 1 && match oel.children@[0] {
                            DomNode::Text(t) => t@.len() == 0,
                            _ => false,
                        },
                        ElementKind::Void => oel.children@.len() == 0,
                    }
                } else {
                    fixed_seq_rel(oel.children@, el.children@)
                }
            },
            _ => false,
        },
        _ => out == inp,
    }
}

/// Are the nodes of `out` the nodes of `inp`, each fixed in turn?
pub open spec fn fixed_seq_rel(out: Seq<DomNode>, inp: Seq<DomNode>) -> bool
    decreases inp,
{
    if inp.len() == 0 {
        out.len() == 0
    } else {
        out.len() > 0 && fixed_rel(out[0], inp[0]) && fixed_seq_rel(out.skip(1), inp.skip(1))
    }
}

/// Gives every childless normal element an empty text child, so that the
/// printer does not write it self-closed, which HTML does not permit for
/// normal elements.
pub fn fix_empty_elements(n: DomNode) -> (r: DomNode)
    ensures
        fixed_rel(r, n),
    decreases n,
{
    match n {
        DomNode::DomElement(el) => {
            let DomElement { name, kind, attributes, classes, children, span } = el;
            if children.len() == 0 {
                let mut children = children;
                match kind {
                    ElementKind::Normal => {
                        children.push(DomNode::Text(Vec::new()));
                    },
                    ElementKind::Void => {},
                }
                return DomNode::DomElement(
                    DomElement { name, kind, attributes, classes, children, span },
                );
            }
            let children = fix_empty_list(children);
            DomNode::DomElement(DomElement { name, kind, attributes, classes, children, span })
        },
        other => other,
    }
}

/// Fixes every node of a list in turn.
pub fn fix_empty_list(nodes: Vec<DomNode>) -> (r: Vec<DomNode>)
    ensures
        fixed_seq_rel(r@, nodes@),
    decreases nodes@,
{
    let mut rest = nodes;
    if rest.len() == 0 {
        return rest;
    }
    let ghost orig = rest@;
    let head = rest.remove(0);
    proof {
        assert(rest@ =~= orig.skip(1));
        assert(head == orig[0]);
    }
    let head = fix_empty_elements(head);
    let mut tail = fix_empty_list(rest);
    let ghost before = tail@;
    tail.insert(0, head);
    proof {
        assert(tail@[0] == head);
        assert(tail@.skip(1) =~= before);
    }
    tail
}

/// Is `out` the attribute list `inp` without the attribute the build
/// injected?
pub open spec fn data_a_filtered(out: Seq<Attribute>, inp: Seq<Attribute>) -> bool
    decreases inp,
{
    if inp.len() == 0 {
        out.len() == 0
    } else if inp[0].name@ == seq![100u8, 97u8, 116u8, 97u8, 45u8, 97u8] {
        data_a_filtered(out, inp.skip(1))
    } else {
        out.len() > 0 && out[0] == inp[0] && data_a_filtered(out.skip(1), inp.skip(1))
    }
}

/// Is `out` the root list `inp` with the injected attribute removed from
/// its first element, everything else untouched? `done` says whether that
/// element already lies behind.
pub open spec fn root_attr_rel(out: Seq<DomNode>, inp: Seq<DomNode>, done: bool) -> bool
    decreases inp,
{
    if inp.len() == 0 {
        out.len() == 0
    } else {
        out.len() > 0 && match inp[0] {
            DomNode::DomElement(el) => if !done {
                (match out[0] {
                    DomNode::DomElement(oel) => {
                        &&& oel.name == el.name
                        &&& oel.kind == el.kind
                        &&& oel.classes == el.classes
                        &&& oel.children == el.children
                        &&& oel.span == el.span
                        &&& data_a_filtered(oel.attributes@, el.attributes@)
                    },
                    _ => false,
                }) && root_attr_rel(out.skip(1), inp.skip(1), true)
            } else {
                out[0] == inp[0] && root_attr_rel(out.skip(1), inp.skip(1), true)
            },
            _ => out[0] == inp[0] && root_attr_rel(out.skip(1), inp.skip(1), done),
        }
    }
}

/// Filters the injected attribute out of a list, matching
/// `data_a_filtered`.
fn without_data_a(attrs: Vec<Attribute>) -> (r: Vec<Attribute>)
    ensures
        data_a_filtered(r@, attrs@),
    decreases attrs@,
{
    let mut rest = attrs;
    if rest.len() == 0 {
        return rest;
    }
    let ghost orig = rest@;
    let head = rest.remove(0);
    proof {
        assert(rest@ =~= orig.skip(1));
        assert(head == orig[0]);
    }
    let key = data_a_bytes();
    let keep = !crate::decompiler::vec_equal(&head.name, &key);
    let mut tail = without_data_a(rest);
    if keep {
        proof {
            assert(head.name@ != seq![100u8, 97u8, 116u8, 97u8, 45u8, 97u8]);
        }
        let ghost before = tail@;
        tail.insert(0, head);
        proof {
            assert(tail@[0] == head);
            assert(tail@.skip(1) =~= before);
        }
    }
    tail
}

/// Removes the attribute the build injected from the first root element of
/// a recovered document.
pub fn remove_data_a_root(dom: Dom) -> (r: Dom)
    ensures
        root_attr_rel(r.children@, dom.children@, false),
{
    Dom { children: remove_data_a_nodes(dom.children, false) }
}

fn remove_data_a_nodes(nodes: Vec<DomNode>, done: bool) -> (r: Vec<DomNode>)
    ensures
        root_attr_rel(r@, nodes@, done),
    decreases nodes@,
{
    let mut rest = nodes;
    if rest.len() == 0 {
        return rest;
    }
    let ghost orig = rest@;
    let head = rest.remove(0);
    proof {
        assert(rest@ =~= orig.skip(1));
        assert(head == orig[0]);
    }
    match head {
        DomNode::DomElement(el) => {
            if !done {
                let DomElement { name, kind, attributes, classes, children, span } = el;
                let attributes = without_data_a(attributes);
                let head = DomNode::DomElement(
                    DomElement { name, kind, attributes, classes, children, span },
                );
                let mut tail = remove_data_a_nodes(rest, true);
                let ghost before = tail@;
                tail.insert(0, head);
                proof {
                    assert(tail@[0] == head);
                    assert(tail@.skip(1) =~= before);
                }
                tail
            } else {
                let head = DomNode::DomElement(el);
                let mut tail = remove_data_a_nodes(rest, true);
                let ghost before = tail@;
                tail.insert(0, head);
                proof {
                    assert(tail@[0] == head);
                    assert(tail@.skip(1) =~= before);
                }
                tail
            }
        },
        other => {
            let mut tail = remove_data_a_nodes(rest, done);
            let ghost before = tail@;
            tail.insert(0, other);
            proof {
                assert(tail@[0] == other);
                assert(tail@.skip(1) =~= before);
            }
            tail
        },
    }
}

} // verus!
