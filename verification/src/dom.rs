//! Document tree: nodes are either text or elements; elements carry a tag
//! name and an attribute mapping. The `id` and `class` attributes are the
//! only ones the matcher reads.

use vstd::prelude::*;

use crate::dict::Dict;
use crate::util::push_char;

verus! {

/// Attribute mapping of an element: string keys, string values, unique keys.
pub type AttrMap = Dict<String>;

/// A document-tree node: an ordered list of children and a payload.
pub struct Node {
    pub children: Vec<Node>,
    pub node_type: NodeType,
}

/// The payload of a node: raw text or element data.
pub enum NodeType {
    Text(String),
    Element(ElementData),
}

/// Tag name and attributes of an element.
pub struct ElementData {
    pub tag_name: String,
    pub attributes: AttrMap,
}

// --- mathematical views -----------------------------------------------------

/// View of a `Node`.
pub struct NodeV {
    pub children: Seq<NodeV>,
    pub node_type: NodeTypeV,
}

/// View of a `NodeType`.
pub enum NodeTypeV {
    Text(Seq<char>),
    Element(ElementDataV),
}

/// View of an `ElementData`.
pub struct ElementDataV {
    pub tag_name: Seq<char>,
    pub attributes: Map<Seq<char>, Seq<char>>,
}

impl View for ElementData {
    type V = ElementDataV;

    open spec fn view(&self) -> ElementDataV {
        ElementDataV { tag_name: self.tag_name@, attributes: self.attributes@ }
    }
}

impl View for NodeType {
    type V = NodeTypeV;

    open spec fn view(&self) -> NodeTypeV {
        match self {
            NodeType::Text(s) => NodeTypeV::Text(s@),
            NodeType::Element(e) => NodeTypeV::Element(e@),
        }
    }
}

/// View of a node, taken recursively over its children.
pub open spec fn node_view(n: Node) -> NodeV
    decreases n,
{
    NodeV { children: nodes_view(n.children@), node_type: n.node_type@ }
}

/// Views of a sequence of nodes, element by element.
pub open spec fn nodes_view(s: Seq<Node>) -> Seq<NodeV>
    decreases s,
{
    if s.len() == 0 {
        Seq::empty()
    } else {
        seq![node_view(s[0])] + nodes_view(s.skip(1))
    }
}

/// `nodes_view` maps `node_view` over the sequence, index by index.
pub proof fn lemma_nodes_view_index(s: Seq<Node>)
    ensures
        nodes_view(s).len() == s.len(),
        forall|i: int| 0 <= i < s.len() ==> nodes_view(s)[i] == node_view(s[i]),
    decreases s.len(),
{
    if s.len() > 0 {
        lemma_nodes_view_index(s.skip(1));
    }
}

impl View for Node {
    type V = NodeV;

    open spec fn view(&self) -> NodeV {
        node_view(*self)
    }
}

// --- constructors and accessors ---------------------------------------------

/// A text node with no children.
pub fn text(data: String) -> (r: Node)
    ensures
        r@ == (NodeV { children: Seq::empty(), node_type: NodeTypeV::Text(data@) }),
{
    Node { children: Vec::new(), node_type: NodeType::Text(data) }
}

/// An element node with the given tag name, attributes and children.
pub fn elem(name: String, attrs: AttrMap, children: Vec<Node>) -> (r: Node)
    ensures
        r@ == (NodeV {
            children: nodes_view(children@),
            node_type: NodeTypeV::Element(
                ElementDataV { tag_name: name@, attributes: attrs@ },
            ),
        }),
{
    Node {
        children,
        node_type: NodeType::Element(ElementData { tag_name: name, attributes: attrs }),
    }
}

/// Splitting a character sequence on single spaces, keeping empty pieces,
/// defined by recursion on the last character.
pub open spec fn split_spaces(s: Seq<char>) -> Seq<Seq<char>>
    decreases s.len(),
{
    if s.len() == 0 {
        seq![Seq::empty()]
    } else if s.last() == ' ' {
        split_spaces(s.drop_last()).push(Seq::empty())
    } else {
        let rest = split_spaces(s.drop_last());
        rest.update(rest.len() - 1, rest.last().push(s.last()))
    }
}

/// The class set of an element view: the `class` attribute split on single
/// spaces, or empty when the attribute is absent.
pub open spec fn spec_classes(e: ElementDataV) -> Seq<Seq<char>> {
    if e.attributes.contains_key("class"@) {
        split_spaces(e.attributes["class"@])
    } else {
        Seq::empty()
    }
}

impl ElementData {
    /// The `id` attribute, if present.
    pub fn id(&self) -> (r: Option<&String>)
        ensures
            r is Some <==> self@.attributes.contains_key("id"@),
            r matches Some(v) ==> v@ == self@.attributes["id"@],
    {
        self.attributes.get("id")
    }

    /// The element's class names: the `class` attribute split on single
    /// spaces, or no names when the attribute is absent.
    pub fn classes(&self) -> (r: Vec<String>)
        ensures
            r@.map_values(|s: String| s@) == spec_classes(self@),
    {
        match self.attributes.get("class") {
            None => {
                let r: Vec<String> = Vec::new();
                assert(r@.map_values(|s: String| s@) =~= Seq::<Seq<char>>::empty());
                r
            },
            Some(list) => split_on_spaces(list.as_str()),
        }
    }
}

/// Splits a string on single spaces, keeping empty pieces.
pub fn split_on_spaces(s: &str) -> (r: Vec<String>)
    ensures
        r@.map_values(|p: String| p@) == split_spaces(s@),
{
    let len = s.unicode_len();
    let mut pieces: Vec<String> = Vec::new();
    pieces.push(String::new());
    let mut i: usize = 0;
    proof {
        assert(s@.take(0) =~= Seq::<char>::empty());
        assert(pieces@.map_values(|p: String| p@) =~= split_spaces(s@.take(0)));
    }
    while i < len
        invariant
            len == s@.len(),
            i <= len,
            pieces@.len() >= 1,
            pieces@.map_values(|p: String| p@) == split_spaces(s@.take(i as int)),
        decreases len - i,
    {
        let c = s.get_char(i);
        proof {
            assert(s@.take(i + 1).drop_last() =~= s@.take(i as int));
            assert(s@.take(i + 1).last() == s@[i as int]);
        }
        if c == ' ' {
            pieces.push(String::new());
            proof {
                assert(pieces@.map_values(|p: String| p@) =~= split_spaces(
                    s@.take(i + 1),
                ));
            }
        } else {
            let last = pieces.len() - 1;
            push_char(&mut pieces[last], c);
            proof {
                assert(pieces@.map_values(|p: String| p@) =~= split_spaces(
                    s@.take(i + 1),
                ));
            }
        }
        i = i + 1;
    }
    proof {
        assert(s@.take(len as int) =~= s@);
    }
    pieces
}

} // verus!
