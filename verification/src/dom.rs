//! The markup tree: element, text and comment nodes, and their
//! attribute maps.

use vstd::prelude::*;

use crate::strutil::{spec_split, split_spaces, str_eq};

verus! {

/// An attribute mapping, kept as the log of its insertions; the view is
/// the map where the last insertion of a name wins.
#[derive(Debug, PartialEq)]
pub struct AttrMap {
    entries: Vec<(String, String)>,
}

/// The map described by an insertion log, later entries overwriting
/// earlier ones.
pub open spec fn map_of<V: View>(s: Seq<(String, V)>) -> Map<Seq<char>, V::V>
    decreases s.len(),
{
    if s.len() == 0 {
        Map::empty()
    } else {
        map_of(s.drop_last()).insert(s.last().0@, s.last().1@)
    }
}

pub proof fn lemma_map_of_last_match<V: View>(s: Seq<(String, V)>, i: int, k: Seq<char>)
    requires
        0 <= i < s.len(),
        s[i].0@ == k,
        forall|j: int| i < j < s.len() ==> s[j].0@ != k,
    ensures
        map_of(s).dom().contains(k),
        map_of(s)[k] == s[i].1@,
    decreases s.len(),
{
    if i == s.len() - 1 {
    } else {
        assert(s.drop_last()[i] == s[i]);
        lemma_map_of_last_match(s.drop_last(), i, k);
    }
}

pub proof fn lemma_map_of_no_match<V: View>(s: Seq<(String, V)>, k: Seq<char>)
    requires
        forall|j: int| 0 <= j < s.len() ==> s[j].0@ != k,
    ensures
        !map_of(s).dom().contains(k),
    decreases s.len(),
{
    if s.len() > 0 {
        lemma_map_of_no_match(s.drop_last(), k);
    }
}

impl View for AttrMap {
    type V = Map<Seq<char>, Seq<char>>;

    closed spec fn view(&self) -> Map<Seq<char>, Seq<char>> {
        map_of(self.entries@)
    }
}

impl AttrMap {
    pub fn new() -> (r: AttrMap)
        ensures
            r@ =~= Map::<Seq<char>, Seq<char>>::empty(),
    {
        AttrMap { entries: Vec::new() }
    }

    /// Binds `name` to `value`, replacing any earlier binding.
    pub fn insert(&mut self, name: String, value: String)
        ensures
            final(self)@ == old(self)@.insert(name@, value@),
    {
        self.entries.push((name, value));
        proof {
            assert(self.entries@.drop_last() =~= old(self).entries@);
        }
    }

    /// The value bound to `name`, if any.
    pub fn get(&self, name: &str) -> (r: Option<&String>)
        ensures
            match r {
                Option::Some(v) => self@.dom().contains(name@) && v@ == self@[name@],
                Option::None => !self@.dom().contains(name@),
            },
    {
        let mut i: usize = self.entries.len();
        while i > 0
            invariant
                i <= self.entries.len(),
                forall|j: int| i <= j < self.entries@.len() ==> self.entries@[j].0@ != name@,
            decreases i,
        {
            i -= 1;
            let e = &self.entries[i];
            if str_eq(e.0.as_str(), name) {
                proof {
                    lemma_map_of_last_match(self.entries@, i as int, name@);
                }
                return Option::Some(&e.1);
            }
        }
        proof {
            lemma_map_of_no_match(self.entries@, name@);
        }
        Option::None
    }
}

#[derive(Debug, PartialEq)]
pub enum NodeType {
    Text(String),
    Element(ElementData),
    Comment(String),
}

#[derive(Debug, PartialEq)]
pub struct Node {
    pub children: Vec<Node>,
    pub node_type: NodeType,
}

#[derive(Debug, PartialEq)]
pub struct ElementData {
    pub tag_name: String,
    pub attributes: AttrMap,
}

/// Model of an element: its tag and its attribute map.
pub struct ElementV {
    pub tag_name: Seq<char>,
    pub attributes: Map<Seq<char>, Seq<char>>,
}

impl View for ElementData {
    type V = ElementV;

    open spec fn view(&self) -> ElementV {
        ElementV { tag_name: self.tag_name@, attributes: self.attributes@ }
    }
}

pub enum NodeTypeV {
    Text(Seq<char>),
    Element(ElementV),
    Comment(Seq<char>),
}

impl View for NodeType {
    type V = NodeTypeV;

    open spec fn view(&self) -> NodeTypeV {
        match self {
            NodeType::Text(s) => NodeTypeV::Text(s@),
            NodeType::Element(e) => NodeTypeV::Element(e@),
            NodeType::Comment(s) => NodeTypeV::Comment(s@),
        }
    }
}

/// Model of a markup node: its kind and its children, in order.
pub struct NodeV {
    pub node_type: NodeTypeV,
    pub children: Seq<NodeV>,
}

/// Model of a markup tree, node by node.
pub open spec fn node_view(n: Node) -> NodeV
    decreases n,
{
    NodeV {
        node_type: n.node_type@,
        children: Seq::new(
            n.children@.len(),
            |i: int|
                if 0 <= i < n.children@.len() {
                    node_view(n.children@[i])
                } else {
                    arbitrary()
                },
        ),
    }
}

impl View for Node {
    type V = NodeV;

    open spec fn view(&self) -> NodeV {
        node_view(*self)
    }
}

/// The space-separated class list of an element: the fields of its
/// `class` attribute, or nothing when the attribute is absent.
pub open spec fn spec_classes(e: ElementV) -> Seq<Seq<char>> {
    if e.attributes.dom().contains("class"@) {
        spec_split(e.attributes["class"@], ' ')
    } else {
        Seq::empty()
    }
}

impl ElementData {
    /// The element's `id` attribute, if any.
    pub fn id(&self) -> (r: Option<&String>)
        ensures
            match r {
                Option::Some(v) => self@.attributes.dom().contains("id"@) && v@
                    == self@.attributes["id"@],
                Option::None => !self@.attributes.dom().contains("id"@),
            },
    {
        self.attributes.get("id")
    }

    /// The element's classes, split at spaces from its `class`
    /// attribute.
    pub fn classes(&self) -> (r: Vec<String>)
        ensures
            r.deep_view() == spec_classes(self@),
    {
        match self.attributes.get("class") {
            Option::Some(classlist) => split_spaces(classlist.as_str()),
            Option::None => {
                let r: Vec<String> = Vec::new();
                proof {
                    assert(r.deep_view() =~= Seq::<Seq<char>>::empty());
                }
                r
            },
        }
    }
}

impl Node {
    /// A text node with no children.
    pub fn text(data: String) -> (r: Node)
        ensures
            r@.node_type == NodeTypeV::Text(data@),
            r@.children =~= Seq::<NodeV>::empty(),
    {
        Node { children: Vec::new(), node_type: NodeType::Text(data) }
    }

    /// An element node with the given tag, attributes and children.
    pub fn elem(name: String, attrs: AttrMap, children: Vec<Node>) -> (r: Node)
        ensures
            r@.node_type == NodeTypeV::Element(
                ElementV { tag_name: name@, attributes: attrs@ },
            ),
            r@.children == children.deep_view(),
    {
        let r = Node {
            children,
            node_type: NodeType::Element(ElementData { tag_name: name, attributes: attrs }),
        };
        proof {
            assert(r@.children.len() == r.children@.len());
            assert forall|i: int| 0 <= i < r.children@.len() implies r@.children[i]
                == r.children.deep_view()[i] by {
                assert(r@.children[i] == node_view(r.children@[i]));
                assert(r.children.deep_view()[i] == r.children@[i].deep_view());
            }
            assert(r@.children =~= r.children.deep_view());
        }
        r
    }

    /// A comment node with no children.
    pub fn comment(data: String) -> (r: Node)
        ensures
            r@.node_type == NodeTypeV::Comment(data@),
            r@.children =~= Seq::<NodeV>::empty(),
    {
        Node { children: Vec::new(), node_type: NodeType::Comment(data) }
    }
}

impl DeepView for Node {
    type V = NodeV;

    open spec fn deep_view(&self) -> NodeV {
        self.view()
    }
}

} // verus!
