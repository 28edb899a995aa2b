use vstd::prelude::*;
use crate::text::{str_eq, contains_token, has_token};

verus! {

/// Attribute list of an element: (name, value) pairs.
pub type AttrMap = Vec<(String, String)>;

/// A node of the element tree.
pub struct Node {
    pub children: Vec<Node>,
    pub node_type: NodeType,
}

pub enum NodeType {
    Text(String),
    Element(ElementData),
}

pub struct ElementData {
    pub tag_name: String,
    pub attributes: AttrMap,
}

/// The value of the first attribute named `name`.
pub open spec fn attr_spec(attrs: Seq<(String, String)>, name: Seq<char>) -> Option<String>
    decreases attrs.len(),
{
    if attrs.len() == 0 {
        None
    } else if attrs[0].0@ == name {
        Some(attrs[0].1)
    } else {
        attr_spec(attrs.drop_first(), name)
    }
}

impl ElementData {
    pub open spec fn id_spec(&self) -> Option<String> {
        attr_spec(self.attributes@, "id"@)
    }

    /// `cls` is one of the whitespace-separated names of the `class` attribute.
    pub open spec fn has_class_spec(&self, cls: Seq<char>) -> bool {
        match attr_spec(self.attributes@, "class"@) {
            Some(v) => has_token(v@, cls),
            None => false,
        }
    }

    pub fn attr(&self, name: &str) -> (r: Option<&String>)
        ensures
            r is None ==> attr_spec(self.attributes@, name@) is None,
            r matches Some(v) ==> attr_spec(self.attributes@, name@) == Some(*v),
    {
        let n = self.attributes.len();
        let mut i: usize = 0;
        assert(self.attributes@ =~= self.attributes@.subrange(0, n as int));
        while i < n
            invariant
                n == self.attributes@.len(),
                i <= n,
                attr_spec(self.attributes@, name@) == attr_spec(
                    self.attributes@.subrange(i as int, n as int),
                    name@,
                ),
            decreases n - i,
        {
            let ghost rest = self.attributes@.subrange(i as int, n as int);
            assert(rest.drop_first() =~= self.attributes@.subrange(i + 1, n as int));
            if str_eq(self.attributes[i].0.as_str(), name) {
                return Some(&self.attributes[i].1);
            }
            i = i + 1;
        }
        None
    }

    /// The `id` attribute.
    pub fn id(&self) -> (r: Option<&String>)
        ensures
            r is None ==> self.id_spec() is None,
            r matches Some(v) ==> self.id_spec() == Some(*v),
    {
        proof { reveal_strlit("id"); }
        self.attr("id")
    }

    /// Is `cls` among the classes named by the `class` attribute?
    pub fn has_class(&self, cls: &str) -> (r: bool)
        ensures
            r == self.has_class_spec(cls@),
    {
        proof { reveal_strlit("class"); }
        match self.attr("class") {
            Some(v) => contains_token(v.as_str(), cls),
            None => false,
        }
    }
}

/// A text node.
pub fn text(data: String) -> (r: Node)
    ensures
        r.children@.len() == 0,
        r.node_type == NodeType::Text(data),
{
    Node { children: Vec::new(), node_type: NodeType::Text(data) }
}

/// An element node with the given tag, attributes and children.
pub fn elem(name: String, attrs: AttrMap, children: Vec<Node>) -> (r: Node)
    ensures
        r.children == children,
        r.node_type == NodeType::Element(ElementData { tag_name: name, attributes: attrs }),
{
    Node { children, node_type: NodeType::Element(ElementData { tag_name: name, attributes: attrs }) }
}

} // verus!
