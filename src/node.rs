//! The tree that an XML document becomes: objects, arrays and text.
use vstd::prelude::*;

verus! {

/// One element's merged attributes, children and text.
///
/// An `Object` keeps its entries in insertion order; a lookup takes the first
/// entry under a key.
#[derive(Debug, PartialEq, Eq)]
pub enum Node {
    Object(Vec<(String, Node)>),
    Array(Vec<Node>),
    Scalar(String),
}

/// The mathematical value of a [`Node`].
pub enum NodeModel {
    Object(Seq<(Seq<char>, NodeModel)>),
    Array(Seq<NodeModel>),
    Scalar(Seq<char>),
}

impl Node {
    pub open spec fn model(self) -> NodeModel
        decreases self,
    {
        match self {
            Node::Object(entries) => NodeModel::Object(entries_model(entries@)),
            Node::Array(items) => NodeModel::Array(items_model(items@)),
            Node::Scalar(s) => NodeModel::Scalar(s@),
        }
    }
}

pub open spec fn entries_model(entries: Seq<(String, Node)>) -> Seq<(Seq<char>, NodeModel)>
    decreases entries,
{
    if entries.len() == 0 {
        Seq::empty()
    } else {
        let last = entries.last();
        entries_model(entries.drop_last()).push((last.0@, last.1.model()))
    }
}

pub open spec fn items_model(items: Seq<Node>) -> Seq<NodeModel>
    decreases items,
{
    if items.len() == 0 {
        Seq::empty()
    } else {
        items_model(items.drop_last()).push(items.last().model())
    }
}

pub proof fn lemma_entries_model(entries: Seq<(String, Node)>)
    ensures
        entries_model(entries).len() == entries.len(),
        forall|i: int|
            0 <= i < entries.len() ==> #[trigger] entries_model(entries)[i] == (
            entries[i].0@,
            entries[i].1.model(),
        ),
    decreases entries.len(),
{
    if entries.len() > 0 {
        lemma_entries_model(entries.drop_last());
    }
}

pub proof fn lemma_items_model(items: Seq<Node>)
    ensures
        items_model(items).len() == items.len(),
        forall|i: int| 0 <= i < items.len() ==> #[trigger] items_model(items)[i] == items[i].model(),
    decreases items.len(),
{
    if items.len() > 0 {
        lemma_items_model(items.drop_last());
    }
}

/// The key of the reserved entry that holds an element's text.
pub open spec fn text_key() -> Seq<char> {
    seq!['$', 't', 'e', 'x', 't']
}

/// The index of the first entry of `obj` under `key`, or -1 where there is none.
pub open spec fn key_index(obj: Seq<(Seq<char>, NodeModel)>, key: Seq<char>) -> int
    decreases obj.len(),
{
    if obj.len() == 0 {
        -1
    } else {
        let j = key_index(obj.drop_last(), key);
        if j >= 0 {
            j
        } else if obj.last().0 == key {
            obj.len() - 1
        } else {
            -1
        }
    }
}

pub proof fn lemma_key_index(obj: Seq<(Seq<char>, NodeModel)>, key: Seq<char>)
    ensures
        -1 <= key_index(obj, key) < obj.len(),
        key_index(obj, key) >= 0 ==> obj[key_index(obj, key)].0 == key,
        key_index(obj, key) >= 0 ==> forall|i: int|
            0 <= i < key_index(obj, key) ==> obj[i].0 != key,
        key_index(obj, key) == -1 <==> forall|i: int| 0 <= i < obj.len() ==> obj[i].0 != key,
    decreases obj.len(),
{
    if obj.len() > 0 {
        let rest = obj.drop_last();
        lemma_key_index(rest, key);
        assert(forall|i: int| 0 <= i < rest.len() ==> rest[i] == obj[i]);
    }
}

/// What `key` maps to in `obj`: its first entry under that key.
pub open spec fn lookup(obj: Seq<(Seq<char>, NodeModel)>, key: Seq<char>) -> Option<NodeModel> {
    let j = key_index(obj, key);
    if j >= 0 {
        Some(obj[j].1)
    } else {
        None
    }
}

/// What `key` maps to in `node` when `node` is an object.
pub open spec fn get_model(node: NodeModel, key: Seq<char>) -> Option<NodeModel> {
    match node {
        NodeModel::Object(obj) => lookup(obj, key),
        _ => None,
    }
}

/// Sets `key` to `value`: in place where the key is present, else at the end.
pub open spec fn insert_entry(
    obj: Seq<(Seq<char>, NodeModel)>,
    key: Seq<char>,
    value: NodeModel,
) -> Seq<(Seq<char>, NodeModel)> {
    let j = key_index(obj, key);
    if j >= 0 {
        obj.update(j, (key, value))
    } else {
        obj.push((key, value))
    }
}

/// Merges a closed child element into its parent's object.
///
/// The first child under a name is stored as it is, the second turns the entry
/// into an array of both, and later ones are appended to that array. A child
/// replaces an attribute of the same name.
pub open spec fn merge_child(
    obj: Seq<(Seq<char>, NodeModel)>,
    name: Seq<char>,
    child: NodeModel,
) -> Seq<(Seq<char>, NodeModel)> {
    let j = key_index(obj, name);
    if j < 0 {
        obj.push((name, child))
    } else {
        match obj[j].1 {
            NodeModel::Array(items) => obj.update(j, (name, NodeModel::Array(items.push(child)))),
            NodeModel::Object(_) => obj.update(
                j,
                (name, NodeModel::Array(seq![obj[j].1, child])),
            ),
            NodeModel::Scalar(_) => obj.update(j, (name, child)),
        }
    }
}

/// Stores an element's text under the reserved key.
///
/// An attribute already stored under that key (a scalar) is kept; a child
/// merged under it is replaced.
pub open spec fn insert_text(obj: Seq<(Seq<char>, NodeModel)>, text: Seq<char>) -> Seq<
    (Seq<char>, NodeModel),
> {
    let j = key_index(obj, text_key());
    if j >= 0 && obj[j].1 is Scalar {
        obj
    } else {
        insert_entry(obj, text_key(), NodeModel::Scalar(text))
    }
}

impl Node {
    /// The entry under `key`, where this node is an object that has one.
    pub fn get(&self, key: &str) -> (r: Option<&Node>)
        ensures
            match r {
                Some(n) => get_model(self.model(), key@) == Some(n.model()),
                None => get_model(self.model(), key@) is None,
            },
    {
        match self {
            Node::Object(entries) => {
                let k = key.to_owned();
                match find_key(entries, &k) {
                    Some(j) => {
                        proof {
                            lemma_entries_model(entries@);
                        }
                        Some(&entries[j].1)
                    },
                    None => None,
                }
            },
            _ => None,
        }
    }

    /// The text of a scalar.
    pub fn as_str(&self) -> (r: Option<&str>)
        ensures
            match self.model() {
                NodeModel::Scalar(s) => r is Some && r->0@ == s,
                _ => r is None,
            },
    {
        match self {
            Node::Scalar(s) => Some(s.as_str()),
            _ => None,
        }
    }
}

/// Finds the first entry under `key`.
pub fn find_key(entries: &Vec<(String, Node)>, key: &String) -> (r: Option<usize>)
    ensures
        match r {
            Some(j) => j < entries.len() && key_index(entries_model(entries@), key@) == j,
            None => key_index(entries_model(entries@), key@) == -1,
        },
{
    let ghost obj = entries_model(entries@);
    proof {
        lemma_entries_model(entries@);
        lemma_key_index(obj, key@);
    }
    let mut i: usize = 0;
    while i < entries.len()
        invariant
            i <= entries.len(),
            obj == entries_model(entries@),
            obj.len() == entries.len(),
            forall|k: int| 0 <= k < i ==> obj[k].0 != key@,
            forall|k: int| 0 <= k < entries.len() ==> #[trigger] obj[k] == (
                entries@[k].0@,
                entries@[k].1.model(),
            ),
            -1 <= key_index(obj, key@) < obj.len(),
            key_index(obj, key@) >= 0 ==> obj[key_index(obj, key@)].0 == key@,
            key_index(obj, key@) >= 0 ==> forall|m: int|
                0 <= m < key_index(obj, key@) ==> obj[m].0 != key@,
            key_index(obj, key@) == -1 <==> forall|m: int| 0 <= m < obj.len() ==> obj[m].0 != key@,
        decreases entries.len() - i,
    {
        if entries[i].0 == *key {
            assert(obj[i as int].0 == key@);
            return Some(i);
        }
        i = i + 1;
    }
    None
}

/// Sets `key` to `value`: in place where the key is present, else at the end.
pub fn put_entry(entries: &mut Vec<(String, Node)>, key: String, value: Node)
    ensures
        entries_model(final(entries)@) == insert_entry(
            entries_model(old(entries)@),
            key@,
            value.model(),
        ),
{
    let ghost obj = entries_model(entries@);
    proof {
        lemma_entries_model(entries@);
    }
    match find_key(entries, &key) {
        Some(j) => {
            let ghost k = key@;
            let ghost v = value.model();
            entries.remove(j);
            entries.insert(j, (key, value));
            proof {
                lemma_entries_model(entries@);
                assert(entries_model(entries@) =~= obj.update(j as int, (k, v)));
            }
        },
        None => {
            entries.push((key, value));
            proof {
                assert(entries@.drop_last() =~= old(entries)@);
            }
        },
    }
}

/// Merges a closed child element into its parent's object, as
/// [`merge_child`] describes.
pub fn put_child(entries: &mut Vec<(String, Node)>, name: String, child: Node)
    ensures
        entries_model(final(entries)@) == merge_child(
            entries_model(old(entries)@),
            name@,
            child.model(),
        ),
{
    let ghost obj = entries_model(entries@);
    let ghost c = child.model();
    proof {
        lemma_entries_model(entries@);
    }
    match find_key(entries, &name) {
        Some(j) => {
            let ghost n = name@;
            let (_, existing) = entries.remove(j);
            let ghost e = existing.model();
            assert(e == obj[j as int].1);
            let merged = match existing {
                Node::Array(mut items) => {
                    let ghost before = items@;
                    items.push(child);
                    proof {
                        assert(items@.drop_last() =~= before);
                    }
                    Node::Array(items)
                },
                Node::Object(fields) => {
                    let mut items: Vec<Node> = Vec::new();
                    items.push(Node::Object(fields));
                    items.push(child);
                    proof {
                        lemma_items_model(items@);
                        assert(items_model(items@) =~= seq![e, c]);
                    }
                    Node::Array(items)
                },
                Node::Scalar(_) => child,
            };
            entries.insert(j, (name, merged));
            proof {
                lemma_entries_model(entries@);
                assert(entries_model(entries@) =~= merge_child(obj, n, c));
            }
        },
        None => {
            entries.push((name, child));
            proof {
                assert(entries@.drop_last() =~= old(entries)@);
            }
        },
    }
}

/// Stores an element's text under the reserved key, as [`insert_text`]
/// describes.
pub fn put_text(entries: &mut Vec<(String, Node)>, text: String)
    ensures
        entries_model(final(entries)@) == insert_text(entries_model(old(entries)@), text@),
{
    let key = text_key_string();
    proof {
        lemma_entries_model(entries@);
        lemma_key_index(entries_model(entries@), key@);
    }
    match find_key(entries, &key) {
        Some(j) => {
            if let Node::Scalar(_) = &entries[j].1 {
                return;
            }
        },
        None => {},
    }
    put_entry(entries, key, Node::Scalar(text));
}

/// The reserved key as a string.
pub fn text_key_string() -> (r: String)
    ensures
        r@ == text_key(),
{
    proof {
        reveal_strlit("$text");
    }
    let r = "$text".to_owned();
    assert(r@ =~= text_key());
    r
}

/// `nodes` merged one after another under `name`.
pub open spec fn merge_all(
    obj: Seq<(Seq<char>, NodeModel)>,
    name: Seq<char>,
    nodes: Seq<NodeModel>,
) -> Seq<(Seq<char>, NodeModel)>
    decreases nodes.len(),
{
    if nodes.len() == 0 {
        obj
    } else {
        merge_child(merge_all(obj, name, nodes.drop_last()), name, nodes.last())
    }
}

/// Repeated siblings: the first element of a name is stored as its object,
/// the second turns the entry into an array of both, and each later one is
/// appended, in document order; the entry goes where the first one went.
pub proof fn lemma_repeated_children(
    obj: Seq<(Seq<char>, NodeModel)>,
    name: Seq<char>,
    nodes: Seq<NodeModel>,
)
    requires
        key_index(obj, name) == -1,
        nodes.len() >= 1,
        forall|i: int| 0 <= i < nodes.len() ==> #[trigger] nodes[i] is Object,
    ensures
        merge_all(obj, name, nodes) == obj.push(
            (
                name,
                if nodes.len() == 1 {
                    nodes[0]
                } else {
                    NodeModel::Array(nodes)
                },
            ),
        ),
    decreases nodes.len(),
{
    let rest = nodes.drop_last();
    lemma_key_index(obj, name);
    if nodes.len() == 1 {
        assert(rest.len() == 0);
    } else {
        assert forall|i: int| 0 <= i < rest.len() implies #[trigger] rest[i] is Object by {
            assert(rest[i] == nodes[i]);
        }
        lemma_repeated_children(obj, name, rest);
        let prev = merge_all(obj, name, rest);
        lemma_key_index(prev, name);
        assert forall|i: int| 0 <= i < obj.len() implies prev[i].0 != name by {
            assert(prev[i] == obj[i]);
        }
        assert(prev[obj.len() as int].0 == name);
        assert(key_index(prev, name) == obj.len());
        if nodes.len() == 2 {
            assert(rest =~= seq![nodes[0]]);
            assert(nodes =~= seq![nodes[0], nodes[1]]);
            assert(prev[obj.len() as int].1 is Object);
        } else {
            assert(rest.push(nodes.last()) =~= nodes);
        }
        assert(merge_all(obj, name, nodes) =~= obj.push(
            (
                name,
                NodeModel::Array(nodes),
            ),
        ));
    }
}

} // verus!
