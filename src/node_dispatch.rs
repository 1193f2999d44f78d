//! What happens to a node that enters the scene: the dispatch table gives the
//! marker components of engine classes; custom node types that the
//! application registered are tried next; a node that neither knows is left
//! out of the ECS world, with one warning.
use crate::class_data::DispatchEntry;
use vstd::prelude::*;

verus! {

/// A node type that the application defines: its class name, the engine's
/// hash of that name, and the action that builds its entity.
pub struct KissingNode<F> {
    pub name: String,
    pub name_hash: u32,
    pub add_components: F,
}

impl<F> KissingNode<F> {
    pub fn new(name: String, name_hash: u32, add_components: F) -> (r: Self)
        ensures
            r.name == name,
            r.name_hash == name_hash,
            r.add_components == add_components,
    {
        KissingNode { name, name_hash, add_components }
    }
}

/// Why a custom node type cannot be registered.
#[derive(Debug, PartialEq, Eq)]
pub enum RegisterNodeError {
    /// A node type with the same name hash is registered already.
    DuplicateNameHash { name_hash: u32 },
}

/// The custom node types, each name hash at most once.
pub struct CustomNodeRegistry<F> {
    nodes: Vec<KissingNode<F>>,
}

impl<F> CustomNodeRegistry<F> {
    /// The registered node types, in the order of registration.
    pub closed spec fn entries(&self) -> Seq<KissingNode<F>> {
        self.nodes@
    }

    /// Whether a node type with this name hash is registered.
    pub open spec fn has_hash(&self, h: u32) -> bool {
        custom_has(self.entries(), h)
    }

    /// No two node types share a name hash.
    pub open spec fn wf(&self) -> bool {
        forall|i: int, j: int|
            0 <= i < self.entries().len() && 0 <= j < self.entries().len()
                && #[trigger] self.entries()[i].name_hash == #[trigger] self.entries()[j].name_hash
                ==> i == j
    }

    pub fn new() -> (r: Self)
        ensures
            r.entries().len() == 0,
            r.wf(),
    {
        CustomNodeRegistry { nodes: Vec::new() }
    }

    /// Adds a node type, unless one with the same name hash is there.
    pub fn register(&mut self, node: KissingNode<F>) -> (r: Result<(), RegisterNodeError>)
        requires
            old(self).wf(),
        ensures
            final(self).wf(),
            match r {
                Ok(()) => !old(self).has_hash(node.name_hash) && final(self).entries() == old(
                    self,
                ).entries().push(node),
                Err(RegisterNodeError::DuplicateNameHash { name_hash }) => {
                    &&& name_hash == node.name_hash
                    &&& old(self).has_hash(node.name_hash)
                    &&& final(self).entries() == old(self).entries()
                },
            },
    {
        match self.position(node.name_hash) {
            Some(_) => Err(RegisterNodeError::DuplicateNameHash { name_hash: node.name_hash }),
            None => {
                let ghost h = node.name_hash;
                self.nodes.push(node);
                assert forall|i: int, j: int|
                    0 <= i < self.entries().len() && 0 <= j < self.entries().len()
                        && #[trigger] self.entries()[i].name_hash
                        == #[trigger] self.entries()[j].name_hash implies i == j by {
                    let n = old(self).entries().len() as int;
                    if i < n && j < n {
                        assert(old(self).entries()[i].name_hash == old(self).entries()[j].name_hash);
                    } else if i < n {
                        assert(old(self).entries()[i].name_hash == h);
                    } else if j < n {
                        assert(old(self).entries()[j].name_hash == h);
                    }
                }
                Ok(())
            },
        }
    }

    /// The position of the node type with name hash `h`.
    pub fn position(&self, h: u32) -> (r: Option<usize>)
        ensures
            r is Some <==> self.has_hash(h),
            r is Some ==> r->0 < self.entries().len() && self.entries()[r->0 as int].name_hash == h,
    {
        let mut i: usize = 0;
        while i < self.nodes.len()
            invariant
                i <= self.nodes@.len(),
                forall|k: int| 0 <= k < i ==> self.nodes@[k].name_hash != h,
            decreases self.nodes@.len() - i,
        {
            if self.nodes[i].name_hash == h {
                return Some(i);
            }
            i = i + 1;
        }
        None
    }

    /// The action of the node type with name hash `h`, if one is registered.
    pub fn add_components_for_kissing_node(&self, h: u32) -> (r: Option<&F>)
        requires
            self.wf(),
        ensures
            r is Some <==> self.has_hash(h),
            r is Some ==> exists|i: int|
                0 <= i < self.entries().len() && self.entries()[i].name_hash == h && *r->0
                    == self.entries()[i].add_components,
    {
        match self.position(h) {
            Some(i) => Some(&self.nodes[i].add_components),
            None => None,
        }
    }
}

/// How a node is mirrored in the ECS world.
#[derive(Debug, Clone, Copy, PartialEq, Eq)]
pub enum NodeDispatch {
    /// It gets the marker components of this dispatch entry.
    Builtin { entry: usize },
    /// It is built by this custom node type.
    Custom { node: usize },
    /// Neither knows its class: it gets no entity.
    Unmatched,
}

/// Whether some dispatch entry has the hash `h`.
pub open spec fn table_has(entries: Seq<DispatchEntry>, h: u32) -> bool {
    exists|i: int| 0 <= i < entries.len() && #[trigger] entries[i].hash == h as u64
}

/// Whether a custom node type with name hash `h` is among `nodes`.
pub open spec fn custom_has<F>(nodes: Seq<KissingNode<F>>, h: u32) -> bool {
    exists|i: int| 0 <= i < nodes.len() && #[trigger] nodes[i].name_hash == h
}

/// How a node whose class name hashes to `h` is mirrored: by the first
/// dispatch entry with that hash, else by the custom node type with that name
/// hash, else not at all.
pub open spec fn dispatch_outcome<F>(
    entries: Seq<DispatchEntry>,
    nodes: Seq<KissingNode<F>>,
    h: u32,
) -> NodeDispatch {
    if table_has(entries, h) {
        NodeDispatch::Builtin {
            entry: (choose|i: int|
                0 <= i < entries.len() && entries[i].hash == h as u64 && forall|k: int|
                    0 <= k < i ==> entries[k].hash != h as u64) as usize,
        }
    } else if custom_has(nodes, h) {
        NodeDispatch::Custom {
            node: (choose|i: int| 0 <= i < nodes.len() && nodes[i].name_hash == h) as usize,
        }
    } else {
        NodeDispatch::Unmatched
    }
}

/// Decides how a node whose class name hashes to `class_hash` is mirrored.
pub fn dispatch_node<F>(
    entries: &Vec<DispatchEntry>,
    custom: &CustomNodeRegistry<F>,
    class_hash: u32,
) -> (r: NodeDispatch)
    requires
        custom.wf(),
    ensures
        r == dispatch_outcome(entries@, custom.entries(), class_hash),
{
    let mut i: usize = 0;
    while i < entries.len()
        invariant
            i <= entries@.len(),
            forall|k: int| 0 <= k < i ==> entries@[k].hash != class_hash as u64,
        decreases entries@.len() - i,
    {
        if entries[i].hash == class_hash as u64 {
            proof {
                let e = entries@;
                assert(table_has(e, class_hash));
                let c = choose|c: int|
                    0 <= c < e.len() && e[c].hash == class_hash as u64 && forall|k: int|
                        0 <= k < c ==> e[k].hash != class_hash as u64;
                assert(exists|c: int|
                    0 <= c < e.len() && e[c].hash == class_hash as u64 && forall|k: int|
                        0 <= k < c ==> e[k].hash != class_hash as u64) by {
                    assert(0 <= i < e.len() && e[i as int].hash == class_hash as u64);
                }
                assert(!(c < i));
                assert(!(i < c));
            }
            return NodeDispatch::Builtin { entry: i };
        }
        i = i + 1;
    }
    match custom.position(class_hash) {
        Some(node) => {
            proof {
                let n = custom.entries();
                assert(custom_has(n, class_hash));
                let c = choose|c: int| 0 <= c < n.len() && n[c].name_hash == class_hash;
                assert(n[c].name_hash == n[node as int].name_hash);
            }
            NodeDispatch::Custom { node }
        },
        None => NodeDispatch::Unmatched,
    }
}

/// The warning text for a node of class `class_name` that no dispatch entry
/// and no custom node type knows.
pub open spec fn unmatched_warning(class_name: Seq<char>) -> Seq<char> {
    "Could not set up Node marker components for `get_class` returning \""@ + class_name
        + "\""@
}

/// The warnings that the outcome `d` reports for a node of class `name`: one
/// where the node is left out, none otherwise.
pub open spec fn warnings_of(d: NodeDispatch, name: Seq<char>) -> Seq<Seq<char>> {
    if d is Unmatched {
        seq![unmatched_warning(name)]
    } else {
        Seq::empty()
    }
}

/// A node whose class hash matches no dispatch entry and no custom node type
/// gets no entity and exactly one warning.
pub proof fn lemma_unknown_class_warns_once<F>(
    entries: Seq<DispatchEntry>,
    nodes: Seq<KissingNode<F>>,
    h: u32,
    name: Seq<char>,
)
    requires
        !table_has(entries, h),
        !custom_has(nodes, h),
    ensures
        dispatch_outcome(entries, nodes, h) == NodeDispatch::Unmatched,
        warnings_of(dispatch_outcome(entries, nodes, h), name).len() == 1,
{
}

impl NodeDispatch {
    /// The warnings that this outcome reports for a node of class
    /// `class_name`.
    pub fn warnings(&self, class_name: &str) -> (r: Vec<String>)
        ensures
            r@.map_values(|w: String| w@) == warnings_of(*self, class_name@),
    {
        let mut r: Vec<String> = Vec::new();
        if let NodeDispatch::Unmatched = self {
            let mut w = String::from_str(
                "Could not set up Node marker components for `get_class` returning \"",
            );
            w.append(class_name);
            w.append("\"");
            r.push(w);
            assert(r@.map_values(|w: String| w@) =~= warnings_of(*self, class_name@));
        } else {
            assert(r@.map_values(|w: String| w@) =~= warnings_of(*self, class_name@));
        }
        r
    }
}

} // verus!
