//! The scene graph model and the graph-surgery primitives.
//!
//! A graph is a forest of nodes held in one vector. Node 0 is the synthetic
//! root. Every node's parent index is strictly smaller than its own index, so
//! parent chains always terminate at the root. Nodes are never removed from
//! the vector; moving or destroying a subtree clears `alive` flags, and
//! cross-graph moves append fresh copies to the destination, so indices held
//! by outstanding work items stay meaningful for the rest of a run.

use vstd::prelude::*;

verus! {

/// One content-reference property of a node, projected to plain strings:
/// the property's name and the referenced content identifier.
pub struct ContentRef {
    pub key: String,
    pub value: String,
}

/// The opaque remainder of a node: its display name and its full property
/// table, kept only so the node can be re-encoded. The pipeline's logic never
/// reads it.
#[derive(Clone)]
pub struct Payload {
    pub name: String,
    pub props: Vec<(String, rbx_types::Variant)>,
}

/// One node of a scene graph.
pub struct Node {
    /// Index of the parent node; the root points at itself.
    pub parent: usize,
    /// Cleared when the node is destroyed or moved out of this graph.
    pub alive: bool,
    /// The node's type tag.
    pub class: String,
    /// The node's content-reference properties, as plain strings.
    pub refs: Vec<ContentRef>,
    /// Everything else the codec knows about the node.
    pub payload: Payload,
}

/// The mathematical shadow of one node: all the pipeline's contracts are
/// stated over sequences of these.
pub ghost struct GNode {
    pub parent: int,
    pub alive: bool,
    pub class: Seq<char>,
    pub refs: Map<Seq<char>, Seq<char>>,
}

/// The content-reference table as a map. Later entries win, but well-formed
/// nodes have distinct keys, so the order never matters.
pub open spec fn refs_map(s: Seq<ContentRef>) -> Map<Seq<char>, Seq<char>>
    decreases s.len(),
{
    if s.len() == 0 {
        Map::empty()
    } else {
        refs_map(s.drop_last()).insert(s.last().key@, s.last().value@)
    }
}

pub open spec fn distinct_keys(s: Seq<ContentRef>) -> bool {
    forall|a: int, b: int| 0 <= a < b < s.len() ==> s[a].key@ != s[b].key@
}

pub open spec fn gnode(n: Node) -> GNode {
    GNode {
        parent: n.parent as int,
        alive: n.alive,
        class: n.class@,
        refs: refs_map(n.refs@),
    }
}

pub open spec fn nodes_view(s: Seq<Node>) -> Seq<GNode> {
    s.map_values(|n: Node| gnode(n))
}

/// Structural well-formedness of one node within a graph view.
pub open spec fn wf_at(v: Seq<GNode>, i: int) -> bool {
    &&& 0 <= v[i].parent < v.len()
    &&& (i == 0 ==> v[i].parent == 0 && v[i].alive)
    &&& (i > 0 ==> v[i].parent < i)
    &&& (v[i].alive ==> v[v[i].parent].alive)
}

/// Structural well-formedness of a whole graph view: non-empty, rooted at
/// node 0, parent indices strictly decreasing, and no live node under a dead
/// parent.
pub open spec fn graph_wf(v: Seq<GNode>) -> bool {
    &&& v.len() >= 1
    &&& forall|i: int| 0 <= i < v.len() ==> #[trigger] wf_at(v, i)
}

/// `i` lies in the subtree rooted at `r`: following parent links from `i`
/// reaches `r`. Decided by the parent links alone, dead or alive.
pub open spec fn in_subtree(v: Seq<GNode>, r: int, i: int) -> bool
    decreases i,
{
    i == r || (0 < i < v.len() && 0 <= v[i].parent < i && in_subtree(v, r, v[i].parent))
}

/// Members of the subtree rooted at `r` never lie before `r` in the vector.
pub proof fn lemma_in_subtree_ge(v: Seq<GNode>, r: int, i: int)
    requires
        in_subtree(v, r, i),
        0 <= r,
    ensures
        i >= r,
    decreases i,
{
    if i != r {
        lemma_in_subtree_ge(v, r, v[i].parent);
    }
}

/// Subtree membership is transitive.
pub proof fn lemma_in_subtree_trans(v: Seq<GNode>, a: int, b: int, c: int)
    requires
        in_subtree(v, b, c),
        in_subtree(v, a, b),
    ensures
        in_subtree(v, a, c),
    decreases c,
{
    if c != b {
        lemma_in_subtree_trans(v, a, b, v[c].parent);
    }
}

/// Subtree membership only looks at parent links at or below `i`, so any two
/// views that agree on those decide it alike.
pub proof fn lemma_in_subtree_frame(v1: Seq<GNode>, v2: Seq<GNode>, r: int, i: int)
    requires
        0 <= i < v1.len(),
        i < v2.len(),
        forall|j: int| 0 <= j <= i ==> v1[j].parent == v2[j].parent,
    ensures
        in_subtree(v1, r, i) == in_subtree(v2, r, i),
    decreases i,
{
    if i != r {
        if 0 < i && 0 <= v1[i].parent < i {
            lemma_in_subtree_frame(v1, v2, r, v1[i].parent);
        }
    }
}

/// How many of the first `n` nodes are live members of the subtree at `r`.
pub open spec fn live_subtree_count(v: Seq<GNode>, r: int, n: int) -> int
    decreases n,
{
    if n <= 0 {
        0
    } else {
        live_subtree_count(v, r, n - 1) + if v[n - 1].alive && in_subtree(v, r, n - 1) {
            1int
        } else {
            0int
        }
    }
}

/// How many of the first `n` nodes are live.
pub open spec fn live_count(v: Seq<GNode>, n: int) -> int
    decreases n,
{
    if n <= 0 {
        0
    } else {
        live_count(v, n - 1) + if v[n - 1].alive {
            1int
        } else {
            0int
        }
    }
}

/// Parent chains are linear: two subtree roots that share a member are
/// themselves nested, one way or the other.
pub proof fn lemma_chain_linear(v: Seq<GNode>, a: int, b: int, c: int)
    requires
        in_subtree(v, a, c),
        in_subtree(v, b, c),
    ensures
        in_subtree(v, a, b) || in_subtree(v, b, a),
    decreases c,
{
    if c == a || c == b {
    } else {
        lemma_chain_linear(v, a, b, v[c].parent);
    }
}

/// Pointwise equal content-reference tables denote the same map.
pub proof fn lemma_refs_map_congruent(a: Seq<ContentRef>, b: Seq<ContentRef>)
    requires
        a.len() == b.len(),
        forall|k: int| 0 <= k < a.len() ==> a[k].key@ == b[k].key@ && a[k].value@ == b[k].value@,
    ensures
        refs_map(a) == refs_map(b),
    decreases a.len(),
{
    if a.len() > 0 {
        lemma_refs_map_congruent(a.drop_last(), b.drop_last());
        assert(refs_map(a) =~= refs_map(b));
    }
}

/// With distinct keys, the first match found by a linear scan is the map's
/// value, and a scan that finds nothing means the key is absent.
pub proof fn lemma_refs_map_lookup(s: Seq<ContentRef>, k: Seq<char>)
    requires
        distinct_keys(s),
    ensures
        refs_map(s).contains_key(k) <==> exists|j: int| 0 <= j < s.len() && s[j].key@ == k,
        forall|j: int|
            0 <= j < s.len() && s[j].key@ == k ==> refs_map(s).contains_key(k) && refs_map(s)[k]
                == s[j].value@,
    decreases s.len(),
{
    if s.len() > 0 {
        assert(distinct_keys(s.drop_last())) by {
            assert(forall|a: int, b: int|
                0 <= a < b < s.len() - 1 ==> s.drop_last()[a].key@ == s[a].key@
                    && s.drop_last()[b].key@ == s[b].key@);
        }
        lemma_refs_map_lookup(s.drop_last(), k);
        assert(forall|j: int| 0 <= j < s.len() - 1 ==> s.drop_last()[j] == s[j]);
    }
}

/// An owned, mutable forest of nodes. See the module documentation for the
/// index discipline.
pub struct SceneGraph {
    pub(crate) nodes: Vec<Node>,
}

impl View for SceneGraph {
    type V = Seq<GNode>;

    closed spec fn view(&self) -> Seq<GNode> {
        nodes_view(self.nodes@)
    }
}

impl SceneGraph {
    /// Representation invariant that the view cannot express: each node's
    /// content-reference table has distinct keys.
    pub closed spec fn rep_wf(&self) -> bool {
        forall|i: int| 0 <= i < self.nodes@.len() ==> distinct_keys(#[trigger] self.nodes@[i].refs@)
    }

    /// Well-formedness: the structural invariant over the view plus the
    /// representation invariant.
    pub open spec fn wf(&self) -> bool {
        &&& graph_wf(self@)
        &&& self.rep_wf()
    }

    /// A fresh single-node graph holding only a root.
    pub fn new(root_class: &str) -> (g: SceneGraph)
        ensures
            g.wf(),
            g@.len() == 1,
            g@[0].class == root_class@,
            g@[0].alive,
            g@[0].refs == Map::<Seq<char>, Seq<char>>::empty(),
    {
        let root = Node {
            parent: 0,
            alive: true,
            class: root_class.to_owned(),
            refs: Vec::new(),
            payload: Payload { name: root_class.to_owned(), props: Vec::new() },
        };
        let mut nodes: Vec<Node> = Vec::new();
        nodes.push(root);
        let g = SceneGraph { nodes };
        assert(g@ =~= seq![gnode(g.nodes@[0])]);
        g
    }

    pub fn node_count(&self) -> (n: usize)
        ensures
            n == self@.len(),
    {
        self.nodes.len()
    }

    pub fn is_alive(&self, i: usize) -> (r: bool)
        requires
            i < self@.len(),
        ensures
            r == self@[i as int].alive,
    {
        self.nodes[i].alive
    }

    pub fn parent_of(&self, i: usize) -> (r: usize)
        requires
            i < self@.len(),
        ensures
            r == self@[i as int].parent,
    {
        self.nodes[i].parent
    }

    pub fn class_of(&self, i: usize) -> (r: &String)
        requires
            i < self@.len(),
        ensures
            r@ == self@[i as int].class,
    {
        &self.nodes[i].class
    }

    /// The value of the content-reference property named `key` on node `i`,
    /// if the node carries one.
    #[verifier::loop_isolation(false)]
    pub fn content_ref_of(&self, i: usize, key: &str) -> (r: Option<&String>)
        requires
            self.wf(),
            i < self@.len(),
        ensures
            match r {
                Some(s) => self@[i as int].refs.contains_key(key@) && self@[i as int].refs[key@]
                    == s@,
                None => !self@[i as int].refs.contains_key(key@),
            },
    {
        proof {
            lemma_refs_map_lookup(self.nodes@[i as int].refs@, key@);
        }
        let refs = &self.nodes[i].refs;
        let mut j: usize = 0;
        while j < refs.len()
            invariant
                j <= refs@.len(),
                refs == &self.nodes@[i as int].refs,
                forall|t: int| 0 <= t < j ==> refs@[t].key@ != key@,
            decreases refs@.len() - j,
        {
            if str_eq(refs[j].key.as_str(), key) {
                return Some(&refs[j].value);
            }
            j += 1;
        }
        None
    }

    /// Appends a fresh live child of `parent` and returns its index.
    pub fn add_child(&mut self, parent: usize, class: &str) -> (i: usize)
        requires
            old(self).wf(),
            parent < old(self)@.len(),
            old(self)@[parent as int].alive,
        ensures
            final(self).wf(),
            i == old(self)@.len(),
            final(self)@ == old(self)@.push(
                GNode {
                    parent: parent as int,
                    alive: true,
                    class: class@,
                    refs: Map::<Seq<char>, Seq<char>>::empty(),
                },
            ),
    {
        let i = self.nodes.len();
        let node = Node {
            parent,
            alive: true,
            class: class.to_owned(),
            refs: Vec::new(),
            payload: Payload { name: class.to_owned(), props: Vec::new() },
        };
        self.nodes.push(node);
        proof {
            assert(self@ =~= old(self)@.push(gnode(self.nodes@.last())));
            assert forall|j: int| 0 <= j < self@.len() implies wf_at(self@, j) by {
                if j < i {
                    assert(wf_at(old(self)@, j));
                }
            }
        }
        i
    }

    /// Attaches one content-reference property to node `i`. Refuses (by
    /// contract) a key the node already carries.
    pub fn add_content_ref(&mut self, i: usize, key: &str, value: &str)
        requires
            old(self).wf(),
            i < old(self)@.len(),
            !old(self)@[i as int].refs.contains_key(key@),
        ensures
            final(self).wf(),
            final(self)@ == old(self)@.update(
                i as int,
                GNode { refs: old(self)@[i as int].refs.insert(key@, value@), ..old(self)@[i as int] },
            ),
    {
        proof {
            lemma_refs_map_lookup(self.nodes@[i as int].refs@, key@);
        }
        let entry = ContentRef { key: key.to_owned(), value: value.to_owned() };
        self.nodes[i].refs.push(entry);
        self.nodes[i].payload.props.push((key.to_owned(), content_id_variant(value)));
        proof {
            let v0 = old(self)@;
            let old_refs = old(self).nodes@[i as int].refs@;
            let new_refs = self.nodes@[i as int].refs@;
            assert(new_refs.last().key@ == key@ && new_refs.last().value@ == value@);
            assert(new_refs.drop_last() =~= old_refs);
            assert(self@ =~= v0.update(
                i as int,
                GNode { refs: v0[i as int].refs.insert(key@, value@), ..v0[i as int] },
            ));
            assert forall|j: int| 0 <= j < self@.len() implies wf_at(self@, j) by {
                assert(wf_at(v0, j));
            }
            assert forall|t: int| 0 <= t < self.nodes@.len() implies distinct_keys(
                #[trigger] self.nodes@[t].refs@,
            ) by {
                assert(distinct_keys(old(self).nodes@[t].refs@));
                if t == i {
                    assert(forall|a: int|
                        0 <= a < old_refs.len() ==> #[trigger] new_refs[a].key@ == old_refs[a].key@);
                    assert(new_refs.last().key@ == key@);
                }
            }
        }
    }

    /// The live children of node `i`, in index order.
    #[verifier::loop_isolation(false)]
    pub fn children_of(&self, i: usize) -> (r: Vec<usize>)
        requires
            i < self@.len(),
        ensures
            forall|k: int|
                0 <= k < r@.len() ==> {
                    let c = #[trigger] r@[k];
                    &&& i < c < self@.len()
                    &&& self@[c as int].parent == i
                    &&& self@[c as int].alive
                },
            forall|c: int|
                (i as int) < c < self@.len() && self@[c].parent == i && self@[c].alive
                    ==> r@.contains(c as usize),
    {
        let mut out: Vec<usize> = Vec::new();
        let n = self.nodes.len();
        let mut j: usize = i + 1;
        while j < n
            invariant
                i < j <= n,
                n == self@.len(),
                forall|k: int|
                    0 <= k < out@.len() ==> {
                        let c = #[trigger] out@[k];
                        &&& i < c < self@.len()
                        &&& self@[c as int].parent == i
                        &&& self@[c as int].alive
                    },
                forall|c: int|
                    (i as int) < c < j && self@[c].parent == i && self@[c].alive ==> out@.contains(
                        c as usize,
                    ),
            decreases n - j,
        {
            let ghost out0 = out@;
            if self.nodes[j].parent == i && self.nodes[j].alive {
                out.push(j);
            }
            proof {
                assert forall|c: int|
                    (i as int) < c < j + 1 && self@[c].parent == i && self@[c].alive implies out@
                    .contains(c as usize) by {
                    if c < j {
                        let k = choose|k: int| 0 <= k < out0.len() && out0[k] == c as usize;
                        assert(out@[k] == c as usize);
                    } else {
                        assert(out@.last() == c as usize);
                    }
                }
            }
            j += 1;
        }
        out
    }

    /// Wraps a node vector that already satisfies the graph invariants.
    pub(crate) fn from_nodes(nodes: Vec<Node>) -> (g: SceneGraph)
        requires
            graph_wf(nodes_view(nodes@)),
            forall|j: int| 0 <= j < nodes@.len() ==> distinct_keys(#[trigger] nodes@[j].refs@),
        ensures
            g.wf(),
            g@ == nodes_view(nodes@),
    {
        SceneGraph { nodes }
    }

    /// The underlying node vector, for the codec boundary.
    pub(crate) fn as_nodes(&self) -> (r: &Vec<Node>)
        ensures
            nodes_view(r@) == self@,
    {
        &self.nodes
    }

    /// Clears the `alive` flag of every node in the subtree rooted at `r`,
    /// leaving every other field of every node untouched.
    #[verifier::loop_isolation(false)]
    pub fn destroy(&mut self, r: usize)
        requires
            old(self).wf(),
            0 < r < old(self)@.len(),
        ensures
            final(self).wf(),
            final(self)@.len() == old(self)@.len(),
            forall|i: int|
                0 <= i < final(self)@.len() ==> {
                    let n0 = #[trigger] old(self)@[i];
                    &&& final(self)@[i].parent == n0.parent
                    &&& final(self)@[i].class == n0.class
                    &&& final(self)@[i].refs == n0.refs
                    &&& final(self)@[i].alive == (n0.alive && !in_subtree(old(self)@, r as int, i))
                },
    {
        let ghost v0 = self@;
        let n = self.nodes.len();
        let mut mark: Vec<bool> = Vec::new();
        let mut i: usize = 0;
        while i < n
            invariant
                i <= n,
                n == self.nodes@.len(),
                n == v0.len(),
                0 < r < n,
                graph_wf(v0),
                old(self).rep_wf(),
                mark@.len() == i,
                forall|j: int| i <= j < n ==> self.nodes@[j] == old(self).nodes@[j],
                forall|j: int| 0 <= j < i ==> mark@[j] == in_subtree(v0, r as int, j),
                forall|j: int|
                    0 <= j < i ==> {
                        let m0 = old(self).nodes@[j];
                        let m1 = #[trigger] self.nodes@[j];
                        &&& m1.parent == m0.parent
                        &&& m1.class == m0.class
                        &&& m1.refs == m0.refs
                        &&& m1.payload == m0.payload
                        &&& m1.alive == (m0.alive && !in_subtree(v0, r as int, j))
                    },
            decreases n - i,
        {
            proof {
                assert(wf_at(v0, i as int));
                assert(v0[i as int] == gnode(old(self).nodes@[i as int]));
            }
            let is_in: bool = if i == r {
                true
            } else if i == 0 {
                false
            } else {
                let p = self.nodes[i].parent;
                mark[p]
            };
            mark.push(is_in);
            if is_in {
                self.nodes[i].alive = false;
            }
            i += 1;
        }
        proof {
            assert(self@ =~= nodes_view(self.nodes@));
            assert forall|j: int| 0 <= j < self@.len() implies {
                let n0 = #[trigger] old(self)@[j];
                &&& self@[j].parent == n0.parent
                &&& self@[j].class == n0.class
                &&& self@[j].refs == n0.refs
                &&& self@[j].alive == (n0.alive && !in_subtree(old(self)@, r as int, j))
            } by {
                assert(old(self)@[j] == gnode(old(self).nodes@[j]));
                assert(self@[j] == gnode(self.nodes@[j]));
                lemma_in_subtree_frame(v0, old(self)@, r as int, j);
            }
            assert forall|j: int| 0 <= j < self@.len() implies wf_at(self@, j) by {
                assert(wf_at(v0, j));
                if self@[j].alive {
                    let p = self@[j].parent;
                    assert(!in_subtree(v0, r as int, j));
                    if j != 0 && in_subtree(v0, r as int, p) {
                        assert(in_subtree(v0, r as int, j));
                    }
                }
            }
            assert forall|t: int| 0 <= t < self.nodes@.len() implies distinct_keys(
                #[trigger] self.nodes@[t].refs@,
            ) by {
                assert(distinct_keys(old(self).nodes@[t].refs@));
                assert(self.nodes@[t].refs@ == old(self).nodes@[t].refs@);
            }
        }
    }
}

/// Relies on `rbx_types::Variant::ContentId` (via `From<&str>`): wraps a
/// plain string as a content-reference property value, so that nodes built
/// by hand re-encode with their reference intact.
#[verifier::external_body]
fn content_id_variant(value: &str) -> rbx_types::Variant {
    rbx_types::Variant::ContentId(value.into())
}

/// Copies a content-reference table entry by entry.
#[verifier::loop_isolation(false)]
fn clone_refs(v: &Vec<ContentRef>) -> (r: Vec<ContentRef>)
    ensures
        r@.len() == v@.len(),
        forall|k: int| 0 <= k < v@.len() ==> r@[k].key@ == v@[k].key@ && r@[k].value@ == v@[k].value@,
        refs_map(r@) == refs_map(v@),
        distinct_keys(v@) ==> distinct_keys(r@),
{
    let mut out: Vec<ContentRef> = Vec::new();
    let mut j: usize = 0;
    while j < v.len()
        invariant
            j <= v@.len(),
            out@.len() == j,
            forall|k: int| 0 <= k < j ==> out@[k].key@ == v@[k].key@ && out@[k].value@ == v@[k].value@,
        decreases v@.len() - j,
    {
        out.push(ContentRef { key: v[j].key.clone(), value: v[j].value.clone() });
        j += 1;
    }
    proof {
        lemma_refs_map_congruent(out@, v@);
    }
    out
}

/// What `move_subtree` promises about its relocation map `m`: `m` sends
/// exactly the live members of the subtree of `r` in `v0s` (the source before
/// the call) to the indices appended to the destination, order-preserving,
/// root first at `base`, with every copied node live, field-identical, and a
/// member of the relocated subtree; parent edges are carried over, except that
/// the subtree root is re-parented under `p`.
pub open spec fn moved_subtree(
    v0s: Seq<GNode>,
    r: int,
    vd: Seq<GNode>,
    base: int,
    p: int,
    m: Map<int, int>,
) -> bool {
    &&& forall|t: int|
        m.contains_key(t) <==> (0 <= t < v0s.len() && v0s[t].alive && in_subtree(v0s, r, t))
    &&& forall|t: int| #[trigger] m.contains_key(t) ==> base <= m[t] < vd.len()
    &&& forall|t1: int, t2: int|
        m.contains_key(t1) && m.contains_key(t2) && t1 < t2 ==> m[t1] < m[t2]
    &&& forall|t: int| #[trigger] m.contains_key(t) && t != r ==> m.contains_key(v0s[t].parent)
    &&& forall|t: int| #[trigger] m.contains_key(t) ==> {
        let d = vd[m[t]];
        &&& d.class == v0s[t].class
        &&& d.refs == v0s[t].refs
        &&& d.alive
        &&& d.parent == (if t == r { p } else { m[v0s[t].parent] })
        &&& in_subtree(vd, base, m[t])
    }
}

/// Moves the live subtree rooted at `r` out of `src` and into `dst` as a
/// child of `p`: the subtree's nodes are cleared in `src` and copies of them
/// are appended to `dst` in index order, the root first. Returns the
/// subtree's index in `dst` together with the relocation map.
#[verifier::rlimit(100)]
pub fn move_subtree(src: &mut SceneGraph, r: usize, dst: &mut SceneGraph, p: usize) -> (ret: (
    usize,
    Ghost<Map<int, int>>,
))
    requires
        old(src).wf(),
        old(dst).wf(),
        0 < r < old(src)@.len(),
        old(src)@[r as int].alive,
        p < old(dst)@.len(),
        old(dst)@[p as int].alive,
    ensures
        final(src).wf(),
        final(dst).wf(),
        final(src)@.len() == old(src)@.len(),
        forall|i: int|
            0 <= i < final(src)@.len() ==> {
                let n0 = #[trigger] old(src)@[i];
                &&& final(src)@[i].parent == n0.parent
                &&& final(src)@[i].class == n0.class
                &&& final(src)@[i].refs == n0.refs
                &&& final(src)@[i].alive == (n0.alive && !in_subtree(old(src)@, r as int, i))
            },
        final(dst)@.len() == old(dst)@.len() + live_subtree_count(
            old(src)@,
            r as int,
            old(src)@.len() as int,
        ),
        forall|q: int| 0 <= q < old(dst)@.len() ==> final(dst)@[q] == old(dst)@[q],
        ret.0 == old(dst)@.len(),
        ret.1@.contains_key(r as int) && ret.1@[r as int] == ret.0,
        moved_subtree(
            old(src)@,
            r as int,
            final(dst)@,
            old(dst)@.len() as int,
            p as int,
            ret.1@,
        ),
{
    let ghost v0s = src@;
    let ghost nodes0 = src.nodes@;
    let ghost dnodes0 = dst.nodes@;
    let ghost v0d = dst@;
    let base = dst.nodes.len();
    let n = src.nodes.len();
    let mut moved: Vec<Option<usize>> = Vec::new();
    let ghost m = Map::<int, int>::empty();
    let mut m = Ghost(m);
    let mut i: usize = 0;
    while i < n
        invariant
            n == v0s.len(),
            v0s == nodes_view(nodes0),
            nodes0.len() == n,
            graph_wf(v0s),
            forall|t: int| 0 <= t < n ==> distinct_keys(#[trigger] nodes0[t].refs@),
            0 < r < n,
            v0s[r as int].alive,
            base == dnodes0.len(),
            v0d == nodes_view(dnodes0),
            v0d.len() == base,
            graph_wf(v0d),
            p < base,
            v0d[p as int].alive,
            i <= n,
            moved@.len() == i,
            src.nodes@.len() == n,
            forall|j: int| i <= j < n ==> src.nodes@[j] == nodes0[j],
            forall|j: int|
                0 <= j < i ==> {
                    let m1 = #[trigger] src.nodes@[j];
                    &&& m1.parent == nodes0[j].parent
                    &&& m1.class == nodes0[j].class
                    &&& m1.refs == nodes0[j].refs
                    &&& m1.alive == (nodes0[j].alive && !in_subtree(v0s, r as int, j))
                },
            forall|j: int|
                0 <= j < i ==> (#[trigger] moved@[j] is Some <==> (v0s[j].alive && in_subtree(
                    v0s,
                    r as int,
                    j,
                ))),
            forall|j: int|
                0 <= j < i ==> match #[trigger] moved@[j] {
                    Some(q) => m@.contains_key(j) && m@[j] == q as int,
                    None => !m@.contains_key(j),
                },
            forall|t: int|
                m@.contains_key(t) <==> (0 <= t < i && v0s[t].alive && in_subtree(
                    v0s,
                    r as int,
                    t,
                )),
            dst.nodes@.len() == base + live_subtree_count(v0s, r as int, i as int),
            forall|q: int| 0 <= q < base ==> dst.nodes@[q] == dnodes0[q],
            i <= r ==> dst.nodes@.len() == base,
            m@.contains_key(r as int) ==> m@[r as int] == base as int,
            forall|t: int| #[trigger] m@.contains_key(t) ==> base <= m@[t] < dst.nodes@.len(),
            forall|t1: int, t2: int|
                m@.contains_key(t1) && m@.contains_key(t2) && t1 < t2 ==> m@[t1] < m@[t2],
            forall|t: int| #[trigger] m@.contains_key(t) && t != r ==> m@.contains_key(
                v0s[t].parent,
            ),
            forall|t: int| #[trigger] m@.contains_key(t) ==> {
                let d = dst@[m@[t]];
                &&& d.class == v0s[t].class
                &&& d.refs == v0s[t].refs
                &&& d.alive
                &&& d.parent == (if t == r { p as int } else { m@[v0s[t].parent] })
                &&& in_subtree(dst@, base as int, m@[t])
            },
            graph_wf(dst@),
            dst.rep_wf(),
        decreases n - i,
    {
        proof {
            assert(wf_at(v0s, i as int));
            assert(src.nodes@[i as int] == nodes0[i as int]);
            assert(v0s[i as int] == gnode(nodes0[i as int]));
        }
        let cur_len = dst.nodes.len();
        let push_parent: Option<usize> = if i == r {
            Some(p)
        } else if i > 0 && src.nodes[i].alive {
            let pp = src.nodes[i].parent;
            proof {
                if i < r {
                    if in_subtree(v0s, r as int, pp as int) {
                        lemma_in_subtree_ge(v0s, r as int, pp as int);
                    }
                }
            }
            moved[pp]
        } else {
            proof {
                if i == 0 && i != r && in_subtree(v0s, r as int, 0) {
                    assert(r == 0);
                }
            }
            None
        };
        let ghost dst_before = dst@;
        match push_parent {
            Some(q) => {
                let new_node = Node {
                    parent: q,
                    alive: true,
                    class: src.nodes[i].class.clone(),
                    refs: clone_refs(&src.nodes[i].refs),
                    payload: src.nodes[i].payload.clone(),
                };
                dst.nodes.push(new_node);
                src.nodes[i].alive = false;
                moved.push(Some(cur_len));
                proof {
                    let ghost m_before = m@;
                    m@ = m@.insert(i as int, cur_len as int);
                    assert(dst@ =~= dst_before.push(gnode(dst.nodes@.last())));
                    assert(m@.contains_key(i as int) && m@[i as int] == cur_len as int);
                    if i == r {
                        assert(cur_len == base);
                    }
                    assert forall|t: int|
                        #[trigger] m@.contains_key(t) implies in_subtree(
                        dst@,
                        base as int,
                        m@[t],
                    ) && wf_at(dst@, m@[t]) by {
                        if t != i {
                            lemma_in_subtree_frame(dst_before, dst@, base as int, m@[t]);
                            assert(wf_at(dst_before, m@[t]));
                        } else {
                            if i != r {
                                assert(in_subtree(dst_before, base as int, q as int));
                                lemma_in_subtree_frame(dst_before, dst@, base as int, q as int);
                            }
                        }
                    }
                    assert forall|j: int| 0 <= j < dst@.len() implies wf_at(dst@, j) by {
                        if j < dst_before.len() {
                            assert(wf_at(dst_before, j));
                        }
                    }
                }
            },
            None => {
                moved.push(None);
            },
        }
        i += 1;
    }
    proof {
        assert forall|j: int| 0 <= j < final(src)@.len() implies {
            let n0 = #[trigger] old(src)@[j];
            &&& src@[j].parent == n0.parent
            &&& src@[j].class == n0.class
            &&& src@[j].refs == n0.refs
            &&& src@[j].alive == (n0.alive && !in_subtree(old(src)@, r as int, j))
        } by {
            assert(src@[j] == gnode(src.nodes@[j]));
            assert(old(src)@[j] == gnode(nodes0[j]));
        }
        assert forall|j: int| 0 <= j < src@.len() implies wf_at(src@, j) by {
            assert(wf_at(v0s, j));
            if src@[j].alive {
                let pp = src@[j].parent;
                assert(!in_subtree(v0s, r as int, j));
                if j != 0 && in_subtree(v0s, r as int, pp) {
                    assert(in_subtree(v0s, r as int, j));
                }
            }
        }
        assert forall|t: int| 0 <= t < src.nodes@.len() implies distinct_keys(
            #[trigger] src.nodes@[t].refs@,
        ) by {
            assert(distinct_keys(nodes0[t].refs@));
        }
        assert forall|q: int| 0 <= q < old(dst)@.len() implies dst@[q] == old(dst)@[q] by {
            assert(dst.nodes@[q] == dnodes0[q]);
            assert(dst@[q] == gnode(dst.nodes@[q]));
            assert(old(dst)@[q] == gnode(dnodes0[q]));
        }
    }
    (base, m)
}

/// What `compact` promises about its renumbering map `m`: exactly the live
/// nodes survive, in their original order, with the root staying at index 0,
/// every field carried over and parent edges renumbered.
pub open spec fn compacted(v0: Seq<GNode>, vc: Seq<GNode>, m: Map<int, int>) -> bool {
    &&& forall|t: int| m.contains_key(t) <==> (0 <= t < v0.len() && v0[t].alive)
    &&& forall|t: int| #[trigger] m.contains_key(t) ==> 0 <= m[t] < vc.len()
    &&& forall|t1: int, t2: int|
        m.contains_key(t1) && m.contains_key(t2) && t1 < t2 ==> m[t1] < m[t2]
    &&& m.contains_key(0) && m[0] == 0
    &&& forall|t: int| #[trigger] m.contains_key(t) ==> {
        let d = vc[m[t]];
        &&& d.class == v0[t].class
        &&& d.refs == v0[t].refs
        &&& d.alive
        &&& d.parent == m[v0[t].parent]
    }
}

impl SceneGraph {
    /// A copy of this graph holding only its live nodes, renumbered densely.
    /// Returns the copy together with the renumbering map.
    #[verifier::rlimit(100)]
    pub fn compact(&self) -> (ret: (SceneGraph, Ghost<Map<int, int>>))
        requires
            self.wf(),
        ensures
            ret.0.wf(),
            ret.0@.len() >= 1,
            ret.0@.len() == live_count(self@, self@.len() as int),
            forall|j: int| 0 <= j < ret.0@.len() ==> #[trigger] ret.0@[j].alive,
            compacted(self@, ret.0@, ret.1@),
    {
        let ghost v0 = self@;
        let ghost nodes0 = self.nodes@;
        let n = self.nodes.len();
        let mut out_nodes: Vec<Node> = Vec::new();
        let mut moved: Vec<Option<usize>> = Vec::new();
        let ghost m = Map::<int, int>::empty();
        let mut m = Ghost(m);
        let mut i: usize = 0;
        while i < n
            invariant
                n == v0.len(),
                v0 == nodes_view(nodes0),
                nodes0.len() == n,
                graph_wf(v0),
                forall|t: int| 0 <= t < n ==> distinct_keys(#[trigger] nodes0[t].refs@),
                i <= n,
                moved@.len() == i,
                self.nodes@ == nodes0,
                forall|j: int|
                    0 <= j < i ==> (#[trigger] moved@[j] is Some <==> v0[j].alive),
                forall|j: int|
                    0 <= j < i ==> match #[trigger] moved@[j] {
                        Some(q) => m@.contains_key(j) && m@[j] == q as int,
                        None => !m@.contains_key(j),
                    },
                forall|t: int| m@.contains_key(t) <==> (0 <= t < i && v0[t].alive),
                forall|t: int| #[trigger] m@.contains_key(t) ==> 0 <= m@[t] < out_nodes@.len(),
                forall|t1: int, t2: int|
                    m@.contains_key(t1) && m@.contains_key(t2) && t1 < t2 ==> m@[t1] < m@[t2],
                i > 0 ==> m@.contains_key(0) && m@[0] == 0,
                forall|t: int| #[trigger] m@.contains_key(t) ==> {
                    let d = nodes_view(out_nodes@)[m@[t]];
                    &&& d.class == v0[t].class
                    &&& d.refs == v0[t].refs
                    &&& d.alive
                    &&& d.parent == m@[v0[t].parent]
                },
                forall|j: int| 0 <= j < out_nodes@.len() ==> #[trigger] nodes_view(out_nodes@)[j].alive,
                forall|j: int| 0 <= j < out_nodes@.len() ==> wf_at(nodes_view(out_nodes@), j),
                forall|t: int| 0 <= t < out_nodes@.len() ==> distinct_keys(
                    #[trigger] out_nodes@[t].refs@,
                ),
                out_nodes@.len() == live_count(v0, i as int),
                i == 0 ==> out_nodes@.len() == 0,
                i > 0 ==> out_nodes@.len() >= 1,
            decreases n - i,
        {
            proof {
                assert(wf_at(v0, i as int));
                assert(v0[i as int] == gnode(nodes0[i as int]));
            }
            let ghost out_before = nodes_view(out_nodes@);
            if self.nodes[i].alive {
                let pp = self.nodes[i].parent;
                let pnew: usize = if i == 0 {
                    0
                } else {
                    proof {
                        assert(v0[pp as int].alive);
                    }
                    match moved[pp] {
                        Some(q) => q,
                        None => 0,
                    }
                };
                let cnt = out_nodes.len();
                let new_node = Node {
                    parent: pnew,
                    alive: true,
                    class: self.nodes[i].class.clone(),
                    refs: clone_refs(&self.nodes[i].refs),
                    payload: self.nodes[i].payload.clone(),
                };
                out_nodes.push(new_node);
                moved.push(Some(cnt));
                proof {
                    m@ = m@.insert(i as int, cnt as int);
                    assert(nodes_view(out_nodes@) =~= out_before.push(
                        gnode(out_nodes@.last()),
                    ));
                    assert forall|t: int| #[trigger] m@.contains_key(t) implies {
                        let d = nodes_view(out_nodes@)[m@[t]];
                        &&& d.class == v0[t].class
                        &&& d.refs == v0[t].refs
                        &&& d.alive
                        &&& d.parent == m@[v0[t].parent]
                    } by {
                        if t != i {
                            assert(v0[t].parent != i) by {
                                assert(wf_at(v0, t));
                            }
                        }
                    }
                    assert forall|j: int| 0 <= j < out_nodes@.len() implies wf_at(
                        nodes_view(out_nodes@),
                        j,
                    ) by {
                        if j < out_before.len() {
                            assert(wf_at(out_before, j));
                        }
                    }
                }
            } else {
                moved.push(None);
            }
            i += 1;
        }
        let g = SceneGraph { nodes: out_nodes };
        proof {
            assert(v0[0].alive);
        }
        (g, m)
    }
}

/// Character-by-character string equality, usable on any two string slices.
#[verifier::loop_isolation(false)]
pub fn str_eq(a: &str, b: &str) -> (r: bool)
    ensures
        r == (a@ == b@),
{
    let na = a.unicode_len();
    let nb = b.unicode_len();
    if na != nb {
        return false;
    }
    let mut i: usize = 0;
    while i < na
        invariant
            i <= na,
            na == a@.len(),
            na == b@.len(),
            forall|j: int| 0 <= j < i ==> a@[j] == b@[j],
        decreases na - i,
    {
        if a.get_char(i) != b.get_char(i) {
            return false;
        }
        i += 1;
    }
    proof {
        assert(a@ =~= b@);
    }
    true
}

} // verus!
