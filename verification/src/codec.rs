//! The boundary to the binary scene codec. Decoding and encoding are the
//! codec's business; the library only states what shape a decoded graph has
//! and feeds well-formed node vectors back for encoding.

use vstd::prelude::*;

use crate::graph::{distinct_keys, graph_wf, nodes_view, GNode, Node, SceneGraph};

verus! {

/// The shape a binary payload decodes to: `None` when the payload is
/// malformed, otherwise the graph view of the decoded forest. Decoding is a
/// pure function of the bytes, so the shape can be named without stating it.
pub uninterp spec fn decode_shape(bytes: Seq<u8>) -> Option<Seq<GNode>>;

/// The shape of a decoded graph held by the codec's own representation.
pub uninterp spec fn dom_shape(dom: rbx_dom_weak::WeakDom) -> Seq<GNode>;

/// Runs the decoder on a blocking thread of the surrounding task runtime (or
/// of a fresh single-thread runtime when there is none), so that a decoder
/// abort stays confined to that thread and comes back as a join error. The
/// closure holds nothing but the decoder call itself.
#[verifier::external_body]
fn decode_contained(owned: Vec<u8>) -> Result<rbx_dom_weak::WeakDom, String> {
    let work = move || rbx_binary::from_reader(owned.as_slice());
    let joined = match tokio::runtime::Handle::try_current() {
        Ok(handle) => futures::executor::block_on(handle.spawn_blocking(work)),
        Err(_) => match tokio::runtime::Builder::new_current_thread().build() {
            Ok(rt) => {
                let task = rt.spawn_blocking(work);
                rt.block_on(task)
            },
            Err(e) => return Err(e.to_string()),
        },
    };
    match joined {
        Ok(decoded) => decoded.map_err(|e| e.to_string()),
        Err(_) => Err("malformed payload: the decoder aborted".to_owned()),
    }
}

/// Relies on `rbx_binary::from_reader`: decoding is a pure function of the
/// byte payload and rejects the payloads it cannot parse. On some corrupted
/// payloads the decoder aborts instead of returning its error; the abort is
/// contained by `decode_contained`, so every malformed payload is reported
/// as an error of its own unit of work and never takes the run down.
#[verifier::external_body]
fn read_dom(bytes: &Vec<u8>) -> (r: Result<rbx_dom_weak::WeakDom, String>)
    ensures
        match r {
            Ok(dom) => decode_shape(bytes@) == Some(dom_shape(dom)),
            Err(_) => decode_shape(bytes@) is None,
        },
{
    decode_contained(bytes.clone())
}

/// Projects one codec instance to a library node. The parent index is the
/// caller's to supply; content-reference property values (the codec's older
/// plain-id form and its newer uri form alike) become plain strings, and
/// every property is kept opaquely for re-encoding.
/// Tells the codec's content-reference property values apart from every
/// other value: the older plain-id form and the newer uri form both carry a
/// plain reference string.
#[verifier::external_body]
fn variant_ref_string(v: &rbx_types::Variant) -> Option<String> {
    match v {
        rbx_types::Variant::ContentId(c) => Some(c.as_str().to_owned()),
        rbx_types::Variant::Content(c) => match c.value() {
            rbx_types::ContentType::Uri(uri) => Some(uri.clone()),
            _ => None,
        },
        _ => None,
    }
}

#[verifier::external_body]
fn convert_instance(inst: &rbx_dom_weak::Instance, parent: usize) -> Node {
    let mut refs: Vec<crate::graph::ContentRef> = Vec::new();
    let mut props: Vec<(String, rbx_types::Variant)> = Vec::new();
    for (k, v) in inst.properties.iter() {
        if let Some(value) = variant_ref_string(v) {
            refs.push(crate::graph::ContentRef { key: k.to_string(), value });
        }
        props.push((k.to_string(), v.clone()));
    }
    Node {
        parent,
        alive: true,
        class: inst.class.to_string(),
        refs,
        payload: crate::graph::Payload { name: inst.name.clone(), props },
    }
}

/// Relies on `rbx_dom_weak::WeakDom::descendants`, which yields every
/// instance of the graph top-down (each parent strictly before its children,
/// the root first), and on each instance's public fields. The result is the
/// dom's shape: a well-formed, fully live node vector whose
/// content-reference tables have distinct keys.
#[verifier::external_body]
fn flatten_dom(dom: &rbx_dom_weak::WeakDom) -> (nodes: Vec<Node>)
    ensures
        nodes_view(nodes@) == dom_shape(*dom),
        graph_wf(nodes_view(nodes@)),
        forall|j: int| 0 <= j < nodes@.len() ==> #[trigger] nodes_view(nodes@)[j].alive,
        forall|j: int| 0 <= j < nodes@.len() ==> distinct_keys(#[trigger] nodes@[j].refs@),
{
    let mut index: std::collections::HashMap<rbx_types::Ref, usize> =
        std::collections::HashMap::new();
    let mut nodes: Vec<Node> = Vec::new();
    for inst in dom.descendants() {
        let parent: usize = index.get(&inst.parent()).copied().unwrap_or(0);
        index.insert(inst.referent(), nodes.len());
        nodes.push(convert_instance(inst, parent));
    }
    nodes
}

/// Rebuilds one codec instance description from a library node.
#[verifier::external_body]
fn builder_of(node: &Node) -> rbx_dom_weak::InstanceBuilder {
    let mut b = rbx_dom_weak::InstanceBuilder::new(node.class.as_str())
        .with_name(node.payload.name.as_str());
    for (k, v) in node.payload.props.iter() {
        b.add_property(rbx_dom_weak::ustr(k.as_str()), v.clone());
    }
    b
}

/// Relies on `rbx_dom_weak::WeakDom::new` / `insert` and
/// `rbx_binary::to_writer`: rebuilds the codec's representation from a
/// well-formed, fully live node vector (node 0 becoming the synthetic root)
/// and serializes the root's children.
#[verifier::external_body]
fn write_dom(nodes: &Vec<Node>) -> (r: Result<Vec<u8>, String>)
    requires
        graph_wf(nodes_view(nodes@)),
        forall|j: int| 0 <= j < nodes@.len() ==> #[trigger] nodes_view(nodes@)[j].alive,
{
    let mut dom = rbx_dom_weak::WeakDom::new(builder_of(&nodes[0]));
    let mut refs: Vec<rbx_types::Ref> = vec![dom.root_ref()];
    for i in 1..nodes.len() {
        let r = dom.insert(refs[nodes[i].parent], builder_of(&nodes[i]));
        refs.push(r);
    }
    let mut buf: Vec<u8> = Vec::new();
    match rbx_binary::to_writer(&mut buf, &dom, dom.root().children()) {
        Ok(()) => Ok(buf),
        Err(e) => Err(e.to_string()),
    }
}

/// Decodes a binary payload into a fresh, fully live scene graph; fails
/// exactly on the payloads the codec cannot parse.
pub fn decode_graph(bytes: &Vec<u8>) -> (r: Result<SceneGraph, String>)
    ensures
        match r {
            Ok(g) => {
                &&& g.wf()
                &&& g@.len() >= 1
                &&& forall|j: int| 0 <= j < g@.len() ==> #[trigger] g@[j].alive
                &&& decode_shape(bytes@) == Some(g@)
            },
            Err(_) => decode_shape(bytes@) is None,
        },
{
    match read_dom(bytes) {
        Ok(dom) => {
            let nodes = flatten_dom(&dom);
            Ok(SceneGraph::from_nodes(nodes))
        },
        Err(e) => Err(e),
    }
}

/// Encodes the live part of a graph into the binary scene format. Nothing
/// can be promised of the bytes: the encoding depends on the nodes' opaque
/// property payloads, which no specification here ranges over. What is
/// handed to the encoder — exactly the live nodes, renumbered — is pinned by
/// `compact`'s contract.
pub fn serialize_scene(g: &SceneGraph) -> (r: Result<Vec<u8>, String>)
    requires
        g.wf(),
{
    let (compacted, _m) = g.compact();
    write_dom(compacted.as_nodes())
}

} // verus!
