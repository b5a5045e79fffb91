//! Tests of the graph model and the transplant protocol.

use transplant::cache::ContentCache;
use transplant::codec::{decode_graph, serialize_scene};
use transplant::failures::{FailKind, FailureLog};
use transplant::graph::SceneGraph;
use transplant::scan::scan_graph;
use transplant::transplant::{process_scene, transplant_graphs, transplant_one, SceneRecord};

/// Builds a scene `root -> parent -> wrapper -> placeholder(referencing id)`.
fn scene_with_placeholder(id: &str) -> (SceneGraph, usize, usize, usize) {
    let mut scene = SceneGraph::new("DataModel");
    let parent = scene.add_child(0, "Workspace");
    let wrapper = scene.add_child(parent, "Model");
    let placeholder = scene.add_child(wrapper, "PackageLink");
    let full = format!("rbxassetid://{}", id);
    scene.add_content_ref(placeholder, "PackageId", &full);
    (scene, parent, wrapper, placeholder)
}

/// Builds content `root -> model -> part`: a root child with one existing
/// child of its own.
fn content_graph() -> SceneGraph {
    let mut content = SceneGraph::new("DataModel");
    let model = content.add_child(0, "Model");
    let _part = content.add_child(model, "Part");
    content
}

#[test]
fn transplant_splices_content_under_group_parent() {
    let (mut scene, parent, wrapper, placeholder) = scene_with_placeholder("77");
    let content = content_graph();
    let (new_root, _maps) = transplant_graphs(&mut scene, content, placeholder, wrapper, parent);

    // The group parent now owns the relocated content root.
    assert!(scene.children_of(parent).contains(&new_root));
    assert_eq!(scene.class_of(new_root), "Model");
    // The content root keeps its own child and gains the placeholder.
    let kids = scene.children_of(new_root);
    let classes: Vec<String> = kids.iter().map(|&k| scene.class_of(k).clone()).collect();
    assert!(classes.iter().any(|c| c == "Part"));
    assert!(classes.iter().any(|c| c == "PackageLink"));
    // The relocated placeholder keeps its identifying property.
    let relocated = *kids
        .iter()
        .find(|&&k| scene.class_of(k) == "PackageLink")
        .unwrap();
    assert_eq!(
        scene.content_ref_of(relocated, "PackageId").unwrap(),
        "rbxassetid://77"
    );
    // The wrapper is gone from the live scene.
    assert!(!scene.is_alive(wrapper));
    assert!(!scene.children_of(parent).contains(&wrapper));
}

#[test]
fn missing_content_leaves_scene_untouched_and_reports_once() {
    let (scene, _parent, _wrapper, _placeholder) = scene_with_placeholder("999");
    let mut log = FailureLog::new();
    let items = {
        let mut l = FailureLog::new();
        scan_graph(&scene, 42, &mut l)
    };
    assert_eq!(items.len(), 1);
    let before_len = scene.node_count();
    let alive_before: Vec<bool> = (0..before_len).map(|i| scene.is_alive(i)).collect();

    let cache = ContentCache::new();
    let mut rec = SceneRecord { id: 42, name: "place".to_string(), graph: scene, items };
    let (n, _run) = process_scene(&mut rec, &cache, &mut log);

    assert_eq!(n, 0);
    assert_eq!(rec.graph.node_count(), before_len);
    for i in 0..before_len {
        assert_eq!(rec.graph.is_alive(i), alive_before[i]);
    }
    // Exactly one failure record, naming the scene and the content id.
    assert_eq!(log.len(), 1);
    let recs = log.drain();
    assert_eq!(recs[0].kind, FailKind::Resolution);
    assert_eq!(recs[0].scene_id, Some(42));
    assert_eq!(recs[0].content_id.as_deref(), Some("999"));
}

#[test]
fn failed_content_does_not_affect_other_items() {
    // One scene referencing two packages; only "1" was fetched.
    let mut scene = SceneGraph::new("DataModel");
    let parent = scene.add_child(0, "Workspace");
    let wrapper1 = scene.add_child(parent, "Model");
    let ph1 = scene.add_child(wrapper1, "PackageLink");
    scene.add_content_ref(ph1, "PackageId", "rbxassetid://1");
    let wrapper2 = scene.add_child(parent, "Model");
    let ph2 = scene.add_child(wrapper2, "PackageLink");
    scene.add_content_ref(ph2, "PackageId", "rbxassetid://2");

    let mut scan_log = FailureLog::new();
    let items = scan_graph(&scene, 7, &mut scan_log);
    assert_eq!(items.len(), 2);
    assert_eq!(scan_log.len(), 0);

    let bytes = serialize_scene(&content_graph()).unwrap();
    let mut cache = ContentCache::new();
    cache.insert("1".to_string(), bytes);

    let mut log = FailureLog::new();
    let mut rec = SceneRecord { id: 7, name: "place".to_string(), graph: scene, items };
    let (n, _run) = process_scene(&mut rec, &cache, &mut log);

    // The fetched package was spliced, the missing one skipped and reported.
    assert_eq!(n, 1);
    assert!(!rec.graph.is_alive(wrapper1));
    assert!(rec.graph.is_alive(wrapper2));
    assert!(rec.graph.is_alive(ph2));
    assert_eq!(
        rec.graph.content_ref_of(ph2, "PackageId").unwrap(),
        "rbxassetid://2"
    );
    let recs = log.drain();
    assert_eq!(recs.len(), 1);
    assert_eq!(recs[0].content_id.as_deref(), Some("2"));
}

#[test]
fn content_without_root_child_is_structural_failure() {
    let (scene, _parent, _wrapper, _placeholder) = scene_with_placeholder("5");
    let empty_content = SceneGraph::new("DataModel");
    let bytes = serialize_scene(&empty_content).unwrap();
    let mut cache = ContentCache::new();
    cache.insert("5".to_string(), bytes);

    let mut scan_log = FailureLog::new();
    let items = scan_graph(&scene, 1, &mut scan_log);
    let mut log = FailureLog::new();
    let mut rec = SceneRecord { id: 1, name: "p".to_string(), graph: scene, items };
    let (n, _run) = process_scene(&mut rec, &cache, &mut log);

    assert_eq!(n, 0);
    let recs = log.drain();
    assert_eq!(recs.len(), 1);
    assert_eq!(recs[0].kind, FailKind::Structure);
    assert_eq!(recs[0].content_id.as_deref(), Some("5"));
}

#[test]
fn undecodable_content_is_decode_failure_and_leaves_scene() {
    let (scene, _parent, wrapper, placeholder) = scene_with_placeholder("8");
    let mut cache = ContentCache::new();
    cache.insert("8".to_string(), vec![0, 1, 2, 3]);

    let mut scan_log = FailureLog::new();
    let items = scan_graph(&scene, 1, &mut scan_log);
    let mut log = FailureLog::new();
    let mut rec = SceneRecord { id: 1, name: "p".to_string(), graph: scene, items };
    let (n, _run) = process_scene(&mut rec, &cache, &mut log);

    assert_eq!(n, 0);
    assert!(rec.graph.is_alive(wrapper));
    assert!(rec.graph.is_alive(placeholder));
    let recs = log.drain();
    assert_eq!(recs.len(), 1);
    assert_eq!(recs[0].kind, FailKind::Decode);
}

#[test]
fn dead_placeholder_is_reported_not_panicked() {
    let (mut scene, _parent, wrapper, _placeholder) = scene_with_placeholder("3");
    let mut scan_log = FailureLog::new();
    let items = scan_graph(&scene, 1, &mut scan_log);
    // The wrapper subtree disappears before the item is applied.
    scene.destroy(wrapper);

    let bytes = serialize_scene(&content_graph()).unwrap();
    let mut cache = ContentCache::new();
    cache.insert("3".to_string(), bytes);

    let mut log = FailureLog::new();
    let r = transplant_one(&mut scene, &items[0], 9, &cache, &mut log);
    assert!(r.is_none());
    let recs = log.drain();
    assert_eq!(recs.len(), 1);
    assert_eq!(recs[0].kind, FailKind::Structure);
}

#[test]
fn serialized_scene_decodes_back_with_structure_intact() {
    let (scene, _parent, _wrapper, placeholder) = scene_with_placeholder("55");
    let bytes = serialize_scene(&scene).unwrap();
    let decoded = decode_graph(&bytes).unwrap();
    // Same live shape: four nodes, and the placeholder still carries its
    // content reference after the round trip. The codec migrates the
    // reference to its newer property name on the way through.
    assert_eq!(decoded.node_count(), scene.node_count());
    assert_eq!(decoded.class_of(placeholder), "PackageLink");
    assert_eq!(
        decoded.content_ref_of(placeholder, "PackageContent").unwrap(),
        "rbxassetid://55"
    );
    // And the scan still derives the same work item from the decoded form.
    let mut log = transplant::failures::FailureLog::new();
    let items = transplant::scan::scan_graph(&decoded, 1, &mut log);
    assert_eq!(items.len(), 1);
    assert_eq!(items[0].content_id, "55");
}
