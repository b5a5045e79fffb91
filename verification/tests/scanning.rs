//! Tests of placeholder scanning, reference parsing, deduplication, and the
//! metadata-location selection.

use transplant::asset_response::{select_source_location, AssetMetadata, AssetResponse, Location};
use transplant::failures::{FailKind, FailureLog};
use transplant::universe_places_response::{Place, UniversePlacesResponse};
use transplant::fetch::unique_content_ids;
use transplant::graph::SceneGraph;
use transplant::scan::{scan_graph, strip_asset_prefix};
use transplant::transplant::SceneRecord;

fn location(format: &str, url: &str) -> Location {
    Location {
        asset_format: format.to_string(),
        location: url.to_string(),
        asset_metadatas: Vec::<AssetMetadata>::new(),
    }
}

#[test]
fn strip_prefix_accepts_wellformed_references() {
    assert_eq!(strip_asset_prefix("rbxassetid://42").as_deref(), Some("42"));
    assert_eq!(strip_asset_prefix("rbxassetid://").as_deref(), Some(""));
    assert_eq!(strip_asset_prefix("rbxasset://42"), None);
    assert_eq!(strip_asset_prefix("42"), None);
    assert_eq!(strip_asset_prefix(""), None);
}

#[test]
fn scan_finds_wellformed_placeholders_in_index_order() {
    let mut g = SceneGraph::new("DataModel");
    let ws = g.add_child(0, "Workspace");
    let w1 = g.add_child(ws, "Model");
    let p1 = g.add_child(w1, "PackageLink");
    g.add_content_ref(p1, "PackageId", "rbxassetid://10");
    let w2 = g.add_child(ws, "Model");
    let p2 = g.add_child(w2, "PackageLink");
    g.add_content_ref(p2, "PackageId", "rbxassetid://20");

    let mut log = FailureLog::new();
    let items = scan_graph(&g, 1, &mut log);
    assert_eq!(log.len(), 0);
    assert_eq!(items.len(), 2);
    assert_eq!(items[0].content_id, "10");
    assert_eq!(items[0].placeholder, p1);
    assert_eq!(items[0].wrapper, w1);
    assert_eq!(items[0].group_parent, ws);
    assert_eq!(items[1].content_id, "20");
}

#[test]
fn scan_reports_malformed_placeholders_and_keeps_going() {
    let mut g = SceneGraph::new("DataModel");
    let ws = g.add_child(0, "Workspace");
    // A placeholder with no reference at all.
    let w1 = g.add_child(ws, "Model");
    let _bare = g.add_child(w1, "PackageLink");
    // A placeholder with a reference in the wrong scheme.
    let w2 = g.add_child(ws, "Model");
    let bad = g.add_child(w2, "PackageLink");
    g.add_content_ref(bad, "PackageId", "https://example.test/9");
    // A placeholder directly under the root has no wrapper to splice at.
    let rooted = g.add_child(0, "PackageLink");
    g.add_content_ref(rooted, "PackageId", "rbxassetid://9");
    // And one good one, which must still be found.
    let w3 = g.add_child(ws, "Model");
    let p3 = g.add_child(w3, "PackageLink");
    g.add_content_ref(p3, "PackageId", "rbxassetid://30");

    let mut log = FailureLog::new();
    let items = scan_graph(&g, 5, &mut log);
    assert_eq!(items.len(), 1);
    assert_eq!(items[0].content_id, "30");
    assert_eq!(log.len(), 3);
    let recs = log.drain();
    for r in recs {
        assert_eq!(r.kind, FailKind::Structure);
        assert_eq!(r.scene_id, Some(5));
    }
}

#[test]
fn two_scenes_sharing_a_package_yield_one_fetch_entry() {
    let mut records = Vec::new();
    for scene_id in [1u64, 2u64] {
        let mut g = SceneGraph::new("DataModel");
        let ws = g.add_child(0, "Workspace");
        let w = g.add_child(ws, "Model");
        let p = g.add_child(w, "PackageLink");
        g.add_content_ref(p, "PackageId", "rbxassetid://500");
        let mut log = FailureLog::new();
        let items = scan_graph(&g, scene_id, &mut log);
        records.push(SceneRecord { id: scene_id, name: format!("s{}", scene_id), graph: g, items });
    }
    let ids = unique_content_ids(&records);
    assert_eq!(ids, vec!["500".to_string()]);
}

#[test]
fn response_getters_hand_fields_back() {
    let resp = AssetResponse {
        locations: vec![location("source", "https://cdn.test/x")],
        request_id: "r-1".to_string(),
        is_archived: false,
        asset_type_id: 9,
        is_recordable: true,
    };
    assert_eq!(resp.locations().len(), 1);
    assert_eq!(resp.locations()[0].asset_format(), "source");
    assert_eq!(resp.locations()[0].location(), "https://cdn.test/x");
    assert_eq!(resp.locations()[0].asset_metadatas().len(), 0);
    assert_eq!(resp.request_id(), "r-1");

    let listing = UniversePlacesResponse {
        previous_page_cursor: None,
        next_page_cursor: Some("next".to_string()),
        data: vec![Place {
            id: 4,
            universe_id: 8,
            name: "lobby".to_string(),
            description: "d".to_string(),
        }],
    };
    assert_eq!(listing.previous_page_cursor(), &None);
    assert_eq!(listing.next_page_cursor().as_deref(), Some("next"));
    assert_eq!(*listing.data()[0].id(), 4);
    assert_eq!(*listing.data()[0].universe_id(), 8);
    assert_eq!(listing.data()[0].name(), "lobby");
    assert_eq!(listing.data()[0].description(), "d");
}

#[test]
fn failure_log_keeps_emission_order_and_drains_once() {
    let mut log = FailureLog::new();
    for (i, kind) in [FailKind::Transport, FailKind::Decode, FailKind::Structure]
        .into_iter()
        .enumerate()
    {
        log.push(transplant::failures::FailureRecord {
            kind,
            scene_id: Some(i as u64),
            content_id: None,
            detail: format!("event {}", i),
        });
    }
    assert_eq!(log.len(), 3);
    assert_eq!(log.get(1).kind, FailKind::Decode);
    let records = log.drain();
    assert_eq!(records.len(), 3);
    for (i, r) in records.iter().enumerate() {
        assert_eq!(r.scene_id, Some(i as u64));
        assert_eq!(r.detail, format!("event {}", i));
    }
    assert_eq!(log.len(), 0);
}

#[test]
fn source_location_is_first_source_entry() {
    let locs = vec![
        location("binary", "https://cdn.test/a"),
        location("source", "https://cdn.test/b"),
        location("source", "https://cdn.test/c"),
    ];
    assert_eq!(select_source_location(&locs).as_deref(), Some("https://cdn.test/b"));
    let no_source = vec![location("binary", "https://cdn.test/a")];
    assert_eq!(select_source_location(&no_source), None);
    assert_eq!(select_source_location(&Vec::new()), None);
}
