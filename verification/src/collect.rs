//! The per-scene step of collection: decode one fetched scene payload and
//! scan it for placeholders. Enumeration and transport are the driver's;
//! a scene that fails here is reported and skipped without blocking others.

use vstd::prelude::*;

use crate::codec::{decode_graph, decode_shape};
use crate::failures::{FailKind, FailureLog, FailureRecord};
use crate::scan::{
    item_valid, items_view, lemma_scan_items_valid, malformed_count, scan_graph, scan_items,
};
use crate::transplant::SceneRecord;

verus! {

/// Decodes one fetched scene payload and scans it, yielding the scene's
/// record. A payload that does not decode is reported (naming the scene) and
/// yields nothing; each malformed placeholder is likewise reported by the
/// scan without disturbing the rest.
pub fn build_scene_record(id: u64, name: String, bytes: &Vec<u8>, log: &mut FailureLog) -> (r:
    Option<SceneRecord>)
    ensures
        match r {
            Some(rec) => {
                &&& rec.wf()
                &&& rec.id == id
                &&& rec.name@ == name@
                &&& decode_shape(bytes@) == Some(rec.graph@)
                &&& items_view(rec.items@) == scan_items(rec.graph@, rec.graph@.len() as int)
                &&& final(log)@.len() == old(log)@.len() + malformed_count(
                    rec.graph@,
                    rec.graph@.len() as int,
                )
                &&& forall|k: int| 0 <= k < old(log)@.len() ==> final(log)@[k] == old(log)@[k]
                &&& forall|k: int|
                    old(log)@.len() <= k < final(log)@.len() ==> (#[trigger] final(log)@[k]).matches(
                        FailKind::Structure,
                        Some(id),
                        None,
                    )
            },
            None => {
                &&& decode_shape(bytes@) is None
                &&& final(log)@.len() == old(log)@.len() + 1
                &&& forall|k: int| 0 <= k < old(log)@.len() ==> final(log)@[k] == old(log)@[k]
                &&& final(log)@.last().matches(FailKind::Decode, Some(id), None)
            },
        },
{
    let graph = match decode_graph(bytes) {
        Ok(g) => g,
        Err(detail) => {
            log.push(
                FailureRecord {
                    kind: FailKind::Decode,
                    scene_id: Some(id),
                    content_id: None,
                    detail,
                },
            );
            return None;
        },
    };
    let items = scan_graph(&graph, id, log);
    proof {
        lemma_scan_items_valid(graph@, graph@.len() as int);
        assert forall|k: int| 0 <= k < items@.len() implies item_valid(
            graph@,
            (#[trigger] items@[k])@,
        ) by {
            assert(items@[k]@ == items_view(items@)[k]);
        }
    }
    Some(SceneRecord { id, name, graph, items })
}

} // verus!
