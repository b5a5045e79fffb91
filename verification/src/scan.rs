//! Placeholder discovery: traverses a scene graph, derives one work item per
//! well-formed placeholder, and reports malformed ones.

use vstd::prelude::*;

use crate::failures::{FailKind, FailureLog, FailureRecord};
use crate::graph::{graph_wf, str_eq, wf_at, GNode, SceneGraph};

verus! {

/// The distinguished node type marking a placeholder.
pub open spec fn placeholder_class() -> Seq<char> {
    "PackageLink"@
}

/// The property of a placeholder that carries the content reference.
pub open spec fn id_property() -> Seq<char> {
    "PackageId"@
}

/// The newer name the codec gives the same property when it migrates the
/// reference to its uri form.
pub open spec fn id_property_alt() -> Seq<char> {
    "PackageContent"@
}

/// The scheme prefix of a well-formed content reference.
pub open spec fn id_prefix() -> Seq<char> {
    "rbxassetid://"@
}

/// The bare content identifier hidden in a reference string, if the string
/// is well-formed: whatever follows the scheme prefix.
pub open spec fn strip_prefix_spec(s: Seq<char>) -> Option<Seq<char>> {
    if s.len() >= id_prefix().len() && s.subrange(0, id_prefix().len() as int) == id_prefix() {
        Some(s.skip(id_prefix().len() as int))
    } else {
        None
    }
}

/// Strips the scheme prefix off a content reference, if it is present.
#[verifier::loop_isolation(false)]
pub fn strip_asset_prefix(s: &str) -> (r: Option<String>)
    ensures
        match r {
            Some(t) => strip_prefix_spec(s@) == Some(t@),
            None => strip_prefix_spec(s@) is None,
        },
{
    let p = "rbxassetid://";
    proof {
        reveal_strlit("rbxassetid://");
    }
    let n = s.unicode_len();
    if n < 13 {
        return None;
    }
    let mut i: usize = 0;
    while i < 13
        invariant
            i <= 13,
            forall|j: int| 0 <= j < i ==> s@[j] == p@[j],
        decreases 13 - i,
    {
        if s.get_char(i) != p.get_char(i) {
            proof {
                assert(s@.subrange(0, 13)[i as int] != id_prefix()[i as int]);
            }
            return None;
        }
        i += 1;
    }
    let rest = s.substring_char(13, n);
    proof {
        assert(s@.subrange(0, 13) =~= id_prefix());
        assert(rest@ =~= s@.skip(13));
    }
    Some(rest.to_owned())
}

/// One placeholder occurrence, resolved to the three graph positions the
/// transplant needs: the placeholder itself, its wrapper (direct parent),
/// and the wrapper's parent (the splice target). Consumed exactly once.
pub struct WorkItem {
    /// The bare content identifier the placeholder references.
    pub content_id: String,
    /// Index of the placeholder node.
    pub placeholder: usize,
    /// Index of the placeholder's direct parent.
    pub wrapper: usize,
    /// Index of the wrapper's parent.
    pub group_parent: usize,
}

pub ghost struct WorkItemV {
    pub content_id: Seq<char>,
    pub placeholder: int,
    pub wrapper: int,
    pub group_parent: int,
}

impl View for WorkItem {
    type V = WorkItemV;

    open spec fn view(&self) -> WorkItemV {
        WorkItemV {
            content_id: self.content_id@,
            placeholder: self.placeholder as int,
            wrapper: self.wrapper as int,
            group_parent: self.group_parent as int,
        }
    }
}

pub open spec fn items_view(s: Seq<WorkItem>) -> Seq<WorkItemV> {
    s.map_values(|w: WorkItem| w@)
}

/// Node `i` is a live placeholder node.
pub open spec fn is_placeholder(v: Seq<GNode>, i: int) -> bool {
    &&& 0 < i < v.len()
    &&& v[i].alive
    &&& v[i].class == placeholder_class()
}

/// The raw content reference node `i` carries, under either property name;
/// the older name wins when both are present.
pub open spec fn placeholder_ref(v: Seq<GNode>, i: int) -> Option<Seq<char>> {
    if v[i].refs.contains_key(id_property()) {
        Some(v[i].refs[id_property()])
    } else if v[i].refs.contains_key(id_property_alt()) {
        Some(v[i].refs[id_property_alt()])
    } else {
        None
    }
}

/// The bare content identifier node `i` references, if its reference is
/// present and well-formed.
pub open spec fn placeholder_id(v: Seq<GNode>, i: int) -> Option<Seq<char>> {
    match placeholder_ref(v, i) {
        Some(r) => strip_prefix_spec(r),
        None => None,
    }
}

/// Node `i` yields a work item: a live placeholder, not directly under the
/// root, with a well-formed content reference.
pub open spec fn qualifying(v: Seq<GNode>, i: int) -> bool {
    &&& is_placeholder(v, i)
    &&& v[i].parent != 0
    &&& placeholder_id(v, i) is Some
}

/// A live placeholder that yields no work item and is reported instead.
pub open spec fn malformed(v: Seq<GNode>, i: int) -> bool {
    is_placeholder(v, i) && !qualifying(v, i)
}

pub open spec fn item_at(v: Seq<GNode>, i: int) -> WorkItemV {
    WorkItemV {
        content_id: placeholder_id(v, i)->Some_0,
        placeholder: i,
        wrapper: v[i].parent,
        group_parent: v[v[i].parent].parent,
    }
}

/// The work items of the first `n` nodes, in index order.
pub open spec fn scan_items(v: Seq<GNode>, n: int) -> Seq<WorkItemV>
    decreases n,
{
    if n <= 1 {
        Seq::empty()
    } else if qualifying(v, n - 1) {
        scan_items(v, n - 1).push(item_at(v, n - 1))
    } else {
        scan_items(v, n - 1)
    }
}

/// How many of the first `n` nodes are malformed placeholders.
pub open spec fn malformed_count(v: Seq<GNode>, n: int) -> int
    decreases n,
{
    if n <= 1 {
        0
    } else if malformed(v, n - 1) {
        malformed_count(v, n - 1) + 1
    } else {
        malformed_count(v, n - 1)
    }
}

/// A work item's positions are consistent with a graph view: the wrapper is
/// the placeholder's parent and not the root, and the splice target is the
/// wrapper's parent.
pub open spec fn item_valid(v: Seq<GNode>, w: WorkItemV) -> bool {
    &&& 0 < w.wrapper
    &&& 0 < w.placeholder < v.len()
    &&& w.wrapper == v[w.placeholder].parent
    &&& w.group_parent == v[w.wrapper].parent
}

/// Every scanned work item is consistent with the graph it came from.
pub proof fn lemma_scan_items_valid(v: Seq<GNode>, n: int)
    requires
        graph_wf(v),
        n <= v.len(),
    ensures
        forall|k: int|
            0 <= k < scan_items(v, n).len() ==> item_valid(v, #[trigger] scan_items(v, n)[k])
                && v[scan_items(v, n)[k].placeholder].alive,
    decreases n,
{
    if n > 1 {
        lemma_scan_items_valid(v, n - 1);
        if qualifying(v, n - 1) {
            assert(wf_at(v, n - 1));
            assert(wf_at(v, v[n - 1].parent));
            assert(item_valid(v, item_at(v, n - 1)));
        }
        assert forall|k: int| 0 <= k < scan_items(v, n).len() implies item_valid(
            v,
            #[trigger] scan_items(v, n)[k],
        ) && v[scan_items(v, n)[k].placeholder].alive by {
            if !(qualifying(v, n - 1) && k == scan_items(v, n).len() - 1) {
                assert(scan_items(v, n)[k] == scan_items(v, n - 1)[k]);
                assert(item_valid(v, scan_items(v, n - 1)[k]));
            }
        }
    }
}

/// Scans a scene graph for placeholders. Returns the work items of every
/// well-formed placeholder, in index order; every malformed placeholder is
/// reported to the log (naming the scene) and skipped, without disturbing
/// the rest of the scan.
///
/// Two corners are deliberate. A placeholder lying directly under the root
/// has no wrapper to splice at — transplanting it would tear out the root
/// itself — so it yields no work item and is reported as malformed instead.
/// And a reference is accepted under either of the codec's two property
/// forms (see `placeholder_ref`): current decoders surface the reference
/// under the newer name, and scenes carrying it would otherwise never be
/// migrated.
#[verifier::loop_isolation(false)]
pub fn scan_graph(g: &SceneGraph, scene_id: u64, log: &mut FailureLog) -> (items: Vec<WorkItem>)
    requires
        g.wf(),
    ensures
        items_view(items@) == scan_items(g@, g@.len() as int),
        final(log)@.len() == old(log)@.len() + malformed_count(g@, g@.len() as int),
        forall|k: int| 0 <= k < old(log)@.len() ==> final(log)@[k] == old(log)@[k],
        forall|k: int|
            old(log)@.len() <= k < final(log)@.len() ==> (#[trigger] final(log)@[k]).matches(
                FailKind::Structure,
                Some(scene_id),
                None,
            ),
{
    let mut items: Vec<WorkItem> = Vec::new();
    let n = g.node_count();
    let mut i: usize = 1;
    while i < n
        invariant
            1 <= i <= n,
            items_view(items@) == scan_items(g@, i as int),
            log@.len() >= old(log)@.len(),
            log@.len() == old(log)@.len() + malformed_count(g@, i as int),
            forall|k: int| 0 <= k < old(log)@.len() ==> log@[k] == old(log)@[k],
            forall|k: int|
                old(log)@.len() <= k < log@.len() ==> (#[trigger] log@[k]).matches(
                    FailKind::Structure,
                    Some(scene_id),
                    None,
                ),
        decreases n - i,
    {
        let ghost items0 = items@;
        proof {
            assert(crate::graph::wf_at(g@, i as int));
        }
        if g.is_alive(i) && str_eq(g.class_of(i).as_str(), "PackageLink") {
            let mut ok = false;
            let raw = match g.content_ref_of(i, "PackageId") {
                Some(r) => Some(r),
                None => g.content_ref_of(i, "PackageContent"),
            };
            if let Some(raw) = raw {
                if let Some(id) = strip_asset_prefix(raw.as_str()) {
                    if g.parent_of(i) != 0 {
                        let wrapper = g.parent_of(i);
                        let group_parent = g.parent_of(wrapper);
                        items.push(
                            WorkItem {
                                content_id: id,
                                placeholder: i,
                                wrapper,
                                group_parent,
                            },
                        );
                        ok = true;
                    }
                }
            }
            if !ok {
                let ghost log0 = log@;
                log.push(
                    FailureRecord {
                        kind: FailKind::Structure,
                        scene_id: Some(scene_id),
                        content_id: None,
                        detail: "placeholder without a well-formed content reference".to_owned(),
                    },
                );
                proof {
                    assert forall|k: int| 0 <= k < old(log)@.len() implies log@[k] == old(
                        log,
                    )@[k] by {
                        assert(log@[k] == log0[k]);
                    }
                }
            }
            proof {
                if ok {
                    assert(qualifying(g@, i as int));
                    assert(items@.last()@ == item_at(g@, i as int));
                    assert(items_view(items@) =~= items_view(items0).push(item_at(g@, i as int)));
                } else {
                    assert(!qualifying(g@, i as int));
                    assert(malformed(g@, i as int));
                    assert(items_view(items@) == scan_items(g@, i + 1));
                }
            }
        } else {
            proof {
                assert(!qualifying(g@, i as int) && !malformed(g@, i as int));
            }
        }
        i += 1;
    }
    items
}

} // verus!
