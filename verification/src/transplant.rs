//! The package-transplant protocol: the graph surgery that splices freshly
//! decoded content into a scene at a placeholder, preserving the
//! placeholder's identity, and the per-scene driver that applies every work
//! item with failure isolation.

use vstd::prelude::*;

use crate::cache::ContentCache;
use crate::codec::{decode_graph, decode_shape};
use crate::failures::{FailKind, FailureLog, FailureRecord};
use crate::graph::{
    graph_wf, in_subtree, lemma_in_subtree_frame, lemma_in_subtree_ge, lemma_in_subtree_trans,
    move_subtree, wf_at, GNode, SceneGraph,
};
use crate::scan::{item_valid, items_view, WorkItem, WorkItemV};

verus! {

/// The two relocation maps a successful transplant produces: where each live
/// node of the content graph's root subtree ended up in the scene, and where
/// each node of the placeholder's subtree ended up.
pub ghost struct TransplantMaps {
    pub content_map: Map<int, int>,
    pub placeholder_map: Map<int, int>,
}

/// What a successful transplant promises, over the scene before (`v0`), the
/// freshly decoded content (`c0`), and the scene after (`vf`): every node the
/// scene had keeps its fields, with exactly the wrapper's subtree cleared;
/// the content root (node 1 of `c0`) reappears at `root` as a live child of
/// `gparent` with its whole live subtree relocated behind `content_map`; and
/// the placeholder's subtree survives, relocated behind `placeholder_map`,
/// with the placeholder itself re-parented directly under the content root.
pub open spec fn transplant_ok(
    v0: Seq<GNode>,
    c0: Seq<GNode>,
    vf: Seq<GNode>,
    ph: int,
    wrapper: int,
    gparent: int,
    root: int,
    maps: TransplantMaps,
) -> bool {
    let cm = maps.content_map;
    let pm = maps.placeholder_map;
    &&& vf.len() >= v0.len()
    &&& root == v0.len()
    &&& root < vf.len()
    &&& forall|i: int|
        0 <= i < v0.len() ==> {
            let n0 = #[trigger] v0[i];
            &&& vf[i].parent == n0.parent
            &&& vf[i].class == n0.class
            &&& vf[i].refs == n0.refs
            &&& vf[i].alive == (n0.alive && !in_subtree(v0, wrapper, i))
        }
    &&& vf[root].alive
    &&& vf[root].parent == gparent
    &&& vf[root].class == c0[1].class
    &&& vf[root].refs == c0[1].refs
    &&& forall|t: int| cm.contains_key(t) <==> (1 <= t < c0.len() && in_subtree(c0, 1, t))
    &&& cm.contains_key(1) && cm[1] == root
    &&& forall|t: int| #[trigger] cm.contains_key(t) ==> {
        let d = vf[cm[t]];
        &&& root <= cm[t] < vf.len()
        &&& d.class == c0[t].class
        &&& d.refs == c0[t].refs
        &&& d.alive
        &&& in_subtree(vf, root, cm[t])
        &&& (t != 1 ==> cm.contains_key(c0[t].parent) && d.parent == cm[c0[t].parent])
    }
    &&& forall|t: int|
        pm.contains_key(t) <==> (0 <= t < v0.len() && v0[t].alive && in_subtree(v0, ph, t))
    &&& pm.contains_key(ph)
    &&& vf[pm[ph]].parent == root
    &&& forall|t: int| #[trigger] pm.contains_key(t) ==> {
        let d = vf[pm[t]];
        &&& root < pm[t] < vf.len()
        &&& d.class == v0[t].class
        &&& d.refs == v0[t].refs
        &&& d.alive
        &&& in_subtree(vf, root, pm[t])
        &&& (t != ph ==> pm.contains_key(v0[t].parent) && d.parent == pm[v0[t].parent])
    }
}

/// Splices `content` into `scene` at one placeholder, in three load-bearing
/// steps: the placeholder moves into the content graph under the content
/// root, the wrapper and its remaining descendants are destroyed, and the
/// content root moves into the scene under the wrapper's old parent.
#[verifier::rlimit(100)]
pub fn transplant_graphs(
    scene: &mut SceneGraph,
    content: SceneGraph,
    placeholder: usize,
    wrapper: usize,
    group_parent: usize,
) -> (ret: (usize, Ghost<TransplantMaps>))
    requires
        old(scene).wf(),
        content.wf(),
        content@.len() >= 2,
        forall|j: int| 0 <= j < content@.len() ==> (#[trigger] content@[j]).alive,
        0 < wrapper,
        0 < placeholder < old(scene)@.len(),
        wrapper == old(scene)@[placeholder as int].parent,
        group_parent == old(scene)@[wrapper as int].parent,
        old(scene)@[placeholder as int].alive,
    ensures
        final(scene).wf(),
        ret.0 == old(scene)@.len(),
        transplant_ok(
            old(scene)@,
            content@,
            final(scene)@,
            placeholder as int,
            wrapper as int,
            group_parent as int,
            ret.0 as int,
            ret.1@,
        ),
{
    let ghost vs0 = scene@;
    let ghost c0 = content@;
    let ghost clen0 = c0.len() as int;
    let mut content = content;
    proof {
        assert(wf_at(vs0, placeholder as int));
        assert(wf_at(vs0, wrapper as int));
        assert(wf_at(vs0, group_parent as int));
    }
    // Step one: relocate the placeholder subtree under the content root.
    let (ph_in_content, gm1) = move_subtree(scene, placeholder, &mut content, 1);
    let ghost m1 = gm1@;
    let ghost s1 = scene@;
    let ghost c1 = content@;
    // Step two: clear the wrapper and whatever is left under it.
    proof {
        assert(wf_at(s1, wrapper as int));
    }
    scene.destroy(wrapper);
    let ghost s2 = scene@;
    proof {
        // The splice target is outside both cleared subtrees, so it is still
        // alive when the content arrives.
        assert(vs0[group_parent as int].alive);
        if in_subtree(vs0, placeholder as int, group_parent as int) {
            lemma_in_subtree_ge(vs0, placeholder as int, group_parent as int);
        }
        lemma_in_subtree_frame(s1, vs0, wrapper as int, group_parent as int);
        if in_subtree(vs0, wrapper as int, group_parent as int) {
            lemma_in_subtree_ge(vs0, wrapper as int, group_parent as int);
        }
        assert(s2[group_parent as int].alive);
        assert(c1[1].alive && c1[1] == c0[1]);
    }
    // Step three: relocate the content root (placeholder included) into the
    // scene under the wrapper's old parent.
    let (new_root, gm2) = move_subtree(&mut content, 1, scene, group_parent);
    let ghost m2 = gm2@;
    let ghost vf = scene@;
    let ghost cm = Map::<int, int>::new(
        |t: int| 1 <= t < clen0 && in_subtree(c0, 1, t),
        |t: int| m2[t],
    );
    let ghost pm = Map::<int, int>::new(|t: int| m1.contains_key(t), |t: int| m2[m1[t]]);
    proof {
        let ph = placeholder as int;
        let wr = wrapper as int;
        let gp = group_parent as int;
        let root = new_root as int;
        assert(root == vs0.len());
        // The wrapper's subtree contains the placeholder's subtree.
        assert(in_subtree(vs0, wr, wr));
        assert(wf_at(vs0, ph));
        assert(in_subtree(vs0, wr, ph));
        assert forall|i: int| 0 <= i < vs0.len() implies {
            let n0 = #[trigger] vs0[i];
            &&& vf[i].parent == n0.parent
            &&& vf[i].class == n0.class
            &&& vf[i].refs == n0.refs
            &&& vf[i].alive == (n0.alive && !in_subtree(vs0, wr, i))
        } by {
            lemma_in_subtree_frame(s1, vs0, wr, i);
            if in_subtree(vs0, ph, i) {
                lemma_in_subtree_trans(vs0, wr, ph, i);
            }
        }
        // Node 1 of the content graph still leads every relocated node after
        // the placeholder was attached beneath it.
        assert(c1[clen0].parent == 1 && m1.contains_key(ph) && m1[ph] == clen0);
        assert(in_subtree(c1, 1, clen0));
        // The content-side relocation map.
        assert forall|t: int| #[trigger] cm.contains_key(t) implies {
            let d = vf[cm[t]];
            &&& m2.contains_key(t) && m2[t] == cm[t]
            &&& root <= cm[t] < vf.len()
            &&& d.class == c0[t].class
            &&& d.refs == c0[t].refs
            &&& d.alive
            &&& in_subtree(vf, root, cm[t])
            &&& (t != 1 ==> cm.contains_key(c0[t].parent) && d.parent == cm[c0[t].parent])
        } by {
            lemma_in_subtree_frame(c1, c0, 1, t);
            assert(c1[t] == c0[t]);
            assert(m2.contains_key(t));
            if t != 1 {
                lemma_in_subtree_ge(c0, 1, c0[t].parent);
                assert(wf_at(c0, t));
                assert(in_subtree(c0, 1, c0[t].parent));
                lemma_in_subtree_frame(c1, c0, 1, c0[t].parent);
            }
        }
        assert(cm.contains_key(1) && cm[1] == root);
        assert forall|t: int| cm.contains_key(t) <==> (1 <= t < c0.len() && in_subtree(
            c0,
            1,
            t,
        )) by {
            if 1 <= t < c0.len() && in_subtree(c0, 1, t) {
                lemma_in_subtree_ge(c0, 1, t);
            }
        }
        // The placeholder-side relocation map.
        assert forall|t: int| #[trigger] pm.contains_key(t) implies {
            let d = vf[pm[t]];
            &&& root < pm[t] < vf.len()
            &&& d.class == vs0[t].class
            &&& d.refs == vs0[t].refs
            &&& d.alive
            &&& in_subtree(vf, root, pm[t])
            &&& (t != ph ==> pm.contains_key(vs0[t].parent) && d.parent == pm[vs0[t].parent])
        } by {
            assert(m1.contains_key(t));
            assert(clen0 <= m1[t] < c1.len());
            assert(c1[m1[t]].alive);
            lemma_in_subtree_trans(c1, 1, clen0, m1[t]);
            assert(m2.contains_key(m1[t]));
            assert(m2[1] == root);
            assert(m2[m1[t]] > root);
            if t != ph {
                assert(c1[m1[t]].parent == m1[vs0[t].parent]);
                assert(m1[t] != 1);
            }
        }
        assert(pm.contains_key(ph) && vf[pm[ph]].parent == root);
    }
    (new_root, Ghost(TransplantMaps { content_map: cm, placeholder_map: pm }))
}

/// Applies one work item to a scene. On any failure — placeholder already
/// gone, content never fetched, content that does not decode, or content
/// with no root child — the scene graph is left exactly as it was and
/// exactly one failure record naming the scene and the content id is
/// appended; nothing else happens. On success nothing is logged and the
/// transplant contract holds.
pub fn transplant_one(
    graph: &mut SceneGraph,
    item: &WorkItem,
    scene_id: u64,
    cache: &ContentCache,
    log: &mut FailureLog,
) -> (r: Option<(usize, Ghost<TransplantMaps>)>)
    requires
        old(graph).wf(),
        cache.wf(),
        item_valid(old(graph)@, item@),
    ensures
        final(graph).wf(),
        item_valid(final(graph)@, item@),
        final(graph)@.len() >= old(graph)@.len(),
        forall|i: int|
            0 <= i < old(graph)@.len() ==> {
                let n0 = #[trigger] old(graph)@[i];
                &&& final(graph)@[i].parent == n0.parent
                &&& final(graph)@[i].class == n0.class
                &&& final(graph)@[i].refs == n0.refs
            },
        r is Some <==> (old(graph)@[item@.placeholder].alive && cache@.contains_key(
            item@.content_id,
        ) && (decode_shape(cache@[item@.content_id]) matches Some(c) && c.len() >= 2)),
        r is None ==> {
            &&& final(graph)@ == old(graph)@
            &&& final(log)@.len() == old(log)@.len() + 1
            &&& forall|k: int| 0 <= k < old(log)@.len() ==> final(log)@[k] == old(log)@[k]
            &&& final(log)@.last().matches(
                if !old(graph)@[item@.placeholder].alive {
                    FailKind::Structure
                } else if !cache@.contains_key(item@.content_id) {
                    FailKind::Resolution
                } else if decode_shape(cache@[item@.content_id]) is None {
                    FailKind::Decode
                } else {
                    FailKind::Structure
                },
                Some(scene_id),
                Some(item@.content_id),
            )
        },
        r matches Some((root, maps)) ==> {
            &&& final(log)@ == old(log)@
            &&& root == old(graph)@.len()
            &&& transplant_ok(
                old(graph)@,
                decode_shape(cache@[item@.content_id])->Some_0,
                final(graph)@,
                item@.placeholder,
                item@.wrapper,
                item@.group_parent,
                root as int,
                maps@,
            )
        },
{
    if !graph.is_alive(item.placeholder) {
        log.push(
            FailureRecord {
                kind: FailKind::Structure,
                scene_id: Some(scene_id),
                content_id: Some(item.content_id.clone()),
                detail: "placeholder is no longer present in the scene".to_owned(),
            },
        );
        return None;
    }
    let bytes = match cache.get(item.content_id.as_str()) {
        None => {
            log.push(
                FailureRecord {
                    kind: FailKind::Resolution,
                    scene_id: Some(scene_id),
                    content_id: Some(item.content_id.clone()),
                    detail: "content was never fetched; leaving the placeholder untouched".to_owned(),
                },
            );
            return None;
        },
        Some(b) => b,
    };
    let content = match decode_graph(bytes) {
        Err(e) => {
            log.push(
                FailureRecord {
                    kind: FailKind::Decode,
                    scene_id: Some(scene_id),
                    content_id: Some(item.content_id.clone()),
                    detail: e,
                },
            );
            return None;
        },
        Ok(c) => c,
    };
    if content.node_count() < 2 {
        log.push(
            FailureRecord {
                kind: FailKind::Structure,
                scene_id: Some(scene_id),
                content_id: Some(item.content_id.clone()),
                detail: "content graph has no root child".to_owned(),
            },
        );
        return None;
    }
    let (root, maps) = transplant_graphs(
        graph,
        content,
        item.placeholder,
        item.wrapper,
        item.group_parent,
    );
    proof {
        assert(wf_at(old(graph)@, item@.placeholder));
        assert(graph@[item@.placeholder].parent == old(graph)@[item@.placeholder].parent);
        assert(graph@[item@.wrapper].parent == old(graph)@[item@.wrapper].parent);
    }
    Some((root, maps))
}

/// One scene of the collection: its identity, its decoded graph, and the
/// work items its scan produced. Owned by the pipeline from collection
/// through persistence.
pub struct SceneRecord {
    pub id: u64,
    pub name: String,
    pub graph: SceneGraph,
    pub items: Vec<WorkItem>,
}

impl SceneRecord {
    pub open spec fn wf(&self) -> bool {
        &&& self.graph.wf()
        &&& forall|k: int|
            0 <= k < self.items@.len() ==> item_valid(self.graph@, (#[trigger] self.items@[k])@)
    }
}

/// One step of a scene's run: the scene view and the log before and after
/// one work item was applied, whether it succeeded, and — on success — the
/// spliced content root's index and the relocation maps.
pub ghost struct StepOutcome {
    pub ok: bool,
    pub before: Seq<GNode>,
    pub after: Seq<GNode>,
    pub log_before: Seq<FailureRecord>,
    pub log_after: Seq<FailureRecord>,
    pub root: int,
    pub maps: TransplantMaps,
}

/// The taxonomy slot of a failed work item, by cause, mirroring what
/// `transplant_one` records.
pub open spec fn item_fail_kind(
    before: Seq<GNode>,
    cache: Map<Seq<char>, Seq<u8>>,
    w: WorkItemV,
) -> FailKind {
    if !before[w.placeholder].alive {
        FailKind::Structure
    } else if !cache.contains_key(w.content_id) {
        FailKind::Resolution
    } else if decode_shape(cache[w.content_id]) is None {
        FailKind::Decode
    } else {
        FailKind::Structure
    }
}

/// What one step of a run means for one work item: it succeeds exactly when
/// the placeholder is still alive, the content was fetched, and it decodes
/// with a root child. A success logs nothing and performs the transplant; a
/// failure leaves the scene exactly as it stood and appends exactly one
/// record naming the scene, the content id and the cause. Kept opaque so
/// that whole-run reasoning stays small; `reveal(step_ok)` opens one step.
#[verifier::opaque]
pub open spec fn step_ok(
    o: StepOutcome,
    w: WorkItemV,
    cache: Map<Seq<char>, Seq<u8>>,
    scene_id: u64,
) -> bool {
    &&& o.ok == (o.before[w.placeholder].alive && cache.contains_key(w.content_id) && (
    decode_shape(cache[w.content_id]) matches Some(c) && c.len() >= 2))
    &&& if o.ok {
        &&& o.log_after == o.log_before
        &&& o.root == o.before.len()
        &&& transplant_ok(
            o.before,
            decode_shape(cache[w.content_id])->Some_0,
            o.after,
            w.placeholder,
            w.wrapper,
            w.group_parent,
            o.root,
            o.maps,
        )
    } else {
        &&& o.after == o.before
        &&& o.log_after.len() == o.log_before.len() + 1
        &&& forall|j: int| 0 <= j < o.log_before.len() ==> o.log_after[j] == o.log_before[j]
        &&& o.log_after.last().matches(
            item_fail_kind(o.before, cache, w),
            Some(scene_id),
            Some(w.content_id),
        )
    }
}

/// A whole scene's run: one step per work item, in list order, each step
/// starting from exactly the scene and log state the previous step left.
pub open spec fn run_ok(
    outcomes: Seq<StepOutcome>,
    v0: Seq<GNode>,
    log0: Seq<FailureRecord>,
    items: Seq<WorkItemV>,
    cache: Map<Seq<char>, Seq<u8>>,
    scene_id: u64,
) -> bool {
    &&& outcomes.len() == items.len()
    &&& forall|k: int|
        0 <= k < outcomes.len() ==> {
            let o = #[trigger] outcomes[k];
            &&& o.before == (if k == 0 {
                v0
            } else {
                outcomes[k - 1].after
            })
            &&& o.log_before == (if k == 0 {
                log0
            } else {
                outcomes[k - 1].log_after
            })
            &&& step_ok(o, items[k], cache, scene_id)
        }
}

/// How many steps of a run succeeded.
pub open spec fn count_ok(outcomes: Seq<StepOutcome>) -> int
    decreases outcomes.len(),
{
    if outcomes.len() == 0 {
        0
    } else {
        count_ok(outcomes.drop_last()) + if outcomes.last().ok {
            1int
        } else {
            0int
        }
    }
}

/// Applies every work item of one scene, in list order. A failed item is
/// reported and skipped without disturbing the scene or the other items'
/// positions; the scene stays well-formed through every partial state.
/// Returns the number of successful replacements together with the run's
/// step-by-step account: one `StepOutcome` per item, chained, each step
/// succeeding if and only if its content was in place at its turn. If no
/// item's content was fetched, the scene graph comes out exactly as it went
/// in.
#[verifier::loop_isolation(false)]
#[verifier::rlimit(100)]
pub fn process_scene(rec: &mut SceneRecord, cache: &ContentCache, log: &mut FailureLog) -> (n: (
    usize,
    Ghost<Seq<StepOutcome>>,
))
    requires
        old(rec).wf(),
        cache.wf(),
    ensures
        final(rec).wf(),
        final(rec).id == old(rec).id,
        final(rec).name == old(rec).name,
        final(rec).items == old(rec).items,
        final(rec).graph@.len() >= old(rec).graph@.len(),
        forall|i: int|
            0 <= i < old(rec).graph@.len() ==> {
                let n0 = #[trigger] old(rec).graph@[i];
                &&& final(rec).graph@[i].parent == n0.parent
                &&& final(rec).graph@[i].class == n0.class
                &&& final(rec).graph@[i].refs == n0.refs
            },
        n.0 <= old(rec).items@.len(),
        run_ok(
            n.1@,
            old(rec).graph@,
            old(log)@,
            items_view(old(rec).items@),
            cache@,
            old(rec).id,
        ),
        n.0 == count_ok(n.1@),
        final(rec).graph@ == if n.1@.len() == 0 {
            old(rec).graph@
        } else {
            n.1@.last().after
        },
        final(log)@ == if n.1@.len() == 0 {
            old(log)@
        } else {
            n.1@.last().log_after
        },
        final(log)@.len() == old(log)@.len() + (old(rec).items@.len() - n.0 as int),
        forall|k: int| 0 <= k < old(log)@.len() ==> final(log)@[k] == old(log)@[k],
        forall|k: int|
            old(log)@.len() <= k < final(log)@.len() ==> (#[trigger] final(log)@[k]).scene_id
                == Some(old(rec).id) && final(log)@[k].content_id is Some,
        (forall|k: int|
            0 <= k < old(rec).items@.len() ==> !cache@.contains_key(
                (#[trigger] old(rec).items@[k])@.content_id,
            )) ==> (final(rec).graph@ == old(rec).graph@ && n.0 == 0),
{
    let ghost g0 = rec.graph@;
    let ghost log0 = log@;
    let ghost outcomes0: Seq<StepOutcome> = Seq::empty();
    let mut outcomes = Ghost(outcomes0);
    let mut n: usize = 0;
    let mut k: usize = 0;
    let total = rec.items.len();
    while k < total
        invariant
            n <= k <= total,
            total == rec.items@.len(),
            rec.items == old(rec).items,
            rec.id == old(rec).id,
            rec.name == old(rec).name,
            rec.graph.wf(),
            rec.graph@.len() >= old(rec).graph@.len(),
            forall|i: int|
                0 <= i < old(rec).graph@.len() ==> {
                    let n0 = #[trigger] old(rec).graph@[i];
                    &&& rec.graph@[i].parent == n0.parent
                    &&& rec.graph@[i].class == n0.class
                    &&& rec.graph@[i].refs == n0.refs
                },
            forall|j: int|
                0 <= j < rec.items@.len() ==> item_valid(rec.graph@, (#[trigger] rec.items@[j])@),
            outcomes@.len() == k,
            run_ok(
                outcomes@,
                g0,
                log0,
                items_view(rec.items@).take(k as int),
                cache@,
                rec.id,
            ),
            n == count_ok(outcomes@),
            rec.graph@ == if k == 0 {
                g0
            } else {
                outcomes@.last().after
            },
            log@ == if k == 0 {
                log0
            } else {
                outcomes@.last().log_after
            },
            log@.len() == old(log)@.len() + (k - n as int),
            forall|j: int| 0 <= j < old(log)@.len() ==> log@[j] == old(log)@[j],
            forall|j: int|
                old(log)@.len() <= j < log@.len() ==> (#[trigger] log@[j]).scene_id == Some(
                    old(rec).id,
                ) && log@[j].content_id is Some,
            (forall|j: int|
                0 <= j < rec.items@.len() ==> !cache@.contains_key(
                    (#[trigger] rec.items@[j])@.content_id,
                )) ==> (rec.graph@ == g0 && n == 0),
        decreases total - k,
    {
        let ghost log_before = log@;
        let ghost graph_before = rec.graph@;
        let item = &rec.items[k];
        let r = transplant_one(&mut rec.graph, item, rec.id, cache, log);
        if r.is_some() {
            n += 1;
        }
        proof {
            assert forall|j: int| 0 <= j < rec.items@.len() implies item_valid(
                rec.graph@,
                (#[trigger] rec.items@[j])@,
            ) by {
                let w = rec.items@[j]@;
                assert(item_valid(graph_before, w));
                assert(wf_at(graph_before, w.placeholder));
                assert(rec.graph@[w.placeholder].parent == graph_before[w.placeholder].parent);
                assert(rec.graph@[w.wrapper].parent == graph_before[w.wrapper].parent);
            }
            if cache@.contains_key(rec.items@[k as int]@.content_id) {
                assert(!(forall|j: int|
                    0 <= j < rec.items@.len() ==> !cache@.contains_key(
                        (#[trigger] rec.items@[j])@.content_id,
                    )));
            }
            let w = rec.items@[k as int]@;
            let o = StepOutcome {
                ok: r is Some,
                before: graph_before,
                after: rec.graph@,
                log_before,
                log_after: log@,
                root: graph_before.len() as int,
                maps: if r is Some {
                    r->Some_0.1@
                } else {
                    TransplantMaps {
                        content_map: Map::empty(),
                        placeholder_map: Map::empty(),
                    }
                },
            };
            let outcomes_prev = outcomes@;
            outcomes@ = outcomes@.push(o);
            assert(step_ok(o, w, cache@, rec.id)) by {
                reveal(step_ok);
            }
            assert(outcomes@.drop_last() =~= outcomes_prev);
            assert(items_view(rec.items@).take(k + 1)[k as int] == w);
            assert forall|kk: int| 0 <= kk < outcomes@.len() implies {
                let oo = #[trigger] outcomes@[kk];
                &&& oo.before == (if kk == 0 {
                    g0
                } else {
                    outcomes@[kk - 1].after
                })
                &&& oo.log_before == (if kk == 0 {
                    log0
                } else {
                    outcomes@[kk - 1].log_after
                })
                &&& step_ok(oo, items_view(rec.items@).take(k + 1)[kk], cache@, rec.id)
            } by {
                if kk < k {
                    assert(outcomes@[kk] == outcomes_prev[kk]);
                    assert(items_view(rec.items@).take(k + 1)[kk] == items_view(
                        rec.items@,
                    ).take(k as int)[kk]);
                }
            }
        }
        k += 1;
    }
    proof {
        assert(items_view(rec.items@).take(total as int) =~= items_view(rec.items@));
    }
    (n, outcomes)
}

} // verus!
