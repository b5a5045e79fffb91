//! Laws of the transplant protocol that cut across single contracts.

use vstd::prelude::*;

use crate::failures::FailureRecord;
use crate::graph::{
    graph_wf, in_subtree, lemma_chain_linear, lemma_in_subtree_ge, GNode,
};
use crate::scan::WorkItemV;
use crate::transplant::{run_ok, step_ok, transplant_ok, StepOutcome, TransplantMaps};

verus! {

/// Isolation: within one scene's run, a failed work item — content never
/// fetched, undecodable, or structurally unusable — is invisible to every
/// other item: the scene it hands on is exactly the scene it received, and
/// its only trace is its own failure record. The next step therefore starts
/// from the very state it would have seen had the failed item not run at
/// all.
pub proof fn lemma_failed_step_is_isolated(
    outcomes: Seq<StepOutcome>,
    v0: Seq<GNode>,
    log0: Seq<FailureRecord>,
    items: Seq<WorkItemV>,
    cache: Map<Seq<char>, Seq<u8>>,
    scene_id: u64,
    k: int,
)
    requires
        run_ok(outcomes, v0, log0, items, cache, scene_id),
        0 <= k < outcomes.len(),
        !outcomes[k].ok,
    ensures
        outcomes[k].after == outcomes[k].before,
        outcomes[k].log_after.len() == outcomes[k].log_before.len() + 1,
        k + 1 < outcomes.len() ==> outcomes[k + 1].before == outcomes[k].before,
{
    reveal(step_ok);
    assert(step_ok(outcomes[k], items[k], cache, scene_id));
}

/// Identity preservation: after a successful transplant, the placeholder
/// node survives with its type tag and content-reference properties intact,
/// reachable as a descendant of the spliced content root, and it is no
/// longer a descendant of the wrapper, which itself is gone from the live
/// scene.
pub proof fn lemma_identity_preservation(
    v0: Seq<GNode>,
    c0: Seq<GNode>,
    vf: Seq<GNode>,
    ph: int,
    wrapper: int,
    gparent: int,
    root: int,
    maps: TransplantMaps,
)
    requires
        transplant_ok(v0, c0, vf, ph, wrapper, gparent, root, maps),
        graph_wf(v0),
        graph_wf(vf),
        0 < wrapper < v0.len(),
        0 <= gparent < wrapper,
        v0[ph].alive,
        in_subtree(v0, ph, ph),
    ensures
        ({
            let relocated = maps.placeholder_map[ph];
            &&& maps.placeholder_map.contains_key(ph)
            &&& vf[relocated].class == v0[ph].class
            &&& vf[relocated].refs == v0[ph].refs
            &&& vf[relocated].alive
            &&& in_subtree(vf, root, relocated)
            &&& !in_subtree(vf, wrapper, relocated)
            &&& !vf[wrapper].alive
        }),
{
    let relocated = maps.placeholder_map[ph];
    assert(maps.placeholder_map.contains_key(ph));
    assert(in_subtree(v0, wrapper, wrapper));
    let w0 = v0[wrapper];
    assert(vf[wrapper].alive == (w0.alive && !in_subtree(v0, wrapper, wrapper)));
    if in_subtree(vf, wrapper, relocated) {
        // The relocated placeholder hangs under the new content root, whose
        // whole ancestor chain lies strictly before the wrapper, so the
        // wrapper cannot sit on it.
        lemma_chain_linear(vf, wrapper, root, relocated);
        if in_subtree(vf, wrapper, root) {
            assert(root != wrapper);
            assert(vf[root].parent == gparent);
            lemma_in_subtree_ge(vf, wrapper, gparent);
        } else {
            lemma_in_subtree_ge(vf, root, wrapper);
        }
    }
}

} // verus!
