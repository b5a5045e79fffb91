//! The content-fetch stage: deduplication of referenced content identifiers
//! and the bookkeeping of each fetch's outcome. The network work itself is
//! the driver's; every decision about what it means is here.

use vstd::prelude::*;

use crate::cache::ContentCache;
use crate::failures::{FailKind, FailureLog, FailureRecord};
use crate::graph::str_eq;
use crate::transplant::SceneRecord;

verus! {

/// Identifier `id` is referenced by some work item of some scene record.
pub open spec fn id_referenced(rs: Seq<SceneRecord>, id: Seq<char>) -> bool {
    exists|r: int, j: int|
        0 <= r < rs.len() && 0 <= j < rs[r].items@.len() && (#[trigger] rs[r].items@[j])@.content_id
            == id
}

/// Some entry of `out` equals the `j`-th content identifier of record `t`.
pub open spec fn covered(records: Seq<SceneRecord>, out: Seq<String>, t: int, j: int) -> bool {
    exists|k: int| 0 <= k < out.len() && (#[trigger] out[k])@ == records[t].items@[j]@.content_id
}

/// Whether a string equal to `s` occurs in `v`.
#[verifier::loop_isolation(false)]
fn contains_str(v: &Vec<String>, s: &str) -> (r: bool)
    ensures
        r == exists|k: int| 0 <= k < v@.len() && (#[trigger] v@[k])@ == s@,
{
    let mut k: usize = 0;
    while k < v.len()
        invariant
            k <= v@.len(),
            forall|t: int| 0 <= t < k ==> (#[trigger] v@[t])@ != s@,
        decreases v@.len() - k,
    {
        if str_eq(v[k].as_str(), s) {
            return true;
        }
        k += 1;
    }
    false
}

/// The deduplicated set of content identifiers referenced across all scene
/// records: every referenced identifier exactly once, nothing else.
#[verifier::loop_isolation(false)]
#[verifier::rlimit(50)]
pub fn unique_content_ids(records: &Vec<SceneRecord>) -> (out: Vec<String>)
    ensures
        forall|a: int, b: int| 0 <= a < b < out@.len() ==> (#[trigger] out@[a])@ != (#[trigger] out@[b])@,
        forall|k: int| 0 <= k < out@.len() ==> id_referenced(records@, (#[trigger] out@[k])@),
        forall|r: int, j: int|
            0 <= r < records@.len() && 0 <= j < records@[r].items@.len() ==> #[trigger] covered(
                records@,
                out@,
                r,
                j,
            ),
{
    let mut out: Vec<String> = Vec::new();
    let mut r: usize = 0;
    while r < records.len()
        invariant
            r <= records@.len(),
            forall|a: int, b: int|
                0 <= a < b < out@.len() ==> (#[trigger] out@[a])@ != (#[trigger] out@[b])@,
            forall|k: int| 0 <= k < out@.len() ==> id_referenced(records@, (#[trigger] out@[k])@),
            forall|t: int, j: int|
                0 <= t < r && 0 <= j < records@[t].items@.len() ==> #[trigger] covered(
                    records@,
                    out@,
                    t,
                    j,
                ),
        decreases records@.len() - r,
    {
        let mut j: usize = 0;
        let item_count = records[r].items.len();
        while j < item_count
            invariant
                j <= item_count,
                r < records@.len(),
                item_count == records@[r as int].items@.len(),
                forall|a: int, b: int|
                    0 <= a < b < out@.len() ==> (#[trigger] out@[a])@ != (#[trigger] out@[b])@,
                forall|k: int|
                    0 <= k < out@.len() ==> id_referenced(records@, (#[trigger] out@[k])@),
                forall|t: int, jj: int|
                    0 <= t < r && 0 <= jj < records@[t].items@.len() ==> #[trigger] covered(
                        records@,
                        out@,
                        t,
                        jj,
                    ),
                forall|jj: int| 0 <= jj < j ==> #[trigger] covered(records@, out@, r as int, jj),
            decreases item_count - j,
        {
            let ghost out0 = out@;
            let id = &records[r].items[j].content_id;
            let present = contains_str(&out, id.as_str());
            if !present {
                out.push(id.clone());
                proof {
                    assert(id_referenced(records@, id@)) by {
                        assert(records@[r as int].items@[j as int]@.content_id == id@);
                    }
                    assert(out@.last()@ == id@);
                    assert forall|a: int, b: int| 0 <= a < b < out@.len() implies (
                    #[trigger] out@[a])@ != (#[trigger] out@[b])@ by {
                        if b == out@.len() - 1 {
                            assert(out@[a] == out0[a]);
                        } else {
                            assert(out@[a] == out0[a] && out@[b] == out0[b]);
                        }
                    }
                }
            }
            proof {
                assert(exists|k: int| 0 <= k < out@.len() && (#[trigger] out@[k])@ == id@) by {
                    if present {
                        let k = choose|k: int|
                            0 <= k < out0.len() && (#[trigger] out0[k])@ == id@;
                        assert(out@[k]@ == id@);
                    } else {
                        assert(out@[out@.len() - 1]@ == id@);
                    }
                }
                assert forall|jj: int| 0 <= jj < j + 1 implies #[trigger] covered(
                    records@,
                    out@,
                    r as int,
                    jj,
                ) by {
                    if jj < j {
                        assert(covered(records@, out0, r as int, jj));
                        let k = choose|k: int|
                            0 <= k < out0.len() && (#[trigger] out0[k])@
                                == records@[r as int].items@[jj]@.content_id;
                        assert(out@[k]@ == records@[r as int].items@[jj]@.content_id);
                    } else {
                        let k = choose|k: int|
                            0 <= k < out@.len() && (#[trigger] out@[k])@ == id@;
                        assert(out@[k]@ == records@[r as int].items@[jj]@.content_id);
                    }
                }
                assert forall|t: int, jj: int|
                    0 <= t < r && 0 <= jj < records@[t].items@.len() implies #[trigger] covered(
                    records@,
                    out@,
                    t,
                    jj,
                ) by {
                    assert(covered(records@, out0, t, jj));
                    let k = choose|k: int|
                        0 <= k < out0.len() && (#[trigger] out0[k])@
                            == records@[t].items@[jj]@.content_id;
                    assert(out@[k]@ == records@[t].items@[jj]@.content_id);
                }
            }
            j += 1;
        }
        r += 1;
    }
    out
}

/// Why one content fetch failed, step by step along the two-step protocol.
pub enum FetchError {
    /// The metadata lookup request itself failed.
    MetaFailed(String),
    /// The metadata lookup response could not be parsed.
    MetaParseFailed(String),
    /// No distribution entry in `"source"` format.
    NoSourceLocation,
    /// The payload request against the location failed.
    CdnFailed(String),
    /// The payload would not decompress.
    DecompressFailed(String),
}

/// The taxonomy slot of each fetch failure.
pub open spec fn fetch_fail_kind(e: FetchError) -> FailKind {
    match e {
        FetchError::MetaFailed(_) => FailKind::Transport,
        FetchError::MetaParseFailed(_) => FailKind::Decode,
        FetchError::NoSourceLocation => FailKind::Resolution,
        FetchError::CdnFailed(_) => FailKind::Transport,
        FetchError::DecompressFailed(_) => FailKind::Decode,
    }
}

/// Records the outcome of one content fetch: success inserts the bytes into
/// the cache (first insertion for an identifier wins), failure appends
/// exactly one failure record carrying the content id and the step it died
/// at, and leaves the cache alone. One fetch's outcome never touches any
/// other identifier's entry.
pub fn record_fetch_outcome(
    cache: &mut ContentCache,
    log: &mut FailureLog,
    id: &String,
    outcome: Result<Vec<u8>, FetchError>,
) -> (ok: bool)
    requires
        old(cache).wf(),
    ensures
        final(cache).wf(),
        ok == outcome is Ok,
        match outcome {
            Ok(bytes) => {
                &&& final(cache)@ == if old(cache)@.contains_key(id@) {
                    old(cache)@
                } else {
                    old(cache)@.insert(id@, bytes@)
                }
                &&& final(log)@ == old(log)@
            },
            Err(e) => {
                &&& final(cache)@ == old(cache)@
                &&& final(log)@.len() == old(log)@.len() + 1
                &&& forall|k: int| 0 <= k < old(log)@.len() ==> final(log)@[k] == old(log)@[k]
                &&& final(log)@.last().matches(fetch_fail_kind(e), None, Some(id@))
            },
        },
{
    match outcome {
        Ok(bytes) => {
            cache.insert(id.clone(), bytes);
            true
        },
        Err(e) => {
            let (kind, detail) = match e {
                FetchError::MetaFailed(d) => (FailKind::Transport, d),
                FetchError::MetaParseFailed(d) => (FailKind::Decode, d),
                FetchError::NoSourceLocation => (
                    FailKind::Resolution,
                    "no source-format distribution entry".to_owned(),
                ),
                FetchError::CdnFailed(d) => (FailKind::Transport, d),
                FetchError::DecompressFailed(d) => (FailKind::Decode, d),
            };
            log.push(
                FailureRecord { kind, scene_id: None, content_id: Some(id.clone()), detail },
            );
            false
        },
    }
}

} // verus!
