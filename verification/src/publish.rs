//! The publish stage's decisions: what counts as a successful upload, how
//! one outcome is recorded, and the stage summary. Uploads themselves are
//! the driver's.

use vstd::prelude::*;

use crate::failures::{FailKind, FailureLog, FailureRecord};

verus! {

/// The character of one decimal digit.
pub open spec fn digit_char(d: int) -> char {
    ((48 + d) as u8) as char
}

/// The decimal rendering of `n`, most significant digit first.
pub open spec fn dec_str(n: int) -> Seq<char>
    decreases n,
{
    if n < 10 {
        seq![digit_char(n)]
    } else {
        dec_str(n / 10).push(digit_char(n % 10))
    }
}

/// Relies on std's `String::push`: appends exactly one character.
#[verifier::external_body]
fn push_char(s: &mut String, c: char)
    ensures
        final(s)@ == old(s)@.push(c),
{
    s.push(c);
}

/// Renders a status code in decimal, so a rejected publish can be reported
/// with the status it got.
pub fn status_decimal(n: u16) -> (s: String)
    ensures
        s@ == dec_str(n as int),
    decreases n,
{
    if n < 10 {
        let mut s = String::new();
        push_char(&mut s, (48 + n as u8) as char);
        proof {
            assert(s@ =~= seq![digit_char(n as int)]);
        }
        s
    } else {
        let mut s = status_decimal(n / 10);
        push_char(&mut s, (48 + (n % 10) as u8) as char);
        s
    }
}

/// What the record of a rejected publish says: the fixed phrase followed by
/// the HTTP status it got.
pub open spec fn rejected_detail(status: int) -> Seq<char> {
    "publish rejected with HTTP status "@ + dec_str(status)
}

/// Success of a publish attempt is any 2xx status; non-2xx responses and
/// transport errors are both failures.
pub fn publish_success(status: u16) -> (r: bool)
    ensures
        r == (200 <= status < 300),
{
    200 <= status && status < 300
}

/// Records the outcome of one scene's publish attempt: a 2xx status passes
/// silently, a non-2xx status or a transport error appends exactly one
/// failure record naming the scene and carrying the HTTP status or the
/// error text. One scene's outcome never touches another's.
pub fn record_publish_outcome(log: &mut FailureLog, scene_id: u64, outcome: Result<u16, String>)
    -> (ok: bool)
    ensures
        ok == (outcome matches Ok(s) && 200 <= s < 300),
        ok ==> final(log)@ == old(log)@,
        !ok ==> {
            &&& final(log)@.len() == old(log)@.len() + 1
            &&& forall|k: int| 0 <= k < old(log)@.len() ==> final(log)@[k] == old(log)@[k]
            &&& final(log)@.last().matches(
                match outcome {
                    Ok(_) => FailKind::PublishRejected,
                    Err(_) => FailKind::Transport,
                },
                Some(scene_id),
                None,
            )
            &&& match outcome {
                Ok(status) => final(log)@.last().detail@ == rejected_detail(status as int),
                Err(text) => final(log)@.last().detail@ == text@,
            }
        },
{
    match outcome {
        Ok(status) => {
            if publish_success(status) {
                true
            } else {
                let mut detail = "publish rejected with HTTP status ".to_owned();
                detail.append(status_decimal(status).as_str());
                log.push(
                    FailureRecord {
                        kind: FailKind::PublishRejected,
                        scene_id: Some(scene_id),
                        content_id: None,
                        detail,
                    },
                );
                false
            }
        },
        Err(detail) => {
            log.push(
                FailureRecord {
                    kind: FailKind::Transport,
                    scene_id: Some(scene_id),
                    content_id: None,
                    detail,
                },
            );
            false
        },
    }
}

/// How many entries of `results` are `true`.
pub open spec fn count_true(s: Seq<bool>) -> int
    decreases s.len(),
{
    if s.len() == 0 {
        0
    } else {
        count_true(s.drop_last()) + if s.last() {
            1int
        } else {
            0int
        }
    }
}

/// The stage summary: how many publishes succeeded and how many failed.
/// Together they account for every attempt.
#[verifier::loop_isolation(false)]
pub fn summarize(results: &Vec<bool>) -> (r: (usize, usize))
    ensures
        r.0 == count_true(results@),
        r.0 + r.1 == results@.len(),
{
    let mut succeeded: usize = 0;
    let mut k: usize = 0;
    while k < results.len()
        invariant
            k <= results@.len(),
            succeeded == count_true(results@.take(k as int)),
            succeeded <= k,
        decreases results@.len() - k,
    {
        if results[k] {
            succeeded += 1;
        }
        proof {
            assert(results@.take(k + 1).drop_last() =~= results@.take(k as int));
        }
        k += 1;
    }
    proof {
        assert(results@.take(results@.len() as int) =~= results@);
    }
    (succeeded, results.len() - succeeded)
}

} // verus!
