//! Tests of the fan-out scheduler, the fetch bookkeeping, the publish
//! decisions, decompression, and the credential extraction.

use transplant::cache::ContentCache;
use transplant::cookie::{clean_value, extract_roblosecurity};
use transplant::failures::{FailKind, FailureLog};
use transplant::fanout::FanOut;
use transplant::fetch::{record_fetch_outcome, FetchError};
use transplant::gzip::decompress_if_needed;
use transplant::publish::{publish_success, record_publish_outcome, summarize};

#[test]
fn fanout_never_exceeds_width_and_completes_exactly() {
    let mut f = FanOut::new(10, 3);
    let mut started = Vec::new();
    let mut in_flight = 0usize;
    loop {
        while let Some(j) = f.try_start() {
            started.push(j);
            in_flight += 1;
            assert!(in_flight <= 3);
            assert_eq!(in_flight, f.in_flight());
        }
        if f.finished() {
            break;
        }
        // Resolve one task (success or failure alike) and refill.
        f.complete();
        in_flight -= 1;
    }
    // Every job was handed out exactly once, and all of them resolved.
    assert_eq!(started, (0..10).collect::<Vec<usize>>());
    assert!(f.finished());
    assert_eq!(f.in_flight(), 0);
}

#[test]
fn fetch_outcomes_fill_cache_or_report() {
    let mut cache = ContentCache::new();
    let mut log = FailureLog::new();
    let ok = record_fetch_outcome(&mut cache, &mut log, &"1".to_string(), Ok(vec![9, 9]));
    assert!(ok);
    assert_eq!(cache.get("1"), Some(&vec![9u8, 9u8]));
    assert_eq!(log.len(), 0);

    // The first recorded payload for an identifier wins.
    record_fetch_outcome(&mut cache, &mut log, &"1".to_string(), Ok(vec![7]));
    assert_eq!(cache.get("1"), Some(&vec![9u8, 9u8]));

    let failed = record_fetch_outcome(
        &mut cache,
        &mut log,
        &"2".to_string(),
        Err(FetchError::NoSourceLocation),
    );
    assert!(!failed);
    assert_eq!(cache.get("2"), None);
    let recs = log.drain();
    assert_eq!(recs.len(), 1);
    assert_eq!(recs[0].kind, FailKind::Resolution);
    assert_eq!(recs[0].content_id.as_deref(), Some("2"));

    let mut log = FailureLog::new();
    record_fetch_outcome(
        &mut cache,
        &mut log,
        &"3".to_string(),
        Err(FetchError::CdnFailed("timed out".to_string())),
    );
    assert_eq!(log.drain()[0].kind, FailKind::Transport);
}

#[test]
fn rejected_publish_is_reported_and_counted_without_touching_others() {
    assert!(publish_success(200));
    assert!(publish_success(299));
    assert!(!publish_success(403));
    assert!(!publish_success(199));

    let mut log = FailureLog::new();
    let ok = record_publish_outcome(&mut log, 41, Ok(201));
    let rejected = record_publish_outcome(&mut log, 42, Ok(403));
    let transport = record_publish_outcome(&mut log, 43, Err("connection reset".to_string()));
    assert!(ok && !rejected && !transport);

    let recs = log.drain();
    assert_eq!(recs.len(), 2);
    assert_eq!(recs[0].kind, FailKind::PublishRejected);
    assert_eq!(recs[0].scene_id, Some(42));
    assert_eq!(recs[0].detail, "publish rejected with HTTP status 403");
    assert_eq!(recs[1].kind, FailKind::Transport);
    assert_eq!(recs[1].scene_id, Some(43));
    assert_eq!(recs[1].detail, "connection reset");

    let (succeeded, failed) = summarize(&vec![ok, rejected, transport]);
    assert_eq!(succeeded, 1);
    assert_eq!(failed, 2);
}

#[test]
fn decompression_follows_the_transport_marker() {
    let plain = vec![1u8, 2, 3, 4];
    assert_eq!(decompress_if_needed(false, plain.clone()).unwrap(), plain);

    let mut encoder =
        flate2::write::GzEncoder::new(Vec::new(), flate2::Compression::default());
    std::io::Write::write_all(&mut encoder, &plain).unwrap();
    let gzipped = encoder.finish().unwrap();
    assert_eq!(decompress_if_needed(true, gzipped).unwrap(), plain);

    assert!(decompress_if_needed(true, vec![0, 1, 2]).is_err());
}

#[test]
fn credential_extraction_matches_the_grammar() {
    assert_eq!(
        extract_roblosecurity(".ROBLOSECURITY  abc123; Path=/").as_deref(),
        Some("abc123")
    );
    // Case-insensitive name, quoted value.
    assert_eq!(
        extract_roblosecurity("junk .RobloSecurity\t'secret'; more").as_deref(),
        Some("secret")
    );
    // A value that cleans to nothing is skipped in favour of a later one.
    assert_eq!(
        extract_roblosecurity(".ROBLOSECURITY '' .ROBLOSECURITY real").as_deref(),
        Some("real")
    );
    // No whitespace after the name means no match.
    assert_eq!(extract_roblosecurity(".ROBLOSECURITYabc"), None);
    assert_eq!(extract_roblosecurity("nothing here"), None);
    assert_eq!(extract_roblosecurity(""), None);
}

#[test]
fn clean_value_strips_wrapping() {
    assert_eq!(clean_value("  value  "), "value");
    assert_eq!(clean_value("value;;;"), "value");
    assert_eq!(clean_value("'value'"), "value");
    assert_eq!(clean_value(" \"value\"; "), "value");
    assert_eq!(clean_value("''"), "");
    assert_eq!(clean_value(""), "");
}
