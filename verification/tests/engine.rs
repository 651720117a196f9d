use hf_transfer::assembly::place_chunk;
use hf_transfer::gate::Gate;
use hf_transfer::header::range_header;
use hf_transfer::length::MetadataFault;
use hf_transfer::length::content_length;
use hf_transfer::length::parse_content_length;
use hf_transfer::orchestrate::plan_download;
use hf_transfer::outcome::DownloadError;
use hf_transfer::outcome::reduce_outcomes;
use hf_transfer::outcome::resolve_failure;
use hf_transfer::planner::ByteRange;
use hf_transfer::planner::plan_chunks;

fn range(start: usize, end_inclusive: usize) -> ByteRange {
    ByteRange { start, end_inclusive }
}

/// A range-respecting server's body for one range: the content from `start`
/// through `end_inclusive`, clamped to the content's actual end.
fn served_bytes(content: &[u8], r: &ByteRange) -> Vec<u8> {
    let hi = std::cmp::min(r.end_inclusive + 1, content.len());
    content[r.start..hi].to_vec()
}

#[test]
fn plan_ten_bytes_in_chunks_of_four() {
    let ranges = plan_chunks(10, 4);
    assert_eq!(ranges, vec![range(0, 3), range(4, 7), range(8, 10)]);
}

#[test]
fn plan_zero_length_is_empty() {
    assert!(plan_chunks(0, 4).is_empty());
    assert!(plan_chunks(0, 1).is_empty());
}

#[test]
fn plan_single_chunk_when_chunk_exceeds_length() {
    assert_eq!(plan_chunks(3, 10), vec![range(0, 3)]);
    assert_eq!(plan_chunks(1, 1), vec![range(0, 0)]);
}

#[test]
fn plan_exact_multiple_of_chunk_size() {
    assert_eq!(plan_chunks(8, 4), vec![range(0, 3), range(4, 7)]);
}

#[test]
fn plan_is_contiguous_ascending_and_anchored() {
    for length in [1usize, 2, 9, 10, 16, 100, 1_048_577] {
        for chunk in [1usize, 2, 3, 4, 7, 4096] {
            let r = plan_chunks(length, chunk);
            assert_eq!(r[0].start, 0);
            for w in r.windows(2) {
                assert_eq!(w[0].end_inclusive + 1, w[1].start);
                assert!(w[0].start < w[1].start);
            }
            let last = r.last().unwrap();
            assert_eq!(last.start % chunk, 0);
            assert!(last.start < length && length <= last.start + chunk);
        }
    }
}

#[test]
fn chunk_writes_rebuild_content() {
    let content: Vec<u8> = (0u8..=9).collect();
    let ranges = plan_chunks(content.len(), 4);
    let mut file = vec![0u8; content.len()];
    for r in &ranges {
        let body = served_bytes(&content, r);
        place_chunk(&mut file, r.start, &body);
    }
    assert_eq!(file, content);
}

#[test]
fn chunk_writes_rebuild_content_in_any_order() {
    let content: Vec<u8> = (0u8..50).map(|b| b.wrapping_mul(11)).collect();
    let mut reversed = plan_chunks(content.len(), 8);
    reversed.reverse();
    let mut file = vec![0u8; content.len()];
    for r in &reversed {
        let body = served_bytes(&content, r);
        place_chunk(&mut file, r.start, &body);
    }
    assert_eq!(file, content);
}

#[test]
fn download_twice_rebuilds_identical_content() {
    let content: Vec<u8> = (0u8..100).map(|b| b.wrapping_mul(37)).collect();
    let mut images = Vec::new();
    for _ in 0..2 {
        // The destination was removed after the first run: each run starts
        // from a fresh file image of the probed length.
        let mut file = vec![0u8; content.len()];
        for r in &plan_chunks(content.len(), 7) {
            let body = served_bytes(&content, r);
            place_chunk(&mut file, r.start, &body);
        }
        images.push(file);
    }
    assert_eq!(images[0], images[1]);
    assert_eq!(images[0], content);
}

#[test]
fn place_chunk_touches_only_its_span() {
    let mut file = vec![1u8, 1, 1, 1, 1];
    place_chunk(&mut file, 1, &vec![9u8, 8]);
    assert_eq!(file, vec![1, 9, 8, 1, 1]);
}

#[test]
fn range_ignoring_server_corrupts_without_detection() {
    // A server that answers every range request with the full content.
    let content: Vec<u8> = (1u8..=10).collect();
    let ranges = plan_chunks(content.len(), 4);
    let mut file = vec![0u8; content.len()];
    let mut outcomes: Vec<Result<(), DownloadError>> = Vec::new();
    for r in &ranges {
        let body = content.clone();
        // The fetcher writes the body at the chunk's offset; a positioned
        // file write past the end grows the file.
        if file.len() < r.start + body.len() {
            file.resize(r.start + body.len(), 0);
        }
        file[r.start..r.start + body.len()].copy_from_slice(&body);
        outcomes.push(Ok(()));
    }
    // Every chunk operation "succeeded", so the engine reports success:
    // there is no post-check of the final size or content.
    assert!(reduce_outcomes(outcomes).is_ok());
    // Yet the file is corrupt: the overlapping full-content writes grew it.
    assert_ne!(file.len(), content.len());
    assert_ne!(&file[..content.len()], &content[..]);
}

#[test]
fn gate_caps_concurrent_admissions() {
    // Three planned fetches, at most two in flight at any instant.
    let ranges = plan_chunks(10, 4);
    assert_eq!(ranges.len(), 3);
    let mut gate = Gate::new(2);
    assert!(gate.try_acquire());
    assert!(gate.try_acquire());
    assert!(!gate.try_acquire());
    assert_eq!(gate.active_count(), 2);
    // One of the first two fetches finishes; the third is admitted.
    gate.release();
    assert!(gate.try_acquire());
    assert_eq!(gate.active_count(), 2);
}

#[test]
fn gate_never_exceeds_capacity() {
    for cap in 1usize..5 {
        let mut gate = Gate::new(cap);
        let mut admitted = 0usize;
        for _ in 0..10 {
            if gate.try_acquire() {
                admitted += 1;
            }
            assert!(gate.active_count() <= gate.capacity());
        }
        assert_eq!(admitted, cap);
    }
}

#[test]
fn missing_content_length_is_terminal() {
    assert_eq!(content_length(None), Err(MetadataFault::MissingHeader));
    // No usable length means no ranges are ever planned: no chunk work, no
    // destination file.
    assert_eq!(plan_download(None, 4), Err(MetadataFault::MissingHeader));
}

#[test]
fn unusable_content_length_values() {
    assert_eq!(content_length(Some(&b"".to_vec())), Err(MetadataFault::UnusableValue));
    assert_eq!(content_length(Some(&b"12a".to_vec())), Err(MetadataFault::UnusableValue));
    assert_eq!(content_length(Some(&b"-5".to_vec())), Err(MetadataFault::UnusableValue));
    assert_eq!(content_length(Some(&b" 7".to_vec())), Err(MetadataFault::UnusableValue));
    assert_eq!(
        content_length(Some(&b"999999999999999999999999999999".to_vec())),
        Err(MetadataFault::UnusableValue)
    );
    assert_eq!(plan_download(Some(&b"12a".to_vec()), 4), Err(MetadataFault::UnusableValue));
}

#[test]
fn parses_decimal_content_length() {
    assert_eq!(parse_content_length(&b"0".to_vec()), Some(0));
    assert_eq!(parse_content_length(&b"10".to_vec()), Some(10));
    assert_eq!(parse_content_length(&b"1048576".to_vec()), Some(1_048_576));
    assert_eq!(content_length(Some(&b"1048576".to_vec())), Ok(1_048_576));
}

#[test]
fn plans_from_probed_header() {
    assert_eq!(plan_download(Some(&b"10".to_vec()), 4), Ok(vec![
        range(0, 3),
        range(4, 7),
        range(8, 10),
    ]));
    assert_eq!(plan_download(Some(&b"0".to_vec()), 4), Ok(vec![]));
}

#[test]
fn one_failure_fails_the_download() {
    let outcomes: Vec<Result<(), DownloadError>> = vec![
        Ok(()),
        Ok(()),
        Err(DownloadError::Chunk("connection reset".to_string())),
        Ok(()),
    ];
    let r = reduce_outcomes(outcomes);
    assert!(matches!(r, Err(DownloadError::Chunk(m)) if m == "connection reset"));
}

#[test]
fn first_failure_is_surfaced() {
    let outcomes: Vec<Result<(), DownloadError>> = vec![
        Ok(()),
        Err(DownloadError::Chunk("first".to_string())),
        Err(DownloadError::Chunk("second".to_string())),
    ];
    let r = reduce_outcomes(outcomes);
    assert!(matches!(r, Err(DownloadError::Chunk(m)) if m == "first"));
}

#[test]
fn all_successes_succeed() {
    let outcomes: Vec<Result<(), DownloadError>> = vec![Ok(()), Ok(()), Ok(())];
    assert!(reduce_outcomes(outcomes).is_ok());
    assert!(reduce_outcomes(Vec::new()).is_ok());
}

#[test]
fn cleanup_failure_supersedes_download_error() {
    let err = DownloadError::Chunk("boom".to_string());
    // Destination never existed: the original error stands.
    assert!(matches!(resolve_failure(err.clone(), None), DownloadError::Chunk(m) if m == "boom"));
    // Removed cleanly: the original error stands.
    assert!(matches!(
        resolve_failure(err.clone(), Some(Ok(()))),
        DownloadError::Chunk(m) if m == "boom"
    ));
    // Removal itself failed: the cleanup error is what the caller sees.
    assert!(matches!(
        resolve_failure(err, Some(Err("permission denied".to_string()))),
        DownloadError::Cleanup(m) if m == "permission denied"
    ));
}

#[test]
fn formats_range_headers() {
    assert_eq!(range_header(0, 3), "bytes=0-3");
    assert_eq!(range_header(4, 7), "bytes=4-7");
    assert_eq!(range_header(8, 10), "bytes=8-10");
    assert_eq!(range_header(0, 0), "bytes=0-0");
    assert_eq!(range_header(1_048_576, 2_097_151), "bytes=1048576-2097151");
}
