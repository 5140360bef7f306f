use bottlecap::logs::aggregator::Aggregator;
use bottlecap::logs::flusher::Flusher;

fn record(fill: u8, len: usize) -> Vec<u8> {
    vec![fill; len]
}

fn expected(records: &[Vec<u8>]) -> Vec<u8> {
    let mut out = vec![b'['];
    for (i, r) in records.iter().enumerate() {
        if i > 0 {
            out.push(b',');
        }
        out.extend_from_slice(r);
    }
    out.push(b']');
    out
}

#[test]
fn empty_aggregator_gives_empty_array() {
    let mut aggregator = Aggregator::new(1024);
    assert_eq!(aggregator.get_batch(), b"[]".to_vec());
    assert_eq!(aggregator.get_batch(), b"[]".to_vec());
    assert_eq!(aggregator.len(), 0);
}

#[test]
fn three_records_of_100_bytes_under_limit_250() {
    let mut aggregator = Aggregator::new(250);
    let a = record(b'a', 100);
    let b = record(b'b', 100);
    let c = record(b'c', 100);
    assert!(aggregator.append(a.clone()));
    assert!(aggregator.append(b.clone()));
    assert!(aggregator.append(c.clone()));
    let first = aggregator.get_batch();
    assert_eq!(first, expected(&[a, b]));
    assert_eq!(first.len(), 203);
    let second = aggregator.get_batch();
    assert_eq!(second, expected(&[c]));
    assert_eq!(second.len(), 102);
    assert_eq!(aggregator.get_batch(), b"[]".to_vec());
}

#[test]
fn batch_is_a_json_array_in_append_order() {
    let mut aggregator = Aggregator::new(1024);
    aggregator.add_batch(vec![
        b"{\"m\":1}".to_vec(),
        b"{\"m\":2}".to_vec(),
        b"{\"m\":3}".to_vec(),
    ]);
    assert_eq!(aggregator.len(), 3);
    assert_eq!(
        aggregator.get_batch(),
        b"[{\"m\":1},{\"m\":2},{\"m\":3}]".to_vec()
    );
    assert_eq!(aggregator.len(), 0);
}

#[test]
fn record_that_fills_the_limit_exactly_is_kept() {
    let mut aggregator = Aggregator::new(10);
    assert!(aggregator.append(record(b'x', 8)));
    let batch = aggregator.get_batch();
    assert_eq!(batch.len(), 10);
    assert_eq!(batch, b"[xxxxxxxx]".to_vec());
}

#[test]
fn oversized_record_is_dropped_at_append() {
    let mut aggregator = Aggregator::new(10);
    assert!(!aggregator.append(record(b'x', 9)));
    assert!(!aggregator.append(record(b'x', 500)));
    assert_eq!(aggregator.len(), 0);
    assert_eq!(aggregator.get_batch(), b"[]".to_vec());
}

#[test]
fn empty_record_is_dropped_at_append() {
    let mut aggregator = Aggregator::new(10);
    assert!(!aggregator.append(Vec::new()));
    assert_eq!(aggregator.len(), 0);
}

#[test]
fn tiny_limit_admits_nothing() {
    for limit in 0..3usize {
        let mut aggregator = Aggregator::new(limit);
        assert_eq!(aggregator.max_content_size_bytes(), limit);
        assert!(!aggregator.append(b"x".to_vec()));
        assert_eq!(aggregator.get_batch(), b"[]".to_vec());
    }
    let mut aggregator = Aggregator::new(3);
    assert!(aggregator.append(b"x".to_vec()));
    assert_eq!(aggregator.get_batch(), b"[x]".to_vec());
}

#[test]
fn add_batch_skips_what_append_would_drop() {
    let mut aggregator = Aggregator::new(8);
    aggregator.add_batch(vec![
        b"one".to_vec(),
        Vec::new(),
        b"toolong".to_vec(),
        b"two".to_vec(),
    ]);
    assert_eq!(aggregator.len(), 2);
    assert_eq!(aggregator.drain(), vec![b"[one]".to_vec(), b"[two]".to_vec()]);
}

#[test]
fn no_batch_exceeds_the_limit_and_nothing_is_lost() {
    let limit = 64usize;
    let mut aggregator = Aggregator::new(limit);
    let mut kept: Vec<Vec<u8>> = Vec::new();
    for i in 0..200usize {
        let r = record(b'a' + (i % 26) as u8, (i * 7) % 80);
        if aggregator.append(r.clone()) {
            kept.push(r);
        }
    }
    let mut seen: Vec<u8> = Vec::new();
    let mut batches = 0;
    loop {
        let batch = aggregator.get_batch();
        if batch.len() <= 2 {
            assert_eq!(batch, b"[]".to_vec());
            break;
        }
        assert!(batch.len() <= limit);
        assert_eq!(batch[0], b'[');
        assert_eq!(batch[batch.len() - 1], b']');
        if batches > 0 {
            seen.push(b',');
        }
        seen.extend_from_slice(&batch[1..batch.len() - 1]);
        batches += 1;
    }
    let all = expected(&kept);
    assert_eq!(seen, all[1..all.len() - 1].to_vec());
    assert_eq!(aggregator.len(), 0);
}

#[test]
fn batch_takes_as_many_records_as_fit() {
    // "[aaa,bbb]" is 9 bytes, "[aaa,bbb,c]" would be 11.
    let mut aggregator = Aggregator::new(10);
    aggregator.add_batch(vec![b"aaa".to_vec(), b"bbb".to_vec(), b"c".to_vec()]);
    assert_eq!(aggregator.get_batch(), b"[aaa,bbb]".to_vec());
    assert_eq!(aggregator.get_batch(), b"[c]".to_vec());
}

#[test]
fn drain_empties_the_aggregator() {
    let mut aggregator = Aggregator::new(250);
    for fill in [b'a', b'b', b'c'] {
        aggregator.append(record(fill, 100));
    }
    let batches = aggregator.drain();
    assert_eq!(batches.len(), 2);
    assert_eq!(batches[0].len(), 203);
    assert_eq!(batches[1].len(), 102);
    assert_eq!(aggregator.len(), 0);
    assert!(aggregator.drain().is_empty());
}

#[test]
fn flush_describes_one_post_per_batch() {
    let flusher = Flusher::new("key".to_string(), "datadoghq.com".to_string());
    let mut aggregator = Aggregator::new(250);
    for fill in [b'a', b'b', b'c'] {
        aggregator.append(record(fill, 100));
    }
    let requests = flusher.flush(&mut aggregator);
    assert_eq!(requests.len(), 2);
    for request in &requests {
        assert_eq!(
            request.url,
            b"https://http-intake.logs.datadoghq.com/api/v2/logs".to_vec()
        );
        assert_eq!(request.api_key, "key");
    }
    assert_eq!(
        requests[0].body,
        expected(&[record(b'a', 100), record(b'b', 100)])
    );
    assert_eq!(requests[1].body, expected(&[record(b'c', 100)]));
    assert_eq!(aggregator.len(), 0);
}

#[test]
fn flush_of_an_empty_aggregator_posts_nothing() {
    let flusher = Flusher::new("key".to_string(), "datadoghq.eu".to_string());
    let mut aggregator = Aggregator::new(250);
    assert!(flusher.flush(&mut aggregator).is_empty());
}

#[test]
fn send_skips_the_empty_array() {
    let flusher = Flusher::new("key".to_string(), "datadoghq.eu".to_string());
    assert!(flusher.send(b"[]".to_vec()).is_none());
    assert!(flusher.send(Vec::new()).is_none());
    assert!(!Flusher::should_send(&b"[]".to_vec()));
    assert!(Flusher::should_send(&b"[1]".to_vec()));
    let request = flusher.send(b"[1]".to_vec()).unwrap();
    assert_eq!(
        request.url,
        b"https://http-intake.logs.datadoghq.eu/api/v2/logs".to_vec()
    );
    assert_eq!(request.api_key, "key");
    assert_eq!(request.body, b"[1]".to_vec());
}
