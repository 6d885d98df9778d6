use http_me::tarpit::{tarpit_chunks, TARPIT_CHUNK_SIZE, TARPIT_DELAY_MS};

#[test]
fn chunks_reconstruct_the_body() {
    for (len, c) in [(0usize, 1usize), (1, 1), (9, 4), (10, 10), (11, 10), (250, 100), (1000, 7)] {
        let body: Vec<u8> = (0..len).map(|i| (i % 251) as u8).collect();
        let chunks = tarpit_chunks(&body, c);
        let rebuilt: Vec<u8> = chunks.iter().flatten().copied().collect();
        assert_eq!(rebuilt, body, "len {} chunk {}", len, c);
        let expected_count = if len == 0 { 0 } else { (len + c - 1) / c };
        assert_eq!(chunks.len(), expected_count, "len {} chunk {}", len, c);
        for (i, ch) in chunks.iter().enumerate() {
            assert!(!ch.is_empty());
            assert!(ch.len() <= c);
            if i + 1 < chunks.len() {
                assert_eq!(ch.len(), c);
            }
        }
    }
}

#[test]
fn cadence_plan_for_250_bytes() {
    // With the service's chunk size of 100, a 250-byte body is delivered
    // as exactly 3 chunks of 100, 100 and 50 bytes; the deliverer then
    // waits the configured delay after each chunk.
    assert_eq!(TARPIT_CHUNK_SIZE, 100);
    assert_eq!(TARPIT_DELAY_MS, 1000);
    let body = vec![42u8; 250];
    let chunks = tarpit_chunks(&body, TARPIT_CHUNK_SIZE);
    let sizes: Vec<usize> = chunks.iter().map(|c| c.len()).collect();
    assert_eq!(sizes, vec![100, 100, 50]);
}

#[test]
fn empty_body_yields_no_chunks() {
    assert!(tarpit_chunks(&[], 100).is_empty());
}

#[test]
fn chunk_size_one() {
    let body = b"abc".to_vec();
    let chunks = tarpit_chunks(&body, 1);
    assert_eq!(chunks, vec![b"a".to_vec(), b"b".to_vec(), b"c".to_vec()]);
}
