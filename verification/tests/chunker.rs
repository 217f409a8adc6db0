use snapmirror::chunker::Chunker;

fn stream(len: usize) -> Vec<u8> {
    (0..len).map(|i| (i % 251) as u8).collect()
}

fn chunk_all(data: &[u8], chunk_size: usize, read_size: usize) -> Vec<Vec<u8>> {
    let mut chunker = Chunker::new(chunk_size);
    let mut chunks = Vec::new();
    let mut at = 0;
    while !chunker.is_finished() {
        let n = read_size.min(chunker.free()).min(data.len() - at);
        if let Some(c) = chunker.accept(&data[at..at + n]) {
            chunks.push(c);
        }
        at += n;
    }
    chunks
}

fn check_round_trip(len: usize, chunk_size: usize, read_size: usize) -> Vec<Vec<u8>> {
    let data = stream(len);
    let chunks = chunk_all(&data, chunk_size, read_size);
    assert_eq!(chunks.concat(), data);
    assert!(!chunks.is_empty());
    for c in &chunks[..chunks.len() - 1] {
        assert_eq!(c.len(), chunk_size);
    }
    assert!(chunks[chunks.len() - 1].len() < chunk_size);
    chunks
}

#[test]
fn empty_stream_gives_one_empty_chunk() {
    let chunks = check_round_trip(0, 8, 3);
    assert_eq!(chunks, vec![Vec::<u8>::new()]);
}

#[test]
fn stream_shorter_than_a_chunk() {
    let chunks = check_round_trip(5, 8, 3);
    assert_eq!(chunks, vec![vec![0, 1, 2, 3, 4]]);
}

#[test]
fn stream_of_exactly_one_chunk() {
    let chunks = check_round_trip(8, 8, 3);
    assert_eq!(chunks.len(), 2);
    assert_eq!(chunks[0].len(), 8);
    assert_eq!(chunks[1].len(), 0);
}

#[test]
fn stream_over_several_chunks() {
    let chunks = check_round_trip(8 * 3 + 2, 8, 5);
    assert_eq!(chunks.len(), 4);
    assert_eq!(chunks[3], vec![24, 25]);
    let chunks = check_round_trip(8 * 3, 8, 8);
    assert_eq!(chunks.len(), 4);
    check_round_trip(1000, 7, 1);
    check_round_trip(1000, 1, 1);
}

#[test]
fn a_read_that_fills_the_buffer_hands_it_on() {
    let mut c = Chunker::new(4);
    assert_eq!(c.free(), 4);
    assert_eq!(c.accept(&[1, 2, 3]), None);
    assert_eq!(c.free(), 1);
    assert_eq!(c.accept(&[4]), Some(vec![1, 2, 3, 4]));
    assert_eq!(c.free(), 4);
    assert!(!c.is_finished());
    assert_eq!(c.accept(&[5]), None);
    assert_eq!(c.accept(&[]), Some(vec![5]));
    assert!(c.is_finished());
}
