use benchmark::partition::{client_for_chunk, divide_items, ChunkRange};

fn sizes(chunks: &[ChunkRange]) -> Vec<usize> {
    chunks.iter().map(|c| c.end - c.start).collect()
}

#[test]
fn hundred_and_one_requests_over_four_clients() {
    let chunks = divide_items(101, 4);
    assert_eq!(sizes(&chunks), vec![26, 25, 25, 25]);
    assert_eq!(chunks[0], ChunkRange { start: 0, end: 26 });
    assert_eq!(chunks[1], ChunkRange { start: 26, end: 51 });
    assert_eq!(chunks[2], ChunkRange { start: 51, end: 76 });
    assert_eq!(chunks[3], ChunkRange { start: 76, end: 101 });
}

#[test]
fn every_position_lies_in_exactly_one_chunk() {
    for total in 0..40usize {
        for clients in 1..9usize {
            let chunks = divide_items(total, clients);
            assert_eq!(chunks.len(), clients);
            for pos in 0..total {
                let holders = chunks.iter().filter(|c| c.start <= pos && pos < c.end).count();
                assert_eq!(holders, 1);
            }
            let lens = sizes(&chunks);
            let longest = *lens.iter().max().unwrap();
            let shortest = *lens.iter().min().unwrap();
            assert!(longest - shortest <= 1);
            assert_eq!(lens.iter().sum::<usize>(), total);
        }
    }
}

#[test]
fn fewer_items_than_clients_leaves_empty_chunks() {
    let chunks = divide_items(2, 4);
    assert_eq!(sizes(&chunks), vec![1, 1, 0, 0]);
    assert_eq!(chunks[3], ChunkRange { start: 2, end: 2 });
}

#[test]
fn empty_batch_gives_empty_chunks() {
    let chunks = divide_items(0, 3);
    assert_eq!(sizes(&chunks), vec![0, 0, 0]);
}

#[test]
fn even_split_has_equal_chunks() {
    assert_eq!(sizes(&divide_items(100, 4)), vec![25, 25, 25, 25]);
    assert_eq!(sizes(&divide_items(7, 1)), vec![7]);
}

#[test]
fn largest_batch_is_split_without_overflow() {
    let chunks = divide_items(usize::MAX, 2);
    assert_eq!(chunks[0].start, 0);
    assert_eq!(chunks[0].end, usize::MAX / 2 + 1);
    assert_eq!(chunks[1].end, usize::MAX);
}

#[test]
fn clients_are_taken_in_turn() {
    assert_eq!(client_for_chunk(0, 4), 0);
    assert_eq!(client_for_chunk(3, 4), 3);
    assert_eq!(client_for_chunk(4, 4), 0);
    assert_eq!(client_for_chunk(9, 4), 1);
    assert_eq!(client_for_chunk(5, 1), 0);
}
