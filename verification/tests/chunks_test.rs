use threadpools::chunks::ChunkSplitter;

fn all_chunks(total: usize, n: usize) -> Vec<(usize, usize)> {
    let mut splitter = ChunkSplitter::new(total, n);
    let mut out = Vec::new();
    while let Some(chunk) = splitter.next() {
        out.push(chunk);
    }
    out
}

#[test]
fn splits_ten_into_three() {
    assert_eq!(all_chunks(10, 3), vec![(0, 4), (4, 7), (7, 10)]);
}

#[test]
fn splits_evenly_when_divisible() {
    assert_eq!(all_chunks(12, 4), vec![(0, 3), (3, 6), (6, 9), (9, 12)]);
}

#[test]
fn fewer_items_than_chunks_gives_single_items() {
    assert_eq!(all_chunks(2, 5), vec![(0, 1), (1, 2)]);
}

#[test]
fn no_items_gives_no_chunks() {
    assert_eq!(all_chunks(0, 4), Vec::<(usize, usize)>::new());
}

#[test]
fn one_chunk_takes_everything() {
    assert_eq!(all_chunks(7, 1), vec![(0, 7)]);
}

#[test]
fn exhausted_splitter_stays_exhausted() {
    let mut splitter = ChunkSplitter::new(3, 2);
    assert_eq!(splitter.next(), Some((0, 2)));
    assert_eq!(splitter.next(), Some((2, 3)));
    assert_eq!(splitter.next(), None);
    assert_eq!(splitter.next(), None);
    assert_eq!(splitter.next(), None);
}

#[test]
fn chunks_partition_and_balance() {
    for total in 0..40usize {
        for n in 1..12usize {
            let chunks = all_chunks(total, n);
            assert_eq!(chunks.len(), if total < n { total } else { n });
            let mut pos = 0;
            for (i, &(start, end)) in chunks.iter().enumerate() {
                assert_eq!(start, pos);
                assert!(end > start);
                let size = end - start;
                let expected = total / n + if i < total % n { 1 } else { 0 };
                assert_eq!(size, expected);
                pos = end;
            }
            assert_eq!(pos, total);
        }
    }
}

#[test]
fn large_split_matches_formula() {
    let chunks = all_chunks(4194304, 4096);
    assert_eq!(chunks.len(), 4096);
    assert_eq!(chunks[0], (0, 1024));
    assert_eq!(chunks[4095], (4193280, 4194304));
}
