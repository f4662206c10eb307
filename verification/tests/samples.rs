use awecut::samples::{
    make_overlap_samples, overlap_all, samples_of, OverlappingSamplesIter, SampleChunker,
};

/// One step of a run over `source`, which is asked only where the run
/// takes input.
fn next_of(
    run: &mut OverlappingSamplesIter<f32>,
    source: &mut dyn Iterator<Item = [f32; 2]>,
) -> Option<Vec<f32>> {
    let pulled = if run.wants_input() {
        source.next().map(|chunk| chunk.to_vec())
    } else {
        None
    };
    run.next(pulled)
}

#[test]
fn test_make_overlap_samples_empty() {
    let empty_iter: Vec<[f32; 2]> = vec![];
    let mut source = empty_iter.into_iter();
    let mut overlap_iter = make_overlap_samples::<f32>(2);
    assert_eq!(next_of(&mut overlap_iter, &mut source), None);
}

#[test]
fn test_make_overlap_samples_once() {
    let single_chunk = [[1.0, 2.0]];
    let mut source = single_chunk.into_iter();
    let mut overlap_iter = make_overlap_samples::<f32>(2);
    assert_eq!(next_of(&mut overlap_iter, &mut source), Some(vec![1.0, 2.0]));
    assert_eq!(next_of(&mut overlap_iter, &mut source), None);
}

#[test]
fn test_make_overlap_samples_twice() {
    let chunks = [[1.0, 2.0], [3.0, 4.0]];
    let mut source = chunks.into_iter();
    let mut overlap_iter = make_overlap_samples::<f32>(2);
    assert_eq!(next_of(&mut overlap_iter, &mut source), Some(vec![1.0, 2.0]));
    assert_eq!(next_of(&mut overlap_iter, &mut source), Some(vec![2.0, 3.0]));
    assert_eq!(next_of(&mut overlap_iter, &mut source), Some(vec![3.0, 4.0]));
    assert_eq!(next_of(&mut overlap_iter, &mut source), None);
}

#[test]
fn test_make_overlap_samples_thrice() {
    let chunks = [[1.0, 2.0], [3.0, 4.0], [5.0, 6.0]];
    let mut source = chunks.into_iter();
    let mut overlap_iter = make_overlap_samples::<f32>(2);
    assert_eq!(next_of(&mut overlap_iter, &mut source), Some(vec![1.0, 2.0]));
    assert_eq!(next_of(&mut overlap_iter, &mut source), Some(vec![2.0, 3.0]));
    assert_eq!(next_of(&mut overlap_iter, &mut source), Some(vec![3.0, 4.0]));
    assert_eq!(next_of(&mut overlap_iter, &mut source), Some(vec![4.0, 5.0]));
    assert_eq!(next_of(&mut overlap_iter, &mut source), Some(vec![5.0, 6.0]));
    assert_eq!(next_of(&mut overlap_iter, &mut source), None);
}

#[test]
fn overlap_all_gives_every_chunk_and_what_straddles_each_two() {
    let chunks = vec![vec![1, 2, 3, 4], vec![5, 6, 7, 8], vec![9, 10, 11, 12]];
    assert_eq!(
        overlap_all(&chunks, 4),
        vec![
            vec![1, 2, 3, 4],
            vec![3, 4, 5, 6],
            vec![5, 6, 7, 8],
            vec![7, 8, 9, 10],
            vec![9, 10, 11, 12],
        ]
    );
    assert_eq!(overlap_all::<u8>(&vec![], 4), Vec::<Vec<u8>>::new());
    assert_eq!(overlap_all(&vec![vec![1, 2]], 2), vec![vec![1, 2]]);
}

#[test]
fn a_run_asks_for_input_on_every_other_step() {
    let mut run = make_overlap_samples::<u8>(2);
    assert!(run.wants_input());
    assert_eq!(run.next(Some(vec![1, 2])), Some(vec![1, 2]));
    assert!(run.wants_input());
    assert_eq!(run.next(Some(vec![3, 4])), Some(vec![2, 3]));
    assert!(!run.wants_input());
    assert_eq!(run.next(None), Some(vec![3, 4]));
    assert!(run.wants_input());
    assert_eq!(run.next(None), None);
    assert!(run.wants_input());
}

#[test]
fn samples_of_reads_words_least_significant_byte_first() {
    assert_eq!(
        samples_of(&vec![0x00, 0x00, 0x80, 0x3f, 0x04, 0x03, 0x02, 0x01], 2),
        vec![0x3f800000, 0x01020304]
    );
    assert_eq!(f32::from_bits(samples_of(&vec![0, 0, 0x80, 0x3f], 1)[0]), 1.0);
}

#[test]
fn samples_of_fills_up_with_zero_bytes() {
    assert_eq!(
        samples_of(&vec![0x04, 0x03, 0x02, 0x01, 0xff], 3),
        vec![0x01020304, 0xff, 0]
    );
}

#[test]
fn a_chunker_gives_out_a_chunk_when_it_is_full() {
    let mut chunker = SampleChunker::new(2);
    assert_eq!(chunker.room(), 8);
    assert_eq!(chunker.feed(&[1, 0, 0]), None);
    assert_eq!(chunker.room(), 5);
    assert_eq!(chunker.feed(&[0, 2, 0, 0, 0]), Some(vec![1, 2]));
    assert_eq!(chunker.room(), 8);
    assert_eq!(chunker.feed(&[]), None);
    assert_eq!(chunker.finish(), None);
}

#[test]
fn a_chunker_fills_the_last_chunk_with_silence() {
    let mut chunker = SampleChunker::new(2);
    assert_eq!(chunker.feed(&[3, 0, 0, 0, 9]), None);
    assert_eq!(chunker.finish(), Some(vec![3, 9]));
    assert_eq!(chunker.finish(), None);
    assert_eq!(chunker.room(), 8);
}
