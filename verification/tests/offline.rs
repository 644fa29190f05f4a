use dsp_core::block_spans;

#[test]
fn blocks_partition_the_render() {
    assert_eq!(block_spans(10, 4), vec![(0, 4), (4, 4), (8, 2)]);
    assert_eq!(block_spans(8, 4), vec![(0, 4), (4, 4)]);
    assert_eq!(block_spans(3, 0), vec![(0, 1), (1, 1), (2, 1)]);
    assert!(block_spans(0, 64).is_empty());
    assert_eq!(block_spans(5, 512), vec![(0, 5)]);
}

#[test]
fn block_sizes_cover_every_sample_once() {
    for bs in [1usize, 64, 127, 128, 512] {
        let spans = block_spans(20_000, bs);
        let mut next = 0;
        for (start, len) in spans {
            assert_eq!(start, next);
            assert!(len >= 1 && len <= bs);
            next = start + len;
        }
        assert_eq!(next, 20_000);
    }
}
