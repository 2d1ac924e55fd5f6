use makepad_platform::chunks::{
    band_ranges, compute_index_chunks, compute_row_chunks, configured_bands,
    configured_parallel_min_tris, configured_render_threads, headless_ensure_render_pool,
    headless_render_thread_count, use_parallel, BandRange, RenderPool, RowChunk,
};

fn pairs(chunks: &[RowChunk]) -> Vec<(usize, usize)> {
    chunks.iter().map(|c| (c.start, c.end)).collect()
}

#[test]
fn the_threads_are_configured_within_reason() {
    assert_eq!(configured_render_threads(16, None), 4);
    assert_eq!(configured_render_threads(3, None), 3);
    assert_eq!(configured_render_threads(0, None), 1);
    assert_eq!(configured_render_threads(2, Some("12")), 12);
    assert_eq!(configured_render_threads(2, Some("0")), 2);
    assert_eq!(configured_render_threads(2, Some("many")), 2);
    assert_eq!(headless_render_thread_count(Some(3), 64, None), 3);
    assert_eq!(headless_render_thread_count(None, 64, None), 4);
    assert_eq!(headless_render_thread_count(None, 64, Some("7")), 7);
}

#[test]
fn thresholds_and_bands_are_read_from_their_settings() {
    assert_eq!(configured_parallel_min_tris(64, None), 64);
    assert_eq!(configured_parallel_min_tris(64, Some("0")), 0);
    assert_eq!(configured_parallel_min_tris(64, Some("x")), 64);
    assert_eq!(configured_bands(None), None);
    assert_eq!(configured_bands(Some("1")), None);
    assert_eq!(configured_bands(Some("0")), None);
    assert_eq!(configured_bands(Some("4")), Some(4));
    assert_eq!(configured_bands(Some("+4")), Some(4));
    assert_eq!(configured_bands(Some(" 4")), None);
}

#[test]
fn a_pool_is_made_once_for_a_size() {
    let mut pool = RenderPool { threads: None };
    assert!(!headless_ensure_render_pool(&mut pool, 1));
    assert_eq!(pool.threads, None);
    assert!(headless_ensure_render_pool(&mut pool, 4));
    assert!(!headless_ensure_render_pool(&mut pool, 4));
    assert!(headless_ensure_render_pool(&mut pool, 2));
    assert!(!headless_ensure_render_pool(&mut pool, 0));
    assert_eq!(pool.threads, Some(2));
}

#[test]
fn only_large_draw_calls_are_shared_out() {
    assert!(use_parallel(2, 10, 10, 100, true));
    assert!(!use_parallel(2, 10, 10, 101, true));
    assert!(!use_parallel(1, 10, 10, 100, true));
    assert!(!use_parallel(2, 10, 10, 100, false));
    assert!(use_parallel(2, usize::MAX, usize::MAX, usize::MAX, true));
}

#[test]
fn chunks_cover_everything_once_and_evenly() {
    assert_eq!(pairs(&compute_index_chunks(0, 4, 1)), vec![]);
    assert_eq!(pairs(&compute_index_chunks(10, 4, 1)), vec![(0, 3), (3, 6), (6, 8), (8, 10)]);
    assert_eq!(pairs(&compute_index_chunks(3, 8, 1)), vec![(0, 1), (1, 2), (2, 3)]);
    assert_eq!(pairs(&compute_index_chunks(10, 4, 5)), vec![(0, 5), (5, 10)]);
    assert_eq!(pairs(&compute_index_chunks(10, 0, 0)), vec![(0, 10)]);
    assert_eq!(pairs(&compute_index_chunks(4, 4, 9)), vec![(0, 4)]);
}

#[test]
fn rows_are_shared_out_in_chunks_of_at_least_32() {
    assert_eq!(pairs(&compute_row_chunks(720, 4)), vec![(0, 180), (180, 360), (360, 540), (540, 720)]);
    assert_eq!(pairs(&compute_row_chunks(63, 4)), vec![(0, 63)]);
    assert_eq!(pairs(&compute_row_chunks(65, 4)), vec![(0, 33), (33, 65)]);
}

#[test]
fn bands_lie_end_to_end() {
    assert_eq!(
        band_ranges(10, 5, 2),
        vec![
            BandRange { row_start: 0, row_end: 3, pixel_start: 0, pixel_end: 30 },
            BandRange { row_start: 3, row_end: 5, pixel_start: 30, pixel_end: 50 },
        ]
    );
    assert_eq!(band_ranges(10, 0, 2), vec![]);
}
