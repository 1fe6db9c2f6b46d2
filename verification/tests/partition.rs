use rtiow::partition::worker_rows;

#[test]
fn three_workers_share_ten_rows() {
    assert_eq!(worker_rows(10, 3, 0), vec![9, 6, 3, 0]);
    assert_eq!(worker_rows(10, 3, 1), vec![8, 5, 2]);
    assert_eq!(worker_rows(10, 3, 2), vec![7, 4, 1]);
}

#[test]
fn one_worker_renders_every_row_from_the_top() {
    assert_eq!(worker_rows(5, 1, 0), vec![4, 3, 2, 1, 0]);
}

#[test]
fn as_many_workers_as_rows_get_one_row_each() {
    for worker in 0..4u32 {
        assert_eq!(worker_rows(4, 4, worker), vec![3 - worker]);
    }
}

#[test]
fn a_worker_beyond_the_image_gets_no_row() {
    assert_eq!(worker_rows(2, 4, 2), Vec::<u32>::new());
    assert_eq!(worker_rows(2, 4, 3), Vec::<u32>::new());
    assert_eq!(worker_rows(2, 4, 1), vec![0]);
}

#[test]
fn an_image_without_rows_gives_no_rows() {
    assert_eq!(worker_rows(0, 1, 0), Vec::<u32>::new());
    assert_eq!(worker_rows(0, 3, 2), Vec::<u32>::new());
}

#[test]
fn the_last_row_of_a_stripe_is_below_the_stride() {
    let rows = worker_rows(800, 7, 3);
    assert_eq!(rows[0], 796);
    assert_eq!(rows.len(), 114);
    assert_eq!(*rows.last().unwrap(), 5);
    for pair in rows.windows(2) {
        assert_eq!(pair[0] - pair[1], 7);
    }
}

#[test]
fn stripes_cover_every_row_once() {
    for height in 1..=24u32 {
        for workers in 1..=height {
            let mut seen = vec![0u32; height as usize];
            for worker in 0..workers {
                for y in worker_rows(height, workers, worker) {
                    assert!(y < height);
                    seen[y as usize] += 1;
                }
            }
            assert!(seen.iter().all(|&n| n == 1), "height {}, workers {}", height, workers);
        }
    }
}

#[test]
fn stripes_cover_every_row_once_with_idle_workers() {
    let height = 3u32;
    let workers = 8u32;
    let mut seen = vec![0u32; height as usize];
    for worker in 0..workers {
        for y in worker_rows(height, workers, worker) {
            seen[y as usize] += 1;
        }
    }
    assert_eq!(seen, vec![1, 1, 1]);
}

#[test]
fn a_large_image_does_not_overflow() {
    let rows = worker_rows(u32::MAX, u32::MAX, 0);
    assert_eq!(rows, vec![u32::MAX - 1]);
    let rows = worker_rows(u32::MAX, 0x4000_0000, 0x3FFF_FFFF);
    assert_eq!(rows, vec![0xC000_0000 - 1, 0x8000_0000 - 1, 0x4000_0000 - 1]);
}

#[test]
fn a_number_that_is_no_workers_gets_no_row() {
    assert_eq!(worker_rows(10, 3, 3), Vec::<u32>::new());
    assert_eq!(worker_rows(10, 3, 7), Vec::<u32>::new());
    assert_eq!(worker_rows(10, 1, u32::MAX), Vec::<u32>::new());
}

#[test]
fn the_stripes_hold_as_many_rows_as_the_image() {
    for height in 0..=40u32 {
        for workers in 1..=45u32 {
            let rows: usize = (0..workers).map(|w| worker_rows(height, workers, w).len()).sum();
            assert_eq!(rows as u32, height);
        }
    }
}
