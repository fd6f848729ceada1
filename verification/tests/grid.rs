use mandelbrot_set::grid::{
    compute_grid, launch_blocks, rows_from_flat, run_block, run_thread, thread_offset,
};
use mandelbrot_set::schedule::compute_serial;
use mandelbrot_set::strategy::{compute, Strategy, DEFAULT_WORKERS};

fn sample(x: u32, y: u32) -> u32 {
    x * 7 + y * 1000 + 1
}

#[test]
fn thread_inside_the_grid_writes_at_its_place() {
    assert_eq!(thread_offset(0, 0, 5, 4), Some(0));
    assert_eq!(thread_offset(2, 1, 5, 4), Some(7));
    assert_eq!(thread_offset(4, 3, 5, 4), Some(19));
}

#[test]
fn thread_outside_the_grid_writes_nothing() {
    assert_eq!(thread_offset(5, 0, 5, 4), None);
    assert_eq!(thread_offset(0, 4, 5, 4), None);
    assert_eq!(thread_offset(5, 4, 5, 4), None);
    assert_eq!(thread_offset(0, 0, 0, 4), None);
    assert_eq!(thread_offset(0, 0, 5, 0), None);
    assert_eq!(thread_offset(u64::MAX, u64::MAX, 5, 4), None);
}

#[test]
fn thread_offset_in_the_largest_grid() {
    let last = (u32::MAX - 1) as u64;
    assert_eq!(
        thread_offset(last, last, u32::MAX, u32::MAX),
        Some(last + last * (u32::MAX as u64))
    );
}

#[test]
fn run_thread_writes_one_cell() {
    let mut out = vec![0u32; 6];
    run_thread(1, 1, 3, 2, &sample, &mut out);
    assert_eq!(out, vec![0, 0, 0, 0, 1008, 0]);
    run_thread(3, 0, 3, 2, &sample, &mut out);
    run_thread(0, 2, 3, 2, &sample, &mut out);
    assert_eq!(out, vec![0, 0, 0, 0, 1008, 0]);
}

#[test]
fn launch_blocks_rounds_up() {
    assert_eq!(launch_blocks(0, 4), 0);
    assert_eq!(launch_blocks(1, 4), 1);
    assert_eq!(launch_blocks(4, 4), 1);
    assert_eq!(launch_blocks(5, 4), 2);
    assert_eq!(launch_blocks(100, 1), 100);
    assert_eq!(launch_blocks(u32::MAX, u32::MAX), 1);
    assert_eq!(launch_blocks(u32::MAX, 1), u32::MAX);
    assert_eq!(launch_blocks(u32::MAX, 2), 2147483648);
}

#[test]
fn run_block_fills_its_pixels_and_no_others() {
    let mut out = vec![0u32; 15];
    run_block(1, 0, 2, 2, 5, 3, &sample, &mut out);
    assert_eq!(
        out,
        vec![0, 0, 15, 22, 0, 0, 0, 1015, 1022, 0, 0, 0, 0, 0, 0]
    );
    run_block(2, 1, 2, 2, 5, 3, &sample, &mut out);
    assert_eq!(
        out,
        vec![0, 0, 15, 22, 0, 0, 0, 1015, 1022, 0, 0, 0, 0, 0, 2029]
    );
    run_block(3, 3, 2, 2, 5, 3, &sample, &mut out);
    assert_eq!(
        out,
        vec![0, 0, 15, 22, 0, 0, 0, 1015, 1022, 0, 0, 0, 0, 0, 2029]
    );
}

#[test]
fn grid_fills_the_flat_buffer_row_after_row() {
    let flat = compute_grid(3, 2, 2, 2, &sample);
    assert_eq!(flat, vec![1, 8, 15, 1001, 1008, 1015]);
}

#[test]
fn grid_with_any_block_size_agrees_with_serial() {
    let (width, height) = (7u32, 5u32);
    let serial = compute_serial(width, height, &sample);
    for block_width in 1..10u32 {
        for block_height in 1..8u32 {
            let flat = compute_grid(width, height, block_width, block_height, &sample);
            assert_eq!(flat.len(), 35);
            for y in 0..height {
                for x in 0..width {
                    assert_eq!(
                        flat[(x + y * width) as usize],
                        serial[y as usize][x as usize]
                    );
                }
            }
            assert_eq!(rows_from_flat(&flat, width, height), serial);
        }
    }
}

#[test]
fn grid_evaluates_each_pixel_once() {
    let calls = std::cell::RefCell::new(Vec::new());
    let record = |x: u32, y: u32| {
        calls.borrow_mut().push((x, y));
        0
    };
    compute_grid(3, 2, 2, 2, &record);
    let mut calls = calls.into_inner();
    calls.sort();
    assert_eq!(calls, vec![(0, 0), (0, 1), (1, 0), (1, 1), (2, 0), (2, 1)]);
}

#[test]
fn grid_on_an_empty_grid() {
    assert_eq!(compute_grid(0, 3, 4, 4, &sample), Vec::<u32>::new());
    assert_eq!(compute_grid(3, 0, 4, 4, &sample), Vec::<u32>::new());
}

#[test]
fn rows_from_flat_cuts_at_the_width() {
    assert_eq!(
        rows_from_flat(&vec![1, 2, 3, 4, 5, 6], 3, 2),
        vec![vec![1, 2, 3], vec![4, 5, 6]]
    );
    assert_eq!(
        rows_from_flat(&vec![1, 2, 3, 4, 5, 6], 2, 3),
        vec![vec![1, 2], vec![3, 4], vec![5, 6]]
    );
    assert_eq!(rows_from_flat(&Vec::new(), 0, 2), vec![Vec::<u32>::new(); 2]);
}

#[test]
fn strategies_agree_cell_by_cell() {
    let (width, height) = (9u32, 20u32);
    let serial = compute(Strategy::Serial, width, height, &sample);
    assert_eq!(serial, compute_serial(width, height, &sample));
    for workers in 1..=20u32 {
        let strategy = Strategy::Partitioned { workers };
        assert!(strategy.can_run(width, height));
        assert_eq!(compute(strategy, width, height, &sample), serial);
    }
    let strategy = Strategy::Grid { block_width: 4, block_height: 8 };
    assert!(strategy.can_run(width, height));
    assert_eq!(compute(strategy, width, height, &sample), serial);
}

#[test]
fn strategies_that_cannot_run_are_told_apart() {
    assert!(Strategy::Serial.can_run(0, 0));
    assert!(Strategy::Partitioned { workers: DEFAULT_WORKERS }.can_run(3, 3));
    assert!(!Strategy::Partitioned { workers: 0 }.can_run(3, 3));
    assert!(!Strategy::Grid { block_width: 0, block_height: 1 }.can_run(3, 3));
    assert!(!Strategy::Grid { block_width: 1, block_height: 0 }.can_run(3, 3));
    assert!(Strategy::Grid { block_width: 1, block_height: 1 }.can_run(3, 3));
    assert_eq!(DEFAULT_WORKERS, 10);
}
