use mandelbrot_set::draw;
use mandelbrot_set::render::progress_bar;

#[test]
fn draw_test() {
    let vector = vec![vec![0, 0, 10, 10, 10]; 2];
    let out = draw(&vector, 10);
    println!("{}", out);
    assert_eq!(out, "  ###\n  ###\n")
}

#[test]
fn draw_of_no_rows_is_empty() {
    let vector: Vec<Vec<u32>> = Vec::new();
    assert_eq!(draw(&vector, 10), "");
}

#[test]
fn draw_keeps_empty_and_ragged_rows() {
    let vector = vec![vec![], vec![3], vec![9, 10, 11]];
    assert_eq!(draw(&vector, 10), "\n \n ##\n");
}

#[test]
fn draw_with_zero_iterations_marks_every_cell() {
    let vector = vec![vec![0, 1, 2]];
    assert_eq!(draw(&vector, 0), "###\n");
}

#[test]
fn progress_bar_empty_half_and_full() {
    assert_eq!(progress_bar(0), format!("[{}]", "-".repeat(50)));
    assert_eq!(progress_bar(25), format!("[{}{}]", "#".repeat(25), "-".repeat(25)));
    assert_eq!(progress_bar(50), format!("[{}]", "#".repeat(50)));
}
