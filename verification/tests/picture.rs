use mandelbrot_set::picture::to_image;

fn shade(count: u32, iterations: u32) -> u8 {
    if count >= iterations {
        0
    } else {
        (200 - count) as u8
    }
}

#[test]
fn picture_is_grey_in_the_shade_of_each_count() {
    let buffer = vec![vec![0, 1, 10], vec![5, 10, 2]];
    let picture = to_image(&buffer, 3, 10, &shade);
    assert_eq!(
        picture.into_samples(),
        vec![
            200, 200, 200, 199, 199, 199, 0, 0, 0, //
            195, 195, 195, 0, 0, 0, 198, 198, 198,
        ]
    );
}

#[test]
fn picture_of_a_single_column_runs_downwards() {
    let buffer = vec![vec![1], vec![2], vec![3]];
    let picture = to_image(&buffer, 1, 10, &shade);
    assert_eq!(
        picture.into_samples(),
        vec![199, 199, 199, 198, 198, 198, 197, 197, 197]
    );
}

#[test]
fn picture_of_an_empty_buffer_has_no_samples() {
    let buffer: Vec<Vec<u32>> = Vec::new();
    assert_eq!(to_image(&buffer, 4, 10, &shade).into_samples(), Vec::<u8>::new());
    let buffer: Vec<Vec<u32>> = vec![Vec::new(); 3];
    assert_eq!(to_image(&buffer, 0, 10, &shade).into_samples(), Vec::<u8>::new());
}

#[test]
fn picture_passes_the_cap_to_the_shade() {
    let buffer = vec![vec![3, 4]];
    let picture = to_image(&buffer, 2, 4, &shade);
    assert_eq!(picture.into_samples(), vec![197, 197, 197, 0, 0, 0]);
}

#[test]
fn picture_of_an_empty_buffer_of_any_width_that_fits() {
    let buffer: Vec<Vec<u32>> = Vec::new();
    let width = (usize::MAX / 3).min(u32::MAX as usize) as u32;
    assert_eq!(to_image(&buffer, width, 10, &shade).into_samples(), Vec::<u8>::new());
}
