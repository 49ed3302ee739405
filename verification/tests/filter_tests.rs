use raytrace::filter::{filter_window, WindowTap};

fn taps(v: &[(usize, u32)]) -> Vec<WindowTap> {
    v.iter().map(|&(index, dist_sq)| WindowTap { index, dist_sq }).collect()
}

#[test]
fn full_window_in_the_middle() {
    let w = filter_window(3, 3, 1, 1, 1);
    assert_eq!(
        w,
        taps(&[(0, 2), (1, 1), (2, 2), (3, 1), (4, 0), (5, 1), (6, 2), (7, 1), (8, 2)])
    );
}

#[test]
fn window_clipped_at_the_corner() {
    assert_eq!(filter_window(3, 3, 0, 0, 1), taps(&[(0, 0), (1, 1), (3, 1), (4, 2)]));
    assert_eq!(filter_window(3, 3, 2, 2, 1), taps(&[(4, 2), (5, 1), (7, 1), (8, 0)]));
}

#[test]
fn window_on_a_wide_frame() {
    // 4 x 2 frame, pixel (3, 0): neighbours in column 2 and 3, rows 0 and 1.
    assert_eq!(filter_window(4, 2, 3, 0, 1), taps(&[(2, 1), (3, 0), (6, 2), (7, 1)]));
}

#[test]
fn radius_zero_is_the_pixel_itself() {
    assert_eq!(filter_window(5, 4, 2, 3, 0), taps(&[(17, 0)]));
}

#[test]
fn negative_radius_reads_nothing() {
    assert!(filter_window(3, 3, 1, 1, -1).is_empty());
    assert!(filter_window(3, 3, 1, 1, -5).is_empty());
}

#[test]
fn large_radius_reads_whole_frame() {
    let w = filter_window(2, 2, 0, 1, 4);
    assert_eq!(w, taps(&[(0, 1), (1, 2), (2, 0), (3, 1)]));
}

#[test]
fn taps_stay_in_frame_and_cover_the_centre() {
    for &(width, height, radius) in &[(1usize, 1usize, 3i32), (5, 3, 2), (6, 6, 1)] {
        for y in 0..height {
            for x in 0..width {
                let w = filter_window(width, height, x, y, radius);
                assert!(w.iter().all(|t| t.index < width * height));
                assert!(w.contains(&WindowTap { index: y * width + x, dist_sq: 0 }));
                for t in &w {
                    let (col, row) = ((t.index % width) as i64, (t.index / width) as i64);
                    let (dx, dy) = (col - x as i64, row - y as i64);
                    assert!(dx.abs() <= radius as i64 && dy.abs() <= radius as i64);
                    assert_eq!(t.dist_sq as i64, dx * dx + dy * dy);
                }
            }
        }
    }
}
