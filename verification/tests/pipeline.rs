use owr::color::{pack_rgba, ppm_text, rgba_buffer, u32_to_decimal, unpack_rgba};
use owr::sampling::{assemble_pixels, get_grid};

#[test]
fn grid_is_row_major_with_offsets() {
    let grid = get_grid(10, 20, 2, 3);
    assert_eq!(
        grid,
        vec![(10, 20), (11, 20), (10, 21), (11, 21), (10, 22), (11, 22)]
    );
}

#[test]
fn grid_handles_empty_extents() {
    assert_eq!(get_grid(0, 0, 0, 5).len(), 0);
    assert_eq!(get_grid(0, 0, 5, 0).len(), 0);
}

#[test]
fn assemble_accepts_results_in_any_order() {
    let in_order: Vec<(u32, u32, u32)> = vec![
        (0, 0, 10),
        (1, 0, 11),
        (0, 1, 12),
        (1, 1, 13),
    ];
    let mut scrambled = in_order.clone();
    scrambled.reverse();
    scrambled.swap(0, 2);

    let a = assemble_pixels(2, 2, &in_order).unwrap();
    let b = assemble_pixels(2, 2, &scrambled).unwrap();
    assert_eq!(a, vec![10, 11, 12, 13]);
    assert_eq!(a, b);
}

#[test]
fn assemble_rejects_uncovered_pixel() {
    let parts = vec![(0, 0, 1), (1, 0, 2), (0, 1, 3)];
    assert_eq!(assemble_pixels(2, 2, &parts), None);
}

#[test]
fn assemble_rejects_duplicate_pixel() {
    let parts = vec![(0, 0, 1), (1, 0, 2), (0, 1, 3), (0, 1, 4)];
    assert_eq!(assemble_pixels(2, 2, &parts), None);
}

#[test]
fn assemble_rejects_out_of_range_pixel() {
    let parts = vec![(0, 0, 1), (1, 0, 2), (0, 1, 3), (2, 1, 4)];
    assert_eq!(assemble_pixels(2, 2, &parts), None);
}

#[test]
fn assemble_of_empty_image_is_empty() {
    let parts: Vec<(u32, u32, u32)> = vec![];
    assert_eq!(assemble_pixels(0, 0, &parts), Some(vec![]));
}

#[test]
fn packing_matches_byte_significance() {
    assert_eq!(pack_rgba(1, 2, 3, 4), 0x0102_0304);
    assert_eq!(pack_rgba(255, 255, 255, 255), 0xFFFF_FFFF);
    assert_eq!(pack_rgba(0, 0, 0, 0), 0);
}

#[test]
fn unpacking_inverts_packing() {
    assert_eq!(unpack_rgba(0xAABB_CCDD), (0xAA, 0xBB, 0xCC, 0xDD));
    for &(r, g, b, a) in &[(0, 0, 0, 0), (1, 2, 3, 4), (255, 0, 255, 7)] {
        assert_eq!(unpack_rgba(pack_rgba(r, g, b, a)), (r, g, b, a));
    }
}

#[test]
fn buffer_interleaves_channels() {
    let pixels = vec![0x0102_0304, 0xAABB_CCDD];
    assert_eq!(
        rgba_buffer(&pixels),
        vec![0x01, 0x02, 0x03, 0x04, 0xAA, 0xBB, 0xCC, 0xDD]
    );
}

#[test]
fn decimal_rendering_is_exact() {
    assert_eq!(u32_to_decimal(0), "0");
    assert_eq!(u32_to_decimal(7), "7");
    assert_eq!(u32_to_decimal(213), "213");
    assert_eq!(u32_to_decimal(4294967295), "4294967295");
}

#[test]
fn ppm_text_of_one_pixel() {
    let data = vec![255, 0, 10, 255];
    assert_eq!(ppm_text(1, 1, &data), "P3\n1 1\n255\n255 0 10 \n");
}

#[test]
fn ppm_text_of_two_pixels() {
    let data = vec![1, 2, 3, 4, 5, 6, 7, 8];
    assert_eq!(ppm_text(2, 1, &data), "P3\n2 1\n255\n1 2 3 \n5 6 7 \n");
}

#[test]
fn ppm_text_of_partial_group() {
    // a buffer that ends mid-pixel prints values without a closing break
    let data = vec![1, 2];
    assert_eq!(ppm_text(1, 1, &data), "P3\n1 1\n255\n1 2 ");
}

#[test]
fn grid_results_assemble_back_in_place() {
    // tag every grid coordinate with a color derived from it, scramble,
    // and check each color lands at its row-major slot
    let width = 5;
    let height = 4;
    let grid = get_grid(0, 0, width, height);
    let mut parts: Vec<(u32, u32, u32)> = grid
        .iter()
        .map(|&(x, y)| (x, y, pack_rgba(x as u8, y as u8, 0, 255)))
        .collect();
    parts.rotate_left(7);
    parts.reverse();
    let buf = assemble_pixels(width, height, &parts).unwrap();
    for y in 0..height {
        for x in 0..width {
            assert_eq!(
                buf[(y * width + x) as usize],
                pack_rgba(x as u8, y as u8, 0, 255)
            );
        }
    }
}
