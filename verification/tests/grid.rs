use pixel_buffer::image::Image;

fn counting(width: usize, height: usize) -> Image<u32> {
    let mut image = Image::<u32>::new(width, height);
    for (i, pixel) in image.as_slice_mut().iter_mut().enumerate() {
        *pixel = i as u32;
    }
    image
}

#[test]
fn new_holds_width_times_height_pixels() {
    for &(width, height) in &[(1usize, 1usize), (3, 2), (2, 3), (7, 5), (1, 9), (16, 16)] {
        let image = Image::<u8>::new(width, height);
        assert_eq!(image.width(), width);
        assert_eq!(image.height(), height);
        assert_eq!(image.as_slice().len(), width * height);
    }
}

#[test]
fn new_accepts_empty_shapes() {
    for &(width, height) in &[(0usize, 0usize), (0, 4), (4, 0)] {
        let mut image = Image::<u16>::new(width, height);
        assert_eq!(image.width(), width);
        assert_eq!(image.height(), height);
        assert!(image.as_slice().is_empty());
        assert!(image.as_slice_mut().is_empty());
    }
}

#[test]
fn empty_image_has_no_coordinate_in_range() {
    for &(width, height) in &[(0usize, 0usize), (0, 4), (4, 0)] {
        let image = Image::<u8>::new(width, height);
        for y in 0..6 {
            for x in 0..6 {
                assert!(!(y < image.height() && x < image.width()));
            }
        }
    }
}

#[test]
fn new_fills_with_default_integers() {
    let bytes = Image::<u8>::new(4, 3);
    assert!(bytes.as_slice().iter().all(|&p| p == 0));
    let signed = Image::<i64>::new(5, 2);
    assert!(signed.as_slice().iter().all(|&p| p == 0));
    let flags = Image::<bool>::new(2, 2);
    assert_eq!(flags.as_slice(), &[false, false, false, false]);
}

#[test]
fn new_fills_with_default_of_a_compound_pixel() {
    let image = Image::<(u8, i16, bool)>::new(3, 3);
    assert_eq!(image.as_slice().len(), 9);
    for y in 0..3 {
        for x in 0..3 {
            assert_eq!(image[(y, x)], (0, 0, false));
        }
    }
}

#[test]
fn row_major_scenario_two_by_three() {
    let mut image = Image::<u32>::new(3, 2);
    for (i, pixel) in image.as_slice_mut().iter_mut().enumerate() {
        *pixel = i as u32;
    }
    assert_eq!(image.height(), 2);
    assert_eq!(image.width(), 3);
    assert_eq!(image[(1, 2)], 5);
    assert_eq!(image.as_slice(), &[0, 1, 2, 3, 4, 5]);
}

#[test]
fn index_reads_row_then_column() {
    let image = counting(3, 2);
    assert_eq!(image[(0, 0)], 0);
    assert_eq!(image[(0, 1)], 1);
    assert_eq!(image[(0, 2)], 2);
    assert_eq!(image[(1, 0)], 3);
    assert_eq!(image[(1, 1)], 4);
    assert_eq!(image[(1, 2)], 5);
}

#[test]
fn index_matches_flat_offset_everywhere() {
    let image = counting(7, 5);
    for y in 0..5 {
        for x in 0..7 {
            assert_eq!(image[(y, x)] as usize, y * 7 + x);
            assert_eq!(image[(y, x)], image.as_slice()[y * 7 + x]);
        }
    }
}

#[test]
fn written_pixel_is_read_back() {
    let mut image = Image::<u32>::new(5, 4);
    for y in 0..4 {
        for x in 0..5 {
            let value = (100 * y + x + 1) as u32;
            *image.index_mut((y, x)) = value;
            assert_eq!(image[(y, x)], value);
            assert_eq!(image.as_slice()[y * 5 + x], value);
        }
    }
}

#[test]
fn write_leaves_other_pixels_alone() {
    let mut image = counting(4, 3);
    *image.index_mut((1, 2)) = 999;
    for y in 0..3 {
        for x in 0..4 {
            let expected = if (y, x) == (1, 2) { 999 } else { (y * 4 + x) as u32 };
            assert_eq!(image[(y, x)], expected);
        }
    }
    assert_eq!(image.width(), 4);
    assert_eq!(image.height(), 3);
    assert_eq!(image.as_slice().len(), 12);
}

#[test]
fn index_mut_shows_the_current_pixel() {
    let mut image = counting(3, 3);
    assert_eq!(*image.index_mut((2, 1)), 7);
    *image.index_mut((2, 1)) += 10;
    assert_eq!(image[(2, 1)], 17);
}

#[test]
fn corners_of_a_wide_and_a_tall_image() {
    let wide = counting(6, 2);
    assert_eq!(wide[(0, 5)], 5);
    assert_eq!(wide[(1, 0)], 6);
    assert_eq!(wide[(1, 5)], 11);
    let tall = counting(2, 6);
    assert_eq!(tall[(0, 1)], 1);
    assert_eq!(tall[(5, 0)], 10);
    assert_eq!(tall[(5, 1)], 11);
}

#[test]
fn single_pixel_image() {
    let mut image = Image::<i8>::new(1, 1);
    assert_eq!(image[(0, 0)], 0);
    *image.index_mut((0, 0)) = -3;
    assert_eq!(image.as_slice(), &[-3]);
}

#[test]
fn slice_edits_show_through_index() {
    let mut image = Image::<u8>::new(3, 2);
    {
        let slice = image.as_slice_mut();
        assert_eq!(slice.len(), 6);
        slice[4] = 40;
        slice[0] = 9;
    }
    assert_eq!(image[(1, 1)], 40);
    assert_eq!(image[(0, 0)], 9);
    assert_eq!(image[(1, 2)], 0);
    assert_eq!(image.width(), 3);
    assert_eq!(image.height(), 2);
}

#[test]
fn index_edits_show_through_slice() {
    let mut image = Image::<u8>::new(2, 2);
    *image.index_mut((0, 1)) = 1;
    *image.index_mut((1, 0)) = 2;
    *image.index_mut((1, 1)) = 3;
    assert_eq!(image.as_slice(), &[0, 1, 2, 3]);
    assert_eq!(image.as_slice_mut(), &mut [0, 1, 2, 3]);
}

#[test]
fn clone_is_equal_and_independent() {
    let mut image = counting(3, 2);
    let copy = image.clone();
    *image.index_mut((0, 0)) = 77;
    assert_eq!(copy.width(), 3);
    assert_eq!(copy.height(), 2);
    assert_eq!(copy.as_slice(), &[0, 1, 2, 3, 4, 5]);
    assert_eq!(image.as_slice(), &[77, 1, 2, 3, 4, 5]);
}
