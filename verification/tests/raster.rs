use tcolr::raster::RgbBuffer;

#[test]
fn buffer_reads_pixels_row_by_row() {
    let image = RgbBuffer::from_raw(2, 2, vec![1, 2, 3, 4, 5, 6, 7, 8, 9, 10, 11, 12]).unwrap();
    assert_eq!(image.dimensions(), (2, 2));
    assert_eq!(image.get_pixel(0, 0), (1, 2, 3));
    assert_eq!(image.get_pixel(1, 0), (4, 5, 6));
    assert_eq!(image.get_pixel(0, 1), (7, 8, 9));
    assert_eq!(image.get_pixel(1, 1), (10, 11, 12));
}

#[test]
fn buffer_needs_three_bytes_for_each_pixel() {
    assert!(RgbBuffer::from_raw(2, 2, vec![0; 11]).is_none());
    assert!(RgbBuffer::from_raw(2, 2, vec![0; 12]).is_some());
    assert!(RgbBuffer::from_raw(2, 2, vec![0; 13]).is_some());
    assert!(RgbBuffer::from_raw(0, 5, Vec::new()).is_some());
    assert!(RgbBuffer::from_raw(u32::MAX, u32::MAX, vec![0; 12]).is_none());
}

#[test]
fn buffer_keeps_the_dimensions_it_was_made_with() {
    let image = RgbBuffer::from_raw(3, 1, vec![0; 9]).unwrap();
    assert_eq!(image.dimensions(), (3, 1));
    let image = RgbBuffer::from_raw(0, 4, Vec::new()).unwrap();
    assert_eq!(image.dimensions(), (0, 4));
}

#[test]
fn pixel_outside_the_image_is_none() {
    let image = RgbBuffer::from_raw(2, 1, vec![1, 2, 3, 4, 5, 6]).unwrap();
    assert_eq!(image.pixel(1, 0), Some((4, 5, 6)));
    assert_eq!(image.pixel(2, 0), None);
    assert_eq!(image.pixel(0, 1), None);
}
