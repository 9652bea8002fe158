use image_merger::image::checked_buffer_len;
use image_merger::Image;

#[test]
fn new_image_is_zeroed() {
    let image = Image::<4>::new(100, 100);
    assert_eq!(image.capacity(), 100 * 100 * 4);
    assert_eq!(image.dimensions(), (100, 100));
    assert!(image.get_underlying().iter().all(|&c| c == 0));
    assert_eq!(image.into_buffer(), vec![0u8; 40000]);
}

#[test]
fn new_from_pixel_repeats_the_pixel() {
    let image = Image::<3>::new_from_pixel(2, 2, [1, 2, 3]);
    assert_eq!(image.get_underlying(), &vec![1, 2, 3, 1, 2, 3, 1, 2, 3, 1, 2, 3]);
    assert_eq!(image.get_pixel(1, 1), [1, 2, 3]);
    assert_eq!(Image::<3>::new_from_pixel(0, 5, [1, 2, 3]).capacity(), 0);
}

#[test]
fn raw_image_needs_the_exact_length() {
    assert!(Image::<3>::new_from_raw(4, 5, vec![0; 59]).is_none());
    assert!(Image::<3>::new_from_raw(4, 5, vec![0; 61]).is_none());
    assert!(Image::<3>::new_from_raw(4, 5, Vec::new()).is_none());
    assert!(Image::<3>::new_from_raw(u32::MAX, u32::MAX, vec![0; 16]).is_none());
    let image = Image::<3>::new_from_raw(4, 5, (0..60).collect()).unwrap();
    assert_eq!(image.width(), 4);
    assert_eq!(image.height(), 5);
    assert_eq!(image.capacity(), 60);
    assert_eq!(image.get_pixel(0, 0), [0, 1, 2]);
    assert_eq!(image.get_pixel(3, 0), [9, 10, 11]);
    assert_eq!(image.get_pixel(1, 2), [27, 28, 29]);
    assert_eq!(image.get_pixel(3, 4), [57, 58, 59]);
    assert!(Image::<3>::new_from_raw(0, 5, Vec::new()).is_some());
}

#[test]
fn put_pixel_overwrites_one_pixel() {
    let mut image = Image::<2>::new(3, 2);
    image.put_pixel(2, 1, [4, 5]);
    image.put_pixel(0, 0, [6, 7]);
    assert_eq!(image.get_underlying(), &vec![6, 7, 0, 0, 0, 0, 0, 0, 0, 0, 4, 5]);
}

#[test]
fn buffer_length_is_checked() {
    assert_eq!(checked_buffer_len(100, 100, 4), Some(40000));
    assert_eq!(checked_buffer_len(0, 100, 4), Some(0));
    assert_eq!(checked_buffer_len(7, 3, 0), Some(0));
    assert_eq!(checked_buffer_len(u32::MAX, u32::MAX, usize::MAX), None);
}
