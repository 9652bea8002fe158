use image_merger::paste;
use image_merger::Image;
use image_merger::ImageCell;
use image_merger::Point;

#[test]
fn checked_handout_is_issued_once_per_coordinate() {
    let mut cell = ImageCell::new(Image::<3>::new(4, 3));
    assert!(cell.request_handout(1, 2).is_some());
    assert!(cell.request_handout(1, 2).is_none());
    assert!(cell.request_handout(2, 1).is_some());
    assert!(cell.request_handout(2, 1).is_none());
    assert!(cell.request_handout(0, 0).is_some());
}

#[test]
fn checked_handout_is_refused_outside_the_canvas() {
    let mut cell = ImageCell::new(Image::<3>::new(4, 3));
    assert!(cell.request_handout(4, 0).is_none());
    assert!(cell.request_handout(0, 3).is_none());
    assert!(cell.request_handout(u32::MAX, u32::MAX).is_none());
    assert!(cell.request_handout(3, 2).is_some());
}

#[test]
fn handout_writes_its_pixel_and_no_other() {
    let mut cell = ImageCell::new(Image::<3>::new(4, 3));
    cell.request_handout(1, 2).unwrap().put_pixel([10, 20, 30]);
    cell.request_handout_unchecked(3, 0).put_pixel([1, 2, 3]);
    cell.request_handout_unchecked(3, 0).put_pixel([4, 5, 6]);

    let mut expected = vec![0u8; 4 * 3 * 3];
    expected[(2 * 4 + 1) * 3..(2 * 4 + 1) * 3 + 3].copy_from_slice(&[10, 20, 30]);
    expected[3 * 3..3 * 3 + 3].copy_from_slice(&[4, 5, 6]);
    assert_eq!(cell.get_image().get_underlying(), &expected);
    assert_eq!(cell.get_image().get_pixel(1, 2), [10, 20, 30]);
    assert_eq!(cell.into_inner().into_buffer(), expected);
}

#[test]
fn unchecked_handout_leaves_the_coordinate_free() {
    let mut cell = ImageCell::new(Image::<1>::new(2, 2));
    cell.request_handout_unchecked(1, 1).put_pixel([9]);
    assert!(cell.request_handout(1, 1).is_some());
    assert!(cell.request_handout(1, 1).is_none());
}

#[test]
fn paste_copies_the_top_image_and_keeps_the_rest() {
    let mut bottom = ImageCell::new(Image::<2>::new_from_pixel(5, 4, [7, 8]));
    let mut top = Image::<2>::new(2, 3);
    for y in 0..3 {
        for x in 0..2 {
            top.put_pixel(x, y, [(10 * y + x) as u8 + 1, 100]);
        }
    }
    paste(&mut bottom, &top, Point { x: 3, y: 1 });

    for y in 0..4u32 {
        for x in 0..5u32 {
            let expected = if x >= 3 && y >= 1 {
                [(10 * (y - 1) + (x - 3)) as u8 + 1, 100]
            } else {
                [7, 8]
            };
            assert_eq!(bottom.get_image().get_pixel(x, y), expected);
        }
    }
}

#[test]
fn paste_keeps_the_issued_coordinates() {
    let mut bottom = ImageCell::new(Image::<1>::new(2, 2));
    assert!(bottom.request_handout(0, 0).is_some());
    paste(&mut bottom, &Image::<1>::new_from_pixel(2, 2, [5]), Point { x: 0, y: 0 });
    assert!(bottom.request_handout(0, 0).is_none());
    assert!(bottom.request_handout(1, 0).is_some());
    assert_eq!(bottom.into_inner().into_buffer(), vec![5u8; 4]);
}

#[test]
fn paste_of_an_empty_image_changes_nothing() {
    let mut bottom = ImageCell::new(Image::<2>::new_from_pixel(3, 3, [1, 2]));
    paste(&mut bottom, &Image::<2>::new(0, 0), Point { x: 3, y: 3 });
    paste(&mut bottom, &Image::<2>::new(0, 2), Point { x: 1, y: 1 });
    assert_eq!(
        bottom.get_image(),
        &Image::<2>::new_from_pixel(3, 3, [1, 2])
    );
}
