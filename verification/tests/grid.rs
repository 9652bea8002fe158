use image_merger::GridLayout;
use image_merger::Image;
use image_merger::KnownSizeMerger;
use image_merger::Merger;
use image_merger::Padding;
use image_merger::Point;
use image_merger::PushError;

/// A 3 by 2 image whose channels tell the slot, the pixel and the channel.
fn tile(slot: u8) -> Image<2> {
    let mut image = Image::<2>::new(3, 2);
    for y in 0..2 {
        for x in 0..3 {
            image.put_pixel(x, y, [slot * 16 + (y * 3 + x) as u8 + 1, 200 + slot]);
        }
    }
    image
}

/// The canvas of a grid of tiles, built pixel by pixel without the library's
/// paste: slot `k` holds `tile(first + k)` where `k < placed`.
fn expected_canvas(columns: u32, rows: u32, pad: (u32, u32), placed: u32) -> Vec<u8> {
    let width = columns * 3 + (columns - 1) * pad.0;
    let height = rows * 2 + (rows - 1) * pad.1;
    let mut data = vec![0u8; (width * height * 2) as usize];
    for slot in 0..placed {
        let ox = (slot % columns) * (3 + pad.0);
        let oy = (slot / columns) * (2 + pad.1);
        for y in 0..2 {
            for x in 0..3 {
                let at = (((oy + y) * width + ox + x) * 2) as usize;
                data[at] = slot as u8 * 16 + (y * 3 + x) as u8 + 1;
                data[at + 1] = 200 + slot as u8;
            }
        }
    }
    data
}

#[test]
fn layout_rounds_rows_up() {
    let layout = GridLayout::new((3, 2), 3, 7, None).unwrap();
    assert_eq!(layout.rows, 3);
    assert_eq!(layout.columns, 3);
    assert_eq!(layout.capacity(), 9);
    let exact = GridLayout::new((3, 2), 3, 6, None).unwrap();
    assert_eq!(exact.rows, 2);
    let single = GridLayout::new((3, 2), 3, 1, None).unwrap();
    assert_eq!(single.rows, 1);
}

#[test]
fn layout_canvas_size_counts_padding_between_cells_only() {
    let layout = GridLayout::new((100, 100), 10, 100, Some(Padding { x: 10, y: 10 })).unwrap();
    assert_eq!(layout.canvas_width(), 1090);
    assert_eq!(layout.canvas_height(), 1090);
    let one = GridLayout::new((100, 50), 1, 1, Some(Padding { x: 10, y: 10 })).unwrap();
    assert_eq!(one.canvas_width(), 100);
    assert_eq!(one.canvas_height(), 50);
}

#[test]
fn layout_origin_scales_column_and_row() {
    let layout = GridLayout::new((100, 80), 10, 100, Some(Padding { x: 10, y: 5 })).unwrap();
    assert_eq!(layout.origin(0), Point { x: 0, y: 0 });
    assert_eq!(layout.origin(13), Point { x: 330, y: 85 });
    assert_eq!(layout.origin(99), Point { x: 990, y: 765 });
}

#[test]
fn layout_refuses_what_cannot_be_laid_out() {
    assert!(GridLayout::new((3, 2), 0, 7, None).is_none());
    assert!(GridLayout::new((3, 2), 3, 0, None).is_none());
    assert!(GridLayout::new((u32::MAX, 1), 2, 2, None).is_none());
    assert!(GridLayout::new((1, u32::MAX), 1, 2, None).is_none());
    assert!(GridLayout::new((0, 0), 65536, u32::MAX, None).is_none());
    assert!(GridLayout::with_rows((3, 2), 3, 0, None).is_none());
    assert!(GridLayout::with_rows((1, 1), u32::MAX, 1, Some(Padding { x: 1, y: 0 })).is_none());
    assert!(GridLayout::with_rows((1, 1), u32::MAX, 1, None).is_some());
}

#[test]
fn merger_canvas_has_the_derived_size() {
    let merger: KnownSizeMerger<4> =
        KnownSizeMerger::new((100, 100), 10, 100, Some(Padding { x: 10, y: 10 }));
    assert_eq!(merger.get_canvas().dimensions(), (1090, 1090));
    assert_eq!(merger.get_canvas().capacity(), 1090 * 1090 * 4);
    assert_eq!(merger.get_num_images(), 0);
    assert_eq!(merger.additional_space(), 100);
    assert_eq!(merger.get_image_dimensions(), (100, 100));
    assert!(merger.get_canvas().get_underlying().iter().all(|&c| c == 0));
}

#[test]
fn push_fails_exactly_when_full() {
    let mut merger: KnownSizeMerger<2> = KnownSizeMerger::new((3, 2), 1, 1, None);
    assert_eq!(merger.try_push(&tile(0)), Ok(()));
    assert_eq!(merger.get_num_images(), 1);
    let before = merger.get_canvas().clone();
    assert_eq!(merger.try_push(&tile(1)), Err(PushError::NoSpace));
    assert_eq!(merger.get_num_images(), 1);
    assert_eq!(merger.get_canvas(), &before);
}

#[test]
fn push_refuses_an_image_of_another_size() {
    let mut merger: KnownSizeMerger<2> = KnownSizeMerger::new((3, 2), 2, 4, None);
    let wide = Image::<2>::new(4, 2);
    assert_eq!(merger.try_push(&wide), Err(PushError::WrongSize));
    assert_eq!(merger.get_num_images(), 0);
    assert!(merger.get_canvas().get_underlying().iter().all(|&c| c == 0));
}

#[test]
fn pushes_fill_slots_left_to_right_top_to_bottom() {
    let mut merger: KnownSizeMerger<2> =
        KnownSizeMerger::new((3, 2), 3, 7, Some(Padding { x: 2, y: 1 }));
    assert_eq!(merger.get_canvas().dimensions(), (13, 8));
    for slot in 0..7 {
        assert_eq!(merger.get_next_paste_coordinates(), merger.get_paste_coordinates_unchecked(slot));
        merger.push(&tile(slot as u8));
        assert_eq!(merger.get_num_images(), slot + 1);
        assert_eq!(
            merger.get_canvas().get_underlying(),
            &expected_canvas(3, 3, (2, 1), slot + 1)
        );
    }
    assert_eq!(merger.additional_space(), 2);
}

#[test]
fn bulk_push_equals_pushes_in_order() {
    let tiles: Vec<Image<2>> = (0..7).map(tile).collect();
    let refs: Vec<&Image<2>> = tiles.iter().collect();

    let mut one_by_one: KnownSizeMerger<2> =
        KnownSizeMerger::new((3, 2), 3, 7, Some(Padding { x: 2, y: 1 }));
    for image in tiles.iter() {
        one_by_one.push(image);
    }

    let mut together: KnownSizeMerger<2> =
        KnownSizeMerger::new((3, 2), 3, 7, Some(Padding { x: 2, y: 1 }));
    together.bulk_push(&refs);

    assert_eq!(together.get_num_images(), 7);
    assert_eq!(together.get_canvas(), one_by_one.get_canvas());
    assert_eq!(
        together.get_canvas().get_underlying(),
        &expected_canvas(3, 3, (2, 1), 7)
    );
}

#[test]
fn bulk_push_continues_after_earlier_pushes() {
    let tiles: Vec<Image<2>> = (0..6).map(tile).collect();
    let mut merger: KnownSizeMerger<2> = KnownSizeMerger::new((3, 2), 2, 6, None);
    merger.push(&tiles[0]);
    merger.push(&tiles[1]);
    merger.bulk_push(&[&tiles[2], &tiles[3], &tiles[4]]);
    assert_eq!(merger.get_num_images(), 5);
    assert_eq!(
        merger.get_canvas().get_underlying(),
        &expected_canvas(2, 3, (0, 0), 5)
    );
    merger.bulk_push(&[]);
    assert_eq!(merger.get_num_images(), 5);
}

#[test]
fn bulk_push_fails_as_a_whole() {
    let tiles: Vec<Image<2>> = (0..5).map(tile).collect();
    let refs: Vec<&Image<2>> = tiles.iter().collect();
    let mut merger: KnownSizeMerger<2> = KnownSizeMerger::new((3, 2), 2, 4, None);
    merger.push(&tiles[0]);
    let before = merger.get_canvas().clone();

    assert_eq!(merger.try_bulk_push(&refs[1..5]), Err(PushError::NoSpace));
    assert_eq!(merger.get_num_images(), 1);
    assert_eq!(merger.get_canvas(), &before);

    let odd = Image::<2>::new(3, 3);
    assert_eq!(
        merger.try_bulk_push(&[&tiles[1], &odd]),
        Err(PushError::WrongSize)
    );
    assert_eq!(merger.get_num_images(), 1);
    assert_eq!(merger.get_canvas(), &before);

    assert_eq!(merger.try_bulk_push(&refs[1..4]), Ok(()));
    assert_eq!(merger.get_num_images(), 4);
    assert_eq!(
        merger.get_canvas().get_underlying(),
        &expected_canvas(2, 2, (0, 0), 4)
    );
}

#[test]
fn remove_image_blanks_one_cell_only() {
    let tiles: Vec<Image<2>> = (0..6).map(tile).collect();
    let refs: Vec<&Image<2>> = tiles.iter().collect();
    let mut merger: KnownSizeMerger<2> =
        KnownSizeMerger::new((3, 2), 3, 6, Some(Padding { x: 2, y: 1 }));
    // Mark the padding, so that a write to it would show.
    let mut marked = vec![7u8; 13 * 5 * 2];
    marked[0] = 9;
    let mut merger_marked: KnownSizeMerger<2> =
        KnownSizeMerger::new_from_raw((3, 2), 3, 6, Some(Padding { x: 2, y: 1 }), marked).unwrap();
    merger.bulk_push(&refs);
    merger_marked.bulk_push(&refs);

    merger.remove_image(4);
    merger_marked.remove_image(4);
    assert_eq!(merger.get_num_images(), 6);
    assert_eq!(merger.additional_space(), 0);

    let mut expected = expected_canvas(3, 2, (2, 1), 6);
    let mut expected_marked = vec![7u8; 13 * 5 * 2];
    for slot in 0..6u32 {
        let (ox, oy) = ((slot % 3) * 5, (slot / 3) * 3);
        for y in 0..2 {
            for x in 0..3 {
                let at = (((oy + y) * 13 + ox + x) * 2) as usize;
                if slot == 4 {
                    expected[at] = 0;
                    expected[at + 1] = 0;
                }
                expected_marked[at] = expected[at];
                expected_marked[at + 1] = expected[at + 1];
            }
        }
    }
    assert_eq!(merger.get_canvas().get_underlying(), &expected);
    assert_eq!(merger_marked.get_canvas().get_underlying(), &expected_marked);
}

#[test]
fn remove_image_raw_needs_a_cell_sized_buffer() {
    let mut merger: KnownSizeMerger<2> = KnownSizeMerger::new((3, 2), 2, 2, None);
    merger.push(&tile(0));
    merger.push(&tile(1));
    let before = merger.get_canvas().clone();

    assert_eq!(merger.remove_image_raw(1, vec![5u8; 11]), None);
    assert_eq!(merger.remove_image_raw(1, vec![5u8; 13]), None);
    assert_eq!(merger.get_canvas(), &before);

    assert_eq!(merger.remove_image_raw(1, vec![5u8; 12]), Some(()));
    let mut expected = expected_canvas(2, 1, (0, 0), 2);
    for y in 0..2 {
        for x in 3..6 {
            expected[(y * 6 + x) * 2] = 5;
            expected[(y * 6 + x) * 2 + 1] = 5;
        }
    }
    assert_eq!(merger.get_canvas().get_underlying(), &expected);
    assert_eq!(merger.get_num_images(), 2);
}

#[test]
fn raw_merger_needs_a_canvas_sized_buffer() {
    let exact = (13 * 5 * 2) as usize;
    let pad = Some(Padding { x: 2, y: 1 });
    assert!(KnownSizeMerger::<2>::new_from_raw((3, 2), 3, 6, pad, vec![0; exact - 1]).is_none());
    assert!(KnownSizeMerger::<2>::new_from_raw((3, 2), 3, 6, pad, vec![0; exact + 1]).is_none());
    assert!(KnownSizeMerger::<2>::new_from_raw((3, 2), 3, 6, pad, Vec::new()).is_none());
    assert!(KnownSizeMerger::<2>::new_from_raw((3, 2), 0, 6, pad, Vec::new()).is_none());
    let merger = KnownSizeMerger::<2>::new_from_raw((3, 2), 3, 6, pad, vec![3; exact]).unwrap();
    assert_eq!(merger.get_canvas().dimensions(), (13, 5));
    assert_eq!(merger.get_layout().rows, 2);
    assert_eq!(merger.into_canvas().into_buffer(), vec![3u8; exact]);
}
