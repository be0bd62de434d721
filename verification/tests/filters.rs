use riif::bitmap::Bitmap;
use riif::error::DecodeError;
use riif::filters::{
    apply_filters, average_filter, best_filter, get_byte, none_filter, paeth_filter,
    paeth_predictor, remove_filters, row_sum, sub_filter, unfilter_average, unfilter_none,
    unfilter_paeth, unfilter_sub, unfilter_up, up_filter,
};

const ROW: [u8; 12] = [10, 200, 30, 255, 12, 190, 35, 255, 250, 5, 40, 0];
const ABOVE: [u8; 12] = [9, 210, 30, 255, 14, 180, 33, 254, 1, 2, 3, 4];

fn forward(tag: u8, row: &[u8], prev: Option<&[u8]>) -> Vec<u8> {
    match tag {
        0 => none_filter(row, prev),
        1 => sub_filter(row, prev),
        2 => up_filter(row, prev),
        3 => average_filter(row, prev),
        4 => paeth_filter(row, prev),
        _ => unreachable!(),
    }
}

fn backward(tag: u8, row: &[u8], prev: Option<&[u8]>) -> Vec<u8> {
    match tag {
        0 => unfilter_none(row),
        1 => unfilter_sub(row),
        2 => unfilter_up(row, prev),
        3 => unfilter_average(row, prev),
        4 => unfilter_paeth(row, prev),
        _ => unreachable!(),
    }
}

#[test]
fn get_byte_is_zero_outside_the_row() {
    assert_eq!(get_byte(Some(&ROW), 0), 10);
    assert_eq!(get_byte(Some(&ROW), 11), 0);
    assert_eq!(get_byte(Some(&ROW), 8), 250);
    assert_eq!(get_byte(Some(&ROW), 12), 0);
    assert_eq!(get_byte(None, 0), 0);
    assert_eq!(get_byte(None, 7), 0);
}

#[test]
fn paeth_predictor_picks_the_nearest_neighbour() {
    // p = 10 + 20 - 15 = 15: c is nearest.
    assert_eq!(paeth_predictor(10, 20, 15), 15);
    // p = 100 + 50 - 60 = 90: a is at distance 10, b at 40, c at 30.
    assert_eq!(paeth_predictor(100, 50, 60), 100);
    // p = 50 + 100 - 60 = 90: b is at distance 10.
    assert_eq!(paeth_predictor(50, 100, 60), 100);
    // p = 0 + 255 - 0 = 255.
    assert_eq!(paeth_predictor(0, 255, 0), 255);
    // p = 255 + 255 - 0 = 510, far outside a byte: a and b tie, a wins.
    assert_eq!(paeth_predictor(255, 255, 0), 255);
    // p = 0 + 0 - 255 = -255: a and b tie at 255, c is at 510.
    assert_eq!(paeth_predictor(0, 0, 255), 0);
}

#[test]
fn paeth_predictor_breaks_ties_in_order() {
    // p = 8 + 11 - 10 = 9: a and c both at distance 1, b at 2; a wins.
    assert_eq!(paeth_predictor(8, 11, 10), 8);
    // p = 11 + 8 - 10 = 9: b and c both at distance 1, a at 2; b wins.
    assert_eq!(paeth_predictor(11, 8, 10), 8);
    // p = 10 + 10 - 0 = 20: a and b both at distance 10, c at 20.
    assert_eq!(paeth_predictor(10, 10, 0), 10);
    // p = 3 + 3 - 3 = 3: all three at distance 0.
    assert_eq!(paeth_predictor(3, 3, 3), 3);
    // p = 10 + 30 - 20 = 20: c alone at distance 0.
    assert_eq!(paeth_predictor(10, 30, 20), 20);
}

#[test]
fn none_filter_copies_the_row() {
    assert_eq!(none_filter(&ROW, Some(&ABOVE)), ROW.to_vec());
    assert_eq!(none_filter(&ROW, None), ROW.to_vec());
    assert_eq!(none_filter(&[], None), Vec::<u8>::new());
}

#[test]
fn sub_filter_subtracts_the_left_pixel() {
    assert_eq!(
        sub_filter(&ROW, Some(&ABOVE)),
        vec![10, 200, 30, 255, 2, 246, 5, 0, 238, 71, 5, 1]
    );
    assert_eq!(sub_filter(&ROW, None), sub_filter(&ROW, Some(&ABOVE)));
}

#[test]
fn up_filter_subtracts_the_byte_above() {
    assert_eq!(
        up_filter(&ROW, Some(&ABOVE)),
        vec![1, 246, 0, 0, 254, 10, 2, 1, 249, 3, 37, 252]
    );
}

#[test]
fn average_filter_subtracts_the_rounded_down_mean() {
    // First pixel: left is 0, so the mean is above / 2: 4, 105, 15, 127.
    // Second pixel: (10 + 14) / 2 = 12, (200 + 180) / 2 = 190, (30 + 33) / 2 = 31,
    // (255 + 254) / 2 = 254.
    // Third pixel: (12 + 1) / 2 = 6, (190 + 2) / 2 = 96, (35 + 3) / 2 = 19, (255 + 4) / 2 = 129.
    assert_eq!(
        average_filter(&ROW, Some(&ABOVE)),
        vec![6, 95, 15, 128, 0, 0, 4, 1, 244, 165, 21, 127]
    );
}

#[test]
fn paeth_filter_subtracts_the_paeth_predictor() {
    // First pixel: left and upper-left are 0, so the predictor is the byte above.
    // Second pixel, red: a = 10, b = 14, c = 9: p = 15, nearest is b = 14.
    // Second pixel, green: a = 200, b = 180, c = 210: p = 170, nearest is b = 180.
    // Second pixel, blue: a = 30, b = 33, c = 30: p = 33, nearest is b = 33.
    // Second pixel, alpha: a = 255, b = 254, c = 255: p = 254, nearest is b = 254.
    // Third pixel, red: a = 12, b = 1, c = 14: p = -1, nearest is b = 1.
    // Third pixel, green: a = 190, b = 2, c = 180: p = 12, nearest is b = 2.
    // Third pixel, blue: a = 35, b = 3, c = 33: p = 5, nearest is b = 3.
    // Third pixel, alpha: a = 255, b = 4, c = 254: p = 5, nearest is b = 4.
    assert_eq!(
        paeth_filter(&ROW, Some(&ABOVE)),
        vec![1, 246, 0, 0, 254, 10, 2, 1, 249, 3, 37, 252]
    );
}

#[test]
fn filters_wrap_modulo_256() {
    assert_eq!(sub_filter(&[0, 0, 0, 0, 0, 1, 2, 3], None), vec![0, 0, 0, 0, 0, 1, 2, 3]);
    assert_eq!(
        sub_filter(&[200, 200, 200, 200, 100, 0, 199, 201], None),
        vec![200, 200, 200, 200, 156, 56, 255, 1]
    );
    assert_eq!(up_filter(&[0, 1, 2, 3], Some(&[1, 1, 255, 4])), vec![255, 0, 3, 255]);
    assert_eq!(unfilter_up(&[255, 0, 3, 255], Some(&[1, 1, 255, 4])), vec![0, 1, 2, 3]);
    assert_eq!(
        unfilter_sub(&[200, 200, 200, 200, 156, 56, 255, 1]),
        vec![200, 200, 200, 200, 100, 0, 199, 201]
    );
}

#[test]
fn average_does_not_overflow_a_byte() {
    // (255 + 255) / 2 = 255.
    assert_eq!(
        average_filter(&[1, 2, 3, 4, 255, 255, 255, 255], Some(&[0, 0, 0, 0, 255, 255, 255, 255])),
        vec![1, 2, 3, 4, 127, 127, 126, 126]
    );
    assert_eq!(
        average_filter(&[255, 255, 255, 255, 0, 0, 0, 0], Some(&[0, 0, 0, 0, 255, 255, 255, 255])),
        vec![255, 255, 255, 255, 1, 1, 1, 1]
    );
}

#[test]
fn every_filter_is_undone_by_its_inverse() {
    for tag in 0..5u8 {
        for prev in [None, Some(&ABOVE[..])] {
            let filtered = forward(tag, &ROW, prev);
            assert_eq!(filtered.len(), ROW.len());
            assert_eq!(backward(tag, &filtered, prev), ROW.to_vec(), "tag {}", tag);
        }
    }
}

#[test]
fn every_inverse_is_undone_by_its_filter() {
    for tag in 0..5u8 {
        for prev in [None, Some(&ABOVE[..])] {
            let rebuilt = backward(tag, &ROW, prev);
            assert_eq!(forward(tag, &rebuilt, prev), ROW.to_vec(), "tag {}", tag);
        }
    }
}

#[test]
fn filters_are_undone_for_many_rows() {
    let mut seed: u32 = 12345;
    let mut next = move || {
        seed = seed.wrapping_mul(1664525).wrapping_add(1013904223);
        (seed >> 24) as u8
    };
    for len in [0usize, 1, 3, 4, 5, 8, 13, 64] {
        let row: Vec<u8> = (0..len).map(|_| next()).collect();
        let prev: Vec<u8> = (0..len).map(|_| next()).collect();
        for tag in 0..5u8 {
            let filtered = forward(tag, &row, Some(&prev));
            assert_eq!(backward(tag, &filtered, Some(&prev)), row);
            let filtered = forward(tag, &row, None);
            assert_eq!(backward(tag, &filtered, None), row);
        }
    }
}

#[test]
fn top_row_has_zero_above() {
    let zeros = [0u8; 12];
    for tag in 0..5u8 {
        assert_eq!(forward(tag, &ROW, None), forward(tag, &ROW, Some(&zeros)), "tag {}", tag);
        assert_eq!(backward(tag, &ROW, None), backward(tag, &ROW, Some(&zeros)), "tag {}", tag);
    }
    // With nothing above, Up is None and Paeth is Sub.
    assert_eq!(up_filter(&ROW, None), none_filter(&ROW, None));
    assert_eq!(paeth_filter(&ROW, None), sub_filter(&ROW, None));
    // With nothing above, Average takes half of the left byte.
    assert_eq!(
        average_filter(&ROW, None),
        vec![10, 200, 30, 255, 7, 90, 20, 128, 244, 166, 23, 129]
    );
}

#[test]
fn first_pixel_has_zero_left_and_above_left() {
    let first = &ROW[0..4];
    let above = &ABOVE[0..4];
    assert_eq!(sub_filter(first, Some(above)), first.to_vec());
    assert_eq!(unfilter_sub(first), first.to_vec());
    assert_eq!(up_filter(first, Some(above)), vec![1, 246, 0, 0]);
    // The mean of 0 and the byte above.
    assert_eq!(average_filter(first, Some(above)), vec![6, 95, 15, 128]);
    // paeth(0, b, 0) is b.
    assert_eq!(paeth_filter(first, Some(above)), up_filter(first, Some(above)));
    // The first four bytes of a longer row see the same context.
    for tag in 0..5u8 {
        assert_eq!(
            forward(tag, &ROW, Some(&ABOVE))[0..4],
            forward(tag, first, Some(above))[..],
            "tag {}",
            tag
        );
    }
}

#[test]
fn a_short_row_above_counts_as_zero_where_it_ends() {
    let short = &ABOVE[0..6];
    let mut padded = short.to_vec();
    padded.resize(12, 0);
    for tag in 0..5u8 {
        assert_eq!(forward(tag, &ROW, Some(short)), forward(tag, &ROW, Some(&padded)));
        assert_eq!(backward(tag, &ROW, Some(short)), backward(tag, &ROW, Some(&padded)));
    }
}

#[test]
fn row_sum_adds_bytes_as_unsigned() {
    assert_eq!(row_sum(&[]), 0);
    assert_eq!(row_sum(&[255, 255, 255]), 765);
    assert_eq!(row_sum(&ROW), 1282);
    assert_eq!(row_sum(&vec![255u8; 100_000]), 25_500_000);
}

#[test]
fn best_filter_takes_the_least_sum() {
    // Sums: None 1282, Sub 1063, Up 1055, Average 806, Paeth 1055.
    let (tag, row) = best_filter(&ROW, Some(&ABOVE));
    assert_eq!(tag, 3);
    assert_eq!(row_sum(&row), 806);
    assert_eq!(row, average_filter(&ROW, Some(&ABOVE)));
    // A flat row: Sub leaves the first pixel only.
    let flat = [7u8, 7, 7, 7, 7, 7, 7, 7, 7, 7, 7, 7];
    let (tag, row) = best_filter(&flat, None);
    assert_eq!(tag, 1);
    assert_eq!(row, vec![7, 7, 7, 7, 0, 0, 0, 0, 0, 0, 0, 0]);
    // A row equal to the one above: Up leaves nothing.
    let (tag, row) = best_filter(&ROW, Some(&ROW));
    assert_eq!(tag, 2);
    assert_eq!(row, vec![0; 12]);
}

#[test]
fn best_filter_breaks_ties_by_lowest_tag() {
    // Sub and Paeth both give 315, None and Up 600, Average 458.
    let row = [10u8, 10, 10, 255, 20, 20, 20, 255];
    assert_eq!(row_sum(&sub_filter(&row, None)), 315);
    assert_eq!(row_sum(&paeth_filter(&row, None)), 315);
    assert_eq!(row_sum(&none_filter(&row, None)), 600);
    assert_eq!(row_sum(&up_filter(&row, None)), 600);
    assert_eq!(row_sum(&average_filter(&row, None)), 458);
    let (tag, filtered) = best_filter(&row, None);
    assert_eq!(tag, 1);
    assert_eq!(filtered, vec![10, 10, 10, 255, 10, 10, 10, 0]);
    // One pixel, nothing above: every filter leaves the row as it is.
    let (tag, filtered) = best_filter(&[1, 2, 3, 4], None);
    assert_eq!(tag, 0);
    assert_eq!(filtered, vec![1, 2, 3, 4]);
    // All zeros: every filter gives zeros.
    let (tag, filtered) = best_filter(&[0; 16], Some(&[0; 16]));
    assert_eq!(tag, 0);
    assert_eq!(filtered, vec![0; 16]);
    // An empty row: every sum is 0.
    let (tag, filtered) = best_filter(&[], None);
    assert_eq!(tag, 0);
    assert_eq!(filtered, Vec::<u8>::new());
    // Up and Paeth tie below the rest: Up has the lower tag.
    let above = [50u8, 60, 70, 80];
    let row = [51u8, 61, 71, 81];
    assert_eq!(row_sum(&up_filter(&row, Some(&above))), 4);
    assert_eq!(row_sum(&paeth_filter(&row, Some(&above))), 4);
    assert_eq!(best_filter(&row, Some(&above)).0, 2);
}

#[test]
fn apply_filters_uses_the_unfiltered_row_above() {
    // Row 1 equals row 0, so Up gives zeros for it whatever filter row 0 got.
    let row = [90u8, 80, 70, 60, 95, 85, 75, 65];
    let mut data = row.to_vec();
    data.extend_from_slice(&row);
    let img = Bitmap::new(2, 2, data).unwrap();
    let (tags, filtered) = apply_filters(&img);
    assert_eq!(tags, vec![1, 2]);
    assert_eq!(filtered, vec![90, 80, 70, 60, 5, 5, 5, 5, 0, 0, 0, 0, 0, 0, 0, 0]);
}

#[test]
fn apply_filters_gives_one_tag_per_row() {
    let img = Bitmap::new(3, 4, (0..48).map(|i| (i * 5) as u8).collect()).unwrap();
    let (tags, filtered) = apply_filters(&img);
    assert_eq!(tags.len(), 4);
    assert_eq!(filtered.len(), 48);
    assert!(tags.iter().all(|&t| t <= 4));
    for y in 0..4u32 {
        let prev = if y == 0 { None } else { Some(img.row(y - 1)) };
        let (tag, row) = best_filter(img.row(y), prev);
        assert_eq!(tags[y as usize], tag);
        assert_eq!(&filtered[y as usize * 12..(y as usize + 1) * 12], &row[..]);
    }
}

#[test]
fn apply_filters_on_empty_images() {
    let (tags, filtered) = apply_filters(&Bitmap::new(0, 0, vec![]).unwrap());
    assert!(tags.is_empty() && filtered.is_empty());
    let (tags, filtered) = apply_filters(&Bitmap::new(0, 3, vec![]).unwrap());
    assert_eq!(tags, vec![0, 0, 0]);
    assert!(filtered.is_empty());
    let (tags, filtered) = apply_filters(&Bitmap::new(3, 0, vec![]).unwrap());
    assert!(tags.is_empty() && filtered.is_empty());
}

#[test]
fn remove_filters_uses_the_rebuilt_row_above() {
    // Row 0 is stored with Sub, row 1 with Up: row 1 is rebuilt from the rebuilt row 0.
    let filtered = [90u8, 80, 70, 60, 5, 5, 5, 5, 1, 2, 3, 4, 0, 0, 0, 0];
    let img = remove_filters(2, 2, &[1, 2], &filtered).unwrap();
    assert_eq!(img.width(), 2);
    assert_eq!(img.height(), 2);
    assert_eq!(img.row(0), &[90, 80, 70, 60, 95, 85, 75, 65]);
    assert_eq!(img.row(1), &[91, 82, 73, 64, 95, 85, 75, 65]);
}

#[test]
fn remove_filters_inverts_apply_filters() {
    let data: Vec<u8> = (0..5 * 7 * 4).map(|i| ((i * i + 3 * i) % 256) as u8).collect();
    let img = Bitmap::new(5, 7, data).unwrap();
    let (tags, filtered) = apply_filters(&img);
    assert_eq!(remove_filters(5, 7, &tags, &filtered), Ok(img));
}

#[test]
fn remove_filters_with_each_tag() {
    let above = [10u8, 20, 30, 40, 50, 60, 70, 80];
    for tag in 0..5u8 {
        let mut filtered = above.to_vec();
        filtered.extend_from_slice(&forward(tag, &ROW[0..8], Some(&above)));
        let img = remove_filters(2, 2, &[0, tag], &filtered).unwrap();
        assert_eq!(img.row(0), &above);
        assert_eq!(img.row(1), &ROW[0..8], "tag {}", tag);
    }
}

#[test]
fn remove_filters_refuses_an_unknown_tag() {
    let filtered = [0u8; 24];
    assert_eq!(
        remove_filters(2, 3, &[0, 5, 9], &filtered),
        Err(DecodeError::UnknownFilter { row: 1, tag: 5 })
    );
    assert_eq!(
        remove_filters(2, 3, &[4, 4, 255], &filtered),
        Err(DecodeError::UnknownFilter { row: 2, tag: 255 })
    );
    // Also where the rows are empty.
    assert_eq!(
        remove_filters(0, 2, &[7, 0], &[]),
        Err(DecodeError::UnknownFilter { row: 0, tag: 7 })
    );
}

#[test]
fn remove_filters_on_empty_images() {
    assert_eq!(remove_filters(0, 0, &[], &[]), Ok(Bitmap::new(0, 0, vec![]).unwrap()));
    assert_eq!(remove_filters(0, 2, &[3, 4], &[]), Ok(Bitmap::new(0, 2, vec![]).unwrap()));
    assert_eq!(remove_filters(9, 0, &[], &[]), Ok(Bitmap::new(9, 0, vec![]).unwrap()));
}
