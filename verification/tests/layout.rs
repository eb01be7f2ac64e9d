use adamas_codegen::layout::{aligned, family_packing_of, packing_of_slots, sequential, tag_of};

#[test]
fn a_tag_grows_by_powers_of_two() {
    assert_eq!(tag_of(0), (0, 1));
    assert_eq!(tag_of(1), (0, 1));
    assert_eq!(tag_of(2), (1, 1));
    assert_eq!(tag_of(256), (1, 1));
    assert_eq!(tag_of(257), (2, 2));
    assert_eq!(tag_of(65536), (2, 2));
    assert_eq!(tag_of(65537), (4, 4));
}

#[test]
fn an_offset_moves_up_to_its_alignment() {
    assert_eq!(aligned(0, 8), 0);
    assert_eq!(aligned(1, 8), 8);
    assert_eq!(aligned(8, 8), 8);
    assert_eq!(aligned(9, 4), 12);
    assert_eq!(aligned(5, 0), 5);
    assert_eq!(aligned(5, 1), 5);
}

#[test]
fn fields_are_laid_out_one_after_another() {
    let (offsets, size, align) = sequential(&[(1, 1), (8, 8), (2, 2)], 0);
    assert_eq!(offsets, vec![0, 8, 16]);
    assert_eq!(size, 18);
    assert_eq!(align, 8);
    let (offsets, size, align) = sequential(&[(4, 4)], 1);
    assert_eq!(offsets, vec![4]);
    assert_eq!(size, 8);
    assert_eq!(align, 4);
    assert_eq!(sequential(&[], 3), (vec![], 3, 1));
}

#[test]
fn an_option_of_int64_takes_sixteen_bytes() {
    let layout = family_packing_of(&[vec![], vec![(8, 8)]]);
    assert_eq!(layout.tag, 1);
    assert_eq!(layout.variants, vec![vec![], vec![8]]);
    assert_eq!(layout.size, 16);
    assert_eq!(layout.align, 8);
}

#[test]
fn one_constructor_needs_no_tag() {
    let layout = family_packing_of(&[vec![(4, 4), (1, 1)]]);
    assert_eq!(layout.tag, 0);
    assert_eq!(layout.variants, vec![vec![0, 4]]);
    assert_eq!(layout.size, 8);
    assert_eq!(layout.align, 4);
}

#[test]
fn a_record_is_padded_to_its_alignment() {
    let layout = packing_of_slots(&[(8, 8), (1, 1)]);
    assert_eq!(layout.tag, 0);
    assert_eq!(layout.variants, vec![vec![0, 8]]);
    assert_eq!(layout.size, 16);
    assert_eq!(layout.align, 8);
    let empty = packing_of_slots(&[]);
    assert_eq!((empty.size, empty.align), (0, 1));
}
