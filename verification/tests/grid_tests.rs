use sprite_gen::grid::CharTexture;
use sprite_gen::FILL_CHAR;

#[test]
fn new_grid_is_filled() {
    let t = CharTexture::new(3, 2);
    assert_eq!(t.dimensions, (3, 2));
    assert_eq!(t.pixels.len(), 6);
    assert!(t.pixels.iter().all(|&c| c == FILL_CHAR));
    assert!(!t.changed);
}

#[test]
fn new_grid_clamps_zero_dimensions() {
    let t = CharTexture::new(0, 0);
    assert_eq!(t.dimensions, (1, 1));
    assert_eq!(t.pixels.len(), 1);
}

#[test]
fn set_and_get_round_trip() {
    let mut t = CharTexture::new(4, 3);
    t.set(2, 1, 'Q');
    assert_eq!(t.get(2, 1), 'Q');
    assert_eq!(t.pixels[1 * 4 + 2], 'Q');
    assert!(t.changed);
}

#[test]
fn index_conversions_are_inverse() {
    let t = CharTexture::new(5, 4);
    for index in 0..20 {
        let (x, y) = t.xy_from_index(index);
        assert_eq!(t.index_from_xy(x, y), index);
    }
}

#[test]
fn out_of_range_matches_bounds() {
    let t = CharTexture::new(3, 3);
    assert!(!t.out_of_range(0, 0));
    assert!(!t.out_of_range(2, 2));
    assert!(t.out_of_range(-1, 0));
    assert!(t.out_of_range(0, -1));
    assert!(t.out_of_range(3, 0));
    assert!(t.out_of_range(0, 3));
}

// The neighbourhood table holds exactly the in-range cells among the 9
// fixed offsets, and the centre slot always names the cell itself.
#[test]
fn neighbourhood_offsets_center_cell() {
    let t = CharTexture::new(3, 3);
    let slots = t.get_valid_3x3_indices(1, 1);
    let expected = [
        Some((0, 2)),
        Some((1, 2)),
        Some((2, 2)),
        Some((0, 1)),
        Some((1, 1)),
        Some((2, 1)),
        Some((0, 0)),
        Some((1, 0)),
        Some((2, 0)),
    ];
    assert_eq!(slots, expected);
    assert_eq!(slots[4], Some((1, 1)));
}

#[test]
fn neighbourhood_offsets_corner_cell() {
    let t = CharTexture::new(3, 3);
    let slots = t.get_valid_3x3_indices(0, 0);
    let expected = [
        None,
        Some((0, 1)),
        Some((1, 1)),
        None,
        Some((0, 0)),
        Some((1, 0)),
        None,
        None,
        None,
    ];
    assert_eq!(slots, expected);
    assert_eq!(slots[4], Some((0, 0)));
}

#[test]
fn neighbourhood_center_present_for_all_cells() {
    for (w, h) in [(1, 1), (2, 3), (4, 4)] {
        let t = CharTexture::new(w, h);
        for x in 0..w {
            for y in 0..h {
                let slots = t.get_valid_3x3_indices(x, y);
                assert_eq!(slots[4], Some((x, y)));
            }
        }
    }
}

#[test]
fn stringify_substitutes_fill_off_grid() {
    let mut t = CharTexture::new(2, 2);
    t.set(0, 0, 'A');
    t.set(1, 0, 'B');
    t.set(0, 1, 'C');
    t.set(1, 1, 'D');
    // window of (0, 0): row above is (x-1..x+1, 1), then row 0, then off-grid
    let w = t.stringify(0, 0);
    assert_eq!(w, ['#', 'C', 'D', '#', 'A', 'B', '#', '#', '#']);
}

// The flattened stream is exactly 9 symbols per cell, and each cell's
// slice reproduces its window string.
#[test]
fn flatten_length_and_slices() {
    let mut t = CharTexture::new(3, 2);
    let letters = ['A', 'B', 'C', 'D', 'E', 'F'];
    for i in 0..6 {
        let (x, y) = t.xy_from_index(i);
        t.set(x, y, letters[i]);
    }
    let flat: Vec<char> = t.full_stringify().chars().collect();
    assert_eq!(flat.len(), 9 * 3 * 2);
    for index in 0..6 {
        let (x, y) = t.xy_from_index(index);
        let window = t.stringify(x, y);
        assert_eq!(&flat[9 * index..9 * index + 9], &window);
    }
}

#[test]
fn count_counts_occurrences() {
    let mut t = CharTexture::new(3, 1);
    t.set(0, 0, 'A');
    t.set(1, 0, 'B');
    t.set(2, 0, 'A');
    assert_eq!(t.count('A'), 2);
    assert_eq!(t.count('B'), 1);
    assert_eq!(t.count('Z'), 0);
}

#[test]
fn resize_discards_and_clamps() {
    let mut t = CharTexture::new(2, 2);
    t.set(0, 0, 'A');
    t.resize(3, 1);
    assert_eq!(t.dimensions, (3, 1));
    assert!(t.pixels.iter().all(|&c| c == FILL_CHAR));
    t.resize(0, 5);
    assert_eq!(t.dimensions, (1, 5));
    assert_eq!(t.pixels.len(), 5);
}

#[test]
fn get_array_views_pixels() {
    let mut t = CharTexture::new(2, 1);
    t.set(1, 0, 'Z');
    assert_eq!(t.get_array(), &[FILL_CHAR, 'Z']);
}
