use sprite_gen::noise::{
    GeneratorKind, NoiseField, bake_generator, get_noise_plateau_level, noise_fill, noise_plateau,
    random_noise,
};
use sprite_gen::engine::SpriteGen;
use sprite_gen::grid::CharTexture;
use sprite_gen::palette::Palette;
use sprite_gen::rng::Randomness;

// Normalization: a field with at least two distinct values comes out
// with minimum exactly 0, maximum exactly 1000, everything within.
#[test]
fn normalize_spreads_to_full_range() {
    let mut f = NoiseField { values: vec![-500, 0, 250, 1500], dimensions: (4, 1) };
    f.normalize();
    assert_eq!(*f.values.iter().min().unwrap(), 0);
    assert_eq!(*f.values.iter().max().unwrap(), 1000);
    assert!(f.values.iter().all(|&v| (0..=1000).contains(&v)));
    // exact linear remap: (v - min) * 1000 / (max - min)
    assert_eq!(f.values, vec![0, 250, 375, 1000]);
}

#[test]
fn normalize_flat_field_takes_midpoint() {
    let mut f = NoiseField { values: vec![7, 7, 7], dimensions: (3, 1) };
    f.normalize();
    assert_eq!(f.values, vec![500, 500, 500]);
}

#[test]
fn random_noise_is_normalized() {
    let mut rng = Randomness::from_seed(23);
    let field = random_noise(&mut rng, 6, 5);
    assert_eq!(field.dimensions, (6, 5));
    assert_eq!(field.values.len(), 30);
    assert!(field.values.iter().all(|&v| (0..=1000).contains(&v)));
}

#[test]
fn checkerboard_generator_alternates() {
    let g = GeneratorKind::Checker { period: 1 };
    let f = bake_generator(&g, 4, 2);
    // period 1: (x + y) parity decides the square
    for y in 0..2usize {
        for x in 0..4usize {
            let expected = if (x + y) % 2 == 0 { 1000 } else { -1000 };
            assert_eq!(f.values[y * 4 + x], expected);
        }
    }
}

#[test]
fn value_generator_stays_in_range() {
    let g = GeneratorKind::Value { seed: 1234 };
    let f = bake_generator(&g, 5, 5);
    assert!(f.values.iter().all(|&v| (-1000..=1000).contains(&v)));
}

#[test]
fn plateau_level_scans_ascending() {
    let levels = vec![
        (200u32, vec!['A']),
        (600u32, vec!['B']),
        (1000u32, vec!['C']),
    ];
    assert_eq!(get_noise_plateau_level(&levels, 0), 0);
    assert_eq!(get_noise_plateau_level(&levels, 200), 0);
    assert_eq!(get_noise_plateau_level(&levels, 201), 1);
    assert_eq!(get_noise_plateau_level(&levels, 600), 1);
    assert_eq!(get_noise_plateau_level(&levels, 601), 2);
    assert_eq!(get_noise_plateau_level(&levels, 1000), 2);
}

#[test]
fn plateau_groups_by_colour_distance() {
    let mut palette = Palette::new();
    palette.insert('A', [0, 0, 0, 255]);
    palette.insert('B', [10, 10, 10, 255]);
    palette.insert('C', [200, 200, 200, 255]);
    let mut rng = Randomness::from_seed(31);
    let plateau = noise_plateau(&mut rng, &palette);
    assert_eq!(plateau.len(), 3);
    // thresholds ascend and close at the full range
    for pair in plateau.windows(2) {
        assert!(pair[0].0 <= pair[1].0);
    }
    assert_eq!(plateau.last().unwrap().0, 1000);
    // A and B sit within the distance threshold of each other, C does not
    assert!(plateau[0].1.contains(&'A'));
    assert!(plateau[0].1.contains(&'B'));
    assert!(!plateau[0].1.contains(&'C'));
    assert!(plateau[2].1.contains(&'C'));
    assert!(!plateau[2].1.contains(&'A'));
}

#[test]
fn noise_fill_seeds_only_palette_symbols() {
    let mut sprite = SpriteGen::new(7, 7);
    sprite.char_texture = CharTexture::new(7, 7);
    sprite.char_color = Palette::new();
    sprite.char_color.insert('A', [0, 0, 0, 255]);
    sprite.char_color.insert('B', [255, 255, 255, 255]);
    let mut rng = Randomness::from_seed(47);
    noise_fill(&mut sprite, &mut rng);
    for &c in sprite.char_texture.get_array() {
        assert!(c == 'A' || c == 'B');
    }
}
