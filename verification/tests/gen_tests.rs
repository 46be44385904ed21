use sprite_gen::gen::{
    ColorSettings, LetterSettings, RuleSettings, SpriteSettings, hsl_to_rgba, weighted_values,
};
use sprite_gen::rng::Randomness;
use sprite_gen::rule::Rule;

#[test]
fn letters_are_the_leading_alphabet() {
    let mut rng = Randomness::from_seed(8);
    let settings = LetterSettings::random(&mut rng);
    let letters = settings.generate();
    assert!((6..=26).contains(&letters.len()));
    for (i, &c) in letters.iter().enumerate() {
        assert_eq!(c, (b'A' + i as u8) as char);
    }
}

#[test]
fn weighted_values_are_distinct_members() {
    let mut rng = Randomness::from_seed(12);
    let values: Vec<char> = ('A'..='J').collect();
    for _ in 0..20 {
        let picked = weighted_values(&mut rng, &values, 300, 5, 4);
        assert_eq!(picked.len(), 4);
        for &c in &picked {
            assert!(values.contains(&c));
        }
        let mut sorted = picked.clone();
        sorted.sort();
        sorted.dedup();
        assert_eq!(sorted.len(), 4);
    }
}

#[test]
fn generated_rules_parse_back() {
    let mut rng = Randomness::from_seed(21);
    let letters: Vec<char> = ('A'..='H').collect();
    let settings = RuleSettings::random(&mut rng);
    let rules = settings.generate(&mut rng, &letters);
    assert!((5..8).contains(&rules.len()));
    for rule in &rules {
        assert!(!rule.original_condition().is_empty());
        let reparsed = Rule::parse_action(rule.original_action());
        assert_eq!(&reparsed, rule.action());
    }
}

#[test]
fn generated_conditions_compile() {
    let mut rng = Randomness::from_seed(34);
    let letters: Vec<char> = ('A'..='F').collect();
    let settings = RuleSettings::random(&mut rng);
    for _ in 0..10 {
        let rule = settings.generate_single(&mut rng, &letters).unwrap();
        assert!(regex::Regex::new(rule.original_condition()).is_ok());
    }
}

#[test]
fn palette_covers_letters_in_order() {
    let mut rng = Randomness::from_seed(55);
    let letters: Vec<char> = ('A'..='G').collect();
    let settings = ColorSettings::random(&mut rng);
    let colors = settings.generate(&mut rng, &letters);
    assert_eq!(colors.len(), letters.len());
    for (i, (symbol, color)) in colors.iter().enumerate() {
        assert_eq!(*symbol, letters[i]);
        assert_eq!(color[3], 255);
    }
}

#[test]
fn hsl_primary_hues_hit_exact_bytes() {
    // full saturation, half lightness: pure hues
    assert_eq!(hsl_to_rgba(0, 1000, 500), [255, 0, 0, 255]);
    assert_eq!(hsl_to_rgba(120000, 1000, 500), [0, 255, 0, 255]);
    assert_eq!(hsl_to_rgba(240000, 1000, 500), [0, 0, 255, 255]);
}

#[test]
fn hsl_grey_axis() {
    // zero saturation is grey whatever the hue
    let grey = hsl_to_rgba(123456, 0, 500);
    assert_eq!(grey[0], grey[1]);
    assert_eq!(grey[1], grey[2]);
    assert_eq!(grey[3], 255);
    assert_eq!(hsl_to_rgba(0, 1000, 0), [0, 0, 0, 255]);
    assert_eq!(hsl_to_rgba(0, 0, 1000), [255, 255, 255, 255]);
}

#[test]
fn sprite_settings_compose() {
    let mut rng = Randomness::from_seed(77);
    let settings = SpriteSettings::random(&mut rng);
    assert!((2..=26).contains(&settings.colors.len()));
    let mut keys: Vec<char> = settings.colors.iter().map(|e| e.0).collect();
    keys.dedup();
    assert_eq!(keys.len(), settings.colors.len());
    for rule in &settings.rules {
        assert!(!rule.original_condition().is_empty());
    }
}
