use sprite_gen::engine::{SpriteGen, apply_actions, apply_rules};
use sprite_gen::grid::CharTexture;
use sprite_gen::palette::Palette;
use sprite_gen::rng::Randomness;
use sprite_gen::rule::{Action, ActionParam, Rule};
use sprite_gen::FILL_CHAR;

fn grid_of(width: usize, height: usize, letter: char) -> CharTexture {
    let mut t = CharTexture::new(width, height);
    for i in 0..width * height {
        let (x, y) = t.xy_from_index(i);
        t.set(x, y, letter);
    }
    t
}

// A 3x3 grid of A, condition mask pinning the centre slot to A, action
// writing B to slot 5 (the cell itself): every cell matches its own
// window and the whole grid becomes B.
#[test]
fn center_pin_rewrites_every_cell() {
    let mut sprite = SpriteGen::new(3, 3);
    sprite.char_texture = grid_of(3, 3, 'A');
    sprite.rules = vec![Rule::new("....A....", "5B").unwrap()];
    let mut rng = Randomness::from_seed(7);
    sprite.apply(&mut rng);
    assert!(sprite.char_texture.pixels.iter().all(|&c| c == 'B'));
}

// Same grid, an anywhere-style condition asking for at least two A's in
// the window, action writing C to every window slot: exactly the cells
// whose window holds two or more A's match, and their writes flood the
// grid with C.
#[test]
fn occurrence_condition_matches_by_count() {
    let mut sprite = SpriteGen::new(3, 3);
    let mut t = CharTexture::new(3, 3);
    for (x, y) in [(0, 0), (1, 0), (2, 0), (0, 1), (0, 2)] {
        t.set(x, y, 'A');
    }
    sprite.char_texture = t;
    let rule = Rule::new("(?:[A].*){2}", "*C").unwrap();

    // matching is decided per cell against the frozen snapshot
    let snapshot: Vec<char> = sprite.char_texture.full_stringify().chars().collect();
    for index in 0..9 {
        let window: Vec<char> = snapshot[9 * index..9 * index + 9].to_vec();
        let a_count = window.iter().filter(|&&c| c == 'A').count();
        assert_eq!(rule.condition_matches(&window), a_count >= 2);
    }
    // only (2, 2) has fewer than two A's in its window
    let far_corner: Vec<char> = snapshot[9 * 8..9 * 8 + 9].to_vec();
    assert!(!rule.condition_matches(&far_corner));

    sprite.rules = vec![rule];
    let mut rng = Randomness::from_seed(11);
    sprite.apply(&mut rng);
    // every cell neighbours some matching cell, so all end up C
    assert!(sprite.char_texture.pixels.iter().all(|&c| c == 'C'));
}

// A rule set whose every condition can never match leaves the grid
// bit-for-bit unchanged; an empty condition source is skipped outright.
#[test]
fn no_match_pass_is_identity() {
    let mut sprite = SpriteGen::new(3, 3);
    sprite.char_texture = grid_of(3, 3, 'A');
    sprite.char_texture.changed = false;
    let before = sprite.char_texture.pixels.clone();
    sprite.rules = vec![
        Rule::new("Z", "*B").unwrap(),
        Rule::new("", "AB").unwrap(),
    ];
    let mut rng = Randomness::from_seed(3);
    sprite.apply(&mut rng);
    assert_eq!(sprite.char_texture.pixels, before);
    assert!(!sprite.char_texture.changed);
}

// A leading action whose value is the literal FILL symbol aborts the
// whole action list: nothing at all is written for that match.
#[test]
fn fill_valued_action_guards_whole_list() {
    let mut t = grid_of(3, 3, 'A');
    let before = t.pixels.clone();
    let actions = vec![
        Action {
            chance: None,
            location: ActionParam::Wildcard,
            value: ActionParam::Char(FILL_CHAR),
        },
        Action {
            chance: None,
            location: ActionParam::Wildcard,
            value: ActionParam::Char('Z'),
        },
    ];
    let window: Vec<char> = t.stringify(1, 1).to_vec();
    let mut rng = Randomness::from_seed(5);
    apply_actions(&mut t, &actions, &mut rng, &window, 1, 1);
    assert_eq!(t.pixels, before);
}

// A wildcard value draws from the window; where the draw lands on an
// off-grid FILL slot the action aborts, so FILL is never written.
#[test]
fn pass_never_writes_fill() {
    let mut sprite = SpriteGen::new(3, 3);
    sprite.char_texture = grid_of(3, 3, 'A');
    sprite.rules = vec![Rule::new("A", "**").unwrap()];
    let mut rng = Randomness::from_seed(13);
    for _ in 0..20 {
        sprite.apply(&mut rng);
    }
    assert!(sprite.char_texture.pixels.iter().all(|&c| c == 'A'));
}

#[test]
fn apply_rules_uses_the_given_snapshot() {
    // the snapshot freezes matching: with an all-FILL snapshot, a rule
    // on A matches nothing even though the live grid is all A
    let mut t = grid_of(2, 2, 'A');
    let before = t.pixels.clone();
    let rules = vec![Rule::new("A", "*B").unwrap()];
    let frozen: String = "#".repeat(9 * 4);
    let mut rng = Randomness::from_seed(1);
    apply_rules(&mut rng, &mut t, &rules, &frozen);
    assert_eq!(t.pixels, before);
}

#[test]
fn update_texture_renders_palette_and_transparent() {
    let mut sprite = SpriteGen::new(2, 1);
    sprite.char_texture.set(0, 0, 'A');
    sprite.char_texture.set(1, 0, 'B');
    sprite.char_color = Palette::new();
    sprite.char_color.insert('A', [10, 20, 30, 255]);
    let mut buffer = vec![9u8; 8];
    sprite.update_texture(&mut buffer);
    assert_eq!(&buffer[0..4], &[10, 20, 30, 255]);
    // B is not in the palette: fully transparent, all channels zero
    assert_eq!(&buffer[4..8], &[0, 0, 0, 0]);
}

#[test]
fn changed_flag_lifecycle() {
    let mut sprite = SpriteGen::new(2, 2);
    assert!(!sprite.is_changed());
    sprite.char_texture.set(0, 0, 'A');
    assert!(sprite.is_changed());
    sprite.clear_changed();
    assert!(!sprite.is_changed());
    sprite.set_changed();
    assert!(sprite.is_changed());
}

#[test]
fn randomize_seeds_grid_from_palette() {
    let mut sprite = SpriteGen::new(8, 8);
    let mut rng = Randomness::from_seed(99);
    sprite.randomize(&mut rng);
    assert!(sprite.char_color.len() >= 2);
    let keys = sprite.char_color.keys();
    for &c in sprite.char_texture.get_array() {
        assert!(keys.contains(&c));
        assert_ne!(c, FILL_CHAR);
    }
    assert!((5..8).contains(&sprite.rules.len()));
    assert!((6..=26).contains(&sprite.char_color.len()));
    for (i, &(key, color)) in sprite.char_color.entries.iter().enumerate() {
        assert_eq!(key, (b'A' + i as u8) as char);
        assert_eq!(color[3], 255);
    }
    for rule in &sprite.rules {
        assert!(!rule.original_condition().is_empty());
        assert!((1..=3).contains(&rule.action().len()));
    }
}

#[test]
fn randomize_color_keeps_symbols() {
    let mut sprite = SpriteGen::new(4, 4);
    let mut rng = Randomness::from_seed(42);
    sprite.randomize(&mut rng);
    let keys_before = sprite.char_color.keys();
    sprite.randomize_color(&mut rng);
    assert_eq!(sprite.char_color.keys(), keys_before);
}

#[test]
fn randomize_rules_regenerates_over_alphabet() {
    let mut sprite = SpriteGen::new(4, 4);
    let mut rng = Randomness::from_seed(17);
    sprite.randomize(&mut rng);
    sprite.randomize_rules(&mut rng);
    for rule in &sprite.rules {
        assert!(!rule.original_condition().is_empty());
        let reparsed = Rule::parse_action(rule.original_action());
        assert_eq!(&reparsed, rule.action());
    }
}
