use base64::Engine;
use sprite_gen::export::{
    export_palette, export_rules, import_palette, import_rules, texture_to_png_base64,
};
use sprite_gen::palette::Palette;
use sprite_gen::rule::Rule;

// The exported data URL really is a PNG of the pixels: strip the
// prefix, decode the base64 text, decode the PNG, and compare.
#[test]
fn png_data_url_round_trips_pixels() {
    let width = 2usize;
    let height = 2usize;
    let data: Vec<u8> = vec![
        255, 0, 0, 255, 0, 255, 0, 255, 0, 0, 255, 255, 9, 8, 7, 255,
    ];
    let url = texture_to_png_base64(data.clone(), width, height);
    let prefix = "data:image/png;base64,";
    assert!(url.starts_with(prefix));
    assert!(url.len() > prefix.len());
    let encoded = &url[prefix.len()..];
    let png = base64::engine::general_purpose::STANDARD
        .decode(encoded)
        .unwrap();
    let image = image::load_from_memory(&png).unwrap().to_rgba8();
    assert_eq!(image.width(), 2);
    assert_eq!(image.height(), 2);
    assert_eq!(image.into_raw(), data);
}

#[test]
fn rules_export_import_round_trip() {
    let rules = vec![
        Rule::new("....A....", "5B").unwrap(),
        Rule::new("(?:[AB].*){2}", "*C[0.25]").unwrap(),
    ];
    let pairs = export_rules(&rules);
    assert_eq!(pairs.len(), 2);
    assert_eq!(pairs[0], ("....A....".to_string(), "5B".to_string()));
    let back = import_rules(&pairs);
    assert_eq!(back.len(), 2);
    for (rule, pair) in back.iter().zip(pairs.iter()) {
        assert_eq!(rule.original_condition(), pair.0);
        assert_eq!(rule.original_action(), pair.1);
    }
}

#[test]
fn import_rules_skips_bad_conditions() {
    let pairs = vec![
        ("A".to_string(), "5B".to_string()),
        ("(".to_string(), "5B".to_string()),
        ("B".to_string(), "1C".to_string()),
    ];
    let rules = import_rules(&pairs);
    assert_eq!(rules.len(), 2);
    assert_eq!(rules[0].original_condition(), "A");
    assert_eq!(rules[1].original_condition(), "B");
}

#[test]
fn palette_export_import_round_trip() {
    let mut palette = Palette::new();
    palette.insert('A', [1, 2, 3, 255]);
    palette.insert('B', [4, 5, 6, 255]);
    let entries = export_palette(&palette);
    assert_eq!(entries, vec![('A', [1, 2, 3, 255]), ('B', [4, 5, 6, 255])]);
    let back = import_palette(&entries);
    assert_eq!(back.get('A'), Some([1, 2, 3, 255]));
    assert_eq!(back.get('B'), Some([4, 5, 6, 255]));
    assert_eq!(back.get('C'), None);
}

#[test]
fn import_palette_keeps_last_colour_of_duplicates() {
    let entries = vec![('A', [1, 1, 1, 255]), ('A', [2, 2, 2, 255])];
    let palette = import_palette(&entries);
    assert_eq!(palette.len(), 1);
    assert_eq!(palette.get('A'), Some([2, 2, 2, 255]));
}
