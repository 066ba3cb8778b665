use pastoral::effects::{finite_bits, JsonLevelTileEffect};
use pastoral::level_registry::{holds_name, str_lt};
use pastoral::text::concat3;

#[test]
fn concat3_joins_in_order() {
    assert_eq!(concat3("row ", "7", "!"), "row 7!");
    assert_eq!(concat3("", "", ""), "");
}

#[test]
fn strings_order_by_characters_then_length() {
    assert!(str_lt("alpha", "alphabet"));
    assert!(!str_lt("alphabet", "alpha"));
    assert!(str_lt("Zeta", "alpha"));
    assert!(!str_lt("same", "same"));
    assert!(str_lt("", "a"));
    assert!(!str_lt("a", ""));
    assert!(str_lt("ab", "b"));
    assert!(str_lt("é", "ê"));
}

#[test]
fn holds_name_finds_equal_strings() {
    let names = vec!["meadow".to_string(), "cave".to_string()];
    assert!(holds_name(&names, "cave"));
    assert!(!holds_name(&names, "Cave"));
    assert!(!holds_name(&Vec::new(), "cave"));
}

#[test]
fn finite_bits_follows_ieee754() {
    assert!(finite_bits(1.5f32.to_bits()));
    assert!(finite_bits(f32::MIN_POSITIVE.to_bits()));
    assert!(finite_bits((-0.0f32).to_bits()));
    assert!(!finite_bits(f32::INFINITY.to_bits()));
    assert!(!finite_bits(f32::NEG_INFINITY.to_bits()));
    assert!(!finite_bits(f32::NAN.to_bits()));
}

#[test]
fn validating_a_validated_effect_gives_it_back() {
    let first = JsonLevelTileEffect {
        tile_effect_type: "\u{2003} teleport \u{3000}".to_string(),
        modifier_bits: 0.0f32.to_bits(),
        extra_data: Some(" 3,4\t".to_string()),
    }
    .into_tile_effect()
    .unwrap();
    assert_eq!(first.tile_effect_type, "teleport");
    assert_eq!(first.extra_data, Some("3,4".to_string()));
    let second = JsonLevelTileEffect {
        tile_effect_type: first.tile_effect_type.clone(),
        modifier_bits: first.modifier_bits,
        extra_data: first.extra_data.clone(),
    }
    .into_tile_effect()
    .unwrap();
    assert_eq!(second.tile_effect_type, first.tile_effect_type);
    assert_eq!(second.modifier_bits, first.modifier_bits);
    assert_eq!(second.extra_data, first.extra_data);
}
