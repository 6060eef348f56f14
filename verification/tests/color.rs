use h7cad::color::{
    aci_string_to_color, color_to_aci_string, named_colors, palette_rows, AciColor, ColorExtras,
    PALETTE_COLUMNS,
};

#[test]
fn colours_encode_as_aci_strings() {
    assert_eq!(color_to_aci_string(AciColor::ByBlock), "0");
    assert_eq!(color_to_aci_string(AciColor::ByLayer), "256");
    assert_eq!(color_to_aci_string(AciColor::Index(7)), "7");
    assert_eq!(color_to_aci_string(AciColor::Index(255)), "255");
    assert_eq!(color_to_aci_string(AciColor::Rgb { r: 1, g: 2, b: 3 }), "256");
    assert_eq!(color_to_aci_string(AciColor::NoColor), "256");
}

#[test]
fn aci_strings_decode_to_colours() {
    assert_eq!(aci_string_to_color("0"), AciColor::ByBlock);
    assert_eq!(aci_string_to_color("256"), AciColor::ByLayer);
    assert_eq!(aci_string_to_color(" 42 "), AciColor::Index(42));
    assert_eq!(aci_string_to_color("+3"), AciColor::Index(3));
    assert_eq!(aci_string_to_color("300"), AciColor::ByLayer);
    assert_eq!(aci_string_to_color("-1"), AciColor::ByLayer);
    assert_eq!(aci_string_to_color("red"), AciColor::ByLayer);
    assert_eq!(aci_string_to_color("99999"), AciColor::ByLayer);
}

#[test]
fn aci_colours_round_trip() {
    for i in 1..=255u8 {
        let c = AciColor::Index(i);
        assert_eq!(aci_string_to_color(&color_to_aci_string(c)), c);
    }
    for c in [AciColor::ByBlock, AciColor::ByLayer] {
        assert_eq!(aci_string_to_color(&color_to_aci_string(c)), c);
    }
    let rgb = AciColor::Rgb { r: 10, g: 20, b: 30 };
    assert_eq!(aci_string_to_color(&color_to_aci_string(rgb)), AciColor::ByLayer);
}

#[test]
fn colour_extras_default_to_none() {
    let e = ColorExtras::default();
    assert!(!e.by_layer && !e.by_block);
}

#[test]
fn named_colours_follow_the_extras() {
    let standard: Vec<AciColor> = (1u8..=9).map(AciColor::Index).collect();
    assert_eq!(named_colors(ColorExtras::default()), standard);
    let mut both = vec![AciColor::ByLayer, AciColor::ByBlock];
    both.extend(standard.iter().copied());
    assert_eq!(named_colors(ColorExtras { by_layer: true, by_block: true }), both);
    let only_block = named_colors(ColorExtras { by_layer: false, by_block: true });
    assert_eq!(only_block.len(), 10);
    assert_eq!(only_block[0], AciColor::ByBlock);
    assert_eq!(only_block[9], AciColor::Index(9));
    let only_layer = named_colors(ColorExtras { by_layer: true, by_block: false });
    assert_eq!(only_layer[0], AciColor::ByLayer);
    assert_eq!(only_layer[1], AciColor::Index(1));
}

#[test]
fn palette_lays_out_indices_one_to_255_in_rows_of_sixteen() {
    let rows = palette_rows();
    assert_eq!(PALETTE_COLUMNS, 16);
    assert_eq!(rows.len(), 16);
    for r in &rows[..15] {
        assert_eq!(r.len(), 16);
    }
    assert_eq!(rows[15].len(), 15);
    assert_eq!(rows[0][0], AciColor::Index(1));
    assert_eq!(rows[1][0], AciColor::Index(17));
    assert_eq!(rows[15][14], AciColor::Index(255));
    let all: Vec<AciColor> = rows.into_iter().flatten().collect();
    let expected: Vec<AciColor> = (1u8..=255).map(AciColor::Index).collect();
    assert_eq!(all, expected);
}
