use newton_fractal::color::Color;
use newton_fractal::palette::{get_palette, validate_palette};

// P-interpolation: `#000000-(2)>#FFFFFF` gives the exact four-step table
// plus default black.
#[test]
fn interpolation_table_exact() {
    let (table, default) = get_palette("#000000-(2)>#FFFFFF");
    assert_eq!(
        table,
        vec![Color(0, 0, 0), Color(85, 85, 85), Color(170, 170, 170), Color(255, 255, 255)]
    );
    assert_eq!(default, Color(0, 0, 0));
}

#[test]
fn default_separator_sets_default() {
    let (table, default) = get_palette("#ff0000 |> #123456");
    assert_eq!(table, vec![Color(0xff, 0, 0)]);
    assert_eq!(default, Color(0x12, 0x34, 0x56));
}

#[test]
fn simple_separator_concatenates() {
    let (table, default) = get_palette("#ff0000>#00ff00>#0000ff");
    assert_eq!(table, vec![Color(255, 0, 0), Color(0, 255, 0), Color(0, 0, 255)]);
    assert_eq!(default, Color(0, 0, 0));
}

#[test]
fn hidden_color_anchors_but_stays_out() {
    let (table, default) = get_palette("[#000000]-(2)>#666666");
    // the hidden black anchors the gradient but is not in the table
    assert_eq!(table.len(), 3);
    assert_eq!(table[2], Color(0x66, 0x66, 0x66));
    // interpolation anchored at hidden black: thirds of 0x66 = 102
    assert_eq!(table[0], Color(34, 34, 34));
    assert_eq!(table[1], Color(68, 68, 68));
    assert_eq!(default, Color(0, 0, 0));
}

#[test]
fn upper_and_lower_hex_digits() {
    let (table, _) = get_palette("#AbCdEf");
    assert_eq!(table, vec![Color(0xab, 0xcd, 0xef)]);
}

#[test]
fn validate_accepts_palette_rule() {
    assert!(validate_palette(String::from("#ff0000")).is_ok());
    assert!(validate_palette(String::from("#ff0000>#00ff00")).is_ok());
    assert!(validate_palette(String::from("#ff0000-(3)>#00ff00")).is_ok());
    assert!(validate_palette(String::from("#ff0000 |> #123456")).is_ok());
    assert!(validate_palette(String::from("[#ff0000]>#00ff00")).is_ok());
}

#[test]
fn validate_rejects_malformed() {
    assert!(validate_palette(String::from("")).is_err());
    assert!(validate_palette(String::from("#ff00")).is_err());
    assert!(validate_palette(String::from("#ff0000>")).is_err());
    assert!(validate_palette(String::from("red")).is_err());
    assert!(validate_palette(String::from("#ff0000-(0)>#00ff00")).is_err());
    assert!(validate_palette(String::from("#ff0000-()>#00ff00")).is_err());
}

#[test]
fn default_lost_after_later_separator() {
    // the fold keeps only the latest default state: a separator after a
    // default drops it again
    let (table, default) = get_palette("#ff0000 |> #123456 > #00ff00");
    assert_eq!(table, vec![Color(255, 0, 0), Color(0, 255, 0)]);
    assert_eq!(default, Color(0, 0, 0));
}
