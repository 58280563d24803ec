use newton_fractal::coord::{parse_coord, validate_coord, COORD_SCALE};

#[test]
fn validate_accepts_ordered_corners() {
    assert!(validate_coord(String::from("-1,-1;1,1")).is_ok());
    assert!(validate_coord(String::from("0,0;2,2")).is_ok());
    assert!(validate_coord(String::from(" -1.5 , -2.25 ; 0.5 , 3 ")).is_ok());
}

#[test]
fn validate_rejects_bad_shape() {
    let err = validate_coord(String::from("1,2")).unwrap_err();
    assert_eq!(err, "Неправильный формат координат");
    assert!(validate_coord(String::from("1;2;3")).is_err());
    assert!(validate_coord(String::from("1,2,3;4,5")).is_err());
    assert!(validate_coord(String::from("")).is_err());
}

#[test]
fn validate_rejects_non_numbers() {
    let err = validate_coord(String::from("a,b;c,d")).unwrap_err();
    assert_eq!(err, "Координаты должны быть числами");
    assert!(validate_coord(String::from("--1,2;3,4")).is_err());
}

#[test]
fn validate_rejects_unordered_corners() {
    let err = validate_coord(String::from("1,1;-1,-1")).unwrap_err();
    assert_eq!(err, "Конечные координаты должны быть больше начальных");
    assert!(validate_coord(String::from("0,0;0,1")).is_err());
    assert!(validate_coord(String::from("0,0;1,0")).is_err());
}

#[test]
fn parse_coord_exact_fixed_point() {
    let (x1, y1, x2, y2) = parse_coord("-1,-1;1,1").unwrap();
    assert_eq!((x1, y1, x2, y2), (-COORD_SCALE, -COORD_SCALE, COORD_SCALE, COORD_SCALE));
    let (x1, y1, x2, y2) = parse_coord("0.5,-0.25;2,3.125").unwrap();
    assert_eq!(x1, COORD_SCALE / 2);
    assert_eq!(y1, -COORD_SCALE / 4);
    assert_eq!(x2, 2 * COORD_SCALE);
    assert_eq!(y2, 3 * COORD_SCALE + COORD_SCALE / 8);
}

#[test]
fn parse_coord_truncates_deep_fractions() {
    // fraction digits beyond the ninth are truncated
    let (x1, _, _, _) = parse_coord("0.1234567891,0;1,1").unwrap();
    assert_eq!(x1, 123_456_789);
}
