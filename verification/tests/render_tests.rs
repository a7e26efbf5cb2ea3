use f90nmlrs::fortran_types::realnum::make_real;
use f90nmlrs::scanner::{BufferedFormattingPreserver, FormattingPreserver};
use f90nmlrs::{FortranValue, NamelistGroup, WriteOptions};

#[test]
fn test_derived_type_fields_render_per_line() {
    let mut group = NamelistGroup::new();
    let fields = vec![
        ("x".to_string(), FortranValue::Integer(1)),
        ("y".to_string(), FortranValue::Integer(2)),
    ];
    group.insert_value("pt", FortranValue::DerivedType(fields));
    let text = group.to_fortran_string(&WriteOptions::default()).unwrap();
    assert!(text.contains("pt%x = 1"));
    assert!(text.contains("pt%y = 2"));
    assert!(!text.contains("<derived_type>"));
}

#[test]
fn test_derived_type_array_renders_indexed_fields() {
    let mut group = NamelistGroup::new();
    let e1 = vec![("v".to_string(), FortranValue::Integer(7))];
    let e2 = vec![("v".to_string(), FortranValue::Integer(8))];
    group.insert_value("pts", FortranValue::DerivedTypeArray(vec![e1, e2]));
    let text = group.to_fortran_string(&WriteOptions::default()).unwrap();
    assert!(text.contains("pts(1)%v = 7"));
    assert!(text.contains("pts(2)%v = 8"));
}

#[test]
fn test_scalar_start_indices_render_in_header() {
    let mut group = NamelistGroup::new();
    group.insert_value("cell", FortranValue::Integer(9));
    group.set_start_indices("cell", vec![2, 3]);
    let text = group.to_fortran_string(&WriteOptions::default()).unwrap();
    assert!(text.contains("cell(2,3) = 9"));
}

#[test]
fn test_float_precision_renders_fixed_digits() {
    let mut group = NamelistGroup::new();
    group.insert_value("x", FortranValue::Real(make_real(false, vec![1, 5], -1)));
    let mut options = WriteOptions::default();
    options.float_precision = Some(3);
    let text = group.to_fortran_string(&options).unwrap();
    assert!(text.contains("1.500"), "got: {}", text);
}

#[test]
fn test_preserver_concatenation_round_trip() {
    let input = "&grid\n  nx = 4   ! cells\n/\n";
    let tokens = BufferedFormattingPreserver::new(input)
        .scan_all_with_formatting()
        .unwrap();
    let mut rebuilt = String::new();
    for t in &tokens {
        rebuilt.push_str(&t.token.lexeme);
        rebuilt.push_str(&t.trailing_whitespace);
    }
    assert_eq!(rebuilt, input);
    let tokens2 = FormattingPreserver::new(input)
        .scan_all_with_formatting()
        .unwrap();
    assert_eq!(tokens.len(), tokens2.len());
}

#[test]
fn test_preserver_rejects_unterminated_string() {
    let input = "&g\n s = 'open\n";
    assert!(BufferedFormattingPreserver::new(input)
        .scan_all_with_formatting()
        .is_err());
}
