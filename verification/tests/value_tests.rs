use f90nmlrs::fortran_types::formatting::FormatOptions;
use f90nmlrs::fortran_types::parsing::{
    infer_fortran_type, looks_like_integer, looks_like_real, parse_character, parse_complex,
    parse_fortran_value, parse_integer, parse_logical, parse_real, parse_repeat_expression,
    parse_value_list, validate_parsed_value, ValueConstraints,
};
use f90nmlrs::fortran_types::realnum::{make_real, RealValue};
use f90nmlrs::FortranValue;

fn dec(neg: bool, digits: Vec<u8>, exp: i64) -> RealValue {
    make_real(neg, digits, exp)
}

#[test]
fn test_infer_types() {
    assert_eq!(infer_fortran_type("4184.d0"), "real");
    assert_eq!(infer_fortran_type("42"), "integer");
    assert_eq!(infer_fortran_type(".true."), "logical");
    assert_eq!(infer_fortran_type("'hello'"), "character");
    assert_eq!(infer_fortran_type("(1.0, 2.0)"), "complex");
}

#[test]
fn test_looks_like_functions() {
    assert!(looks_like_real("4184.d0"));
    assert!(looks_like_real("1.5"));
    assert!(looks_like_real("1e5"));
    assert!(looks_like_real("inf"));
    assert!(!looks_like_real("42"));
    assert!(!looks_like_real(".true."));

    assert!(looks_like_integer("42"));
    assert!(looks_like_integer("-123"));
    assert!(looks_like_integer("42_i8"));
    assert!(!looks_like_integer("4.2"));
    assert!(!looks_like_integer(".true."));
}

#[test]
fn test_type_inference() {
    assert_eq!(infer_fortran_type("42"), "integer");
    assert_eq!(infer_fortran_type("3.14"), "real");
    assert_eq!(infer_fortran_type("(1.0, 2.0)"), "complex");
    assert_eq!(infer_fortran_type(".true."), "logical");
    assert_eq!(infer_fortran_type("'hello'"), "character");
    assert_eq!(infer_fortran_type("hello"), "character");
    assert_eq!(infer_fortran_type(""), "null");
}

#[test]
fn test_integer_parsing() {
    assert_eq!(parse_integer("42").unwrap(), FortranValue::Integer(42));
    assert_eq!(parse_integer("-123").unwrap(), FortranValue::Integer(-123));
    assert_eq!(parse_integer("42_int64").unwrap(), FortranValue::Integer(42));
    assert!(parse_integer("3.14").is_err());
}

#[test]
fn test_real_parsing() {
    assert_eq!(
        parse_real("3.14").unwrap(),
        FortranValue::Real(dec(false, vec![3, 1, 4], -2))
    );
    assert_eq!(
        parse_real("1.23e4").unwrap(),
        FortranValue::Real(dec(false, vec![1, 2, 3], 2))
    );
    assert_eq!(
        parse_real("1.23d4").unwrap(),
        FortranValue::Real(dec(false, vec![1, 2, 3], 2))
    );
    assert_eq!(
        parse_real("1.0_real64").unwrap(),
        FortranValue::Real(dec(false, vec![1], 0))
    );
    assert_eq!(parse_real("+inf").unwrap(), FortranValue::Real(RealValue::PosInf));
    assert_eq!(parse_real("-inf").unwrap(), FortranValue::Real(RealValue::NegInf));
    assert!(matches!(
        parse_real("nan").unwrap(),
        FortranValue::Real(RealValue::NaN)
    ));
}

#[test]
fn test_parse_double_precision_notation() {
    assert_eq!(
        parse_real("4184.d0").unwrap(),
        FortranValue::Real(dec(false, vec![4, 1, 8, 4], 0))
    );
    assert_eq!(parse_real("1.0d0").unwrap(), FortranValue::Real(dec(false, vec![1], 0)));
    assert_eq!(parse_real("1d5").unwrap(), FortranValue::Real(dec(false, vec![1], 5)));
    assert_eq!(
        parse_real("2.5D-3").unwrap(),
        FortranValue::Real(dec(false, vec![2, 5], -4))
    );
    assert_eq!(
        parse_real("-1.23d+2").unwrap(),
        FortranValue::Real(dec(true, vec![1, 2, 3], 0))
    );
    assert_eq!(parse_real("1.5D0").unwrap(), FortranValue::Real(dec(false, vec![1, 5], -1)));
}

#[test]
fn test_parse_real_with_kind_specifiers() {
    assert_eq!(parse_real("1.0_dp").unwrap(), FortranValue::Real(dec(false, vec![1], 0)));
    assert_eq!(parse_real("2.5d0_8").unwrap(), FortranValue::Real(dec(false, vec![2, 5], -1)));
    assert_eq!(parse_real("1e5_real64").unwrap(), FortranValue::Real(dec(false, vec![1], 5)));
}

#[test]
fn test_complex_parsing() {
    let result = parse_complex("(1.0, 2.0)").unwrap();
    assert_eq!(
        result,
        FortranValue::Complex(dec(false, vec![1], 0), dec(false, vec![2], 0))
    );

    let result = parse_complex("(1.5e2, -3.7d-1)").unwrap();
    assert_eq!(
        result,
        FortranValue::Complex(dec(false, vec![1, 5], 1), dec(true, vec![3, 7], -2))
    );

    assert!(parse_complex("1.0, 2.0").is_err());
    assert!(parse_complex("(1.0)").is_err());
}

#[test]
fn test_logical_parsing() {
    assert_eq!(parse_logical(".true.").unwrap(), FortranValue::Logical(true));
    assert_eq!(parse_logical(".T.").unwrap(), FortranValue::Logical(true));
    assert_eq!(parse_logical("true").unwrap(), FortranValue::Logical(true));
    assert_eq!(parse_logical("T").unwrap(), FortranValue::Logical(true));

    assert_eq!(parse_logical(".false.").unwrap(), FortranValue::Logical(false));
    assert_eq!(parse_logical(".F.").unwrap(), FortranValue::Logical(false));
    assert_eq!(parse_logical("false").unwrap(), FortranValue::Logical(false));
    assert_eq!(parse_logical("F").unwrap(), FortranValue::Logical(false));

    assert_eq!(parse_logical(".TRUE.").unwrap(), FortranValue::Logical(true));
    assert_eq!(parse_logical(".t").unwrap(), FortranValue::Logical(true));
}

#[test]
fn test_character_parsing() {
    assert_eq!(
        parse_character("'hello'"),
        FortranValue::Character("hello".to_string())
    );
    assert_eq!(
        parse_character("\"world\""),
        FortranValue::Character("world".to_string())
    );
    assert_eq!(
        parse_character("'don''t'"),
        FortranValue::Character("don't".to_string())
    );
    assert_eq!(
        parse_character("\"say \"\"hello\"\"\""),
        FortranValue::Character("say \"hello\"".to_string())
    );
    assert_eq!(
        parse_character("unquoted"),
        FortranValue::Character("unquoted".to_string())
    );
}

#[test]
fn test_fortran_string_formatting() {
    let options = FormatOptions::default();

    assert_eq!(
        FortranValue::Integer(42).to_fortran_string_with_options(&options),
        "42"
    );
    assert_eq!(
        FortranValue::Real(dec(false, vec![3, 1, 4], -2)).to_fortran_string_with_options(&options),
        "3.14"
    );
    assert_eq!(
        FortranValue::Complex(dec(false, vec![1], 0), dec(false, vec![2], 0))
            .to_fortran_string_with_options(&options),
        "(1.0, 2.0)"
    );
    assert_eq!(FortranValue::Logical(true).to_fortran_string(false), ".true.");
    assert_eq!(FortranValue::Logical(true).to_fortran_string(true), ".TRUE.");
    assert_eq!(
        FortranValue::Character("test".to_string()).to_fortran_string_with_options(&options),
        "'test'"
    );
}

#[test]
fn test_array_repeat_formatting() {
    let values = vec![
        FortranValue::Integer(1),
        FortranValue::Integer(2),
        FortranValue::Integer(2),
        FortranValue::Integer(2),
        FortranValue::Integer(3),
    ];

    let options = FormatOptions::default();
    let result = FortranValue::format_array_with_repeats(&values, &options);
    assert_eq!(result, "1, 3*2, 3");
}

#[test]
fn test_type_conversions() {
    let val = FortranValue::Integer(42);
    assert_eq!(val.as_integer().unwrap(), 42);
    assert_eq!(val.as_real().unwrap(), dec(false, vec![4, 2], 0));
    assert_eq!(
        val.as_complex().unwrap(),
        (dec(false, vec![4, 2], 0), dec(false, vec![], 0))
    );

    let val = FortranValue::Real(dec(false, vec![3, 1, 4], -2));
    assert_eq!(val.as_real().unwrap(), dec(false, vec![3, 1, 4], -2));
    assert!(val.as_integer().is_err());

    let val = FortranValue::Real(dec(false, vec![4, 2], 0));
    assert_eq!(val.as_integer().unwrap(), 42);

    let val = FortranValue::Real(dec(false, vec![1], 20));
    assert!(val.as_integer().is_err());
}

#[test]
fn test_conversion_checking() {
    let int_val = FortranValue::Integer(42);
    assert!(int_val.can_convert_to("real"));
    assert!(int_val.can_convert_to("complex"));
    assert!(int_val.can_convert_to("integer"));
    assert!(!int_val.can_convert_to("logical"));

    let real_val = FortranValue::Real(dec(false, vec![3, 1, 4], -2));
    assert!(!real_val.can_convert_to("integer"));
    assert!(real_val.can_convert_to("complex"));

    let real_int = FortranValue::Real(dec(false, vec![4, 2], 0));
    assert!(real_int.can_convert_to("integer"));
}

#[test]
fn test_auto_type_detection() {
    assert_eq!(
        parse_fortran_value("42", None).unwrap(),
        FortranValue::Integer(42)
    );
    assert_eq!(
        parse_fortran_value("3.14", None).unwrap(),
        FortranValue::Real(dec(false, vec![3, 1, 4], -2))
    );
    assert_eq!(
        parse_fortran_value(".true.", None).unwrap(),
        FortranValue::Logical(true)
    );
    assert_eq!(
        parse_fortran_value("(1.0, 2.0)", None).unwrap(),
        FortranValue::Complex(dec(false, vec![1], 0), dec(false, vec![2], 0))
    );
    assert_eq!(
        parse_fortran_value("hello", None).unwrap(),
        FortranValue::Character("hello".to_string())
    );
}

#[test]
fn test_detection_precedence() {
    assert_eq!(
        parse_fortran_value("t", None).unwrap(),
        FortranValue::Logical(true)
    );
    assert_eq!(
        parse_fortran_value("1d-5", None).unwrap(),
        FortranValue::Real(dec(false, vec![1], -5))
    );
    assert_eq!(
        parse_fortran_value("42", None).unwrap(),
        FortranValue::Integer(42)
    );
    assert_eq!(
        parse_fortran_value("(1.0,2.0)", None).unwrap(),
        FortranValue::Complex(dec(false, vec![1], 0), dec(false, vec![2], 0))
    );
    assert_eq!(parse_fortran_value("", None).unwrap(), FortranValue::Null);
}

#[test]
fn test_auto_detection_order() {
    let val = parse_fortran_value("4184.d0", None).unwrap();
    assert!(matches!(val, FortranValue::Real(_)));

    let val = parse_fortran_value("42", None).unwrap();
    assert!(matches!(val, FortranValue::Integer(_)));
}

#[test]
fn test_edge_cases() {
    assert_eq!(parse_fortran_value("", None).unwrap(), FortranValue::Null);
    assert_eq!(parse_fortran_value("   ", None).unwrap(), FortranValue::Null);

    let large_int = "9223372036854775807";
    assert!(parse_integer(large_int).is_ok());

    assert!(matches!(
        parse_real("inf").unwrap(),
        FortranValue::Real(RealValue::PosInf)
    ));
    assert!(matches!(
        parse_real("nan").unwrap(),
        FortranValue::Real(RealValue::NaN)
    ));

    assert!(parse_complex("(1.0)").is_err());
    assert!(parse_complex("1.0, 2.0").is_err());
    assert!(parse_complex("(1.0, 2.0, 3.0)").is_err());
}

#[test]
fn test_value_round_trip_formatting() {
    let cases = vec!["42", "-7", "3.14", "0.0025", ".true.", "'hi there'"];
    for case in cases {
        let v = parse_fortran_value(case, None).unwrap();
        let text = v.to_fortran_string(false);
        let v2 = parse_fortran_value(&text, None).unwrap();
        assert_eq!(v, v2, "round trip through {}", case);
    }
}

#[test]
fn test_with_repeat_count() {
    assert_eq!(FortranValue::Integer(7).with_repeat_count(3), "3*7");
    assert_eq!(FortranValue::Integer(7).with_repeat_count(1), "7");
}

#[test]
fn test_parse_value_list() {
    let result = parse_value_list("1, 2, 3", Some("integer")).unwrap();
    assert_eq!(result.len(), 3);
    assert_eq!(result[0], FortranValue::Integer(1));
    assert_eq!(result[1], FortranValue::Integer(2));
    assert_eq!(result[2], FortranValue::Integer(3));

    let result = parse_value_list("1, , 3", Some("integer")).unwrap();
    assert_eq!(result.len(), 3);
    assert_eq!(result[0], FortranValue::Integer(1));
    assert_eq!(result[1], FortranValue::Null);
    assert_eq!(result[2], FortranValue::Integer(3));

    let result = parse_value_list("'hello, world', 'test'", Some("character")).unwrap();
    assert_eq!(result.len(), 2);
    assert_eq!(result[0], FortranValue::Character("hello, world".to_string()));
    assert_eq!(result[1], FortranValue::Character("test".to_string()));

    let result = parse_value_list("(1.0, 2.0), (3.0, 4.0)", Some("complex")).unwrap();
    assert_eq!(result.len(), 2);
    assert_eq!(
        result[0],
        FortranValue::Complex(dec(false, vec![1], 0), dec(false, vec![2], 0))
    );
    assert_eq!(
        result[1],
        FortranValue::Complex(dec(false, vec![3], 0), dec(false, vec![4], 0))
    );
}

#[test]
fn test_parse_repeat_expression() {
    let (count, value) = parse_repeat_expression("3*42").unwrap();
    assert_eq!(count, 3);
    assert_eq!(value, FortranValue::Integer(42));

    let (count, value) = parse_repeat_expression("5*.true.").unwrap();
    assert_eq!(count, 5);
    assert_eq!(value, FortranValue::Logical(true));

    let (count, value) = parse_repeat_expression("42").unwrap();
    assert_eq!(count, 1);
    assert_eq!(value, FortranValue::Integer(42));

    let (count, value) = parse_repeat_expression("3*").unwrap();
    assert_eq!(count, 3);
    assert_eq!(value, FortranValue::Null);
}

#[test]
fn test_value_list_empty_input() {
    assert_eq!(parse_value_list("", None).unwrap().len(), 0);
    assert_eq!(parse_value_list("   ", None).unwrap().len(), 0);
    let trailing = parse_value_list("1,", None).unwrap();
    assert_eq!(trailing, vec![FortranValue::Integer(1), FortranValue::Null]);
}

#[test]
fn test_value_constraints() {
    let constraints = ValueConstraints::new()
        .with_integer_range(-100, 100)
        .with_real_range(
            make_real(false, vec![], 0),
            make_real(false, vec![1], 0),
        )
        .with_max_string_length(10)
        .with_max_array_length(5);

    let valid_int = FortranValue::Integer(50);
    assert!(validate_parsed_value(&valid_int, &constraints).is_ok());

    let valid_real = FortranValue::Real(make_real(false, vec![5], -1));
    assert!(validate_parsed_value(&valid_real, &constraints).is_ok());

    let valid_string = FortranValue::Character("hello".to_string());
    assert!(validate_parsed_value(&valid_string, &constraints).is_ok());

    let invalid_int = FortranValue::Integer(200);
    assert!(validate_parsed_value(&invalid_int, &constraints).is_err());

    let invalid_real = FortranValue::Real(make_real(false, vec![2], 0));
    assert!(validate_parsed_value(&invalid_real, &constraints).is_err());

    let invalid_string = FortranValue::Character("this string is too long".to_string());
    assert!(validate_parsed_value(&invalid_string, &constraints).is_err());

    let invalid_array = FortranValue::Array(vec![
        FortranValue::Integer(1),
        FortranValue::Integer(2),
        FortranValue::Integer(3),
        FortranValue::Integer(4),
        FortranValue::Integer(5),
        FortranValue::Integer(6),
    ]);
    assert!(validate_parsed_value(&invalid_array, &constraints).is_err());
}

#[test]
fn test_real_signed_order() {
    let minus_two = make_real(true, vec![2], 0);
    let zero = make_real(false, vec![], 0);
    let one_half = make_real(false, vec![5], -1);
    assert!(minus_two.real_lt(&zero));
    assert!(minus_two.real_lt(&one_half));
    assert!(zero.real_lt(&one_half));
    assert!(!one_half.real_lt(&zero));
    assert!(!zero.real_lt(&zero));
    assert!(RealValue::NegInf.real_lt(&zero));
    assert!(zero.real_lt(&RealValue::PosInf));
    assert!(!RealValue::NaN.real_lt(&zero));
    assert!(!zero.real_lt(&RealValue::NaN));
}

#[test]
fn test_reads_rejects_missing_assignment_mark() {
    assert!(f90nmlrs::reads("&g\n x 1\n/\n").is_err());
    assert!(f90nmlrs::reads("&g\n x = 1\n/\n").is_ok());
}

#[test]
fn test_patch_string_rejects_lexical_error() {
    let patch = f90nmlrs::Namelist::new();
    assert!(f90nmlrs::patch_string("&g\n s = 'open\n", &patch).is_err());
}
