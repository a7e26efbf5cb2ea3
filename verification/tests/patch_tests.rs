use f90nmlrs::fortran_types::realnum::make_real;
use f90nmlrs::namelist::{append_values, merge_values, MergeStrategy, NamelistGroup};
use f90nmlrs::{patch, patch_string, reads, FortranValue, Namelist, WriteOptions};

fn whole(n: i64) -> FortranValue {
    FortranValue::Integer(n)
}

#[test]
fn test_reads_simple() {
    let nml_str = "&data_nml x=1 y=2.0 z=.true. /";
    let nml = reads(nml_str).unwrap();

    let group = nml.get_group("data_nml").unwrap();
    assert_eq!(group.get("x"), Some(&FortranValue::Integer(1)));
    assert_eq!(
        group.get("y"),
        Some(&FortranValue::Real(make_real(false, vec![2], 0)))
    );
    assert_eq!(group.get("z"), Some(&FortranValue::Logical(true)));
}

#[test]
fn test_write_simple() {
    let mut nml = Namelist::new();
    nml.insert_value("data_nml", "x", whole(1));
    nml.insert_value("data_nml", "y", FortranValue::Real(make_real(false, vec![2], 0)));
    nml.insert_value("data_nml", "enabled", FortranValue::Logical(true));

    let output = nml.to_fortran_string(&WriteOptions::default()).unwrap();
    assert!(output.contains("&data_nml"));
    assert!(output.contains("x = 1"));
    assert!(output.contains("y = 2"));
    assert!(output.contains("enabled = .true."));
    assert!(output.contains("/"));
}

#[test]
fn test_patch() {
    let original_str = "&data_nml x=1 y=2.0 /";
    let original = reads(original_str).unwrap();

    let mut patch_nml = Namelist::new();
    patch_nml.insert_value("data_nml", "x", whole(42));

    let patched = patch(&original, &patch_nml).unwrap();
    let group = patched.get_group("data_nml").unwrap();

    assert_eq!(group.get("x"), Some(&whole(42)));
    assert_eq!(
        group.get("y"),
        Some(&FortranValue::Real(make_real(false, vec![2], 0)))
    );
}

#[test]
fn test_streaming_patch_to_writer() {
    let original_content = "&data_nml x=1 y=2.0 /";

    let mut changes = Namelist::new();
    changes.insert_value("data_nml", "x", whole(42));

    let (result, _) = patch_string(original_content, &changes).unwrap();

    assert!(result.contains("x = 42") || result.contains("x=42"));
    assert!(result.contains("y = 2.0") || result.contains("y=2.0"));
}

#[test]
fn test_streaming_patch_with_comments() {
    let original_content = "&data_nml  ! group comment\n    x = 1,  ! inline comment\n    y = 2.0\n/";

    let mut changes = Namelist::new();
    changes.insert_value("data_nml", "x", whole(42));
    changes.insert_value("data_nml", "new_var", FortranValue::Character("hello".to_string()));

    let (result, _) = patch_string(original_content, &changes).unwrap();

    assert!(result.contains("! group comment"));
    assert!(result.contains("! inline comment"));
    assert!(result.contains("42"));
    assert!(result.contains("2.0"));
    assert!(result.contains("new_var"));
    assert!(result.contains("hello"));
}

#[test]
fn debug_patch_preserves_comments() {
    let original_content = "&data_nml  ! group comment\n    x = 1,  ! inline comment\n    y = 2.0\n/";

    let mut changes = Namelist::new();
    changes.insert_value("data_nml", "x", whole(42));

    let (result, _) = patch_string(original_content, &changes).unwrap();

    assert!(result.contains("! group comment"), "Should preserve group comment");
    assert!(result.contains("! inline comment"), "Should preserve inline comment");
    assert!(result.contains("42"), "Should update x value");
    assert!(result.contains("2.0"), "Should preserve y value");
    assert!(result.contains("    y = 2.0"), "Should keep the y line's indentation");
}

#[test]
fn debug_patch_adds_new_variables() {
    let original_content = "&data_nml\n    x = 1\n    y = 2.0\n/";

    let mut changes = Namelist::new();
    changes.insert_value("data_nml", "new_var", FortranValue::Character("hello".to_string()));

    let (result, _) = patch_string(original_content, &changes).unwrap();

    assert!(result.contains("new_var"), "Should add new variable");
    assert!(result.contains("hello"), "Should add new variable value");
    assert!(result.contains("x = 1"), "Should preserve x");
    assert!(result.contains("y = 2.0"), "Should preserve y");

    let close = result.rfind('/').unwrap();
    let added = result.find("new_var").unwrap();
    assert!(added < close, "New variable should come before the group close");
}

#[test]
fn debug_complex_patch_scenario() {
    let original_content = "&physics_nml  ! Physics configuration\n    dt = 0.1,     ! time step\n    gravity = 9.8,\n    damping = 0.01\n/\n\n&output_nml\n    format = 'netcdf',\n    frequency = 10\n/";

    let mut changes = Namelist::new();
    changes.insert_value("physics_nml", "dt", FortranValue::Real(make_real(false, vec![5], -2)));
    changes.insert_value("physics_nml", "new_param", FortranValue::Logical(true));
    changes.insert_value("output_nml", "format", FortranValue::Character("hdf5".to_string()));
    changes.insert_value("new_group", "test_var", whole(123));

    let (result, _) = patch_string(original_content, &changes).unwrap();

    assert!(result.contains("dt = 0.05") || result.contains("dt=0.05"), "Should update dt");
    assert!(result.contains("new_param"), "Should add new_param");
    assert!(
        result.contains("format = 'hdf5'") || result.contains("format=\"hdf5\""),
        "Should update format"
    );
    assert!(result.contains("new_group"), "Should add new group");
    assert!(result.contains("test_var"), "Should add test_var");

    assert!(result.contains("! Physics configuration"), "Should preserve group comment");
    assert!(result.contains("! time step"), "Should preserve inline comment");
    assert!(result.contains("gravity = 9.8"), "Should preserve gravity");
    assert!(result.contains("damping = 0.01"), "Should preserve damping");
    assert!(result.contains("frequency = 10"), "Should preserve frequency");
}

#[test]
fn debug_roundtrip_parsing() {
    let original_content = "&test_nml\n    x = 1\n    y = 2.0\n    z = .true.\n    name = 'hello world'\n/";

    let nml = reads(original_content).unwrap();
    let output = nml.to_fortran_string(&WriteOptions::default()).unwrap();
    let nml2 = reads(&output).unwrap();

    assert_eq!(nml, nml2, "Roundtrip should preserve content");
}

#[test]
fn test_identity_patch_is_byte_exact() {
    let original_content = "&a_nml  ! kept\n   x = 1,, y = 'q''t'  # other\n/\nstray &b_nml v=2/";
    let changes = Namelist::new();
    let (result, _) = patch_string(original_content, &changes).unwrap();
    assert_eq!(result, original_content);
}

#[test]
fn test_merge_matrix() {
    let existing = whole(5);
    let incoming = FortranValue::Array(vec![whole(1), whole(2)]);
    let merged = merge_values(&existing, &incoming).unwrap();
    assert_eq!(merged, FortranValue::Array(vec![whole(5), whole(1), whole(2)]));

    let mut target = NamelistGroup::new();
    target.insert_value("a", FortranValue::Array(vec![whole(1), whole(2)]));
    let mut other = NamelistGroup::new();
    other.insert_value("a", FortranValue::Array(vec![whole(3)]));
    target.merge_with_strategy(&other, MergeStrategy::Append).unwrap();
    assert_eq!(
        target.get("a"),
        Some(&FortranValue::Array(vec![whole(1), whole(2), whole(3)]))
    );
}

#[test]
fn test_append_values_scalars() {
    let merged = append_values(&whole(1), &whole(2)).unwrap();
    assert_eq!(merged, FortranValue::Array(vec![whole(1), whole(2)]));

    let merged = append_values(&FortranValue::Array(vec![whole(1)]), &whole(2)).unwrap();
    assert_eq!(merged, FortranValue::Array(vec![whole(1), whole(2)]));
}

#[test]
fn test_skip_existing_strategy() {
    let mut target = NamelistGroup::new();
    target.insert_value("a", whole(1));
    let mut other = NamelistGroup::new();
    other.insert_value("a", whole(9));
    other.insert_value("b", whole(2));
    target.merge_with_strategy(&other, MergeStrategy::SkipExisting).unwrap();
    assert_eq!(target.get("a"), Some(&whole(1)));
    assert_eq!(target.get("b"), Some(&whole(2)));
}

#[test]
fn test_group_insert_is_idempotent_on_name() {
    let mut g = NamelistGroup::new();
    g.insert_value("X", whole(1));
    g.insert_value("x", whole(2));
    assert_eq!(g.len(), 1);
    assert_eq!(g.get("x"), Some(&whole(2)));
    assert_eq!(g.variable_names(), vec!["x".to_string()]);
}

#[test]
fn test_case_insensitive_groups() {
    let nml = reads("&Data_NML X=1 /").unwrap();
    assert!(nml.has_group("data_nml"));
    assert!(nml.has_group("DATA_nml"));
    let group = nml.get_group("data_nml").unwrap();
    assert_eq!(group.get("X"), Some(&whole(1)));
}

#[test]
fn test_empty_keys_and_largest() {
    let nml = reads("").unwrap();
    assert!(nml.is_empty());

    let nml = reads("&g x = 9223372036854775807 /").unwrap();
    assert_eq!(
        nml.get_group("g").unwrap().get("x"),
        Some(&whole(9223372036854775807))
    );
}
