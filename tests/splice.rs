use ast_rs::splice::{definition, implementation, replace_region, SpliceError};

const HEADER: &str = "#pragma once\n\nstruct Foo {};\n\n// DESERIALIZATION DEFINITION START\nold line 1\nold line 2\n// DESERIALIZATION DEFINITION END\n\n// trailing\n";

#[test]
fn definition_replaces_region() {
    let out = definition(HEADER, "NEW").unwrap();
    assert_eq!(
        out,
        "#pragma once\n\nstruct Foo {};\n\n// DESERIALIZATION DEFINITION START\nNEW\n// DESERIALIZATION DEFINITION END\n\n// trailing\n"
    );
}

#[test]
fn splice_twice_keeps_only_second_text() {
    let once = definition(HEADER, "X\nX2").unwrap();
    let twice = definition(&once, "Y").unwrap();
    assert_eq!(twice, definition(HEADER, "Y").unwrap());
    assert!(twice.contains("START\nY\n// DESERIALIZATION DEFINITION END"));
    assert!(twice.starts_with("#pragma once\n\nstruct Foo {};\n\n"));
    assert!(twice.ends_with("END\n\n// trailing\n"));
}

#[test]
fn splice_same_text_is_idempotent() {
    let once = definition(HEADER, "X").unwrap();
    let twice = definition(&once, "X").unwrap();
    assert_eq!(once, twice);
}

#[test]
fn missing_start_marker_fails() {
    let text = "struct Foo {};\n// DESERIALIZATION DEFINITION END\n";
    assert_eq!(definition(text, "X"), Err(SpliceError::MissingStartMarker));
    assert_eq!(definition("", "X"), Err(SpliceError::MissingStartMarker));
}

#[test]
fn unterminated_region_fails() {
    let text = "a\n// DESERIALIZATION DEFINITION START\nb\n";
    assert_eq!(definition(text, "X"), Err(SpliceError::UnterminatedRegion));
    let last = "a\n// DESERIALIZATION DEFINITION START";
    assert_eq!(definition(last, "X"), Err(SpliceError::UnterminatedRegion));
}

#[test]
fn markers_match_with_trailing_whitespace() {
    let text = "// DESERIALIZATION DEFINITION START  \r\nold\r\n// DESERIALIZATION DEFINITION END\t\r\nrest";
    let out = definition(text, "N").unwrap();
    assert_eq!(
        out,
        "// DESERIALIZATION DEFINITION START  \r\nN\n// DESERIALIZATION DEFINITION END\t\r\nrest"
    );
}

#[test]
fn leading_whitespace_does_not_match_marker() {
    let text = "  // DESERIALIZATION DEFINITION START\n// DESERIALIZATION DEFINITION END\n";
    assert_eq!(definition(text, "X"), Err(SpliceError::MissingStartMarker));
}

#[test]
fn implementation_uses_its_own_markers() {
    let text = "#include \"a.hpp\"\n// DESERIALIZATION IMPLEMENTATION START\n// DESERIALIZATION IMPLEMENTATION END\n";
    assert_eq!(
        implementation(text, "impl"),
        Ok("#include \"a.hpp\"\n// DESERIALIZATION IMPLEMENTATION START\nimpl\n// DESERIALIZATION IMPLEMENTATION END\n".to_string())
    );
    assert_eq!(definition(text, "impl"), Err(SpliceError::MissingStartMarker));
}

#[test]
fn first_end_marker_after_start_closes_region() {
    let text = "E\nS\nmid\nE\nafter\nE\n";
    assert_eq!(replace_region(text, "S", "E", "r"), Ok("E\nS\nr\nE\nafter\nE\n".to_string()));
}
