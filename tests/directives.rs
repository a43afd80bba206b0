use ast_rs::comment::parse_comment_args;
use ast_rs::model::{Directive, MemberType, StructDecl, StructMember};

fn dir(k: &str, v: &str) -> Directive {
    Directive { key: k.to_string(), value: v.to_string() }
}

fn member(name: &str) -> StructMember {
    StructMember::new(name.to_string(), MemberType::Basic, "int".to_string())
}

#[test]
fn rename_then_transform_keeps_rename() {
    let mut m = member("someField");
    let unknown = m.apply_commands(&vec![dir("json_rename", "fooBar"), dir("json_transform", "snake_case")]);
    assert!(unknown.is_empty());
    assert_eq!(m.json_name, "fooBar");
    assert!(m.fixed_name);
}

#[test]
fn transform_then_rename_keeps_rename() {
    let mut m = member("someField");
    m.apply_commands(&vec![dir("json_transform", "snake_case"), dir("json_rename", "fooBar")]);
    assert_eq!(m.json_name, "fooBar");
    assert!(m.fixed_name);
}

#[test]
fn member_transform_converts_to_snake_case() {
    let mut m = member("someFieldName");
    m.apply_commands(&vec![dir("json_transform", "snake_case")]);
    assert_eq!(m.json_name, "some_field_name");
    assert_eq!(m.name, "someFieldName");
    assert!(m.fixed_name);
}

#[test]
fn dont_fail_and_tag_directives() {
    let mut m = member("x");
    m.apply_commands(&vec![dir("json_dont_fail_on_deserialization", "true"), dir("json_tag", "kind")]);
    assert!(m.dont_fail_on_deserialization);
    assert_eq!(m.tag, Some("kind".to_string()));
    m.apply_commands(&vec![dir("json_dont_fail_on_deserialization", "True")]);
    assert!(!m.dont_fail_on_deserialization);
}

#[test]
fn unknown_member_directives_are_reported() {
    let mut m = member("x");
    let unknown = m.apply_commands(&vec![dir("json_bogus", "1"), dir("json_transform", "camel"), dir("json_tag", "t")]);
    assert_eq!(unknown.len(), 2);
    assert_eq!(unknown[0].key, "json_bogus");
    assert_eq!(unknown[1].value, "camel");
    assert_eq!(m.json_name, "x");
    assert_eq!(m.tag, Some("t".to_string()));
}

#[test]
fn struct_transform_skips_fixed_members() {
    let mut d = StructDecl::new("Foo".to_string());
    let mut a = member("barBaz");
    a.apply_commands(&vec![dir("json_rename", "renamedKey")]);
    d.members.push(a);
    d.members.push(member("otherField"));
    let unknown = d.apply_commands(&vec![dir("json_transform", "snake_case"), dir("nope", "x")]);
    assert_eq!(unknown.len(), 1);
    assert_eq!(d.members[0].json_name, "renamedKey");
    assert_eq!(d.members[1].json_name, "other_field");
    assert!(!d.members[1].fixed_name);
    assert_eq!(d.full_name, "Foo");
}

#[test]
fn struct_inner_root_changes_nothing_else() {
    let mut d = StructDecl::new("Foo".to_string());
    d.members.push(member("someField"));
    let unknown = d.apply_commands(&vec![dir("json_inner", "data")]);
    assert!(unknown.is_empty());
    assert_eq!(d.inner_root, "data");
    assert_eq!(d.full_name, "Foo");
    assert_eq!(d.members.len(), 1);
    assert_eq!(d.members[0].json_name, "someField");
    assert_eq!(d.members[0].name, "someField");
}

#[test]
fn comment_lines_become_directives() {
    let ds = parse_comment_args("/// json_rename=baz\n/// json_transform=snake_case\n/// plain text\n");
    assert_eq!(ds.len(), 2);
    assert_eq!((ds[0].key.as_str(), ds[0].value.as_str()), ("json_rename", "baz"));
    assert_eq!((ds[1].key.as_str(), ds[1].value.as_str()), ("json_transform", "snake_case"));
}

#[test]
fn comment_splits_at_first_equals_and_trims_ends() {
    let ds = parse_comment_args("//////  a = b=c  \r\n\n=x\nno_equals");
    assert_eq!(ds.len(), 2);
    assert_eq!(ds[0].key, "a ");
    assert_eq!(ds[0].value, " b=c");
    assert_eq!(ds[1].key, "");
    assert_eq!(ds[1].value, "x");
    assert!(parse_comment_args("").is_empty());
}

#[test]
fn indented_comment_lines_are_read() {
    let ds = parse_comment_args("/// json_rename=baz\n    /// json_tag=x\n\t///json_inner = y");
    assert_eq!(ds.len(), 3);
    assert_eq!((ds[0].key.as_str(), ds[0].value.as_str()), ("json_rename", "baz"));
    assert_eq!((ds[1].key.as_str(), ds[1].value.as_str()), ("json_tag", "x"));
    assert_eq!((ds[2].key.as_str(), ds[2].value.as_str()), ("json_inner ", " y"));
}
