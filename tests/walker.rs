use ast_rs::classify::{classify_field, plain_type_spelling, ModelError};
use ast_rs::entity::{Entity, EntityKind, TypeInfo};
use ast_rs::model::MemberType;
use ast_rs::walker::{parse_decls, parse_member, parse_struct};

fn ent(kind: EntityKind, name: Option<&str>, children: Vec<Entity>) -> Entity {
    Entity {
        kind,
        name: name.map(|n| n.to_string()),
        in_main_file: true,
        comment: None,
        ty: None,
        children,
    }
}

fn ty(display: &str, is_const: bool, args: Option<Vec<Option<TypeInfo>>>) -> TypeInfo {
    TypeInfo { display_name: display.to_string(), is_const, template_args: args }
}

fn plain(display: &str) -> TypeInfo {
    ty(display, false, None)
}

fn wrap(display: &str, arg: TypeInfo) -> TypeInfo {
    ty(display, false, Some(vec![Some(arg)]))
}

fn tref(name: &str) -> Entity {
    ent(EntityKind::TemplateRef, Some(name), vec![])
}

fn typeref(display: &str, is_const: bool) -> Entity {
    let mut e = ent(EntityKind::TypeRef, None, vec![]);
    e.ty = Some(ty(display, is_const, None));
    e
}

fn field(name: &str, t: TypeInfo, children: Vec<Entity>, comment: Option<&str>) -> Entity {
    let mut e = ent(EntityKind::FieldDecl, Some(name), children);
    e.ty = Some(t);
    e.comment = comment.map(|c| c.to_string());
    e
}

fn foo_struct(comment: Option<&str>, field_comment: Option<&str>) -> Entity {
    let bar = field(
        "bar",
        wrap("std::optional<std::vector<int>>", wrap("std::vector<int>", plain("int"))),
        vec![ent(EntityKind::Other, Some("std"), vec![]), tref("optional"), tref("vector")],
        field_comment,
    );
    let mut s = ent(EntityKind::StructDecl, Some("Foo"), vec![bar]);
    s.comment = comment.map(|c| c.to_string());
    s
}

#[test]
fn classify_supported_shapes() {
    let t = wrap("W<Elem>", plain("Elem"));
    assert_eq!(classify_field(&t, &vec![]), Ok((MemberType::Basic, "Elem".to_string())));
    assert_eq!(classify_field(&t, &vec![tref("vector")]), Ok((MemberType::Vector, "Elem".to_string())));
    assert_eq!(classify_field(&t, &vec![tref("optional")]), Ok((MemberType::Optional, "Elem".to_string())));
    assert_eq!(
        classify_field(&t, &vec![tref("optional"), tref("vector"), typeref("const ns::Elem", true)]),
        Ok((MemberType::OptionalVector, "ns::Elem".to_string()))
    );
    assert_eq!(classify_field(&t, &vec![tref("map")]), Ok((MemberType::Basic, "Elem".to_string())));
}

#[test]
fn classify_deeper_nesting_fails() {
    let t = wrap("W<Elem>", plain("Elem"));
    assert_eq!(classify_field(&t, &vec![tref("vector"), tref("vector")]), Err(ModelError::UnsupportedNesting));
    assert_eq!(classify_field(&t, &vec![tref("optional"), tref("optional")]), Err(ModelError::UnsupportedNesting));
    assert_eq!(classify_field(&t, &vec![tref("vector"), tref("optional")]), Err(ModelError::UnsupportedNesting));
}

#[test]
fn classify_without_single_argument_is_basic() {
    let scalar = ty("const int", true, None);
    assert_eq!(classify_field(&scalar, &vec![tref("vector")]), Ok((MemberType::Basic, "int".to_string())));
    let two = ty("std::map<int, int>", false, Some(vec![Some(plain("int")), Some(plain("int"))]));
    assert_eq!(classify_field(&two, &vec![]), Ok((MemberType::Basic, "std::map<int, int>".to_string())));
}

#[test]
fn const_prefix_is_stripped_only_when_const() {
    assert_eq!(plain_type_spelling("const const Foo", true), "Foo");
    assert_eq!(plain_type_spelling("const Foo", false), "const Foo");
    assert_eq!(plain_type_spelling("constFoo", true), "constFoo");
}

#[test]
fn optional_vector_field_end_to_end() {
    let s = foo_struct(None, None);
    let d = parse_struct(&s, &mut vec![]).unwrap().unwrap();
    assert_eq!(d.full_name, "Foo");
    assert_eq!(d.inner_root, "");
    assert_eq!(d.members.len(), 1);
    let m = &d.members[0];
    assert_eq!(m.member_type, MemberType::OptionalVector);
    assert_eq!(m.element_type, "int");
    assert_eq!(m.name, "bar");
    assert_eq!(m.json_name, "bar");
    assert_eq!(m.tag, None);
    assert!(!m.dont_fail_on_deserialization);
}

#[test]
fn named_element_type_comes_from_type_reference() {
    let f = field(
        "items",
        wrap("std::vector<Item>", plain("Item")),
        vec![tref("vector"), typeref("ns::Item", false)],
        None,
    );
    let m = parse_member(&f, &mut vec![]).unwrap();
    assert_eq!(m.member_type, MemberType::Vector);
    assert_eq!(m.element_type, "ns::Item");
}

#[test]
fn rename_survives_struct_transform() {
    let s = foo_struct(Some("/// json_transform=snake_case"), Some("/// json_rename=baz"));
    let d = parse_struct(&s, &mut vec![]).unwrap().unwrap();
    assert_eq!(d.members[0].json_name, "baz");
    assert!(d.members[0].fixed_name);
}

#[test]
fn struct_inner_root_from_comment() {
    let s = foo_struct(Some("/// json_inner=data"), None);
    let d = parse_struct(&s, &mut vec![]).unwrap().unwrap();
    assert_eq!(d.inner_root, "data");
    assert_eq!(d.full_name, "Foo");
    assert_eq!(d.members[0].json_name, "bar");
    assert_eq!(d.members[0].member_type, MemberType::OptionalVector);
}

#[test]
fn private_struct_is_skipped() {
    let s = ent(EntityKind::StructDecl, Some("_Hidden"), vec![]);
    assert!(parse_struct(&s, &mut vec![]).unwrap().is_none());
}

#[test]
fn model_errors() {
    assert_eq!(parse_struct(&ent(EntityKind::StructDecl, None, vec![]), &mut vec![]).err(), Some(ModelError::MissingName));
    let nested = ent(EntityKind::StructDecl, Some("Outer"), vec![ent(EntityKind::StructDecl, Some("Inner"), vec![])]);
    assert_eq!(parse_struct(&nested, &mut vec![]).err(), Some(ModelError::NestedStruct));
    let untyped = ent(EntityKind::FieldDecl, Some("x"), vec![]);
    assert_eq!(parse_member(&untyped, &mut vec![]).err(), Some(ModelError::MissingType));
    let bad = field("v", wrap("V", plain("int")), vec![tref("vector"), tref("vector")], None);
    let s = ent(EntityKind::StructDecl, Some("S"), vec![bad]);
    assert_eq!(parse_struct(&s, &mut vec![]).err(), Some(ModelError::UnsupportedNesting));
}

#[test]
fn walker_filters_and_recurses() {
    let mut foreign = ent(EntityKind::StructDecl, Some("Included"), vec![]);
    foreign.in_main_file = false;
    let std_ns = ent(EntityKind::Namespace, Some("std"), vec![ent(EntityKind::StructDecl, Some("InStd"), vec![])]);
    let boost_ns = ent(EntityKind::Namespace, Some("boost_x"), vec![ent(EntityKind::StructDecl, Some("InBoost"), vec![])]);
    let inner_ns = ent(EntityKind::Namespace, Some("inner"), vec![ent(EntityKind::StructDecl, Some("B"), vec![])]);
    let outer_ns = ent(EntityKind::Namespace, Some("app"), vec![inner_ns, ent(EntityKind::StructDecl, Some("C"), vec![])]);
    let anon_ns = ent(EntityKind::Namespace, None, vec![ent(EntityKind::StructDecl, Some("InAnon"), vec![])]);
    let tu = ent(
        EntityKind::Other,
        None,
        vec![foreign, ent(EntityKind::StructDecl, Some("A"), vec![]), std_ns, boost_ns, outer_ns, anon_ns],
    );
    let decls = parse_decls(&tu, &mut vec![]).unwrap();
    let names: Vec<&str> = decls.iter().map(|d| d.full_name.as_str()).collect();
    assert_eq!(names, vec!["A", "B", "C"]);
}

#[test]
fn walker_fails_whole_file_on_bad_struct() {
    let bad = ent(EntityKind::StructDecl, Some("Bad"), vec![ent(EntityKind::FieldDecl, None, vec![])]);
    let tu = ent(EntityKind::Other, None, vec![ent(EntityKind::StructDecl, Some("Good"), vec![]), bad]);
    assert_eq!(parse_decls(&tu, &mut vec![]).err(), Some(ModelError::MissingName));
}

#[test]
fn warnings_collected_in_order() {
    let bad_field = field("f", ty("int", false, None), vec![], Some("/// json_bogus=1\n/// json_tag=t"));
    let mut s = ent(EntityKind::StructDecl, Some("S"), vec![bad_field]);
    s.comment = Some("/// json_rename=x\n/// json_inner=r".to_string());
    let tu = ent(EntityKind::Other, None, vec![s]);
    let mut warnings = Vec::new();
    let decls = parse_decls(&tu, &mut warnings).unwrap();
    assert_eq!(decls[0].inner_root, "r");
    assert_eq!(decls[0].members[0].tag, Some("t".to_string()));
    let keys: Vec<&str> = warnings.iter().map(|d| d.key.as_str()).collect();
    assert_eq!(keys, vec!["json_bogus", "json_rename"]);
}

#[test]
fn const_template_argument_is_stripped() {
    let f = field(
        "x",
        wrap("std::optional<const int>", ty("const int", true, None)),
        vec![tref("optional")],
        None,
    );
    let m = parse_member(&f, &mut vec![]).unwrap();
    assert_eq!(m.member_type, MemberType::Optional);
    assert_eq!(m.element_type, "int");
}

#[test]
fn classify_other_children_do_not_change_shape() {
    let t = wrap("std::optional<std::vector<Elem>>", wrap("std::vector<Elem>", plain("Elem")));
    let other = ent(EntityKind::Other, Some("std"), vec![]);
    let children = vec![other, tref("optional"), tref("allocator"), tref("vector")];
    assert_eq!(classify_field(&t, &children), Ok((MemberType::OptionalVector, "Elem".to_string())));
    let deep = vec![tref("optional"), tref("vector"), tref("vector")];
    assert_eq!(classify_field(&t, &deep), Err(ModelError::UnsupportedNesting));
}
