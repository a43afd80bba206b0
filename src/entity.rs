//! A plain tree of the declarations that the C++ front end reports, holding
//! only what the generator reads.

use vstd::prelude::*;

verus! {

/// The kinds of entity that the generator tells apart; every other kind is `Other`.
#[derive(Clone, Copy, Debug, PartialEq, Eq, Structural)]
pub enum EntityKind {
    Namespace,
    StructDecl,
    FieldDecl,
    TemplateRef,
    TypeRef,
    Other,
}

/// A type as the front end spells it.
#[derive(Debug)]
pub struct TypeInfo {
    pub display_name: String,
    pub is_const: bool,
    /// The template arguments, where the type has a list of them.
    pub template_args: Option<Vec<Option<TypeInfo>>>,
}

/// One entity with its direct children, in source order.
#[derive(Debug)]
pub struct Entity {
    pub kind: EntityKind,
    pub name: Option<String>,
    pub in_main_file: bool,
    pub comment: Option<String>,
    pub ty: Option<TypeInfo>,
    pub children: Vec<Entity>,
}

/// The view of an optional string.
pub open spec fn opt_view(o: Option<String>) -> Option<Seq<char>> {
    match o {
        Some(s) => Some(s@),
        None => None,
    }
}

} // verus!
