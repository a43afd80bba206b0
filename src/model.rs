//! The intermediate model of discovered structs and their fields, and the
//! mathematical views that contracts speak of.

use vstd::prelude::*;

verus! {

/// How a field's value is wrapped.
#[derive(Clone, Copy, Debug, PartialEq, Eq, Structural)]
pub enum MemberType {
    Basic,
    Vector,
    Optional,
    OptionalVector,
}

/// One field of a struct.
#[derive(Debug)]
pub struct StructMember {
    pub member_type: MemberType,
    pub name: String,
    pub element_type: String,
    pub json_name: String,
    pub tag: Option<String>,
    pub dont_fail_on_deserialization: bool,
    /// Set once a directive has fixed `json_name`; blocks later case transforms.
    pub fixed_name: bool,
}

/// One discovered struct.
#[derive(Debug)]
pub struct StructDecl {
    pub full_name: String,
    pub inner_root: String,
    pub members: Vec<StructMember>,
}

/// A `key=value` directive read from a documentation comment.
#[derive(Debug)]
pub struct Directive {
    pub key: String,
    pub value: String,
}

pub struct MemberView {
    pub member_type: MemberType,
    pub name: Seq<char>,
    pub element_type: Seq<char>,
    pub json_name: Seq<char>,
    pub tag: Option<Seq<char>>,
    pub dont_fail_on_deserialization: bool,
    pub fixed_name: bool,
}

pub struct DeclView {
    pub full_name: Seq<char>,
    pub inner_root: Seq<char>,
    pub members: Seq<MemberView>,
}

pub open spec fn tag_view(t: Option<String>) -> Option<Seq<char>> {
    match t {
        Some(s) => Some(s@),
        None => None,
    }
}

impl View for StructMember {
    type V = MemberView;

    open spec fn view(&self) -> MemberView {
        MemberView {
            member_type: self.member_type,
            name: self.name@,
            element_type: self.element_type@,
            json_name: self.json_name@,
            tag: tag_view(self.tag),
            dont_fail_on_deserialization: self.dont_fail_on_deserialization,
            fixed_name: self.fixed_name,
        }
    }
}

pub open spec fn members_view(ms: Seq<StructMember>) -> Seq<MemberView> {
    ms.map_values(|m: StructMember| m@)
}

impl View for StructDecl {
    type V = DeclView;

    open spec fn view(&self) -> DeclView {
        DeclView {
            full_name: self.full_name@,
            inner_root: self.inner_root@,
            members: members_view(self.members@),
        }
    }
}

impl View for Directive {
    type V = (Seq<char>, Seq<char>);

    open spec fn view(&self) -> (Seq<char>, Seq<char>) {
        (self.key@, self.value@)
    }
}

pub open spec fn directives_view(ds: Seq<Directive>) -> Seq<(Seq<char>, Seq<char>)> {
    ds.map_values(|d: Directive| d@)
}

impl StructMember {
    /// A field as first discovered: its JSON key is its own name and no
    /// directive has touched it.
    pub fn new(name: String, member_type: MemberType, element_type: String) -> (r: StructMember)
        ensures
            r@ == (MemberView {
                member_type,
                name: name@,
                element_type: element_type@,
                json_name: name@,
                tag: None,
                dont_fail_on_deserialization: false,
                fixed_name: false,
            }),
    {
        let json_name = name.clone();
        StructMember {
            member_type,
            name,
            element_type,
            json_name,
            tag: None,
            dont_fail_on_deserialization: false,
            fixed_name: false,
        }
    }
}

impl StructDecl {
    /// A struct as first discovered: no members and no inner root.
    pub fn new(full_name: String) -> (r: StructDecl)
        ensures
            r@ == (DeclView { full_name: full_name@, inner_root: Seq::empty(), members: Seq::empty() }),
    {
        let r = StructDecl { full_name, inner_root: String::new(), members: Vec::new() };
        assert(r@.members =~= Seq::<MemberView>::empty());
        r
    }
}

} // verus!
