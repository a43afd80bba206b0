//! Walking a translation unit: every struct declared in the main file,
//! outside standard-library namespaces, becomes a `StructDecl`.

use vstd::prelude::*;
use crate::classify::{classify, classify_field, ModelError};
use crate::comment::{comment_directives, parse_comment_args};
use crate::directives::{apply_member, apply_struct, unrecognized};
use crate::entity::{Entity, EntityKind};
use crate::model::{directives_view, DeclView, Directive, MemberView, StructDecl, StructMember};
use crate::text::{chars_of, range_equals, starts_with};

verus! {

/// The directives of an entity's documentation comment, if it has one.
pub open spec fn comment_dirs(c: Option<String>) -> Seq<(Seq<char>, Seq<char>)> {
    match c {
        Some(s) => comment_directives(s@, 0),
        None => Seq::empty(),
    }
}

/// The model of a field declaration: classified first, then adjusted by the
/// directives of its comment.
pub open spec fn member_of(e: Entity) -> Result<MemberView, ModelError> {
    match e.name {
        None => Err(ModelError::MissingName),
        Some(n) => match e.ty {
            None => Err(ModelError::MissingType),
            Some(t) => match classify(t, e.children@) {
                Err(x) => Err(x),
                Ok((mt, tn)) => Ok(
                    apply_member(
                        MemberView {
                            member_type: mt,
                            name: n@,
                            element_type: tn,
                            json_name: n@,
                            tag: None,
                            dont_fail_on_deserialization: false,
                            fixed_name: false,
                        },
                        comment_dirs(e.comment),
                    ),
                ),
            },
        },
    }
}

/// The fields among the children of a struct, in order. A struct declared
/// among them is not supported.
pub open spec fn fields_of(cs: Seq<Entity>) -> Result<Seq<MemberView>, ModelError>
    decreases cs.len(),
{
    if cs.len() == 0 {
        Ok(Seq::empty())
    } else {
        match fields_of(cs.drop_last()) {
            Err(x) => Err(x),
            Ok(ms) => if cs.last().kind == EntityKind::FieldDecl {
                match member_of(cs.last()) {
                    Ok(m) => Ok(ms.push(m)),
                    Err(x) => Err(x),
                }
            } else if cs.last().kind == EntityKind::StructDecl {
                Err(ModelError::NestedStruct)
            } else {
                Ok(ms)
            },
        }
    }
}

/// A name that marks a type as private to its implementation.
pub open spec fn is_private_name(n: Seq<char>) -> bool {
    n.len() > 0 && n[0] == '_'
}

/// The model of a struct declaration, or `None` where it is skipped.
pub open spec fn struct_of(e: Entity) -> Result<Option<DeclView>, ModelError> {
    match e.name {
        None => Err(ModelError::MissingName),
        Some(n) => if is_private_name(n@) {
            Ok(None)
        } else {
            match fields_of(e.children@) {
                Err(x) => Err(x),
                Ok(ms) => Ok(
                    Some(
                        apply_struct(
                            DeclView { full_name: n@, inner_root: Seq::empty(), members: ms },
                            comment_dirs(e.comment),
                        ),
                    ),
                ),
            }
        },
    }
}

/// Namespaces of the standard library and of boost hold no declarations of
/// interest and are not entered.
pub open spec fn is_library_namespace(n: Seq<char>) -> bool {
    starts_with(n, "std"@) || starts_with(n, "boost"@)
}

/// The structs found at `e`: a struct of the main file, or those inside a
/// named namespace of the main file that is not a library namespace.
pub open spec fn decls_in(e: Entity) -> Result<Seq<DeclView>, ModelError>
    decreases e, e.children@.len() + 1,
{
    if !e.in_main_file {
        Ok(Seq::empty())
    } else if e.kind == EntityKind::StructDecl {
        match struct_of(e) {
            Err(x) => Err(x),
            Ok(None) => Ok(Seq::empty()),
            Ok(Some(d)) => Ok(seq![d]),
        }
    } else if e.kind == EntityKind::Namespace && e.name is Some && !is_library_namespace(
        e.name->Some_0@,
    ) {
        decls_under(e, e.children@.len() as int)
    } else {
        Ok(Seq::empty())
    }
}

/// The structs found among the first `n` children of `e`, in order.
pub open spec fn decls_under(e: Entity, n: int) -> Result<Seq<DeclView>, ModelError>
    decreases e, n,
{
    if n <= 0 || n > e.children@.len() {
        Ok(Seq::empty())
    } else {
        match decls_under(e, n - 1) {
            Err(x) => Err(x),
            Ok(a) => match decls_in(e.children@[n - 1]) {
                Err(x) => Err(x),
                Ok(b) => Ok(a + b),
            },
        }
    }
}

/// The directives of a field's comment that a field does not recognise.
pub open spec fn member_warnings(e: Entity) -> Seq<(Seq<char>, Seq<char>)> {
    unrecognized(comment_dirs(e.comment), false)
}

/// The unrecognised directives of the fields among `cs`, in order.
pub open spec fn fields_warnings(cs: Seq<Entity>) -> Seq<(Seq<char>, Seq<char>)>
    decreases cs.len(),
{
    if cs.len() == 0 {
        Seq::empty()
    } else if cs.last().kind == EntityKind::FieldDecl {
        fields_warnings(cs.drop_last()) + member_warnings(cs.last())
    } else {
        fields_warnings(cs.drop_last())
    }
}

/// The unrecognised directives of a struct: those of its fields, then those
/// of its own comment. None for a struct that is skipped.
pub open spec fn struct_warnings(e: Entity) -> Seq<(Seq<char>, Seq<char>)> {
    match e.name {
        Some(n) => if is_private_name(n@) {
            Seq::empty()
        } else {
            fields_warnings(e.children@) + unrecognized(comment_dirs(e.comment), true)
        },
        None => Seq::empty(),
    }
}

/// The unrecognised directives of the structs found at `e`, in order.
pub open spec fn warnings_in(e: Entity) -> Seq<(Seq<char>, Seq<char>)>
    decreases e, e.children@.len() + 1,
{
    if !e.in_main_file {
        Seq::empty()
    } else if e.kind == EntityKind::StructDecl {
        struct_warnings(e)
    } else if e.kind == EntityKind::Namespace && e.name is Some && !is_library_namespace(
        e.name->Some_0@,
    ) {
        warnings_under(e, e.children@.len() as int)
    } else {
        Seq::empty()
    }
}

/// The unrecognised directives of the structs found among the first `n`
/// children of `e`, in order.
pub open spec fn warnings_under(e: Entity, n: int) -> Seq<(Seq<char>, Seq<char>)>
    decreases e, n,
{
    if n <= 0 || n > e.children@.len() {
        Seq::empty()
    } else {
        warnings_under(e, n - 1) + warnings_in(e.children@[n - 1])
    }
}

fn push_all(w: &mut Vec<Directive>, more: Vec<Directive>)
    ensures
        directives_view(final(w)@) == directives_view(old(w)@) + directives_view(more@),
{
    let mut more = more;
    let ghost m0 = more@;
    w.append(&mut more);
    assert(directives_view(w@) =~= directives_view(old(w)@) + directives_view(m0));
}

pub open spec fn decls_view(ds: Seq<StructDecl>) -> Seq<DeclView> {
    ds.map_values(|d: StructDecl| d@)
}

fn comment_args(c: &Option<String>) -> (r: Vec<Directive>)
    ensures
        directives_view(r@) == comment_dirs(*c),
{
    match c {
        Some(s) => parse_comment_args(s.as_str()),
        None => {
            let r: Vec<Directive> = Vec::new();
            assert(directives_view(r@) =~= Seq::empty());
            r
        },
    }
}

/// Builds the model of a field declaration: its category and element type
/// from the classifier, then the directives of its comment. Unrecognised
/// directives are appended to `warnings`.
pub fn parse_member(e: &Entity, warnings: &mut Vec<Directive>) -> (r: Result<StructMember, ModelError>)
    ensures
        match r {
            Ok(m) => member_of(*e) == Ok::<_, ModelError>(m@),
            Err(x) => member_of(*e) == Err::<MemberView, _>(x),
        },
        r is Ok ==> directives_view(final(warnings)@) == directives_view(old(warnings)@)
            + member_warnings(*e),
{
    let name = match &e.name {
        Some(n) => n.clone(),
        None => return Err(ModelError::MissingName),
    };
    let ty = match &e.ty {
        Some(t) => t,
        None => return Err(ModelError::MissingType),
    };
    let (mt, tn) = match classify_field(ty, &e.children) {
        Ok(p) => p,
        Err(x) => return Err(x),
    };
    let mut m = StructMember::new(name, mt, tn);
    let dirs = comment_args(&e.comment);
    let unknown = m.apply_commands(&dirs);
    push_all(warnings, unknown);
    Ok(m)
}

proof fn lemma_fields_failure_persists(cs: Seq<Entity>, i: int)
    requires
        0 <= i <= cs.len(),
        fields_of(cs.take(i)) is Err,
    ensures
        fields_of(cs) == fields_of(cs.take(i)),
    decreases cs.len(),
{
    if i == cs.len() {
        assert(cs.take(i) =~= cs);
    } else {
        assert(cs.drop_last().take(i) =~= cs.take(i));
        lemma_fields_failure_persists(cs.drop_last(), i);
    }
}

fn is_private_exec(n: &String) -> (r: bool)
    ensures
        r == is_private_name(n@),
{
    let c = chars_of(n.as_str());
    c.len() > 0 && c[0] == '_'
}

fn starts_with_exec(s: &str, p: &str) -> (r: bool)
    ensures
        r == starts_with(s@, p@),
{
    let sc = chars_of(s);
    let pc = chars_of(p);
    if sc.len() < pc.len() {
        return false;
    }
    let r = range_equals(&sc, 0, pc.len(), &pc);
    assert(sc@.subrange(0, pc@.len() as int) =~= sc@.take(pc@.len() as int));
    r
}

/// Builds the model of a struct declaration: its fields in order, then the
/// directives of its comment. `None` where the struct is private to its
/// implementation (its name begins with `_`). Unrecognised directives, of
/// the fields and then of the struct, are appended to `warnings`.
pub fn parse_struct(e: &Entity, warnings: &mut Vec<Directive>) -> (r: Result<
    Option<StructDecl>,
    ModelError,
>)
    ensures
        match r {
            Ok(Some(d)) => struct_of(*e) == Ok::<_, ModelError>(Some(d@)),
            Ok(None) => struct_of(*e) == Ok::<Option<DeclView>, ModelError>(None),
            Err(x) => struct_of(*e) == Err::<Option<DeclView>, _>(x),
        },
        r is Ok ==> directives_view(final(warnings)@) == directives_view(old(warnings)@)
            + struct_warnings(*e),
{
    let name = match &e.name {
        Some(n) => n,
        None => return Err(ModelError::MissingName),
    };
    if is_private_exec(name) {
        assert(directives_view(warnings@) =~= directives_view(old(warnings)@) + Seq::empty());
        return Ok(None);
    }
    let mut decl = StructDecl::new(name.clone());
    let mut i: usize = 0;
    while i < e.children.len()
        invariant
            i <= e.children.len(),
            fields_of(e.children@.take(i as int)) == Ok::<_, ModelError>(decl@.members),
            decl@.full_name == name@,
            decl@.inner_root == Seq::<char>::empty(),
            e.name == Some(*name),
            !is_private_name(name@),
            directives_view(warnings@) == directives_view(old(warnings)@) + fields_warnings(
                e.children@.take(i as int),
            ),
        decreases e.children.len() - i,
    {
        let c = &e.children[i];
        assert(e.children@.take(i + 1).drop_last() =~= e.children@.take(i as int));
        assert(e.children@.take(i + 1).last() == *c);
        proof {
            if fields_of(e.children@.take(i + 1)) is Err {
                lemma_fields_failure_persists(e.children@, i + 1);
            }
        }
        if c.kind == EntityKind::FieldDecl {
            let m = match parse_member(c, warnings) {
                Ok(m) => m,
                Err(x) => return Err(x),
            };
            assert(directives_view(warnings@) =~= directives_view(old(warnings)@) + fields_warnings(
                e.children@.take(i + 1),
            ));
            decl.members.push(m);
            assert(decl@.members =~= fields_of(e.children@.take(i + 1))->Ok_0);
        } else if c.kind == EntityKind::StructDecl {
            return Err(ModelError::NestedStruct);
        } else {
            assert(fields_warnings(e.children@.take(i + 1)) == fields_warnings(
                e.children@.take(i as int),
            ));
        }
        i += 1;
    }
    assert(e.children@.take(i as int) =~= e.children@);
    let dirs = comment_args(&e.comment);
    let unknown = decl.apply_commands(&dirs);
    push_all(warnings, unknown);
    assert(directives_view(warnings@) =~= directives_view(old(warnings)@) + struct_warnings(*e));
    Ok(Some(decl))
}

proof fn lemma_under_failure_persists(e: Entity, i: int, n: int)
    requires
        0 <= i <= n <= e.children@.len(),
        decls_under(e, i) is Err,
    ensures
        decls_under(e, n) == decls_under(e, i),
    decreases n,
{
    if n > i {
        lemma_under_failure_persists(e, i, n - 1);
    }
}

fn decls_in_exec(e: &Entity, warnings: &mut Vec<Directive>) -> (r: Result<Vec<StructDecl>, ModelError>)
    ensures
        match r {
            Ok(v) => decls_in(*e) == Ok::<_, ModelError>(decls_view(v@)),
            Err(x) => decls_in(*e) == Err::<Seq<DeclView>, _>(x),
        },
        r is Ok ==> directives_view(final(warnings)@) == directives_view(old(warnings)@)
            + warnings_in(*e),
    decreases e, 1int,
{
    let mut out: Vec<StructDecl> = Vec::new();
    assert(directives_view(warnings@) =~= directives_view(warnings@) + Seq::empty());
    if !e.in_main_file {
        assert(decls_view(out@) =~= Seq::empty());
        return Ok(out);
    }
    if e.kind == EntityKind::StructDecl {
        match parse_struct(e, warnings) {
            Err(x) => return Err(x),
            Ok(None) => {},
            Ok(Some(d)) => {
                out.push(d);
            },
        }
        assert(decls_view(out@) =~= decls_in(*e)->Ok_0);
        return Ok(out);
    }
    let enter = match &e.name {
        Some(n) => e.kind == EntityKind::Namespace && !(starts_with_exec(n.as_str(), "std")
            || starts_with_exec(n.as_str(), "boost")),
        None => false,
    };
    if !enter {
        assert(decls_view(out@) =~= Seq::empty());
        return Ok(out);
    }
    decls_under_exec(e, warnings)
}

/// The structs found among all the children of `e`, in order.
fn decls_under_exec(e: &Entity, warnings: &mut Vec<Directive>) -> (r: Result<
    Vec<StructDecl>,
    ModelError,
>)
    ensures
        match r {
            Ok(v) => decls_under(*e, e.children@.len() as int) == Ok::<_, ModelError>(
                decls_view(v@),
            ),
            Err(x) => decls_under(*e, e.children@.len() as int) == Err::<Seq<DeclView>, _>(x),
        },
        r is Ok ==> directives_view(final(warnings)@) == directives_view(old(warnings)@)
            + warnings_under(*e, e.children@.len() as int),
    decreases e, 0int,
{
    let mut out: Vec<StructDecl> = Vec::new();
    assert(decls_view(out@) =~= Seq::empty());
    assert(directives_view(warnings@) =~= directives_view(warnings@) + Seq::empty());
    let mut i: usize = 0;
    while i < e.children.len()
        invariant
            i <= e.children.len(),
            decls_under(*e, i as int) == Ok::<_, ModelError>(decls_view(out@)),
            directives_view(warnings@) == directives_view(old(warnings)@) + warnings_under(
                *e,
                i as int,
            ),
        decreases e.children.len() - i,
    {
        proof {
            if decls_under(*e, i + 1) is Err {
                lemma_under_failure_persists(*e, i + 1, e.children@.len() as int);
            }
        }
        let mut sub = match decls_in_exec(&e.children[i], warnings) {
            Ok(v) => v,
            Err(x) => return Err(x),
        };
        let ghost before = out@;
        let ghost got = sub@;
        out.append(&mut sub);
        assert(decls_view(out@) =~= decls_view(before) + decls_view(got));
        assert(directives_view(warnings@) =~= directives_view(old(warnings)@) + warnings_under(
            *e,
            i + 1,
        ));
        i += 1;
    }
    Ok(out)
}

/// The structs declared in the main file of a translation unit, in the order
/// met: top-level ones and those inside named namespaces other than the
/// standard library's and boost's, at any depth. Fails on the first field or
/// struct that cannot be modelled, with no partial result. Directives that
/// are not recognised are appended to `warnings` in the order met.
pub fn parse_decls(tu: &Entity, warnings: &mut Vec<Directive>) -> (r: Result<
    Vec<StructDecl>,
    ModelError,
>)
    ensures
        match r {
            Ok(v) => decls_under(*tu, tu.children@.len() as int) == Ok::<_, ModelError>(
                decls_view(v@),
            ),
            Err(x) => decls_under(*tu, tu.children@.len() as int) == Err::<Seq<DeclView>, _>(x),
        },
        r is Ok ==> directives_view(final(warnings)@) == directives_view(old(warnings)@)
            + warnings_under(*tu, tu.children@.len() as int),
{
    decls_under_exec(tu, warnings)
}

} // verus!
