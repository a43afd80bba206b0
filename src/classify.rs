//! The type classifier: how a field's type is wrapped, and the name of the
//! element type inside the wrappers.

use vstd::prelude::*;
use crate::entity::{opt_view, Entity, EntityKind, TypeInfo};
use crate::model::MemberType;
use crate::text::{chars_of, push_range, range_equals, str_eq, string_of};

verus! {

/// Why a declaration could not be turned into the model.
#[derive(Clone, Copy, Debug, PartialEq, Eq, Structural)]
pub enum ModelError {
    /// Wrappers nest deeper than one optional around one sequence.
    UnsupportedNesting,
    /// An entity that must have a name has none.
    MissingName,
    /// A field has no type.
    MissingType,
    /// A struct declared inside another struct.
    NestedStruct,
}

/// `s` without its leading runs of `const `.
pub open spec fn strip_const(s: Seq<char>) -> Seq<char>
    decreases s.len(),
{
    if s.len() >= 6 && s.take(6) == "const "@ {
        strip_const(s.skip(6))
    } else {
        s
    }
}

/// The name a type is shown by: its display name, without `const ` where it
/// is const-qualified.
pub open spec fn plain_spelling(display: Seq<char>, is_const: bool) -> Seq<char> {
    if is_const {
        strip_const(display)
    } else {
        display
    }
}

/// The plain spelling of a type.
pub open spec fn spelling_of(ty: TypeInfo) -> Seq<char> {
    plain_spelling(ty.display_name@, ty.is_const)
}

/// The single template argument of a type, where it has exactly one.
pub open spec fn sole_template_arg(ty: TypeInfo) -> Option<TypeInfo> {
    match ty.template_args {
        Some(args) => if args@.len() == 1 && args@[0] is Some {
            Some(args@[0]->Some_0)
        } else {
            None
        },
        None => None,
    }
}

/// The state of classification: the category so far, the element name so
/// far, and the type inside the wrappers met so far.
pub type ClassifyState = (MemberType, Seq<char>, TypeInfo);

/// The effect of one child reference of a field on its classification. A
/// sequence inside an optional moves the element to the sequence's own
/// argument, where it has a single one.
pub open spec fn classify_step(st: ClassifyState, c: Entity) -> Result<ClassifyState, ModelError> {
    if c.kind == EntityKind::TemplateRef && opt_view(c.name) == Some("optional"@) {
        if st.0 == MemberType::Basic {
            Ok((MemberType::Optional, st.1, st.2))
        } else {
            Err(ModelError::UnsupportedNesting)
        }
    } else if c.kind == EntityKind::TemplateRef && opt_view(c.name) == Some("vector"@) {
        match st.0 {
            MemberType::Basic => Ok((MemberType::Vector, st.1, st.2)),
            MemberType::Optional => match sole_template_arg(st.2) {
                Some(inner) => Ok((MemberType::OptionalVector, spelling_of(inner), inner)),
                None => Ok((MemberType::OptionalVector, st.1, st.2)),
            },
            _ => Err(ModelError::UnsupportedNesting),
        }
    } else if c.kind == EntityKind::TypeRef && c.ty is Some {
        Ok((st.0, spelling_of(c.ty->Some_0), st.2))
    } else {
        Ok(st)
    }
}

/// The children of a field taken one after another, in order.
pub open spec fn classify_children(st: ClassifyState, cs: Seq<Entity>) -> Result<
    ClassifyState,
    ModelError,
>
    decreases cs.len(),
{
    if cs.len() == 0 {
        Ok(st)
    } else {
        match classify_children(st, cs.drop_last()) {
            Ok(s) => classify_step(s, cs.last()),
            Err(e) => Err(e),
        }
    }
}

/// Category and element type name of a field of type `ty` whose child
/// references are `cs`. Without a single template argument the field is
/// `Basic` and keeps its own plain spelling. With one, the argument (its
/// plain spelling) is the first guess at the element type: the outermost
/// wrapper is already stripped by taking it, and the children decide the
/// rest. A type reference among them names the element type itself.
pub open spec fn classify(ty: TypeInfo, cs: Seq<Entity>) -> Result<(MemberType, Seq<char>), ModelError> {
    match sole_template_arg(ty) {
        Some(arg) => match classify_children((MemberType::Basic, spelling_of(arg), arg), cs) {
            Ok(st) => Ok((st.0, st.1)),
            Err(e) => Err(e),
        },
        None => Ok((MemberType::Basic, spelling_of(ty))),
    }
}

/// Once a prefix of the children fails, so do all the children.
proof fn lemma_failure_persists(st: ClassifyState, cs: Seq<Entity>, i: int)
    requires
        0 <= i <= cs.len(),
        classify_children(st, cs.take(i)) is Err,
    ensures
        classify_children(st, cs) == classify_children(st, cs.take(i)),
    decreases cs.len(),
{
    if i == cs.len() {
        assert(cs.take(i) =~= cs);
    } else {
        assert(cs.drop_last().take(i) =~= cs.take(i));
        lemma_failure_persists(st, cs.drop_last(), i);
    }
}

/// `c` is a reference to the template named `n`.
pub open spec fn is_template_ref(c: Entity, n: Seq<char>) -> bool {
    c.kind == EntityKind::TemplateRef && opt_view(c.name) == Some(n)
}

/// The wrapper templates among the children, outermost first.
pub open spec fn wrapper_refs(cs: Seq<Entity>) -> Seq<Seq<char>>
    decreases cs.len(),
{
    if cs.len() == 0 {
        Seq::empty()
    } else if is_template_ref(cs.last(), "optional"@) {
        wrapper_refs(cs.drop_last()).push("optional"@)
    } else if is_template_ref(cs.last(), "vector"@) {
        wrapper_refs(cs.drop_last()).push("vector"@)
    } else {
        wrapper_refs(cs.drop_last())
    }
}

/// The category of a supported sequence of wrappers, outermost first; `None`
/// for every other sequence.
pub open spec fn wrapped_category(ws: Seq<Seq<char>>) -> Option<MemberType> {
    if ws == Seq::<Seq<char>>::empty() {
        Some(MemberType::Basic)
    } else if ws == seq!["vector"@] {
        Some(MemberType::Vector)
    } else if ws == seq!["optional"@] {
        Some(MemberType::Optional)
    } else if ws == seq!["optional"@, "vector"@] {
        Some(MemberType::OptionalVector)
    } else {
        None
    }
}

proof fn lemma_categories_follow_wrappers(st: ClassifyState, cs: Seq<Entity>)
    requires
        st.0 == MemberType::Basic,
    ensures
        (classify_children(st, cs) is Ok) == (wrapped_category(wrapper_refs(cs)) is Some),
        classify_children(st, cs) is Ok ==> classify_children(st, cs)->Ok_0.0 == wrapped_category(
            wrapper_refs(cs),
        )->Some_0,
    decreases cs.len(),
{
    reveal_strlit("optional");
    reveal_strlit("vector");
    let o = "optional"@;
    let v = "vector"@;
    assert(o.len() != v.len());
    if cs.len() > 0 {
        let p = cs.drop_last();
        lemma_categories_follow_wrappers(st, p);
        let w = wrapper_refs(p);
        let e = Seq::<Seq<char>>::empty();
        if is_template_ref(cs.last(), o) || is_template_ref(cs.last(), v) {
            let n = if is_template_ref(cs.last(), o) { o } else { v };
            assert(wrapper_refs(cs) == w.push(n));
            if w.len() >= 2 {
                assert(w.push(n).len() >= 3);
                assert(w.push(n) != seq![o, v]);
                assert(w.push(n) != seq![o]);
                assert(w.push(n) != seq![v]);
                assert(w.push(n) != e);
                assert(w != seq![o] && w != seq![v] && w != e);
            } else if w.len() == 1 {
                assert(w.push(n)[0] == w[0] && w.push(n)[1] == n);
                assert(w.push(n) != e);
                assert(w.push(n).len() != 1);
                if w[0] == o {
                    assert(w =~= seq![o]);
                    if n == v {
                        assert(w.push(n) =~= seq![o, v]);
                    } else {
                        assert(w.push(n)[1] != seq![o, v][1]);
                    }
                } else if w[0] == v {
                    assert(w =~= seq![v]);
                    assert(w.push(n)[0] != seq![o, v][0]);
                } else {
                    assert(w.push(n)[0] != seq![o, v][0]);
                    assert(w[0] != seq![o][0] && w[0] != seq![v][0]);
                }
            } else {
                assert(w =~= e);
                assert(w.push(n) =~= seq![n]);
                assert(seq![n] != e);
                if n == o {
                    assert(seq![n][0] != seq![v][0]);
                } else {
                    assert(seq![n][0] != seq![o][0]);
                }
            }
        } else {
            assert(wrapper_refs(cs) == w);
        }
    }
}

/// The classifier on every field type with a single template argument `t`,
/// whatever other children come with the wrapper references: the field is
/// accepted exactly when its wrappers, outermost first, are none, one
/// sequence, one optional, or an optional around a sequence, and its
/// category is then `Basic`, `Vector`, `Optional` or `OptionalVector`. Any
/// other nesting fails. Without type references among the children, the
/// element is `t` (const stripped); inside an optional around a sequence it
/// is the sequence's own argument, where that is a single one.
pub proof fn lemma_wrapper_shapes(ty: TypeInfo, cs: Seq<Entity>, o: Entity, v: Entity)
    requires
        sole_template_arg(ty) is Some,
        is_template_ref(o, "optional"@),
        is_template_ref(v, "vector"@),
    ensures
        (classify(ty, cs) is Ok) == (wrapped_category(wrapper_refs(cs)) is Some),
        classify(ty, cs) is Ok ==> classify(ty, cs)->Ok_0.0 == wrapped_category(
            wrapper_refs(cs),
        )->Some_0,
        classify(ty, seq![]) == Ok::<_, ModelError>(
            (MemberType::Basic, spelling_of(sole_template_arg(ty)->Some_0)),
        ),
        classify(ty, seq![v]) == Ok::<_, ModelError>(
            (MemberType::Vector, spelling_of(sole_template_arg(ty)->Some_0)),
        ),
        classify(ty, seq![o]) == Ok::<_, ModelError>(
            (MemberType::Optional, spelling_of(sole_template_arg(ty)->Some_0)),
        ),
        sole_template_arg(sole_template_arg(ty)->Some_0) is Some ==> classify(ty, seq![o, v]) == Ok::<
            _,
            ModelError,
        >(
            (
                MemberType::OptionalVector,
                spelling_of(sole_template_arg(sole_template_arg(ty)->Some_0)->Some_0),
            ),
        ),
        classify(ty, seq![v, v]) is Err,
        classify(ty, seq![o, o]) is Err,
        classify(ty, seq![v, o]) is Err,
{
    reveal_strlit("optional");
    reveal_strlit("vector");
    assert("optional"@.len() != "vector"@.len());
    let arg = sole_template_arg(ty)->Some_0;
    let st = (MemberType::Basic, spelling_of(arg), arg);
    lemma_categories_follow_wrappers(st, cs);
    let e = Seq::<Entity>::empty();
    assert(seq![v].drop_last() =~= e);
    assert(seq![o].drop_last() =~= e);
    assert(seq![o, v].drop_last() =~= seq![o]);
    assert(seq![v, o].drop_last() =~= seq![v]);
    assert(seq![v, v].drop_last() =~= seq![v]);
    assert(seq![o, o].drop_last() =~= seq![o]);
}

/// The spelling of a type without leading `const ` where it is const-qualified.
pub fn plain_type_spelling(display: &str, is_const: bool) -> (r: String)
    ensures
        r@ == plain_spelling(display@, is_const),
{
    let c = chars_of(display);
    if !is_const {
        return string_of(&c);
    }
    let k = chars_of("const ");
    proof {
        reveal_strlit("const ");
    }
    let mut lo: usize = 0;
    assert(c@.subrange(0, c@.len() as int) =~= c@);
    while c.len() - lo >= 6 && range_equals(&c, lo, lo + 6, &k)
        invariant
            lo <= c.len(),
            k@ == "const "@,
            k@.len() == 6,
            strip_const(c@) == strip_const(c@.subrange(lo as int, c@.len() as int)),
        decreases c.len() - lo,
    {
        assert(c@.subrange(lo as int, c@.len() as int).take(6) =~= c@.subrange(lo as int, lo + 6));
        assert(c@.subrange(lo as int, c@.len() as int).skip(6) =~= c@.subrange(
            lo + 6,
            c@.len() as int,
        ));
        lo += 6;
    }
    if c.len() - lo >= 6 {
        assert(c@.subrange(lo as int, c@.len() as int).take(6) =~= c@.subrange(lo as int, lo + 6));
    }
    let mut out: Vec<char> = Vec::new();
    push_range(&mut out, &c, lo, c.len());
    assert(out@ =~= c@.subrange(lo as int, c@.len() as int));
    string_of(&out)
}

fn opt_str_eq(o: &Option<String>, lit: &str) -> (r: bool)
    ensures
        r == (opt_view(*o) == Some(lit@)),
{
    match o {
        Some(s) => str_eq(s.as_str(), lit),
        None => false,
    }
}

fn sole_arg(ty: &TypeInfo) -> (r: Option<&TypeInfo>)
    ensures
        match r {
            Some(a) => sole_template_arg(*ty) == Some(*a),
            None => sole_template_arg(*ty) is None,
        },
{
    match &ty.template_args {
        Some(args) => {
            if args.len() == 1 {
                match &args[0] {
                    Some(a) => Some(a),
                    None => None,
                }
            } else {
                None
            }
        },
        None => None,
    }
}

fn spelling_exec(ty: &TypeInfo) -> (r: String)
    ensures
        r@ == spelling_of(*ty),
{
    plain_type_spelling(ty.display_name.as_str(), ty.is_const)
}

/// Classifies a field of type `ty` with child references `children`.
pub fn classify_field(ty: &TypeInfo, children: &Vec<Entity>) -> (r: Result<
    (MemberType, String),
    ModelError,
>)
    ensures
        match r {
            Ok((mt, name)) => classify(*ty, children@) == Ok::<_, ModelError>((mt, name@)),
            Err(e) => classify(*ty, children@) == Err::<(MemberType, Seq<char>), _>(e),
        },
{
    let first = match sole_arg(ty) {
        Some(a) => a,
        None => return Ok((MemberType::Basic, spelling_exec(ty))),
    };
    let ghost st0: ClassifyState = (MemberType::Basic, spelling_of(*first), *first);
    let mut mt = MemberType::Basic;
    let mut name = spelling_exec(first);
    let mut cur: &TypeInfo = first;
    let mut i: usize = 0;
    while i < children.len()
        invariant
            i <= children.len(),
            sole_template_arg(*ty) == Some(*first),
            st0 == (MemberType::Basic, spelling_of(*first), *first),
            classify_children(st0, children@.take(i as int)) == Ok::<_, ModelError>(
                (mt, name@, *cur),
            ),
        decreases children.len() - i,
    {
        let c = &children[i];
        assert(children@.take(i + 1).drop_last() =~= children@.take(i as int));
        proof {
            if classify_children(st0, children@.take(i + 1)) is Err {
                lemma_failure_persists(st0, children@, i + 1);
            }
        }
        if c.kind == EntityKind::TemplateRef && opt_str_eq(&c.name, "optional") {
            if mt == MemberType::Basic {
                mt = MemberType::Optional;
            } else {
                return Err(ModelError::UnsupportedNesting);
            }
        } else if c.kind == EntityKind::TemplateRef && opt_str_eq(&c.name, "vector") {
            match mt {
                MemberType::Basic => {
                    mt = MemberType::Vector;
                },
                MemberType::Optional => {
                    mt = MemberType::OptionalVector;
                    match sole_arg(cur) {
                        Some(inner) => {
                            name = spelling_exec(inner);
                            cur = inner;
                        },
                        None => {},
                    }
                },
                _ => {
                    return Err(ModelError::UnsupportedNesting);
                },
            }
        } else if c.kind == EntityKind::TypeRef {
            match &c.ty {
                Some(t) => {
                    name = spelling_exec(t);
                },
                None => {},
            }
        }
        i += 1;
    }
    assert(children@.take(i as int) =~= children@);
    Ok((mt, name))
}

} // verus!
