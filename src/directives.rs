//! Directives: `key=value` lines of documentation comments that adjust how a
//! struct or a field is serialized.

use convert_case::{Case, Casing};
use vstd::prelude::*;
use crate::model::{
    directives_view, members_view, DeclView, Directive, MemberView, StructDecl, StructMember,
};
use crate::text::str_eq;

verus! {

/// What `convert_case` makes of a string in snake case.
pub uninterp spec fn snake_case_of(s: Seq<char>) -> Seq<char>;

/// Relies on convert_case's `Casing::to_case` with `Case::Snake`, a function
/// of the string alone.
#[verifier::external_body]
fn to_snake_case(s: &str) -> (r: String)
    ensures
        r@ == snake_case_of(s@),
{
    s.to_case(Case::Snake)
}

pub open spec fn is_snake_transform(d: (Seq<char>, Seq<char>)) -> bool {
    d.0 == "json_transform"@ && d.1 == "snake_case"@
}

/// A field-level directive is one of rename, don't-fail, tag, snake-case transform.
pub open spec fn is_member_directive(d: (Seq<char>, Seq<char>)) -> bool {
    d.0 == "json_rename"@ || d.0 == "json_dont_fail_on_deserialization"@ || d.0 == "json_tag"@
        || is_snake_transform(d)
}

/// A struct-level directive is the snake-case transform or an inner root.
pub open spec fn is_struct_directive(d: (Seq<char>, Seq<char>)) -> bool {
    is_snake_transform(d) || d.0 == "json_inner"@
}

/// The effect of one directive on a field.
pub open spec fn member_step(m: MemberView, d: (Seq<char>, Seq<char>)) -> MemberView {
    if d.0 == "json_rename"@ {
        MemberView { json_name: d.1, fixed_name: true, ..m }
    } else if d.0 == "json_dont_fail_on_deserialization"@ {
        MemberView { dont_fail_on_deserialization: d.1 == "true"@, ..m }
    } else if d.0 == "json_tag"@ {
        MemberView { tag: Some(d.1), ..m }
    } else if is_snake_transform(d) {
        if m.fixed_name {
            m
        } else {
            MemberView { json_name: snake_case_of(m.json_name), fixed_name: true, ..m }
        }
    } else {
        m
    }
}

/// The directives applied to a field one after another, in order.
pub open spec fn apply_member(m: MemberView, ds: Seq<(Seq<char>, Seq<char>)>) -> MemberView
    decreases ds.len(),
{
    if ds.len() == 0 {
        m
    } else {
        member_step(apply_member(m, ds.drop_last()), ds.last())
    }
}

/// Whether `d` is a directive of its level: of a struct, or of a field.
pub open spec fn is_recognized(d: (Seq<char>, Seq<char>), struct_level: bool) -> bool {
    if struct_level {
        is_struct_directive(d)
    } else {
        is_member_directive(d)
    }
}

/// The directives, in order, that are not recognised at their level.
pub open spec fn unrecognized(ds: Seq<(Seq<char>, Seq<char>)>, struct_level: bool) -> Seq<
    (Seq<char>, Seq<char>),
>
    decreases ds.len(),
{
    if ds.len() == 0 {
        ds
    } else if is_recognized(ds.last(), struct_level) {
        unrecognized(ds.drop_last(), struct_level)
    } else {
        unrecognized(ds.drop_last(), struct_level).push(ds.last())
    }
}

/// A struct-level snake-case transform on one field: only a field whose JSON
/// key is not fixed changes.
pub open spec fn snake_unless_fixed(m: MemberView) -> MemberView {
    if m.fixed_name {
        m
    } else {
        MemberView { json_name: snake_case_of(m.json_name), ..m }
    }
}

/// The effect of one directive on a struct.
pub open spec fn struct_step(s: DeclView, d: (Seq<char>, Seq<char>)) -> DeclView {
    if is_snake_transform(d) {
        DeclView { members: s.members.map_values(|m: MemberView| snake_unless_fixed(m)), ..s }
    } else if d.0 == "json_inner"@ {
        DeclView { inner_root: d.1, ..s }
    } else {
        s
    }
}

/// The directives applied to a struct one after another, in order.
pub open spec fn apply_struct(s: DeclView, ds: Seq<(Seq<char>, Seq<char>)>) -> DeclView
    decreases ds.len(),
{
    if ds.len() == 0 {
        s
    } else {
        struct_step(apply_struct(s, ds.drop_last()), ds.last())
    }
}

/// A rename and a snake-case transform on a field give the renamed key, in
/// either order: the rename fixes the key against the transform, and a
/// rename after the transform overrides it. Either way the key stays fixed.
pub proof fn lemma_rename_and_transform_commute(m: MemberView, v: Seq<char>)
    ensures
        apply_member(m, seq![("json_rename"@, v), ("json_transform"@, "snake_case"@)]).json_name
            == v,
        apply_member(m, seq![("json_transform"@, "snake_case"@), ("json_rename"@, v)]).json_name
            == v,
        apply_member(m, seq![("json_rename"@, v), ("json_transform"@, "snake_case"@)]).fixed_name,
        apply_member(m, seq![("json_transform"@, "snake_case"@), ("json_rename"@, v)]).fixed_name,
{
    reveal_strlit("json_rename");
    reveal_strlit("json_transform");
    reveal_strlit("snake_case");
    reveal_strlit("json_dont_fail_on_deserialization");
    reveal_strlit("json_tag");
    let r: (Seq<char>, Seq<char>) = ("json_rename"@, v);
    let t: (Seq<char>, Seq<char>) = ("json_transform"@, "snake_case"@);
    assert(seq![r, t].drop_last() =~= seq![r]);
    assert(seq![r].drop_last() =~= Seq::<(Seq<char>, Seq<char>)>::empty());
    assert(seq![t, r].drop_last() =~= seq![t]);
    assert(seq![t].drop_last() =~= Seq::<(Seq<char>, Seq<char>)>::empty());
    assert(r.0[5] != "json_dont_fail_on_deserialization"@[5]);
    assert(t.0 != "json_rename"@);
    assert(t.0[5] != "json_dont_fail_on_deserialization"@[5]);
    assert(t.0[6] != "json_tag"@[6]);
    let e = Seq::<(Seq<char>, Seq<char>)>::empty();
    assert(apply_member(m, e) == m);
    assert(apply_member(m, seq![r]) == member_step(m, r));
    assert(apply_member(m, seq![t]) == member_step(m, t));
    assert(apply_member(m, seq![r, t]) == member_step(member_step(m, r), t));
    assert(apply_member(m, seq![t, r]) == member_step(member_step(m, t), r));
}

/// A struct-level snake-case transform leaves every field whose JSON key is
/// fixed exactly as it was, and changes nothing but JSON keys.
pub proof fn lemma_struct_transform_respects_lock(s: DeclView, i: int)
    requires
        0 <= i < s.members.len(),
    ensures
        s.members[i].fixed_name ==> struct_step(s, ("json_transform"@, "snake_case"@)).members[i]
            == s.members[i],
        struct_step(s, ("json_transform"@, "snake_case"@)).members.len() == s.members.len(),
        struct_step(s, ("json_transform"@, "snake_case"@)).members[i].name == s.members[i].name,
        struct_step(s, ("json_transform"@, "snake_case"@)).members[i].member_type
            == s.members[i].member_type,
        struct_step(s, ("json_transform"@, "snake_case"@)).full_name == s.full_name,
        struct_step(s, ("json_transform"@, "snake_case"@)).inner_root == s.inner_root,
{
}

/// An inner-root directive sets the inner root and changes nothing else.
pub proof fn lemma_inner_root_only(s: DeclView, v: Seq<char>)
    ensures
        apply_struct(s, seq![("json_inner"@, v)]) == (DeclView { inner_root: v, ..s }),
{
    reveal_strlit("json_inner");
    reveal_strlit("json_transform");
    assert(seq![("json_inner"@, v)].drop_last() =~= Seq::<(Seq<char>, Seq<char>)>::empty());
    assert("json_inner"@[5] != "json_transform"@[5]);
    assert(apply_struct(s, Seq::<(Seq<char>, Seq<char>)>::empty()) == s);
}

fn copy_directive(d: &Directive) -> (r: Directive)
    ensures
        r@ == d@,
{
    Directive { key: d.key.clone(), value: d.value.clone() }
}

impl StructMember {
    /// Applies field-level directives in order and hands back, in order,
    /// those it does not recognise. A snake-case transform does nothing to a
    /// field whose JSON key is already fixed.
    pub fn apply_commands(&mut self, commands: &Vec<Directive>) -> (unknown: Vec<Directive>)
        ensures
            final(self)@ == apply_member(old(self)@, directives_view(commands@)),
            directives_view(unknown@) == unrecognized(directives_view(commands@), false),
    {
        let ghost ds = directives_view(commands@);
        let mut unknown: Vec<Directive> = Vec::new();
        let mut i: usize = 0;
        while i < commands.len()
            invariant
                i <= commands.len(),
                ds == directives_view(commands@),
                self@ == apply_member(old(self)@, ds.take(i as int)),
                directives_view(unknown@) == unrecognized(ds.take(i as int), false),
            decreases commands.len() - i,
        {
            let d = &commands[i];
            assert(ds.take(i + 1).drop_last() =~= ds.take(i as int));
            assert(ds.take(i + 1).last() == d@);
            if str_eq(d.key.as_str(), "json_rename") {
                self.json_name = d.value.clone();
                self.fixed_name = true;
            } else if str_eq(d.key.as_str(), "json_dont_fail_on_deserialization") {
                self.dont_fail_on_deserialization = str_eq(d.value.as_str(), "true");
            } else if str_eq(d.key.as_str(), "json_tag") {
                self.tag = Some(d.value.clone());
            } else if str_eq(d.key.as_str(), "json_transform") && str_eq(
                d.value.as_str(),
                "snake_case",
            ) {
                if !self.fixed_name {
                    self.json_name = to_snake_case(self.json_name.as_str());
                    self.fixed_name = true;
                }
            } else {
                unknown.push(copy_directive(d));
            }
            assert(directives_view(unknown@) =~= unrecognized(ds.take(i + 1), false));
            i += 1;
        }
        assert(ds.take(i as int) =~= ds);
        unknown
    }
}

impl StructDecl {
    /// Applies struct-level directives in order and hands back, in order,
    /// those it does not recognise. A snake-case transform leaves alone every
    /// field whose JSON key is fixed.
    pub fn apply_commands(&mut self, commands: &Vec<Directive>) -> (unknown: Vec<Directive>)
        ensures
            final(self)@ == apply_struct(old(self)@, directives_view(commands@)),
            directives_view(unknown@) == unrecognized(directives_view(commands@), true),
    {
        let ghost ds = directives_view(commands@);
        let mut unknown: Vec<Directive> = Vec::new();
        let mut i: usize = 0;
        while i < commands.len()
            invariant
                i <= commands.len(),
                ds == directives_view(commands@),
                self@ == apply_struct(old(self)@, ds.take(i as int)),
                directives_view(unknown@) == unrecognized(ds.take(i as int), true),
            decreases commands.len() - i,
        {
            let d = &commands[i];
            assert(ds.take(i + 1).drop_last() =~= ds.take(i as int));
            assert(ds.take(i + 1).last() == d@);
            if str_eq(d.key.as_str(), "json_transform") && str_eq(d.value.as_str(), "snake_case") {
                self.snake_case_members();
            } else if str_eq(d.key.as_str(), "json_inner") {
                self.inner_root = d.value.clone();
            } else {
                unknown.push(copy_directive(d));
            }
            assert(directives_view(unknown@) =~= unrecognized(ds.take(i + 1), true));
            i += 1;
        }
        assert(ds.take(i as int) =~= ds);
        unknown
    }

    fn snake_case_members(&mut self)
        ensures
            final(self)@ == (DeclView {
                members: old(self)@.members.map_values(|m: MemberView| snake_unless_fixed(m)),
                ..old(self)@
            }),
    {
        let mut rest: Vec<StructMember> = Vec::new();
        std::mem::swap(&mut self.members, &mut rest);
        let ghost orig = members_view(rest@);
        let mut done: Vec<StructMember> = Vec::new();
        while rest.len() > 0
            invariant
                orig.len() == done.len() + rest.len(),
                members_view(rest@) == orig.skip(done.len() as int),
                members_view(done@) == orig.take(done.len() as int).map_values(
                    |m: MemberView| snake_unless_fixed(m),
                ),
                self.full_name@ == old(self).full_name@,
                self.inner_root@ == old(self).inner_root@,
                orig == members_view(old(self).members@),
            decreases rest.len(),
        {
            let ghost k = done.len() as int;
            let ghost r0 = rest@;
            let ghost d0 = done@;
            assert(members_view(r0)[0] == orig.skip(k)[0]);
            let mut m = rest.remove(0);
            assert(rest@ =~= r0.skip(1));
            assert(m@ == orig[k]);
            if !m.fixed_name {
                m.json_name = to_snake_case(m.json_name.as_str());
            }
            assert(m@ == snake_unless_fixed(orig[k]));
            done.push(m);
            assert forall|j: int| 0 <= j < rest@.len() implies members_view(rest@)[j] == orig.skip(
                k + 1,
            )[j] by {
                assert(members_view(r0)[j + 1] == orig.skip(k)[j + 1]);
            }
            assert(members_view(rest@) =~= orig.skip(k + 1));
            assert forall|j: int| 0 <= j <= k implies members_view(done@)[j] == orig.take(
                k + 1,
            ).map_values(|m: MemberView| snake_unless_fixed(m))[j] by {
                if j < k {
                    assert(members_view(d0)[j] == orig.take(k).map_values(
                        |m: MemberView| snake_unless_fixed(m),
                    )[j]);
                }
            }
            assert(members_view(done@) =~= orig.take(k + 1).map_values(
                |m: MemberView| snake_unless_fixed(m),
            ));
        }
        assert(orig.take(orig.len() as int) =~= orig);
        self.members = done;
        assert(self@.members =~= old(self)@.members.map_values(
            |m: MemberView| snake_unless_fixed(m),
        ));
    }
}

} // verus!
