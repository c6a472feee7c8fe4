use vstd::prelude::*;
use crate::guid::{spec_guid_from_args, Guid};
use crate::model::{
    lex_leq, spec_find_attr, spec_has_attr, str_leq, AttrKind, MethodDef, Reader, Value,
};
use crate::types::{
    list_bounded, list_refs_below, refs_below, spec_subst, subst, ty_bounded, type_eq, Type,
    TypeDef, TypeKind, TypeList,
};

verus! {

/// The relationship of an implemented interface to its implementing type.
#[derive(Clone, Copy, Debug, PartialEq, Eq, Structural)]
pub enum InterfaceKind {
    Unmarked,
    Default,
    Overridable,
    Static,
    Base,
}

/// An implemented interface with its relationship kind.
pub struct Interface {
    pub ty: Type,
    pub kind: InterfaceKind,
}

/// The rank of the type definition a type is headed by, if any: the walk over
/// interface edges descends strictly along it.
pub open spec fn head_rk(m: Map<int, nat>, ty: Type) -> nat {
    match ty {
        Type::TypeDef(d, _) => m[d.0 as int] + 1,
        _ => 0,
    }
}

/// Whether an interface equal to `ty` is already listed.
pub open spec fn spec_contains_ty(s: Seq<Interface>, ty: Type) -> bool {
    exists|j: int| 0 <= j < s.len() && (#[trigger] s[j]).ty == ty
}

/// Upgrades every listed occurrence of `ty` to the default kind.
pub open spec fn spec_upgrade(s: Seq<Interface>, ty: Type) -> Seq<Interface> {
    Seq::new(
        s.len(),
        |j: int|
            if s[j].ty == ty {
                Interface { ty: s[j].ty, kind: InterfaceKind::Default }
            } else {
                s[j]
            },
    )
}

/// The kind an interface edge contributes before merging.
pub open spec fn spec_edge_kind0(attrs: Seq<crate::model::Attribute>) -> InterfaceKind {
    if spec_has_attr(attrs, AttrKind::DefaultIface) {
        InterfaceKind::Default
    } else if spec_has_attr(attrs, AttrKind::Overridable) {
        InterfaceKind::Overridable
    } else {
        InterfaceKind::Unmarked
    }
}

/// The depth-first walk over a type's interface edges: dependencies are
/// listed before dependents, an overridable edge is dropped, a rediscovered
/// interface is upgraded to default when either occurrence was default, and
/// edges reached under a base class are tagged as base.
pub open spec fn spec_walk(r: Reader, acc: Seq<Interface>, parent: Type, is_base: bool) -> Seq<
    Interface,
>
    decreases head_rk(r.rank(), parent), 1nat, 0nat,
    when r.wf() && ty_bounded(parent, r.n())
    via spec_walk_dec
{
    match parent {
        Type::TypeDef(d, gs) => spec_walk_edges(r, acc, d, gs, 0, is_base),
        _ => acc,
    }
}

pub open spec fn spec_walk_edges(
    r: Reader,
    acc: Seq<Interface>,
    d: TypeDef,
    gs: TypeList,
    k: int,
    is_base: bool,
) -> Seq<Interface>
    decreases
            r.rank()[d.0 as int] + 1,
            0nat,
            r.types@[d.0 as int].interface_impls@.len() - k,
    when r.wf() && d.0 < r.types@.len() && list_bounded(gs, r.n()) && 0 <= k
    via spec_walk_edges_dec
{
    if k >= r.types@[d.0 as int].interface_impls@.len() {
        acc
    } else {
        let e = r.types@[d.0 as int].interface_impls@[k];
        let kind0 = spec_edge_kind0(e.attributes@);
        if kind0 == InterfaceKind::Overridable {
            spec_walk_edges(r, acc, d, gs, k + 1, is_base)
        } else {
            let cty = spec_subst(e.ty, gs.seq());
            let ck = if !is_base && kind0 == InterfaceKind::Default {
                InterfaceKind::Default
            } else if is_base {
                InterfaceKind::Base
            } else {
                InterfaceKind::Unmarked
            };
            if spec_contains_ty(acc, cty) {
                let acc2 = if ck == InterfaceKind::Default {
                    spec_upgrade(acc, cty)
                } else {
                    acc
                };
                spec_walk_edges(r, acc2, d, gs, k + 1, is_base)
            } else {
                let acc2 = spec_walk(r, acc, cty, is_base).push(Interface { ty: cty, kind: ck });
                spec_walk_edges(r, acc2, d, gs, k + 1, is_base)
            }
        }
    }
}

#[via_fn]
proof fn spec_walk_dec(r: Reader, acc: Seq<Interface>, parent: Type, is_base: bool) {
}

#[via_fn]
proof fn spec_walk_edges_dec(
    r: Reader,
    acc: Seq<Interface>,
    d: TypeDef,
    gs: TypeList,
    k: int,
    is_base: bool,
) {
    if r.wf() && d.0 < r.types@.len() && list_bounded(gs, r.n()) && 0 <= k && k < r.types@[d.0
        as int].interface_impls@.len() {
        r.lemma_rank();
        assert(r.valid_rank_row(r.rank(), d.0 as int));
        let e = r.types@[d.0 as int].interface_impls@[k];
        lemma_subst_head(r.rank(), e.ty, gs.seq(), r.rank()[d.0 as int]);
        assert(r.row_bounded(r.types@[d.0 as int]));
        crate::types::lemma_list_bounded_seq(gs, r.n());
        crate::types::lemma_subst_bounded(e.ty, gs.seq(), r.n());
    }
}

/// Binding generics keeps the head of an interface edge below the declaring
/// row's rank: the head is a type definition whose rank the edge bounds, or
/// no type definition at all.
pub proof fn lemma_subst_head(m: Map<int, nat>, ty: Type, gs: Seq<Type>, b: nat)
    requires
        refs_below(m, ty, b),
        !(ty matches Type::GenericParam(_)),
    ensures
        head_rk(m, spec_subst(ty, gs)) <= b,
{
    match ty {
        Type::TypeDef(_, _) => {},
        _ => {
            assert(!(spec_subst(ty, gs) matches Type::TypeDef(_, _)));
        },
    }
}

/// Every type the walk lists beyond the ones already listed is headed by a
/// definition of strictly smaller rank than the parent, so a walk never
/// rediscovers the type it was entered for.
pub proof fn lemma_walk_new_tys(r: Reader, acc: Seq<Interface>, parent: Type, is_base: bool)
    requires
        r.wf(),
        ty_bounded(parent, r.n()),
    ensures
        forall|t: Type|
            spec_contains_ty(spec_walk(r, acc, parent, is_base), t) ==> spec_contains_ty(acc, t)
                || head_rk(r.rank(), t) < head_rk(r.rank(), parent),
    decreases head_rk(r.rank(), parent), 1nat, 0nat,
{
    match parent {
        Type::TypeDef(d, gs) => {
            lemma_walk_edges_new_tys(r, acc, d, gs, 0, is_base);
        },
        _ => {},
    }
}

pub proof fn lemma_walk_edges_new_tys(
    r: Reader,
    acc: Seq<Interface>,
    d: TypeDef,
    gs: TypeList,
    k: int,
    is_base: bool,
)
    requires
        r.wf(),
        d.0 < r.types@.len(),
        list_bounded(gs, r.n()),
        0 <= k,
    ensures
        forall|t: Type|
            spec_contains_ty(spec_walk_edges(r, acc, d, gs, k, is_base), t) ==> spec_contains_ty(
                acc,
                t,
            ) || head_rk(r.rank(), t) <= r.rank()[d.0 as int],
    decreases r.rank()[d.0 as int] + 1, 0nat, r.types@[d.0 as int].interface_impls@.len() - k,
{
    if k < r.types@[d.0 as int].interface_impls@.len() {
        r.lemma_rank();
        assert(r.valid_rank_row(r.rank(), d.0 as int));
        let e = r.types@[d.0 as int].interface_impls@[k];
        lemma_subst_head(r.rank(), e.ty, gs.seq(), r.rank()[d.0 as int]);
        assert(r.row_bounded(r.types@[d.0 as int]));
        crate::types::lemma_list_bounded_seq(gs, r.n());
        crate::types::lemma_subst_bounded(e.ty, gs.seq(), r.n());
        let kind0 = spec_edge_kind0(e.attributes@);
        if kind0 == InterfaceKind::Overridable {
            lemma_walk_edges_new_tys(r, acc, d, gs, k + 1, is_base);
        } else {
            let cty = spec_subst(e.ty, gs.seq());
            let ck = if !is_base && kind0 == InterfaceKind::Default {
                InterfaceKind::Default
            } else if is_base {
                InterfaceKind::Base
            } else {
                InterfaceKind::Unmarked
            };
            if spec_contains_ty(acc, cty) {
                let acc2 = if ck == InterfaceKind::Default {
                    spec_upgrade(acc, cty)
                } else {
                    acc
                };
                lemma_upgrade_same_tys(acc, cty);
                lemma_walk_edges_new_tys(r, acc2, d, gs, k + 1, is_base);
            } else {
                lemma_walk_new_tys(r, acc, cty, is_base);
                let accw = spec_walk(r, acc, cty, is_base);
                let acc2 = accw.push(Interface { ty: cty, kind: ck });
                lemma_walk_edges_new_tys(r, acc2, d, gs, k + 1, is_base);
                let fin = spec_walk_edges(r, acc2, d, gs, k + 1, is_base);
                assert forall|t: Type| spec_contains_ty(fin, t) implies spec_contains_ty(acc, t)
                    || head_rk(r.rank(), t) <= r.rank()[d.0 as int] by {
                    if spec_contains_ty(acc2, t) {
                        let j = choose|j: int|
                            0 <= j < acc2.len() && (#[trigger] acc2[j]).ty == t;
                        if j < accw.len() {
                            assert(spec_contains_ty(accw, t));
                        } else {
                            assert(t == cty);
                        }
                    }
                }
            }
        }
    }
}

/// Upgrading kinds leaves the listed set of structural types as it was.
pub proof fn lemma_upgrade_same_tys(s: Seq<Interface>, ty: Type)
    ensures
        forall|t: Type| spec_contains_ty(spec_upgrade(s, ty), t) == spec_contains_ty(s, t),
{
    assert forall|t: Type| spec_contains_ty(spec_upgrade(s, ty), t) == spec_contains_ty(
        s,
        t,
    ) by {
        if spec_contains_ty(spec_upgrade(s, ty), t) {
            let j = choose|j: int|
                0 <= j < spec_upgrade(s, ty).len() && (#[trigger] spec_upgrade(s, ty)[j]).ty == t;
            assert(s[j].ty == t);
        }
        if spec_contains_ty(s, t) {
            let j = choose|j: int| 0 <= j < s.len() && (#[trigger] s[j]).ty == t;
            assert(spec_upgrade(s, ty)[j].ty == t);
        }
    }
}

/// No listed interface carries the overridable kind.
pub open spec fn spec_no_overridable(s: Seq<Interface>) -> bool {
    forall|j: int| 0 <= j < s.len() ==> (#[trigger] s[j]).kind != InterfaceKind::Overridable
}

/// No two listed interfaces share a structural type.
pub open spec fn spec_distinct_tys(s: Seq<Interface>) -> bool {
    forall|a: int, b: int| 0 <= a < b < s.len() ==> s[a].ty != s[b].ty
}

/// The walk preserves structural-type distinctness and never introduces the
/// overridable kind: it pushes an interface only after looking for it.
pub proof fn lemma_walk_invariants(r: Reader, acc: Seq<Interface>, parent: Type, is_base: bool)
    requires
        r.wf(),
        ty_bounded(parent, r.n()),
        spec_distinct_tys(acc),
        spec_no_overridable(acc),
    ensures
        spec_distinct_tys(spec_walk(r, acc, parent, is_base)),
        spec_no_overridable(spec_walk(r, acc, parent, is_base)),
    decreases head_rk(r.rank(), parent), 1nat, 0nat,
{
    match parent {
        Type::TypeDef(d, gs) => {
            lemma_walk_edges_invariants(r, acc, d, gs, 0, is_base);
        },
        _ => {},
    }
}

pub proof fn lemma_walk_edges_invariants(
    r: Reader,
    acc: Seq<Interface>,
    d: TypeDef,
    gs: TypeList,
    k: int,
    is_base: bool,
)
    requires
        r.wf(),
        d.0 < r.types@.len(),
        list_bounded(gs, r.n()),
        0 <= k,
        spec_distinct_tys(acc),
        spec_no_overridable(acc),
    ensures
        spec_distinct_tys(spec_walk_edges(r, acc, d, gs, k, is_base)),
        spec_no_overridable(spec_walk_edges(r, acc, d, gs, k, is_base)),
    decreases r.rank()[d.0 as int] + 1, 0nat, r.types@[d.0 as int].interface_impls@.len() - k,
{
    if k < r.types@[d.0 as int].interface_impls@.len() {
        r.lemma_rank();
        assert(r.valid_rank_row(r.rank(), d.0 as int));
        let e = r.types@[d.0 as int].interface_impls@[k];
        lemma_subst_head(r.rank(), e.ty, gs.seq(), r.rank()[d.0 as int]);
        assert(r.row_bounded(r.types@[d.0 as int]));
        crate::types::lemma_list_bounded_seq(gs, r.n());
        crate::types::lemma_subst_bounded(e.ty, gs.seq(), r.n());
        let kind0 = spec_edge_kind0(e.attributes@);
        if kind0 == InterfaceKind::Overridable {
            lemma_walk_edges_invariants(r, acc, d, gs, k + 1, is_base);
        } else {
            let cty = spec_subst(e.ty, gs.seq());
            let ck = if !is_base && kind0 == InterfaceKind::Default {
                InterfaceKind::Default
            } else if is_base {
                InterfaceKind::Base
            } else {
                InterfaceKind::Unmarked
            };
            if spec_contains_ty(acc, cty) {
                let acc2 = if ck == InterfaceKind::Default {
                    spec_upgrade(acc, cty)
                } else {
                    acc
                };
                assert(spec_distinct_tys(acc2)) by {
                    assert(forall|j: int|
                        0 <= j < acc.len() ==> (#[trigger] spec_upgrade(acc, cty)[j]).ty
                            == acc[j].ty);
                }
                assert(spec_no_overridable(acc2));
                lemma_walk_edges_invariants(r, acc2, d, gs, k + 1, is_base);
            } else {
                lemma_walk_invariants(r, acc, cty, is_base);
                lemma_walk_new_tys(r, acc, cty, is_base);
                let accw = spec_walk(r, acc, cty, is_base);
                assert(!spec_contains_ty(accw, cty)) by {
                    if spec_contains_ty(accw, cty) {
                        assert(spec_contains_ty(acc, cty) || head_rk(r.rank(), cty) < head_rk(
                            r.rank(),
                            cty,
                        ));
                    }
                }
                let acc2 = accw.push(Interface { ty: cty, kind: ck });
                assert(spec_distinct_tys(acc2)) by {
                    assert forall|a: int, b: int| 0 <= a < b < acc2.len() implies acc2[a].ty
                        != acc2[b].ty by {
                        if b == acc2.len() - 1 {
                            assert(acc2[a] == accw[a]);
                            assert(spec_contains_ty(accw, accw[a].ty));
                        }
                    }
                }
                assert(spec_no_overridable(acc2)) by {
                    assert(forall|j: int|
                        0 <= j < accw.len() ==> (#[trigger] acc2[j]).kind == accw[j].kind);
                    assert(acc2[acc2.len() - 1].kind == ck);
                }
                lemma_walk_edges_invariants(r, acc2, d, gs, k + 1, is_base);
            }
        }
    }
}

fn contains_ty(v: &Vec<Interface>, ty: &Type) -> (res: bool)
    ensures
        res == spec_contains_ty(v@, *ty),
{
    let n = v.len();
    let mut j: usize = 0;
    while j < n
        invariant
            0 <= j <= n,
            n == v@.len(),
            forall|i: int| 0 <= i < j ==> (#[trigger] v@[i]).ty != *ty,
        decreases n - j,
    {
        if type_eq(&v[j].ty, ty) {
            return true;
        }
        j += 1;
    }
    false
}

fn upgrade(v: &mut Vec<Interface>, ty: &Type)
    ensures
        final(v)@ == spec_upgrade(old(v)@, *ty),
{
    let n = v.len();
    let mut j: usize = 0;
    while j < n
        invariant
            0 <= j <= n,
            n == v@.len(),
            n == old(v)@.len(),
            forall|i: int| j <= i < n ==> v@[i] == old(v)@[i],
            forall|i: int| 0 <= i < j ==> v@[i] == spec_upgrade(old(v)@, *ty)[i],
        decreases n - j,
    {
        if type_eq(&v[j].ty, ty) {
            let t = v[j].ty.duplicate();
            v[j] = Interface { ty: t, kind: InterfaceKind::Default };
        } else {
            let t = v[j].ty.duplicate();
            let k = v[j].kind;
            v[j] = Interface { ty: t, kind: k };
        }
        j += 1;
    }
    proof {
        assert(v@ =~= spec_upgrade(old(v)@, *ty));
    }
}

fn walk(reader: &Reader, result: &mut Vec<Interface>, parent: &Type, is_base: bool)
    requires
        reader.wf(),
        ty_bounded(*parent, reader.n()),
    ensures
        final(result)@ == spec_walk(*reader, old(result)@, *parent, is_base),
    decreases head_rk(reader.rank(), *parent), 1nat, 0nat,
{
    match parent {
        Type::TypeDef(d, gs) => {
            walk_edges(reader, result, *d, gs, 0, is_base);
        },
        _ => {},
    }
}

fn walk_edges(
    reader: &Reader,
    result: &mut Vec<Interface>,
    d: TypeDef,
    gs: &TypeList,
    k: usize,
    is_base: bool,
)
    requires
        reader.wf(),
        reader.valid_type_def(d),
        list_bounded(*gs, reader.n()),
    ensures
        final(result)@ == spec_walk_edges(*reader, old(result)@, d, *gs, k as int, is_base),
    decreases
            reader.rank()[d.0 as int] + 1,
            0nat,
            reader.types@[d.0 as int].interface_impls@.len() - k,
{
    let ne = reader.types[d.0].interface_impls.len();
    if k >= ne {
        return ;
    }
    proof {
        reader.lemma_rank();
        assert(reader.valid_rank_row(reader.rank(), d.0 as int));
        let e = reader.types@[d.0 as int].interface_impls@[k as int];
        lemma_subst_head(reader.rank(), e.ty, gs.seq(), reader.rank()[d.0 as int]);
        assert(reader.row_bounded(reader.types@[d.0 as int]));
        crate::types::lemma_list_bounded_seq(*gs, reader.n());
        crate::types::lemma_subst_bounded(e.ty, gs.seq(), reader.n());
    }
    let attrs = &reader.types[d.0].interface_impls[k].attributes;
    let kind0 = if crate::model::has_attr(attrs, AttrKind::DefaultIface) {
        InterfaceKind::Default
    } else if crate::model::has_attr(attrs, AttrKind::Overridable) {
        InterfaceKind::Overridable
    } else {
        InterfaceKind::Unmarked
    };
    if matches!(kind0, InterfaceKind::Overridable) {
        walk_edges(reader, result, d, gs, k + 1, is_base);
        return ;
    }
    let cty = subst(&reader.types[d.0].interface_impls[k].ty, gs);
    let ck = if !is_base && matches!(kind0, InterfaceKind::Default) {
        InterfaceKind::Default
    } else if is_base {
        InterfaceKind::Base
    } else {
        InterfaceKind::Unmarked
    };
    if contains_ty(result, &cty) {
        if matches!(ck, InterfaceKind::Default) {
            upgrade(result, &cty);
        }
        walk_edges(reader, result, d, gs, k + 1, is_base);
    } else {
        walk(reader, result, &cty, is_base);
        result.push(Interface { ty: cty, kind: ck });
        walk_edges(reader, result, d, gs, k + 1, is_base);
    }
}


/// The ancestor chain of a definition, nearest base first, following the
/// base-type name until the root object type or an unresolvable name.
pub open spec fn spec_bases(r: Reader, d: TypeDef) -> Seq<TypeDef>
    decreases r.rank()[d.0 as int],
    when r.wf() && d.0 < r.types@.len()
    via spec_bases_dec
{
    match r.types@[d.0 as int].extends {
        Some(tn) => if tn.namespace@ == "System"@ && tn.name@ == "Object"@ {
            Seq::empty()
        } else {
            match crate::signature::spec_first_named(r, tn.namespace@, tn.name@) {
                Some(j) => seq![TypeDef(j as usize)] + spec_bases(r, TypeDef(j as usize)),
                None => Seq::empty(),
            }
        },
        None => Seq::empty(),
    }
}

#[via_fn]
proof fn spec_bases_dec(r: Reader, d: TypeDef) {
    if r.wf() && d.0 < r.types@.len() {
        r.lemma_rank();
        crate::model::lemma_rows_fit(r);
        assert(r.valid_rank_row(r.rank(), d.0 as int));
        match r.types@[d.0 as int].extends {
            Some(tn) => {
                crate::signature::lemma_first_named_range(r, tn.namespace@, tn.name@, 0);
                match crate::signature::spec_first_named(r, tn.namespace@, tn.name@) {
                    Some(j) => {
                        assert(r.named(j, tn));
                    },
                    None => (),
                }
            },
            None => (),
        }
    }
}

/// Every base-type name along the ancestor chain resolves to a row: an
/// unresolvable name is a fatal invariant violation of the input graph.
pub open spec fn spec_bases_resolvable(r: Reader, d: TypeDef) -> bool
    decreases r.rank()[d.0 as int],
    when r.wf() && d.0 < r.types@.len()
    via spec_bases_resolvable_dec
{
    match r.types@[d.0 as int].extends {
        Some(tn) => if tn.namespace@ == "System"@ && tn.name@ == "Object"@ {
            true
        } else {
            match crate::signature::spec_first_named(r, tn.namespace@, tn.name@) {
                Some(j) => spec_bases_resolvable(r, TypeDef(j as usize)),
                None => false,
            }
        },
        None => true,
    }
}

#[via_fn]
proof fn spec_bases_resolvable_dec(r: Reader, d: TypeDef) {
    if r.wf() && d.0 < r.types@.len() {
        r.lemma_rank();
        crate::model::lemma_rows_fit(r);
        assert(r.valid_rank_row(r.rank(), d.0 as int));
        match r.types@[d.0 as int].extends {
            Some(tn) => {
                crate::signature::lemma_first_named_range(r, tn.namespace@, tn.name@, 0);
                match crate::signature::spec_first_named(r, tn.namespace@, tn.name@) {
                    Some(j) => {
                        assert(r.named(j, tn));
                    },
                    None => (),
                }
            },
            None => (),
        }
    }
}

/// Every type name carried by a static or activation attribute resolves to a
/// row: an unresolvable name is a fatal invariant violation.
pub open spec fn spec_statics_resolvable(
    r: Reader,
    attrs: Seq<crate::model::Attribute>,
) -> bool {
    forall|k: int|
        0 <= k < attrs.len() && ((#[trigger] attrs[k]).kind == AttrKind::StaticIface
            || attrs[k].kind == AttrKind::Activatable) ==> match spec_typename_arg_from(
            attrs[k].args@,
            0,
        ) {
            Some(tn) => crate::signature::spec_first_named(
                r,
                spec_parse_type_name(tn).0,
                spec_parse_type_name(tn).1,
            ) is Some,
            None => true,
        }
}

/// Every listed base is a valid row.
pub proof fn lemma_bases_valid(r: Reader, d: TypeDef)
    requires
        r.wf(),
        d.0 < r.types@.len(),
    ensures
        forall|k: int|
            0 <= k < spec_bases(r, d).len() ==> (#[trigger] spec_bases(r, d)[k]).0
                < r.types@.len(),
    decreases r.rank()[d.0 as int],
{
    r.lemma_rank();
    crate::model::lemma_rows_fit(r);
    assert(r.valid_rank_row(r.rank(), d.0 as int));
    match r.types@[d.0 as int].extends {
        Some(tn) => {
            crate::signature::lemma_first_named_range(r, tn.namespace@, tn.name@, 0);
            if !(tn.namespace@ == "System"@ && tn.name@ == "Object"@) {
                match crate::signature::spec_first_named(r, tn.namespace@, tn.name@) {
                    Some(j) => {
                        assert(r.named(j, tn));
                        lemma_bases_valid(r, TypeDef(j as usize));
                        let bs = spec_bases(r, d);
                        let rest = spec_bases(r, TypeDef(j as usize));
                        assert forall|k: int| 0 <= k < bs.len() implies (#[trigger] bs[k]).0
                            < r.types@.len() by {
                            if k > 0 {
                                assert(bs[k] == rest[k - 1]);
                            }
                        }
                    },
                    None => (),
                }
            }
        },
        None => (),
    }
}

/// The ordered ancestor classes of a definition, resolved by name.
pub fn type_def_bases(reader: &Reader, row: TypeDef) -> (res: Vec<TypeDef>)
    requires
        reader.wf(),
        reader.valid_type_def(row),
        spec_bases_resolvable(*reader, row),
    ensures
        res@ == spec_bases(*reader, row),
    decreases reader.rank()[row.0 as int],
{
    proof {
        reader.lemma_rank();
        assert(reader.valid_rank_row(reader.rank(), row.0 as int));
    }
    let mut res: Vec<TypeDef> = Vec::new();
    match &reader.types[row.0].extends {
        Some(tn) => {
            proof {
                crate::signature::lemma_first_named_range(
                    *reader,
                    tn.namespace@,
                    tn.name@,
                    0,
                );
            }
            if crate::model::str_eq(tn.namespace.as_str(), "System") && crate::model::str_eq(
                tn.name.as_str(),
                "Object",
            ) {
                res
            } else {
                match crate::signature::first_named(
                    reader,
                    tn.namespace.as_str(),
                    tn.name.as_str(),
                ) {
                    Some(b) => {
                        proof {
                            assert(reader.named(b.0 as int, reader.types@[row.0 as int]
                                .extends->Some_0));
                            assert(reader.rank()[b.0 as int] < reader.rank()[row.0 as int]);
                        }
                        res.push(b);
                        let mut rest = type_def_bases(reader, b);
                        let mut k: usize = 0;
                        let ghost restv = rest@;
                        let nrest = rest.len();
                        while k < nrest
                            invariant
                                0 <= k <= nrest,
                                nrest == restv.len(),
                                rest@ == restv,
                                res@ == seq![b] + restv.take(k as int),
                            decreases nrest - k,
                        {
                            let e = rest[k];
                            res.push(e);
                            proof {
                                assert(res@ =~= seq![b] + restv.take(k as int + 1));
                            }
                            k += 1;
                        }
                        proof {
                            assert(restv.take(nrest as int) =~= restv);
                            assert(res@ =~= seq![b] + restv);
                        }
                        res
                    },
                    None => res,
                }
            }
        },
        None => res,
    }
}

/// The position of the last separator dot in a full type name.
pub open spec fn spec_last_dot(sq: Seq<char>, i: int) -> Option<int>
    decreases i + 1,
{
    if i < 0 || i >= sq.len() {
        None
    } else if sq[i] == '.' {
        Some(i)
    } else {
        spec_last_dot(sq, i - 1)
    }
}

/// Splits a namespace-qualified name at its last dot; a name with no dot has
/// an empty namespace.
pub open spec fn spec_parse_type_name(sq: Seq<char>) -> (Seq<char>, Seq<char>) {
    match spec_last_dot(sq, sq.len() - 1) {
        Some(p) => (sq.subrange(0, p), sq.subrange(p + 1, sq.len() as int)),
        None => (Seq::empty(), sq),
    }
}

proof fn lemma_last_dot_range(sq: Seq<char>, i: int)
    ensures
        match spec_last_dot(sq, i) {
            Some(p) => 0 <= p <= i && p < sq.len(),
            None => true,
        },
    decreases i + 1,
{
    if 0 <= i < sq.len() && sq[i] != '.' {
        lemma_last_dot_range(sq, i - 1);
    }
}

fn last_dot(s: &str, i: usize) -> (res: Option<usize>)
    requires
        i < s@.len(),
    ensures
        match spec_last_dot(s@, i as int) {
            Some(p) => res matches Some(x) && x == p,
            None => res is None,
        },
    decreases i,
{
    if s.get_char(i) == '.' {
        Some(i)
    } else if i == 0 {
        None
    } else {
        last_dot(s, i - 1)
    }
}

/// Splits a namespace-qualified name at its last dot.
pub fn parse_type_name(s: &str) -> (res: (String, String))
    ensures
        res.0@ == spec_parse_type_name(s@).0,
        res.1@ == spec_parse_type_name(s@).1,
{
    let n = s.unicode_len();
    if n == 0 {
        proof {
            assert(s@.subrange(0, 0) =~= Seq::<char>::empty());
        }
        return (String::new(), String::new());
    }
    match last_dot(s, n - 1) {
        Some(p) => {
            proof {
                lemma_last_dot_range(s@, n as int - 1);
            }
            let ns = s.substring_char(0, p);
            let nm = s.substring_char(p + 1, n);
            (ns.to_owned(), nm.to_owned())
        },
        None => {
            proof {
                assert(s@.subrange(0, s@.len() as int) =~= s@);
            }
            let nm = s.substring_char(0, n);
            (String::new(), nm.to_owned())
        },
    }
}

/// The first type-name argument of an attribute's argument list.
pub open spec fn spec_typename_arg_from(
    args: Seq<(String, Value)>,
    j: int,
) -> Option<Seq<char>>
    decreases args.len() - j,
{
    if j < 0 || j >= args.len() {
        None
    } else {
        match args[j].1 {
            Value::TypeName(tn) => Some(tn@),
            _ => spec_typename_arg_from(args, j + 1),
        }
    }
}

fn typename_arg_from(args: &Vec<(String, Value)>, j: usize) -> (res: Option<&String>)
    requires
        j <= args@.len(),
    ensures
        match spec_typename_arg_from(args@, j as int) {
            Some(v) => res matches Some(t) && t@ == v,
            None => res is None,
        },
    decreases args@.len() - j,
{
    if j >= args.len() {
        None
    } else {
        match &args[j].1 {
            Value::TypeName(tn) => Some(tn),
            _ => typename_arg_from(args, j + 1),
        }
    }
}

/// Appends the class-level static and activation-factory interfaces named by
/// the attributes from position `k` on, each tagged static.
pub open spec fn spec_fold_statics(
    r: Reader,
    acc: Seq<Interface>,
    attrs: Seq<crate::model::Attribute>,
    k: int,
) -> Seq<Interface>
    decreases attrs.len() - k,
{
    if k < 0 || k >= attrs.len() {
        acc
    } else if attrs[k].kind == AttrKind::StaticIface || attrs[k].kind == AttrKind::Activatable {
        match spec_typename_arg_from(attrs[k].args@, 0) {
            Some(tn) => {
                let parts = spec_parse_type_name(tn);
                match crate::signature::spec_first_named(r, parts.0, parts.1) {
                    Some(j) => {
                        let x = Interface {
                            ty: Type::TypeDef(TypeDef(j as usize), TypeList::Nil),
                            kind: InterfaceKind::Static,
                        };
                        if spec_contains_ty(acc, x.ty) {
                            spec_fold_statics(r, acc, attrs, k + 1)
                        } else {
                            spec_fold_statics(r, acc.push(x), attrs, k + 1)
                        }
                    },
                    None => spec_fold_statics(r, acc, attrs, k + 1),
                }
            },
            None => spec_fold_statics(r, acc, attrs, k + 1),
        }
    } else {
        spec_fold_statics(r, acc, attrs, k + 1)
    }
}

/// Walks each ancestor's own interface edges, tagged as base interfaces.
pub open spec fn spec_fold_bases(
    r: Reader,
    acc: Seq<Interface>,
    bs: Seq<TypeDef>,
    k: int,
) -> Seq<Interface>
    decreases bs.len() - k,
{
    if k < 0 || k >= bs.len() {
        acc
    } else {
        spec_fold_bases(
            r,
            spec_walk(r, acc, Type::TypeDef(bs[k], TypeList::Nil), true),
            bs,
            k + 1,
        )
    }
}

/// The full unsorted interface list of a type: its own edges, its ancestors'
/// edges for classes, and the statically declared factory interfaces.
#[verifier::opaque]
pub open spec fn spec_type_interfaces_unsorted(r: Reader, ty: Type) -> Seq<Interface> {
    let walked = spec_walk(r, Seq::empty(), ty, false);
    match ty {
        Type::TypeDef(d, _) => if r.types@[d.0 as int].kind == TypeKind::Class {
            spec_fold_statics(
                r,
                spec_fold_bases(r, walked, spec_bases(r, d), 0),
                r.types@[d.0 as int].attributes@,
                0,
            )
        } else {
            walked
        },
        _ => walked,
    }
}

/// The name a type sorts under: the definition's name, or nothing.
pub open spec fn spec_type_name_of(r: Reader, ty: Type) -> Seq<char> {
    match ty {
        Type::TypeDef(d, _) => r.types@[d.0 as int].name@,
        _ => Seq::empty(),
    }
}

/// The sort key order of two listed interfaces.
pub open spec fn spec_sorted_by_name(r: Reader, s: Seq<Interface>) -> bool {
    forall|a: int, b: int|
        0 <= a < b < s.len() ==> lex_leq(
            spec_type_name_of(r, s[a].ty),
            spec_type_name_of(r, s[b].ty),
        )
}

/// The definition's name a type sorts under, or the empty string.
pub fn name_of_type<'a>(reader: &'a Reader, ty: &Type) -> (res: &'a str)
    requires
        reader.wf(),
        ty_bounded(*ty, reader.n()),
    ensures
        res@ == spec_type_name_of(*reader, *ty),
{
    match ty {
        Type::TypeDef(d, _) => reader.types[d.0].name.as_str(),
        _ => {
            proof {
                reveal_strlit("");
            }
            ""
        },
    }
}

/// Every element's type is bounded.
pub open spec fn ifaces_bounded(r: Reader, s: Seq<Interface>) -> bool {
    forall|j: int| 0 <= j < s.len() ==> ty_bounded((#[trigger] s[j]).ty, r.n())
}

/// Inserts one interface into a name-sorted list, after every entry that
/// sorts at or before it.
#[verifier::rlimit(60)]
fn insert_sorted(reader: &Reader, out: Vec<Interface>, x: Interface) -> (res: Vec<Interface>)
    requires
        reader.wf(),
        ifaces_bounded(*reader, out@),
        ty_bounded(x.ty, reader.n()),
        spec_sorted_by_name(*reader, out@),
    ensures
        res@.len() == out@.len() + 1,
        spec_sorted_by_name(*reader, res@),
        ifaces_bounded(*reader, res@),
        forall|j: int|
            0 <= j < res@.len() ==> (#[trigger] res@[j]) == x || exists|i: int|
                0 <= i < out@.len() && out@[i] == res@[j],
        exists|j: int| 0 <= j < res@.len() && (#[trigger] res@[j]) == x,
        forall|i: int|
            0 <= i < out@.len() ==> exists|j: int|
                0 <= j < res@.len() && res@[j] == #[trigger] out@[i],
        forall|t: Type|
            #[trigger] spec_contains_ty(res@, t) ==> spec_contains_ty(out@, t) || t == x.ty,
        (spec_distinct_tys(out@) && !spec_contains_ty(out@, x.ty)) ==> spec_distinct_tys(res@),
{
    let ghost xg = x;
    let xname = name_of_type(reader, &x.ty);
    let olen = out.len();
    let mut pos: usize = 0;
    let mut more = true;
    while more
        invariant
            reader.wf(),
            ifaces_bounded(*reader, out@),
            olen == out@.len(),
            0 <= pos <= olen,
            xname@ == spec_type_name_of(*reader, xg.ty),
            forall|j: int|
                0 <= j < pos ==> lex_leq(
                    spec_type_name_of(*reader, (#[trigger] out@[j]).ty),
                    xname@,
                ),
            !more ==> (pos == olen || !lex_leq(
                spec_type_name_of(*reader, out@[pos as int].ty),
                xname@,
            )),
        decreases olen - pos, (if more {
            1int
        } else {
            0int
        }),
    {
        if pos >= olen {
            more = false;
        } else {
            let ename = name_of_type(reader, &out[pos].ty);
            if crate::model::str_leq(ename, xname) {
                pos += 1;
            } else {
                more = false;
            }
        }
    }
    let mut out2: Vec<Interface> = Vec::new();
    let mut a: usize = 0;
    while a < pos
        invariant
            0 <= a <= pos <= out@.len(),
            out2@ =~= out@.take(a as int),
        decreases pos - a,
    {
        let e = Interface { ty: out[a].ty.duplicate(), kind: out[a].kind };
        out2.push(e);
        proof {
            assert(out2@ =~= out@.take(a as int + 1));
        }
        a += 1;
    }
    out2.push(x);
    proof {
        assert(out2@ =~= out@.take(pos as int) + seq![xg]);
    }
    let mut b: usize = pos;
    while b < olen
        invariant
            pos <= b <= olen,
            olen == out@.len(),
            out2@ =~= out@.take(pos as int) + seq![xg] + out@.subrange(pos as int, b as int),
        decreases olen - b,
    {
        let e = Interface { ty: out[b].ty.duplicate(), kind: out[b].kind };
        out2.push(e);
        proof {
            assert(out2@ =~= out@.take(pos as int) + seq![xg] + out@.subrange(
                pos as int,
                b as int + 1,
            ));
        }
        b += 1;
    }
    proof {
        let p = pos as int;
        let outg = out@;
        let res = out2@;
        assert(res =~= outg.take(p) + seq![xg] + outg.subrange(p, outg.len() as int));
        assert(res.len() == outg.len() + 1);
        assert(forall|i: int| 0 <= i < p ==> res[i] == outg[i]);
        assert(res[p] == xg);
        assert(forall|i: int| p < i < res.len() ==> res[i] == outg[i - 1]);
        assert forall|i: int| p <= i < outg.len() implies lex_leq(
            xname@,
            spec_type_name_of(*reader, (#[trigger] outg[i]).ty),
        ) by {
            crate::model::lemma_lex_total(
                spec_type_name_of(*reader, outg[p].ty),
                xname@,
                0,
            );
            if i > p {
                assert(lex_leq(
                    spec_type_name_of(*reader, outg[p].ty),
                    spec_type_name_of(*reader, outg[i].ty),
                ));
                crate::model::lemma_lex_trans(
                    xname@,
                    spec_type_name_of(*reader, outg[p].ty),
                    spec_type_name_of(*reader, outg[i].ty),
                    0,
                );
            }
        }
        assert forall|i1: int, i2: int| 0 <= i1 < i2 < res.len() implies lex_leq(
            spec_type_name_of(*reader, res[i1].ty),
            spec_type_name_of(*reader, res[i2].ty),
        ) by {
            if i1 == p && i2 > p {
                assert(res[i2] == outg[i2 - 1]);
            } else if i1 < p && i2 > p {
                assert(res[i1] == outg[i1] && res[i2] == outg[i2 - 1]);
                if i1 == i2 - 1 {
                    assert(false);
                }
            }
        }
        assert forall|i: int| 0 <= i < outg.len() implies exists|j: int|
            0 <= j < res.len() && res[j] == #[trigger] outg[i] by {
            if i < p {
                assert(res[i] == outg[i]);
            } else {
                assert(res[i + 1] == outg[i]);
            }
        }
        assert forall|t: Type| #[trigger] spec_contains_ty(res, t) implies spec_contains_ty(
            outg,
            t,
        ) || t == xg.ty by {
            let j = choose|j: int| 0 <= j < res.len() && (#[trigger] res[j]).ty == t;
            if j < p {
                assert(outg[j].ty == t);
            } else if j > p {
                assert(outg[j - 1].ty == t);
            }
        }
        if spec_distinct_tys(outg) && !spec_contains_ty(outg, xg.ty) {
            assert forall|a1: int, b1: int| 0 <= a1 < b1 < res.len() implies res[a1].ty
                != res[b1].ty by {
                if b1 == p && a1 < p {
                    assert(spec_contains_ty(outg, outg[a1].ty));
                } else if a1 == p && b1 > p {
                    assert(spec_contains_ty(outg, outg[b1 - 1].ty));
                }
            }
        }
    }
    out2
}

/// Sorts an interface list by the implemented type's name: a permutation —
/// both containment directions and the length are stated — and distinctness
/// of the listed types carries over.
#[verifier::rlimit(100)]
pub fn sort_by_name(reader: &Reader, v: &Vec<Interface>) -> (res: Vec<Interface>)
    requires
        reader.wf(),
        ifaces_bounded(*reader, v@),
    ensures
        res@.len() == v@.len(),
        spec_sorted_by_name(*reader, res@),
        ifaces_bounded(*reader, res@),
        forall|j: int| #![trigger res@[j]]
            0 <= j < res@.len() ==> exists|i: int| 0 <= i < v@.len() && v@[i] == res@[j],
        forall|i: int| #![trigger v@[i]]
            0 <= i < v@.len() ==> exists|j: int| 0 <= j < res@.len() && res@[j] == v@[i],
        spec_distinct_tys(v@) ==> spec_distinct_tys(res@),
        spec_no_overridable(v@) ==> spec_no_overridable(res@),
{
    let n = v.len();
    let mut out: Vec<Interface> = Vec::new();
    let mut idx: usize = 0;
    while idx < n
        invariant
            reader.wf(),
            ifaces_bounded(*reader, v@),
            n == v@.len(),
            0 <= idx <= n,
            out@.len() == idx,
            spec_sorted_by_name(*reader, out@),
            ifaces_bounded(*reader, out@),
            forall|j: int|
                0 <= j < out@.len() ==> exists|i: int|
                    0 <= i < idx && v@[i] == #[trigger] out@[j],
            forall|i: int|
                0 <= i < idx ==> exists|j: int|
                    0 <= j < out@.len() && out@[j] == #[trigger] v@[i],
            spec_distinct_tys(v@) ==> spec_distinct_tys(out@),
            spec_distinct_tys(v@) ==> forall|t: Type|
                #[trigger] spec_contains_ty(out@, t) ==> exists|i: int|
                    0 <= i < idx && (#[trigger] v@[i]).ty == t,
            spec_no_overridable(v@) ==> spec_no_overridable(out@),
        decreases n - idx,
    {
        let x = Interface { ty: v[idx].ty.duplicate(), kind: v[idx].kind };
        let ghost old_out = out@;
        proof {
            if spec_distinct_tys(v@) {
                if spec_contains_ty(old_out, v@[idx as int].ty) {
                    let i = choose|i: int|
                        0 <= i < idx && (#[trigger] v@[i]).ty == v@[idx as int].ty;
                    assert(false);
                }
            }
        }
        let out2 = insert_sorted(reader, out, x);
        proof {
            let res = out2@;
            assert forall|j: int| 0 <= j < res.len() implies exists|i: int|
                0 <= i < idx + 1 && v@[i] == #[trigger] res[j] by {
                if res[j] == (Interface { ty: v@[idx as int].ty, kind: v@[idx as int].kind }) {
                    assert(v@[idx as int] == res[j]);
                } else {
                    let i0 = choose|i0: int| 0 <= i0 < old_out.len() && old_out[i0] == res[j];
                    let i = choose|i: int| 0 <= i < idx && v@[i] == old_out[i0];
                    assert(v@[i] == res[j]);
                }
            }
            assert forall|i: int| 0 <= i < idx + 1 implies exists|j: int|
                0 <= j < res.len() && res[j] == #[trigger] v@[i] by {
                if i == idx {
                    let j = choose|j: int|
                        0 <= j < res.len() && (#[trigger] res[j]) == (Interface {
                            ty: v@[idx as int].ty,
                            kind: v@[idx as int].kind,
                        });
                    assert(res[j] == v@[i]);
                } else {
                    let j0 = choose|j0: int|
                        0 <= j0 < old_out.len() && old_out[j0] == v@[i];
                    let j = choose|j: int| 0 <= j < res.len() && res[j] == old_out[j0];
                    assert(res[j] == v@[i]);
                }
            }
            if spec_distinct_tys(v@) {
                assert forall|t: Type| #[trigger] spec_contains_ty(res, t) implies exists|i: int|
                    0 <= i < idx + 1 && (#[trigger] v@[i]).ty == t by {
                    if spec_contains_ty(old_out, t) {
                        let i = choose|i: int|
                            0 <= i < idx && (#[trigger] v@[i]).ty == t;
                        assert(0 <= i < idx + 1 && v@[i].ty == t);
                    } else {
                        assert(t == v@[idx as int].ty);
                    }
                }
            }
            if spec_no_overridable(v@) {
                assert forall|j: int| 0 <= j < res.len() implies (#[trigger] res[j]).kind
                    != InterfaceKind::Overridable by {
                    if res[j] == (Interface { ty: v@[idx as int].ty, kind: v@[idx as int].kind }) {
                        assert(v@[idx as int].kind != InterfaceKind::Overridable);
                    } else {
                        let i0 = choose|i0: int|
                            0 <= i0 < old_out.len() && old_out[i0] == res[j];
                    }
                }
            }
        }
        out = out2;
        idx += 1;
    }
    out
}


/// The walk keeps every listed type bounded, besides distinctness and the
/// absence of the overridable kind.
pub proof fn lemma_walk_full(r: Reader, acc: Seq<Interface>, parent: Type, is_base: bool)
    requires
        r.wf(),
        ty_bounded(parent, r.n()),
        ifaces_bounded(r, acc),
    ensures
        ifaces_bounded(r, spec_walk(r, acc, parent, is_base)),
    decreases head_rk(r.rank(), parent), 1nat, 0nat,
{
    match parent {
        Type::TypeDef(d, gs) => {
            lemma_walk_edges_full(r, acc, d, gs, 0, is_base);
        },
        _ => {},
    }
}

pub proof fn lemma_walk_edges_full(
    r: Reader,
    acc: Seq<Interface>,
    d: TypeDef,
    gs: TypeList,
    k: int,
    is_base: bool,
)
    requires
        r.wf(),
        d.0 < r.types@.len(),
        list_bounded(gs, r.n()),
        0 <= k,
        ifaces_bounded(r, acc),
    ensures
        ifaces_bounded(r, spec_walk_edges(r, acc, d, gs, k, is_base)),
    decreases r.rank()[d.0 as int] + 1, 0nat, r.types@[d.0 as int].interface_impls@.len() - k,
{
    if k < r.types@[d.0 as int].interface_impls@.len() {
        r.lemma_rank();
        assert(r.valid_rank_row(r.rank(), d.0 as int));
        let e = r.types@[d.0 as int].interface_impls@[k];
        lemma_subst_head(r.rank(), e.ty, gs.seq(), r.rank()[d.0 as int]);
        assert(r.row_bounded(r.types@[d.0 as int]));
        crate::types::lemma_list_bounded_seq(gs, r.n());
        crate::types::lemma_subst_bounded(e.ty, gs.seq(), r.n());
        let kind0 = spec_edge_kind0(e.attributes@);
        if kind0 == InterfaceKind::Overridable {
            lemma_walk_edges_full(r, acc, d, gs, k + 1, is_base);
        } else {
            let cty = spec_subst(e.ty, gs.seq());
            let ck = if !is_base && kind0 == InterfaceKind::Default {
                InterfaceKind::Default
            } else if is_base {
                InterfaceKind::Base
            } else {
                InterfaceKind::Unmarked
            };
            if spec_contains_ty(acc, cty) {
                let acc2 = if ck == InterfaceKind::Default {
                    spec_upgrade(acc, cty)
                } else {
                    acc
                };
                if ck == InterfaceKind::Default {
                    assert forall|j: int| 0 <= j < spec_upgrade(acc, cty).len() implies ty_bounded(
                        (#[trigger] spec_upgrade(acc, cty)[j]).ty,
                        r.n(),
                    ) by {
                        assert(spec_upgrade(acc, cty)[j].ty == acc[j].ty);
                        assert(ty_bounded(acc[j].ty, r.n()));
                    }
                }
                assert(ifaces_bounded(r, acc2));
                lemma_walk_edges_full(r, acc2, d, gs, k + 1, is_base);
            } else {
                lemma_walk_full(r, acc, cty, is_base);
                let acc2 = spec_walk(r, acc, cty, is_base).push(Interface { ty: cty, kind: ck });
                lemma_walk_edges_full(r, acc2, d, gs, k + 1, is_base);
            }
        }
    }
}

/// The base walks and the static interfaces keep the list bounded and never
/// introduce the overridable kind.
pub proof fn lemma_fold_bases_full(r: Reader, acc: Seq<Interface>, bs: Seq<TypeDef>, k: int)
    requires
        r.wf(),
        ifaces_bounded(r, acc),
        spec_no_overridable(acc),
        spec_distinct_tys(acc),
        forall|i: int| 0 <= i < bs.len() ==> (#[trigger] bs[i]).0 < r.types@.len(),
    ensures
        ifaces_bounded(r, spec_fold_bases(r, acc, bs, k)),
        spec_no_overridable(spec_fold_bases(r, acc, bs, k)),
        spec_distinct_tys(spec_fold_bases(r, acc, bs, k)),
    decreases bs.len() - k,
{
    if 0 <= k < bs.len() {
        assert(bs[k].0 < r.types@.len());
        assert(list_bounded(TypeList::Nil, r.n()));
        assert(ty_bounded(Type::TypeDef(bs[k], TypeList::Nil), r.n()));
        lemma_walk_full(r, acc, Type::TypeDef(bs[k], TypeList::Nil), true);
        lemma_walk_invariants_noover(r, acc, Type::TypeDef(bs[k], TypeList::Nil), true);
        lemma_walk_invariants(r, acc, Type::TypeDef(bs[k], TypeList::Nil), true);
        lemma_fold_bases_full(r, spec_walk(r, acc, Type::TypeDef(bs[k], TypeList::Nil), true), bs, k + 1);
    }
}

/// The walk alone never introduces the overridable kind, regardless of
/// distinctness.
pub proof fn lemma_walk_invariants_noover(r: Reader, acc: Seq<Interface>, parent: Type, is_base: bool)
    requires
        r.wf(),
        ty_bounded(parent, r.n()),
        spec_no_overridable(acc),
    ensures
        spec_no_overridable(spec_walk(r, acc, parent, is_base)),
    decreases head_rk(r.rank(), parent), 1nat, 0nat,
{
    match parent {
        Type::TypeDef(d, gs) => {
            lemma_walk_edges_noover(r, acc, d, gs, 0, is_base);
        },
        _ => {},
    }
}

pub proof fn lemma_walk_edges_noover(
    r: Reader,
    acc: Seq<Interface>,
    d: TypeDef,
    gs: TypeList,
    k: int,
    is_base: bool,
)
    requires
        r.wf(),
        d.0 < r.types@.len(),
        list_bounded(gs, r.n()),
        0 <= k,
        spec_no_overridable(acc),
    ensures
        spec_no_overridable(spec_walk_edges(r, acc, d, gs, k, is_base)),
    decreases r.rank()[d.0 as int] + 1, 0nat, r.types@[d.0 as int].interface_impls@.len() - k,
{
    if k < r.types@[d.0 as int].interface_impls@.len() {
        r.lemma_rank();
        assert(r.valid_rank_row(r.rank(), d.0 as int));
        let e = r.types@[d.0 as int].interface_impls@[k];
        lemma_subst_head(r.rank(), e.ty, gs.seq(), r.rank()[d.0 as int]);
        assert(r.row_bounded(r.types@[d.0 as int]));
        crate::types::lemma_list_bounded_seq(gs, r.n());
        crate::types::lemma_subst_bounded(e.ty, gs.seq(), r.n());
        let kind0 = spec_edge_kind0(e.attributes@);
        if kind0 == InterfaceKind::Overridable {
            lemma_walk_edges_noover(r, acc, d, gs, k + 1, is_base);
        } else {
            let cty = spec_subst(e.ty, gs.seq());
            let ck = if !is_base && kind0 == InterfaceKind::Default {
                InterfaceKind::Default
            } else if is_base {
                InterfaceKind::Base
            } else {
                InterfaceKind::Unmarked
            };
            if spec_contains_ty(acc, cty) {
                let acc2 = if ck == InterfaceKind::Default {
                    spec_upgrade(acc, cty)
                } else {
                    acc
                };
                assert(spec_no_overridable(acc2));
                lemma_walk_edges_noover(r, acc2, d, gs, k + 1, is_base);
            } else {
                lemma_walk_invariants_noover(r, acc, cty, is_base);
                let accw = spec_walk(r, acc, cty, is_base);
                let acc2 = accw.push(Interface { ty: cty, kind: ck });
                assert(spec_no_overridable(acc2)) by {
                    assert(forall|j: int|
                        0 <= j < accw.len() ==> (#[trigger] acc2[j]).kind == accw[j].kind);
                    assert(acc2[acc2.len() - 1].kind == ck);
                }
                lemma_walk_edges_noover(r, acc2, d, gs, k + 1, is_base);
            }
        }
    }
}

pub proof fn lemma_fold_statics_full(
    r: Reader,
    acc: Seq<Interface>,
    attrs: Seq<crate::model::Attribute>,
    k: int,
)
    requires
        r.wf(),
        ifaces_bounded(r, acc),
        spec_no_overridable(acc),
        spec_distinct_tys(acc),
    ensures
        ifaces_bounded(r, spec_fold_statics(r, acc, attrs, k)),
        spec_no_overridable(spec_fold_statics(r, acc, attrs, k)),
        spec_distinct_tys(spec_fold_statics(r, acc, attrs, k)),
    decreases attrs.len() - k,
{
    if 0 <= k < attrs.len() {
        if attrs[k].kind == AttrKind::StaticIface || attrs[k].kind == AttrKind::Activatable {
            match spec_typename_arg_from(attrs[k].args@, 0) {
                Some(tn) => {
                    let parts = spec_parse_type_name(tn);
                    match crate::signature::spec_first_named(r, parts.0, parts.1) {
                        Some(j) => {
                            crate::signature::lemma_first_named_range(r, parts.0, parts.1, 0);
                            crate::model::lemma_rows_fit(r);
                            let x = Interface {
                                ty: Type::TypeDef(TypeDef(j as usize), TypeList::Nil),
                                kind: InterfaceKind::Static,
                            };
                            if spec_contains_ty(acc, x.ty) {
                                lemma_fold_statics_full(r, acc, attrs, k + 1);
                            } else {
                                let acc2 = acc.push(x);
                                assert forall|i: int| 0 <= i < acc2.len() implies ty_bounded(
                                    (#[trigger] acc2[i]).ty,
                                    r.n(),
                                ) by {
                                    if i < acc.len() {
                                        assert(acc2[i] == acc[i]);
                                        assert(ty_bounded(acc[i].ty, r.n()));
                                    } else {
                                        assert(acc2[i] == x);
                                        assert(list_bounded(TypeList::Nil, r.n()));
                                    }
                                }
                                assert(ifaces_bounded(r, acc2));
                                assert(spec_no_overridable(acc2)) by {
                                    assert(forall|i: int|
                                        0 <= i < acc.len() ==> (#[trigger] acc2[i]) == acc[i]);
                                    assert(acc2[acc2.len() - 1] == x);
                                }
                                assert(spec_distinct_tys(acc2)) by {
                                    assert forall|a: int, b: int|
                                        0 <= a < b < acc2.len() implies acc2[a].ty
                                        != acc2[b].ty by {
                                        if b == acc2.len() - 1 {
                                            assert(acc2[a] == acc[a]);
                                            assert(spec_contains_ty(acc, acc[a].ty));
                                        }
                                    }
                                }
                                lemma_fold_statics_full(r, acc2, attrs, k + 1);
                            }
                        },
                        None => {
                            lemma_fold_statics_full(r, acc, attrs, k + 1);
                        },
                    }
                },
                None => {
                    lemma_fold_statics_full(r, acc, attrs, k + 1);
                },
            }
        } else {
            lemma_fold_statics_full(r, acc, attrs, k + 1);
        }
    }
}

/// Computes the full tagged interface list of a type, sorted by interface
/// name: its own edges depth-first with dependencies first and default
/// winning on merge, its ancestors' edges tagged base for classes, and the
/// statically declared factory interfaces.  The result never carries the
/// overridable kind, and when the collected list has no duplicate structural
/// types, neither has the sorted one.
/// Collects the full tagged interface list of a type, in discovery order:
/// exactly `spec_type_interfaces_unsorted` — the type's own edges depth-first
/// with dependencies first and default winning on merge, its ancestors' edges
/// tagged base for classes, and the statically declared factory interfaces,
/// deduplicated by structural type as entries are appended.
#[verifier::rlimit(100)]
pub fn collect_interfaces(reader: &Reader, ty: &Type) -> (res: Vec<Interface>)
    requires
        reader.wf(),
        ty_bounded(*ty, reader.n()),
        match *ty {
            Type::TypeDef(d, _) => reader.types@[d.0 as int].kind == TypeKind::Class
                ==> spec_bases_resolvable(*reader, d) && spec_statics_resolvable(
                *reader,
                reader.types@[d.0 as int].attributes@,
            ),
            _ => true,
        },
    ensures
        res@ == spec_type_interfaces_unsorted(*reader, *ty),
        spec_distinct_tys(res@),
        spec_no_overridable(res@),
        ifaces_bounded(*reader, res@),
{
    let mut result: Vec<Interface> = Vec::new();
    walk(reader, &mut result, ty, false);
    proof {
        lemma_walk_invariants(*reader, Seq::empty(), *ty, false);
        lemma_walk_invariants_noover(*reader, Seq::empty(), *ty, false);
        lemma_walk_full(*reader, Seq::empty(), *ty, false);
    }
    match ty {
        Type::TypeDef(d, _) => {
            if matches!(reader.types[d.0].kind, TypeKind::Class) {
                let ghost w0 = result@;
                let bases = type_def_bases(reader, *d);
                proof {
                    lemma_bases_valid(*reader, *d);
                }
                let nb = bases.len();
                let mut k: usize = 0;
                while k < nb
                    invariant
                        reader.wf(),
                        nb == bases@.len(),
                        bases@ == spec_bases(*reader, *d),
                        forall|i: int|
                            0 <= i < bases@.len() ==> (#[trigger] bases@[i]).0
                                < reader.types@.len(),
                        0 <= k <= nb,
                        ifaces_bounded(*reader, result@),
                        spec_no_overridable(result@),
                        spec_fold_bases(*reader, result@, bases@, k as int) == spec_fold_bases(
                            *reader,
                            w0,
                            bases@,
                            0,
                        ),
                    decreases nb - k,
                {
                    proof {
                        assert(bases@[k as int].0 < reader.types@.len());
                        assert(list_bounded(TypeList::Nil, reader.n()));
                        assert(ty_bounded(
                            Type::TypeDef(bases@[k as int], TypeList::Nil),
                            reader.n(),
                        ));
                        lemma_walk_full(
                            *reader,
                            result@,
                            Type::TypeDef(bases@[k as int], TypeList::Nil),
                            true,
                        );
                        lemma_walk_invariants_noover(
                            *reader,
                            result@,
                            Type::TypeDef(bases@[k as int], TypeList::Nil),
                            true,
                        );
                    }
                    let b = bases[k];
                    walk(reader, &mut result, &Type::TypeDef(b, TypeList::Nil), true);
                    k += 1;
                }
                proof {
                    assert(spec_fold_bases(*reader, result@, bases@, nb as int) == result@);
                }
                let ghost wb = result@;
                let nat_ = reader.types[d.0].attributes.len();
                let mut a: usize = 0;
                while a < nat_
                    invariant
                        reader.wf(),
                        reader.valid_type_def(*d),
                        nat_ == reader.types@[d.0 as int].attributes@.len(),
                        0 <= a <= nat_,
                        ifaces_bounded(*reader, result@),
                        spec_no_overridable(result@),
                        spec_fold_statics(
                            *reader,
                            result@,
                            reader.types@[d.0 as int].attributes@,
                            a as int,
                        ) == spec_fold_statics(
                            *reader,
                            wb,
                            reader.types@[d.0 as int].attributes@,
                            0,
                        ),
                    decreases nat_ - a,
                {
                    let ak = reader.types[d.0].attributes[a].kind;
                    if matches!(ak, AttrKind::StaticIface) || matches!(ak, AttrKind::Activatable) {
                        match typename_arg_from(&reader.types[d.0].attributes[a].args, 0) {
                            Some(tn) => {
                                let parts = parse_type_name(tn.as_str());
                                match crate::signature::first_named(
                                    reader,
                                    parts.0.as_str(),
                                    parts.1.as_str(),
                                ) {
                                    Some(def) => {
                                        proof {
                                            crate::signature::lemma_first_named_range(
                                                *reader,
                                                spec_parse_type_name(tn@).0,
                                                spec_parse_type_name(tn@).1,
                                                0,
                                            );
                                        }
                                        let cty = Type::TypeDef(def, TypeList::Nil);
                                        let present = contains_ty(&result, &cty);
                                        let ghost pre = result@;
                                        if !present {
                                            result.push(
                                                Interface {
                                                    ty: cty,
                                                    kind: InterfaceKind::Static,
                                                },
                                            );
                                        }
                                        proof {
                                            assert forall|j: int|
                                                0 <= j < result@.len() implies ty_bounded(
                                                (#[trigger] result@[j]).ty,
                                                reader.n(),
                                            ) by {
                                                if j < pre.len() {
                                                    assert(result@[j] == pre[j]);
                                                } else {
                                                    assert(def.0 < reader.types@.len());
                                                    assert(list_bounded(
                                                        TypeList::Nil,
                                                        reader.n(),
                                                    ));
                                                }
                                            }
                                            assert forall|j: int|
                                                0 <= j < result@.len() implies (
                                            #[trigger] result@[j]).kind
                                                != InterfaceKind::Overridable by {
                                                if j < pre.len() {
                                                    assert(result@[j] == pre[j]);
                                                }
                                            }
                                        }
                                    },
                                    None => {},
                                }
                            },
                            None => {},
                        }
                    }
                    a += 1;
                }
            }
        },
        _ => {},
    }
    proof {
        match *ty {
            Type::TypeDef(d, _) => {
                if reader.types@[d.0 as int].kind == TypeKind::Class {
                    assert(spec_fold_statics(
                        *reader,
                        result@,
                        reader.types@[d.0 as int].attributes@,
                        reader.types@[d.0 as int].attributes@.len() as int,
                    ) == result@);
                }
            },
            _ => (),
        }
        reveal(spec_type_interfaces_unsorted);
        assert(result@ == spec_type_interfaces_unsorted(*reader, *ty));
        // the unsorted list has no duplicate structural types
        let walked = spec_walk(*reader, Seq::empty(), *ty, false);
        match *ty {
            Type::TypeDef(d, _) => {
                if reader.types@[d.0 as int].kind == TypeKind::Class {
                    lemma_bases_valid(*reader, d);
                    lemma_fold_bases_full(*reader, walked, spec_bases(*reader, d), 0);
                    lemma_fold_statics_full(
                        *reader,
                        spec_fold_bases(*reader, walked, spec_bases(*reader, d), 0),
                        reader.types@[d.0 as int].attributes@,
                        0,
                    );
                }
            },
            _ => (),
        }
        assert(spec_distinct_tys(result@));
    }
    result
}

/// Computes the full tagged interface list of a type, sorted by interface
/// name: exactly the interfaces of `spec_type_interfaces_unsorted` — the
/// type's own edges depth-first with dependencies first and default winning
/// on merge, its ancestors' edges tagged base for classes, and the statically
/// declared factory interfaces — deduplicated by structural type, never
/// carrying the overridable kind.
#[verifier::rlimit(100)]
pub fn type_interfaces(reader: &Reader, ty: &Type) -> (res: Vec<Interface>)
    requires
        reader.wf(),
        ty_bounded(*ty, reader.n()),
        match *ty {
            Type::TypeDef(d, _) => reader.types@[d.0 as int].kind == TypeKind::Class
                ==> spec_bases_resolvable(*reader, d) && spec_statics_resolvable(
                *reader,
                reader.types@[d.0 as int].attributes@,
            ),
            _ => true,
        },
    ensures
        spec_sorted_by_name(*reader, res@),
        spec_no_overridable(res@),
        spec_distinct_tys(res@),
        res@.len() == spec_type_interfaces_unsorted(*reader, *ty).len(),
{
    let collected = collect_interfaces(reader, ty);
    sort_by_name(reader, &collected)
}


/// The root-first list of interface slots a type's function table contains:
/// WinRT-flagged types begin with the reference-counting interface, then the
/// introspection interface except for delegates; other types walk their
/// single-inheritance base-interface chain.  A chain whose first edge is
/// neither a type definition nor one of the two built-in interfaces ends
/// there; well-formed metadata produces no such edge.
pub open spec fn spec_vtables_chain(r: Reader, d: TypeDef) -> Seq<Type>
    decreases r.rank()[d.0 as int],
    when r.wf() && d.0 < r.types@.len()
    via spec_vtables_chain_dec
{
    let impls = r.types@[d.0 as int].interface_impls@;
    if impls.len() == 0 {
        Seq::empty()
    } else {
        let base = spec_subst(impls[0].ty, Seq::empty());
        match base {
            Type::TypeDef(j, _) => spec_vtables_chain(r, j).push(base),
            Type::IInspectable => seq![Type::IUnknown, Type::IInspectable],
            Type::IUnknown => seq![Type::IUnknown],
            _ => Seq::empty(),
        }
    }
}

#[via_fn]
proof fn spec_vtables_chain_dec(r: Reader, d: TypeDef) {
    if r.wf() && d.0 < r.types@.len() && r.types@[d.0 as int].interface_impls@.len() > 0 {
        r.lemma_rank();
        assert(r.valid_rank_row(r.rank(), d.0 as int));
        let e = r.types@[d.0 as int].interface_impls@[0];
        lemma_subst_head(r.rank(), e.ty, Seq::empty(), r.rank()[d.0 as int]);
    }
}

pub open spec fn spec_type_def_vtables(r: Reader, d: TypeDef) -> Seq<Type> {
    if r.types@[d.0 as int].flags.winrt {
        if r.types@[d.0 as int].kind == TypeKind::Delegate {
            seq![Type::IUnknown]
        } else {
            seq![Type::IUnknown, Type::IInspectable]
        }
    } else {
        spec_vtables_chain(r, d)
    }
}

fn vtables_chain(reader: &Reader, d: TypeDef) -> (res: Vec<Type>)
    requires
        reader.wf(),
        reader.valid_type_def(d),
    ensures
        res@ == spec_vtables_chain(*reader, d),
    decreases reader.rank()[d.0 as int],
{
    proof {
        reader.lemma_rank();
        assert(reader.valid_rank_row(reader.rank(), d.0 as int));
        assert(reader.row_bounded(reader.types@[d.0 as int]));
    }
    let mut res: Vec<Type> = Vec::new();
    if reader.types[d.0].interface_impls.len() == 0 {
        return res;
    }
    proof {
        let e = reader.types@[d.0 as int].interface_impls@[0];
        lemma_subst_head(reader.rank(), e.ty, Seq::empty(), reader.rank()[d.0 as int]);
        crate::types::lemma_subst_bounded(e.ty, Seq::empty(), reader.n());
    }
    let nil = TypeList::Nil;
    let base = subst(&reader.types[d.0].interface_impls[0].ty, &nil);
    match &base {
        Type::TypeDef(j, _) => {
            let mut chain = vtables_chain(reader, *j);
            chain.push(base);
            chain
        },
        Type::IInspectable => {
            res.push(Type::IUnknown);
            res.push(Type::IInspectable);
            proof {
                assert(res@ =~= seq![Type::IUnknown, Type::IInspectable]);
            }
            res
        },
        Type::IUnknown => {
            res.push(Type::IUnknown);
            proof {
                assert(res@ =~= seq![Type::IUnknown]);
            }
            res
        },
        _ => res,
    }
}

/// The ordered, root-first function-table ancestor list of a definition.
pub fn type_def_vtables(reader: &Reader, row: TypeDef) -> (res: Vec<Type>)
    requires
        reader.wf(),
        reader.valid_type_def(row),
    ensures
        res@ == spec_type_def_vtables(*reader, row),
{
    let data = &reader.types[row.0];
    if data.flags.winrt {
        let mut res: Vec<Type> = Vec::new();
        res.push(Type::IUnknown);
        if !matches!(data.kind, TypeKind::Delegate) {
            res.push(Type::IInspectable);
            proof {
                assert(res@ =~= seq![Type::IUnknown, Type::IInspectable]);
            }
        } else {
            proof {
                assert(res@ =~= seq![Type::IUnknown]);
            }
        }
        res
    } else {
        vtables_chain(reader, row)
    }
}

/// The first interface edge carrying the default marker, resolved with no
/// generic bindings.
pub open spec fn spec_default_interface_from(r: Reader, d: TypeDef, k: int) -> Option<Type>
    decreases r.types@[d.0 as int].interface_impls@.len() - k,
{
    if k < 0 || k >= r.types@[d.0 as int].interface_impls@.len() {
        None
    } else if spec_has_attr(
        r.types@[d.0 as int].interface_impls@[k].attributes@,
        AttrKind::DefaultIface,
    ) {
        Some(spec_subst(r.types@[d.0 as int].interface_impls@[k].ty, Seq::empty()))
    } else {
        spec_default_interface_from(r, d, k + 1)
    }
}

pub open spec fn spec_type_def_default_interface(r: Reader, d: TypeDef) -> Option<Type> {
    spec_default_interface_from(r, d, 0)
}

fn default_interface_from(reader: &Reader, d: TypeDef, k: usize) -> (res: Option<Type>)
    requires
        reader.wf(),
        reader.valid_type_def(d),
    ensures
        res == spec_default_interface_from(*reader, d, k as int),
    decreases reader.types@[d.0 as int].interface_impls@.len() - k,
{
    let ne = reader.types[d.0].interface_impls.len();
    if k >= ne {
        None
    } else if crate::model::has_attr(
        &reader.types[d.0].interface_impls[k].attributes,
        AttrKind::DefaultIface,
    ) {
        let nil = TypeList::Nil;
        Some(subst(&reader.types[d.0].interface_impls[k].ty, &nil))
    } else {
        default_interface_from(reader, d, k + 1)
    }
}

/// The default interface of a class, if one is marked.
pub fn type_def_default_interface(reader: &Reader, row: TypeDef) -> (res: Option<Type>)
    requires
        reader.wf(),
        reader.valid_type_def(row),
    ensures
        res == spec_type_def_default_interface(*reader, row),
{
    default_interface_from(reader, row, 0)
}

/// The directly implemented interfaces of a definition, with the given
/// generic bindings applied.
pub fn type_def_interfaces(reader: &Reader, row: TypeDef, generics: &TypeList) -> (res: Vec<Type>)
    requires
        reader.wf(),
        reader.valid_type_def(row),
    ensures
        res@.len() == reader.types@[row.0 as int].interface_impls@.len(),
        forall|k: int|
            0 <= k < res@.len() ==> res@[k] == spec_subst(
                (#[trigger] reader.types@[row.0 as int].interface_impls@[k]).ty,
                generics.seq(),
            ),
{
    let ne = reader.types[row.0].interface_impls.len();
    let mut res: Vec<Type> = Vec::new();
    let mut k: usize = 0;
    while k < ne
        invariant
            reader.wf(),
            reader.valid_type_def(row),
            ne == reader.types@[row.0 as int].interface_impls@.len(),
            0 <= k <= ne,
            res@.len() == k,
            forall|i: int|
                0 <= i < k ==> res@[i] == spec_subst(
                    (#[trigger] reader.types@[row.0 as int].interface_impls@[i]).ty,
                    generics.seq(),
                ),
        decreases ne - k,
    {
        res.push(subst(&reader.types[row.0].interface_impls[k].ty, generics));
        k += 1;
    }
    res
}

/// The first method named `Invoke`, which every delegate-like type must have.
pub open spec fn spec_invoke_method_from(r: Reader, d: TypeDef, k: int) -> Option<int>
    decreases r.types@[d.0 as int].methods@.len() - k,
{
    if k < 0 || k >= r.types@[d.0 as int].methods@.len() {
        None
    } else if r.types@[d.0 as int].methods@[k].name@ == "Invoke"@ {
        Some(k)
    } else {
        spec_invoke_method_from(r, d, k + 1)
    }
}

fn invoke_method_from(reader: &Reader, d: TypeDef, k: usize) -> (res: Option<usize>)
    requires
        reader.valid_type_def(d),
    ensures
        match spec_invoke_method_from(*reader, d, k as int) {
            Some(j) => res matches Some(x) && x == j,
            None => res is None,
        },
    decreases reader.types@[d.0 as int].methods@.len() - k,
{
    let nm = reader.types[d.0].methods.len();
    if k >= nm {
        None
    } else if crate::model::str_eq(reader.types[d.0].methods[k].name.as_str(), "Invoke") {
        Some(k)
    } else {
        invoke_method_from(reader, d, k + 1)
    }
}

/// The `Invoke` method of a delegate-like definition; the metadata is assumed
/// to carry one.
pub fn type_def_invoke_method(reader: &Reader, row: TypeDef) -> (res: MethodDef)
    requires
        reader.valid_type_def(row),
        spec_invoke_method_from(*reader, row, 0) is Some,
    ensures
        res.owner == row.0,
        Some(res.index as int) == spec_invoke_method_from(*reader, row, 0),
        reader.valid_method(res),
        reader.method(res).name@ == "Invoke"@,
{
    proof {
        lemma_invoke_range(*reader, row, 0);
    }
    match invoke_method_from(reader, row, 0) {
        Some(j) => MethodDef { owner: row.0, index: j },
        None => MethodDef { owner: row.0, index: 0 },
    }
}

proof fn lemma_invoke_range(r: Reader, d: TypeDef, k: int)
    requires
        0 <= k,
    ensures
        match spec_invoke_method_from(r, d, k) {
            Some(j) => k <= j < r.types@[d.0 as int].methods@.len() && r.types@[d.0
                as int].methods@[j].name@ == "Invoke"@,
            None => true,
        },
    decreases r.types@[d.0 as int].methods@.len() - k,
{
    if k < r.types@[d.0 as int].methods@.len() && !(r.types@[d.0 as int].methods@[k].name@
        == "Invoke"@) {
        lemma_invoke_range(r, d, k + 1);
    }
}

/// One unbound generic-parameter placeholder for each declared generic.
pub fn type_def_generics(reader: &Reader, def: TypeDef) -> (res: TypeList)
    requires
        reader.valid_type_def(def),
    ensures
        res.seq().len() == reader.types@[def.0 as int].generics,
        forall|k: int|
            0 <= k < res.seq().len() ==> res.seq()[k] == Type::GenericParam(k as usize),
{
    generics_from(0, reader.types[def.0].generics)
}

fn generics_from(i: usize, count: usize) -> (res: TypeList)
    requires
        i <= count,
    ensures
        res.seq().len() == count - i,
        forall|k: int| 0 <= k < res.seq().len() ==> res.seq()[k] == Type::GenericParam((i + k) as usize),
    decreases count - i,
{
    if i >= count {
        TypeList::Nil
    } else {
        let rest = generics_from(i + 1, count);
        let res = TypeList::Cons(Box::new(Type::GenericParam(i)), Box::new(rest));
        proof {
            assert forall|k: int| 0 <= k < res.seq().len() implies res.seq()[k]
                == Type::GenericParam((i + k) as usize) by {
                if k > 0 {
                    assert(res.seq()[k] == rest.seq()[k - 1]);
                }
            }
        }
        res
    }
}

/// The identifier attribute of a definition, if one is present.
pub open spec fn spec_type_def_guid(r: Reader, d: TypeDef) -> Option<crate::guid::Guid> {
    match spec_find_attr(r.types@[d.0 as int].attributes@, AttrKind::GuidArgs) {
        Some(i) => Some(
            spec_guid_from_args(r.types@[d.0 as int].attributes@[i].args@),
        ),
        None => None,
    }
}

pub fn type_def_guid(reader: &Reader, row: TypeDef) -> (res: Option<Guid>)
    requires
        reader.valid_type_def(row),
        match spec_find_attr(reader.types@[row.0 as int].attributes@, AttrKind::GuidArgs) {
            Some(i) => crate::guid::guid_args_wf(
                reader.types@[row.0 as int].attributes@[i].args@,
            ),
            None => true,
        },
    ensures
        res == spec_type_def_guid(*reader, row),
{
    match crate::model::find_attr(&reader.types[row.0].attributes, AttrKind::GuidArgs) {
        Some(attr) => Some(Guid::from_args(attr.args.as_slice())),
        None => None,
    }
}

/// The declared invalid sentinel values of a handle type.
pub open spec fn spec_invalid_values_from(
    attrs: Seq<crate::model::Attribute>,
    k: int,
) -> Seq<i64>
    decreases attrs.len() - k,
{
    if k < 0 || k >= attrs.len() {
        Seq::empty()
    } else if attrs[k].kind == AttrKind::InvalidHandleValue && attrs[k].args@.len() > 0
        && attrs[k].args@[0].1 matches Value::I64(_) {
        match attrs[k].args@[0].1 {
            Value::I64(v) => seq![v] + spec_invalid_values_from(attrs, k + 1),
            _ => spec_invalid_values_from(attrs, k + 1),
        }
    } else {
        spec_invalid_values_from(attrs, k + 1)
    }
}

pub fn type_def_invalid_values(reader: &Reader, row: TypeDef) -> (res: Vec<i64>)
    requires
        reader.valid_type_def(row),
    ensures
        res@ == spec_invalid_values_from(reader.types@[row.0 as int].attributes@, 0),
{
    let attrs = &reader.types[row.0].attributes;
    let n = attrs.len();
    let mut res: Vec<i64> = Vec::new();
    let mut k: usize = 0;
    while k < n
        invariant
            n == attrs@.len(),
            attrs@ == reader.types@[row.0 as int].attributes@,
            0 <= k <= n,
            res@ + spec_invalid_values_from(attrs@, k as int) == spec_invalid_values_from(
                attrs@,
                0,
            ),
        decreases n - k,
    {
        let ghost old_res = res@;
        if matches!(attrs[k].kind, AttrKind::InvalidHandleValue) && attrs[k].args.len() > 0 {
            match &attrs[k].args[0].1 {
                Value::I64(v) => {
                    res.push(*v);
                    proof {
                        assert(res@ + spec_invalid_values_from(attrs@, k as int + 1) =~= old_res
                            + spec_invalid_values_from(attrs@, k as int));
                    }
                },
                _ => {},
            }
        }
        k += 1;
    }
    proof {
        assert(res@ + spec_invalid_values_from(attrs@, n as int) =~= res@);
    }
    res
}

} // verus!
