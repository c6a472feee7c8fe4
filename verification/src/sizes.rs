use vstd::prelude::*;
use crate::model::Reader;
use crate::types::{
    lemma_refs_below_rk, nat_max, ty_bounded, ty_height, ty_rk, Type, TypeDef, TypeKind,
};

verus! {

/// Every size and alignment computed while laying a type out stays at or
/// under this bound, so the machine arithmetic below cannot overflow.
pub const LAYOUT_BOUND: usize = 0x7fff_ffff;

/// `s` rounded up to the next multiple of `a`.
pub open spec fn spec_round_up(s: nat, a: nat) -> nat {
    if a == 0 {
        s
    } else {
        (s + ((a - s % a) % (a as int))) as nat
    }
}

pub proof fn lemma_round_up(s: nat, a: nat)
    requires
        a >= 1,
    ensures
        s <= spec_round_up(s, a) <= s + a - 1,
{
}

/// The byte size of a type: fixed sizes for scalars, sixteen for the
/// identifier type, the definition's layout for a definition, element size
/// times length for an array, the underlying scalar for an associated enum,
/// and four for everything else.
pub open spec fn spec_type_size(r: Reader, ty: Type) -> nat
    decreases ty_rk(r.rank(), ty), 0nat, 0nat, ty_height(ty), 1nat,
    when r.wf()
{
    match ty {
        Type::I8 | Type::U8 => 1,
        Type::I16 | Type::U16 => 2,
        Type::I64 | Type::U64 | Type::F64 => 8,
        Type::GUID => 16,
        Type::TypeDef(d, _) => spec_type_def_size(r, d),
        Type::Win32Array(t, len) => (spec_type_size(r, *t) * len) as nat,
        Type::PrimitiveOrEnum(t, _) => spec_type_size(r, *t),
        _ => 4,
    }
}

/// The alignment of a type.
pub open spec fn spec_type_align(r: Reader, ty: Type) -> nat
    decreases ty_rk(r.rank(), ty), 0nat, 0nat, ty_height(ty), 1nat,
    when r.wf()
{
    match ty {
        Type::I8 | Type::U8 => 1,
        Type::I16 | Type::U16 => 2,
        Type::I64 | Type::U64 | Type::F64 => 8,
        Type::GUID => 4,
        Type::TypeDef(d, _) => spec_type_def_align(r, d),
        Type::Win32Array(t, len) => (spec_type_align(r, *t) * len) as nat,
        _ => 4,
    }
}

/// The largest field size of `d` from position `k` on.
pub open spec fn spec_max_field_size_from(r: Reader, d: TypeDef, k: int) -> nat
    decreases
            r.rank()[d.0 as int],
            r.n() - d.0,
            r.types@[d.0 as int].fields@.len() - k,
            0nat,
            0nat,
    when r.wf() && d.0 < r.types@.len() && 0 <= k
    via spec_max_field_size_from_dec
{
    if k >= r.types@[d.0 as int].fields@.len() {
        0
    } else {
        nat_max(
            spec_type_size(r, r.types@[d.0 as int].fields@[k].ty),
            spec_max_field_size_from(r, d, k + 1),
        )
    }
}

#[via_fn]
proof fn spec_max_field_size_from_dec(r: Reader, d: TypeDef, k: int) {
    if r.wf() && d.0 < r.types@.len() && 0 <= k && k < r.types@[d.0 as int].fields@.len() {
        r.lemma_rank();
        assert(r.valid_rank_row(r.rank(), d.0 as int));
        lemma_refs_below_rk(r.rank(), r.types@[d.0 as int].fields@[k].ty, r.rank()[d.0 as int]);
    }
}

/// The largest field alignment of `d` from position `k` on.
pub open spec fn spec_max_field_align_from(r: Reader, d: TypeDef, k: int) -> nat
    decreases
            r.rank()[d.0 as int],
            r.n() - d.0,
            r.types@[d.0 as int].fields@.len() - k,
            0nat,
            0nat,
    when r.wf() && d.0 < r.types@.len() && 0 <= k
    via spec_max_field_align_from_dec
{
    if k >= r.types@[d.0 as int].fields@.len() {
        0
    } else {
        nat_max(
            spec_type_align(r, r.types@[d.0 as int].fields@[k].ty),
            spec_max_field_align_from(r, d, k + 1),
        )
    }
}

#[via_fn]
proof fn spec_max_field_align_from_dec(r: Reader, d: TypeDef, k: int) {
    if r.wf() && d.0 < r.types@.len() && 0 <= k && k < r.types@[d.0 as int].fields@.len() {
        r.lemma_rank();
        assert(r.valid_rank_row(r.rank(), d.0 as int));
        lemma_refs_below_rk(r.rank(), r.types@[d.0 as int].fields@[k].ty, r.rank()[d.0 as int]);
    }
}

/// The aligned running size of `d`'s first `k` fields: before each field the
/// sum is rounded up to the field's alignment.
pub open spec fn spec_struct_size_upto(r: Reader, d: TypeDef, k: int) -> nat
    decreases r.rank()[d.0 as int], r.n() - d.0, k, 0nat, 1nat,
    when r.wf() && d.0 < r.types@.len() && k <= r.types@[d.0 as int].fields@.len()
    via spec_struct_size_upto_dec
{
    if k <= 0 {
        0
    } else {
        let f = r.types@[d.0 as int].fields@[k - 1];
        spec_round_up(spec_struct_size_upto(r, d, k - 1), spec_type_align(r, f.ty))
            + spec_type_size(r, f.ty)
    }
}

#[via_fn]
proof fn spec_struct_size_upto_dec(r: Reader, d: TypeDef, k: int) {
    if r.wf() && d.0 < r.types@.len() && 0 < k <= r.types@[d.0 as int].fields@.len() {
        r.lemma_rank();
        assert(r.valid_rank_row(r.rank(), d.0 as int));
        lemma_refs_below_rk(
            r.rank(),
            r.types@[d.0 as int].fields@[k - 1].ty,
            r.rank()[d.0 as int],
        );
    }
}

/// The byte size of a type definition: structs with explicit layout take the
/// largest field (one when empty), other structs the aligned running sum,
/// enums their underlying scalar, everything else four bytes.
pub open spec fn spec_type_def_size(r: Reader, d: TypeDef) -> nat
    decreases r.rank()[d.0 as int], r.n() + 1, 0nat, 0nat, 0nat,
    when r.wf() && d.0 < r.types@.len()
    via spec_type_def_size_dec
{
    let row = r.types@[d.0 as int];
    match row.kind {
        TypeKind::Struct => if row.flags.explicit_layout {
            if row.fields@.len() == 0 {
                1
            } else {
                spec_max_field_size_from(r, d, 0)
            }
        } else {
            spec_struct_size_upto(r, d, row.fields@.len() as int)
        },
        TypeKind::Enum => if row.fields@.len() >= 1 {
            spec_type_size(r, row.fields@[0].ty)
        } else {
            4
        },
        _ => 4,
    }
}

#[via_fn]
proof fn spec_type_def_size_dec(r: Reader, d: TypeDef) {
    if r.wf() && d.0 < r.types@.len() {
        r.lemma_rank();
        assert(r.valid_rank_row(r.rank(), d.0 as int));
        let row = r.types@[d.0 as int];
        if row.kind == TypeKind::Enum && row.fields@.len() >= 1 {
            lemma_refs_below_rk(r.rank(), row.fields@[0].ty, r.rank()[d.0 as int]);
        }
    }
}

/// The alignment of a type definition.
pub open spec fn spec_type_def_align(r: Reader, d: TypeDef) -> nat
    decreases r.rank()[d.0 as int], r.n() + 1, 0nat, 0nat, 0nat,
    when r.wf() && d.0 < r.types@.len()
    via spec_type_def_align_dec
{
    let row = r.types@[d.0 as int];
    match row.kind {
        TypeKind::Struct => if row.fields@.len() == 0 {
            1
        } else {
            spec_max_field_align_from(r, d, 0)
        },
        TypeKind::Enum => if row.fields@.len() >= 1 {
            spec_type_align(r, row.fields@[0].ty)
        } else {
            4
        },
        _ => 4,
    }
}

#[via_fn]
proof fn spec_type_def_align_dec(r: Reader, d: TypeDef) {
    if r.wf() && d.0 < r.types@.len() {
        r.lemma_rank();
        assert(r.valid_rank_row(r.rank(), d.0 as int));
        let row = r.types@[d.0 as int];
        if row.kind == TypeKind::Enum && row.fields@.len() >= 1 {
            lemma_refs_below_rk(r.rank(), row.fields@[0].ty, r.rank()[d.0 as int]);
        }
    }
}

/// The layout of the type can be computed in machine arithmetic: every
/// alignment involved is positive, every size and alignment stays under
/// `LAYOUT_BOUND`, arrays are nonempty, and enums have their underlying field.
pub open spec fn spec_ty_layout_ok(r: Reader, ty: Type) -> bool
    decreases ty_rk(r.rank(), ty), 0nat, 0nat, ty_height(ty), 1nat,
    when r.wf()
{
    match ty {
        Type::TypeDef(d, _) => spec_def_layout_ok(r, d),
        Type::Win32Array(t, len) => spec_ty_layout_ok(r, *t) && len >= 1 && spec_type_size(r, *t)
            * len <= LAYOUT_BOUND && spec_type_align(r, *t) * len <= LAYOUT_BOUND,
        Type::PrimitiveOrEnum(t, _) => spec_ty_layout_ok(r, *t),
        _ => true,
    }
}

pub open spec fn spec_fields_layout_ok_from(r: Reader, d: TypeDef, k: int) -> bool
    decreases
            r.rank()[d.0 as int],
            r.n() - d.0,
            r.types@[d.0 as int].fields@.len() - k,
            0nat,
            0nat,
    when r.wf() && d.0 < r.types@.len() && 0 <= k
    via spec_fields_layout_ok_from_dec
{
    if k >= r.types@[d.0 as int].fields@.len() {
        true
    } else {
        spec_ty_layout_ok(r, r.types@[d.0 as int].fields@[k].ty) && spec_fields_layout_ok_from(
            r,
            d,
            k + 1,
        )
    }
}

#[via_fn]
proof fn spec_fields_layout_ok_from_dec(r: Reader, d: TypeDef, k: int) {
    if r.wf() && d.0 < r.types@.len() && 0 <= k && k < r.types@[d.0 as int].fields@.len() {
        r.lemma_rank();
        assert(r.valid_rank_row(r.rank(), d.0 as int));
        lemma_refs_below_rk(r.rank(), r.types@[d.0 as int].fields@[k].ty, r.rank()[d.0 as int]);
    }
}

pub open spec fn spec_def_layout_ok(r: Reader, d: TypeDef) -> bool
    decreases r.rank()[d.0 as int], r.n() + 1, 0nat, 0nat, 0nat,
    when r.wf() && d.0 < r.types@.len()
    via spec_def_layout_ok_dec
{
    let row = r.types@[d.0 as int];
    match row.kind {
        TypeKind::Struct => spec_fields_layout_ok_from(r, d, 0) && (row.flags.explicit_layout
            || spec_struct_size_upto(r, d, row.fields@.len() as int) <= LAYOUT_BOUND),
        TypeKind::Enum => row.fields@.len() >= 1 && spec_ty_layout_ok(r, row.fields@[0].ty),
        _ => true,
    }
}

#[via_fn]
proof fn spec_def_layout_ok_dec(r: Reader, d: TypeDef) {
    if r.wf() && d.0 < r.types@.len() {
        r.lemma_rank();
        assert(r.valid_rank_row(r.rank(), d.0 as int));
        let row = r.types@[d.0 as int];
        if row.kind == TypeKind::Enum && row.fields@.len() >= 1 {
            lemma_refs_below_rk(r.rank(), row.fields@[0].ty, r.rank()[d.0 as int]);
        }
    }
}

/// A well-laid-out type has positive alignment and bounded size and alignment.
pub proof fn lemma_layout_bounds(r: Reader, ty: Type)
    requires
        r.wf(),
        ty_bounded(ty, r.n()),
        spec_ty_layout_ok(r, ty),
    ensures
        1 <= spec_type_align(r, ty) <= LAYOUT_BOUND,
        spec_type_size(r, ty) <= LAYOUT_BOUND,
    decreases ty_rk(r.rank(), ty), 0nat, 0nat, ty_height(ty), 1nat,
{
    match ty {
        Type::TypeDef(d, _) => {
            lemma_def_layout_bounds(r, d);
        },
        Type::Win32Array(t, len) => {
            lemma_layout_bounds(r, *t);
            assert(spec_type_align(r, *t) * len >= 1) by (nonlinear_arith)
                requires
                    spec_type_align(r, *t) >= 1,
                    len >= 1,
            ;
        },
        Type::PrimitiveOrEnum(t, _) => {
            lemma_layout_bounds(r, *t);
        },
        _ => {},
    }
}

pub proof fn lemma_def_layout_bounds(r: Reader, d: TypeDef)
    requires
        r.wf(),
        d.0 < r.types@.len(),
        spec_def_layout_ok(r, d),
    ensures
        1 <= spec_type_def_align(r, d) <= LAYOUT_BOUND,
        spec_type_def_size(r, d) <= LAYOUT_BOUND,
    decreases r.rank()[d.0 as int], r.n() + 1, 0nat, 0nat, 0nat,
{
    let row = r.types@[d.0 as int];
    match row.kind {
        TypeKind::Struct => {
            lemma_max_field_bounds(r, d, 0);
        },
        TypeKind::Enum => {
            r.lemma_rank();
            assert(r.valid_rank_row(r.rank(), d.0 as int));
            assert(r.row_bounded(r.types@[d.0 as int]));
            lemma_refs_below_rk(r.rank(), row.fields@[0].ty, r.rank()[d.0 as int]);
            lemma_layout_bounds(r, row.fields@[0].ty);
        },
        _ => {},
    }
}

proof fn lemma_max_field_bounds(r: Reader, d: TypeDef, k: int)
    requires
        r.wf(),
        d.0 < r.types@.len(),
        0 <= k,
        spec_fields_layout_ok_from(r, d, k),
    ensures
        spec_max_field_size_from(r, d, k) <= LAYOUT_BOUND,
        spec_max_field_align_from(r, d, k) <= LAYOUT_BOUND,
        k < r.types@[d.0 as int].fields@.len() ==> spec_max_field_align_from(r, d, k) >= 1,
    decreases
            r.rank()[d.0 as int],
            r.n() - d.0,
            r.types@[d.0 as int].fields@.len() - k,
            2nat,
            0nat,
{
    if k < r.types@[d.0 as int].fields@.len() {
        r.lemma_rank();
        assert(r.valid_rank_row(r.rank(), d.0 as int));
        assert(r.row_bounded(r.types@[d.0 as int]));
        lemma_refs_below_rk(r.rank(), r.types@[d.0 as int].fields@[k].ty, r.rank()[d.0 as int]);
        lemma_layout_bounds(r, r.types@[d.0 as int].fields@[k].ty);
        lemma_max_field_bounds(r, d, k + 1);
    }
}

/// The aligned running sum only grows as fields are added.
pub proof fn lemma_struct_size_mono(r: Reader, d: TypeDef, k1: int, k2: int)
    requires
        r.wf(),
        d.0 < r.types@.len(),
        0 <= k1 <= k2 <= r.types@[d.0 as int].fields@.len(),
        spec_fields_layout_ok_from(r, d, 0),
    ensures
        spec_struct_size_upto(r, d, k1) <= spec_struct_size_upto(r, d, k2),
    decreases k2 - k1,
{
    if k1 < k2 {
        lemma_struct_size_mono(r, d, k1, k2 - 1);
        lemma_fields_layout_ok_prefix(r, d, 0, k2 - 1);
        let f = r.types@[d.0 as int].fields@[k2 - 1];
        r.lemma_rank();
        assert(r.valid_rank_row(r.rank(), d.0 as int));
        assert(r.row_bounded(r.types@[d.0 as int]));
        lemma_refs_below_rk(r.rank(), f.ty, r.rank()[d.0 as int]);
        lemma_layout_bounds(r, f.ty);
        lemma_round_up(spec_struct_size_upto(r, d, k2 - 1), spec_type_align(r, f.ty));
    }
}

/// A field whose position lies beyond `k` is covered by the tail predicate.
proof fn lemma_fields_layout_ok_prefix(r: Reader, d: TypeDef, k: int, j: int)
    requires
        r.wf(),
        d.0 < r.types@.len(),
        0 <= k <= j < r.types@[d.0 as int].fields@.len(),
        spec_fields_layout_ok_from(r, d, k),
    ensures
        spec_ty_layout_ok(r, r.types@[d.0 as int].fields@[j].ty),
        spec_fields_layout_ok_from(r, d, j),
    decreases j - k,
{
    if k < j {
        lemma_fields_layout_ok_prefix(r, d, k + 1, j);
    }
}

fn round_up(s: usize, a: usize) -> (res: usize)
    requires
        1 <= a <= LAYOUT_BOUND,
        s <= LAYOUT_BOUND,
    ensures
        res == spec_round_up(s as nat, a as nat),
        res <= s + a - 1,
{
    let rem = s % a;
    proof {
        if rem == 0 {
            assert((a - rem) % (a as int) == 0) by (nonlinear_arith)
                requires
                    a >= 1,
                    rem == 0,
            ;
        } else {
            assert((a - rem) % (a as int) == a - rem) by (nonlinear_arith)
                requires
                    a >= 1,
                    0 < rem < a,
            ;
            assert(0 < s % a < a) by (nonlinear_arith)
                requires
                    a >= 1,
                    rem == s % a,
                    rem != 0,
                    s >= 0,
            ;
        }
    }
    if rem == 0 {
        s
    } else {
        s + (a - rem)
    }
}

/// The byte size of a type, computed in machine arithmetic.
pub fn type_size(reader: &Reader, ty: &Type) -> (res: usize)
    requires
        reader.wf(),
        ty_bounded(*ty, reader.n()),
        spec_ty_layout_ok(*reader, *ty),
    ensures
        res == spec_type_size(*reader, *ty),
    decreases ty_rk(reader.rank(), *ty), 0nat, 0nat, ty_height(*ty), 1nat,
{
    match ty {
        Type::I8 | Type::U8 => 1,
        Type::I16 | Type::U16 => 2,
        Type::I64 | Type::U64 | Type::F64 => 8,
        Type::GUID => 16,
        Type::TypeDef(d, _) => type_def_size(reader, *d),
        Type::Win32Array(t, len) => {
            proof {
                lemma_layout_bounds(*reader, **t);
            }
            let s = type_size(reader, t);
            s * *len
        },
        Type::PrimitiveOrEnum(t, _) => type_size(reader, t),
        _ => 4,
    }
}

/// The alignment of a type, computed in machine arithmetic.
pub fn type_align(reader: &Reader, ty: &Type) -> (res: usize)
    requires
        reader.wf(),
        ty_bounded(*ty, reader.n()),
        spec_ty_layout_ok(*reader, *ty),
    ensures
        res == spec_type_align(*reader, *ty),
    decreases ty_rk(reader.rank(), *ty), 0nat, 0nat, ty_height(*ty), 1nat,
{
    match ty {
        Type::I8 | Type::U8 => 1,
        Type::I16 | Type::U16 => 2,
        Type::I64 | Type::U64 | Type::F64 => 8,
        Type::GUID => 4,
        Type::TypeDef(d, _) => type_def_align(reader, *d),
        Type::Win32Array(t, len) => {
            proof {
                lemma_layout_bounds(*reader, **t);
            }
            let s = type_align(reader, t);
            s * *len
        },
        _ => 4,
    }
}

fn max_field_size_from(reader: &Reader, d: TypeDef, k: usize) -> (res: usize)
    requires
        reader.wf(),
        reader.valid_type_def(d),
        spec_fields_layout_ok_from(*reader, d, k as int),
    ensures
        res == spec_max_field_size_from(*reader, d, k as int),
    decreases
            reader.rank()[d.0 as int],
            reader.n() - d.0,
            reader.types@[d.0 as int].fields@.len() - k,
            0nat,
            0nat,
{
    let row = &reader.types[d.0];
    if k >= row.fields.len() {
        0
    } else {
        proof {
            reader.lemma_rank();
            assert(reader.valid_rank_row(reader.rank(), d.0 as int));
            lemma_refs_below_rk(
                reader.rank(),
                reader.types@[d.0 as int].fields@[k as int].ty,
                reader.rank()[d.0 as int],
            );
            assert(reader.row_bounded(reader.types@[d.0 as int]));
        }
        let s = type_size(reader, &row.fields[k].ty);
        let rest = max_field_size_from(reader, d, k + 1);
        if s >= rest {
            s
        } else {
            rest
        }
    }
}

fn max_field_align_from(reader: &Reader, d: TypeDef, k: usize) -> (res: usize)
    requires
        reader.wf(),
        reader.valid_type_def(d),
        spec_fields_layout_ok_from(*reader, d, k as int),
    ensures
        res == spec_max_field_align_from(*reader, d, k as int),
    decreases
            reader.rank()[d.0 as int],
            reader.n() - d.0,
            reader.types@[d.0 as int].fields@.len() - k,
            0nat,
            0nat,
{
    let row = &reader.types[d.0];
    if k >= row.fields.len() {
        0
    } else {
        proof {
            reader.lemma_rank();
            assert(reader.valid_rank_row(reader.rank(), d.0 as int));
            lemma_refs_below_rk(
                reader.rank(),
                reader.types@[d.0 as int].fields@[k as int].ty,
                reader.rank()[d.0 as int],
            );
            assert(reader.row_bounded(reader.types@[d.0 as int]));
        }
        let s = type_align(reader, &row.fields[k].ty);
        let rest = max_field_align_from(reader, d, k + 1);
        if s >= rest {
            s
        } else {
            rest
        }
    }
}

/// The byte size of a type definition, computed in machine arithmetic.
pub fn type_def_size(reader: &Reader, row: TypeDef) -> (res: usize)
    requires
        reader.wf(),
        reader.valid_type_def(row),
        spec_def_layout_ok(*reader, row),
    ensures
        res == spec_type_def_size(*reader, row),
    decreases reader.rank()[row.0 as int], reader.n() + 1, 0nat, 0nat, 0nat,
{
    let data = &reader.types[row.0];
    match data.kind {
        TypeKind::Struct => {
            if data.flags.explicit_layout {
                if data.fields.len() == 0 {
                    1
                } else {
                    max_field_size_from(reader, row, 0)
                }
            } else {
                let flen = data.fields.len();
                let mut sum: usize = 0;
                let mut k: usize = 0;
                while k < flen
                    invariant
                        reader.wf(),
                        reader.valid_type_def(row),
                        spec_def_layout_ok(*reader, row),
                        reader.types@[row.0 as int].kind == TypeKind::Struct,
                        !reader.types@[row.0 as int].flags.explicit_layout,
                        flen == reader.types@[row.0 as int].fields@.len(),
                        0 <= k <= flen,
                        sum == spec_struct_size_upto(*reader, row, k as int),
                    decreases flen - k,
                {
                    proof {
                        reader.lemma_rank();
                        assert(reader.valid_rank_row(reader.rank(), row.0 as int));
                        lemma_refs_below_rk(
                            reader.rank(),
                            reader.types@[row.0 as int].fields@[k as int].ty,
                            reader.rank()[row.0 as int],
                        );
                        assert(reader.row_bounded(reader.types@[row.0 as int]));
                        lemma_fields_layout_ok_prefix(*reader, row, 0, k as int);
                        lemma_layout_bounds(
                            *reader,
                            reader.types@[row.0 as int].fields@[k as int].ty,
                        );
                        lemma_struct_size_mono(*reader, row, k as int, flen as int);
                        lemma_struct_size_mono(*reader, row, k as int + 1, flen as int);
                    }
                    let fty = &reader.types[row.0].fields[k].ty;
                    let a = type_align(reader, fty);
                    let s = type_size(reader, fty);
                    let aligned = round_up(sum, a);
                    proof {
                        lemma_round_up(sum as nat, a as nat);
                    }
                    sum = aligned + s;
                    k += 1;
                }
                sum
            }
        },
        TypeKind::Enum => {
            proof {
                reader.lemma_rank();
                assert(reader.valid_rank_row(reader.rank(), row.0 as int));
                lemma_refs_below_rk(
                    reader.rank(),
                    reader.types@[row.0 as int].fields@[0].ty,
                    reader.rank()[row.0 as int],
                );
                assert(reader.row_bounded(reader.types@[row.0 as int]));
            }
            type_size(reader, &data.fields[0].ty)
        },
        _ => 4,
    }
}

/// The alignment of a type definition, computed in machine arithmetic.
pub fn type_def_align(reader: &Reader, row: TypeDef) -> (res: usize)
    requires
        reader.wf(),
        reader.valid_type_def(row),
        spec_def_layout_ok(*reader, row),
    ensures
        res == spec_type_def_align(*reader, row),
    decreases reader.rank()[row.0 as int], reader.n() + 1, 0nat, 0nat, 0nat,
{
    let data = &reader.types[row.0];
    match data.kind {
        TypeKind::Struct => {
            if data.fields.len() == 0 {
                1
            } else {
                max_field_align_from(reader, row, 0)
            }
        },
        TypeKind::Enum => {
            proof {
                reader.lemma_rank();
                assert(reader.valid_rank_row(reader.rank(), row.0 as int));
                lemma_refs_below_rk(
                    reader.rank(),
                    reader.types@[row.0 as int].fields@[0].ty,
                    reader.rank()[row.0 as int],
                );
                assert(reader.row_bounded(reader.types@[row.0 as int]));
            }
            type_align(reader, &data.fields[0].ty)
        },
        _ => 4,
    }
}

} // verus!
