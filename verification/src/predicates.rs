use vstd::prelude::*;
use crate::model::{spec_has_attr, AttrKind, Field, Reader};
use crate::types::{
    lemma_refs_below_rk, list_rk, ty_bounded, ty_height, ty_rk, Type, TypeDef, TypeKind,
};

verus! {

// Termination of the predicates that walk the metadata graph rests on the
// graph's rank assignment (see `Reader::wf`): a definition's fields sit
// strictly below the definition itself, so every measure here is the
// lexicographic tuple (rank bound, rows left, fields left, type height,
// phase).


/// Blittable: the value crosses the interop boundary byte for byte.
/// Strings, interface kinds and unbound generic parameters never do; arrays
/// follow their element; a type definition follows
/// `spec_type_def_is_blittable`.
pub open spec fn spec_type_is_blittable(r: Reader, ty: Type) -> bool
    decreases ty_rk(r.rank(), ty), 0nat, 0nat, ty_height(ty), 1nat,
    when r.wf()
{
    match ty {
        Type::TypeDef(d, _) => spec_type_def_is_blittable(r, d),
        Type::Str | Type::BSTR | Type::IInspectable | Type::IUnknown | Type::GenericParam(_) =>
            false,
        Type::Win32Array(k, _) => spec_type_is_blittable(r, *k),
        Type::WinrtArray(k) => spec_type_is_blittable(r, *k),
        _ => true,
    }
}

/// Whether every field of row `j` from position `k` on is blittable.
pub open spec fn spec_row_fields_blittable_from(r: Reader, j: int, k: int) -> bool
    decreases r.rank()[j], r.n() - j, r.types@[j].fields@.len() - k, 0nat, 0nat,
    when r.wf() && 0 <= j < r.types@.len() && 0 <= k
    via spec_row_fields_blittable_from_dec
{
    if k >= r.types@[j].fields@.len() {
        true
    } else {
        spec_type_is_blittable(r, r.types@[j].fields@[k].ty) && spec_row_fields_blittable_from(
            r,
            j,
            k + 1,
        )
    }
}

#[via_fn]
proof fn spec_row_fields_blittable_from_dec(r: Reader, j: int, k: int) {
    if r.wf() && 0 <= j < r.types@.len() && 0 <= k && k < r.types@[j].fields@.len() {
        r.lemma_rank();
        assert(r.valid_rank_row(r.rank(), j));
        lemma_refs_below_rk(r.rank(), r.types@[j].fields@[k].ty, r.rank()[j]);
    }
}

/// Whether every partial row of `d`'s definition, from row `j` on, has only
/// blittable fields.
pub open spec fn spec_partials_blittable_from(r: Reader, d: TypeDef, j: int) -> bool
    decreases
            r.rank()[d.0 as int],
            r.n() - j,
            (if r.named_v(j, r.row(d).namespace@, r.row(d).name@) {
                r.types@[j].fields@.len() + 2
            } else {
                1nat
            }),
            0nat,
            2nat,
    when r.wf() && d.0 < r.types@.len() && 0 <= j
    via spec_partials_blittable_from_dec
{
    if j >= r.n() {
        true
    } else {
        (r.named_v(j, r.row(d).namespace@, r.row(d).name@) ==> spec_row_fields_blittable_from(
            r,
            j,
            0,
        )) && spec_partials_blittable_from(r, d, j + 1)
    }
}

#[via_fn]
proof fn spec_partials_blittable_from_dec(r: Reader, d: TypeDef, j: int) {
    if r.wf() && d.0 < r.types@.len() && 0 <= j < r.n() {
        r.lemma_rank();
        assert(r.valid_rank_row(r.rank(), d.0 as int));
        if r.named_v(j, r.row(d).namespace@, r.row(d).name@) {
            assert(r.same_name(d.0 as int, j));
        }
    }
}

/// Blittable, for a type definition: enums and non-WinRT delegates always,
/// WinRT structs exactly when every field of every partial row is, plain
/// structs by default.  The field check covers all partial rows of the definition; a
/// definition with an empty namespace is nested and has no partials.
pub open spec fn spec_type_def_is_blittable(r: Reader, d: TypeDef) -> bool
    decreases r.rank()[d.0 as int], r.n() + 1, 0nat, 0nat, 0nat,
    when r.wf() && d.0 < r.types@.len()
{
    match r.row(d).kind {
        TypeKind::Struct => if r.row(d).flags.winrt {
            if r.row(d).namespace@.len() == 0 {
                spec_row_fields_blittable_from(r, d.0 as int, 0)
            } else {
                spec_partials_blittable_from(r, d, 0)
            }
        } else {
            true
        },
        TypeKind::Enum => true,
        TypeKind::Delegate => !r.row(d).flags.winrt,
        _ => false,
    }
}

pub fn type_is_blittable(reader: &Reader, ty: &Type) -> (res: bool)
    requires
        reader.wf(),
        ty_bounded(*ty, reader.n()),
    ensures
        res == spec_type_is_blittable(*reader, *ty),
    decreases ty_rk(reader.rank(), *ty), 0nat, 0nat, ty_height(*ty), 1nat,
{
    match ty {
        Type::TypeDef(d, _) => type_def_is_blittable(reader, *d),
        Type::Str | Type::BSTR | Type::IInspectable | Type::IUnknown | Type::GenericParam(_) =>
            false,
        Type::Win32Array(k, _) => type_is_blittable(reader, k),
        Type::WinrtArray(k) => type_is_blittable(reader, k),
        _ => true,
    }
}

fn row_fields_blittable_from(reader: &Reader, j: usize, k: usize) -> (res: bool)
    requires
        reader.wf(),
        j < reader.types@.len(),
    ensures
        res == spec_row_fields_blittable_from(*reader, j as int, k as int),
    decreases
            reader.rank()[j as int],
            reader.n() - j,
            reader.types@[j as int].fields@.len() - k,
            0nat,
            0nat,
{
    let row = &reader.types[j];
    if k >= row.fields.len() {
        true
    } else {
        proof {
            reader.lemma_rank();
            assert(reader.valid_rank_row(reader.rank(), j as int));
            lemma_refs_below_rk(
                reader.rank(),
                reader.types@[j as int].fields@[k as int].ty,
                reader.rank()[j as int],
            );
            assert(reader.row_bounded(reader.types@[j as int]));
        }
        type_is_blittable(reader, &row.fields[k].ty) && row_fields_blittable_from(reader, j, k + 1)
    }
}

fn partials_blittable_from(reader: &Reader, d: TypeDef, j: usize) -> (res: bool)
    requires
        reader.wf(),
        reader.valid_type_def(d),
    ensures
        res == spec_partials_blittable_from(*reader, d, j as int),
    decreases
            reader.rank()[d.0 as int],
            reader.n() - j,
            (if reader.named_v(j as int, reader.row(d).namespace@, reader.row(d).name@) {
                reader.types@[j as int].fields@.len() + 2
            } else {
                1nat
            }),
            0nat,
            2nat,
{
    let n = reader.types.len();
    if j >= n {
        true
    } else {
        let named = {
            let dd = &reader.types[d.0];
            let rj = &reader.types[j];
            crate::model::str_eq(rj.namespace.as_str(), dd.namespace.as_str())
                && crate::model::str_eq(rj.name.as_str(), dd.name.as_str())
        };
        proof {
            reader.lemma_rank();
            assert(reader.valid_rank_row(reader.rank(), d.0 as int));
            if named {
                assert(reader.same_name(d.0 as int, j as int));
            }
        }
        (!named || row_fields_blittable_from(reader, j, 0)) && partials_blittable_from(reader, d, j + 1)
    }
}

/// Blittable, for a type definition: enums and non-WinRT delegates always,
/// WinRT structs exactly when every field of every partial row is, plain
/// structs by default.
pub fn type_def_is_blittable(reader: &Reader, row: TypeDef) -> (res: bool)
    requires
        reader.wf(),
        reader.valid_type_def(row),
    ensures
        res == spec_type_def_is_blittable(*reader, row),
    decreases reader.rank()[row.0 as int], reader.n() + 1, 0nat, 0nat, 0nat,
{
    let data = &reader.types[row.0];
    match data.kind {
        TypeKind::Struct => {
            if data.flags.winrt {
                if data.namespace.as_str().unicode_len() == 0 {
                    proof {
                        assert(data.namespace@.len() == 0);
                    }
                    row_fields_blittable_from(reader, row.0, 0)
                } else {
                    partials_blittable_from(reader, row, 0)
                }
            } else {
                true
            }
        },
        TypeKind::Enum => true,
        TypeKind::Delegate => !data.flags.winrt,
        _ => false,
    }
}


/// Copyable: duplicable without custom logic.  The recursion is the same
/// as blittability with independent base cases: every struct checks its
/// fields, across all partial rows.
pub open spec fn spec_type_is_copyable(r: Reader, ty: Type) -> bool
    decreases ty_rk(r.rank(), ty), 0nat, 0nat, ty_height(ty), 1nat,
    when r.wf()
{
    match ty {
        Type::TypeDef(d, _) => spec_type_def_is_copyable(r, d),
        Type::Str | Type::BSTR | Type::IInspectable | Type::IUnknown | Type::GenericParam(_) =>
            false,
        Type::Win32Array(k, _) => spec_type_is_copyable(r, *k),
        Type::WinrtArray(k) => spec_type_is_copyable(r, *k),
        _ => true,
    }
}

/// Whether every field of row `j` from position `k` on is copyable.
pub open spec fn spec_row_fields_copyable_from(r: Reader, j: int, k: int) -> bool
    decreases r.rank()[j], r.n() - j, r.types@[j].fields@.len() - k, 0nat, 0nat,
    when r.wf() && 0 <= j < r.types@.len() && 0 <= k
    via spec_row_fields_copyable_from_dec
{
    if k >= r.types@[j].fields@.len() {
        true
    } else {
        spec_type_is_copyable(r, r.types@[j].fields@[k].ty) && spec_row_fields_copyable_from(
            r,
            j,
            k + 1,
        )
    }
}

#[via_fn]
proof fn spec_row_fields_copyable_from_dec(r: Reader, j: int, k: int) {
    if r.wf() && 0 <= j < r.types@.len() && 0 <= k && k < r.types@[j].fields@.len() {
        r.lemma_rank();
        assert(r.valid_rank_row(r.rank(), j));
        lemma_refs_below_rk(r.rank(), r.types@[j].fields@[k].ty, r.rank()[j]);
    }
}

/// Whether every partial row of `d`'s definition, from row `j` on, has only
/// copyable fields.
pub open spec fn spec_partials_copyable_from(r: Reader, d: TypeDef, j: int) -> bool
    decreases
            r.rank()[d.0 as int],
            r.n() - j,
            (if r.named_v(j, r.row(d).namespace@, r.row(d).name@) {
                r.types@[j].fields@.len() + 2
            } else {
                1nat
            }),
            0nat,
            2nat,
    when r.wf() && d.0 < r.types@.len() && 0 <= j
    via spec_partials_copyable_from_dec
{
    if j >= r.n() {
        true
    } else {
        (r.named_v(j, r.row(d).namespace@, r.row(d).name@) ==> spec_row_fields_copyable_from(
            r,
            j,
            0,
        )) && spec_partials_copyable_from(r, d, j + 1)
    }
}

#[via_fn]
proof fn spec_partials_copyable_from_dec(r: Reader, d: TypeDef, j: int) {
    if r.wf() && d.0 < r.types@.len() && 0 <= j < r.n() {
        r.lemma_rank();
        assert(r.valid_rank_row(r.rank(), d.0 as int));
        if r.named_v(j, r.row(d).namespace@, r.row(d).name@) {
            assert(r.same_name(d.0 as int, j));
        }
    }
}

/// Copyable, for a type definition.  The field check covers all partial rows of the definition; a
/// definition with an empty namespace is nested and has no partials.
pub open spec fn spec_type_def_is_copyable(r: Reader, d: TypeDef) -> bool
    decreases r.rank()[d.0 as int], r.n() + 1, 0nat, 0nat, 0nat,
    when r.wf() && d.0 < r.types@.len()
{
    match r.row(d).kind {
        TypeKind::Struct => if true {
            if r.row(d).namespace@.len() == 0 {
                spec_row_fields_copyable_from(r, d.0 as int, 0)
            } else {
                spec_partials_copyable_from(r, d, 0)
            }
        } else {
            true
        },
        TypeKind::Enum => true,
        TypeKind::Delegate => !r.row(d).flags.winrt,
        _ => false,
    }
}

 fn type_is_copyable(reader: &Reader, ty: &Type) -> (res: bool)
    requires
        reader.wf(),
        ty_bounded(*ty, reader.n()),
    ensures
        res == spec_type_is_copyable(*reader, *ty),
    decreases ty_rk(reader.rank(), *ty), 0nat, 0nat, ty_height(*ty), 1nat,
{
    match ty {
        Type::TypeDef(d, _) => type_def_is_copyable(reader, *d),
        Type::Str | Type::BSTR | Type::IInspectable | Type::IUnknown | Type::GenericParam(_) =>
            false,
        Type::Win32Array(k, _) => type_is_copyable(reader, k),
        Type::WinrtArray(k) => type_is_copyable(reader, k),
        _ => true,
    }
}

fn row_fields_copyable_from(reader: &Reader, j: usize, k: usize) -> (res: bool)
    requires
        reader.wf(),
        j < reader.types@.len(),
    ensures
        res == spec_row_fields_copyable_from(*reader, j as int, k as int),
    decreases
            reader.rank()[j as int],
            reader.n() - j,
            reader.types@[j as int].fields@.len() - k,
            0nat,
            0nat,
{
    let row = &reader.types[j];
    if k >= row.fields.len() {
        true
    } else {
        proof {
            reader.lemma_rank();
            assert(reader.valid_rank_row(reader.rank(), j as int));
            lemma_refs_below_rk(
                reader.rank(),
                reader.types@[j as int].fields@[k as int].ty,
                reader.rank()[j as int],
            );
            assert(reader.row_bounded(reader.types@[j as int]));
        }
        type_is_copyable(reader, &row.fields[k].ty) && row_fields_copyable_from(reader, j, k + 1)
    }
}

fn partials_copyable_from(reader: &Reader, d: TypeDef, j: usize) -> (res: bool)
    requires
        reader.wf(),
        reader.valid_type_def(d),
    ensures
        res == spec_partials_copyable_from(*reader, d, j as int),
    decreases
            reader.rank()[d.0 as int],
            reader.n() - j,
            (if reader.named_v(j as int, reader.row(d).namespace@, reader.row(d).name@) {
                reader.types@[j as int].fields@.len() + 2
            } else {
                1nat
            }),
            0nat,
            2nat,
{
    let n = reader.types.len();
    if j >= n {
        true
    } else {
        let named = {
            let dd = &reader.types[d.0];
            let rj = &reader.types[j];
            crate::model::str_eq(rj.namespace.as_str(), dd.namespace.as_str())
                && crate::model::str_eq(rj.name.as_str(), dd.name.as_str())
        };
        proof {
            reader.lemma_rank();
            assert(reader.valid_rank_row(reader.rank(), d.0 as int));
            if named {
                assert(reader.same_name(d.0 as int, j as int));
            }
        }
        (!named || row_fields_copyable_from(reader, j, 0)) && partials_copyable_from(reader, d, j + 1)
    }
}

/// Copyable, for a type definition.
pub fn type_def_is_copyable(reader: &Reader, row: TypeDef) -> (res: bool)
    requires
        reader.wf(),
        reader.valid_type_def(row),
    ensures
        res == spec_type_def_is_copyable(*reader, row),
    decreases reader.rank()[row.0 as int], reader.n() + 1, 0nat, 0nat, 0nat,
{
    let data = &reader.types[row.0];
    match data.kind {
        TypeKind::Struct => {
            if true {
                if data.namespace.as_str().unicode_len() == 0 {
                    proof {
                        assert(data.namespace@.len() == 0);
                    }
                    row_fields_copyable_from(reader, row.0, 0)
                } else {
                    partials_copyable_from(reader, row, 0)
                }
            } else {
                true
            }
        },
        TypeKind::Enum => true,
        TypeKind::Delegate => !data.flags.winrt,
        _ => false,
    }
}

/// An interface attributed as having exactly one implementing class.
pub open spec fn spec_type_def_is_exclusive(r: Reader, d: TypeDef) -> bool {
    spec_has_attr(r.row(d).attributes@, AttrKind::ExclusiveTo)
}

pub fn type_def_is_exclusive(reader: &Reader, row: TypeDef) -> (res: bool)
    requires
        reader.valid_type_def(row),
    ensures
        res == spec_type_def_is_exclusive(*reader, row),
{
    crate::model::has_attr(&reader.types[row.0].attributes, AttrKind::ExclusiveTo)
}

/// A handle-like struct: an opaque scalar wrapper flagged as a native typedef.
pub open spec fn spec_type_def_is_handle(r: Reader, d: TypeDef) -> bool {
    spec_has_attr(r.row(d).attributes@, AttrKind::NativeTypedef)
}

pub fn type_def_is_handle(reader: &Reader, row: TypeDef) -> (res: bool)
    requires
        reader.valid_type_def(row),
    ensures
        res == spec_type_def_is_handle(*reader, row),
{
    crate::model::has_attr(&reader.types[row.0].attributes, AttrKind::NativeTypedef)
}

/// A non-WinRT delegate: a callback by convention.
pub open spec fn spec_type_def_is_callback(r: Reader, d: TypeDef) -> bool {
    !r.row(d).flags.winrt && r.row(d).kind == TypeKind::Delegate
}

pub fn type_def_is_callback(reader: &Reader, row: TypeDef) -> (res: bool)
    requires
        reader.valid_type_def(row),
    ensures
        res == spec_type_def_is_callback(*reader, row),
{
    let data = &reader.types[row.0];
    !data.flags.winrt && matches!(data.kind, TypeKind::Delegate)
}

/// Borrowed: taken by reference, never by value — non-blittable metadata
/// types, the built-in string and interface kinds, and generic parameters.
pub open spec fn spec_type_is_borrowed(r: Reader, ty: Type) -> bool {
    match ty {
        Type::TypeDef(d, _) => !spec_type_def_is_blittable(r, d),
        Type::Str | Type::BSTR | Type::IInspectable | Type::IUnknown | Type::GenericParam(_) =>
            true,
        _ => false,
    }
}

pub fn type_is_borrowed(reader: &Reader, ty: &Type) -> (res: bool)
    requires
        reader.wf(),
        ty_bounded(*ty, reader.n()),
    ensures
        res == spec_type_is_borrowed(*reader, *ty),
{
    match ty {
        Type::TypeDef(d, _) => !type_def_is_blittable(reader, *d),
        Type::Str | Type::BSTR | Type::IInspectable | Type::IUnknown | Type::GenericParam(_) =>
            true,
        _ => false,
    }
}

/// A WinRT interface open to several implementations, or a composable class.
pub open spec fn spec_type_is_non_exclusive_winrt_interface(r: Reader, ty: Type) -> bool {
    match ty {
        Type::TypeDef(d, _) => r.row(d).flags.winrt && match r.row(d).kind {
            TypeKind::Interface => !spec_type_def_is_exclusive(r, d),
            TypeKind::Class => spec_has_attr(r.row(d).attributes@, AttrKind::Composable),
            _ => false,
        },
        _ => false,
    }
}

pub fn type_is_non_exclusive_winrt_interface(reader: &Reader, ty: &Type) -> (res: bool)
    requires
        reader.wf(),
        ty_bounded(*ty, reader.n()),
    ensures
        res == spec_type_is_non_exclusive_winrt_interface(*reader, *ty),
{
    match ty {
        Type::TypeDef(d, _) => {
            let data = &reader.types[d.0];
            if !data.flags.winrt {
                false
            } else {
                match data.kind {
                    TypeKind::Interface => !type_def_is_exclusive(reader, *d),
                    TypeKind::Class => crate::model::has_attr(
                        &data.attributes,
                        AttrKind::Composable,
                    ),
                    _ => false,
                }
            }
        },
        _ => false,
    }
}

/// A struct that converts trivially: a handle wrapper.
pub open spec fn spec_type_is_trivially_convertible(r: Reader, ty: Type) -> bool {
    match ty {
        Type::TypeDef(d, _) => match r.row(d).kind {
            TypeKind::Struct => spec_type_def_is_handle(r, d),
            _ => false,
        },
        _ => false,
    }
}

pub fn type_is_trivially_convertible(reader: &Reader, ty: &Type) -> (res: bool)
    requires
        reader.wf(),
        ty_bounded(*ty, reader.n()),
    ensures
        res == spec_type_is_trivially_convertible(*reader, *ty),
{
    match ty {
        Type::TypeDef(d, _) => match reader.types[d.0].kind {
            TypeKind::Struct => type_def_is_handle(reader, *d),
            _ => false,
        },
        _ => false,
    }
}

/// A plain aggregate returned by value: a struct that is not a handle
/// wrapper, or the identifier type.
pub open spec fn spec_type_is_struct(r: Reader, ty: Type) -> bool {
    match ty {
        Type::TypeDef(d, _) => r.row(d).kind == TypeKind::Struct && !spec_type_def_is_handle(r, d),
        Type::GUID => true,
        _ => false,
    }
}

pub fn type_is_struct(reader: &Reader, ty: &Type) -> (res: bool)
    requires
        reader.wf(),
        ty_bounded(*ty, reader.n()),
    ensures
        res == spec_type_is_struct(*reader, *ty),
{
    match ty {
        Type::TypeDef(d, _) => matches!(reader.types[d.0].kind, TypeKind::Struct)
            && !type_def_is_handle(reader, *d),
        Type::GUID => true,
        _ => false,
    }
}

/// Primitive, for a type definition: enums, handle structs and non-WinRT
/// delegates.
pub open spec fn spec_type_def_is_primitive(r: Reader, d: TypeDef) -> bool {
    match r.row(d).kind {
        TypeKind::Enum => true,
        TypeKind::Struct => spec_type_def_is_handle(r, d),
        TypeKind::Delegate => !r.row(d).flags.winrt,
        _ => false,
    }
}

pub fn type_def_is_primitive(reader: &Reader, row: TypeDef) -> (res: bool)
    requires
        reader.valid_type_def(row),
    ensures
        res == spec_type_def_is_primitive(*reader, row),
{
    let data = &reader.types[row.0];
    match data.kind {
        TypeKind::Enum => true,
        TypeKind::Struct => type_def_is_handle(reader, row),
        TypeKind::Delegate => !data.flags.winrt,
        _ => false,
    }
}

/// Primitive: scalar numeric, boolean and character kinds, pointers, the
/// error-code type, and primitive type definitions.
pub open spec fn spec_type_is_primitive(r: Reader, ty: Type) -> bool {
    match ty {
        Type::TypeDef(d, _) => spec_type_def_is_primitive(r, d),
        Type::Bool | Type::Char | Type::I8 | Type::U8 | Type::I16 | Type::U16 | Type::I32
            | Type::U32 | Type::I64 | Type::U64 | Type::F32 | Type::F64 | Type::ISize
            | Type::USize | Type::HRESULT | Type::ConstPtr(_, _) | Type::MutPtr(_, _) => true,
        _ => false,
    }
}

pub fn type_is_primitive(reader: &Reader, ty: &Type) -> (res: bool)
    requires
        reader.wf(),
        ty_bounded(*ty, reader.n()),
    ensures
        res == spec_type_is_primitive(*reader, *ty),
{
    match ty {
        Type::TypeDef(d, _) => type_def_is_primitive(reader, *d),
        Type::Bool | Type::Char | Type::I8 | Type::U8 | Type::I16 | Type::U16 | Type::I32
            | Type::U32 | Type::I64 | Type::U64 | Type::F32 | Type::F64 | Type::ISize
            | Type::USize | Type::HRESULT | Type::ConstPtr(_, _) | Type::MutPtr(_, _) => true,
        _ => false,
    }
}

/// Nullable, for a type definition: interfaces and classes always, delegates
/// only when WinRT-flagged.
pub open spec fn spec_type_def_is_nullable(r: Reader, d: TypeDef) -> bool {
    match r.row(d).kind {
        TypeKind::Interface | TypeKind::Class => true,
        TypeKind::Delegate => r.row(d).flags.winrt,
        _ => false,
    }
}

pub fn type_def_is_nullable(reader: &Reader, row: TypeDef) -> (res: bool)
    requires
        reader.valid_type_def(row),
    ensures
        res == spec_type_def_is_nullable(*reader, row),
{
    let data = &reader.types[row.0];
    match data.kind {
        TypeKind::Interface | TypeKind::Class => true,
        TypeKind::Delegate => data.flags.winrt,
        _ => false,
    }
}

/// Nullable: absence is representable by the value itself.
pub open spec fn spec_type_is_nullable(r: Reader, ty: Type) -> bool {
    match ty {
        Type::TypeDef(d, _) => spec_type_def_is_nullable(r, d),
        Type::IInspectable | Type::IUnknown => true,
        _ => false,
    }
}

pub fn type_is_nullable(reader: &Reader, ty: &Type) -> (res: bool)
    requires
        reader.wf(),
        ty_bounded(*ty, reader.n()),
    ensures
        res == spec_type_is_nullable(*reader, *ty),
{
    match ty {
        Type::TypeDef(d, _) => type_def_is_nullable(reader, *d),
        Type::IInspectable | Type::IUnknown => true,
        _ => false,
    }
}

/// Callback-bearing: a non-WinRT delegate, or a struct that transitively
/// embeds one by value.
pub open spec fn spec_type_has_callback(r: Reader, ty: Type) -> bool
    decreases ty_rk(r.rank(), ty), 0nat, 0nat, ty_height(ty), 1nat,
    when r.wf()
{
    match ty {
        Type::TypeDef(d, _) => spec_type_def_has_callback(r, d),
        Type::Win32Array(k, _) => spec_type_has_callback(r, *k),
        _ => false,
    }
}

/// Whether some field of row `j` from position `k` on carries the property.
pub open spec fn spec_row_fields_has_callback_from(r: Reader, j: int, k: int) -> bool
    decreases r.rank()[j], r.n() - j, r.types@[j].fields@.len() - k, 0nat, 0nat,
    when r.wf() && 0 <= j < r.types@.len() && 0 <= k
    via spec_row_fields_has_callback_from_dec
{
    if k >= r.types@[j].fields@.len() {
        false
    } else {
        spec_type_has_callback(r, r.types@[j].fields@[k].ty) || spec_row_fields_has_callback_from(
            r,
            j,
            k + 1,
        )
    }
}

#[via_fn]
proof fn spec_row_fields_has_callback_from_dec(r: Reader, j: int, k: int) {
    if r.wf() && 0 <= j < r.types@.len() && 0 <= k && k < r.types@[j].fields@.len() {
        r.lemma_rank();
        assert(r.valid_rank_row(r.rank(), j));
        lemma_refs_below_rk(r.rank(), r.types@[j].fields@[k].ty, r.rank()[j]);
    }
}

/// Whether row `j` itself shows the property.
pub open spec fn spec_row_fields_have_callback(r: Reader, j: int) -> bool
    decreases r.rank()[j], r.n() - j, r.types@[j].fields@.len() + 1, 0nat, 1nat,
    when r.wf() && 0 <= j < r.types@.len()
{
    spec_row_fields_has_callback_from(r, j, 0)
}

/// Whether any partial row of `d`'s definition, from row `j` on, shows it.
pub open spec fn spec_partials_has_callback_from(r: Reader, d: TypeDef, j: int) -> bool
    decreases
            r.rank()[d.0 as int],
            r.n() - j,
            (if r.named_v(j, r.row(d).namespace@, r.row(d).name@) {
                r.types@[j].fields@.len() + 2
            } else {
                1nat
            }),
            0nat,
            2nat,
    when r.wf() && d.0 < r.types@.len() && 0 <= j
    via spec_partials_has_callback_from_dec
{
    if j >= r.n() {
        false
    } else {
        (r.named_v(j, r.row(d).namespace@, r.row(d).name@) && spec_row_fields_have_callback(r, j))
            || spec_partials_has_callback_from(r, d, j + 1)
    }
}

#[via_fn]
proof fn spec_partials_has_callback_from_dec(r: Reader, d: TypeDef, j: int) {
    if r.wf() && d.0 < r.types@.len() && 0 <= j < r.n() {
        r.lemma_rank();
        assert(r.valid_rank_row(r.rank(), d.0 as int));
        if r.named_v(j, r.row(d).namespace@, r.row(d).name@) {
            assert(r.same_name(d.0 as int, j));
        }
    }
}

/// Callback-bearing, for a type definition.  The check covers all partial rows of the definition; a
/// definition with an empty namespace is nested and has no partials.
pub open spec fn spec_type_def_has_callback(r: Reader, d: TypeDef) -> bool
    decreases r.rank()[d.0 as int], r.n() + 1, 0nat, 0nat, 0nat,
    when r.wf() && d.0 < r.types@.len()
{
    if spec_type_def_is_callback(r, d) {
        true
    } else if r.row(d).kind != TypeKind::Struct {
        false
    } else if r.row(d).namespace@.len() == 0 {
        spec_row_fields_have_callback(r, d.0 as int)
    } else {
        spec_partials_has_callback_from(r, d, 0)
    }
}

pub fn type_has_callback(reader: &Reader, ty: &Type) -> (res: bool)
    requires
        reader.wf(),
        ty_bounded(*ty, reader.n()),
    ensures
        res == spec_type_has_callback(*reader, *ty),
    decreases ty_rk(reader.rank(), *ty), 0nat, 0nat, ty_height(*ty), 1nat,
{
    match ty {
        Type::TypeDef(d, _) => type_def_has_callback(reader, *d),
        Type::Win32Array(k, _) => type_has_callback(reader, k),
        _ => false,
    }
}

fn row_fields_has_callback_from(reader: &Reader, j: usize, k: usize) -> (res: bool)
    requires
        reader.wf(),
        j < reader.types@.len(),
    ensures
        res == spec_row_fields_has_callback_from(*reader, j as int, k as int),
    decreases
            reader.rank()[j as int],
            reader.n() - j,
            reader.types@[j as int].fields@.len() - k,
            0nat,
            0nat,
{
    let row = &reader.types[j];
    if k >= row.fields.len() {
        false
    } else {
        proof {
            reader.lemma_rank();
            assert(reader.valid_rank_row(reader.rank(), j as int));
            lemma_refs_below_rk(
                reader.rank(),
                reader.types@[j as int].fields@[k as int].ty,
                reader.rank()[j as int],
            );
            assert(reader.row_bounded(reader.types@[j as int]));
        }
        type_has_callback(reader, &row.fields[k].ty) || row_fields_has_callback_from(reader, j, k + 1)
    }
}

fn row_fields_have_callback(reader: &Reader, j: usize) -> (res: bool)
    requires
        reader.wf(),
        j < reader.types@.len(),
    ensures
        res == spec_row_fields_have_callback(*reader, j as int),
    decreases
            reader.rank()[j as int],
            reader.n() - j,
            reader.types@[j as int].fields@.len() + 1,
            0nat,
            1nat,
{
    row_fields_has_callback_from(reader, j, 0)
}

fn partials_has_callback_from(reader: &Reader, d: TypeDef, j: usize) -> (res: bool)
    requires
        reader.wf(),
        reader.valid_type_def(d),
    ensures
        res == spec_partials_has_callback_from(*reader, d, j as int),
    decreases
            reader.rank()[d.0 as int],
            reader.n() - j,
            (if reader.named_v(j as int, reader.row(d).namespace@, reader.row(d).name@) {
                reader.types@[j as int].fields@.len() + 2
            } else {
                1nat
            }),
            0nat,
            2nat,
{
    let n = reader.types.len();
    if j >= n {
        false
    } else {
        let named = {
            let dd = &reader.types[d.0];
            let rj = &reader.types[j];
            crate::model::str_eq(rj.namespace.as_str(), dd.namespace.as_str())
                && crate::model::str_eq(rj.name.as_str(), dd.name.as_str())
        };
        proof {
            reader.lemma_rank();
            assert(reader.valid_rank_row(reader.rank(), d.0 as int));
            if named {
                assert(reader.same_name(d.0 as int, j as int));
            }
        }
        (named && row_fields_have_callback(reader, j)) || partials_has_callback_from(reader, d, j + 1)
    }
}

/// Callback-bearing, for a type definition.
pub fn type_def_has_callback(reader: &Reader, row: TypeDef) -> (res: bool)
    requires
        reader.wf(),
        reader.valid_type_def(row),
    ensures
        res == spec_type_def_has_callback(*reader, row),
    decreases reader.rank()[row.0 as int], reader.n() + 1, 0nat, 0nat, 0nat,
{
    if type_def_is_callback(reader, row) {
        true
    } else if !matches!(reader.types[row.0].kind, TypeKind::Struct) {
        false
    } else if reader.types[row.0].namespace.as_str().unicode_len() == 0 {
        proof {
            assert(reader.types@[row.0 as int].namespace@.len() == 0);
        }
        row_fields_have_callback(reader, row.0)
    } else {
        partials_has_callback_from(reader, row, 0)
    }
}


/// Explicit layout: the struct itself declares explicit field offsets, or
/// transitively any field does.
pub open spec fn spec_type_has_explicit_layout(r: Reader, ty: Type) -> bool
    decreases ty_rk(r.rank(), ty), 0nat, 0nat, ty_height(ty), 1nat,
    when r.wf()
{
    match ty {
        Type::TypeDef(d, _) => spec_type_def_has_explicit_layout(r, d),
        Type::Win32Array(k, _) => spec_type_has_explicit_layout(r, *k),
        _ => false,
    }
}

/// Whether some field of row `j` from position `k` on carries the property.
pub open spec fn spec_row_fields_has_explicit_layout_from(r: Reader, j: int, k: int) -> bool
    decreases r.rank()[j], r.n() - j, r.types@[j].fields@.len() - k, 0nat, 0nat,
    when r.wf() && 0 <= j < r.types@.len() && 0 <= k
    via spec_row_fields_has_explicit_layout_from_dec
{
    if k >= r.types@[j].fields@.len() {
        false
    } else {
        spec_type_has_explicit_layout(r, r.types@[j].fields@[k].ty) || spec_row_fields_has_explicit_layout_from(
            r,
            j,
            k + 1,
        )
    }
}

#[via_fn]
proof fn spec_row_fields_has_explicit_layout_from_dec(r: Reader, j: int, k: int) {
    if r.wf() && 0 <= j < r.types@.len() && 0 <= k && k < r.types@[j].fields@.len() {
        r.lemma_rank();
        assert(r.valid_rank_row(r.rank(), j));
        lemma_refs_below_rk(r.rank(), r.types@[j].fields@[k].ty, r.rank()[j]);
    }
}

/// Whether row `j` itself shows the property.
pub open spec fn spec_row_declares_explicit_layout(r: Reader, j: int) -> bool
    decreases r.rank()[j], r.n() - j, r.types@[j].fields@.len() + 1, 0nat, 1nat,
    when r.wf() && 0 <= j < r.types@.len()
{
    r.types@[j].flags.explicit_layout || spec_row_fields_has_explicit_layout_from(r, j, 0)
}

/// Whether any partial row of `d`'s definition, from row `j` on, shows it.
pub open spec fn spec_partials_has_explicit_layout_from(r: Reader, d: TypeDef, j: int) -> bool
    decreases
            r.rank()[d.0 as int],
            r.n() - j,
            (if r.named_v(j, r.row(d).namespace@, r.row(d).name@) {
                r.types@[j].fields@.len() + 2
            } else {
                1nat
            }),
            0nat,
            2nat,
    when r.wf() && d.0 < r.types@.len() && 0 <= j
    via spec_partials_has_explicit_layout_from_dec
{
    if j >= r.n() {
        false
    } else {
        (r.named_v(j, r.row(d).namespace@, r.row(d).name@) && spec_row_declares_explicit_layout(r, j))
            || spec_partials_has_explicit_layout_from(r, d, j + 1)
    }
}

#[via_fn]
proof fn spec_partials_has_explicit_layout_from_dec(r: Reader, d: TypeDef, j: int) {
    if r.wf() && d.0 < r.types@.len() && 0 <= j < r.n() {
        r.lemma_rank();
        assert(r.valid_rank_row(r.rank(), d.0 as int));
        if r.named_v(j, r.row(d).namespace@, r.row(d).name@) {
            assert(r.same_name(d.0 as int, j));
        }
    }
}

/// Explicit layout, for a type definition.  The check covers all partial rows of the definition; a
/// definition with an empty namespace is nested and has no partials.
pub open spec fn spec_type_def_has_explicit_layout(r: Reader, d: TypeDef) -> bool
    decreases r.rank()[d.0 as int], r.n() + 1, 0nat, 0nat, 0nat,
    when r.wf() && d.0 < r.types@.len()
{
    if r.row(d).kind != TypeKind::Struct {
        false
    } else if r.row(d).namespace@.len() == 0 {
        spec_row_declares_explicit_layout(r, d.0 as int)
    } else {
        spec_partials_has_explicit_layout_from(r, d, 0)
    }
}

 fn type_has_explicit_layout(reader: &Reader, ty: &Type) -> (res: bool)
    requires
        reader.wf(),
        ty_bounded(*ty, reader.n()),
    ensures
        res == spec_type_has_explicit_layout(*reader, *ty),
    decreases ty_rk(reader.rank(), *ty), 0nat, 0nat, ty_height(*ty), 1nat,
{
    match ty {
        Type::TypeDef(d, _) => type_def_has_explicit_layout(reader, *d),
        Type::Win32Array(k, _) => type_has_explicit_layout(reader, k),
        _ => false,
    }
}

fn row_fields_has_explicit_layout_from(reader: &Reader, j: usize, k: usize) -> (res: bool)
    requires
        reader.wf(),
        j < reader.types@.len(),
    ensures
        res == spec_row_fields_has_explicit_layout_from(*reader, j as int, k as int),
    decreases
            reader.rank()[j as int],
            reader.n() - j,
            reader.types@[j as int].fields@.len() - k,
            0nat,
            0nat,
{
    let row = &reader.types[j];
    if k >= row.fields.len() {
        false
    } else {
        proof {
            reader.lemma_rank();
            assert(reader.valid_rank_row(reader.rank(), j as int));
            lemma_refs_below_rk(
                reader.rank(),
                reader.types@[j as int].fields@[k as int].ty,
                reader.rank()[j as int],
            );
            assert(reader.row_bounded(reader.types@[j as int]));
        }
        type_has_explicit_layout(reader, &row.fields[k].ty) || row_fields_has_explicit_layout_from(reader, j, k + 1)
    }
}

fn row_declares_explicit_layout(reader: &Reader, j: usize) -> (res: bool)
    requires
        reader.wf(),
        j < reader.types@.len(),
    ensures
        res == spec_row_declares_explicit_layout(*reader, j as int),
    decreases
            reader.rank()[j as int],
            reader.n() - j,
            reader.types@[j as int].fields@.len() + 1,
            0nat,
            1nat,
{
    reader.types[j].flags.explicit_layout || row_fields_has_explicit_layout_from(reader, j, 0)
}

fn partials_has_explicit_layout_from(reader: &Reader, d: TypeDef, j: usize) -> (res: bool)
    requires
        reader.wf(),
        reader.valid_type_def(d),
    ensures
        res == spec_partials_has_explicit_layout_from(*reader, d, j as int),
    decreases
            reader.rank()[d.0 as int],
            reader.n() - j,
            (if reader.named_v(j as int, reader.row(d).namespace@, reader.row(d).name@) {
                reader.types@[j as int].fields@.len() + 2
            } else {
                1nat
            }),
            0nat,
            2nat,
{
    let n = reader.types.len();
    if j >= n {
        false
    } else {
        let named = {
            let dd = &reader.types[d.0];
            let rj = &reader.types[j];
            crate::model::str_eq(rj.namespace.as_str(), dd.namespace.as_str())
                && crate::model::str_eq(rj.name.as_str(), dd.name.as_str())
        };
        proof {
            reader.lemma_rank();
            assert(reader.valid_rank_row(reader.rank(), d.0 as int));
            if named {
                assert(reader.same_name(d.0 as int, j as int));
            }
        }
        (named && row_declares_explicit_layout(reader, j)) || partials_has_explicit_layout_from(reader, d, j + 1)
    }
}

/// Explicit layout, for a type definition.
pub fn type_def_has_explicit_layout(reader: &Reader, row: TypeDef) -> (res: bool)
    requires
        reader.wf(),
        reader.valid_type_def(row),
    ensures
        res == spec_type_def_has_explicit_layout(*reader, row),
    decreases reader.rank()[row.0 as int], reader.n() + 1, 0nat, 0nat, 0nat,
{
    if !matches!(reader.types[row.0].kind, TypeKind::Struct) {
        false
    } else if reader.types[row.0].namespace.as_str().unicode_len() == 0 {
        proof {
            assert(reader.types@[row.0 as int].namespace@.len() == 0);
        }
        row_declares_explicit_layout(reader, row.0)
    } else {
        partials_has_explicit_layout_from(reader, row, 0)
    }
}


/// Packing: the struct itself declares non-default alignment, or transitively
/// any field does.
pub open spec fn spec_type_has_packing(r: Reader, ty: Type) -> bool
    decreases ty_rk(r.rank(), ty), 0nat, 0nat, ty_height(ty), 1nat,
    when r.wf()
{
    match ty {
        Type::TypeDef(d, _) => spec_type_def_has_packing(r, d),
        Type::Win32Array(k, _) => spec_type_has_packing(r, *k),
        _ => false,
    }
}

/// Whether some field of row `j` from position `k` on carries the property.
pub open spec fn spec_row_fields_has_packing_from(r: Reader, j: int, k: int) -> bool
    decreases r.rank()[j], r.n() - j, r.types@[j].fields@.len() - k, 0nat, 0nat,
    when r.wf() && 0 <= j < r.types@.len() && 0 <= k
    via spec_row_fields_has_packing_from_dec
{
    if k >= r.types@[j].fields@.len() {
        false
    } else {
        spec_type_has_packing(r, r.types@[j].fields@[k].ty) || spec_row_fields_has_packing_from(
            r,
            j,
            k + 1,
        )
    }
}

#[via_fn]
proof fn spec_row_fields_has_packing_from_dec(r: Reader, j: int, k: int) {
    if r.wf() && 0 <= j < r.types@.len() && 0 <= k && k < r.types@[j].fields@.len() {
        r.lemma_rank();
        assert(r.valid_rank_row(r.rank(), j));
        lemma_refs_below_rk(r.rank(), r.types@[j].fields@[k].ty, r.rank()[j]);
    }
}

/// Whether row `j` itself shows the property.
pub open spec fn spec_row_declares_packing(r: Reader, j: int) -> bool
    decreases r.rank()[j], r.n() - j, r.types@[j].fields@.len() + 1, 0nat, 1nat,
    when r.wf() && 0 <= j < r.types@.len()
{
    r.types@[j].class_layout || spec_row_fields_has_packing_from(r, j, 0)
}

/// Whether any partial row of `d`'s definition, from row `j` on, shows it.
pub open spec fn spec_partials_has_packing_from(r: Reader, d: TypeDef, j: int) -> bool
    decreases
            r.rank()[d.0 as int],
            r.n() - j,
            (if r.named_v(j, r.row(d).namespace@, r.row(d).name@) {
                r.types@[j].fields@.len() + 2
            } else {
                1nat
            }),
            0nat,
            2nat,
    when r.wf() && d.0 < r.types@.len() && 0 <= j
    via spec_partials_has_packing_from_dec
{
    if j >= r.n() {
        false
    } else {
        (r.named_v(j, r.row(d).namespace@, r.row(d).name@) && spec_row_declares_packing(r, j))
            || spec_partials_has_packing_from(r, d, j + 1)
    }
}

#[via_fn]
proof fn spec_partials_has_packing_from_dec(r: Reader, d: TypeDef, j: int) {
    if r.wf() && d.0 < r.types@.len() && 0 <= j < r.n() {
        r.lemma_rank();
        assert(r.valid_rank_row(r.rank(), d.0 as int));
        if r.named_v(j, r.row(d).namespace@, r.row(d).name@) {
            assert(r.same_name(d.0 as int, j));
        }
    }
}

/// Packing, for a type definition.  The check covers all partial rows of the definition; a
/// definition with an empty namespace is nested and has no partials.
pub open spec fn spec_type_def_has_packing(r: Reader, d: TypeDef) -> bool
    decreases r.rank()[d.0 as int], r.n() + 1, 0nat, 0nat, 0nat,
    when r.wf() && d.0 < r.types@.len()
{
    if r.row(d).kind != TypeKind::Struct {
        false
    } else if r.row(d).namespace@.len() == 0 {
        spec_row_declares_packing(r, d.0 as int)
    } else {
        spec_partials_has_packing_from(r, d, 0)
    }
}

 fn type_has_packing(reader: &Reader, ty: &Type) -> (res: bool)
    requires
        reader.wf(),
        ty_bounded(*ty, reader.n()),
    ensures
        res == spec_type_has_packing(*reader, *ty),
    decreases ty_rk(reader.rank(), *ty), 0nat, 0nat, ty_height(*ty), 1nat,
{
    match ty {
        Type::TypeDef(d, _) => type_def_has_packing(reader, *d),
        Type::Win32Array(k, _) => type_has_packing(reader, k),
        _ => false,
    }
}

fn row_fields_has_packing_from(reader: &Reader, j: usize, k: usize) -> (res: bool)
    requires
        reader.wf(),
        j < reader.types@.len(),
    ensures
        res == spec_row_fields_has_packing_from(*reader, j as int, k as int),
    decreases
            reader.rank()[j as int],
            reader.n() - j,
            reader.types@[j as int].fields@.len() - k,
            0nat,
            0nat,
{
    let row = &reader.types[j];
    if k >= row.fields.len() {
        false
    } else {
        proof {
            reader.lemma_rank();
            assert(reader.valid_rank_row(reader.rank(), j as int));
            lemma_refs_below_rk(
                reader.rank(),
                reader.types@[j as int].fields@[k as int].ty,
                reader.rank()[j as int],
            );
            assert(reader.row_bounded(reader.types@[j as int]));
        }
        type_has_packing(reader, &row.fields[k].ty) || row_fields_has_packing_from(reader, j, k + 1)
    }
}

fn row_declares_packing(reader: &Reader, j: usize) -> (res: bool)
    requires
        reader.wf(),
        j < reader.types@.len(),
    ensures
        res == spec_row_declares_packing(*reader, j as int),
    decreases
            reader.rank()[j as int],
            reader.n() - j,
            reader.types@[j as int].fields@.len() + 1,
            0nat,
            1nat,
{
    reader.types[j].class_layout || row_fields_has_packing_from(reader, j, 0)
}

fn partials_has_packing_from(reader: &Reader, d: TypeDef, j: usize) -> (res: bool)
    requires
        reader.wf(),
        reader.valid_type_def(d),
    ensures
        res == spec_partials_has_packing_from(*reader, d, j as int),
    decreases
            reader.rank()[d.0 as int],
            reader.n() - j,
            (if reader.named_v(j as int, reader.row(d).namespace@, reader.row(d).name@) {
                reader.types@[j as int].fields@.len() + 2
            } else {
                1nat
            }),
            0nat,
            2nat,
{
    let n = reader.types.len();
    if j >= n {
        false
    } else {
        let named = {
            let dd = &reader.types[d.0];
            let rj = &reader.types[j];
            crate::model::str_eq(rj.namespace.as_str(), dd.namespace.as_str())
                && crate::model::str_eq(rj.name.as_str(), dd.name.as_str())
        };
        proof {
            reader.lemma_rank();
            assert(reader.valid_rank_row(reader.rank(), d.0 as int));
            if named {
                assert(reader.same_name(d.0 as int, j as int));
            }
        }
        (named && row_declares_packing(reader, j)) || partials_has_packing_from(reader, d, j + 1)
    }
}

/// Packing, for a type definition.
pub fn type_def_has_packing(reader: &Reader, row: TypeDef) -> (res: bool)
    requires
        reader.wf(),
        reader.valid_type_def(row),
    ensures
        res == spec_type_def_has_packing(*reader, row),
    decreases reader.rank()[row.0 as int], reader.n() + 1, 0nat, 0nat, 0nat,
{
    if !matches!(reader.types[row.0].kind, TypeKind::Struct) {
        false
    } else if reader.types[row.0].namespace.as_str().unicode_len() == 0 {
        proof {
            assert(reader.types@[row.0 as int].namespace@.len() == 0);
        }
        row_declares_packing(reader, row.0)
    } else {
        partials_has_packing_from(reader, row, 0)
    }
}


proof fn lemma_row_fields_blittable_all(r: Reader, j: int, k: int)
    requires
        r.wf(),
        0 <= j < r.types@.len(),
        0 <= k,
        spec_row_fields_blittable_from(r, j, k),
    ensures
        forall|f: int|
            k <= f < r.types@[j].fields@.len() ==> spec_type_is_blittable(
                r,
                #[trigger] r.types@[j].fields@[f].ty,
            ),
    decreases r.types@[j].fields@.len() - k,
{
    if k < r.types@[j].fields@.len() {
        lemma_row_fields_blittable_all(r, j, k + 1);
    }
}

proof fn lemma_partials_blittable_all(r: Reader, d: TypeDef, j: int)
    requires
        r.wf(),
        d.0 < r.types@.len(),
        0 <= j,
        spec_partials_blittable_from(r, d, j),
    ensures
        forall|i: int|
            j <= i < r.n() && r.named_v(i, r.row(d).namespace@, r.row(d).name@)
                ==> #[trigger] spec_row_fields_blittable_from(r, i, 0),
    decreases r.n() - j,
{
    if j < r.n() {
        lemma_partials_blittable_all(r, d, j + 1);
    }
}

/// Wherever blittability of a WinRT-flagged struct holds, every field of
/// every partial row of the definition is blittable too; fields of plain
/// structs carry no such promise, since a plain struct is blittable by
/// default.
pub proof fn lemma_blittable_fields(r: Reader, d: TypeDef)
    requires
        r.wf(),
        d.0 < r.types@.len(),
        r.row(d).kind == TypeKind::Struct,
        r.row(d).flags.winrt,
        spec_type_def_is_blittable(r, d),
    ensures
        r.row(d).namespace@.len() == 0 ==> forall|f: int|
            0 <= f < r.types@[d.0 as int].fields@.len() ==> spec_type_is_blittable(
                r,
                #[trigger] r.types@[d.0 as int].fields@[f].ty,
            ),
        r.row(d).namespace@.len() != 0 ==> forall|i: int, f: int|
            0 <= i < r.n() && r.named_v(i, r.row(d).namespace@, r.row(d).name@) && 0 <= f
                < r.types@[i].fields@.len() ==> spec_type_is_blittable(
                r,
                #[trigger] r.types@[i].fields@[f].ty,
            ),
{
    if r.row(d).namespace@.len() == 0 {
        lemma_row_fields_blittable_all(r, d.0 as int, 0);
    } else {
        lemma_partials_blittable_all(r, d, 0);
        assert forall|i: int, f: int|
            0 <= i < r.n() && r.named_v(i, r.row(d).namespace@, r.row(d).name@) && 0 <= f
                < r.types@[i].fields@.len() implies spec_type_is_blittable(
            r,
            #[trigger] r.types@[i].fields@[f].ty,
        ) by {
            assert(spec_row_fields_blittable_from(r, i, 0));
            lemma_row_fields_blittable_all(r, i, 0);
        }
    }
}

} // verus!
