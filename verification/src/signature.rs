use vstd::prelude::*;
use crate::model::{
    spec_find_attr, spec_has_attr, AttrKind, Attribute, MethodDef, Param, Reader, Value,
};
use crate::types::{list_bounded, spec_subst, subst, ty_bounded, Type, TypeDef, TypeList};

verus! {

/// The classification of one parameter after the rewrite passes.
#[derive(Clone, Copy, Debug, PartialEq, Eq, Structural)]
pub enum SignatureParamKind {
    /// An array with a literal element count.
    ArrayFixed(usize),
    /// An array whose element count is the parameter at the given position.
    ArrayRelativeLen(usize),
    /// An array whose byte count is the parameter at the given position.
    ArrayRelativeByteLen(usize),
    /// A length parameter, pointing back at its array parameter.
    ArrayRelativePtr(usize),
    /// Convertible input with several possible implementors.
    TryInto,
    /// Convertible input with a single accepted conversion.
    IntoParam,
    /// A pointer the caller may pass as absent.
    OptionalPointer,
    /// A primitive scalar passed by value.
    ValueType,
    /// A blittable value.
    Blittable,
    /// No special treatment.
    Other,
}

impl SignatureParamKind {
    pub open spec fn spec_is_array(&self) -> bool {
        self matches SignatureParamKind::ArrayFixed(_) || self
            matches SignatureParamKind::ArrayRelativeLen(_) || self
            matches SignatureParamKind::ArrayRelativeByteLen(_) || self
            matches SignatureParamKind::ArrayRelativePtr(_)
    }

    /// Whether the kind takes part in an array pattern.
    #[verifier::when_used_as_spec(spec_is_array)]
    pub fn is_array(&self) -> (r: bool)
        ensures
            r == self.spec_is_array(),
    {
        matches!(
            self,
            SignatureParamKind::ArrayFixed(_) | SignatureParamKind::ArrayRelativeLen(_)
                | SignatureParamKind::ArrayRelativeByteLen(_)
                | SignatureParamKind::ArrayRelativePtr(_)
        )
    }
}

/// The positions of the identifier and output-object parameters of a
/// query-pattern call.
#[derive(Clone, Copy, Debug, PartialEq, Eq, Structural)]
pub struct QueryPosition {
    pub object: usize,
    pub guid: usize,
}

/// The overall call contract of a classified signature.
#[derive(Clone, Copy, Debug, PartialEq, Eq, Structural)]
pub enum SignatureKind {
    Query(QueryPosition),
    QueryOptional(QueryPosition),
    ResultValue,
    ResultVoid,
    ReturnStruct,
    ReturnValue,
    ReturnVoid,
    PreserveSig,
}

/// The awaitable pattern a WinRT return type follows, if any.
#[derive(Clone, Copy, Debug, PartialEq, Eq, Structural)]
pub enum AsyncKind {
    NotAsync,
    Action,
    ActionWithProgress,
    Operation,
    OperationWithProgress,
}

/// One classified parameter: the row handle, the rewritten type, and the kind.
pub struct SignatureParam {
    pub def: Param,
    pub ty: Type,
    pub kind: SignatureParamKind,
}

/// A classified method signature.  Recomputed on demand, never persisted.
pub struct Signature {
    pub def: MethodDef,
    pub params: Vec<SignatureParam>,
    pub return_type: Type,
    pub call_flags: u8,
}

/// The first I16 argument gives a parameter-relative length, the first I32 a
/// literal count; scanning starts at `j`.
pub open spec fn spec_nai_kind(args: Seq<(String, Value)>, j: int) -> Option<SignatureParamKind>
    decreases args.len() - j,
{
    if j < 0 || j >= args.len() {
        None
    } else {
        match args[j].1 {
            Value::I16(v) => Some(SignatureParamKind::ArrayRelativeLen(v as usize)),
            Value::I32(v) => Some(SignatureParamKind::ArrayFixed(v as usize)),
            _ => spec_nai_kind(args, j + 1),
        }
    }
}

/// The first I16 argument gives a parameter-relative byte length.
pub open spec fn spec_ms_kind(args: Seq<(String, Value)>, j: int) -> Option<SignatureParamKind>
    decreases args.len() - j,
{
    if j < 0 || j >= args.len() {
        None
    } else {
        match args[j].1 {
            Value::I16(v) => Some(SignatureParamKind::ArrayRelativeByteLen(v as usize)),
            _ => spec_ms_kind(args, j + 1),
        }
    }
}

/// The initial kind of a parameter, read from the attribute vocabulary: the
/// first native-array-info or memory-size attribute that carries a usable
/// argument decides; everything else is `Other`.
pub open spec fn spec_param_kind_from(attrs: Seq<Attribute>, i: int) -> SignatureParamKind
    decreases attrs.len() - i,
{
    if i < 0 || i >= attrs.len() {
        SignatureParamKind::Other
    } else if attrs[i].kind == AttrKind::NativeArrayInfo {
        match spec_nai_kind(attrs[i].args@, 0) {
            Some(k) => k,
            None => spec_param_kind_from(attrs, i + 1),
        }
    } else if attrs[i].kind == AttrKind::MemorySize {
        match spec_ms_kind(attrs[i].args@, 0) {
            Some(k) => k,
            None => spec_param_kind_from(attrs, i + 1),
        }
    } else {
        spec_param_kind_from(attrs, i + 1)
    }
}

pub open spec fn spec_param_kind(r: Reader, p: Param) -> SignatureParamKind {
    spec_param_kind_from(r.param(p).attributes@, 0)
}

fn nai_kind(args: &Vec<(String, Value)>, j: usize) -> (r: Option<SignatureParamKind>)
    requires
        j <= args@.len(),
    ensures
        r == spec_nai_kind(args@, j as int),
    decreases args@.len() - j,
{
    if j >= args.len() {
        None
    } else {
        match &args[j].1 {
            Value::I16(v) => Some(SignatureParamKind::ArrayRelativeLen(*v as usize)),
            Value::I32(v) => Some(SignatureParamKind::ArrayFixed(*v as usize)),
            _ => nai_kind(args, j + 1),
        }
    }
}

fn ms_kind(args: &Vec<(String, Value)>, j: usize) -> (r: Option<SignatureParamKind>)
    requires
        j <= args@.len(),
    ensures
        r == spec_ms_kind(args@, j as int),
    decreases args@.len() - j,
{
    if j >= args.len() {
        None
    } else {
        match &args[j].1 {
            Value::I16(v) => Some(SignatureParamKind::ArrayRelativeByteLen(*v as usize)),
            _ => ms_kind(args, j + 1),
        }
    }
}

fn param_kind_from(attrs: &Vec<Attribute>, i: usize) -> (r: SignatureParamKind)
    requires
        i <= attrs@.len(),
    ensures
        r == spec_param_kind_from(attrs@, i as int),
    decreases attrs@.len() - i,
{
    if i >= attrs.len() {
        SignatureParamKind::Other
    } else if attrs[i].kind == AttrKind::NativeArrayInfo {
        match nai_kind(&attrs[i].args, 0) {
            Some(k) => k,
            None => param_kind_from(attrs, i + 1),
        }
    } else if attrs[i].kind == AttrKind::MemorySize {
        match ms_kind(&attrs[i].args, 0) {
            Some(k) => k,
            None => param_kind_from(attrs, i + 1),
        }
    } else {
        param_kind_from(attrs, i + 1)
    }
}

/// The initial kind of a parameter row.
fn param_kind(reader: &Reader, row: Param) -> (r: SignatureParamKind)
    requires
        reader.valid_param(row),
    ensures
        r == spec_param_kind(*reader, row),
{
    param_kind_from(&reader.types[row.owner].methods[row.method].params[row.index].attributes, 0)
}

/// The first string argument of the given argument list.
pub open spec fn spec_str_arg_from(args: Seq<(String, Value)>, j: int) -> Option<Seq<char>>
    decreases args.len() - j,
{
    if j < 0 || j >= args.len() {
        None
    } else {
        match args[j].1 {
            Value::Str(s) => Some(s@),
            _ => spec_str_arg_from(args, j + 1),
        }
    }
}

/// The enum name a parameter's associated-enum attribute carries, if any.
pub open spec fn spec_param_or_enum(r: Reader, p: Param) -> Option<Seq<char>> {
    match spec_find_attr(r.param(p).attributes@, AttrKind::AssociatedEnum) {
        Some(i) => spec_str_arg_from(r.param(p).attributes@[i].args@, 0),
        None => None,
    }
}

fn str_arg_from(args: &Vec<(String, Value)>, j: usize) -> (r: Option<String>)
    requires
        j <= args@.len(),
    ensures
        match spec_str_arg_from(args@, j as int) {
            Some(v) => r matches Some(s) && s@ == v,
            None => r is None,
        },
    decreases args@.len() - j,
{
    if j >= args.len() {
        None
    } else {
        match &args[j].1 {
            Value::Str(s) => Some(s.clone()),
            _ => str_arg_from(args, j + 1),
        }
    }
}

/// Reads the enum name that an associated-enum attribute pairs with a scalar
/// parameter, if the attribute is present and carries a string.
fn param_or_enum(reader: &Reader, row: Param) -> (r: Option<String>)
    requires
        reader.valid_param(row),
    ensures
        match spec_param_or_enum(*reader, row) {
            Some(v) => r matches Some(s) && s@ == v,
            None => r is None,
        },
{
    let attrs = &reader.types[row.owner].methods[row.method].params[row.index].attributes;
    match crate::model::find_attr(attrs, AttrKind::AssociatedEnum) {
        Some(a) => str_arg_from(&a.args, 0),
        None => None,
    }
}

/// The first row named `namespace.name`.
pub open spec fn spec_first_named_from(r: Reader, ns: Seq<char>, nm: Seq<char>, j: int) -> Option<
    int,
>
    decreases r.n() - j,
{
    if j < 0 || j >= r.n() {
        None
    } else if r.named_v(j, ns, nm) {
        Some(j)
    } else {
        spec_first_named_from(r, ns, nm, j + 1)
    }
}

pub open spec fn spec_first_named(r: Reader, ns: Seq<char>, nm: Seq<char>) -> Option<int> {
    spec_first_named_from(r, ns, nm, 0)
}

pub proof fn lemma_first_named_range(r: Reader, ns: Seq<char>, nm: Seq<char>, j0: int)
    requires
        0 <= j0,
    ensures
        match spec_first_named_from(r, ns, nm, j0) {
            Some(j) => j0 <= j < r.n() && r.named_v(j, ns, nm),
            None => true,
        },
    decreases r.n() - j0,
{
    if j0 < r.n() && !r.named_v(j0, ns, nm) {
        lemma_first_named_range(r, ns, nm, j0 + 1);
    }
}

pub fn first_named(reader: &Reader, ns: &str, nm: &str) -> (res: Option<TypeDef>)
    ensures
        match spec_first_named(*reader, ns@, nm@) {
            Some(j) => res matches Some(d) && d.0 == j,
            None => res is None,
        },
{
    let n = reader.types.len();
    let mut j: usize = 0;
    while j < n
        invariant
            0 <= j <= n,
            n == reader.types@.len(),
            spec_first_named(*reader, ns@, nm@) == spec_first_named_from(
                *reader,
                ns@,
                nm@,
                j as int,
            ),
        decreases n - j,
    {
        let row = &reader.types[j];
        if crate::model::str_eq(row.namespace.as_str(), ns) && crate::model::str_eq(
            row.name.as_str(),
            nm,
        ) {
            return Some(TypeDef(j));
        }
        j += 1;
    }
    None
}

/// Whether the method's native-invoke mapping routes failures through the
/// thread-local last-error slot.
pub open spec fn spec_method_def_last_error(r: Reader, m: MethodDef) -> bool {
    match r.method(m).impl_map {
        Some(map) => map.supports_last_error,
        None => false,
    }
}

fn method_def_last_error(reader: &Reader, row: MethodDef) -> (res: bool)
    requires
        reader.valid_method(row),
    ensures
        res == spec_method_def_last_error(*reader, row),
{
    match &reader.types[row.owner].methods[row.index].impl_map {
        Some(map) => map.supports_last_error,
        None => false,
    }
}


/// Whether the return slot's pseudo-parameter is marked const.
pub open spec fn spec_ret_const(r: Reader, m: MethodDef) -> bool {
    exists|i: int|
        0 <= i < r.method(m).params@.len() && (#[trigger] r.method(m).params@[i]).sequence == 0
            && spec_has_attr(r.method(m).params@[i].attributes@, AttrKind::Const)
}

/// The signature's final return type: the declared blob type with generics
/// bound, const-qualified when the return slot is marked const.
pub open spec fn spec_return_type(r: Reader, m: MethodDef, gs: Seq<Type>) -> Type {
    let base = spec_subst(r.method(m).return_type, gs);
    if spec_ret_const(r, m) {
        base.spec_to_const_type()
    } else {
        base
    }
}

/// The decoded, decorated state of real parameter `i` before the rewrite
/// passes: generics bound, an associated enum folded in, const qualification
/// and const-pointer decoration applied by direction, and the initial kind
/// read from the attributes.
pub open spec fn spec_initial_param(
    r: Reader,
    ns: Seq<char>,
    m: MethodDef,
    gs: Seq<Type>,
    i: int,
) -> SignatureParam {
    let pr = r.method(m).params@[i];
    let h = Param { owner: m.owner, method: m.index, index: i as usize };
    let ty0 = spec_subst(pr.ty, gs);
    let ty1 = match spec_param_or_enum(r, h) {
        Some(nm) => match spec_first_named(r, ns, nm) {
            Some(j) => Type::PrimitiveOrEnum(
                Box::new(ty0),
                Box::new(Type::TypeDef(TypeDef(j as usize), TypeList::Nil)),
            ),
            None => ty0,
        },
        None => ty0,
    };
    let is_output = pr.flags.output;
    let pc = spec_has_attr(pr.attributes@, AttrKind::Const);
    let ty2 = if pc || !is_output {
        ty1.spec_to_const_type()
    } else {
        ty1
    };
    let ty3 = if !is_output {
        ty2.spec_to_const_ptr()
    } else {
        ty2
    };
    SignatureParam { def: h, ty: ty3, kind: spec_param_kind(r, h) }
}

/// The decoded parameter list from row position `i` on; the return-slot
/// pseudo-parameter is dropped.
pub open spec fn spec_initial_params_from(
    r: Reader,
    ns: Seq<char>,
    m: MethodDef,
    gs: Seq<Type>,
    i: int,
) -> Seq<SignatureParam>
    decreases r.method(m).params@.len() - i,
{
    if i < 0 || i >= r.method(m).params@.len() {
        Seq::empty()
    } else if r.method(m).params@[i].sequence == 0 {
        spec_initial_params_from(r, ns, m, gs, i + 1)
    } else {
        seq![spec_initial_param(r, ns, m, gs, i)] + spec_initial_params_from(r, ns, m, gs, i + 1)
    }
}

pub open spec fn spec_initial_params(r: Reader, ns: Seq<char>, m: MethodDef, gs: Seq<Type>) -> Seq<
    SignatureParam,
> {
    spec_initial_params_from(r, ns, m, gs, 0)
}

/// Every parameter-relative length index addresses a parameter of the list.
pub open spec fn rel_kinds_in_range(s: Seq<SignatureParam>) -> bool {
    forall|i: int|
        0 <= i < s.len() ==> match (#[trigger] s[i]).kind {
            SignatureParamKind::ArrayRelativeLen(rel) => rel < s.len(),
            SignatureParamKind::ArrayRelativeByteLen(rel) => rel < s.len(),
            _ => true,
        }
}

/// Every parameter's row handle is valid and its type bounded.
pub open spec fn params_wf(r: Reader, s: Seq<SignatureParam>) -> bool {
    forall|j: int|
        0 <= j < s.len() ==> r.valid_param((#[trigger] s[j]).def) && ty_bounded(s[j].ty, r.n())
}

/// One step of the length-to-pointer linking pass at position `i`: a length
/// parameter that is input-only, distinct and not a pointer is promoted to
/// point back at its array; otherwise the array parameter degrades to
/// `Other`.  A fixed array whose definition transfers ownership degrades too.
pub open spec fn pass1_step(r: Reader, s: Seq<SignatureParam>, i: int) -> Seq<SignatureParam> {
    match s[i].kind {
        SignatureParamKind::ArrayRelativeLen(rel) | SignatureParamKind::ArrayRelativeByteLen(
            rel,
        ) => {
            let rl = rel as int;
            if !r.param(s[rl].def).flags.output && i != rl && !s[rl].ty.spec_is_pointer() {
                s.update(
                    rl,
                    SignatureParam {
                        def: s[rl].def,
                        ty: s[rl].ty,
                        kind: SignatureParamKind::ArrayRelativePtr(i as usize),
                    },
                )
            } else {
                s.update(
                    i,
                    SignatureParam {
                        def: s[i].def,
                        ty: s[i].ty,
                        kind: SignatureParamKind::Other,
                    },
                )
            }
        },
        SignatureParamKind::ArrayFixed(_) => {
            if spec_has_attr(r.param(s[i].def).attributes@, AttrKind::FreeWith) {
                s.update(
                    i,
                    SignatureParam {
                        def: s[i].def,
                        ty: s[i].ty,
                        kind: SignatureParamKind::Other,
                    },
                )
            } else {
                s
            }
        },
        _ => s,
    }
}

/// The linking pass applied at positions `0` to `n - 1`, in order.
pub open spec fn spec_pass1_upto(r: Reader, s: Seq<SignatureParam>, n: int) -> Seq<SignatureParam>
    decreases n,
{
    if n <= 0 {
        s
    } else {
        pass1_step(r, spec_pass1_upto(r, s, n - 1), n - 1)
    }
}

/// The passes only reclassify: positions, row handles and types never
/// change, and relative indices stay in range.
pub proof fn lemma_pass1_frame(r: Reader, s: Seq<SignatureParam>, n: int)
    requires
        0 <= n <= s.len(),
        rel_kinds_in_range(s),
    ensures
        spec_pass1_upto(r, s, n).len() == s.len(),
        rel_kinds_in_range(spec_pass1_upto(r, s, n)),
        forall|j: int|
            0 <= j < s.len() ==> (#[trigger] spec_pass1_upto(r, s, n)[j]).def == s[j].def
                && spec_pass1_upto(r, s, n)[j].ty == s[j].ty,
    decreases n,
{
    if n > 0 {
        lemma_pass1_frame(r, s, n - 1);
        let prev = spec_pass1_upto(r, s, n - 1);
        let cur = pass1_step(r, prev, n - 1);
        assert forall|j: int| 0 <= j < cur.len() implies match (#[trigger] cur[j]).kind {
            SignatureParamKind::ArrayRelativeLen(rel) => rel < cur.len(),
            SignatureParamKind::ArrayRelativeByteLen(rel) => rel < cur.len(),
            _ => true,
        } by {
            assert(match prev[j].kind {
                SignatureParamKind::ArrayRelativeLen(rel) => rel < prev.len(),
                SignatureParamKind::ArrayRelativeByteLen(rel) => rel < prev.len(),
                _ => true,
            });
        }
    }
}

/// Position `i` is an array parameter referencing length position `rel`.
pub open spec fn refs_len(s: Seq<SignatureParam>, rel: int, i: int) -> bool {
    0 <= i < s.len() && match s[i].kind {
        SignatureParamKind::ArrayRelativeLen(x) => x as int == rel,
        SignatureParamKind::ArrayRelativeByteLen(x) => x as int == rel,
        _ => false,
    }
}

/// At least two array parameters reference the length position `rel`.
pub open spec fn shared_len(s: Seq<SignatureParam>, rel: int) -> bool {
    exists|a: int, b: int| refs_len(s, rel, a) && refs_len(s, rel, b) && a != b
}

/// The ambiguity-removal pass: a length position referenced by more than one
/// array parameter is demoted together with every referencing array.
pub open spec fn pass2_kind(s: Seq<SignatureParam>, i: int) -> SignatureParamKind {
    if shared_len(s, i) {
        SignatureParamKind::Other
    } else {
        match s[i].kind {
            SignatureParamKind::ArrayRelativeLen(rel) => if shared_len(s, rel as int) {
                SignatureParamKind::Other
            } else {
                s[i].kind
            },
            SignatureParamKind::ArrayRelativeByteLen(rel) => if shared_len(s, rel as int) {
                SignatureParamKind::Other
            } else {
                s[i].kind
            },
            _ => s[i].kind,
        }
    }
}

pub open spec fn spec_pass2(s: Seq<SignatureParam>) -> Seq<SignatureParam> {
    Seq::new(
        s.len(),
        |i: int| SignatureParam { def: s[i].def, ty: s[i].ty, kind: pass2_kind(s, i) },
    )
}

pub proof fn lemma_pass2_range(s: Seq<SignatureParam>)
    requires
        rel_kinds_in_range(s),
    ensures
        rel_kinds_in_range(spec_pass2(s)),
{
    assert forall|i: int| 0 <= i < spec_pass2(s).len() implies match (#[trigger] spec_pass2(
        s,
    )[i]).kind {
        SignatureParamKind::ArrayRelativeLen(rel) => rel < spec_pass2(s).len(),
        SignatureParamKind::ArrayRelativeByteLen(rel) => rel < spec_pass2(s).len(),
        _ => true,
    } by {
        assert(spec_pass2(s)[i].kind == pass2_kind(s, i));
    }
}

/// One step of the byte-array sanity pass: a byte-length pairing whose array
/// element is not byte-sized demotes both parameters.
pub open spec fn pass3_step(s: Seq<SignatureParam>, i: int) -> Seq<SignatureParam> {
    match s[i].kind {
        SignatureParamKind::ArrayRelativeByteLen(rel) => {
            if !s[i].ty.spec_is_byte_size() {
                let rl = rel as int;
                s.update(
                    i,
                    SignatureParam {
                        def: s[i].def,
                        ty: s[i].ty,
                        kind: SignatureParamKind::Other,
                    },
                ).update(
                    rl,
                    SignatureParam {
                        def: s[rl].def,
                        ty: s[rl].ty,
                        kind: SignatureParamKind::Other,
                    },
                )
            } else {
                s
            }
        },
        _ => s,
    }
}

pub open spec fn spec_pass3_upto(s: Seq<SignatureParam>, n: int) -> Seq<SignatureParam>
    decreases n,
{
    if n <= 0 {
        s
    } else {
        pass3_step(spec_pass3_upto(s, n - 1), n - 1)
    }
}

pub proof fn lemma_pass3_frame(s: Seq<SignatureParam>, n: int)
    requires
        0 <= n <= s.len(),
        rel_kinds_in_range(s),
    ensures
        spec_pass3_upto(s, n).len() == s.len(),
        rel_kinds_in_range(spec_pass3_upto(s, n)),
        forall|j: int|
            0 <= j < s.len() ==> (#[trigger] spec_pass3_upto(s, n)[j]).def == s[j].def
                && spec_pass3_upto(s, n)[j].ty == s[j].ty,
    decreases n,
{
    if n > 0 {
        lemma_pass3_frame(s, n - 1);
    }
}

/// Convertible: an input-only, non-array, non-pointer value whose type is
/// borrowed, a non-exclusive WinRT interface, or a trivially convertible
/// handle struct.
pub open spec fn spec_convertible(r: Reader, p: SignatureParam) -> bool {
    &&& !r.param(p.def).flags.output
    &&& !p.ty.spec_is_winrt_array()
    &&& !p.ty.spec_is_pointer()
    &&& !p.kind.spec_is_array()
    &&& {
        ||| crate::predicates::spec_type_is_borrowed(r, p.ty)
        ||| crate::predicates::spec_type_is_non_exclusive_winrt_interface(r, p.ty)
        ||| crate::predicates::spec_type_is_trivially_convertible(r, p.ty)
    }
}

/// The fallback classification of one still-`Other` parameter.
pub open spec fn pass4_kind(r: Reader, p: SignatureParam) -> SignatureParamKind {
    if p.kind != SignatureParamKind::Other {
        p.kind
    } else if spec_convertible(r, p) {
        if crate::predicates::spec_type_is_non_exclusive_winrt_interface(r, p.ty) {
            SignatureParamKind::TryInto
        } else {
            SignatureParamKind::IntoParam
        }
    } else if p.ty.spec_is_pointer() && (r.param(p.def).flags.optional || spec_has_attr(
        r.param(p.def).attributes@,
        AttrKind::Reserved,
    )) {
        SignatureParamKind::OptionalPointer
    } else if crate::predicates::spec_type_is_primitive(r, p.ty) && (!p.ty.spec_is_pointer()
        || crate::predicates::spec_type_is_blittable(r, p.ty.spec_deref())) {
        SignatureParamKind::ValueType
    } else if crate::predicates::spec_type_is_blittable(r, p.ty) {
        SignatureParamKind::Blittable
    } else {
        SignatureParamKind::Other
    }
}

pub open spec fn spec_pass4(r: Reader, s: Seq<SignatureParam>) -> Seq<SignatureParam> {
    Seq::new(
        s.len(),
        |i: int| SignatureParam { def: s[i].def, ty: s[i].ty, kind: pass4_kind(r, s[i]) },
    )
}

/// The fully classified parameter list of a method: the decoded parameters
/// taken through the four rewrite passes in order.
pub open spec fn spec_signature_params(r: Reader, ns: Seq<char>, m: MethodDef, gs: Seq<Type>) -> Seq<
    SignatureParam,
> {
    let s0 = spec_initial_params(r, ns, m, gs);
    spec_pass4(
        r,
        spec_pass3_upto(spec_pass2(spec_pass1_upto(r, s0, s0.len() as int)), s0.len() as int),
    )
}

/// Whether the parameter may be rewritten into a generic conversion input.
pub fn signature_param_is_convertible(reader: &Reader, param: &SignatureParam) -> (res: bool)
    requires
        reader.wf(),
        reader.valid_param(param.def),
        ty_bounded(param.ty, reader.n()),
    ensures
        res == spec_convertible(*reader, *param),
{
    let flags = reader.types[param.def.owner].methods[param.def.method].params[param.def.index]
        .flags;
    !flags.output && !param.ty.is_winrt_array() && !param.ty.is_pointer()
        && !param.kind.is_array() && (crate::predicates::type_is_borrowed(reader, &param.ty)
        || crate::predicates::type_is_non_exclusive_winrt_interface(reader, &param.ty)
        || crate::predicates::type_is_trivially_convertible(reader, &param.ty))
}

fn shared_len_exec(params: &Vec<SignatureParam>, rel: usize) -> (res: bool)
    ensures
        res == shared_len(params@, rel as int),
{
    let n = params.len();
    let mut i: usize = 0;
    let mut found: Option<usize> = None;
    while i < n
        invariant
            0 <= i <= n,
            n == params@.len(),
            match found {
                Some(f) => f < i && refs_len(params@, rel as int, f as int) && forall|j: int|
                    0 <= j < i && j != f ==> !refs_len(params@, rel as int, j),
                None => forall|j: int| 0 <= j < i ==> !refs_len(params@, rel as int, j),
            },
        decreases n - i,
    {
        let k = params[i].kind;
        let is_ref = match k {
            SignatureParamKind::ArrayRelativeLen(x) => x == rel,
            SignatureParamKind::ArrayRelativeByteLen(x) => x == rel,
            _ => false,
        };
        if is_ref {
            match found {
                Some(f) => {
                    proof {
                        assert(refs_len(params@, rel as int, f as int));
                        assert(refs_len(params@, rel as int, i as int));
                    }
                    return true;
                },
                None => {
                    found = Some(i);
                },
            }
        }
        i += 1;
    }
    proof {
        if shared_len(params@, rel as int) {
            let (a, b): (int, int) = choose|a: int, b: int|
                refs_len(params@, rel as int, a) && refs_len(params@, rel as int, b) && a != b;
            match found {
                Some(f) => {
                    assert(a == f && b == f);
                },
                None => {
                    assert(!refs_len(params@, rel as int, a));
                },
            }
        }
    }
    false
}

/// Builds the classified signature of a method: the calling-convention byte,
/// the return type, and the parameter list after the four rewrite passes.
pub fn method_def_signature(
    reader: &Reader,
    namespace: &str,
    row: MethodDef,
    generics: &TypeList,
) -> (sig: Signature)
    requires
        reader.wf(),
        reader.valid_method(row),
        list_bounded(*generics, reader.n()),
        rel_kinds_in_range(spec_initial_params(*reader, namespace@, row, generics.seq())),
        forall|i: int|
            0 <= i < reader.method(row).params@.len() && (#[trigger] reader.method(
                row,
            ).params@[i]).sequence != 0 ==> (spec_param_or_enum(
                *reader,
                Param { owner: row.owner, method: row.index, index: i as usize },
            ) matches Some(nm) ==> spec_first_named(*reader, namespace@, nm) is Some),
    ensures
        sig.def == row,
        sig.call_flags == reader.method(row).call_flags,
        sig.return_type == spec_return_type(*reader, row, generics.seq()),
        sig.params@ == spec_signature_params(*reader, namespace@, row, generics.seq()),
        params_wf(*reader, sig.params@),
{
    let ghost gs = generics.seq();
    let ghost ns = namespace@;
    proof {
        crate::types::lemma_list_bounded_seq(*generics, reader.n());
    }
    let nrows = reader.types.len();
    proof {
        assert(nrows == reader.types@.len());
    }
    let plen = reader.types[row.owner].methods[row.index].params.len();
    let mut params: Vec<SignatureParam> = Vec::new();
    let mut saw_const = false;
    let mut i: usize = 0;
    while i < plen
        invariant
            reader.wf(),
            reader.valid_method(row),
            crate::types::seq_bounded(gs, reader.n()),
            gs == generics.seq(),
            ns == namespace@,
            plen == reader.method(row).params@.len(),
            nrows == reader.types@.len(),
            0 <= i <= plen,
            params@ + spec_initial_params_from(*reader, ns, row, gs, i as int)
                == spec_initial_params(*reader, ns, row, gs),
            params_wf(*reader, params@),
            saw_const == exists|j: int|
                0 <= j < i && (#[trigger] reader.method(row).params@[j]).sequence == 0
                    && spec_has_attr(reader.method(row).params@[j].attributes@, AttrKind::Const),
            forall|k: int|
                0 <= k < reader.method(row).params@.len() && (#[trigger] reader.method(
                    row,
                ).params@[k]).sequence != 0 ==> (spec_param_or_enum(
                    *reader,
                    Param { owner: row.owner, method: row.index, index: k as usize },
                ) matches Some(nm) ==> spec_first_named(*reader, ns, nm) is Some),
        decreases plen - i,
    {
        let ghost old_params = params@;
        let pr = &reader.types[row.owner].methods[row.index].params[i];
        if pr.sequence == 0 {
            let c = crate::model::has_attr(&pr.attributes, AttrKind::Const);
            proof {
                if c {
                    assert(reader.method(row).params@[i as int].sequence == 0 && spec_has_attr(
                        reader.method(row).params@[i as int].attributes@,
                        AttrKind::Const,
                    ));
                }
            }
            if c {
                saw_const = true;
            }
            proof {
                if saw_const {
                    assert(exists|j: int|
                        0 <= j < i + 1 && (#[trigger] reader.method(row).params@[j]).sequence == 0
                            && spec_has_attr(
                            reader.method(row).params@[j].attributes@,
                            AttrKind::Const,
                        ));
                } else {
                    assert(forall|j: int|
                        0 <= j < i + 1 && (#[trigger] reader.method(row).params@[j]).sequence == 0
                            ==> !spec_has_attr(
                            reader.method(row).params@[j].attributes@,
                            AttrKind::Const,
                        ));
                }
            }
        } else {
            let h = Param { owner: row.owner, method: row.index, index: i };
            let ty0 = subst(&pr.ty, generics);
            let ty1 = match param_or_enum(reader, h) {
                Some(name) => {
                    match first_named(reader, namespace, name.as_str()) {
                        Some(d) => Type::PrimitiveOrEnum(
                            Box::new(ty0),
                            Box::new(Type::TypeDef(d, TypeList::Nil)),
                        ),
                        None => ty0,
                    }
                },
                None => ty0,
            };
            let pc = crate::model::has_attr(&pr.attributes, AttrKind::Const);
            let is_output = pr.flags.output;
            let ty2 = if pc || !is_output {
                ty1.to_const_type()
            } else {
                ty1
            };
            let ty3 = if !is_output {
                ty2.to_const_ptr()
            } else {
                ty2
            };
            let kind = param_kind(reader, h);
            proof {
                assert(reader.row_bounded(reader.types@[row.owner as int]));
                let t0 = spec_subst(reader.method(row).params@[i as int].ty, gs);
                crate::types::lemma_subst_bounded(
                    reader.method(row).params@[i as int].ty,
                    gs,
                    reader.n(),
                );
                let t1 = match spec_param_or_enum(*reader, h) {
                    Some(nm) => match spec_first_named(*reader, ns, nm) {
                        Some(j) => Type::PrimitiveOrEnum(
                            Box::new(t0),
                            Box::new(Type::TypeDef(TypeDef(j as usize), TypeList::Nil)),
                        ),
                        None => t0,
                    },
                    None => t0,
                };
                match spec_param_or_enum(*reader, h) {
                    Some(nm) => {
                        lemma_first_named_range(*reader, ns, nm, 0);
                        match spec_first_named(*reader, ns, nm) {
                            Some(j) => {
                                assert(0 <= j < reader.n());
                                assert(reader.n() <= usize::MAX);
                                assert((j as usize) < reader.n());
                                assert(list_bounded(TypeList::Nil, reader.n()));
                                assert(ty_bounded(
                                    Type::TypeDef(TypeDef(j as usize), TypeList::Nil),
                                    reader.n(),
                                ));
                                assert(ty_bounded(t1, reader.n()));
                            },
                            None => {
                                assert(ty_bounded(t1, reader.n()));
                            },
                        }
                    },
                    None => {
                        assert(ty_bounded(t1, reader.n()));
                    },
                }
                crate::types::lemma_to_const_type_bounded(t1, reader.n());
            }
            params.push(SignatureParam { def: h, ty: ty3, kind });
            proof {
                let sp = spec_initial_param(*reader, ns, row, gs, i as int);
                assert(params@[params@.len() - 1] == sp);
                assert(spec_initial_params_from(*reader, ns, row, gs, i as int) == seq![sp]
                    + spec_initial_params_from(*reader, ns, row, gs, i + 1));
                assert(params@ + spec_initial_params_from(*reader, ns, row, gs, i + 1)
                    =~= old_params + spec_initial_params_from(*reader, ns, row, gs, i as int));
            }
        }
        i += 1;
    }
    proof {
        assert(params@ + spec_initial_params_from(*reader, ns, row, gs, plen as int) =~= params@);
        assert(params@ == spec_initial_params(*reader, ns, row, gs));
    }
    let ghost s0 = spec_initial_params(*reader, ns, row, gs);
    let n = params.len();

    // Pass 1: length-to-pointer linking.
    let mut position: usize = 0;
    while position < n
        invariant
            reader.wf(),
            n == s0.len(),
            0 <= position <= n,
            rel_kinds_in_range(s0),
            params_wf(*reader, s0),
            params@ == spec_pass1_upto(*reader, s0, position as int),
        decreases n - position,
    {
        proof {
            lemma_pass1_frame(*reader, s0, position as int);
            lemma_pass1_frame(*reader, s0, position as int + 1);
        }
        let k = params[position].kind;
        match k {
            SignatureParamKind::ArrayRelativeLen(relative)
                | SignatureParamKind::ArrayRelativeByteLen(relative) => {
                let rel_output = {
                    let d = params[relative].def;
                    reader.types[d.owner].methods[d.method].params[d.index].flags.output
                };
                let rel_is_ptr = params[relative].ty.is_pointer();
                if !rel_output && position != relative && !rel_is_ptr {
                    let d = params[relative].def;
                    let t = params[relative].ty.duplicate();
                    params[relative] = SignatureParam {
                        def: d,
                        ty: t,
                        kind: SignatureParamKind::ArrayRelativePtr(position),
                    };
                } else {
                    let d = params[position].def;
                    let t = params[position].ty.duplicate();
                    params[position] = SignatureParam {
                        def: d,
                        ty: t,
                        kind: SignatureParamKind::Other,
                    };
                }
            },
            SignatureParamKind::ArrayFixed(_) => {
                let free_with = {
                    let d = params[position].def;
                    crate::model::has_attr(
                        &reader.types[d.owner].methods[d.method].params[d.index].attributes,
                        AttrKind::FreeWith,
                    )
                };
                if free_with {
                    let d = params[position].def;
                    let t = params[position].ty.duplicate();
                    params[position] = SignatureParam {
                        def: d,
                        ty: t,
                        kind: SignatureParamKind::Other,
                    };
                }
            },
            _ => {},
        }
        proof {
            assert(params@ =~= spec_pass1_upto(*reader, s0, position as int + 1));
        }
        position += 1;
    }
    let ghost s1 = spec_pass1_upto(*reader, s0, s0.len() as int);
    proof {
        lemma_pass1_frame(*reader, s0, s0.len() as int);
    }

    // Pass 2: remove length parameters shared by several arrays.
    let mut newks: Vec<SignatureParamKind> = Vec::new();
    let mut i2: usize = 0;
    while i2 < n
        invariant
            reader.wf(),
            n == params@.len(),
            params@ == s1,
            0 <= i2 <= n,
            newks@.len() == i2,
            forall|j: int| 0 <= j < i2 ==> newks@[j] == pass2_kind(s1, j),
        decreases n - i2,
    {
        let shared_self = shared_len_exec(&params, i2);
        let k = params[i2].kind;
        let shared_rel = match k {
            SignatureParamKind::ArrayRelativeLen(rel) => shared_len_exec(&params, rel),
            SignatureParamKind::ArrayRelativeByteLen(rel) => shared_len_exec(&params, rel),
            _ => false,
        };
        let nk = if shared_self || shared_rel {
            SignatureParamKind::Other
        } else {
            k
        };
        proof {
            assert(nk == pass2_kind(s1, i2 as int));
        }
        newks.push(nk);
        i2 += 1;
    }
    let mut i3: usize = 0;
    while i3 < n
        invariant
            reader.wf(),
            n == params@.len(),
            n == s1.len(),
            0 <= i3 <= n,
            newks@.len() == n,
            forall|j: int| 0 <= j < n ==> newks@[j] == pass2_kind(s1, j),
            forall|j: int| 0 <= j < i3 ==> params@[j] == spec_pass2(s1)[j],
            forall|j: int| i3 <= j < n ==> params@[j] == s1[j],
        decreases n - i3,
    {
        let d = params[i3].def;
        let t = params[i3].ty.duplicate();
        let nk = newks[i3];
        params[i3] = SignatureParam { def: d, ty: t, kind: nk };
        i3 += 1;
    }
    proof {
        assert(params@ =~= spec_pass2(s1));
        lemma_pass2_range(s1);
    }
    let ghost s2 = spec_pass2(s1);

    // Pass 3: demote byte arrays over elements that are not byte-sized.
    let mut p3: usize = 0;
    while p3 < n
        invariant
            reader.wf(),
            n == s2.len(),
            0 <= p3 <= n,
            rel_kinds_in_range(s2),
            params@ == spec_pass3_upto(s2, p3 as int),
        decreases n - p3,
    {
        proof {
            lemma_pass3_frame(s2, p3 as int);
            lemma_pass3_frame(s2, p3 as int + 1);
        }
        let k = params[p3].kind;
        match k {
            SignatureParamKind::ArrayRelativeByteLen(relative) => {
                if !params[p3].ty.is_byte_size() {
                    let d = params[p3].def;
                    let t = params[p3].ty.duplicate();
                    params[p3] = SignatureParam {
                        def: d,
                        ty: t,
                        kind: SignatureParamKind::Other,
                    };
                    let d2 = params[relative].def;
                    let t2 = params[relative].ty.duplicate();
                    params[relative] = SignatureParam {
                        def: d2,
                        ty: t2,
                        kind: SignatureParamKind::Other,
                    };
                }
            },
            _ => {},
        }
        proof {
            assert(params@ =~= spec_pass3_upto(s2, p3 as int + 1));
        }
        p3 += 1;
    }
    let ghost s3 = spec_pass3_upto(s2, s2.len() as int);
    proof {
        lemma_pass3_frame(s2, s2.len() as int);
    }

    // Pass 4: fallback classification of everything still `Other`.
    let mut p4: usize = 0;
    while p4 < n
        invariant
            reader.wf(),
            n == s3.len(),
            0 <= p4 <= n,
            params_wf(*reader, s3),
            forall|j: int| 0 <= j < p4 ==> params@[j] == spec_pass4(*reader, s3)[j],
            forall|j: int| p4 <= j < n ==> params@[j] == s3[j],
            n == params@.len(),
        decreases n - p4,
    {
        let k = params[p4].kind;
        let nk = if !matches!(k, SignatureParamKind::Other) {
            k
        } else {
            let conv = signature_param_is_convertible(reader, &params[p4]);
            if conv {
                if crate::predicates::type_is_non_exclusive_winrt_interface(
                    reader,
                    &params[p4].ty,
                ) {
                    SignatureParamKind::TryInto
                } else {
                    SignatureParamKind::IntoParam
                }
            } else {
                let d = params[p4].def;
                let flags = reader.types[d.owner].methods[d.method].params[d.index].flags;
                let reserved = crate::model::has_attr(
                    &reader.types[d.owner].methods[d.method].params[d.index].attributes,
                    AttrKind::Reserved,
                );
                if params[p4].ty.is_pointer() && (flags.optional || reserved) {
                    SignatureParamKind::OptionalPointer
                } else {
                    let prim = crate::predicates::type_is_primitive(reader, &params[p4].ty);
                    let ptr = params[p4].ty.is_pointer();
                    let deref_blit = if ptr {
                        let dt = params[p4].ty.deref();
                        proof {
                            assert(ty_bounded(params@[p4 as int].ty.spec_deref(), reader.n()));
                        }
                        crate::predicates::type_is_blittable(reader, &dt)
                    } else {
                        false
                    };
                    if prim && (!ptr || deref_blit) {
                        SignatureParamKind::ValueType
                    } else if crate::predicates::type_is_blittable(reader, &params[p4].ty) {
                        SignatureParamKind::Blittable
                    } else {
                        SignatureParamKind::Other
                    }
                }
            }
        };
        proof {
            assert(nk == pass4_kind(*reader, s3[p4 as int]));
        }
        let d = params[p4].def;
        let t = params[p4].ty.duplicate();
        params[p4] = SignatureParam { def: d, ty: t, kind: nk };
        p4 += 1;
    }
    proof {
        assert(params@ =~= spec_pass4(*reader, s3));
    }

    let mrow = &reader.types[row.owner].methods[row.index];
    let base = subst(&mrow.return_type, generics);
    let return_type = if saw_const {
        base.to_const_type()
    } else {
        base
    };
    proof {
        assert(params_wf(*reader, params@)) by {
            assert forall|j: int|
                0 <= j < params@.len() implies reader.valid_param(
                (#[trigger] params@[j]).def,
            ) && ty_bounded(params@[j].ty, reader.n()) by {
                assert(params@[j].def == s0[j].def && params@[j].ty == s0[j].ty);
            }
        }
    }
    Signature { def: row, params, return_type, call_flags: mrow.call_flags }
}


/// Retval promotion: an explicit retval marker wins outright; otherwise the
/// parameter must be a non-void pointer, output-only, not optional, outside
/// every array pattern, its pointee at most sixteen bytes and not a non-WinRT
/// callback.
pub open spec fn spec_param_is_retval(r: Reader, p: SignatureParam) -> bool {
    if spec_has_attr(r.param(p.def).attributes@, AttrKind::RetVal) {
        true
    } else if !p.ty.spec_is_pointer() {
        false
    } else if p.ty.spec_is_void() {
        false
    } else if r.param(p.def).flags.input || !r.param(p.def).flags.output || r.param(
        p.def,
    ).flags.optional || p.kind.spec_is_array() {
        false
    } else if spec_param_kind(r, p.def).spec_is_array() {
        false
    } else if crate::sizes::spec_type_size(r, p.ty.spec_deref()) > 16 {
        false
    } else {
        match p.ty.spec_deref() {
            Type::TypeDef(d, _) => !crate::predicates::spec_type_def_is_callback(r, d),
            _ => true,
        }
    }
}

fn signature_param_is_retval(reader: &Reader, param: &SignatureParam) -> (res: bool)
    requires
        reader.wf(),
        reader.valid_param(param.def),
        ty_bounded(param.ty, reader.n()),
        param.ty.spec_is_pointer() ==> crate::sizes::spec_ty_layout_ok(
            *reader,
            param.ty.spec_deref(),
        ),
    ensures
        res == spec_param_is_retval(*reader, *param),
{
    let d = param.def;
    let attrs = &reader.types[d.owner].methods[d.method].params[d.index].attributes;
    if crate::model::has_attr(attrs, AttrKind::RetVal) {
        return true;
    }
    if !param.ty.is_pointer() {
        return false;
    }
    if param.ty.is_void() {
        return false;
    }
    let flags = reader.types[d.owner].methods[d.method].params[d.index].flags;
    if flags.input || !flags.output || flags.optional || param.kind.is_array() {
        return false;
    }
    if param_kind(reader, d).is_array() {
        return false;
    }
    let dt = param.ty.deref();
    proof {
        assert(ty_bounded(param.ty.spec_deref(), reader.n()));
    }
    if crate::sizes::type_size(reader, &dt) > 16 {
        return false;
    }
    match &dt {
        Type::TypeDef(dd, _) => !crate::predicates::type_def_is_callback(reader, *dd),
        _ => true,
    }
}

/// Everything the return-kind classification reads of a signature is valid
/// against the graph.
pub open spec fn spec_sig_wf(r: Reader, sig: Signature) -> bool {
    &&& r.valid_method(sig.def)
    &&& ty_bounded(sig.return_type, r.n())
    &&& params_wf(r, sig.params@)
    &&& forall|i: int|
        0 <= i < sig.params@.len() ==> ((#[trigger] sig.params@[i]).ty.spec_is_pointer()
            ==> crate::sizes::spec_ty_layout_ok(r, sig.params@[i].ty.spec_deref()))
}

/// A signature promotes its retval only when the trailing parameter qualifies
/// and no other parameter is an output parameter.
pub open spec fn spec_signature_is_retval(r: Reader, sig: Signature) -> bool {
    &&& sig.params@.len() > 0
    &&& spec_param_is_retval(r, sig.params@[sig.params@.len() - 1])
    &&& forall|i: int|
        0 <= i < sig.params@.len() - 1 ==> !r.param((#[trigger] sig.params@[i]).def).flags.output
}

fn signature_is_retval(reader: &Reader, signature: &Signature) -> (res: bool)
    requires
        reader.wf(),
        spec_sig_wf(*reader, *signature),
    ensures
        res == spec_signature_is_retval(*reader, *signature),
{
    let n = signature.params.len();
    if n == 0 {
        return false;
    }
    if !signature_param_is_retval(reader, &signature.params[n - 1]) {
        return false;
    }
    let mut i: usize = 0;
    while i < n - 1
        invariant
            reader.wf(),
            spec_sig_wf(*reader, *signature),
            n == signature.params@.len(),
            n >= 1,
            0 <= i <= n - 1,
            forall|j: int|
                0 <= j < i ==> !reader.param(
                    (#[trigger] signature.params@[j]).def,
                ).flags.output,
        decreases n - 1 - i,
    {
        let d = signature.params[i].def;
        if reader.types[d.owner].methods[d.method].params[d.index].flags.output {
            return false;
        }
        i += 1;
    }
    true
}

/// The last input-only parameter typed as a const pointer to the identifier
/// type, scanning positions `0..=i`.
pub open spec fn spec_rpos_guid(r: Reader, s: Seq<SignatureParam>, i: int) -> Option<int>
    decreases i + 1,
{
    if i < 0 || i >= s.len() {
        None
    } else if s[i].ty == Type::ConstPtr(Box::new(Type::GUID), 1) && !r.param(
        s[i].def,
    ).flags.output {
        Some(i)
    } else {
        spec_rpos_guid(r, s, i - 1)
    }
}

/// The last parameter typed as a double pointer to void and marked as a COM
/// output pointer, scanning positions `0..=i`.
pub open spec fn spec_rpos_obj(r: Reader, s: Seq<SignatureParam>, i: int) -> Option<int>
    decreases i + 1,
{
    if i < 0 || i >= s.len() {
        None
    } else if s[i].ty == Type::MutPtr(Box::new(Type::Void), 2) && spec_has_attr(
        r.param(s[i].def).attributes@,
        AttrKind::ComOutPtr,
    ) {
        Some(i)
    } else {
        spec_rpos_obj(r, s, i - 1)
    }
}

/// The query pattern: the positions of the identifier parameter and the
/// output-object parameter, when both exist.
pub open spec fn spec_signature_param_is_query(r: Reader, s: Seq<SignatureParam>) -> Option<
    (int, int),
> {
    match spec_rpos_guid(r, s, s.len() - 1) {
        Some(g) => match spec_rpos_obj(r, s, s.len() - 1) {
            Some(o) => Some((g, o)),
            None => None,
        },
        None => None,
    }
}

fn rpos_guid(reader: &Reader, params: &Vec<SignatureParam>, i: usize) -> (res: Option<usize>)
    requires
        reader.wf(),
        params_wf(*reader, params@),
        i < params@.len(),
    ensures
        match spec_rpos_guid(*reader, params@, i as int) {
            Some(j) => res matches Some(x) && x == j,
            None => res is None,
        },
    decreases i,
{
    let p = &params[i];
    let is_guid_ptr = match &p.ty {
        Type::ConstPtr(k, 1) => matches!(**k, Type::GUID),
        _ => false,
    };
    proof {
        assert(is_guid_ptr == (params@[i as int].ty == Type::ConstPtr(
            Box::new(Type::GUID),
            1,
        )));
    }
    let d = p.def;
    if is_guid_ptr && !reader.types[d.owner].methods[d.method].params[d.index].flags.output {
        Some(i)
    } else if i == 0 {
        None
    } else {
        rpos_guid(reader, params, i - 1)
    }
}

fn rpos_obj(reader: &Reader, params: &Vec<SignatureParam>, i: usize) -> (res: Option<usize>)
    requires
        reader.wf(),
        params_wf(*reader, params@),
        i < params@.len(),
    ensures
        match spec_rpos_obj(*reader, params@, i as int) {
            Some(j) => res matches Some(x) && x == j,
            None => res is None,
        },
    decreases i,
{
    let p = &params[i];
    let is_obj_ptr = match &p.ty {
        Type::MutPtr(k, 2) => matches!(**k, Type::Void),
        _ => false,
    };
    proof {
        assert(is_obj_ptr == (params@[i as int].ty == Type::MutPtr(Box::new(Type::Void), 2)));
    }
    let d = p.def;
    if is_obj_ptr && crate::model::has_attr(
        &reader.types[d.owner].methods[d.method].params[d.index].attributes,
        AttrKind::ComOutPtr,
    ) {
        Some(i)
    } else if i == 0 {
        None
    } else {
        rpos_obj(reader, params, i - 1)
    }
}

fn signature_param_is_query(reader: &Reader, params: &Vec<SignatureParam>) -> (res: Option<
    (usize, usize),
>)
    requires
        reader.wf(),
        params_wf(*reader, params@),
    ensures
        match spec_signature_param_is_query(*reader, params@) {
            Some(gq) => res matches Some(x) && x.0 == gq.0 && x.1 == gq.1,
            None => res is None,
        },
{
    if params.len() == 0 {
        return None;
    }
    let last = params.len() - 1;
    match rpos_guid(reader, params, last) {
        Some(g) => match rpos_obj(reader, params, last) {
            Some(o) => Some((g, o)),
            None => None,
        },
        None => None,
    }
}


pub proof fn lemma_rpos_guid_range(r: Reader, s: Seq<SignatureParam>, i: int)
    ensures
        match spec_rpos_guid(r, s, i) {
            Some(j) => 0 <= j <= i && j < s.len(),
            None => true,
        },
    decreases i + 1,
{
    if 0 <= i < s.len() {
        lemma_rpos_guid_range(r, s, i - 1);
    }
}

pub proof fn lemma_rpos_obj_range(r: Reader, s: Seq<SignatureParam>, i: int)
    ensures
        match spec_rpos_obj(r, s, i) {
            Some(j) => 0 <= j <= i && j < s.len(),
            None => true,
        },
    decreases i + 1,
{
    if 0 <= i < s.len() {
        lemma_rpos_obj_range(r, s, i - 1);
    }
}

/// Whether a type definition is named `Windows.Win32.Foundation.<name>`.
pub open spec fn spec_named_foundation(r: Reader, d: TypeDef, nm: Seq<char>) -> bool {
    r.row(d).namespace@ == "Windows.Win32.Foundation"@ && r.row(d).name@ == nm
}

/// The overall call contract of a signature: explicit multi-success methods
/// preserve their raw form; a void return may promote a trailing retval; the
/// platform error-code return recognises the query pattern — optional when
/// the identifier parameter is optional — or promotes; the legacy error enum
/// and last-error booleans report through the status slot; plain aggregates
/// return by value; anything else is preserved.
pub open spec fn spec_signature_kind(r: Reader, sig: Signature) -> SignatureKind {
    if spec_has_attr(
        r.method(sig.def).attributes@,
        AttrKind::CanReturnMultipleSuccessValues,
    ) {
        SignatureKind::PreserveSig
    } else {
        match sig.return_type {
            Type::Void => if spec_signature_is_retval(r, sig) {
                SignatureKind::ReturnValue
            } else {
                SignatureKind::ReturnVoid
            },
            Type::HRESULT => {
                if sig.params@.len() >= 2 && spec_signature_param_is_query(r, sig.params@)
                    is Some {
                    let gq = spec_signature_param_is_query(r, sig.params@)->Some_0;
                    let qp = QueryPosition { object: gq.1 as usize, guid: gq.0 as usize };
                    if r.param(sig.params@[gq.0].def).flags.optional {
                        SignatureKind::QueryOptional(qp)
                    } else {
                        SignatureKind::Query(qp)
                    }
                } else if spec_signature_is_retval(r, sig) {
                    SignatureKind::ResultValue
                } else {
                    SignatureKind::ResultVoid
                }
            },
            Type::TypeDef(d, _) => {
                if spec_named_foundation(r, d, "WIN32_ERROR"@) {
                    SignatureKind::ResultVoid
                } else if spec_named_foundation(r, d, "BOOL"@) && spec_method_def_last_error(
                    r,
                    sig.def,
                ) {
                    SignatureKind::ResultVoid
                } else if crate::predicates::spec_type_is_struct(r, sig.return_type) {
                    SignatureKind::ReturnStruct
                } else {
                    SignatureKind::PreserveSig
                }
            },
            _ => {
                if crate::predicates::spec_type_is_struct(r, sig.return_type) {
                    SignatureKind::ReturnStruct
                } else {
                    SignatureKind::PreserveSig
                }
            },
        }
    }
}

/// Classifies the overall call contract of a built signature.
pub fn signature_kind(reader: &Reader, signature: &Signature) -> (res: SignatureKind)
    requires
        reader.wf(),
        spec_sig_wf(*reader, *signature),
    ensures
        res == spec_signature_kind(*reader, *signature),
{
    let m = signature.def;
    if crate::model::has_attr(
        &reader.types[m.owner].methods[m.index].attributes,
        AttrKind::CanReturnMultipleSuccessValues,
    ) {
        return SignatureKind::PreserveSig;
    }
    match &signature.return_type {
        Type::Void => {
            if signature_is_retval(reader, signature) {
                SignatureKind::ReturnValue
            } else {
                SignatureKind::ReturnVoid
            }
        },
        Type::HRESULT => {
            if signature.params.len() >= 2 {
                match signature_param_is_query(reader, &signature.params) {
                    Some((g, o)) => {
                        proof {
                            lemma_rpos_guid_range(
                                *reader,
                                signature.params@,
                                signature.params@.len() - 1,
                            );
                        }
                        let d = signature.params[g].def;
                        let qp = QueryPosition { object: o, guid: g };
                        return if reader.types[d.owner].methods[d.method].params[d.index]
                            .flags.optional {
                            SignatureKind::QueryOptional(qp)
                        } else {
                            SignatureKind::Query(qp)
                        };
                    },
                    None => {},
                }
            }
            if signature_is_retval(reader, signature) {
                SignatureKind::ResultValue
            } else {
                SignatureKind::ResultVoid
            }
        },
        Type::TypeDef(d, _) => {
            let row = &reader.types[d.0];
            let foundation = crate::model::str_eq(
                row.namespace.as_str(),
                "Windows.Win32.Foundation",
            );
            if foundation && crate::model::str_eq(row.name.as_str(), "WIN32_ERROR") {
                SignatureKind::ResultVoid
            } else if foundation && crate::model::str_eq(row.name.as_str(), "BOOL")
                && method_def_last_error(reader, m) {
                SignatureKind::ResultVoid
            } else if crate::predicates::type_is_struct(reader, &signature.return_type) {
                SignatureKind::ReturnStruct
            } else {
                SignatureKind::PreserveSig
            }
        },
        _ => {
            if crate::predicates::type_is_struct(reader, &signature.return_type) {
                SignatureKind::ReturnStruct
            } else {
                SignatureKind::PreserveSig
            }
        },
    }
}

/// No signature promotes more than one parameter to a return value, and the
/// promoted parameter is always the last: whenever classification answers
/// `ReturnValue` or `ResultValue`, the trailing parameter qualifies and no
/// other parameter is an output parameter at all.
pub proof fn lemma_retval_unique_last(r: Reader, sig: Signature)
    requires
        spec_signature_kind(r, sig) == SignatureKind::ReturnValue || spec_signature_kind(r, sig)
            == SignatureKind::ResultValue,
    ensures
        sig.params@.len() > 0,
        spec_param_is_retval(r, sig.params@[sig.params@.len() - 1]),
        forall|i: int|
            0 <= i < sig.params@.len() - 1 ==> !r.param(
                (#[trigger] sig.params@[i]).def,
            ).flags.output,
{
}

/// Classification is a pure structural rewrite: two signatures built from the
/// same method, namespace and generic bindings are identical.
pub proof fn lemma_signature_pure(
    r: Reader,
    ns: Seq<char>,
    row: MethodDef,
    gs: Seq<Type>,
    s1: Signature,
    s2: Signature,
)
    requires
        s1.def == row && s2.def == row,
        s1.call_flags == r.method(row).call_flags && s2.call_flags == r.method(row).call_flags,
        s1.return_type == spec_return_type(r, row, gs) && s2.return_type == spec_return_type(
            r,
            row,
            gs,
        ),
        s1.params@ == spec_signature_params(r, ns, row, gs) && s2.params@
            == spec_signature_params(r, ns, row, gs),
    ensures
        s1.def == s2.def,
        s1.call_flags == s2.call_flags,
        s1.return_type == s2.return_type,
        s1.params@ == s2.params@,
        spec_signature_kind(r, s1) == spec_signature_kind(r, s2),
{
}

} // verus!
