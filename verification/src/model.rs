use vstd::prelude::*;
use crate::types::{list_refs_below, refs_below, ty_bounded, Type, TypeDef, TypeKind, TypeList};

verus! {

/// A typed positional attribute argument value, as the metadata graph stores it.
#[derive(Clone, PartialEq, Eq)]
pub enum Value {
    Bool(bool),
    U8(u8),
    I8(i8),
    U16(u16),
    I16(i16),
    U32(u32),
    I32(i32),
    U64(u64),
    I64(i64),
    Str(String),
    TypeName(String),
}

/// The closed vocabulary of attribute names the analysis recognises; anything
/// else is kept as `Unrecognized`, which no rule reacts to.
#[derive(Clone, Copy, Debug, PartialEq, Eq, Structural)]
pub enum AttrKind {
    /// `ConstAttribute`: a const-qualified parameter or return slot.
    Const,
    /// `NativeArrayInfoAttribute`: an array parameter with a literal or
    /// parameter-relative length.
    NativeArrayInfo,
    /// `MemorySizeAttribute`: an array parameter whose length parameter counts
    /// bytes.
    MemorySize,
    /// `AssociatedEnumAttribute`: a scalar parameter separately associated
    /// with a named enum.
    AssociatedEnum,
    /// `FreeWithAttribute`: ownership of the value transfers to a named
    /// deallocator.
    FreeWith,
    /// `RetValAttribute`: an explicitly marked retval parameter.
    RetVal,
    /// `ReservedAttribute`: a parameter reserved for future use.
    Reserved,
    /// `ComOutPtrAttribute`: a marked COM output pointer.
    ComOutPtr,
    /// `CanReturnMultipleSuccessValuesAttribute`: the return value must never
    /// be reinterpreted.
    CanReturnMultipleSuccessValues,
    /// `GuidAttribute`: the 11 numeric identifier fields.
    GuidArgs,
    /// `DefaultAttribute`: the default interface edge of a class.
    DefaultIface,
    /// `OverridableAttribute`: an overridable interface edge.
    Overridable,
    /// `StaticAttribute`: a class-level static interface.
    StaticIface,
    /// `ActivatableAttribute`: a class-level activation factory interface.
    Activatable,
    /// `ExclusiveToAttribute`: an interface with exactly one implementing class.
    ExclusiveTo,
    /// `NativeTypedefAttribute`: a handle-like struct wrapping one scalar.
    NativeTypedef,
    /// `InvalidHandleValueAttribute`: a sentinel value of a handle type.
    InvalidHandleValue,
    /// `ComposableAttribute`: a composable class.
    Composable,
    Unrecognized,
}

/// A named attribute with its ordered, named, typed positional arguments.
pub struct Attribute {
    pub kind: AttrKind,
    pub args: Vec<(String, Value)>,
}

/// Direction flags of a parameter.
#[derive(Clone, Copy, Debug, PartialEq, Eq, Structural)]
pub struct ParamFlags {
    pub input: bool,
    pub output: bool,
    pub optional: bool,
}

/// A parameter row: its one-based sequence number (zero marks the return
/// slot), direction flags, attributes, and declared type with generic
/// parameters still unbound.
pub struct ParamRow {
    pub sequence: usize,
    pub flags: ParamFlags,
    pub attributes: Vec<Attribute>,
    pub ty: Type,
}

/// Native-invoke mapping metadata of a method.
#[derive(Clone, Copy, Debug, PartialEq, Eq, Structural)]
pub struct PInvokeMap {
    pub supports_last_error: bool,
}

/// A method row: name, calling-convention flag byte, declared return type,
/// ordered parameter rows, attributes, and the optional native-invoke mapping.
pub struct MethodRow {
    pub name: String,
    pub call_flags: u8,
    pub return_type: Type,
    pub params: Vec<ParamRow>,
    pub attributes: Vec<Attribute>,
    pub impl_map: Option<PInvokeMap>,
}

/// A field row: name and declared type.
pub struct FieldRow {
    pub name: String,
    pub ty: Type,
}

/// An interface-implementation edge: the implemented interface's type, with
/// generic parameters of the declaring type still unbound, and the edge's
/// attributes.
pub struct InterfaceImplRow {
    pub ty: Type,
    pub attributes: Vec<Attribute>,
}

/// The flag set of a type definition.
#[derive(Clone, Copy, Debug, PartialEq, Eq, Structural)]
pub struct TypeFlags {
    pub winrt: bool,
    pub explicit_layout: bool,
}

/// A namespace-qualified type name.
pub struct TypeNameRef {
    pub namespace: String,
    pub name: String,
}

/// A type-definition row.  Partial definitions appear as several rows sharing
/// a namespace and name.
pub struct TypeDefRow {
    pub namespace: String,
    pub name: String,
    pub kind: TypeKind,
    pub flags: TypeFlags,
    pub generics: usize,
    pub extends: Option<TypeNameRef>,
    pub fields: Vec<FieldRow>,
    pub methods: Vec<MethodRow>,
    pub interface_impls: Vec<InterfaceImplRow>,
    pub attributes: Vec<Attribute>,
    pub class_layout: bool,
}

/// A handle to a method row.
#[derive(Clone, Copy, Debug, PartialEq, Eq, Structural)]
pub struct MethodDef {
    pub owner: usize,
    pub index: usize,
}

/// A handle to a parameter row.
#[derive(Clone, Copy, Debug, PartialEq, Eq, Structural)]
pub struct Param {
    pub owner: usize,
    pub method: usize,
    pub index: usize,
}

/// A handle to a field row.
#[derive(Clone, Copy, Debug, PartialEq, Eq, Structural)]
pub struct Field {
    pub owner: usize,
    pub index: usize,
}

/// The immutable metadata graph: every row the analysis reads, loaded once by
/// the out-of-scope reader and never mutated.
pub struct Reader {
    pub types: Vec<TypeDefRow>,
}

pub open spec fn spec_find_attr_from(attrs: Seq<Attribute>, k: AttrKind, i: int) -> Option<int>
    decreases attrs.len() - i,
{
    if i < 0 || i >= attrs.len() {
        None
    } else if attrs[i].kind == k {
        Some(i)
    } else {
        spec_find_attr_from(attrs, k, i + 1)
    }
}

/// The position of the first attribute of the given kind.
pub open spec fn spec_find_attr(attrs: Seq<Attribute>, k: AttrKind) -> Option<int> {
    spec_find_attr_from(attrs, k, 0)
}

pub open spec fn spec_has_attr(attrs: Seq<Attribute>, k: AttrKind) -> bool {
    spec_find_attr(attrs, k) is Some
}

pub proof fn lemma_find_attr(attrs: Seq<Attribute>, k: AttrKind, i: int)
    requires
        0 <= i <= attrs.len(),
    ensures
        match spec_find_attr_from(attrs, k, i) {
            Some(j) => i <= j < attrs.len() && attrs[j].kind == k && forall|l: int|
                i <= l < j ==> attrs[l].kind != k,
            None => forall|l: int| i <= l < attrs.len() ==> attrs[l].kind != k,
        },
    decreases attrs.len() - i,
{
    if i < attrs.len() {
        lemma_find_attr(attrs, k, i + 1);
    }
}

/// Finds the first attribute of the given kind.
pub fn find_attr<'a>(attrs: &'a Vec<Attribute>, k: AttrKind) -> (r: Option<&'a Attribute>)
    ensures
        match spec_find_attr(attrs@, k) {
            Some(j) => r matches Some(a) && *a == attrs@[j],
            None => r is None,
        },
{
    let n = attrs.len();
    let mut i: usize = 0;
    while i < n
        invariant
            0 <= i <= n,
            n == attrs@.len(),
            spec_find_attr(attrs@, k) == spec_find_attr_from(attrs@, k, i as int),
        decreases n - i,
    {
        if attrs[i].kind == k {
            return Some(&attrs[i]);
        }
        i += 1;
    }
    None
}

/// Whether an attribute of the given kind is present.
pub fn has_attr(attrs: &Vec<Attribute>, k: AttrKind) -> (r: bool)
    ensures
        r == spec_has_attr(attrs@, k),
{
    find_attr(attrs, k).is_some()
}

/// Character-wise string equality.
pub fn str_eq(a: &str, b: &str) -> (r: bool)
    ensures
        r == (a@ == b@),
{
    let la = a.unicode_len();
    let lb = b.unicode_len();
    if la != lb {
        proof {
            assert(a@.len() != b@.len());
        }
        return false;
    }
    let mut i: usize = 0;
    while i < la
        invariant
            0 <= i <= la,
            la == a@.len(),
            la == b@.len(),
            forall|j: int| 0 <= j < i ==> a@[j] == b@[j],
        decreases la - i,
    {
        let ca = a.get_char(i);
        let cb = b.get_char(i);
        if ca != cb {
            proof {
                assert(a@[i as int] != b@[i as int]);
            }
            return false;
        }
        i += 1;
    }
    proof {
        assert(a@ =~= b@);
    }
    true
}

impl Reader {
    /// The number of type-definition rows.
    pub open spec fn n(self) -> int {
        self.types@.len() as int
    }

    pub open spec fn valid_type_def(self, d: TypeDef) -> bool {
        d.0 < self.types@.len()
    }

    pub open spec fn row(self, d: TypeDef) -> TypeDefRow {
        self.types@[d.0 as int]
    }

    pub open spec fn valid_method(self, m: MethodDef) -> bool {
        m.owner < self.types@.len() && m.index < self.types@[m.owner as int].methods@.len()
    }

    pub open spec fn method(self, m: MethodDef) -> MethodRow {
        self.types@[m.owner as int].methods@[m.index as int]
    }

    pub open spec fn valid_param(self, p: Param) -> bool {
        &&& p.owner < self.types@.len()
        &&& p.method < self.types@[p.owner as int].methods@.len()
        &&& p.index < self.types@[p.owner as int].methods@[p.method as int].params@.len()
    }

    pub open spec fn param(self, p: Param) -> ParamRow {
        self.types@[p.owner as int].methods@[p.method as int].params@[p.index as int]
    }

    pub open spec fn valid_field(self, f: Field) -> bool {
        f.owner < self.types@.len() && f.index < self.types@[f.owner as int].fields@.len()
    }

    pub open spec fn field(self, f: Field) -> FieldRow {
        self.types@[f.owner as int].fields@[f.index as int]
    }

    /// Every type stored in a row addresses only existing rows.
    pub open spec fn row_bounded(self, row: TypeDefRow) -> bool {
        &&& forall|k: int|
            0 <= k < row.fields@.len() ==> ty_bounded(#[trigger] row.fields@[k].ty, self.n())
        &&& forall|k: int|
            0 <= k < row.interface_impls@.len() ==> ty_bounded(
                #[trigger] row.interface_impls@[k].ty,
                self.n(),
            )
        &&& forall|k: int, j: int|
            0 <= k < row.methods@.len() && 0 <= j < row.methods@[k].params@.len() ==> ty_bounded(
                #[trigger] row.methods@[k].params@[j].ty,
                self.n(),
            )
        &&& forall|k: int|
            0 <= k < row.methods@.len() ==> ty_bounded(
                #[trigger] row.methods@[k].return_type,
                self.n(),
            )
    }

    pub open spec fn bounded(self) -> bool {
        forall|i: int| 0 <= i < self.n() ==> self.row_bounded(#[trigger] self.types@[i])
    }

    /// Whether rows `i` and `j` belong to the same (possibly partial) type
    /// definition: they share namespace and name.
    pub open spec fn same_name(self, i: int, j: int) -> bool {
        &&& self.types@[i].namespace@ == self.types@[j].namespace@
        &&& self.types@[i].name@ == self.types@[j].name@
    }

    /// Whether row `j` is named by the given namespace and name.
    pub open spec fn named_v(self, j: int, ns: Seq<char>, nm: Seq<char>) -> bool {
        self.types@[j].namespace@ == ns && self.types@[j].name@ == nm
    }

    /// Whether row `j` is named by the type name `tn`.
    pub open spec fn named(self, j: int, tn: TypeNameRef) -> bool {
        self.named_v(j, tn.namespace@, tn.name@)
    }

    pub open spec fn valid_rank_row(self, m: Map<int, nat>, i: int) -> bool {
        let row = self.types@[i];
        &&& forall|k: int|
            0 <= k < row.fields@.len() ==> refs_below(m, #[trigger] row.fields@[k].ty, m[i])
        &&& forall|k: int|
            0 <= k < row.interface_impls@.len() ==> refs_below(
                m,
                #[trigger] row.interface_impls@[k].ty,
                m[i],
            ) && !(row.interface_impls@[k].ty matches Type::GenericParam(_))
        &&& match row.extends {
            Some(tn) => !(tn.namespace@ == "System"@ && tn.name@ == "Object"@) ==> forall|j: int|
                0 <= j < self.n() && self.named(j, tn) ==> m[j] < m[i],
            None => true,
        }
        &&& forall|j: int| 0 <= j < self.n() && self.same_name(i, j) ==> m[j] == m[i]
    }

    /// A rank assignment witnessing that the by-value reference graph is
    /// acyclic: fields, interface edges and base-type edges all step strictly
    /// down, and partial rows of one definition share a rank.
    pub open spec fn valid_rank(self, m: Map<int, nat>) -> bool {
        forall|i: int| 0 <= i < self.n() ==> self.valid_rank_row(m, i)
    }

    /// The canonical rank assignment of a well-formed graph.
    pub open spec fn rank(self) -> Map<int, nat> {
        choose|m: Map<int, nat>| self.valid_rank(m)
    }

    /// The assumed well-formedness of the metadata graph: validating it is the
    /// reader's contract, and cyclic metadata is an external precondition
    /// violation.
    pub open spec fn wf(self) -> bool {
        self.bounded() && exists|m: Map<int, nat>| self.valid_rank(m)
    }

    pub proof fn lemma_rank(self)
        requires
            self.wf(),
        ensures
            self.valid_rank(self.rank()),
    {
        let m = choose|m: Map<int, nat>| self.valid_rank(m);
        assert(self.valid_rank(self.rank()));
    }

    /// All rows named `namespace.name`, in row order, so the first listed row
    /// is the one a lookup resolves to.
    pub fn get_type_def(&self, namespace: &str, name: &str) -> (res: Vec<TypeDef>)
        ensures
            forall|k: int|
                0 <= k < res@.len() ==> self.valid_type_def(#[trigger] res@[k]) && self.named_v(
                    res@[k].0 as int,
                    namespace@,
                    name@,
                ),
            forall|k1: int, k2: int|
                0 <= k1 < k2 < res@.len() ==> res@[k1].0 < res@[k2].0,
            forall|j: int|
                0 <= j < self.n() && self.named_v(j, namespace@, name@) ==> exists|k: int|
                    0 <= k < res@.len() && res@[k].0 == j,
    {
        let n = self.types.len();
        let mut res: Vec<TypeDef> = Vec::new();
        let mut i: usize = 0;
        while i < n
            invariant
                0 <= i <= n,
                n == self.types@.len(),
                forall|k: int|
                    0 <= k < res@.len() ==> (#[trigger] res@[k]).0 < i && self.named_v(
                        res@[k].0 as int,
                        namespace@,
                        name@,
                    ),
                forall|k1: int, k2: int|
                    0 <= k1 < k2 < res@.len() ==> res@[k1].0 < res@[k2].0,
                forall|j: int|
                    0 <= j < i && self.named_v(j, namespace@, name@) ==> exists|k: int|
                        0 <= k < res@.len() && res@[k].0 == j,
            decreases n - i,
        {
            let row = &self.types[i];
            let matched = str_eq(row.namespace.as_str(), namespace) && str_eq(
                row.name.as_str(),
                name,
            );
            let ghost old_res = res@;
            if matched {
                res.push(TypeDef(i));
            }
            proof {
                assert forall|j: int|
                    0 <= j < i + 1 && self.named_v(j, namespace@, name@) implies exists|k: int|
                    0 <= k < res@.len() && res@[k].0 == j by {
                    if j == i {
                        assert(res@[res@.len() - 1].0 == j);
                    } else {
                        let k = choose|k: int| 0 <= k < old_res.len() && old_res[k].0 == j;
                        assert(res@[k].0 == j);
                    }
                }
            }
            i += 1;
        }
        res
    }
}


/// Lexicographic order on character sequences, by code point, with a prefix
/// ordered before its extensions.
pub open spec fn lex_leq_from(a: Seq<char>, b: Seq<char>, i: int) -> bool
    decreases a.len() - i,
{
    if i < 0 || i >= a.len() {
        true
    } else if i >= b.len() {
        false
    } else if (a[i] as u32) != (b[i] as u32) {
        (a[i] as u32) < (b[i] as u32)
    } else {
        lex_leq_from(a, b, i + 1)
    }
}

pub open spec fn lex_leq(a: Seq<char>, b: Seq<char>) -> bool {
    lex_leq_from(a, b, 0)
}

/// The order is total: two sequences compare in at least one direction.
pub proof fn lemma_lex_total(a: Seq<char>, b: Seq<char>, i: int)
    requires
        0 <= i,
    ensures
        lex_leq_from(a, b, i) || lex_leq_from(b, a, i),
    decreases a.len() - i,
{
    if i < a.len() && i < b.len() && (a[i] as u32) == (b[i] as u32) {
        lemma_lex_total(a, b, i + 1);
    }
}

fn str_leq_from(a: &str, b: &str, i: usize) -> (res: bool)
    requires
        i <= a@.len(),
        i <= b@.len(),
    ensures
        res == lex_leq_from(a@, b@, i as int),
    decreases a@.len() - i,
{
    let la = a.unicode_len();
    let lb = b.unicode_len();
    if i >= la {
        true
    } else if i >= lb {
        false
    } else {
        let ca = a.get_char(i) as u32;
        let cb = b.get_char(i) as u32;
        if ca != cb {
            ca < cb
        } else {
            str_leq_from(a, b, i + 1)
        }
    }
}

/// Character-wise lexicographic comparison.
pub fn str_leq(a: &str, b: &str) -> (res: bool)
    ensures
        res == lex_leq(a@, b@),
{
    str_leq_from(a, b, 0)
}


/// A sequence viewed from a vector fits in machine range.
pub proof fn lemma_rows_fit(r: Reader)
    ensures
        r.types@.len() <= usize::MAX,
{
    vstd::std_specs::vec::axiom_spec_len(&r.types);
}

/// The lexicographic order is transitive.
pub proof fn lemma_lex_trans(a: Seq<char>, b: Seq<char>, c: Seq<char>, i: int)
    requires
        0 <= i,
        lex_leq_from(a, b, i),
        lex_leq_from(b, c, i),
    ensures
        lex_leq_from(a, c, i),
    decreases a.len() - i,
{
    if i < a.len() && i < b.len() && i < c.len() && (a[i] as u32) == (b[i] as u32) && (b[i]
        as u32) == (c[i] as u32) {
        lemma_lex_trans(a, b, c, i + 1);
    }
}

} // verus!


