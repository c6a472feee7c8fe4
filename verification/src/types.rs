use vstd::prelude::*;

verus! {

/// The five kinds a metadata type definition can have.
#[derive(Clone, Copy, Debug, PartialEq, Eq, Structural)]
pub enum TypeKind {
    Interface,
    Class,
    Enum,
    Struct,
    Delegate,
}

/// A handle to a type-definition row: an index into the metadata graph's
/// ordered row list.
#[derive(Clone, Copy, Debug, PartialEq, Eq, Structural)]
pub struct TypeDef(pub usize);

/// The ordered generic arguments carried by a type-definition reference.
pub enum TypeList {
    Nil,
    Cons(Box<Type>, Box<TypeList>),
}

/// The closed recursive sum of metadata types.  A `TypeDef` case refers to a
/// row by handle, so the value graph itself stays acyclic; `GenericParam`
/// holds the positional index of a generic parameter still to be bound.
pub enum Type {
    Void,
    Bool,
    Char,
    I8,
    U8,
    I16,
    U16,
    I32,
    U32,
    I64,
    U64,
    F32,
    F64,
    ISize,
    USize,
    Str,
    BSTR,
    GUID,
    HRESULT,
    IUnknown,
    IInspectable,
    ConstPtr(Box<Type>, usize),
    MutPtr(Box<Type>, usize),
    TypeDef(TypeDef, TypeList),
    GenericParam(usize),
    Win32Array(Box<Type>, usize),
    WinrtArray(Box<Type>),
    PrimitiveOrEnum(Box<Type>, Box<Type>),
}

impl TypeList {
    /// The list as a sequence, for contracts.
    pub open spec fn seq(self) -> Seq<Type>
        decreases self,
    {
        match self {
            TypeList::Nil => Seq::empty(),
            TypeList::Cons(h, t) => seq![*h] + t.seq(),
        }
    }

    pub fn is_empty(&self) -> (r: bool)
        ensures
            r == (self.seq().len() == 0),
    {
        match self {
            TypeList::Nil => true,
            TypeList::Cons(_, _) => {
                proof {
                    assert(self.seq().len() >= 1);
                }
                false
            },
        }
    }

    /// The element at position `i`, if the list is that long.
    pub fn get(&self, i: usize) -> (r: Option<&Type>)
        ensures
            i < self.seq().len() ==> (r matches Some(t) && *t == self.seq()[i as int]),
            i >= self.seq().len() ==> r is None,
        decreases *self,
    {
        match self {
            TypeList::Nil => None,
            TypeList::Cons(h, t) => {
                if i == 0 {
                    Some(h)
                } else {
                    let r = t.get(i - 1);
                    proof {
                        assert(self.seq() == seq![**h] + t.seq());
                    }
                    r
                }
            },
        }
    }

    pub fn duplicate(&self) -> (r: TypeList)
        ensures
            r == *self,
        decreases *self,
    {
        match self {
            TypeList::Nil => TypeList::Nil,
            TypeList::Cons(h, t) => TypeList::Cons(Box::new(h.duplicate()), Box::new(t.duplicate())),
        }
    }
}

impl Type {
    pub open spec fn spec_is_pointer(&self) -> bool {
        self matches Type::ConstPtr(_, _) || self matches Type::MutPtr(_, _)
    }

    #[verifier::when_used_as_spec(spec_is_pointer)]
    pub fn is_pointer(&self) -> (r: bool)
        ensures
            r == self.spec_is_pointer(),
    {
        matches!(self, Type::ConstPtr(_, _) | Type::MutPtr(_, _))
    }

    pub open spec fn spec_is_winrt_array(&self) -> bool {
        self matches Type::WinrtArray(_)
    }

    #[verifier::when_used_as_spec(spec_is_winrt_array)]
    pub fn is_winrt_array(&self) -> (r: bool)
        ensures
            r == self.spec_is_winrt_array(),
    {
        matches!(self, Type::WinrtArray(_))
    }

    pub open spec fn spec_is_void(&self) -> bool
        decreases self,
    {
        match self {
            Type::ConstPtr(k, _) => k.spec_is_void(),
            Type::MutPtr(k, _) => k.spec_is_void(),
            Type::Void => true,
            _ => false,
        }
    }

    /// Whether the type is the incomplete `void` type, through any number of
    /// pointer levels.
    #[verifier::when_used_as_spec(spec_is_void)]
    pub fn is_void(&self) -> (r: bool)
        ensures
            r == self.spec_is_void(),
        decreases *self,
    {
        match self {
            Type::ConstPtr(k, _) => k.is_void(),
            Type::MutPtr(k, _) => k.is_void(),
            Type::Void => true,
            _ => false,
        }
    }

    pub open spec fn spec_is_byte_size(&self) -> bool
        decreases self,
    {
        match self {
            Type::ConstPtr(k, _) => k.spec_is_byte_size(),
            Type::MutPtr(k, _) => k.spec_is_byte_size(),
            Type::I8 | Type::U8 => true,
            _ => false,
        }
    }

    /// Whether the type addresses single bytes, through any number of pointer
    /// levels.
    #[verifier::when_used_as_spec(spec_is_byte_size)]
    pub fn is_byte_size(&self) -> (r: bool)
        ensures
            r == self.spec_is_byte_size(),
        decreases *self,
    {
        match self {
            Type::ConstPtr(k, _) => k.is_byte_size(),
            Type::MutPtr(k, _) => k.is_byte_size(),
            Type::I8 | Type::U8 => true,
            _ => false,
        }
    }

    pub fn duplicate(&self) -> (r: Type)
        ensures
            r == *self,
        decreases *self,
    {
        match self {
            Type::Void => Type::Void,
            Type::Bool => Type::Bool,
            Type::Char => Type::Char,
            Type::I8 => Type::I8,
            Type::U8 => Type::U8,
            Type::I16 => Type::I16,
            Type::U16 => Type::U16,
            Type::I32 => Type::I32,
            Type::U32 => Type::U32,
            Type::I64 => Type::I64,
            Type::U64 => Type::U64,
            Type::F32 => Type::F32,
            Type::F64 => Type::F64,
            Type::ISize => Type::ISize,
            Type::USize => Type::USize,
            Type::Str => Type::Str,
            Type::BSTR => Type::BSTR,
            Type::GUID => Type::GUID,
            Type::HRESULT => Type::HRESULT,
            Type::IUnknown => Type::IUnknown,
            Type::IInspectable => Type::IInspectable,
            Type::ConstPtr(k, p) => Type::ConstPtr(Box::new(k.duplicate()), *p),
            Type::MutPtr(k, p) => Type::MutPtr(Box::new(k.duplicate()), *p),
            Type::TypeDef(d, gs) => Type::TypeDef(*d, gs.duplicate()),
            Type::GenericParam(i) => Type::GenericParam(*i),
            Type::Win32Array(k, n) => Type::Win32Array(Box::new(k.duplicate()), *n),
            Type::WinrtArray(k) => Type::WinrtArray(Box::new(k.duplicate())),
            Type::PrimitiveOrEnum(a, e) => Type::PrimitiveOrEnum(
                Box::new(a.duplicate()),
                Box::new(e.duplicate()),
            ),
        }
    }

    pub open spec fn spec_to_const_type(self) -> Type
        decreases self,
    {
        match self {
            Type::MutPtr(k, p) => Type::MutPtr(Box::new(k.spec_to_const_type()), p),
            Type::ConstPtr(k, p) => Type::ConstPtr(Box::new(k.spec_to_const_type()), p),
            _ => self,
        }
    }

    /// Const-qualifies the type: the qualification recurses under pointers and
    /// leaves every other shape as it stands.
    pub fn to_const_type(self) -> (r: Type)
        ensures
            r == self.spec_to_const_type(),
        decreases self,
    {
        match self {
            Type::MutPtr(k, p) => Type::MutPtr(Box::new(k.to_const_type()), p),
            Type::ConstPtr(k, p) => Type::ConstPtr(Box::new(k.to_const_type()), p),
            _ => self,
        }
    }

    pub open spec fn spec_to_const_ptr(self) -> Type {
        match self {
            Type::MutPtr(k, p) => Type::ConstPtr(k, p),
            _ => self,
        }
    }

    /// Turns a mutable pointer into a const pointer; anything else is kept.
    #[verifier::when_used_as_spec(spec_to_const_ptr)]
    pub fn to_const_ptr(self) -> (r: Type)
        ensures
            r == self.spec_to_const_ptr(),
    {
        match self {
            Type::MutPtr(k, p) => Type::ConstPtr(k, p),
            _ => self,
        }
    }

    pub open spec fn spec_deref(self) -> Type {
        match self {
            Type::ConstPtr(k, p) | Type::MutPtr(k, p) => {
                if p <= 1 {
                    if *k == Type::Void {
                        Type::U8
                    } else {
                        *k
                    }
                } else if self matches Type::ConstPtr(_, _) {
                    Type::ConstPtr(k, (p - 1) as usize)
                } else {
                    Type::MutPtr(k, (p - 1) as usize)
                }
            },
            _ => self,
        }
    }

    /// Removes one level of indirection; a pointer to `void` dereferences to a
    /// byte.  Only pointer types may be dereferenced.
    pub fn deref(&self) -> (r: Type)
        requires
            self.spec_is_pointer(),
        ensures
            r == self.spec_deref(),
    {
        match self {
            Type::ConstPtr(k, p) => {
                if *p <= 1 {
                    if matches!(**k, Type::Void) {
                        Type::U8
                    } else {
                        k.duplicate()
                    }
                } else {
                    Type::ConstPtr(Box::new(k.duplicate()), *p - 1)
                }
            },
            Type::MutPtr(k, p) => {
                if *p <= 1 {
                    if matches!(**k, Type::Void) {
                        Type::U8
                    } else {
                        k.duplicate()
                    }
                } else {
                    Type::MutPtr(Box::new(k.duplicate()), *p - 1)
                }
            },
            _ => Type::Void,
        }
    }
}

/// Structural equality of two types.
pub fn type_eq(a: &Type, b: &Type) -> (r: bool)
    ensures
        r == (*a == *b),
    decreases *a,
{
    match (a, b) {
        (Type::Void, Type::Void) => true,
        (Type::Bool, Type::Bool) => true,
        (Type::Char, Type::Char) => true,
        (Type::I8, Type::I8) => true,
        (Type::U8, Type::U8) => true,
        (Type::I16, Type::I16) => true,
        (Type::U16, Type::U16) => true,
        (Type::I32, Type::I32) => true,
        (Type::U32, Type::U32) => true,
        (Type::I64, Type::I64) => true,
        (Type::U64, Type::U64) => true,
        (Type::F32, Type::F32) => true,
        (Type::F64, Type::F64) => true,
        (Type::ISize, Type::ISize) => true,
        (Type::USize, Type::USize) => true,
        (Type::Str, Type::Str) => true,
        (Type::BSTR, Type::BSTR) => true,
        (Type::GUID, Type::GUID) => true,
        (Type::HRESULT, Type::HRESULT) => true,
        (Type::IUnknown, Type::IUnknown) => true,
        (Type::IInspectable, Type::IInspectable) => true,
        (Type::ConstPtr(k1, p1), Type::ConstPtr(k2, p2)) => p1 == p2 && type_eq(k1, k2),
        (Type::MutPtr(k1, p1), Type::MutPtr(k2, p2)) => p1 == p2 && type_eq(k1, k2),
        (Type::TypeDef(d1, g1), Type::TypeDef(d2, g2)) => d1.0 == d2.0 && type_list_eq(g1, g2),
        (Type::GenericParam(i1), Type::GenericParam(i2)) => i1 == i2,
        (Type::Win32Array(k1, n1), Type::Win32Array(k2, n2)) => n1 == n2 && type_eq(k1, k2),
        (Type::WinrtArray(k1), Type::WinrtArray(k2)) => type_eq(k1, k2),
        (Type::PrimitiveOrEnum(a1, e1), Type::PrimitiveOrEnum(a2, e2)) => type_eq(a1, a2)
            && type_eq(e1, e2),
        _ => false,
    }
}

pub fn type_list_eq(a: &TypeList, b: &TypeList) -> (r: bool)
    ensures
        r == (*a == *b),
    decreases *a,
{
    match (a, b) {
        (TypeList::Nil, TypeList::Nil) => true,
        (TypeList::Cons(h1, t1), TypeList::Cons(h2, t2)) => type_eq(h1, h2) && type_list_eq(t1, t2),
        _ => false,
    }
}

/// Binds generic parameters: each `GenericParam(k)` becomes the `k`th given
/// argument, or `Void` where none is given; everything else keeps its shape.
pub open spec fn spec_subst(ty: Type, gs: Seq<Type>) -> Type
    decreases ty,
{
    match ty {
        Type::GenericParam(k) => if k < gs.len() {
            gs[k as int]
        } else {
            Type::Void
        },
        Type::TypeDef(d, l) => Type::TypeDef(d, spec_subst_list(l, gs)),
        Type::ConstPtr(k, p) => Type::ConstPtr(Box::new(spec_subst(*k, gs)), p),
        Type::MutPtr(k, p) => Type::MutPtr(Box::new(spec_subst(*k, gs)), p),
        Type::Win32Array(k, n) => Type::Win32Array(Box::new(spec_subst(*k, gs)), n),
        Type::WinrtArray(k) => Type::WinrtArray(Box::new(spec_subst(*k, gs))),
        Type::PrimitiveOrEnum(a, e) => Type::PrimitiveOrEnum(
            Box::new(spec_subst(*a, gs)),
            Box::new(spec_subst(*e, gs)),
        ),
        _ => ty,
    }
}

pub open spec fn spec_subst_list(l: TypeList, gs: Seq<Type>) -> TypeList
    decreases l,
{
    match l {
        TypeList::Nil => TypeList::Nil,
        TypeList::Cons(h, t) => TypeList::Cons(
            Box::new(spec_subst(*h, gs)),
            Box::new(spec_subst_list(*t, gs)),
        ),
    }
}

pub fn subst(ty: &Type, gs: &TypeList) -> (r: Type)
    ensures
        r == spec_subst(*ty, gs.seq()),
    decreases *ty,
{
    match ty {
        Type::GenericParam(k) => match gs.get(*k) {
            Some(t) => t.duplicate(),
            None => Type::Void,
        },
        Type::TypeDef(d, l) => Type::TypeDef(*d, subst_list(l, gs)),
        Type::ConstPtr(k, p) => Type::ConstPtr(Box::new(subst(k, gs)), *p),
        Type::MutPtr(k, p) => Type::MutPtr(Box::new(subst(k, gs)), *p),
        Type::Win32Array(k, n) => Type::Win32Array(Box::new(subst(k, gs)), *n),
        Type::WinrtArray(k) => Type::WinrtArray(Box::new(subst(k, gs))),
        Type::PrimitiveOrEnum(a, e) => Type::PrimitiveOrEnum(
            Box::new(subst(a, gs)),
            Box::new(subst(e, gs)),
        ),
        _ => ty.duplicate(),
    }
}

pub fn subst_list(l: &TypeList, gs: &TypeList) -> (r: TypeList)
    ensures
        r == spec_subst_list(*l, gs.seq()),
    decreases *l,
{
    match l {
        TypeList::Nil => TypeList::Nil,
        TypeList::Cons(h, t) => TypeList::Cons(Box::new(subst(h, gs)), Box::new(subst_list(t, gs))),
    }
}

/// Every type-definition handle in the type, pointers included, addresses one
/// of the graph's `n` rows, and every pointer has at least one level of
/// indirection.
pub open spec fn ty_bounded(ty: Type, n: int) -> bool
    decreases ty,
{
    match ty {
        Type::TypeDef(d, l) => d.0 < n && list_bounded(l, n),
        Type::ConstPtr(k, p) => p >= 1 && ty_bounded(*k, n),
        Type::MutPtr(k, p) => p >= 1 && ty_bounded(*k, n),
        Type::Win32Array(k, _) => ty_bounded(*k, n),
        Type::WinrtArray(k) => ty_bounded(*k, n),
        Type::PrimitiveOrEnum(a, e) => ty_bounded(*a, n) && ty_bounded(*e, n),
        _ => true,
    }
}

pub open spec fn list_bounded(l: TypeList, n: int) -> bool
    decreases l,
{
    match l {
        TypeList::Nil => true,
        TypeList::Cons(h, t) => ty_bounded(*h, n) && list_bounded(*t, n),
    }
}

pub open spec fn nat_max(a: nat, b: nat) -> nat {
    if a >= b {
        a
    } else {
        b
    }
}

/// An upper measure on the rows a type reaches by value under a rank
/// assignment `m`: pointers stop the descent, so a row may point back at
/// itself without affecting the measure.
pub open spec fn ty_rk(m: Map<int, nat>, ty: Type) -> nat
    decreases ty,
{
    match ty {
        Type::TypeDef(d, l) => nat_max(m[d.0 as int] + 1, list_rk(m, l)),
        Type::Win32Array(k, _) => ty_rk(m, *k),
        Type::WinrtArray(k) => ty_rk(m, *k),
        Type::PrimitiveOrEnum(a, e) => nat_max(ty_rk(m, *a), ty_rk(m, *e)),
        _ => 0,
    }
}

pub open spec fn list_rk(m: Map<int, nat>, l: TypeList) -> nat
    decreases l,
{
    match l {
        TypeList::Nil => 0,
        TypeList::Cons(h, t) => nat_max(ty_rk(m, *h), list_rk(m, *t)),
    }
}

/// Every row the type reaches by value sits strictly below `b` in the rank
/// assignment `m`.
pub open spec fn refs_below(m: Map<int, nat>, ty: Type, b: nat) -> bool
    decreases ty,
{
    match ty {
        Type::TypeDef(d, l) => m[d.0 as int] < b && list_refs_below(m, l, b),
        Type::Win32Array(k, _) => refs_below(m, *k, b),
        Type::WinrtArray(k) => refs_below(m, *k, b),
        Type::PrimitiveOrEnum(a, e) => refs_below(m, *a, b) && refs_below(m, *e, b),
        _ => true,
    }
}

pub open spec fn list_refs_below(m: Map<int, nat>, l: TypeList, b: nat) -> bool
    decreases l,
{
    match l {
        TypeList::Nil => true,
        TypeList::Cons(h, t) => refs_below(m, *h, b) && list_refs_below(m, *t, b),
    }
}

pub proof fn lemma_refs_below_rk(m: Map<int, nat>, ty: Type, b: nat)
    requires
        refs_below(m, ty, b),
    ensures
        ty_rk(m, ty) <= b,
    decreases ty,
{
    match ty {
        Type::TypeDef(d, l) => {
            lemma_list_refs_below_rk(m, l, b);
        },
        Type::Win32Array(k, _) => {
            lemma_refs_below_rk(m, *k, b);
        },
        Type::WinrtArray(k) => {
            lemma_refs_below_rk(m, *k, b);
        },
        Type::PrimitiveOrEnum(a, e) => {
            lemma_refs_below_rk(m, *a, b);
            lemma_refs_below_rk(m, *e, b);
        },
        _ => {},
    }
}

pub proof fn lemma_list_refs_below_rk(m: Map<int, nat>, l: TypeList, b: nat)
    requires
        list_refs_below(m, l, b),
    ensures
        list_rk(m, l) <= b,
    decreases l,
{
    match l {
        TypeList::Nil => {},
        TypeList::Cons(h, t) => {
            lemma_refs_below_rk(m, *h, b);
            lemma_list_refs_below_rk(m, *t, b);
        },
    }
}

/// A structural height measure, used as the tie-breaking component of
/// lexicographic termination measures.
pub open spec fn ty_height(ty: Type) -> nat
    decreases ty,
{
    match ty {
        Type::TypeDef(_, l) => 1 + list_height(l),
        Type::ConstPtr(k, _) => 1 + ty_height(*k),
        Type::MutPtr(k, _) => 1 + ty_height(*k),
        Type::Win32Array(k, _) => 1 + ty_height(*k),
        Type::WinrtArray(k) => 1 + ty_height(*k),
        Type::PrimitiveOrEnum(a, e) => 1 + nat_max(ty_height(*a), ty_height(*e)),
        _ => 0,
    }
}

pub open spec fn list_height(l: TypeList) -> nat
    decreases l,
{
    match l {
        TypeList::Nil => 0,
        TypeList::Cons(h, t) => 1 + nat_max(ty_height(*h), list_height(*t)),
    }
}


/// Every element of the sequence is bounded.
pub open spec fn seq_bounded(gs: Seq<Type>, n: int) -> bool {
    forall|i: int| 0 <= i < gs.len() ==> ty_bounded(#[trigger] gs[i], n)
}

pub proof fn lemma_list_bounded_seq(l: TypeList, n: int)
    requires
        list_bounded(l, n),
    ensures
        seq_bounded(l.seq(), n),
    decreases l,
{
    match l {
        TypeList::Nil => {},
        TypeList::Cons(h, t) => {
            lemma_list_bounded_seq(*t, n);
            assert forall|i: int| 0 <= i < l.seq().len() implies ty_bounded(
                #[trigger] l.seq()[i],
                n,
            ) by {
                if i > 0 {
                    assert(l.seq()[i] == t.seq()[i - 1]);
                }
            }
        },
    }
}

/// Binding generic arguments keeps every handle in bounds.
pub proof fn lemma_subst_bounded(ty: Type, gs: Seq<Type>, n: int)
    requires
        ty_bounded(ty, n),
        seq_bounded(gs, n),
    ensures
        ty_bounded(spec_subst(ty, gs), n),
    decreases ty,
{
    match ty {
        Type::TypeDef(_, l) => {
            lemma_subst_list_bounded(l, gs, n);
        },
        Type::ConstPtr(k, _) => {
            lemma_subst_bounded(*k, gs, n);
        },
        Type::MutPtr(k, _) => {
            lemma_subst_bounded(*k, gs, n);
        },
        Type::Win32Array(k, _) => {
            lemma_subst_bounded(*k, gs, n);
        },
        Type::WinrtArray(k) => {
            lemma_subst_bounded(*k, gs, n);
        },
        Type::PrimitiveOrEnum(a, e) => {
            lemma_subst_bounded(*a, gs, n);
            lemma_subst_bounded(*e, gs, n);
        },
        _ => {},
    }
}

pub proof fn lemma_subst_list_bounded(l: TypeList, gs: Seq<Type>, n: int)
    requires
        list_bounded(l, n),
        seq_bounded(gs, n),
    ensures
        list_bounded(spec_subst_list(l, gs), n),
    decreases l,
{
    match l {
        TypeList::Nil => {},
        TypeList::Cons(h, t) => {
            lemma_subst_bounded(*h, gs, n);
            lemma_subst_list_bounded(*t, gs, n);
        },
    }
}

/// Const-qualification keeps every handle in bounds.
pub proof fn lemma_to_const_type_bounded(ty: Type, n: int)
    requires
        ty_bounded(ty, n),
    ensures
        ty_bounded(ty.spec_to_const_type(), n),
    decreases ty,
{
    match ty {
        Type::ConstPtr(k, _) => {
            lemma_to_const_type_bounded(*k, n);
        },
        Type::MutPtr(k, _) => {
            lemma_to_const_type_bounded(*k, n);
        },
        _ => {},
    }
}

} // verus!

