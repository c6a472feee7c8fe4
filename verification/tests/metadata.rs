use bindgen_metadata::guid::Guid;
use bindgen_metadata::interfaces::{
    parse_type_name, type_def_bases, type_def_default_interface, type_def_invalid_values,
    type_def_vtables, type_interfaces, InterfaceKind,
};
use bindgen_metadata::model::{
    AttrKind, Attribute, MethodRow, ParamFlags, ParamRow, Reader, TypeDefRow, TypeFlags,
    TypeNameRef, Value,
};
use bindgen_metadata::predicates::{type_def_is_blittable, type_is_nullable};
use bindgen_metadata::model::MethodDef;
use bindgen_metadata::signature::{
    method_def_signature, signature_kind, SignatureKind, SignatureParamKind,
};
use bindgen_metadata::types::{Type, TypeDef, TypeKind, TypeList};

fn flags_in() -> ParamFlags {
    ParamFlags { input: true, output: false, optional: false }
}

fn flags_out() -> ParamFlags {
    ParamFlags { input: false, output: true, optional: false }
}

fn no_flags() -> TypeFlags {
    TypeFlags { winrt: false, explicit_layout: false }
}

fn winrt_flags() -> TypeFlags {
    TypeFlags { winrt: true, explicit_layout: false }
}

fn row(ns: &str, name: &str, kind: TypeKind) -> TypeDefRow {
    TypeDefRow {
        namespace: ns.to_string(),
        name: name.to_string(),
        kind,
        flags: no_flags(),
        generics: 0,
        extends: None,
        fields: vec![],
        methods: vec![],
        interface_impls: vec![],
        attributes: vec![],
        class_layout: false,
    }
}

fn param(seq: usize, flags: ParamFlags, attrs: Vec<Attribute>, ty: Type) -> ParamRow {
    ParamRow { sequence: seq, flags, attributes: attrs, ty }
}

fn method(name: &str, ret: Type, params: Vec<ParamRow>) -> MethodRow {
    MethodRow {
        name: name.to_string(),
        call_flags: 1,
        return_type: ret,
        params,
        attributes: vec![],
        impl_map: None,
    }
}

fn array_info(rel: i16) -> Attribute {
    Attribute {
        kind: AttrKind::NativeArrayInfo,
        args: vec![(String::new(), Value::I16(rel))],
    }
}

fn reader_with_method(m: MethodRow) -> Reader {
    let mut r0 = row("N", "Api", TypeKind::Class);
    r0.methods.push(m);
    Reader { types: vec![r0] }
}

#[test]
fn guid_from_args_reads_all_fields() {
    let args: Vec<(String, Value)> = vec![
        (String::new(), Value::U32(0x12345678)),
        (String::new(), Value::U16(0x9abc)),
        (String::new(), Value::U16(0xdef0)),
        (String::new(), Value::U8(1)),
        (String::new(), Value::U8(2)),
        (String::new(), Value::U8(3)),
        (String::new(), Value::U8(4)),
        (String::new(), Value::U8(5)),
        (String::new(), Value::U8(6)),
        (String::new(), Value::U8(7)),
        (String::new(), Value::U8(8)),
    ];
    let g = Guid::from_args(args.as_slice());
    assert_eq!(g, Guid(0x12345678, 0x9abc, 0xdef0, 1, 2, 3, 4, 5, 6, 7, 8));
}

#[test]
fn length_param_links_back_to_array() {
    // a method (len: int32, buf: pointer-to-uint8 with a relative length of
    // parameter 0): after linking, parameter 0 points back at parameter 1
    let m = method(
        "F",
        Type::Void,
        vec![
            param(1, flags_in(), vec![], Type::I32),
            param(2, flags_in(), vec![array_info(0)], Type::MutPtr(Box::new(Type::U8), 1)),
        ],
    );
    let reader = reader_with_method(m);
    let sig = method_def_signature(&reader, "N", MethodDef { owner: 0, index: 0 }, &TypeList::Nil);
    assert_eq!(sig.params.len(), 2);
    assert_eq!(sig.params[0].kind, SignatureParamKind::ArrayRelativePtr(1));
    assert_eq!(sig.params[1].kind, SignatureParamKind::ArrayRelativeLen(0));
}

#[test]
fn classification_is_pure() {
    let make = || {
        method(
            "F",
            Type::Void,
            vec![
                param(1, flags_in(), vec![], Type::I32),
                param(2, flags_in(), vec![array_info(0)], Type::MutPtr(Box::new(Type::U8), 1)),
            ],
        )
    };
    let reader = reader_with_method(make());
    let h = MethodDef { owner: 0, index: 0 };
    let s1 = method_def_signature(&reader, "N", h, &TypeList::Nil);
    let s2 = method_def_signature(&reader, "N", h, &TypeList::Nil);
    assert_eq!(s1.params.len(), s2.params.len());
    for k in 0..s1.params.len() {
        assert_eq!(s1.params[k].kind, s2.params[k].kind);
    }
}

#[test]
fn shared_length_parameter_demotes_all_three() {
    // two pointers both declaring a relative length of parameter 2
    let m = method(
        "F",
        Type::Void,
        vec![
            param(1, flags_in(), vec![array_info(2)], Type::MutPtr(Box::new(Type::U8), 1)),
            param(2, flags_in(), vec![array_info(2)], Type::MutPtr(Box::new(Type::U8), 1)),
            param(3, flags_in(), vec![], Type::I32),
        ],
    );
    let reader = reader_with_method(m);
    let sig = method_def_signature(&reader, "N", MethodDef { owner: 0, index: 0 }, &TypeList::Nil);
    // the ambiguity pass demotes all three to `Other`; the fallback pass then
    // reclassifies the demoted scalars and byte pointers as plain values, so
    // no array linkage survives anywhere
    assert!(!sig.params[0].kind.is_array());
    assert!(!sig.params[1].kind.is_array());
    assert!(!sig.params[2].kind.is_array());
    assert_eq!(sig.params[0].kind, SignatureParamKind::ValueType);
    assert_eq!(sig.params[1].kind, SignatureParamKind::ValueType);
    assert_eq!(sig.params[2].kind, SignatureParamKind::ValueType);
}

#[test]
fn trailing_output_pointer_promotes_to_return_value() {
    let m = method(
        "F",
        Type::Void,
        vec![param(1, flags_out(), vec![], Type::MutPtr(Box::new(Type::I32), 1))],
    );
    let reader = reader_with_method(m);
    let sig = method_def_signature(&reader, "N", MethodDef { owner: 0, index: 0 }, &TypeList::Nil);
    let kind = signature_kind(&reader, &sig);
    assert_eq!(kind, SignatureKind::ReturnValue);
}

#[test]
fn query_pattern_is_recognised() {
    let com_out = Attribute { kind: AttrKind::ComOutPtr, args: vec![] };
    let m = method(
        "F",
        Type::HRESULT,
        vec![
            param(1, flags_in(), vec![], Type::ConstPtr(Box::new(Type::GUID), 1)),
            param(2, flags_out(), vec![com_out], Type::MutPtr(Box::new(Type::Void), 2)),
        ],
    );
    let reader = reader_with_method(m);
    let sig = method_def_signature(&reader, "N", MethodDef { owner: 0, index: 0 }, &TypeList::Nil);
    let kind = signature_kind(&reader, &sig);
    match kind {
        SignatureKind::Query(qp) => {
            assert_eq!(qp.guid, 0);
            assert_eq!(qp.object, 1);
        },
        _ => panic!("expected a query classification"),
    }
}

#[test]
fn winrt_struct_with_string_field_is_not_blittable() {
    let mut r0 = row("N", "S", TypeKind::Struct);
    r0.flags = winrt_flags();
    r0.fields.push(bindgen_metadata::model::FieldRow { name: "s".to_string(), ty: Type::Str });
    let mut r1 = row("N", "P", TypeKind::Struct);
    r1.fields.push(bindgen_metadata::model::FieldRow { name: "s".to_string(), ty: Type::Str });
    let mut r2 = row("N", "W", TypeKind::Struct);
    r2.flags = winrt_flags();
    r2.fields.push(bindgen_metadata::model::FieldRow { name: "x".to_string(), ty: Type::I32 });
    let reader = Reader { types: vec![r0, r1, r2] };
    assert!(!type_def_is_blittable(&reader, TypeDef(0)));
    assert!(type_def_is_blittable(&reader, TypeDef(1)));
    assert!(type_def_is_blittable(&reader, TypeDef(2)));
}

#[test]
fn interface_list_is_sorted_and_tagged() {
    let zeta = row("N", "Zeta", TypeKind::Interface);
    let alpha = row("N", "Alpha", TypeKind::Interface);
    let mut mid = row("N", "Middle", TypeKind::Interface);
    mid.interface_impls.push(bindgen_metadata::model::InterfaceImplRow {
        ty: Type::TypeDef(TypeDef(0), TypeList::Nil),
        attributes: vec![],
    });
    mid.interface_impls.push(bindgen_metadata::model::InterfaceImplRow {
        ty: Type::TypeDef(TypeDef(1), TypeList::Nil),
        attributes: vec![Attribute { kind: AttrKind::DefaultIface, args: vec![] }],
    });
    let reader = Reader { types: vec![zeta, alpha, mid] };
    let list = type_interfaces(&reader, &Type::TypeDef(TypeDef(2), TypeList::Nil));
    assert_eq!(list.len(), 2);
    assert!(matches!(list[0].ty, Type::TypeDef(TypeDef(1), _)));
    assert_eq!(list[0].kind, InterfaceKind::Default);
    assert!(matches!(list[1].ty, Type::TypeDef(TypeDef(0), _)));
    assert_eq!(list[1].kind, InterfaceKind::Unmarked);
    for e in list.iter() {
        assert_ne!(e.kind, InterfaceKind::Overridable);
    }
}

#[test]
fn vtables_follow_the_abi_prefix() {
    let mut winrt_iface = row("N", "I", TypeKind::Interface);
    winrt_iface.flags = winrt_flags();
    let mut com_iface = row("N", "C", TypeKind::Interface);
    com_iface.interface_impls.push(bindgen_metadata::model::InterfaceImplRow {
        ty: Type::IUnknown,
        attributes: vec![],
    });
    let reader = Reader { types: vec![winrt_iface, com_iface] };
    let v0 = type_def_vtables(&reader, TypeDef(0));
    assert_eq!(v0.len(), 2);
    assert!(matches!(v0[0], Type::IUnknown));
    assert!(matches!(v0[1], Type::IInspectable));
    let v1 = type_def_vtables(&reader, TypeDef(1));
    assert_eq!(v1.len(), 1);
    assert!(matches!(v1[0], Type::IUnknown));
}

#[test]
fn bases_follow_the_extends_chain() {
    let mut base = row("N", "Base", TypeKind::Class);
    base.extends = Some(TypeNameRef {
        namespace: "System".to_string(),
        name: "Object".to_string(),
    });
    let mut derived = row("N", "Derived", TypeKind::Class);
    derived.extends = Some(TypeNameRef { namespace: "N".to_string(), name: "Base".to_string() });
    let reader = Reader { types: vec![base, derived] };
    let bases = type_def_bases(&reader, TypeDef(1));
    assert_eq!(bases.len(), 1);
    assert_eq!(bases[0], TypeDef(0));
    assert_eq!(type_def_bases(&reader, TypeDef(0)).len(), 0);
}

#[test]
fn default_interface_and_invalid_values() {
    let iface = row("N", "I", TypeKind::Interface);
    let mut class = row("N", "C", TypeKind::Class);
    class.interface_impls.push(bindgen_metadata::model::InterfaceImplRow {
        ty: Type::TypeDef(TypeDef(0), TypeList::Nil),
        attributes: vec![Attribute { kind: AttrKind::DefaultIface, args: vec![] }],
    });
    class.attributes.push(Attribute {
        kind: AttrKind::InvalidHandleValue,
        args: vec![(String::new(), Value::I64(-1))],
    });
    let reader = Reader { types: vec![iface, class] };
    let di = type_def_default_interface(&reader, TypeDef(1));
    assert!(matches!(di, Some(Type::TypeDef(TypeDef(0), _))));
    assert_eq!(type_def_invalid_values(&reader, TypeDef(1)), vec![-1i64]);
}

#[test]
fn parse_type_name_splits_at_last_dot() {
    let (ns, nm) = parse_type_name("Windows.Foundation.IStringable");
    assert_eq!(ns, "Windows.Foundation");
    assert_eq!(nm, "IStringable");
    let (ns2, nm2) = parse_type_name("Plain");
    assert_eq!(ns2, "");
    assert_eq!(nm2, "Plain");
}

#[test]
fn nullability_follows_the_kind() {
    let mut winrt_delegate = row("N", "D", TypeKind::Delegate);
    winrt_delegate.flags = winrt_flags();
    let plain_delegate = row("N", "D2", TypeKind::Delegate);
    let reader = Reader { types: vec![winrt_delegate, plain_delegate] };
    assert!(type_is_nullable(&reader, &Type::TypeDef(TypeDef(0), TypeList::Nil)));
    assert!(!type_is_nullable(&reader, &Type::TypeDef(TypeDef(1), TypeList::Nil)));
    assert!(type_is_nullable(&reader, &Type::IUnknown));
    assert!(!type_is_nullable(&reader, &Type::I32));
}

#[test]
fn query_is_optional_when_identifier_is_optional() {
    // the identifier parameter decides between plain and optional queries
    let com_out = Attribute { kind: AttrKind::ComOutPtr, args: vec![] };
    let opt_in = ParamFlags { input: true, output: false, optional: true };
    let m = method(
        "F",
        Type::HRESULT,
        vec![
            param(1, opt_in, vec![], Type::ConstPtr(Box::new(Type::GUID), 1)),
            param(2, flags_out(), vec![com_out], Type::MutPtr(Box::new(Type::Void), 2)),
        ],
    );
    let reader = reader_with_method(m);
    let sig = method_def_signature(&reader, "N", MethodDef { owner: 0, index: 0 }, &TypeList::Nil);
    let kind = signature_kind(&reader, &sig);
    match kind {
        SignatureKind::QueryOptional(qp) => {
            assert_eq!(qp.guid, 0);
            assert_eq!(qp.object, 1);
        },
        _ => panic!("expected an optional query classification"),
    }
}

#[test]
fn guid_formats_as_hyphenated_hex() {
    let g = Guid(0x12345678, 0x9abc, 0xdef0, 1, 2, 3, 4, 5, 6, 7, 8);
    assert_eq!(g.format(), "12345678-9abc-def0-0102-030405060708");
    let zero = Guid(0, 0, 0, 0, 0, 0, 0, 0, 0, 0, 0);
    assert_eq!(zero.format(), "00000000-0000-0000-0000-000000000000");
}
