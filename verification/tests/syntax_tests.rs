use lib::attrs::{
    attr_is_musi, attr_is_reserved, attr_value_is_int_array, attr_value_is_string,
    attr_value_is_string_array, split_export_attrs, validate_when_attr, Attr, AttrArg, AttrArgExpr,
    AttrIssue, AttrValue,
};
use lib::diag::SemaDiagKind;
use lib::expr::{BinaryOp, ExprForm, ExprId, ExprKind, ExprStore, LetPat, LitKind, PrefixOp};
use lib::ffi::{is_std_ffi_module, is_std_ffi_unsafe_public_pointer_op, validate_ffi_type};
use lib::name_set::NameSet;
use lib::pins::{find_pin_capture_in_closure, find_pin_capture_in_expr};
use lib::subject::{
    binary_op_subject, expr_subject, fixed_binary_op_subject, prefix_op_subject, range_op_subject,
    rune_subject,
};
use lib::ty::{Symbol, TyKind, TyStore};

fn push(store: &mut ExprStore, kind: ExprKind) -> ExprId {
    store.push_expr(kind).expect("expression fits")
}

fn path(parts: &[&str]) -> Vec<String> {
    parts.iter().map(|s| s.to_string()).collect()
}

fn attr(parts: &[&str]) -> Attr {
    Attr { path: path(parts), args: vec![] }
}

#[test]
fn range_operators_name_their_ends() {
    assert_eq!(range_op_subject(true, true), "..");
    assert_eq!(range_op_subject(true, false), "..<");
    assert_eq!(range_op_subject(false, true), "<..");
    assert_eq!(range_op_subject(false, false), "<..<");
}

#[test]
fn operators_are_named_by_their_text() {
    let names = vec!["<>".to_string()];
    assert_eq!(prefix_op_subject(PrefixOp::Not), "not");
    assert_eq!(prefix_op_subject(PrefixOp::Known), "known");
    assert_eq!(fixed_binary_op_subject(BinaryOp::TypeEq), "==");
    assert_eq!(fixed_binary_op_subject(BinaryOp::In), "operator");
    assert_eq!(binary_op_subject(&names, BinaryOp::In), "in");
    assert_eq!(binary_op_subject(&names, BinaryOp::UserOp(Symbol(0))), "<>");
    assert_eq!(binary_op_subject(&names, BinaryOp::UserOp(Symbol(9))), "");
    assert_eq!(
        binary_op_subject(&names, BinaryOp::Range { include_lower: false, include_upper: true }),
        "<.."
    );
    assert_eq!(binary_op_subject(&names, BinaryOp::Shr), ">>");
}

#[test]
fn runes_are_named_in_hexadecimal() {
    assert_eq!(rune_subject(0x41), "U+0041");
    assert_eq!(rune_subject(0), "U+0000");
    assert_eq!(rune_subject(0xABCD), "U+ABCD");
    assert_eq!(rune_subject(0x1F600), "U+1F600");
    assert_eq!(rune_subject(0x10FFFF), "U+10FFFF");
}

#[test]
fn expressions_are_named_for_diagnostics() {
    let names = vec!["count".to_string()];
    let mut store = ExprStore::new(1);
    let text = push(&mut store, ExprKind::Lit { lit: LitKind::String { value: "hi".to_string() } });
    let number = push(
        &mut store,
        ExprKind::Lit { lit: LitKind::Int { raw: "0x10".to_string(), parsed: Some(16) } },
    );
    let rune = push(&mut store, ExprKind::Lit { lit: LitKind::Rune { value: 0x3bb } });
    let var = push(&mut store, ExprKind::Name { name: Symbol(0), binding: Some(0) });
    let tuple = push(&mut store, ExprKind::Tuple { items: vec![var] });
    let lambda = push(&mut store, ExprKind::Other { form: ExprForm::Lambda, children: vec![var] });
    let other = push(&mut store, ExprKind::Other { form: ExprForm::Unlisted, children: vec![] });
    let error = push(&mut store, ExprKind::Error);
    let let_expr = push(
        &mut store,
        ExprKind::Let { pat: LetPat::Other, value: var, callable: false },
    );
    assert_eq!(expr_subject(&store, &names, text), "\"hi\"");
    assert_eq!(expr_subject(&store, &names, number), "0x10");
    assert_eq!(expr_subject(&store, &names, rune), "U+03BB");
    assert_eq!(expr_subject(&store, &names, var), "count");
    assert_eq!(expr_subject(&store, &names, tuple), "tuple expression");
    assert_eq!(expr_subject(&store, &names, lambda), "lambda expression");
    assert_eq!(expr_subject(&store, &names, other), "expression");
    assert_eq!(expr_subject(&store, &names, error), "error");
    assert_eq!(expr_subject(&store, &names, let_expr), "let expression");
}

#[test]
fn reserved_and_musi_attribute_paths() {
    assert!(attr_is_musi(&path(&["musi", "builtin"])));
    assert!(attr_is_musi(&path(&["musi", "other", "deep"])));
    assert!(!attr_is_musi(&path(&["native"])));
    assert!(!attr_is_musi(&path(&[])));
    assert!(attr_is_reserved(&path(&["musi", "intrinsic"])));
    assert!(attr_is_reserved(&path(&["native"])));
    assert!(attr_is_reserved(&path(&["frozen"])));
    assert!(attr_is_reserved(&path(&["diag", "allow"])));
    assert!(!attr_is_reserved(&path(&["native", "extra"])));
    assert!(!attr_is_reserved(&path(&["deprecated"])));
    assert!(!attr_is_reserved(&path(&[])));
}

#[test]
fn exported_attributes_drop_reserved_ones() {
    let attrs = vec![
        attr(&["deprecated"]),
        attr(&["musi", "builtin"]),
        Attr {
            path: path(&["since"]),
            args: vec![AttrArg { name: None, value: AttrValue::String("1.0".to_string()) }],
        },
        attr(&["link"]),
        attr(&["musi", "custom"]),
    ];
    let (inert, musi) = split_export_attrs(attrs);
    assert_eq!(inert.len(), 2);
    assert_eq!(inert[0].path, path(&["deprecated"]));
    assert_eq!(inert[1].path, path(&["since"]));
    assert_eq!(inert[1].args[0].value, AttrValue::String("1.0".to_string()));
    assert!(musi.is_empty());
}

#[test]
fn target_attribute_arguments_are_checked() {
    let names: Vec<String> = ["os", "feature", "pointerWidth", "color", "jitIsa"]
        .iter()
        .map(|s| s.to_string())
        .collect();
    let mut store = ExprStore::new(0);
    let linux = push(&mut store, ExprKind::Lit { lit: LitKind::String { value: "linux".to_string() } });
    let sixty_four = push(
        &mut store,
        ExprKind::Lit { lit: LitKind::Int { raw: "64".to_string(), parsed: Some(64) } },
    );
    let list = push(&mut store, ExprKind::Other { form: ExprForm::Array, children: vec![linux, linux] });
    let numbers = push(&mut store, ExprKind::Other { form: ExprForm::Array, children: vec![sixty_four] });
    let arg = |name: Option<u32>, value: ExprId| AttrArgExpr { name: name.map(Symbol), value };
    assert!(attr_value_is_string(&store, arg(None, linux)));
    assert!(attr_value_is_string_array(&store, arg(None, list)));
    assert!(!attr_value_is_string_array(&store, arg(None, numbers)));
    assert!(attr_value_is_int_array(&store, arg(None, numbers)));
    let args = vec![
        arg(Some(0), linux),
        arg(Some(1), list),
        arg(Some(2), sixty_four),
        arg(Some(3), linux),
        arg(Some(1), sixty_four),
        arg(Some(4), numbers),
        arg(None, sixty_four),
    ];
    let issues = validate_when_attr(&store, &names, &args);
    assert_eq!(
        issues,
        vec![
            AttrIssue { kind: SemaDiagKind::AttrUnknownArg, argument: Some(Symbol(3)) },
            AttrIssue { kind: SemaDiagKind::AttrWhenRequiresStringList, argument: None },
            AttrIssue { kind: SemaDiagKind::AttrWhenRequiresStringValue, argument: None },
            AttrIssue { kind: SemaDiagKind::AttrWhenRequiresStringValue, argument: None },
        ]
    );
}

#[test]
fn std_ffi_pointer_operations_are_unsafe() {
    assert!(is_std_ffi_module("@std/ffi"));
    assert!(is_std_ffi_module("lib/std/ffi.ms"));
    assert!(!is_std_ffi_module("@std/io"));
    assert!(is_std_ffi_unsafe_public_pointer_op("@std/ffi", "offset"));
    assert!(is_std_ffi_unsafe_public_pointer_op("x/ffi.ms", "write"));
    assert!(!is_std_ffi_unsafe_public_pointer_op("@std/ffi", "alloc"));
    assert!(!is_std_ffi_unsafe_public_pointer_op("@std/io", "read"));
}

#[test]
fn pinned_values_captured_by_closures_are_found() {
    let mut store = ExprStore::new(2);
    let pinned = push(&mut store, ExprKind::Name { name: Symbol(0), binding: Some(0) });
    let other = push(&mut store, ExprKind::Name { name: Symbol(1), binding: Some(1) });
    let direct = push(&mut store, ExprKind::Field { base: pinned, name: Symbol(1) });
    let lambda = push(&mut store, ExprKind::Other { form: ExprForm::Lambda, children: vec![direct] });
    let body = push(&mut store, ExprKind::Sequence { exprs: vec![direct, other, lambda] });
    let callable = push(
        &mut store,
        ExprKind::Let { pat: LetPat::Other, value: pinned, callable: true },
    );
    let plain = push(&mut store, ExprKind::Let { pat: LetPat::Other, value: pinned, callable: false });
    let pi = push(&mut store, ExprKind::Other { form: ExprForm::Pi, children: vec![lambda] });
    assert_eq!(find_pin_capture_in_closure(&store, direct, 0), None);
    assert_eq!(find_pin_capture_in_closure(&store, body, 0), Some(pinned));
    assert_eq!(find_pin_capture_in_closure(&store, body, 1), None);
    assert_eq!(find_pin_capture_in_closure(&store, callable, 0), Some(pinned));
    assert_eq!(find_pin_capture_in_closure(&store, plain, 0), None);
    assert_eq!(find_pin_capture_in_closure(&store, pi, 0), None);
    assert_eq!(find_pin_capture_in_expr(&store, direct, 0, true), Some(pinned));
}

#[test]
fn foreign_types_are_checked_unless_the_abi_is_musi() {
    let mut store = TyStore::new();
    let int = store.push_kind(TyKind::Int32);
    let cptr = store.push_kind(TyKind::CPtr);
    let text = store.push_kind(TyKind::String);
    let point = store.push_kind(TyKind::Named { name: Symbol(0), args: vec![] });
    let other = store.push_kind(TyKind::Named { name: Symbol(1), args: vec![] });
    let names = vec!["Point".to_string(), "Other".to_string()];
    let mut data = NameSet::new();
    data.insert("Point".to_string());
    assert!(validate_ffi_type(&store, &names, &data, "c", int));
    assert!(validate_ffi_type(&store, &names, &data, "c", cptr));
    assert!(validate_ffi_type(&store, &names, &data, "c", point));
    assert!(!validate_ffi_type(&store, &names, &data, "c", other));
    assert!(!validate_ffi_type(&store, &names, &data, "c", text));
    assert!(validate_ffi_type(&store, &names, &data, "musi", text));
}
