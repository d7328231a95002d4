use lib::attrs::{AttrArgExpr, AttrIssue};
use lib::diag::SemaDiagKind;
use lib::expr::{ExprId, ExprKind, ExprStore, LitKind};
use lib::layout::{extract_data_layout_hints, AttrExpr, DataLayoutHints};
use lib::ty::Symbol;

const LAYOUT: Symbol = Symbol(0);
const FROZEN: Symbol = Symbol(1);
const FORM: Symbol = Symbol(2);
const ALIGN: Symbol = Symbol(3);
const PACKED: Symbol = Symbol(4);
const C: Symbol = Symbol(5);
const TRANSPARENT: Symbol = Symbol(6);
const BOGUS: Symbol = Symbol(7);
const WEIRD: Symbol = Symbol(8);

fn names() -> Vec<String> {
    ["layout", "frozen", "form", "align", "packed", "c", "transparent", "bogus", "weird"]
        .iter()
        .map(|s| s.to_string())
        .collect()
}

fn push(store: &mut ExprStore, kind: ExprKind) -> ExprId {
    store.push_expr(kind).expect("room in the store")
}

fn variant(store: &mut ExprStore, tag: Symbol) -> ExprId {
    push(store, ExprKind::Variant { tag, args: vec![] })
}

fn int_lit(store: &mut ExprStore, value: i64) -> ExprId {
    push(
        store,
        ExprKind::Lit { lit: LitKind::Int { raw: value.to_string(), parsed: Some(value) } },
    )
}

fn named(name: Symbol, value: ExprId) -> AttrArgExpr {
    AttrArgExpr { name: Some(name), value }
}

fn positional(value: ExprId) -> AttrArgExpr {
    AttrArgExpr { name: None, value }
}

fn attr(path: Symbol, args: Vec<AttrArgExpr>) -> AttrExpr {
    AttrExpr { path: vec![path], args }
}

fn issue(kind: SemaDiagKind) -> AttrIssue {
    AttrIssue { kind, argument: None }
}

#[test]
fn named_layout_arguments_set_repr_and_align() {
    let mut store = ExprStore::new(0);
    let c = variant(&mut store, C);
    let eight = int_lit(&mut store, 8);
    let attrs = vec![attr(LAYOUT, vec![named(FORM, c), named(ALIGN, eight)])];
    let (hints, issues) = extract_data_layout_hints(&store, &names(), &attrs);
    assert_eq!(
        hints,
        DataLayoutHints { repr_kind: Some("c".to_string()), align: Some(8), pack: None, frozen: false }
    );
    assert!(issues.is_empty());
}

#[test]
fn positional_layout_arguments_are_form_then_align() {
    let mut store = ExprStore::new(0);
    let packed = variant(&mut store, PACKED);
    let four = int_lit(&mut store, 4);
    let five = int_lit(&mut store, 5);
    let attrs = vec![attr(LAYOUT, vec![positional(packed), positional(four), positional(five)])];
    let (hints, issues) = extract_data_layout_hints(&store, &names(), &attrs);
    assert_eq!(hints.pack, Some(1));
    assert_eq!(hints.align, Some(4));
    assert_eq!(hints.repr_kind, None);
    assert_eq!(issues, vec![issue(SemaDiagKind::AttrLayoutArgRequiresName)]);
}

#[test]
fn repeated_hints_keep_the_first_and_are_reported() {
    let mut store = ExprStore::new(0);
    let c = variant(&mut store, C);
    let transparent = variant(&mut store, TRANSPARENT);
    let one = int_lit(&mut store, 1);
    let two = int_lit(&mut store, 2);
    let packed = variant(&mut store, PACKED);
    let attrs = vec![
        attr(LAYOUT, vec![named(FORM, c), named(ALIGN, one), positional(packed)]),
        attr(LAYOUT, vec![named(FORM, transparent), named(BOGUS, one), named(ALIGN, two), named(FORM, packed)]),
    ];
    let (hints, issues) = extract_data_layout_hints(&store, &names(), &attrs);
    assert_eq!(hints.repr_kind, Some("c".to_string()));
    assert_eq!(hints.align, Some(1));
    assert_eq!(hints.pack, Some(1));
    assert_eq!(
        issues,
        vec![
            issue(SemaDiagKind::AttrDuplicateRepr),
            AttrIssue { kind: SemaDiagKind::AttrUnknownArg, argument: Some(BOGUS) },
            issue(SemaDiagKind::AttrDuplicateLayoutAlign),
            issue(SemaDiagKind::AttrDuplicateLayoutPack),
        ]
    );
}

#[test]
fn unreadable_layout_arguments_are_reported() {
    let mut store = ExprStore::new(0);
    let text = push(&mut store, ExprKind::Lit { lit: LitKind::String { value: "x".to_string() } });
    let three = int_lit(&mut store, 3);
    let weird = variant(&mut store, WEIRD);
    let too_big = int_lit(&mut store, 1 << 40);
    let attrs = vec![
        attr(FROZEN, vec![]),
        attr(LAYOUT, vec![named(ALIGN, text), named(FORM, three), named(FORM, weird)]),
        attr(LAYOUT, vec![named(ALIGN, too_big)]),
    ];
    let (hints, issues) = extract_data_layout_hints(&store, &names(), &attrs);
    assert_eq!(
        hints,
        DataLayoutHints { repr_kind: None, align: None, pack: None, frozen: true }
    );
    assert_eq!(
        issues,
        vec![
            issue(SemaDiagKind::AttrLayoutAlignRequiresU32),
            issue(SemaDiagKind::AttrReprRequiresKindString),
            issue(SemaDiagKind::AttrReprRequiresKindString),
            issue(SemaDiagKind::AttrLayoutAlignRequiresU32),
        ]
    );
}

#[test]
fn other_attributes_give_no_hints() {
    let store = ExprStore::new(0);
    let attrs = vec![attr(BOGUS, vec![]), AttrExpr { path: vec![LAYOUT, FROZEN], args: vec![] }];
    let (hints, issues) = extract_data_layout_hints(&store, &names(), &attrs);
    assert_eq!(
        hints,
        DataLayoutHints { repr_kind: None, align: None, pack: None, frozen: false }
    );
    assert!(issues.is_empty());
}
