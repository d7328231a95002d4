use lib::binary_types::Builtins;
use lib::const_eval::ComptimeValue;
use lib::diag::SemaDiagKind;
use lib::expr::PrefixOp;
use lib::prefix::{comptime_value_ty, known_typing, pin_expr_issues, prefix_typing, PrefixTy, PrefixTyping, ValueTys};
use lib::ty::{Symbol, TyId, TyKind, TyStore};

const BITS: Symbol = Symbol(0);
const PIN: Symbol = Symbol(1);

fn names() -> Vec<String> {
    vec!["Bits".to_string(), "Pin".to_string()]
}

fn setup() -> (TyStore, Builtins) {
    let mut store = TyStore::new();
    let unknown = store.push_kind(TyKind::Unknown);
    let bool_ = store.push_kind(TyKind::Bool);
    let int_ = store.push_kind(TyKind::Int);
    let nat = store.push_kind(TyKind::Nat);
    let float_ = store.push_kind(TyKind::Float);
    let string_ = store.push_kind(TyKind::String);
    (store, Builtins { unknown, bool_, int_, nat, float_, string_ })
}

fn typed(ty: TyId) -> PrefixTyping {
    PrefixTyping { ty: PrefixTy::Id(ty), issue: None }
}

#[test]
fn negation_needs_a_numeric_operand() {
    let (store, b) = setup();
    assert_eq!(prefix_typing(&store, b, BITS, PrefixOp::Neg, b.int_), typed(b.int_));
    assert_eq!(prefix_typing(&store, b, BITS, PrefixOp::Neg, b.float_), typed(b.float_));
    assert_eq!(
        prefix_typing(&store, b, BITS, PrefixOp::Neg, b.string_),
        PrefixTyping { ty: PrefixTy::Id(b.unknown), issue: Some(SemaDiagKind::NumericOperandRequired) }
    );
}

#[test]
fn not_takes_booleans_and_bits() {
    let (mut store, b) = setup();
    let eight = store.push_kind(TyKind::Bits { width: 8 });
    let bits_n = store.push_kind(TyKind::Named { name: BITS, args: vec![b.nat] });
    assert_eq!(prefix_typing(&store, b, BITS, PrefixOp::Not, b.bool_), typed(b.bool_));
    assert_eq!(prefix_typing(&store, b, BITS, PrefixOp::Not, eight), typed(eight));
    assert_eq!(prefix_typing(&store, b, BITS, PrefixOp::Not, bits_n), typed(bits_n));
    assert_eq!(
        prefix_typing(&store, b, BITS, PrefixOp::Not, b.int_),
        PrefixTyping {
            ty: PrefixTy::Id(b.unknown),
            issue: Some(SemaDiagKind::UnaryLogicalOperatorDomainMismatch),
        }
    );
}

#[test]
fn mut_makes_a_mutable_type() {
    let (store, b) = setup();
    assert_eq!(
        prefix_typing(&store, b, BITS, PrefixOp::Mut, b.int_),
        PrefixTyping { ty: PrefixTy::MutOf(b.int_), issue: None }
    );
}

#[test]
fn known_values_have_their_value_type() {
    let t = ValueTys {
        unit: TyId(0),
        int_: TyId(1),
        nat: TyId(2),
        float_: TyId(3),
        string_: TyId(4),
        rune: TyId(5),
        cptr: TyId(6),
        syntax: TyId(7),
        any: TyId(8),
    };
    assert_eq!(comptime_value_ty(t, &ComptimeValue::Int(-3)), TyId(1));
    assert_eq!(comptime_value_ty(t, &ComptimeValue::Nat(3)), TyId(2));
    assert_eq!(comptime_value_ty(t, &ComptimeValue::Rune(97)), TyId(5));
    assert_eq!(comptime_value_ty(t, &ComptimeValue::Syntax(0)), TyId(7));
    assert_eq!(comptime_value_ty(t, &ComptimeValue::Other(4)), TyId(8));
    assert_eq!(
        known_typing(t, &Some(ComptimeValue::String("s".to_string())), TyId(9)),
        typed(TyId(4))
    );
    assert_eq!(
        known_typing(t, &None, TyId(9)),
        PrefixTyping {
            ty: PrefixTy::Id(TyId(9)),
            issue: Some(SemaDiagKind::RuntimeValueInComptimeContext),
        }
    );
}

#[test]
fn pin_reports_in_order() {
    let (mut store, b) = setup();
    let pin_int = store.push_kind(TyKind::Named { name: PIN, args: vec![b.int_] });
    assert!(pin_expr_issues(&store, &names(), true, b.string_, false, b.int_).is_empty());
    assert_eq!(
        pin_expr_issues(&store, &names(), false, b.int_, true, pin_int),
        vec![
            SemaDiagKind::PinRequiresUnsafeBlock,
            SemaDiagKind::UnsupportedPinTarget,
            SemaDiagKind::PinnedValueCapturedByClosure,
            SemaDiagKind::PinnedValueEscapes,
        ]
    );
}
