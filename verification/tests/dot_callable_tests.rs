use lib::dot_callable::{
    attached_namespace_choice, dot_callable_choice, strip_dot_callable_param, CallableScheme, DotCandidate, DotChoice,
    NamespaceChoice,
};
use lib::ty::{Symbol, TyId, TyKind, TyStore};

const T: Symbol = Symbol(0);

struct Fixture {
    store: TyStore,
    unknown: TyId,
    int: TyId,
    boolean: TyId,
    f: CallableScheme,
    g: CallableScheme,
    h: CallableScheme,
}

fn fixture() -> Fixture {
    let mut store = TyStore::new();
    let unknown = store.push_kind(TyKind::Unknown);
    let int = store.push_kind(TyKind::Int);
    let boolean = store.push_kind(TyKind::Bool);
    let mut_int = store.push_kind(TyKind::Mut { inner: int });
    let t = store.push_kind(TyKind::Named { name: T, args: vec![] });
    let f_ty = store.push_kind(TyKind::Arrow { params: vec![int], ret: boolean, is_effectful: false });
    let g_ty = store.push_kind(TyKind::Arrow { params: vec![mut_int, boolean], ret: int, is_effectful: true });
    let h_ty = store.push_kind(TyKind::Arrow { params: vec![t], ret: t, is_effectful: false });
    Fixture {
        store,
        unknown,
        int,
        boolean,
        f: CallableScheme { type_params: vec![], ty: f_ty },
        g: CallableScheme { type_params: vec![], ty: g_ty },
        h: CallableScheme { type_params: vec![T], ty: h_ty },
    }
}

fn cand(binding: u32, scheme: &CallableScheme) -> DotCandidate {
    DotCandidate { binding, scheme: Some(scheme.clone()) }
}

#[test]
fn attached_methods_come_first() {
    let f = fixture();
    let attached = vec![cand(1, &f.f)];
    let callables = vec![cand(2, &f.h)];
    assert_eq!(
        dot_callable_choice(&f.store, f.unknown, f.int, false, &attached, &callables),
        Some(DotChoice::Chosen { binding: 1, attached: true })
    );
}

#[test]
fn other_callables_when_no_attached_method_fits() {
    let f = fixture();
    let attached = vec![cand(1, &f.f)];
    let callables = vec![cand(2, &f.h), DotCandidate { binding: 3, scheme: None }];
    assert_eq!(
        dot_callable_choice(&f.store, f.unknown, f.boolean, false, &attached, &callables),
        Some(DotChoice::Chosen { binding: 2, attached: false })
    );
}

#[test]
fn several_fits_are_ambiguous() {
    let f = fixture();
    let callables = vec![cand(1, &f.f), cand(2, &f.h)];
    assert_eq!(
        dot_callable_choice(&f.store, f.unknown, f.int, false, &vec![], &callables),
        Some(DotChoice::Ambiguous)
    );
}

#[test]
fn mut_receivers_are_required_where_taken() {
    let f = fixture();
    let attached = vec![cand(1, &f.g)];
    assert_eq!(
        dot_callable_choice(&f.store, f.unknown, f.int, false, &attached, &vec![]),
        Some(DotChoice::RequiresMutReceiver)
    );
    assert_eq!(
        dot_callable_choice(&f.store, f.unknown, f.int, true, &attached, &vec![]),
        Some(DotChoice::Chosen { binding: 1, attached: true })
    );
}

#[test]
fn no_fit_or_unknown_receiver() {
    let f = fixture();
    let attached = vec![cand(1, &f.f)];
    assert_eq!(
        dot_callable_choice(&f.store, f.unknown, f.boolean, false, &attached, &vec![]),
        Some(DotChoice::Imported)
    );
    assert_eq!(
        dot_callable_choice(&f.store, f.unknown, f.unknown, false, &attached, &vec![]),
        Some(DotChoice::UnknownReceiver)
    );
}

#[test]
fn stripping_the_receiver_parameter() {
    let mut f = fixture();
    let stripped = strip_dot_callable_param(&mut f.store, f.g.ty).expect("room in the store");
    assert_eq!(
        f.store.kind(stripped),
        &TyKind::Arrow { params: vec![f.boolean], ret: f.int, is_effectful: true }
    );
    assert_eq!(strip_dot_callable_param(&mut f.store, f.int), None);
}

#[test]
fn a_namespace_method_is_the_one_attached_method_that_fits() {
    let f = fixture();
    // `f` takes an `Int` receiver, `g` a `mut Int` one, `h` any.
    let attached = vec![cand(1, &f.f), DotCandidate { binding: 2, scheme: None }, cand(3, &f.g)];
    assert_eq!(attached_namespace_choice(&f.store, f.boolean, &attached, 0), Some(NamespaceChoice::Missing));
    assert_eq!(attached_namespace_choice(&f.store, f.boolean, &attached, 1), Some(NamespaceChoice::Imported));
    assert_eq!(attached_namespace_choice(&f.store, f.boolean, &attached, 2), Some(NamespaceChoice::Ambiguous));
    assert_eq!(attached_namespace_choice(&f.store, f.int, &attached, 2), Some(NamespaceChoice::Ambiguous));
    let only_h = vec![DotCandidate { binding: 2, scheme: None }, cand(4, &f.h)];
    assert_eq!(attached_namespace_choice(&f.store, f.boolean, &only_h, 3), Some(NamespaceChoice::Local { index: 1 }));
}
