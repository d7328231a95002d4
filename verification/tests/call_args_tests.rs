use lib::call_args::{plan_call_args, CallArg, CallArgState, CallStep};
use lib::diag::SemaDiagKind;
use lib::ty::{Dim, Symbol, TyId, TyKind, TyStore};

const X: Symbol = Symbol(0);
const Y: Symbol = Symbol(1);
const Z: Symbol = Symbol(2);

struct Fixture {
    store: TyStore,
    unknown: TyId,
    int: TyId,
    boolean: TyId,
}

fn fixture() -> Fixture {
    let mut store = TyStore::new();
    let unknown = store.push_kind(TyKind::Unknown);
    let int = store.push_kind(TyKind::Int);
    let boolean = store.push_kind(TyKind::Bool);
    Fixture { store, unknown, int, boolean }
}

fn plain() -> CallArg {
    CallArg { name: None, spread: None }
}

fn named(name: Symbol) -> CallArg {
    CallArg { name: Some(name), spread: None }
}

fn spread(ty: TyId) -> CallArg {
    CallArg { name: None, spread: Some(ty) }
}

fn check(expected: TyId) -> CallStep {
    CallStep::Check { expected, comptime: false }
}

fn diag(kind: SemaDiagKind) -> CallStep {
    CallStep::Diag { kind, argument: None }
}

#[test]
fn positional_arguments_fill_parameters_in_order() {
    let f = fixture();
    let params = vec![f.int, f.boolean];
    let comptime = vec![false, true];
    let (steps, mismatch) =
        plan_call_args(&f.store, &params, f.unknown, &vec![X, Y], &comptime, &vec![plain(), plain()]);
    assert_eq!(
        steps,
        vec![vec![check(f.int)], vec![CallStep::Check { expected: f.boolean, comptime: true }]]
    );
    assert!(!mismatch);
}

#[test]
fn too_few_or_too_many_arguments_mismatch_arity() {
    let f = fixture();
    let params = vec![f.int, f.boolean];
    let (_, fewer) = plan_call_args(&f.store, &params, f.unknown, &vec![], &vec![], &vec![plain()]);
    assert!(fewer);
    let (steps, more) =
        plan_call_args(&f.store, &params, f.unknown, &vec![], &vec![], &vec![plain(), plain(), plain()]);
    assert!(more);
    assert_eq!(steps[2], vec![check(f.unknown)]);
}

#[test]
fn named_arguments_fill_their_parameters() {
    let f = fixture();
    let params = vec![f.int, f.boolean];
    let names = vec![X, Y];
    let (steps, mismatch) =
        plan_call_args(&f.store, &params, f.unknown, &names, &vec![], &vec![named(Y), named(X)]);
    assert_eq!(
        steps,
        vec![
            vec![CallStep::CheckNamed { name: Y, expected: Some(f.boolean), comptime: false }],
            vec![CallStep::CheckNamed { name: X, expected: Some(f.int), comptime: false }],
        ]
    );
    assert!(!mismatch);
}

#[test]
fn named_argument_problems_are_reported() {
    let f = fixture();
    let params = vec![f.int, f.boolean];
    let names = vec![X, Y];
    let args = vec![plain(), named(X), named(Z), named(Z), plain()];
    let (steps, mismatch) = plan_call_args(&f.store, &params, f.unknown, &names, &vec![], &args);
    assert_eq!(steps[0], vec![check(f.int)]);
    assert_eq!(
        steps[1],
        vec![
            diag(SemaDiagKind::CallNamedArgumentAlreadyProvided),
            CallStep::CheckNamed { name: X, expected: Some(f.int), comptime: false },
        ]
    );
    assert_eq!(
        steps[2],
        vec![
            CallStep::Diag { kind: SemaDiagKind::CallNamedArgumentUnknown, argument: Some(Z) },
            CallStep::CheckNamed { name: Z, expected: None, comptime: false },
        ]
    );
    assert_eq!(
        steps[3],
        vec![
            CallStep::Diag { kind: SemaDiagKind::CallNamedArgumentDuplicate, argument: Some(Z) },
            CallStep::Diag { kind: SemaDiagKind::CallNamedArgumentUnknown, argument: Some(Z) },
            CallStep::CheckNamed { name: Z, expected: None, comptime: false },
        ]
    );
    assert_eq!(
        steps[4],
        vec![diag(SemaDiagKind::CallPositionalAfterNamedArgument), check(f.boolean)]
    );
    assert!(!mismatch);
}

#[test]
fn tuple_and_array_spreads_fill_several_parameters() {
    let mut f = fixture();
    let pair = f.store.push_kind(TyKind::Tuple { items: vec![f.int, f.boolean] });
    let array = f.store.push_kind(TyKind::Array { dims: vec![Dim::Int(2)], item: f.int });
    let params = vec![f.int, f.boolean, f.int, f.int];
    let (steps, mismatch) =
        plan_call_args(&f.store, &params, f.unknown, &vec![], &vec![], &vec![spread(pair), spread(array)]);
    assert_eq!(
        steps,
        vec![
            vec![
                CallStep::Mismatch { expected: f.int, found: f.int },
                CallStep::Mismatch { expected: f.boolean, found: f.boolean },
            ],
            vec![
                CallStep::Mismatch { expected: f.int, found: f.int },
                CallStep::Mismatch { expected: f.int, found: f.int },
            ],
        ]
    );
    assert!(!mismatch);
}

#[test]
fn runtime_spreads_relax_arity_and_block_named_arguments() {
    let mut f = fixture();
    let seq = f.store.push_kind(TyKind::Sequence { item: f.int });
    let range = f.store.push_kind(TyKind::Range { bound: f.int });
    let params = vec![f.int, f.boolean];
    let names = vec![X, Y];
    let args = vec![spread(seq), named(Y), spread(range)];
    let (steps, mismatch) = plan_call_args(&f.store, &params, f.unknown, &names, &vec![], &args);
    assert_eq!(steps[0], vec![CallStep::Mismatch { expected: f.int, found: f.int }]);
    assert_eq!(
        steps[1],
        vec![
            diag(SemaDiagKind::CallNamedArgumentsAfterRuntimeSpread),
            CallStep::CheckNamed { name: Y, expected: None, comptime: false },
        ]
    );
    assert_eq!(
        steps[2],
        vec![
            CallStep::Mismatch { expected: f.int, found: f.int },
            CallStep::RangeEvidence { item: f.int },
        ]
    );
    assert!(!mismatch);
}

#[test]
fn bad_spread_sources_are_reported() {
    let mut f = fixture();
    let any = f.store.push_kind(TyKind::Any);
    let open_ints = f.store.push_kind(TyKind::Array { dims: vec![], item: f.int });
    let open_any = f.store.push_kind(TyKind::Array { dims: vec![Dim::Unknown], item: any });
    let grid = f.store.push_kind(TyKind::Array { dims: vec![Dim::Int(2), Dim::Int(2)], item: f.int });
    let params = vec![f.int];
    let mut state = CallArgState::new(params.len());
    let no_names: Vec<Symbol> = vec![];
    let no_comptime: Vec<bool> = vec![];
    let step = |state: &mut CallArgState, arg: CallArg| {
        state.step(&f.store, &params, f.unknown, &no_names, &no_comptime, arg)
    };
    assert_eq!(step(&mut state, spread(f.int)), vec![diag(SemaDiagKind::InvalidSpreadSource)]);
    assert_eq!(
        step(&mut state, spread(open_ints)),
        vec![diag(SemaDiagKind::CallRuntimeSpreadRequiresArrayAny)]
    );
    assert_eq!(
        step(&mut state, spread(grid)),
        vec![diag(SemaDiagKind::CallSpreadRequiresTupleOrArray)]
    );
    assert!(state.arity_mismatch(params.len()));
    assert_eq!(step(&mut state, spread(open_any)), vec![]);
    assert!(state.has_runtime_spread);
    assert!(!state.arity_mismatch(params.len()));
    assert_eq!(
        step(&mut state, CallArg { name: Some(X), spread: Some(open_any) }),
        vec![diag(SemaDiagKind::CallNamedSpreadArgument)]
    );
}
