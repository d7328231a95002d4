use lib::array_lit::{
    expected_array_contract, index_expr_result, ArrayLenIssue, ArrayLitState, ArrayStep, IndexIssue,
};
use lib::diag::SemaDiagKind;
use lib::ty::{Dim, Symbol, TyId, TyKind, TyStore};

struct Fixture {
    store: TyStore,
    unknown: TyId,
    int: TyId,
    boolean: TyId,
}

fn fixture() -> Fixture {
    let mut store = TyStore::new();
    let unknown = store.push_kind(TyKind::Unknown);
    let int = store.push_kind(TyKind::Int);
    let boolean = store.push_kind(TyKind::Bool);
    Fixture { store, unknown, int, boolean }
}

#[test]
fn expected_array_fixes_item_type_and_length() {
    let mut f = fixture();
    let array = f.store.push_kind(TyKind::Array { dims: vec![Dim::Int(3)], item: f.int });
    let contract = expected_array_contract(&f.store, Some(array));
    assert_eq!(contract.dims, Some(vec![Dim::Int(3)]));
    assert_eq!(contract.item, Some(f.int));
    assert!(!contract.is_seq);
    let mut state = ArrayLitState::start(&contract, f.unknown);
    assert_eq!(state.item_ty, f.int);
    assert_eq!(
        state.direct(f.unknown, f.int),
        vec![ArrayStep::Mismatch { expected: f.int, found: f.int }]
    );
    assert_eq!(
        state.direct(f.unknown, f.boolean),
        vec![ArrayStep::Mismatch { expected: f.int, found: f.boolean }]
    );
    assert_eq!(
        state.len_issue(&contract),
        Some(ArrayLenIssue::Mismatch { expected: 3, found: 2 })
    );
    assert_eq!(state.direct(f.unknown, f.int).len(), 1);
    assert_eq!(state.len_issue(&contract), None);
    assert_eq!(
        state.literal_kind(&contract),
        TyKind::Array { dims: vec![Dim::Int(3)], item: f.int }
    );
}

#[test]
fn first_item_fixes_the_item_type_without_expectation() {
    let f = fixture();
    let contract = expected_array_contract(&f.store, None);
    let mut state = ArrayLitState::start(&contract, f.unknown);
    assert!(state.direct(f.unknown, f.boolean).is_empty());
    assert_eq!(state.item_ty, f.boolean);
    assert_eq!(
        state.direct(f.unknown, f.int),
        vec![ArrayStep::Mismatch { expected: f.boolean, found: f.int }]
    );
    assert_eq!(state.known_len, 2);
    assert_eq!(state.len_issue(&contract), None);
    assert_eq!(state.literal_kind(&contract), TyKind::Sequence { item: f.boolean });
}

#[test]
fn expected_mut_sequence_is_peeled() {
    let mut f = fixture();
    let seq = f.store.push_kind(TyKind::Sequence { item: f.int });
    let mut_seq = f.store.push_kind(TyKind::Mut { inner: seq });
    let contract = expected_array_contract(&f.store, Some(mut_seq));
    assert_eq!(contract.dims, Some(vec![]));
    assert!(contract.is_seq);
    let state = ArrayLitState::start(&contract, f.unknown);
    assert_eq!(state.literal_kind(&contract), TyKind::Sequence { item: f.int });
    let not_array = expected_array_contract(&f.store, Some(f.int));
    assert_eq!(not_array.dims, None);
    assert_eq!(not_array.item, None);
}

#[test]
fn spreads_add_items() {
    let mut f = fixture();
    let pair = f.store.push_kind(TyKind::Tuple { items: vec![f.int, f.int] });
    let four = f.store.push_kind(TyKind::Array { dims: vec![Dim::Int(4)], item: f.int });
    let grid = f.store.push_kind(TyKind::Array { dims: vec![Dim::Int(2), Dim::Int(2)], item: f.int });
    let range = f.store.push_kind(TyKind::Range { bound: f.int });
    let array = f.store.push_kind(TyKind::Array { dims: vec![Dim::Int(6)], item: f.int });
    let contract = expected_array_contract(&f.store, Some(array));
    let mut state = ArrayLitState::start(&contract, f.unknown);
    assert_eq!(
        state.spread(&f.store, f.unknown, pair),
        vec![
            ArrayStep::Mismatch { expected: f.int, found: f.int },
            ArrayStep::Mismatch { expected: f.int, found: f.int },
        ]
    );
    assert_eq!(
        state.spread(&f.store, f.unknown, four),
        vec![ArrayStep::Mismatch { expected: f.int, found: f.int }]
    );
    assert_eq!(state.known_len, 6);
    assert_eq!(state.len_issue(&contract), None);
    assert_eq!(
        state.spread(&f.store, f.unknown, grid),
        vec![ArrayStep::Diag { kind: SemaDiagKind::ArraySpreadRequiresOneDimensionalArray }]
    );
    assert_eq!(
        state.spread(&f.store, f.unknown, f.boolean),
        vec![ArrayStep::Diag { kind: SemaDiagKind::InvalidSpreadSource }]
    );
    assert_eq!(
        state.spread(&f.store, f.unknown, range),
        vec![
            ArrayStep::Mismatch { expected: f.int, found: f.int },
            ArrayStep::RangeEvidence { item: f.int },
        ]
    );
    assert!(state.has_runtime_spread);
    assert_eq!(state.len_issue(&contract), Some(ArrayLenIssue::UnknownFromRuntimeSpread));
}

#[test]
fn indexing_arrays_and_sequences() {
    let mut f = fixture();
    let grid = f.store.push_kind(TyKind::Array {
        dims: vec![Dim::Int(2), Dim::Name(Symbol(0))],
        item: f.boolean,
    });
    let seq = f.store.push_kind(TyKind::Sequence { item: f.int });
    let mut_seq = f.store.push_kind(TyKind::Mut { inner: seq });
    assert_eq!(index_expr_result(&f.store, f.unknown, grid, 2), (f.boolean, None));
    assert_eq!(
        index_expr_result(&f.store, f.unknown, grid, 1),
        (f.boolean, Some(IndexIssue::ArgCount { expected: 2, found: 1 }))
    );
    assert_eq!(index_expr_result(&f.store, f.unknown, mut_seq, 1), (f.int, None));
    assert_eq!(
        index_expr_result(&f.store, f.unknown, seq, 0),
        (f.int, Some(IndexIssue::ArgCount { expected: 1, found: 0 }))
    );
    assert_eq!(
        index_expr_result(&f.store, f.unknown, f.int, 1),
        (f.unknown, Some(IndexIssue::Target))
    );
}
