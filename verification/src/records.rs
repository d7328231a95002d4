//! Records: the fields a type offers as a record (a record type's fields, a
//! range's bounds, a record-shaped data type's fields with its type
//! arguments put in), and the checking of record literals field by field.
use vstd::prelude::*;

use crate::const_eval::{symbol_string, symbol_text};
use crate::surface_lower::symbol_texts;
use crate::facts::SemaDataDef;
use crate::name_set::NameSet;
use crate::subst_map::SubstMap;
use crate::substitute::{lemma_subst_in_prefix, subst_in_store, subst_trees_of, substitute_ty, substituted};
use crate::text_map::TextMap;
use crate::ty::{children_below, store_wf, Symbol, TyField, TyId, TyKind, TyNode, TyStore};
use crate::ty_tree::{denote, lemma_denote_prefix, lemma_prefix_trans, store_prefix};

verus! {

/// Field types by field name.
pub type FieldTys = TextMap<TyId>;

/// The fields of a record type by name; a later field of a name wins.
pub open spec fn field_map(names: Seq<Seq<char>>, fields: Seq<TyField>) -> Map<Seq<char>, TyId>
    decreases fields.len(),
{
    if fields.len() == 0 {
        Map::empty()
    } else {
        field_map(names, fields.drop_last()).insert(symbol_text(names, fields.last().name), fields.last().ty)
    }
}

/// The fields a range offers: its two bounds, of the bound type, and
/// whether each is included.
pub open spec fn range_field_map(bound: TyId, bool_: TyId) -> Map<Seq<char>, TyId> {
    Map::empty().insert("lowerBound"@, bound).insert("upperBound"@, bound).insert("includeLower"@, bool_).insert(
        "includeUpper"@,
        bool_,
    )
}

/// The fields of the record type `fields`, by name.
pub fn record_field_tys(names: &Vec<String>, fields: &Vec<TyField>) -> (r: FieldTys)
    ensures
        r.map() == field_map(symbol_texts(names@), fields@),
{
    let ghost nm = symbol_texts(names@);
    let mut out: FieldTys = TextMap::new();
    let mut i: usize = 0;
    while i < fields.len()
        invariant
            i <= fields.len(),
            nm == symbol_texts(names@),
            out.map() == field_map(nm, fields@.subrange(0, i as int)),
        decreases fields.len() - i,
    {
        proof {
            assert(fields@.subrange(0, i + 1).drop_last() =~= fields@.subrange(0, i as int));
        }
        out.insert(symbol_string(names, fields[i].name), fields[i].ty);
        i = i + 1;
    }
    proof {
        assert(fields@.subrange(0, i as int) =~= fields@);
    }
    out
}

/// The fields a range of bound type `bound` offers.
pub fn range_field_tys(bound: TyId, bool_: TyId) -> (r: FieldTys)
    ensures
        r.map() == range_field_map(bound, bool_),
{
    let mut out: FieldTys = TextMap::new();
    out.insert("lowerBound".to_string(), bound);
    out.insert("upperBound".to_string(), bound);
    out.insert("includeLower".to_string(), bool_);
    out.insert("includeUpper".to_string(), bool_);
    proof {
        assert(out.map() =~= range_field_map(bound, bool_));
    }
    out
}

/// The substitution of the first `n` arguments for the first `n` type
/// parameters; a later parameter of a name wins.
pub open spec fn zip_subst(params: Seq<Symbol>, args: Seq<TyId>, n: int) -> Map<Symbol, TyId>
    decreases n,
{
    if n <= 0 {
        Map::empty()
    } else {
        zip_subst(params, args, n - 1).insert(params[n - 1], args[n - 1])
    }
}

/// How many pairs zipping two lists gives.
pub open spec fn zip_len(a: nat, b: nat) -> int {
    if a <= b {
        a as int
    } else {
        b as int
    }
}

/// The names of the first `n` named fields.
pub open spec fn named_fields(names: Seq<Option<String>>, n: int) -> Set<Seq<char>>
    decreases n,
{
    if n <= 0 {
        Set::empty()
    } else {
        match names[n - 1] {
            Some(s) => named_fields(names, n - 1).insert(s@),
            None => named_fields(names, n - 1),
        }
    }
}

/// The position of the last of the first `n` fields named `k`.
pub open spec fn last_field(names: Seq<Option<String>>, k: Seq<char>, n: int) -> int
    decreases n,
{
    if n <= 0 {
        -1
    } else if names[n - 1] matches Some(s) && s@ == k {
        n - 1
    } else {
        last_field(names, k, n - 1)
    }
}

/// What the fields of a record-shaped data type with type arguments put in
/// are: the named fields, each standing, in the final store, for its
/// declared type with the arguments put in for the type parameters.
pub open spec fn data_fields_ok(
    old_tys: Seq<TyNode>,
    new_tys: Seq<TyNode>,
    field_names: Seq<Option<String>>,
    field_tys: Seq<TyId>,
    m: Map<Symbol, TyId>,
    bits: Symbol,
    n: int,
    r: Map<Seq<char>, TyId>,
) -> bool {
    &&& store_prefix(old_tys, new_tys)
    &&& r.dom() == named_fields(field_names, n)
    &&& forall|k: Seq<char>| #[trigger] r.contains_key(k) ==> {
        let j = last_field(field_names, k, n);
        &&& r[k].0 < new_tys.len()
        &&& denote(new_tys, r[k]) == crate::substitute::subst_tree(
            denote(old_tys, field_tys[j]),
            subst_trees_of(old_tys, m),
            bits,
        )
    }
}

/// What the fields of the record-shaped data type `def` applied to `args`
/// are, read in the store `new_tys` that grew from `old_tys`.
pub open spec fn data_record_ok(
    old_tys: Seq<TyNode>,
    new_tys: Seq<TyNode>,
    def: SemaDataDef,
    args: Seq<TyId>,
    bits: Symbol,
    r: Map<Seq<char>, TyId>,
) -> bool {
    &&& def.is_record_shape
    &&& def.variants.map().contains_key(def.key.name@)
    &&& data_fields_ok(
        old_tys,
        new_tys,
        def.variants.map()[def.key.name@].field_names_spec(),
        def.variants.map()[def.key.name@].field_tys_spec(),
        zip_subst(def.type_params@, args, zip_len(def.type_params@.len(), args.len())),
        bits,
        zip_len(
            def.variants.map()[def.key.name@].field_names_spec().len(),
            def.variants.map()[def.key.name@].field_tys_spec().len(),
        ),
        r,
    )
}

proof fn lemma_last_field_bounds(names: Seq<Option<String>>, k: Seq<char>, n: int)
    requires
        0 <= n <= names.len(),
        named_fields(names, n).contains(k),
    ensures
        0 <= last_field(names, k, n) < n,
        names[last_field(names, k, n)] matches Some(s) && s@ == k,
    decreases n,
{
    if n > 0 {
        if !(names[n - 1] matches Some(s) && s@ == k) {
            lemma_last_field_bounds(names, k, n - 1);
        }
    }
}

/// The substitution of `args` for `params`, zipped.
pub(crate) fn zip_subst_exec(params: &Vec<Symbol>, args: &Vec<TyId>) -> (r: SubstMap)
    ensures
        r@ == zip_subst(params@, args@, zip_len(params@.len(), args@.len())),
{
    let mut m = SubstMap::new();
    let n = if params.len() <= args.len() {
        params.len()
    } else {
        args.len()
    };
    let mut i: usize = 0;
    proof {
        assert(m@ =~= zip_subst(params@, args@, 0));
    }
    while i < n
        invariant
            i <= n,
            n == zip_len(params@.len(), args@.len()),
            n <= params.len(),
            n <= args.len(),
            m@ == zip_subst(params@, args@, i as int),
        decreases n - i,
    {
        m.insert(params[i], args[i]);
        i = i + 1;
    }
    m
}

/// The fields of the record-shaped data type `def` applied to `args`: its
/// record variant's named fields, with the arguments put in for the type
/// parameters; `Some(None)` when `def` is not record-shaped, `None` when the
/// store had no room for a substituted type.
pub fn data_record_fields(store: &mut TyStore, def: &SemaDataDef, args: &Vec<TyId>, bits: Symbol) -> (r: Option<
    Option<FieldTys>,
>)
    requires
        forall|k: int| 0 <= k < args@.len() ==> (#[trigger] args@[k]).0 < old(store).kinds().len(),
        def.is_record_shape && def.variants.map().contains_key(def.key.name@) ==> forall|k: int|
            0 <= k < def.variants.map()[def.key.name@].field_tys_spec().len() ==> (
            #[trigger] def.variants.map()[def.key.name@].field_tys_spec()[k]).0 < old(store).kinds().len(),
    ensures
        store_prefix(old(store).kinds(), final(store).kinds()),
        !(def.is_record_shape && def.variants.map().contains_key(def.key.name@)) ==> r == Some(None::<FieldTys>)
            && final(store).kinds() == old(store).kinds(),
        r matches Some(Some(f)) ==> data_record_ok(old(store).kinds(), final(store).kinds(), *def, args@, bits, f.map()),
        def.is_record_shape && def.variants.map().contains_key(def.key.name@) ==> !(r matches Some(None)),
        r is None ==> final(store).kinds().len() == u32::MAX,
{
    proof {
        use_type_invariant(&*store);
    }
    let variant = match def.record_shape_variant() {
        Some(v) => v,
        None => {
            return Some(None);
        },
    };
    let subst = zip_subst_exec(&def.type_params, args);
    let ghost old_tys = store.kinds();
    let ghost m = subst@;
    let ghost fnames = variant.field_names_spec();
    let ghost ftys = variant.field_tys_spec();
    proof {
        assert forall|k: Symbol| #[trigger] m.contains_key(k) implies m[k].0 < old_tys.len() by {
            lemma_zip_subst_in(def.type_params@, args@, zip_len(def.type_params@.len(), args@.len()), k);
            let j = choose|j: int| 0 <= j < zip_len(def.type_params@.len(), args@.len()) && args@[j] == m[k];
            assert(args@[j].0 < old_tys.len());
        }
    }
    let names = variant.field_names();
    let tys = variant.field_tys();
    let n = if names.len() <= tys.len() {
        names.len()
    } else {
        tys.len()
    };
    let mut out: FieldTys = TextMap::new();
    let mut i: usize = 0;
    while i < n
        invariant
            i <= n,
            n <= names@.len(),
            n <= tys@.len(),
            names@ == fnames,
            tys@ == ftys,
            forall|k: int| 0 <= k < ftys.len() ==> (#[trigger] ftys[k]).0 < old_tys.len(),
            store_wf(old_tys),
            old_tys == old(store).kinds(),
            def.is_record_shape && def.variants.map().contains_key(def.key.name@),
            subst_in_store(old_tys, m),
            subst@ == m,
            data_fields_ok(old_tys, store.kinds(), fnames, ftys, m, bits, i as int, out.map()),
        decreases n - i,
    {
        match &names[i] {
            Some(name) => {
                let ghost before = store.kinds();
                let ghost out_before = out.map();
                proof {
                    use_type_invariant(&*store);
                    lemma_subst_in_prefix(old_tys, before, m);
                }
                let t = match substitute_ty(store, tys[i], &subst, bits) {
                    Some(t) => t,
                    None => {
                        proof {
                            lemma_prefix_trans(old_tys, before, store.kinds());
                        }
                        return None;
                    },
                };
                out.insert(name.clone(), t);
                proof {
                    use_type_invariant(&*store);
                    let after = store.kinds();
                    lemma_prefix_trans(old_tys, before, after);
                    lemma_denote_prefix(old_tys, before, ftys[i as int]);
                    crate::substitute::lemma_subst_trees_of_prefix(old_tys, before, m);
                    assert forall|k: Seq<char>| #[trigger] out.map().contains_key(k) implies {
                        let j = last_field(fnames, k, i + 1);
                        &&& out.map()[k].0 < after.len()
                        &&& denote(after, out.map()[k]) == crate::substitute::subst_tree(
                            denote(old_tys, ftys[j]),
                            subst_trees_of(old_tys, m),
                            bits,
                        )
                    } by {
                        if k != name@ {
                            lemma_denote_prefix(before, after, out_before[k]);
                        }
                    }
                    assert(out.map().dom() =~= named_fields(fnames, i + 1));
                }
            },
            None => {
                proof {
                    assert(out.map().dom() =~= named_fields(fnames, i + 1));
                }
            },
        }
        i = i + 1;
    }
    Some(Some(out))
}

/// A substitution from zipped arguments binds only arguments.
pub(crate) proof fn lemma_zip_subst_in(params: Seq<Symbol>, args: Seq<TyId>, n: int, k: Symbol)
    requires
        0 <= n <= args.len(),
        n <= params.len(),
        zip_subst(params, args, n).contains_key(k),
    ensures
        exists|j: int| 0 <= j < n && args[j] == zip_subst(params, args, n)[k],
    decreases n,
{
    if n > 0 && params[n - 1] != k {
        lemma_zip_subst_in(params, args, n - 1, k);
        let j = choose|j: int| 0 <= j < n - 1 && args[j] == zip_subst(params, args, n - 1)[k];
        assert(0 <= j < n && args[j] == zip_subst(params, args, n)[k]);
    } else if n > 0 {
        assert(args[n - 1] == zip_subst(params, args, n)[k]);
    }
}

/// Every field type of a record-shaped data definition is a type of the
/// store.
pub open spec fn data_def_in(tys: Seq<TyNode>, def: SemaDataDef) -> bool {
    def.is_record_shape && def.variants.map().contains_key(def.key.name@) ==> forall|k: int|
        0 <= k < def.variants.map()[def.key.name@].field_tys_spec().len() ==> (
        #[trigger] def.variants.map()[def.key.name@].field_tys_spec()[k]).0 < tys.len()
}

/// Every data definition's field types are types of the store.
pub open spec fn data_defs_in(tys: Seq<TyNode>, defs: Map<Seq<char>, SemaDataDef>) -> bool {
    forall|k: Seq<char>| #[trigger] defs.contains_key(k) ==> data_def_in(tys, defs[k])
}

/// What the fields a type offers as a record are, read in the store
/// `new_tys` that grew from `old_tys`: a record type's fields, a range's
/// bounds, a record-shaped data type's fields with its arguments put in; no
/// fields for any other type.
pub open spec fn record_like_ok(
    old_tys: Seq<TyNode>,
    new_tys: Seq<TyNode>,
    names: Seq<Seq<char>>,
    defs: Map<Seq<char>, SemaDataDef>,
    bool_: TyId,
    bits: Symbol,
    ty: TyId,
    r: Option<Map<Seq<char>, TyId>>,
) -> bool {
    match old_tys[ty.0 as int] {
        TyNode::Record { fields } => new_tys == old_tys && r == Some(field_map(names, fields)),
        TyNode::Range { bound } => new_tys == old_tys && r == Some(range_field_map(bound, bool_)),
        TyNode::Named { name, args } => if defs.contains_key(symbol_text(names, name)) {
            let def = defs[symbol_text(names, name)];
            if def.is_record_shape && def.variants.map().contains_key(def.key.name@) {
                match r {
                    Some(f) => data_record_ok(old_tys, new_tys, def, args, bits, f),
                    None => false,
                }
            } else {
                new_tys == old_tys && r is None
            }
        } else {
            new_tys == old_tys && r is None
        },
        _ => new_tys == old_tys && r is None,
    }
}

/// The view of a field map, if any.
pub open spec fn field_tys_view(r: Option<FieldTys>) -> Option<Map<Seq<char>, TyId>> {
    match r {
        Some(f) => Some(f.map()),
        None => None,
    }
}

/// The fields type `ty` offers as a record, by name, where `defs` holds the
/// module's data definitions by name; `Some(None)` for a type that offers
/// none, `None` when the store had no room for a substituted type.
pub fn record_like_fields(
    store: &mut TyStore,
    names: &Vec<String>,
    defs: &TextMap<SemaDataDef>,
    bool_: TyId,
    bits: Symbol,
    ty: TyId,
) -> (r: Option<Option<FieldTys>>)
    requires
        ty.0 < old(store).kinds().len(),
        data_defs_in(old(store).kinds(), defs.map()),
    ensures
        store_prefix(old(store).kinds(), final(store).kinds()),
        match r {
            Some(f) => record_like_ok(
                old(store).kinds(),
                final(store).kinds(),
                symbol_texts(names@),
                defs.map(),
                bool_,
                bits,
                ty,
                field_tys_view(f),
            ),
            None => final(store).kinds().len() == u32::MAX,
        },
        r is None ==> old(store).kinds()[ty.0 as int] is Named,
{
    proof {
        use_type_invariant(&*store);
        assert(children_below(store.kinds()[ty.0 as int], ty.0 as int));
    }
    let ghost nm = symbol_texts(names@);
    match store.kind(ty) {
        TyKind::Record { fields } => {
            let f = record_field_tys(names, fields);
            Some(Some(f))
        },
        TyKind::Range { bound } => {
            let f = range_field_tys(*bound, bool_);
            Some(Some(f))
        },
        TyKind::Named { name, args } => {
            let args = crate::ty::copy_ids(args);
            let text = symbol_string(names, *name);
            match defs.get(text.as_str()) {
                Some(def) => {
                    proof {
                        assert(data_def_in(store.kinds(), *def));
                    }
                    data_record_fields(store, def, &args, bits)
                },
                None => Some(None),
            }
        },
        _ => Some(None),
    }
}

/// The fields an expected type asks a record literal for: those of a
/// record type or of a record-shaped data type; a range asks for none.
pub open spec fn expected_record_ok(
    old_tys: Seq<TyNode>,
    new_tys: Seq<TyNode>,
    names: Seq<Seq<char>>,
    defs: Map<Seq<char>, SemaDataDef>,
    bool_: TyId,
    bits: Symbol,
    ty: TyId,
    r: Option<Map<Seq<char>, TyId>>,
) -> bool {
    if old_tys[ty.0 as int] is Range {
        new_tys == old_tys && r is None
    } else {
        record_like_ok(old_tys, new_tys, names, defs, bool_, bits, ty, r)
    }
}

/// The fields the expected type `ty` (with `mut` taken off) asks a record
/// literal for; `None` when the store had no room for a substituted type.
pub fn expected_record_fields(
    store: &mut TyStore,
    names: &Vec<String>,
    defs: &TextMap<SemaDataDef>,
    bool_: TyId,
    bits: Symbol,
    ty: TyId,
) -> (r: Option<Option<FieldTys>>)
    requires
        ty.0 < old(store).kinds().len(),
        data_defs_in(old(store).kinds(), defs.map()),
    ensures
        store_prefix(old(store).kinds(), final(store).kinds()),
        match r {
            Some(f) => expected_record_ok(
                old(store).kinds(),
                final(store).kinds(),
                symbol_texts(names@),
                defs.map(),
                bool_,
                bits,
                ty,
                field_tys_view(f),
            ),
            None => final(store).kinds().len() == u32::MAX,
        },
{
    if let TyKind::Range { .. } = store.kind(ty) {
        return Some(None);
    }
    record_like_fields(store, names, defs, bool_, bits, ty)
}

/// Where checking a record literal stands: the fields so far by name, the
/// names written out so far, and the data type a spread suggests.
pub struct RecordLitState {
    pub fields: FieldTys,
    pub seen_explicit: NameSet,
    pub inferred: Option<TyId>,
}

/// The type a record literal gets.
#[derive(Debug, Clone, Copy, PartialEq, Eq, Structural)]
pub enum RecordLitTy {
    /// The expected record-shaped data type.
    Expected(TyId),
    /// The data type a spread suggests, whose fields the literal has exactly.
    Inferred(TyId),
    /// A new record type of the literal's fields, in name order.
    Fresh,
}

/// The type a field written out is checked against: the expected record's
/// field of that name, else a field of that name the literal already has,
/// else the unknown type.
pub open spec fn expected_field_spec(expected: Option<Map<Seq<char>, TyId>>, fields: Map<Seq<char>, TyId>, name: Seq<char>, unknown: TyId) -> TyId {
    if expected matches Some(e) && e.contains_key(name) {
        expected->0[name]
    } else if fields.contains_key(name) {
        fields[name]
    } else {
        unknown
    }
}

/// The names of `expected`, in order, that `fields` lacks.
pub open spec fn missing_spec(expected: Seq<Seq<char>>, fields: Map<Seq<char>, TyId>) -> Seq<Seq<char>>
    decreases expected.len(),
{
    if expected.len() == 0 {
        Seq::empty()
    } else {
        let init = missing_spec(expected.drop_last(), fields);
        if fields.contains_key(expected.last()) {
            init
        } else {
            init.push(expected.last())
        }
    }
}

/// A record literal lacks no expected field exactly when it has every one,
/// and every field it lacks is an expected one it does not have.
pub proof fn lemma_missing_fields(expected: Seq<Seq<char>>, fields: Map<Seq<char>, TyId>)
    ensures
        missing_spec(expected, fields).len() == 0 <==> forall|k: int| 0 <= k < expected.len() ==> fields.contains_key(#[trigger] expected[k]),
        forall|j: int| 0 <= j < missing_spec(expected, fields).len() ==> expected.contains(#[trigger] missing_spec(expected, fields)[j])
            && !fields.contains_key(missing_spec(expected, fields)[j]),
    decreases expected.len(),
{
    if expected.len() > 0 {
        let init = expected.drop_last();
        lemma_missing_fields(init, fields);
        let m = missing_spec(expected, fields);
        assert forall|j: int| 0 <= j < m.len() implies expected.contains(#[trigger] m[j]) && !fields.contains_key(m[j]) by {
            if j < missing_spec(init, fields).len() {
                let q = choose|q: int| 0 <= q < init.len() && init[q] == m[j];
                assert(expected[q] == m[j]);
            } else {
                assert(expected[expected.len() - 1] == m[j]);
            }
        }
        if missing_spec(expected, fields).len() == 0 {
            assert forall|k: int| 0 <= k < expected.len() implies fields.contains_key(#[trigger] expected[k]) by {
                if k < init.len() {
                    assert(init[k] == expected[k]);
                }
            }
        }
        if forall|k: int| 0 <= k < expected.len() ==> fields.contains_key(#[trigger] expected[k]) {
            assert forall|k: int| 0 <= k < init.len() implies fields.contains_key(#[trigger] init[k]) by {
                assert(init[k] == expected[k]);
            }
            assert(fields.contains_key(expected[expected.len() - 1]));
        }
    }
}

/// The type of a record literal: the expected type when it is a
/// record-shaped data type; else the data type a spread suggested, when the
/// literal has exactly the fields it offers; else a new record type.
pub open spec fn literal_ty_ok(
    old_tys: Seq<TyNode>,
    new_tys: Seq<TyNode>,
    names: Seq<Seq<char>>,
    defs: Map<Seq<char>, SemaDataDef>,
    bool_: TyId,
    bits: Symbol,
    expected_ty: Option<TyId>,
    has_expected_record: bool,
    inferred: Option<TyId>,
    fields: Map<Seq<char>, TyId>,
    t: RecordLitTy,
) -> bool {
    if expected_ty matches Some(e) && has_expected_record && old_tys[e.0 as int] is Named {
        t == RecordLitTy::Expected(expected_ty->0)
    } else {
        match inferred {
            None => t == RecordLitTy::Fresh,
            Some(i) => exists|f: Option<Map<Seq<char>, TyId>>|
                #[trigger] record_like_ok(old_tys, new_tys, names, defs, bool_, bits, i, f) && t == if f matches Some(
                    m,
                ) && m.dom() == fields.dom() {
                    RecordLitTy::Inferred(i)
                } else {
                    RecordLitTy::Fresh
                },
        }
    }
}

impl RecordLitState {
    /// Before the first item.
    pub fn new() -> (s: Self)
        ensures
            s.fields.map() == Map::<Seq<char>, TyId>::empty(),
            s.seen_explicit@ == Set::<Seq<char>>::empty(),
            s.inferred is None,
    {
        RecordLitState { fields: TextMap::new(), seen_explicit: NameSet::new(), inferred: None }
    }

    /// Before the first item of a record update whose value offers the
    /// fields `fields`.
    pub fn from_fields(fields: FieldTys) -> (s: Self)
        ensures
            s.fields.map() == fields.map(),
            s.seen_explicit@ == Set::<Seq<char>>::empty(),
            s.inferred is None,
    {
        RecordLitState { fields, seen_explicit: NameSet::new(), inferred: None }
    }

    /// A spread of a value of type `ty` (with `mut` taken off): a data type
    /// suggests the literal's type, and the fields it offers are added,
    /// replacing fields of the same names. Whether it offers fields at all;
    /// `None` when the store had no room for a substituted type.
    pub fn spread(
        &mut self,
        store: &mut TyStore,
        names: &Vec<String>,
        defs: &TextMap<SemaDataDef>,
        bool_: TyId,
        bits: Symbol,
        ty: TyId,
    ) -> (r: Option<bool>)
        requires
            ty.0 < old(store).kinds().len(),
            data_defs_in(old(store).kinds(), defs.map()),
        ensures
            store_prefix(old(store).kinds(), final(store).kinds()),
            final(self).seen_explicit == old(self).seen_explicit,
            final(self).inferred == if old(store).kinds()[ty.0 as int] is Named {
                Some(ty)
            } else {
                old(self).inferred
            },
            r matches Some(ok) ==> exists|f: Option<Map<Seq<char>, TyId>>|
                #[trigger] record_like_ok(
                    old(store).kinds(),
                    final(store).kinds(),
                    symbol_texts(names@),
                    defs.map(),
                    bool_,
                    bits,
                    ty,
                    f,
                ) && ok == f is Some && final(self).fields.map() == match f {
                    Some(m) => old(self).fields.map().union_prefer_right(m),
                    None => old(self).fields.map(),
                },
    {
        if let TyKind::Named { .. } = store.kind(ty) {
            self.inferred = Some(ty);
        }
        let found = record_like_fields(store, names, defs, bool_, bits, ty)?;
        proof {
            assert(record_like_ok(
                old(store).kinds(),
                store.kinds(),
                symbol_texts(names@),
                defs.map(),
                bool_,
                bits,
                ty,
                field_tys_view(found),
            ));
        }
        match found {
            Some(f) => {
                let ghost before = self.fields.map();
                let mut i: usize = 0;
                proof {
                    use_type_invariant(&f);
                }
                while i < f.len()
                    invariant
                        i <= f.names().len(),
                        f.names().len() == f.values().len(),
                        crate::name_set::sorted_names(f.names()),
                        self.seen_explicit == old(self).seen_explicit,
                        self.inferred == (if old(store).kinds()[ty.0 as int] is Named {
                            Some(ty)
                        } else {
                            old(self).inferred
                        }),
                        self.fields.map() == before.union_prefer_right(
                            crate::text_map::entry_map(f.names().subrange(0, i as int), f.values().subrange(0, i as int)),
                        ),
                    decreases f.names().len() - i,
                {
                    let (k, v) = f.at(i);
                    self.fields.insert(k.clone(), *v);
                    proof {
                        crate::text_map::lemma_entry_map_push(f.names(), f.values(), i as int);
                        assert(self.fields.map() =~= before.union_prefer_right(
                            crate::text_map::entry_map(f.names().subrange(0, i + 1), f.values().subrange(0, i + 1)),
                        ));
                    }
                    i = i + 1;
                }
                proof {
                    assert(f.names().subrange(0, i as int) =~= f.names());
                    assert(f.values().subrange(0, i as int) =~= f.values());
                }
                Some(true)
            },
            None => Some(false),
        }
    }

    /// The type the field `name` written out is checked against, and
    /// whether an expected record lacks it.
    pub fn expected_field(&self, expected: &Option<FieldTys>, name: &str, unknown: TyId) -> (r: (TyId, bool))
        ensures
            r.0 == expected_field_spec(field_tys_view(*expected), self.fields.map(), name@, unknown),
            r.1 == (expected matches Some(e) && !e.map().contains_key(name@)),
    {
        let from_expected = match expected {
            Some(e) => match e.get(name) {
                Some(t) => Some(*t),
                None => None,
            },
            None => None,
        };
        let unknown_field = match expected {
            Some(e) => e.get(name).is_none(),
            None => false,
        };
        let ty = match from_expected {
            Some(t) => t,
            None => match self.fields.get(name) {
                Some(t) => *t,
                None => unknown,
            },
        };
        (ty, unknown_field)
    }

    /// The field `name` written out, checked as of type `found`: it replaces
    /// a field of the same name; whether the name was written out before.
    pub fn named_found(&mut self, name: String, found: TyId) -> (duplicate: bool)
        ensures
            final(self).fields.map() == old(self).fields.map().insert(name@, found),
            final(self).seen_explicit@ == old(self).seen_explicit@.insert(name@),
            final(self).inferred == old(self).inferred,
            duplicate == old(self).seen_explicit@.contains(name@),
    {
        let added = self.seen_explicit.insert(name.clone());
        self.fields.insert(name, found);
        !added
    }

    /// The fields an expected record asks for that the literal lacks, in
    /// name order.
    pub fn missing_fields(&self, expected: &Option<FieldTys>) -> (r: Vec<String>)
        ensures
            expected is None ==> r@.len() == 0,
            expected matches Some(e) ==> r@.map_values(|t: String| t@) == missing_spec(e.names(), self.fields.map()),
    {
        let mut out: Vec<String> = Vec::new();
        match expected {
            None => out,
            Some(e) => {
                let mut i: usize = 0;
                while i < e.len()
                    invariant
                        i <= e.names().len(),
                        out@.map_values(|t: String| t@) == missing_spec(e.names().subrange(0, i as int), self.fields.map()),
                    decreases e.names().len() - i,
                {
                    let (k, _) = e.at(i);
                    let ghost before = out@;
                    proof {
                        assert(e.names().subrange(0, i + 1).drop_last() =~= e.names().subrange(0, i as int));
                    }
                    if self.fields.get(k.as_str()).is_none() {
                        out.push(k.clone());
                        proof {
                            assert(out@.map_values(|t: String| t@) =~= before.map_values(|t: String| t@).push(k@));
                        }
                    }
                    i = i + 1;
                }
                proof {
                    assert(e.names().subrange(0, i as int) =~= e.names());
                }
                out
            },
        }
    }

    /// Whether `f` has the same field names as the literal.
    fn same_names(&self, f: &FieldTys) -> (r: bool)
        ensures
            r == (f.map().dom() == self.fields.map().dom()),
    {
        proof {
            use_type_invariant(f);
            use_type_invariant(&self.fields);
        }
        let mut i: usize = 0;
        while i < f.len()
            invariant
                i <= f.names().len(),
                f.names().len() == f.values().len(),
                forall|j: int| 0 <= j < i ==> self.fields.map().contains_key(#[trigger] f.names()[j]),
            decreases f.names().len() - i,
        {
            let (k, _) = f.at(i);
            if self.fields.get(k.as_str()).is_none() {
                proof {
                    crate::text_map::lemma_entry_map_dom(f.names(), f.values());
                    assert(f.names().contains(f.names()[i as int]));
                    assert(f.map().contains_key(f.names()[i as int]));
                }
                return false;
            }
            i = i + 1;
        }
        let mut j: usize = 0;
        while j < self.fields.len()
            invariant
                j <= self.fields.names().len(),
                self.fields.names().len() == self.fields.values().len(),
                forall|q: int| 0 <= q < j ==> f.map().contains_key(#[trigger] self.fields.names()[q]),
            decreases self.fields.names().len() - j,
        {
            let (k, _) = self.fields.at(j);
            if f.get(k.as_str()).is_none() {
                proof {
                    crate::text_map::lemma_entry_map_dom(self.fields.names(), self.fields.values());
                    assert(self.fields.names().contains(self.fields.names()[j as int]));
                    assert(self.fields.map().contains_key(self.fields.names()[j as int]));
                }
                return false;
            }
            j = j + 1;
        }
        proof {
            crate::text_map::lemma_entry_map_dom(f.names(), f.values());
            crate::text_map::lemma_entry_map_dom(self.fields.names(), self.fields.values());
            assert forall|k: Seq<char>| f.map().dom().contains(k) <==> self.fields.map().dom().contains(k) by {
                if f.map().dom().contains(k) {
                    let q = f.names().index_of(k);
                    assert(f.names()[q] == k);
                }
                if self.fields.map().dom().contains(k) {
                    let q = self.fields.names().index_of(k);
                    assert(self.fields.names()[q] == k);
                }
            }
            assert(f.map().dom() =~= self.fields.map().dom());
        }
        true
    }

    /// The type of the literal, where `expected_ty` is the expected type with
    /// `mut` taken off and `has_expected_record` tells whether it asked for
    /// fields; `None` when the store had no room for a substituted type.
    pub fn literal_ty(
        &self,
        store: &mut TyStore,
        names: &Vec<String>,
        defs: &TextMap<SemaDataDef>,
        bool_: TyId,
        bits: Symbol,
        expected_ty: Option<TyId>,
        has_expected_record: bool,
    ) -> (r: Option<RecordLitTy>)
        requires
            expected_ty matches Some(e) ==> e.0 < old(store).kinds().len(),
            self.inferred matches Some(t) ==> t.0 < old(store).kinds().len(),
            data_defs_in(old(store).kinds(), defs.map()),
        ensures
            store_prefix(old(store).kinds(), final(store).kinds()),
            r matches Some(t) ==> literal_ty_ok(
                old(store).kinds(),
                final(store).kinds(),
                symbol_texts(names@),
                defs.map(),
                bool_,
                bits,
                expected_ty,
                has_expected_record,
                self.inferred,
                self.fields.map(),
                t,
            ),
            r is None ==> (self.inferred matches Some(t) && old(store).kinds()[t.0 as int] is Named
                && final(store).kinds().len() == u32::MAX),
    {
        if let Some(e) = expected_ty {
            if has_expected_record {
                if let TyKind::Named { .. } = store.kind(e) {
                    return Some(RecordLitTy::Expected(e));
                }
            }
        }
        match self.inferred {
            None => Some(RecordLitTy::Fresh),
            Some(t) => {
                let found = record_like_fields(store, names, defs, bool_, bits, t)?;
                proof {
                    assert(record_like_ok(
                        old(store).kinds(),
                        store.kinds(),
                        symbol_texts(names@),
                        defs.map(),
                        bool_,
                        bits,
                        t,
                        field_tys_view(found),
                    ));
                }
                match found {
                    Some(f) => {
                        if self.same_names(&f) {
                            Some(RecordLitTy::Inferred(t))
                        } else {
                            Some(RecordLitTy::Fresh)
                        }
                    },
                    None => Some(RecordLitTy::Fresh),
                }
            },
        }
    }
}

/// The type a record update gets, and the bound checks it asks for.
#[derive(Debug, Clone, Copy, PartialEq, Eq, Structural)]
pub enum UpdateTy {
    /// A range of this bound type, to be added to the store; each present
    /// bound field is checked against the bound type.
    Range { bound: TyId, lower: Option<TyId>, upper: Option<TyId> },
    /// The updated data type itself.
    Base(TyId),
    /// A new record type of the fields, in name order.
    Fresh,
}

/// The type of a record update of a value of type `base` (with `mut` taken
/// off) that ends with the fields `fields`: a range stays a range of its
/// bound type, a data type that offers fields stays itself, anything else
/// becomes a new record type.
pub open spec fn update_ty_spec(
    tys: Seq<TyNode>,
    base: TyId,
    base_fields: Option<Map<Seq<char>, TyId>>,
    fields: Map<Seq<char>, TyId>,
) -> UpdateTy {
    match tys[base.0 as int] {
        TyNode::Range { bound } => UpdateTy::Range {
            bound,
            lower: if fields.contains_key("lowerBound"@) {
                Some(fields["lowerBound"@])
            } else {
                None
            },
            upper: if fields.contains_key("upperBound"@) {
                Some(fields["upperBound"@])
            } else {
                None
            },
        },
        TyNode::Named { .. } => if base_fields is Some {
            UpdateTy::Base(base)
        } else {
            UpdateTy::Fresh
        },
        _ => UpdateTy::Fresh,
    }
}

/// The type of a record update of a value of type `base` whose fields end
/// as `fields`; `None` when the store had no room for a substituted type.
pub fn record_update_ty(
    store: &mut TyStore,
    names: &Vec<String>,
    defs: &TextMap<SemaDataDef>,
    bool_: TyId,
    bits: Symbol,
    base: TyId,
    fields: &FieldTys,
) -> (r: Option<UpdateTy>)
    requires
        base.0 < old(store).kinds().len(),
        data_defs_in(old(store).kinds(), defs.map()),
    ensures
        store_prefix(old(store).kinds(), final(store).kinds()),
        r matches Some(t) ==> exists|f: Option<Map<Seq<char>, TyId>>|
            #[trigger] record_like_ok(
                old(store).kinds(),
                final(store).kinds(),
                symbol_texts(names@),
                defs.map(),
                bool_,
                bits,
                base,
                f,
            ) && t == update_ty_spec(old(store).kinds(), base, f, fields.map()),
        r is None ==> old(store).kinds()[base.0 as int] is Named && final(store).kinds().len() == u32::MAX,
{
    let ghost old_tys = store.kinds();
    let is_range = match store.kind(base) {
        TyKind::Range { bound } => Some(*bound),
        _ => None,
    };
    let is_named = if let TyKind::Named { .. } = store.kind(base) {
        true
    } else {
        false
    };
    let base_fields = record_like_fields(store, names, defs, bool_, bits, base)?;
    proof {
        assert(record_like_ok(old_tys, store.kinds(), symbol_texts(names@), defs.map(), bool_, bits, base, field_tys_view(base_fields)));
    }
    match is_range {
        Some(bound) => {
            let lower = match fields.get("lowerBound") {
                Some(t) => Some(*t),
                None => None,
            };
            let upper = match fields.get("upperBound") {
                Some(t) => Some(*t),
                None => None,
            };
            Some(UpdateTy::Range { bound, lower, upper })
        },
        None => {
            if is_named && base_fields.is_some() {
                Some(UpdateTy::Base(base))
            } else {
                Some(UpdateTy::Fresh)
            }
        },
    }
}

} // verus!
