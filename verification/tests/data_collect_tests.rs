use lib::data_collect::{
    collect_data_variants, validate_shape_decl_members, LoweredVariant, RecordField, ShapeMemberDecl,
    ShapeMemberKind, VariantIssue,
};
use lib::diag::SemaDiagKind;
use lib::facts::SemaDataVariantDef;
use lib::ty::{Symbol, TyId};

fn variant(name: &str, tag: i64, mixed: bool) -> LoweredVariant {
    LoweredVariant {
        name: name.to_string(),
        tag_value: tag,
        def: SemaDataVariantDef::new(tag, None, None, vec![], vec![]),
        mixed_payload: mixed,
    }
}

#[test]
fn variants_are_collected_by_name_with_their_issues() {
    let variants = vec![
        variant("Red", 0, false),
        variant("Green", 1, true),
        variant("Red", 1, false),
        variant("Blue", 2, false),
        variant("Red", 3, false),
    ];
    let (map, issues) = collect_data_variants("Color", variants, &vec![]);
    assert_eq!(map.len(), 3);
    assert_eq!(map.get("Red").map(SemaDataVariantDef::tag), Some(3));
    assert_eq!(map.get("Green").map(SemaDataVariantDef::tag), Some(1));
    assert_eq!(map.get("Color"), None);
    assert_eq!(issues[0], vec![]);
    assert_eq!(issues[1], vec![VariantIssue::MixedPayloadStyle]);
    assert_eq!(
        issues[2],
        vec![
            VariantIssue::DuplicateDiscriminant { value: 1 },
            VariantIssue::DuplicateVariant { previous: 0 },
        ]
    );
    assert_eq!(issues[3], vec![]);
    assert_eq!(issues[4], vec![VariantIssue::DuplicateVariant { previous: 2 }]);
}

#[test]
fn a_declaration_without_variants_is_a_record() {
    let fields = vec![
        RecordField { name: "x".to_string(), ty: TyId(1) },
        RecordField { name: "y".to_string(), ty: TyId(2) },
    ];
    let (map, issues) = collect_data_variants("Point", vec![], &fields);
    assert!(issues.is_empty());
    assert_eq!(map.len(), 1);
    let point = map.get("Point").expect("the record variant");
    assert_eq!(point.tag(), 0);
    assert_eq!(point.payload(), None);
    assert_eq!(point.field_tys(), &vec![TyId(1), TyId(2)]);
    assert_eq!(point.field_names(), &vec![Some("x".to_string()), Some("y".to_string())]);
    let (empty, _) = collect_data_variants("Unit", vec![], &vec![]);
    assert_eq!(empty.len(), 0);
}

#[test]
fn repeated_shape_members_and_laws_are_reported() {
    let member = |kind, n| ShapeMemberDecl { kind, name: Symbol(n) };
    let members = vec![
        member(ShapeMemberKind::Let, 0),
        member(ShapeMemberKind::Law, 0),
        member(ShapeMemberKind::Let, 1),
        member(ShapeMemberKind::Let, 0),
        member(ShapeMemberKind::Law, 0),
    ];
    assert_eq!(
        validate_shape_decl_members(&members),
        vec![
            None,
            None,
            None,
            Some(SemaDiagKind::CollectDuplicateShapeMember),
            Some(SemaDiagKind::CollectDuplicateShapeLaw),
        ]
    );
}
