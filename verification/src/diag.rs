//! The kinds of diagnostic that semantic checking reports.
use vstd::prelude::*;

verus! {

/// A kind of semantic diagnostic.
#[derive(Debug, Clone, Copy, PartialEq, Eq, Hash, Structural)]
pub enum SemaDiagKind {
    AttrDuplicateRepr,
    AttrReprRequiresKindString,
    AttrLayoutArgRequiresName,
    AttrDuplicateLayoutAlign,
    AttrLayoutAlignRequiresU32,
    AttrDuplicateLayoutPack,
    AttrLayoutPackRequiresU32,
    AttrUnknownArg,
    AttrBuiltinRequiresPlainBindLet,
    AttrBuiltinRequiresNameString,
    AttrBuiltinRequiresFoundationModule,
    AttrBuiltinRequiresExport,
    AttrBuiltinUnknownName,
    AttrIntrinsicRequiresNameString,
    AttrIntrinsicRequiresIntrinsicsModule,
    AttrIntrinsicRequiresForeignLet,
    AttrLinkRequiresForeignLet,
    AttrDataLayoutRequiresDataTarget,
    AttrFrozenRequiresExportedNonOpaqueData,
    AttrHotColdRequiresCallable,
    AttrHotColdConflict,
    AttrDeprecatedRequiresStringValue,
    AttrSinceRequiresVersionString,
    AttrOpaqueRequiresStructuralExport,
    AttrIntrinsicUnknownName,
    AttrForeignRequiresForeignLet,
    AttrLinkRequiresStringValue,
    AttrWhenRequiresStringValue,
    AttrWhenRequiresStringList,
    ForeignSignatureRequired,
    InvalidPartialModifier,
    PartialForeignConflict,
    InvalidFfiType,
    LawMustBePure,
    CollectDuplicateDataVariant,
    DuplicateDataVariantDiscriminant,
    InvalidDataVariantDiscriminant,
    CyclicDataVariantDiscriminant,
    RuntimeValueInComptimeContext,
    CollectDuplicateEffectOp,
    CollectDuplicateEffectLaw,
    CollectDuplicateShapeMember,
    CollectDuplicateShapeLaw,
    UnknownExport,
    InvalidRequestTarget,
    UnknownEffect,
    DuplicateHandlerClause,
    UnknownEffectOp,
    HandlerClauseArityMismatch,
    HandleRequiresSingleValueClause,
    HandlerMissingOperationClause,
    ResumeOutsideHandlerClause,
    EffectNotDeclared,
    GivenMemberArityMismatch,
    UnknownGivenMember,
    GivenMemberValueRequired,
    DuplicateGivenMember,
    MissingGivenMember,
    InvalidGivenTarget,
    SealedShape,
    UnknownShape,
    DuplicateGiven,
    PlainLetRequiresIrrefutablePattern,
    ImportRecordDestructuringRequiresImportRecord,
    RecordDestructuringRequiresRecord,
    CallableLetRequiresSimpleBindingPattern,
    ArraySpreadRequiresOneDimensionalArray,
    InvalidSpreadSource,
    DuplicateRecordField,
    MissingRecordField,
    VariantMissingDataContext,
    VariantConstructorArityMismatch,
    VariantNamedFieldsRequired,
    VariantNamedFieldsUnexpected,
    DuplicateVariantField,
    MissingVariantField,
    UnknownVariantField,
    MixedVariantPayloadStyle,
    InvalidVariantArity,
    UnknownDataVariant,
    RecordLiteralRequiresNamedFields,
    ArrayLiteralLengthUnknownFromRuntimeSpread,
    ArrayLiteralLengthMismatch,
    SumConstructorArityMismatch,
    InvalidIndexArgCount,
    InvalidCallTarget,
    CallArityMismatch,
    CallPositionalAfterNamedArgument,
    CallSpreadAfterNamedArgument,
    CallNamedArgumentUnknown,
    CallNamedArgumentDuplicate,
    CallNamedArgumentAlreadyProvided,
    CallNamedArgumentsAfterRuntimeSpread,
    CallNamedSpreadArgument,
    UnsafeCallRequiresUnsafeBlock,
    PinRequiresUnsafeBlock,
    UnsupportedPinTarget,
    PinnedValueEscapes,
    PinnedValueCapturedByClosure,
    InvalidTypeApplication,
    CallRuntimeSpreadRequiresArrayAny,
    CallSpreadRequiresTupleOrArray,
    DeclarationUsedAsValue,
    TargetGateRejected,
    InvalidIndexTarget,
    UnknownField,
    AmbiguousDotCallable,
    DotCallableRequiresMutableReceiver,
    InvalidFieldTarget,
    InvalidRecordUpdateTarget,
    MutForbiddenInTypeTestTarget,
    MutForbiddenInTypeCastTarget,
    WriteTargetRequiresMut,
    UnsupportedAssignmentTarget,
    NumericOperandRequired,
    BinaryOperatorHasNoExecutableLowering,
    LogicalOperatorDomainMismatch,
    UnaryLogicalOperatorDomainMismatch,
    InvalidBitsWidth,
    TypeMismatch,
    InvalidTypeExpression,
    TypeApplicationArityMismatch,
    ArrayTypeRequiresItem,
    AmbiguousVariantTag,
    VariantPatternArityMismatch,
    OrPatternBindersMismatch,
    UnsatisfiedConstraint,
    AmbiguousGivenMatch,
    ConstrainedNonCallableBinding,
    ExportedCallableRequiresConcreteConstraints,
}

} // verus!
