//! Why a schema declaration is refused.

use vstd::prelude::*;

verus! {

/// The dependency role a controller field plays for a later field.
#[derive(Clone, Copy, Debug, PartialEq, Eq, Structural)]
pub enum ControllerRole {
    ByteLength,
    FieldPosition,
    ItemCount,
    BitProjection,
}

/// One reason a schema is refused.
#[derive(Clone, Copy, Debug, PartialEq, Eq, Structural)]
pub enum ErrorKind {
    // --- attributes ---
    /// An item-level `#[wire(..)]` key that the schema kind does not know.
    UnsupportedSchemaAttribute,
    /// A field-level `#[wire(..)]` key that no field accepts.
    UnsupportedFieldAttribute,
    DuplicateEndian,
    DuplicateAs,
    AsNotPrimitive,
    DuplicateConstant,
    DuplicateBytes,
    DuplicateRest,
    DuplicatePadBefore,
    DuplicateAlignBefore,
    DuplicateCountedBy,
    DuplicateAt,
    DuplicateFlag,
    DuplicateDependsOn,
    DuplicateBitsOf,
    DuplicateBitRange,
    DuplicateComputed,
    /// `bits = ..` is not a range expression.
    BitsNotRange,
    /// `bits = A..B` is half-open.
    BitsNotInclusive,
    BitsNoStart,
    BitsNoEnd,
    /// A bound of `bits` is not an integer literal.
    BitBoundNotInteger,
    /// A bit range whose start exceeds its end.
    BitStartAfterEnd,
    /// An integer literal does not fit its target integer type.
    IntegerTooLarge,
    /// A computed callback that is not a call expression.
    ComputedNotCall,
    /// A computed callback whose callee is not a path.
    ComputedNotNamed,
    // --- one field's declaration ---
    OneByteEndian,
    MissingEndian,
    BytesAndRest,
    RestNotLast,
    AtWithPadding,
    AtNotLiteralOrField,
    AtNotInteger,
    AtBeforeCursor { requested: usize, current: usize },
    AlignZero,
    ComputedNotScalar,
    ComputedBitProjection,
    BitsOfWithoutRange,
    BitWithoutBitsOf,
    FlagNotPlainBool,
    ScalarDynamicExtent,
    AsOnPrimitive,
    AsRequired,
    AsUnsignedRequired,
    IsizeAsRequired,
    IsizeSignedRequired,
    CustomConstant,
    ComputedConstant,
    FixedArrayNotPrimitive,
    FixedArrayDynamicExtent,
    ByteArrayEndianOrAs,
    ScalarArrayAttributes,
    RecursiveAttributes,
    ArrayAttributes,
    ArrayNeedsCountedBy,
    RawBytesAttributes,
    RawBytesNeedsExtent,
    NestedAttributes,
    BitProjectionType,
    BitProjectionAttributes,
    BitControllerNotEarlier,
    BitControllerNotFixedUnsigned,
    BitControllerTooNarrow,
    BitRangesOverlap,
    // --- controllers ---
    ControllerUnknown { role: ControllerRole },
    ControllerNotEarlier { role: ControllerRole },
    ControllerGeometry { role: ControllerRole },
    ControllerNotInteger { role: ControllerRole },
    ControllerNotUnsigned { role: ControllerRole },
    ControllerConstant { role: ControllerRole },
    // --- whole-schema rules ---
    ComputedConditional,
    ComputedPlacement,
    ComputedDynamicOffset,
    PresenceControllerShared,
    FlagControllerUnknown,
    FlagControllerNotEarlier,
    FlagControllerNotScalar,
    FlagControllerNotPlainBool,
    PresenceControllerGeometry,
    ConditionUnknown,
    ConditionNotEarlierFlag,
    ConditionalGeometry,
    ConditionalNotScalar,
    ConditionalNotDirect,
    FlagWithoutDependents,
    ConditionalNotContiguous,
    LengthAndPosition,
    CountControllerShared,
    ArrayConditional,
    CountControllerOtherRole,
    BitControllerOtherRole,
    ComputedControlsGeometry,
    ComputedCycle,
    ComputedCallbackNotCall,
    SimpleNameExpected,
    SelectionOperation,
    SelectionNamedFields,
    SelectionPhysicalPaths,
    ComputedArgument,
    ComputedUnknownField,
    /// A schema struct whose fields are not named.
    NamedStructRequired,
    /// A schema declaration that is not a struct.
    StructRequired,
    // --- recursive object bodies ---
    RecursiveValidators,
    RecursiveWithoutContinuation,
    RecursiveTooManyContinuations,
    RecursiveNotSequential,
    RecursiveRootNotParameter,
    RecursiveFieldUnsupported,
    // --- recursive demand bodies ---
    DemandShape,
    DemandControllerNotScalar,
    DemandControllerNotStored,
    DemandLeftNotRecursive,
    DemandBytesNotBounded,
    DemandScalarMissing,
    DemandScalarNotDirect,
    DemandRightNotRecursive,
    DemandChildRoot,
    DemandBytesController,
    DemandPlacement,
    // --- the root slot of a recursive enum body ---
    RootSlotNotPath,
    RootSlotQualified,
    RootSlotEmpty,
    RootSlotNotAngleBracketed,
    RootSlotRepeated,
    RootSlotIndirect,
    RootSlotMissing,
    // --- nominal bitfields ---
    BitfieldAttribute,
    BitfieldDuplicateAs,
    BitfieldMissingAs,
    BitfieldFieldAttribute,
    BitfieldBitsNotRange,
    BitfieldBitsNoStart,
    BitfieldBitsNoEnd,
    BitfieldBitsNotInclusive,
    BitfieldBoundNotInteger,
    BitfieldRangeMissing,
    PrimitiveIntegerExpected,
    BitfieldNotUnsigned,
    BitfieldNotStruct,
    BitfieldNotNamed,
    BitfieldRangeTooWide,
    BitfieldSingleBitType,
    BitfieldMultiBitType,
    BitfieldLogicalTooNarrow,
    BitfieldRangesOverlap,
    BitfieldEmpty,
    // --- selector enums ---
    EnumAttribute,
    DuplicateSelector,
    MissingSelector,
    SelectorNotPrimitive,
    SelectorUnsupported,
    SelectorNotUnsigned,
    EnumRequired,
    DuplicateSelectorValue,
    DuplicateUnknownMarker,
    VariantAttribute,
    UnknownRepeated,
    VariantBodyShape,
    UnknownWithValue,
    UnknownBodyNotBytes,
    KnownWithoutValue,
    NoKnownVariant,
    UnknownNameReserved,
    // --- rendering computed callbacks ---
    SelectionOperationRequired,
    SelectionEmpty,
    SelfNotRoot,
    ComputedArgumentForm,
    // --- recursive enums ---
    RecursiveEnumGenerics,
    RecursiveEnumUnknown,
    RecursiveEnumBuilder,
    /// The bit range `0..=u32::MAX`, whose width does not fit in `u32`: the
    /// derive stops there with an arithmetic overflow.
    BitRangeOverflow,
}

/// A refusal, with the field it is about (by position) and the identifier
/// its message names (a controller), if any.
#[derive(Debug, PartialEq, Eq)]
pub struct SchemaError {
    pub field: Option<usize>,
    pub kind: ErrorKind,
    pub subject: Option<String>,
}

} // verus!
