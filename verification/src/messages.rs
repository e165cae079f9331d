//! The text of each refusal, as the derives report it.

use vstd::prelude::*;
use crate::errors::{ControllerRole, ErrorKind};
use crate::text::{concat, decimal, spec_decimal};

verus! {

/// The name of a controller role in refusal texts.
pub open spec fn spec_role_name(role: ControllerRole) -> Seq<char> {
    match role {
        ControllerRole::ByteLength => "byte length"@,
        ControllerRole::FieldPosition => "field position"@,
        ControllerRole::ItemCount => "item count"@,
        ControllerRole::BitProjection => "bit projection"@,
    }
}

/// The name of a controller role in refusal texts.
pub fn role_name(role: ControllerRole) -> (r: &'static str)
    ensures
        r@ == spec_role_name(role),
{
    match role {
        ControllerRole::ByteLength => "byte length",
        ControllerRole::FieldPosition => "field position",
        ControllerRole::ItemCount => "item count",
        ControllerRole::BitProjection => "bit projection",
    }
}

/// The text of a refusal; `owner` names the derive, `subject` the
/// controller it is about (empty when there is none).
pub open spec fn spec_message(kind: ErrorKind, owner: Seq<char>, subject: Seq<char>) -> Seq<char> {
    match kind {
        ErrorKind::UnsupportedSchemaAttribute => "unsupported "@ + owner + " schema attribute"@,
        ErrorKind::UnsupportedFieldAttribute => "unsupported schema field attribute"@,
        ErrorKind::DuplicateEndian => "duplicate or conflicting endian attribute"@,
        ErrorKind::DuplicateAs => "duplicate `as` wire type"@,
        ErrorKind::AsNotPrimitive => "`as` requires a fixed-width primitive scalar type"@,
        ErrorKind::DuplicateConstant => "duplicate constant attribute"@,
        ErrorKind::DuplicateBytes => "duplicate `bytes` controller"@,
        ErrorKind::DuplicateRest => "duplicate `rest` attribute"@,
        ErrorKind::DuplicatePadBefore => "duplicate `pad_before` attribute"@,
        ErrorKind::DuplicateAlignBefore => "duplicate `align_before` attribute"@,
        ErrorKind::DuplicateCountedBy => "duplicate `counted_by` controller"@,
        ErrorKind::DuplicateAt => "duplicate `at` attribute"@,
        ErrorKind::DuplicateFlag => "duplicate `flag` controller"@,
        ErrorKind::DuplicateDependsOn => "duplicate `depends_on` condition"@,
        ErrorKind::DuplicateBitsOf => "duplicate `bits_of` controller"@,
        ErrorKind::DuplicateBitRange => "duplicate or conflicting bit range"@,
        ErrorKind::DuplicateComputed => "duplicate or conflicting computed callback"@,
        ErrorKind::BitsNotRange => "`bits` requires an inclusive integer range"@,
        ErrorKind::BitsNotInclusive => "`bits` range must be inclusive"@,
        ErrorKind::BitsNoStart => "`bits` range requires a start"@,
        ErrorKind::BitsNoEnd => "`bits` range requires an end"@,
        ErrorKind::BitBoundNotInteger => "bit bounds must be integer literals"@,
        ErrorKind::BitStartAfterEnd => "bit range start must not exceed end"@,
        ErrorKind::IntegerTooLarge => "number too large to fit in target type"@,
        ErrorKind::ComputedNotCall => "computed callback must be a function call"@,
        ErrorKind::ComputedNotNamed => "computed callback must name a function"@,
        ErrorKind::OneByteEndian => "one-byte scalar fields do not accept an endian attribute"@,
        ErrorKind::MissingEndian => "multi-byte scalar wire fields require #[wire(le)] or #[wire(be)]"@,
        ErrorKind::BytesAndRest => "`bytes` and `rest` are mutually exclusive"@,
        ErrorKind::RestNotLast => "`rest` is only valid on the final physical field"@,
        ErrorKind::AtWithPadding => "`at` cannot be combined with `pad_before` or `align_before`"@,
        ErrorKind::AtNotLiteralOrField => "`at` requires an integer literal or a physically earlier unsigned field"@,
        ErrorKind::AtNotInteger => "`at` requires an integer literal"@,
        ErrorKind::AtBeforeCursor { requested, current } => "static `at` position "@ + spec_decimal(requested as nat) + " precedes cursor "@ + spec_decimal(current as nat),
        ErrorKind::AlignZero => "`align_before` must be nonzero"@,
        ErrorKind::ComputedNotScalar => "computed destinations must be scalar fields"@,
        ErrorKind::ComputedBitProjection => "computed fields cannot be logical bit projections"@,
        ErrorKind::BitsOfWithoutRange => "`bits_of` requires `bit = N` or `bits = A..=B`"@,
        ErrorKind::BitWithoutBitsOf => "`bit` and `bits` require `bits_of = earlier_field`"@,
        ErrorKind::FlagNotPlainBool => "logical flag fields must be plain bool fields"@,
        ErrorKind::ScalarDynamicExtent => "scalar fields do not accept dynamic extent or count attributes"@,
        ErrorKind::AsOnPrimitive => "`as` is only used for Rust types without an implicit wire width"@,
        ErrorKind::AsRequired => "this Rust type requires an explicit unsigned `as` wire type"@,
        ErrorKind::AsUnsignedRequired => "this Rust type requires an unsigned integer wire type"@,
        ErrorKind::IsizeAsRequired => "isize requires an explicit signed `as` wire type"@,
        ErrorKind::IsizeSignedRequired => "isize requires a signed integer wire type"@,
        ErrorKind::CustomConstant => "custom TryFrom scalar fields do not support stored constants"@,
        ErrorKind::ComputedConstant => "computed fields cannot also be constants"@,
        ErrorKind::FixedArrayNotPrimitive => "fixed wire arrays require primitive scalar elements"@,
        ErrorKind::FixedArrayDynamicExtent => "fixed arrays do not accept dynamic extent or count attributes"@,
        ErrorKind::ByteArrayEndianOrAs => "fixed byte arrays do not accept endian or `as` attributes"@,
        ErrorKind::ScalarArrayAttributes => "fixed scalar arrays do not accept `as`, constant, or computed attributes"@,
        ErrorKind::RecursiveAttributes => "recursive fields do not accept scalar, extent, dependency, or placement attributes"@,
        ErrorKind::ArrayAttributes => "runtime arrays do not accept scalar or byte-extent attributes"@,
        ErrorKind::ArrayNeedsCountedBy => "`wire::Array<T>` requires `counted_by = earlier_field`"@,
        ErrorKind::RawBytesAttributes => "raw byte fields do not accept scalar wire attributes"@,
        ErrorKind::RawBytesNeedsExtent => "`wire::Bytes` requires `bytes = earlier_field` or `rest`"@,
        ErrorKind::NestedAttributes => "nested schema fields do not accept scalar wire attributes or `rest`"@,
        ErrorKind::BitProjectionType => "bit projections require bool for one bit or a sufficiently wide unsigned integer"@,
        ErrorKind::BitProjectionAttributes => "bit projection fields cannot declare independent physical attributes"@,
        ErrorKind::BitControllerNotEarlier => "bit projection controller must be physically earlier"@,
        ErrorKind::BitControllerNotFixedUnsigned => "bit projection controller must be an unsigned fixed-width scalar"@,
        ErrorKind::BitControllerTooNarrow => "bit projection controller is not wide enough for the range"@,
        ErrorKind::BitRangesOverlap => "bit projection ranges cannot overlap"@,
        ErrorKind::ControllerUnknown { role } => spec_role_name(role) + " controller `"@ + subject + "` is not a schema field"@,
        ErrorKind::ControllerNotEarlier { role } => spec_role_name(role) + " controller `"@ + subject + "` must be physically earlier"@,
        ErrorKind::ControllerGeometry { role } => spec_role_name(role) + " controller `"@ + subject + "` must have fixed sequential geometry"@,
        ErrorKind::ControllerNotInteger { role } => spec_role_name(role) + " controller `"@ + subject + "` must be an integer scalar"@,
        ErrorKind::ControllerNotUnsigned { role } => spec_role_name(role) + " controller `"@ + subject + "` must be an unsigned integer"@,
        ErrorKind::ControllerConstant { role } => spec_role_name(role) + " controller `"@ + subject + "` cannot be a constant"@,
        ErrorKind::ComputedConditional => "computed destinations cannot be conditional"@,
        ErrorKind::ComputedPlacement => "computed destinations cannot declare placement geometry"@,
        ErrorKind::ComputedDynamicOffset => "computed destinations must have a fixed offset before demand geometry"@,
        ErrorKind::PresenceControllerShared => "presence controller `"@ + subject + "` cannot define multiple logical groups"@,
        ErrorKind::FlagControllerUnknown => "logical flag controller is not a schema field"@,
        ErrorKind::FlagControllerNotEarlier => "logical flag controller must be physically earlier"@,
        ErrorKind::FlagControllerNotScalar => "logical flag controller must be a bool scalar"@,
        ErrorKind::FlagControllerNotPlainBool => "logical flag controller must be a nonconstant bool scalar"@,
        ErrorKind::PresenceControllerGeometry => "presence controller must have fixed sequential geometry"@,
        ErrorKind::ConditionUnknown => "condition does not name a logical flag field"@,
        ErrorKind::ConditionNotEarlierFlag => "condition must name a physically earlier logical flag field"@,
        ErrorKind::ConditionalGeometry => "conditional dependent fields cannot declare independent geometry"@,
        ErrorKind::ConditionalNotScalar => "this conditional-group vertical currently requires scalar dependent fields"@,
        ErrorKind::ConditionalNotDirect => "conditional dependent scalars must have direct nonconstant representations"@,
        ErrorKind::FlagWithoutDependents => "logical flag has no dependent fields"@,
        ErrorKind::ConditionalNotContiguous => "conditional group fields must be contiguous immediately after their logical flag"@,
        ErrorKind::LengthAndPosition => "controller `"@ + subject + "` cannot control both byte length and field position before the controller DAG ships"@,
        ErrorKind::CountControllerShared => "item count controller `"@ + subject + "` cannot control multiple arrays"@,
        ErrorKind::ArrayConditional => "runtime arrays cannot be conditional in this vertical"@,
        ErrorKind::CountControllerOtherRole => "item count controller cannot control another dependency role"@,
        ErrorKind::BitControllerOtherRole => "bit projection controller cannot control another dependency role"@,
        ErrorKind::ComputedControlsGeometry => "computed fields cannot control representation geometry"@,
        ErrorKind::ComputedCycle => "computed field dependency cycle"@,
        ErrorKind::ComputedCallbackNotCall => "computed callback must be a call"@,
        ErrorKind::SimpleNameExpected => "expected a simple field name"@,
        ErrorKind::SelectionOperation => "selection operation must be include or exclude"@,
        ErrorKind::SelectionNamedFields => "selection paths require named fields"@,
        ErrorKind::SelectionPhysicalPaths => "selection fields must be physical field paths"@,
        ErrorKind::ComputedArgument => "computed arguments must be logical fields or selections"@,
        ErrorKind::ComputedUnknownField => "computed callback references an unknown field"@,
        ErrorKind::NamedStructRequired => owner + " supports named schema structs only"@,
        ErrorKind::StructRequired => owner + " supports schema structs only"@,
        ErrorKind::RecursiveValidators => "recursive object bodies currently do not support schema validators"@,
        ErrorKind::RecursiveWithoutContinuation => "recursive object body requires at least one wire::Recursive<T> field"@,
        ErrorKind::RecursiveTooManyContinuations => "recursive object body has too many continuation fields"@,
        ErrorKind::RecursiveNotSequential => "recursive object bodies currently require fixed sequential nonrecursive fields"@,
        ErrorKind::RecursiveRootNotParameter => "recursive object field must name the body's direct root type parameter"@,
        ErrorKind::RecursiveFieldUnsupported => "recursive object bodies currently support recursive markers, plain fixed scalars, and fixed byte arrays"@,
        ErrorKind::DemandShape => "recursive demand body currently requires controller, child, bounded bytes, scalar, child"@,
        ErrorKind::DemandControllerNotScalar => "recursive demand controller must be an unsigned scalar"@,
        ErrorKind::DemandControllerNotStored => "recursive demand controller must be a stored unsigned scalar"@,
        ErrorKind::DemandLeftNotRecursive | ErrorKind::DemandRightNotRecursive => "expected recursive child"@,
        ErrorKind::DemandBytesNotBounded => "expected bounded bytes"@,
        ErrorKind::DemandScalarMissing => "expected fixed scalar"@,
        ErrorKind::DemandScalarNotDirect => "recursive demand scalar must use its direct stored representation"@,
        ErrorKind::DemandChildRoot => "recursive demand children must use the direct root parameter"@,
        ErrorKind::DemandBytesController => "recursive demand bytes must use the leading controller"@,
        ErrorKind::DemandPlacement => "recursive demand placement is supported only as padding/alignment before the fixed scalar"@,
        ErrorKind::RootSlotNotPath => "recursive enum bodies must use a plain generic schema type"@,
        ErrorKind::RootSlotQualified => "recursive enum bodies must use a plain schema type path"@,
        ErrorKind::RootSlotEmpty => "recursive enum body path is empty"@,
        ErrorKind::RootSlotNotAngleBracketed => "recursive enum bodies must pass the root as a direct generic argument"@,
        ErrorKind::RootSlotRepeated => "recursive enum body may contain the root in only one direct generic slot"@,
        ErrorKind::RootSlotIndirect => "recursive enum body must pass the root directly to its recursive schema slot"@,
        ErrorKind::RootSlotMissing => "recursive enum body must pass the root as a direct generic argument"@,
        ErrorKind::BitfieldAttribute => "unsupported "@ + owner + " bitfield attribute"@,
        ErrorKind::BitfieldDuplicateAs => "duplicate `as` bitfield representation"@,
        ErrorKind::BitfieldMissingAs => "nominal bitfield requires #[wire(as = unsigned_type)]"@,
        ErrorKind::BitfieldFieldAttribute => "unsupported nominal bitfield field attribute"@,
        ErrorKind::BitfieldBitsNotRange => "bits requires an inclusive integer range"@,
        ErrorKind::BitfieldBitsNoStart => "bits range requires a start"@,
        ErrorKind::BitfieldBitsNoEnd => "bits range requires an end"@,
        ErrorKind::BitfieldBitsNotInclusive => "bits range must be inclusive"@,
        ErrorKind::BitfieldBoundNotInteger => "bits range bounds must be integer literals"@,
        ErrorKind::BitfieldRangeMissing => "bitfield field requires #[wire(bit = N)] or #[wire(bits = A..=B)]"@,
        ErrorKind::PrimitiveIntegerExpected => "expected a primitive integer type"@,
        ErrorKind::BitfieldNotUnsigned => "bitfield representation must be an unsigned fixed-width integer"@,
        ErrorKind::BitfieldNotStruct => "nominal bitfield requires a struct"@,
        ErrorKind::BitfieldNotNamed => "nominal bitfield requires named logical fields"@,
        ErrorKind::BitfieldRangeTooWide => "bit range exceeds the physical representation"@,
        ErrorKind::BitfieldSingleBitType => "single-bit fields require bool or an unsigned integer"@,
        ErrorKind::BitfieldMultiBitType => "multi-bit ranges require an unsigned integer field"@,
        ErrorKind::BitfieldLogicalTooNarrow => "logical field is narrower than its declared bit range"@,
        ErrorKind::BitfieldRangesOverlap => "bitfield ranges cannot overlap"@,
        ErrorKind::BitfieldEmpty => "nominal bitfield requires at least one logical field"@,
        ErrorKind::EnumAttribute => "unsupported "@ + owner + " enum attribute"@,
        ErrorKind::DuplicateSelector => "duplicate selector representation"@,
        ErrorKind::MissingSelector => "static enum requires #[wire(selector = unsigned_type)]"@,
        ErrorKind::SelectorNotPrimitive => "selector representation must be a primitive integer"@,
        ErrorKind::SelectorUnsupported => "unsupported enum selector representation"@,
        ErrorKind::SelectorNotUnsigned => "enum selector must be an unsigned fixed-width integer"@,
        ErrorKind::EnumRequired => owner + " enum renderer requires an enum"@,
        ErrorKind::DuplicateSelectorValue => "duplicate enum selector value"@,
        ErrorKind::DuplicateUnknownMarker => "duplicate unknown marker"@,
        ErrorKind::VariantAttribute => "unsupported enum variant attribute"@,
        ErrorKind::UnknownRepeated => "only one #[wire(unknown)] variant is allowed"@,
        ErrorKind::VariantBodyShape => "static enum variants require exactly one unnamed body field"@,
        ErrorKind::UnknownWithValue => "unknown variant cannot declare a selector value"@,
        ErrorKind::UnknownBodyNotBytes => "unknown variant body must be wire::Bytes"@,
        ErrorKind::KnownWithoutValue => "known enum variant requires #[wire(value = ...)]"@,
        ErrorKind::NoKnownVariant => "wire enum requires at least one known variant"@,
        ErrorKind::UnknownNameReserved => "`Unknown` is reserved when an unknown fallback variant is present"@,
        ErrorKind::SelectionOperationRequired => "selection must use include(...) or exclude(...)"@,
        ErrorKind::SelectionEmpty => "selection requires at least one field"@,
        ErrorKind::SelfNotRoot => "`self` is only valid as a root selection field"@,
        ErrorKind::ComputedArgumentForm => "computed arguments must be logical fields or include/exclude selections"@,
        ErrorKind::RecursiveEnumGenerics => "recursive enum roots cannot declare additional generics"@,
        ErrorKind::RecursiveEnumUnknown => "recursive enum roots cannot declare an unknown terminal body"@,
        ErrorKind::BitRangeOverflow => "attempt to add with overflow"@,
        ErrorKind::RecursiveEnumBuilder => "recursive enum builders are not supported by the current read-side recursive capability"@,
    }
}

/// The text of a refusal; `owner` names the derive, `subject` the
/// controller it is about (empty when there is none).
pub fn message(kind: &ErrorKind, owner: &str, subject: &str) -> (r: String)
    ensures
        r@ == spec_message(*kind, owner@, subject@),
{
    match kind {
        ErrorKind::UnsupportedSchemaAttribute => {
            let r = String::from_str("unsupported ");
            let r = concat(r.as_str(), owner);
            let r = concat(r.as_str(), " schema attribute");
            r
        },
        ErrorKind::UnsupportedFieldAttribute => {
            let r = String::from_str("unsupported schema field attribute");
            r
        },
        ErrorKind::DuplicateEndian => {
            let r = String::from_str("duplicate or conflicting endian attribute");
            r
        },
        ErrorKind::DuplicateAs => {
            let r = String::from_str("duplicate `as` wire type");
            r
        },
        ErrorKind::AsNotPrimitive => {
            let r = String::from_str("`as` requires a fixed-width primitive scalar type");
            r
        },
        ErrorKind::DuplicateConstant => {
            let r = String::from_str("duplicate constant attribute");
            r
        },
        ErrorKind::DuplicateBytes => {
            let r = String::from_str("duplicate `bytes` controller");
            r
        },
        ErrorKind::DuplicateRest => {
            let r = String::from_str("duplicate `rest` attribute");
            r
        },
        ErrorKind::DuplicatePadBefore => {
            let r = String::from_str("duplicate `pad_before` attribute");
            r
        },
        ErrorKind::DuplicateAlignBefore => {
            let r = String::from_str("duplicate `align_before` attribute");
            r
        },
        ErrorKind::DuplicateCountedBy => {
            let r = String::from_str("duplicate `counted_by` controller");
            r
        },
        ErrorKind::DuplicateAt => {
            let r = String::from_str("duplicate `at` attribute");
            r
        },
        ErrorKind::DuplicateFlag => {
            let r = String::from_str("duplicate `flag` controller");
            r
        },
        ErrorKind::DuplicateDependsOn => {
            let r = String::from_str("duplicate `depends_on` condition");
            r
        },
        ErrorKind::DuplicateBitsOf => {
            let r = String::from_str("duplicate `bits_of` controller");
            r
        },
        ErrorKind::DuplicateBitRange => {
            let r = String::from_str("duplicate or conflicting bit range");
            r
        },
        ErrorKind::DuplicateComputed => {
            let r = String::from_str("duplicate or conflicting computed callback");
            r
        },
        ErrorKind::BitsNotRange => {
            let r = String::from_str("`bits` requires an inclusive integer range");
            r
        },
        ErrorKind::BitsNotInclusive => {
            let r = String::from_str("`bits` range must be inclusive");
            r
        },
        ErrorKind::BitsNoStart => {
            let r = String::from_str("`bits` range requires a start");
            r
        },
        ErrorKind::BitsNoEnd => {
            let r = String::from_str("`bits` range requires an end");
            r
        },
        ErrorKind::BitBoundNotInteger => {
            let r = String::from_str("bit bounds must be integer literals");
            r
        },
        ErrorKind::BitStartAfterEnd => {
            let r = String::from_str("bit range start must not exceed end");
            r
        },
        ErrorKind::IntegerTooLarge => {
            let r = String::from_str("number too large to fit in target type");
            r
        },
        ErrorKind::ComputedNotCall => {
            let r = String::from_str("computed callback must be a function call");
            r
        },
        ErrorKind::ComputedNotNamed => {
            let r = String::from_str("computed callback must name a function");
            r
        },
        ErrorKind::OneByteEndian => {
            let r = String::from_str("one-byte scalar fields do not accept an endian attribute");
            r
        },
        ErrorKind::MissingEndian => {
            let r = String::from_str("multi-byte scalar wire fields require #[wire(le)] or #[wire(be)]");
            r
        },
        ErrorKind::BytesAndRest => {
            let r = String::from_str("`bytes` and `rest` are mutually exclusive");
            r
        },
        ErrorKind::RestNotLast => {
            let r = String::from_str("`rest` is only valid on the final physical field");
            r
        },
        ErrorKind::AtWithPadding => {
            let r = String::from_str("`at` cannot be combined with `pad_before` or `align_before`");
            r
        },
        ErrorKind::AtNotLiteralOrField => {
            let r = String::from_str("`at` requires an integer literal or a physically earlier unsigned field");
            r
        },
        ErrorKind::AtNotInteger => {
            let r = String::from_str("`at` requires an integer literal");
            r
        },
        ErrorKind::AtBeforeCursor { requested, current } => {
            let r = String::from_str("static `at` position ");
            let r = concat(r.as_str(), decimal(*requested).as_str());
            let r = concat(r.as_str(), " precedes cursor ");
            let r = concat(r.as_str(), decimal(*current).as_str());
            r
        },
        ErrorKind::AlignZero => {
            let r = String::from_str("`align_before` must be nonzero");
            r
        },
        ErrorKind::ComputedNotScalar => {
            let r = String::from_str("computed destinations must be scalar fields");
            r
        },
        ErrorKind::ComputedBitProjection => {
            let r = String::from_str("computed fields cannot be logical bit projections");
            r
        },
        ErrorKind::BitsOfWithoutRange => {
            let r = String::from_str("`bits_of` requires `bit = N` or `bits = A..=B`");
            r
        },
        ErrorKind::BitWithoutBitsOf => {
            let r = String::from_str("`bit` and `bits` require `bits_of = earlier_field`");
            r
        },
        ErrorKind::FlagNotPlainBool => {
            let r = String::from_str("logical flag fields must be plain bool fields");
            r
        },
        ErrorKind::ScalarDynamicExtent => {
            let r = String::from_str("scalar fields do not accept dynamic extent or count attributes");
            r
        },
        ErrorKind::AsOnPrimitive => {
            let r = String::from_str("`as` is only used for Rust types without an implicit wire width");
            r
        },
        ErrorKind::AsRequired => {
            let r = String::from_str("this Rust type requires an explicit unsigned `as` wire type");
            r
        },
        ErrorKind::AsUnsignedRequired => {
            let r = String::from_str("this Rust type requires an unsigned integer wire type");
            r
        },
        ErrorKind::IsizeAsRequired => {
            let r = String::from_str("isize requires an explicit signed `as` wire type");
            r
        },
        ErrorKind::IsizeSignedRequired => {
            let r = String::from_str("isize requires a signed integer wire type");
            r
        },
        ErrorKind::CustomConstant => {
            let r = String::from_str("custom TryFrom scalar fields do not support stored constants");
            r
        },
        ErrorKind::ComputedConstant => {
            let r = String::from_str("computed fields cannot also be constants");
            r
        },
        ErrorKind::FixedArrayNotPrimitive => {
            let r = String::from_str("fixed wire arrays require primitive scalar elements");
            r
        },
        ErrorKind::FixedArrayDynamicExtent => {
            let r = String::from_str("fixed arrays do not accept dynamic extent or count attributes");
            r
        },
        ErrorKind::ByteArrayEndianOrAs => {
            let r = String::from_str("fixed byte arrays do not accept endian or `as` attributes");
            r
        },
        ErrorKind::ScalarArrayAttributes => {
            let r = String::from_str("fixed scalar arrays do not accept `as`, constant, or computed attributes");
            r
        },
        ErrorKind::RecursiveAttributes => {
            let r = String::from_str("recursive fields do not accept scalar, extent, dependency, or placement attributes");
            r
        },
        ErrorKind::ArrayAttributes => {
            let r = String::from_str("runtime arrays do not accept scalar or byte-extent attributes");
            r
        },
        ErrorKind::ArrayNeedsCountedBy => {
            let r = String::from_str("`wire::Array<T>` requires `counted_by = earlier_field`");
            r
        },
        ErrorKind::RawBytesAttributes => {
            let r = String::from_str("raw byte fields do not accept scalar wire attributes");
            r
        },
        ErrorKind::RawBytesNeedsExtent => {
            let r = String::from_str("`wire::Bytes` requires `bytes = earlier_field` or `rest`");
            r
        },
        ErrorKind::NestedAttributes => {
            let r = String::from_str("nested schema fields do not accept scalar wire attributes or `rest`");
            r
        },
        ErrorKind::BitProjectionType => {
            let r = String::from_str("bit projections require bool for one bit or a sufficiently wide unsigned integer");
            r
        },
        ErrorKind::BitProjectionAttributes => {
            let r = String::from_str("bit projection fields cannot declare independent physical attributes");
            r
        },
        ErrorKind::BitControllerNotEarlier => {
            let r = String::from_str("bit projection controller must be physically earlier");
            r
        },
        ErrorKind::BitControllerNotFixedUnsigned => {
            let r = String::from_str("bit projection controller must be an unsigned fixed-width scalar");
            r
        },
        ErrorKind::BitControllerTooNarrow => {
            let r = String::from_str("bit projection controller is not wide enough for the range");
            r
        },
        ErrorKind::BitRangesOverlap => {
            let r = String::from_str("bit projection ranges cannot overlap");
            r
        },
        ErrorKind::ControllerUnknown { role } => {
            let r = String::from_str(role_name(*role));
            let r = concat(r.as_str(), " controller `");
            let r = concat(r.as_str(), subject);
            let r = concat(r.as_str(), "` is not a schema field");
            r
        },
        ErrorKind::ControllerNotEarlier { role } => {
            let r = String::from_str(role_name(*role));
            let r = concat(r.as_str(), " controller `");
            let r = concat(r.as_str(), subject);
            let r = concat(r.as_str(), "` must be physically earlier");
            r
        },
        ErrorKind::ControllerGeometry { role } => {
            let r = String::from_str(role_name(*role));
            let r = concat(r.as_str(), " controller `");
            let r = concat(r.as_str(), subject);
            let r = concat(r.as_str(), "` must have fixed sequential geometry");
            r
        },
        ErrorKind::ControllerNotInteger { role } => {
            let r = String::from_str(role_name(*role));
            let r = concat(r.as_str(), " controller `");
            let r = concat(r.as_str(), subject);
            let r = concat(r.as_str(), "` must be an integer scalar");
            r
        },
        ErrorKind::ControllerNotUnsigned { role } => {
            let r = String::from_str(role_name(*role));
            let r = concat(r.as_str(), " controller `");
            let r = concat(r.as_str(), subject);
            let r = concat(r.as_str(), "` must be an unsigned integer");
            r
        },
        ErrorKind::ControllerConstant { role } => {
            let r = String::from_str(role_name(*role));
            let r = concat(r.as_str(), " controller `");
            let r = concat(r.as_str(), subject);
            let r = concat(r.as_str(), "` cannot be a constant");
            r
        },
        ErrorKind::ComputedConditional => {
            let r = String::from_str("computed destinations cannot be conditional");
            r
        },
        ErrorKind::ComputedPlacement => {
            let r = String::from_str("computed destinations cannot declare placement geometry");
            r
        },
        ErrorKind::ComputedDynamicOffset => {
            let r = String::from_str("computed destinations must have a fixed offset before demand geometry");
            r
        },
        ErrorKind::PresenceControllerShared => {
            let r = String::from_str("presence controller `");
            let r = concat(r.as_str(), subject);
            let r = concat(r.as_str(), "` cannot define multiple logical groups");
            r
        },
        ErrorKind::FlagControllerUnknown => {
            let r = String::from_str("logical flag controller is not a schema field");
            r
        },
        ErrorKind::FlagControllerNotEarlier => {
            let r = String::from_str("logical flag controller must be physically earlier");
            r
        },
        ErrorKind::FlagControllerNotScalar => {
            let r = String::from_str("logical flag controller must be a bool scalar");
            r
        },
        ErrorKind::FlagControllerNotPlainBool => {
            let r = String::from_str("logical flag controller must be a nonconstant bool scalar");
            r
        },
        ErrorKind::PresenceControllerGeometry => {
            let r = String::from_str("presence controller must have fixed sequential geometry");
            r
        },
        ErrorKind::ConditionUnknown => {
            let r = String::from_str("condition does not name a logical flag field");
            r
        },
        ErrorKind::ConditionNotEarlierFlag => {
            let r = String::from_str("condition must name a physically earlier logical flag field");
            r
        },
        ErrorKind::ConditionalGeometry => {
            let r = String::from_str("conditional dependent fields cannot declare independent geometry");
            r
        },
        ErrorKind::ConditionalNotScalar => {
            let r = String::from_str("this conditional-group vertical currently requires scalar dependent fields");
            r
        },
        ErrorKind::ConditionalNotDirect => {
            let r = String::from_str("conditional dependent scalars must have direct nonconstant representations");
            r
        },
        ErrorKind::FlagWithoutDependents => {
            let r = String::from_str("logical flag has no dependent fields");
            r
        },
        ErrorKind::ConditionalNotContiguous => {
            let r = String::from_str("conditional group fields must be contiguous immediately after their logical flag");
            r
        },
        ErrorKind::LengthAndPosition => {
            let r = String::from_str("controller `");
            let r = concat(r.as_str(), subject);
            let r = concat(r.as_str(), "` cannot control both byte length and field position before the controller DAG ships");
            r
        },
        ErrorKind::CountControllerShared => {
            let r = String::from_str("item count controller `");
            let r = concat(r.as_str(), subject);
            let r = concat(r.as_str(), "` cannot control multiple arrays");
            r
        },
        ErrorKind::ArrayConditional => {
            let r = String::from_str("runtime arrays cannot be conditional in this vertical");
            r
        },
        ErrorKind::CountControllerOtherRole => {
            let r = String::from_str("item count controller cannot control another dependency role");
            r
        },
        ErrorKind::BitControllerOtherRole => {
            let r = String::from_str("bit projection controller cannot control another dependency role");
            r
        },
        ErrorKind::ComputedControlsGeometry => {
            let r = String::from_str("computed fields cannot control representation geometry");
            r
        },
        ErrorKind::ComputedCycle => {
            let r = String::from_str("computed field dependency cycle");
            r
        },
        ErrorKind::ComputedCallbackNotCall => {
            let r = String::from_str("computed callback must be a call");
            r
        },
        ErrorKind::SimpleNameExpected => {
            let r = String::from_str("expected a simple field name");
            r
        },
        ErrorKind::SelectionOperation => {
            let r = String::from_str("selection operation must be include or exclude");
            r
        },
        ErrorKind::SelectionNamedFields => {
            let r = String::from_str("selection paths require named fields");
            r
        },
        ErrorKind::SelectionPhysicalPaths => {
            let r = String::from_str("selection fields must be physical field paths");
            r
        },
        ErrorKind::ComputedArgument => {
            let r = String::from_str("computed arguments must be logical fields or selections");
            r
        },
        ErrorKind::ComputedUnknownField => {
            let r = String::from_str("computed callback references an unknown field");
            r
        },
        ErrorKind::NamedStructRequired => {
            let r = String::from_str(owner);
            let r = concat(r.as_str(), " supports named schema structs only");
            r
        },
        ErrorKind::StructRequired => {
            let r = String::from_str(owner);
            let r = concat(r.as_str(), " supports schema structs only");
            r
        },
        ErrorKind::RecursiveValidators => {
            let r = String::from_str("recursive object bodies currently do not support schema validators");
            r
        },
        ErrorKind::RecursiveWithoutContinuation => {
            let r = String::from_str("recursive object body requires at least one wire::Recursive<T> field");
            r
        },
        ErrorKind::RecursiveTooManyContinuations => {
            let r = String::from_str("recursive object body has too many continuation fields");
            r
        },
        ErrorKind::RecursiveNotSequential => {
            let r = String::from_str("recursive object bodies currently require fixed sequential nonrecursive fields");
            r
        },
        ErrorKind::RecursiveRootNotParameter => {
            let r = String::from_str("recursive object field must name the body's direct root type parameter");
            r
        },
        ErrorKind::RecursiveFieldUnsupported => {
            let r = String::from_str("recursive object bodies currently support recursive markers, plain fixed scalars, and fixed byte arrays");
            r
        },
        ErrorKind::DemandShape => {
            let r = String::from_str("recursive demand body currently requires controller, child, bounded bytes, scalar, child");
            r
        },
        ErrorKind::DemandControllerNotScalar => {
            let r = String::from_str("recursive demand controller must be an unsigned scalar");
            r
        },
        ErrorKind::DemandControllerNotStored => {
            let r = String::from_str("recursive demand controller must be a stored unsigned scalar");
            r
        },
        ErrorKind::DemandLeftNotRecursive | ErrorKind::DemandRightNotRecursive => {
            let r = String::from_str("expected recursive child");
            r
        },
        ErrorKind::DemandBytesNotBounded => {
            let r = String::from_str("expected bounded bytes");
            r
        },
        ErrorKind::DemandScalarMissing => {
            let r = String::from_str("expected fixed scalar");
            r
        },
        ErrorKind::DemandScalarNotDirect => {
            let r = String::from_str("recursive demand scalar must use its direct stored representation");
            r
        },
        ErrorKind::DemandChildRoot => {
            let r = String::from_str("recursive demand children must use the direct root parameter");
            r
        },
        ErrorKind::DemandBytesController => {
            let r = String::from_str("recursive demand bytes must use the leading controller");
            r
        },
        ErrorKind::DemandPlacement => {
            let r = String::from_str("recursive demand placement is supported only as padding/alignment before the fixed scalar");
            r
        },
        ErrorKind::RootSlotNotPath => {
            let r = String::from_str("recursive enum bodies must use a plain generic schema type");
            r
        },
        ErrorKind::RootSlotQualified => {
            let r = String::from_str("recursive enum bodies must use a plain schema type path");
            r
        },
        ErrorKind::RootSlotEmpty => {
            let r = String::from_str("recursive enum body path is empty");
            r
        },
        ErrorKind::RootSlotNotAngleBracketed => {
            let r = String::from_str("recursive enum bodies must pass the root as a direct generic argument");
            r
        },
        ErrorKind::RootSlotRepeated => {
            let r = String::from_str("recursive enum body may contain the root in only one direct generic slot");
            r
        },
        ErrorKind::RootSlotIndirect => {
            let r = String::from_str("recursive enum body must pass the root directly to its recursive schema slot");
            r
        },
        ErrorKind::RootSlotMissing => {
            let r = String::from_str("recursive enum body must pass the root as a direct generic argument");
            r
        },
        ErrorKind::BitfieldAttribute => {
            let r = String::from_str("unsupported ");
            let r = concat(r.as_str(), owner);
            let r = concat(r.as_str(), " bitfield attribute");
            r
        },
        ErrorKind::BitfieldDuplicateAs => {
            let r = String::from_str("duplicate `as` bitfield representation");
            r
        },
        ErrorKind::BitfieldMissingAs => {
            let r = String::from_str("nominal bitfield requires #[wire(as = unsigned_type)]");
            r
        },
        ErrorKind::BitfieldFieldAttribute => {
            let r = String::from_str("unsupported nominal bitfield field attribute");
            r
        },
        ErrorKind::BitfieldBitsNotRange => {
            let r = String::from_str("bits requires an inclusive integer range");
            r
        },
        ErrorKind::BitfieldBitsNoStart => {
            let r = String::from_str("bits range requires a start");
            r
        },
        ErrorKind::BitfieldBitsNoEnd => {
            let r = String::from_str("bits range requires an end");
            r
        },
        ErrorKind::BitfieldBitsNotInclusive => {
            let r = String::from_str("bits range must be inclusive");
            r
        },
        ErrorKind::BitfieldBoundNotInteger => {
            let r = String::from_str("bits range bounds must be integer literals");
            r
        },
        ErrorKind::BitfieldRangeMissing => {
            let r = String::from_str("bitfield field requires #[wire(bit = N)] or #[wire(bits = A..=B)]");
            r
        },
        ErrorKind::PrimitiveIntegerExpected => {
            let r = String::from_str("expected a primitive integer type");
            r
        },
        ErrorKind::BitfieldNotUnsigned => {
            let r = String::from_str("bitfield representation must be an unsigned fixed-width integer");
            r
        },
        ErrorKind::BitfieldNotStruct => {
            let r = String::from_str("nominal bitfield requires a struct");
            r
        },
        ErrorKind::BitfieldNotNamed => {
            let r = String::from_str("nominal bitfield requires named logical fields");
            r
        },
        ErrorKind::BitfieldRangeTooWide => {
            let r = String::from_str("bit range exceeds the physical representation");
            r
        },
        ErrorKind::BitfieldSingleBitType => {
            let r = String::from_str("single-bit fields require bool or an unsigned integer");
            r
        },
        ErrorKind::BitfieldMultiBitType => {
            let r = String::from_str("multi-bit ranges require an unsigned integer field");
            r
        },
        ErrorKind::BitfieldLogicalTooNarrow => {
            let r = String::from_str("logical field is narrower than its declared bit range");
            r
        },
        ErrorKind::BitfieldRangesOverlap => {
            let r = String::from_str("bitfield ranges cannot overlap");
            r
        },
        ErrorKind::BitfieldEmpty => {
            let r = String::from_str("nominal bitfield requires at least one logical field");
            r
        },
        ErrorKind::EnumAttribute => {
            let r = String::from_str("unsupported ");
            let r = concat(r.as_str(), owner);
            let r = concat(r.as_str(), " enum attribute");
            r
        },
        ErrorKind::DuplicateSelector => {
            let r = String::from_str("duplicate selector representation");
            r
        },
        ErrorKind::MissingSelector => {
            let r = String::from_str("static enum requires #[wire(selector = unsigned_type)]");
            r
        },
        ErrorKind::SelectorNotPrimitive => {
            let r = String::from_str("selector representation must be a primitive integer");
            r
        },
        ErrorKind::SelectorUnsupported => {
            let r = String::from_str("unsupported enum selector representation");
            r
        },
        ErrorKind::SelectorNotUnsigned => {
            let r = String::from_str("enum selector must be an unsigned fixed-width integer");
            r
        },
        ErrorKind::EnumRequired => {
            let r = String::from_str(owner);
            let r = concat(r.as_str(), " enum renderer requires an enum");
            r
        },
        ErrorKind::DuplicateSelectorValue => {
            let r = String::from_str("duplicate enum selector value");
            r
        },
        ErrorKind::DuplicateUnknownMarker => {
            let r = String::from_str("duplicate unknown marker");
            r
        },
        ErrorKind::VariantAttribute => {
            let r = String::from_str("unsupported enum variant attribute");
            r
        },
        ErrorKind::UnknownRepeated => {
            let r = String::from_str("only one #[wire(unknown)] variant is allowed");
            r
        },
        ErrorKind::VariantBodyShape => {
            let r = String::from_str("static enum variants require exactly one unnamed body field");
            r
        },
        ErrorKind::UnknownWithValue => {
            let r = String::from_str("unknown variant cannot declare a selector value");
            r
        },
        ErrorKind::UnknownBodyNotBytes => {
            let r = String::from_str("unknown variant body must be wire::Bytes");
            r
        },
        ErrorKind::KnownWithoutValue => {
            let r = String::from_str("known enum variant requires #[wire(value = ...)]");
            r
        },
        ErrorKind::NoKnownVariant => {
            let r = String::from_str("wire enum requires at least one known variant");
            r
        },
        ErrorKind::UnknownNameReserved => {
            let r = String::from_str("`Unknown` is reserved when an unknown fallback variant is present");
            r
        },
        ErrorKind::SelectionOperationRequired => {
            let r = String::from_str("selection must use include(...) or exclude(...)");
            r
        },
        ErrorKind::SelectionEmpty => {
            let r = String::from_str("selection requires at least one field");
            r
        },
        ErrorKind::SelfNotRoot => {
            let r = String::from_str("`self` is only valid as a root selection field");
            r
        },
        ErrorKind::ComputedArgumentForm => {
            let r = String::from_str("computed arguments must be logical fields or include/exclude selections");
            r
        },
        ErrorKind::RecursiveEnumGenerics => {
            let r = String::from_str("recursive enum roots cannot declare additional generics");
            r
        },
        ErrorKind::RecursiveEnumUnknown => {
            let r = String::from_str("recursive enum roots cannot declare an unknown terminal body");
            r
        },
        ErrorKind::BitRangeOverflow => {
            let r = String::from_str("attempt to add with overflow");
            r
        },
        ErrorKind::RecursiveEnumBuilder => {
            let r = String::from_str("recursive enum builders are not supported by the current read-side recursive capability");
            r
        },
    }
}

} // verus!
