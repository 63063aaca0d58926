//! The error type shared by the flattening and linking stages.

use vstd::prelude::*;

verus! {

/// A semantic validation failure, reported by flattening or linking.
///
/// Every stage fails fast: the first error encountered propagates to the
/// caller and no partial mapping is returned.
#[derive(Debug, PartialEq, Eq)]
pub enum ValidateError {
    /// A type choice with zero alternatives.
    InvalidEnum0,
    /// A primitive used without a declared wire width.
    InvalidUnconstrainedPrimative,
    /// A literal value of a kind outside the supported set.
    InvalidLiteral,
    /// A size control applied to a non-primitive target.
    InvalidControl,
    /// A control argument that is not an integer of a supported width.
    InvalidControlArg,
    /// A keyless group member whose value is not a bare reference.
    InvalidGroupMissingKey,
    /// A construct in a position where its shape is not allowed.
    InvalidType,
    /// An array over an element that is neither a scalar nor a named struct.
    InvalidArray,
    /// An array repetition that is not an exact count.
    InvalidArraySize,
    /// A type choice with more than one alternative (a declared non-goal).
    TodoEnums,
    /// Any other schema feature outside the supported subset; the payload
    /// describes the offending construct.
    UnsupportedCddl(String),
    /// A reference to a rule name that is not defined.
    ForeignKey(String),
    /// A rule that transitively references itself; resolution would never
    /// terminate, so the cycle is reported instead. The payload names the
    /// rule at which the cycle was detected.
    Cycle(String),
    /// An internal invariant that cannot fail.
    Infallible,
}

/// The text of each failure's description.
pub open spec fn smessage(e: ValidateError) -> Seq<char> {
    match e {
        ValidateError::InvalidEnum0 => "Enum type with 0 members unsupported"@,
        ValidateError::InvalidUnconstrainedPrimative => "type must be constrained"@,
        ValidateError::InvalidLiteral => "invalid literal"@,
        ValidateError::InvalidControl => "size control only supported on primative types"@,
        ValidateError::InvalidControlArg => "only integers supported for control args"@,
        ValidateError::InvalidGroupMissingKey => "all group members must have a key"@,
        ValidateError::InvalidType => "invalid type"@,
        ValidateError::InvalidArray => "invalid array"@,
        ValidateError::InvalidArraySize => "invalid array size"@,
        ValidateError::TodoEnums => "enums not supported"@,
        ValidateError::UnsupportedCddl(cddl) => "CDDL not supported "@ + cddl@,
        ValidateError::ForeignKey(key) => "foreign key not defined ["@ + key@ + "]"@,
        ValidateError::Cycle(key) => "rule references itself ["@ + key@ + "]"@,
        ValidateError::Infallible => "infallible"@,
    }
}

impl ValidateError {
    /// A human-readable description of the failure.
    pub fn message(&self) -> (r: String)
        ensures
            r@ == smessage(*self),
    {
        match self {
            ValidateError::InvalidEnum0 => str_dup("Enum type with 0 members unsupported"),
            ValidateError::InvalidUnconstrainedPrimative => str_dup("type must be constrained"),
            ValidateError::InvalidLiteral => str_dup("invalid literal"),
            ValidateError::InvalidControl => str_dup(
                "size control only supported on primative types",
            ),
            ValidateError::InvalidControlArg => str_dup(
                "only integers supported for control args",
            ),
            ValidateError::InvalidGroupMissingKey => str_dup("all group members must have a key"),
            ValidateError::InvalidType => str_dup("invalid type"),
            ValidateError::InvalidArray => str_dup("invalid array"),
            ValidateError::InvalidArraySize => str_dup("invalid array size"),
            ValidateError::TodoEnums => str_dup("enums not supported"),
            ValidateError::UnsupportedCddl(cddl) => {
                let mut out = str_dup("CDDL not supported ");
                out.append(cddl.as_str());
                out
            },
            ValidateError::ForeignKey(key) => {
                let mut out = str_dup("foreign key not defined [");
                out.append(key.as_str());
                out.append("]");
                out
            },
            ValidateError::Cycle(key) => {
                let mut out = str_dup("rule references itself [");
                out.append(key.as_str());
                out.append("]");
                out
            },
            ValidateError::Infallible => str_dup("infallible"),
        }
    }
}

/// Copy a string slice into an owned string.
fn str_dup(s: &str) -> (r: String)
    ensures
        r@ == s@,
{
    let mut out = String::new();
    out.append(s);
    out
}

/// The spec-level mirror of `ValidateError`: string payloads are modelled as
/// character sequences so that two errors naming the same rule are equal.
pub enum ErrView {
    InvalidEnum0,
    InvalidUnconstrainedPrimative,
    InvalidLiteral,
    InvalidControl,
    InvalidControlArg,
    InvalidGroupMissingKey,
    InvalidType,
    InvalidArray,
    InvalidArraySize,
    TodoEnums,
    UnsupportedCddl(Seq<char>),
    ForeignKey(Seq<char>),
    Cycle(Seq<char>),
    Infallible,
}

impl View for ValidateError {
    type V = ErrView;

    open spec fn view(&self) -> ErrView {
        match self {
            ValidateError::InvalidEnum0 => ErrView::InvalidEnum0,
            ValidateError::InvalidUnconstrainedPrimative => ErrView::InvalidUnconstrainedPrimative,
            ValidateError::InvalidLiteral => ErrView::InvalidLiteral,
            ValidateError::InvalidControl => ErrView::InvalidControl,
            ValidateError::InvalidControlArg => ErrView::InvalidControlArg,
            ValidateError::InvalidGroupMissingKey => ErrView::InvalidGroupMissingKey,
            ValidateError::InvalidType => ErrView::InvalidType,
            ValidateError::InvalidArray => ErrView::InvalidArray,
            ValidateError::InvalidArraySize => ErrView::InvalidArraySize,
            ValidateError::TodoEnums => ErrView::TodoEnums,
            ValidateError::UnsupportedCddl(s) => ErrView::UnsupportedCddl(s@),
            ValidateError::ForeignKey(s) => ErrView::ForeignKey(s@),
            ValidateError::Cycle(s) => ErrView::Cycle(s@),
            ValidateError::Infallible => ErrView::Infallible,
        }
    }
}

} // verus!
