//! The raw schema tree, as the textual-schema parser hands it over.
//!
//! The parser itself is an external collaborator: it is specified only at
//! this interface boundary. The types here hold exactly what the flattening
//! stage reads; payloads that flattening never inspects (generic arguments,
//! cut semantics, float values) are not carried.

use vstd::prelude::*;

verus! {

/// A literal value appearing in the schema text.
#[derive(Debug, PartialEq)]
pub enum Value {
    /// A text-string literal.
    Text(String),
    /// An unsigned integer literal.
    Uint(u64),
    /// A negative integer literal.
    Nint(i64),
    /// A byte-string literal.
    Bytes(Vec<u8>),
    /// A floating-point literal; rejected by flattening, so its value is not
    /// carried into this tree.
    Float,
}

/// The "key" part of a key-value group member.
#[derive(Debug, PartialEq)]
pub enum MemberKeyVal {
    /// A bare type-name key.
    Bareword(String),
    /// Any other key form; rejected by flattening.
    Other,
}

/// A group member: an optional key and a value type.
#[derive(Debug, PartialEq)]
pub struct Member {
    /// The key, absent for a bare ("spliced") member.
    pub key: Option<MemberKeyVal>,
    /// The member's value type.
    pub value: Type,
}

/// How many elements a group member may match.
#[derive(Debug, PartialEq, Eq, Clone, Copy)]
pub enum Occur {
    /// Zero or one.
    Optional,
    /// Zero or more.
    ZeroOrMore,
    /// One or more.
    OneOrMore,
    /// Between the two bounds, inclusive.
    Numbered(usize, usize),
}

/// The part of a group entry after the occurrence.
#[derive(Debug, PartialEq)]
pub enum GrpEntVal {
    /// A group member.
    Member(Member),
    /// A bare group name.
    Groupname(String),
    /// A parenthesized inline group.
    Parenthesized(Group),
}

/// One element of a group.
#[derive(Debug, PartialEq)]
pub struct GrpEnt {
    /// The occurrence bound, if one was written.
    pub occur: Option<Occur>,
    /// The entry itself.
    pub val: GrpEntVal,
}

/// One of the choices making up a group.
#[derive(Debug, PartialEq)]
pub struct GrpChoice(pub Vec<GrpEnt>);

/// A group: one or more group choices.
#[derive(Debug, PartialEq)]
pub struct Group(pub Vec<GrpChoice>);

/// A type with a control operator attached, e.g. a size constraint.
#[derive(Debug, PartialEq)]
pub struct TypeControl {
    /// The type being constrained.
    pub target: Type2,
    /// The control argument.
    pub arg: Type2,
    /// The control operator's name.
    pub op: String,
}

/// The main representation of a schema type.
#[derive(Debug, PartialEq)]
pub enum Type2 {
    /// A literal value.
    Value(Value),
    /// A type name.
    Typename(String),
    /// A parenthesized type.
    Parenthesized(Type),
    /// A map literal.
    Mapping(Group),
    /// An array literal.
    Array(Group),
    /// Any other construct; rejected by flattening.
    Other,
}

/// A type together with an optional range or control operator.
#[derive(Debug, PartialEq)]
pub enum Type1 {
    /// A plain type with no operator.
    Simple(Type2),
    /// A range; rejected by flattening, so its bounds are not carried.
    Range,
    /// A type with a control operator.
    Control(TypeControl),
}

/// A type, with choices.
#[derive(Debug, PartialEq)]
pub struct Type(pub Vec<Type1>);

/// A rule's tree, in either type or group-entry form.
#[derive(Debug, PartialEq)]
pub enum RuleVal {
    /// A type assignment rule.
    AssignType(Type),
    /// A group assignment rule.
    AssignGroup(GrpEnt),
}

/// One top-level named definition of the schema.
#[derive(Debug, PartialEq)]
pub struct Rule {
    /// The rule name.
    pub name: String,
    /// The rule's tree.
    pub val: RuleVal,
}

/// A whole schema: the parser's output for one concatenated schema text.
#[derive(Debug, PartialEq)]
pub struct Cddl {
    /// The rules, in declaration order.
    pub rules: Vec<Rule>,
}

} // verus!
