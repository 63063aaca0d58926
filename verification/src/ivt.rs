//! The unlinked intermediate representation ("interface validation tree").
//!
//! Flattening reduces each raw schema rule to a shallow [`Node`]: primitive
//! size controls are resolved to concrete [`ConstrainedType`]s in the same
//! pass, while references to other rules stay symbolic ([`Node::Foreign`])
//! until the linking stage.

use vstd::prelude::*;

verus! {

broadcast use {vstd::std_specs::vec::group_vec_axioms, vstd::seq::group_seq_axioms};

use crate::ast;
use crate::strutil::{str_eq, str_to_owned};
use crate::table::RuleTable;
use crate::util::{ErrView, ValidateError};
use crate::FlattenResult;
use vstd::string::{StrSliceExecFns, StringSliceAdditionalSpecFns};
use vstd::utf8::encode_utf8;

/// The rule table produced by flattening.
pub type NodeMap = RuleTable<Node>;

/// The views of a sequence of nodes, element by element.
pub open spec fn nodes_view(s: Seq<Node>) -> Seq<NodeView>
    decreases s,
{
    if s.len() == 0 {
        Seq::empty()
    } else {
        seq![s[0]@] + nodes_view(s.drop_first())
    }
}

/// `nodes_view` is the element-wise view of its argument.
pub proof fn lemma_nodes_view(s: Seq<Node>)
    ensures
        nodes_view(s).len() == s.len(),
        forall|i: int| 0 <= i < s.len() ==> nodes_view(s)[i] == #[trigger] s[i]@,
    decreases s.len(),
{
    reveal_with_fuel(nodes_view, 2);
    if s.len() > 0 {
        lemma_nodes_view(s.drop_first());
        assert(nodes_view(s) == seq![s[0]@] + nodes_view(s.drop_first()));
        assert forall|i: int| 0 <= i < s.len() implies nodes_view(s)[i] == #[trigger] s[i]@ by {
            if i > 0 {
                assert(s.drop_first()[i - 1] == s[i]);
                assert(nodes_view(s)[i] == nodes_view(s.drop_first())[i - 1]);
            }
        }
    }
}

/// A scalar compile-time constant.
#[derive(Debug, PartialEq, Clone)]
pub enum Literal {
    /// A literal signed integer.
    Int(i64),
    /// A literal unsigned integer.
    UInt(u64),
    /// A literal boolean.
    Bool(bool),
    /// A literal text string.
    Str(String),
    /// A literal single character.
    Char(char),
    /// A literal byte sequence.
    Bytes(Vec<u8>),
}

/// The spec-level mirror of [`Literal`].
pub enum LitView {
    Int(i64),
    UInt(u64),
    Bool(bool),
    Str(Seq<char>),
    Char(char),
    Bytes(Seq<u8>),
}

impl View for Literal {
    type V = LitView;

    open spec fn view(&self) -> LitView {
        match self {
            Literal::Int(i) => LitView::Int(*i),
            Literal::UInt(u) => LitView::UInt(*u),
            Literal::Bool(b) => LitView::Bool(*b),
            Literal::Str(s) => LitView::Str(s@),
            Literal::Char(c) => LitView::Char(*c),
            Literal::Bytes(b) => LitView::Bytes(b@),
        }
    }
}

/// A scalar type with a concrete wire width: a fixed-width integer, a
/// boolean, fixed-length text of N code units, or a byte string of N bytes.
///
/// Unconstrained primitives are invalid: every scalar must have a determined
/// width before it reaches the IR.
#[derive(Debug, PartialEq, Eq, Clone, Copy)]
pub enum ConstrainedType {
    /// An unsigned integer of 1 byte.
    U8,
    /// A signed integer of 1 byte.
    I8,
    /// An unsigned integer of 2 bytes.
    U16,
    /// A signed integer of 2 bytes.
    I16,
    /// An unsigned integer of 4 bytes.
    U32,
    /// A signed integer of 4 bytes.
    I32,
    /// An unsigned integer of 8 bytes.
    U64,
    /// A signed integer of 8 bytes.
    I64,
    /// A boolean, which needs no declared width.
    Bool,
    /// Fixed-length text of N code units.
    Str(u64),
    /// A byte string of N bytes.
    Bytes(u64),
}

/// One named field: a key paired with its (unlinked) value type.
#[derive(Debug, PartialEq)]
pub struct KeyVal(pub String, pub Box<Node>);

/// A fixed-length, homogeneous sequence: a length and an element type.
#[derive(Debug, PartialEq)]
pub struct Array {
    /// The exact declared repetition count.
    pub len: usize,
    /// The element type, still unlinked.
    pub ty: Box<Node>,
}

/// An ordered sequence of members, shared by the transparent-group and the
/// nominal-map roles; the role is recorded by the [`Node`] variant holding it.
#[derive(Debug, PartialEq)]
pub struct Group {
    /// The members, in declaration order.
    pub members: Vec<Node>,
}

/// The unlinked IR of one rule.
#[derive(Debug, PartialEq)]
pub enum Node {
    /// A literal constant.
    Literal(Literal),
    /// A scalar with a concrete wire width.
    ConstrainedType(ConstrainedType),
    /// A fixed-length array.
    Array(Array),
    /// A transparent field list, spliced into whatever contains it.
    Group(Group),
    /// A keyed field list that becomes a nominal struct.
    Mapping(Group),
    /// A single named field; only valid as a member of a group or map.
    KeyVal(KeyVal),
    /// A symbolic reference to another rule, resolved during linking.
    Foreign(String),
}

/// The spec-level mirror of [`Node`].
pub enum NodeView {
    Literal(LitView),
    ConstrainedType(ConstrainedType),
    Array { len: nat, ty: Box<NodeView> },
    Group(Seq<NodeView>),
    Mapping(Seq<NodeView>),
    KeyVal(Seq<char>, Box<NodeView>),
    Foreign(Seq<char>),
}

impl View for Node {
    type V = NodeView;

    open spec fn view(&self) -> NodeView
        decreases self,
    {
        match self {
            Node::Literal(l) => NodeView::Literal(l@),
            Node::ConstrainedType(t) => NodeView::ConstrainedType(*t),
            Node::Array(a) => NodeView::Array { len: a.len as nat, ty: Box::new((*a.ty)@) },
            Node::Group(g) => NodeView::Group(nodes_view(g.members@)),
            Node::Mapping(g) => NodeView::Mapping(nodes_view(g.members@)),
            Node::KeyVal(kv) => NodeView::KeyVal(kv.0@, Box::new((*kv.1)@)),
            Node::Foreign(s) => NodeView::Foreign(s@),
        }
    }
}


impl From<ConstrainedType> for Node {
    /// A constrained type is one variant of a node.
    fn from(ty: ConstrainedType) -> (r: Node) {
        Node::ConstrainedType(ty)
    }
}

impl vstd::std_specs::convert::FromSpecImpl<ConstrainedType> for Node {
    open spec fn obeys_from_spec() -> bool {
        true
    }

    open spec fn from_spec(ty: ConstrainedType) -> Node {
        Node::ConstrainedType(ty)
    }
}

impl From<KeyVal> for Node {
    /// A named field is one variant of a node.
    fn from(kv: KeyVal) -> (r: Node) {
        Node::KeyVal(kv)
    }
}

impl vstd::std_specs::convert::FromSpecImpl<KeyVal> for Node {
    open spec fn obeys_from_spec() -> bool {
        true
    }

    open spec fn from_spec(kv: KeyVal) -> Node {
        Node::KeyVal(kv)
    }
}

impl KeyVal {
    /// Pair a key with its value type.
    pub fn new(key: &str, node: Node) -> (r: KeyVal)
        ensures
            r.0@ == key@,
            r.1@ == node@,
    {
        let mut k = String::new();
        k.append(key);
        KeyVal(k, Box::new(node))
    }
}

/// The classification of a bare type name: a known primitive, or a name to
/// be resolved against the rule table.
pub enum PrimativeType {
    /// The unsigned-integer primitive.
    UInt,
    /// The signed-integer primitive.
    Int,
    /// The byte-string primitive.
    BStr,
    /// The text-string primitive.
    TStr,
    /// The boolean primitive.
    Bool,
    /// A name defined by another rule of the schema.
    Unresolved(String),
}

/// The spec-level mirror of [`PrimativeType`].
pub enum PrimView {
    UInt,
    Int,
    BStr,
    TStr,
    Bool,
    Unresolved(Seq<char>),
}

impl View for PrimativeType {
    type V = PrimView;

    open spec fn view(&self) -> PrimView {
        match self {
            PrimativeType::UInt => PrimView::UInt,
            PrimativeType::Int => PrimView::Int,
            PrimativeType::BStr => PrimView::BStr,
            PrimativeType::TStr => PrimView::TStr,
            PrimativeType::Bool => PrimView::Bool,
            PrimativeType::Unresolved(s) => PrimView::Unresolved(s@),
        }
    }
}

/// How a bare type name is classified.
pub open spec fn sprim(s: Seq<char>) -> PrimView {
    if s == "int"@ {
        PrimView::Int
    } else if s == "uint"@ {
        PrimView::UInt
    } else if s == "tstr"@ || s == "text"@ {
        PrimView::TStr
    } else if s == "bstr"@ || s == "bytes"@ {
        PrimView::BStr
    } else if s == "bool"@ || s == "boolean"@ {
        PrimView::Bool
    } else {
        PrimView::Unresolved(s)
    }
}

/// What flattening a literal value yields.
pub open spec fn sflatten_value(v: ast::Value) -> Result<NodeView, ErrView> {
    match v {
        ast::Value::Text(s) => Ok(NodeView::Literal(slit_text(s@))),
        ast::Value::Nint(i) => Ok(NodeView::Literal(LitView::Int(i))),
        ast::Value::Uint(u) => Ok(NodeView::Literal(LitView::UInt(u))),
        ast::Value::Bytes(b) => Ok(NodeView::Literal(LitView::Bytes(b@))),
        ast::Value::Float => Err(ErrView::InvalidLiteral),
    }
}

/// A text literal of exactly one byte is a character constant; any other is
/// a string constant.
pub open spec fn slit_text(s: Seq<char>) -> LitView {
    if encode_utf8(s).len() == 1 {
        LitView::Char(s[0])
    } else {
        LitView::Str(s)
    }
}

/// What flattening a bare type name yields: primitives other than the
/// boolean are rejected without a width, and unknown names defer to linking.
pub open spec fn sflatten_typename(name: Seq<char>) -> Result<NodeView, ErrView> {
    match sprim(name) {
        PrimView::Int => Err(ErrView::InvalidUnconstrainedPrimative),
        PrimView::UInt => Err(ErrView::InvalidUnconstrainedPrimative),
        PrimView::TStr => Err(ErrView::InvalidUnconstrainedPrimative),
        PrimView::BStr => Err(ErrView::InvalidUnconstrainedPrimative),
        PrimView::Bool => Ok(NodeView::ConstrainedType(ConstrainedType::Bool)),
        PrimView::Unresolved(s) => Ok(NodeView::Foreign(s)),
    }
}

/// The constrained type denoted by a size-control expression: signed and
/// unsigned integers of 1, 2, 4 or 8 bytes, text of N code units, or a byte
/// string of N bytes.
pub open spec fn scontrol_to_constrained(ctl: ast::TypeControl) -> Result<
    ConstrainedType,
    ErrView,
> {
    match ctl.target {
        ast::Type2::Typename(s) => match (sprim(s@), ctl.arg) {
            (PrimView::Int, ast::Type2::Value(ast::Value::Uint(n))) => if n == 1 {
                Ok(ConstrainedType::I8)
            } else if n == 2 {
                Ok(ConstrainedType::I16)
            } else if n == 4 {
                Ok(ConstrainedType::I32)
            } else if n == 8 {
                Ok(ConstrainedType::I64)
            } else {
                Err(ErrView::InvalidControl)
            },
            (PrimView::UInt, ast::Type2::Value(ast::Value::Uint(n))) => if n == 1 {
                Ok(ConstrainedType::U8)
            } else if n == 2 {
                Ok(ConstrainedType::U16)
            } else if n == 4 {
                Ok(ConstrainedType::U32)
            } else if n == 8 {
                Ok(ConstrainedType::U64)
            } else {
                Err(ErrView::InvalidControl)
            },
            (PrimView::TStr, ast::Type2::Value(ast::Value::Uint(n))) => Ok(
                ConstrainedType::Str(n),
            ),
            (PrimView::BStr, ast::Type2::Value(ast::Value::Uint(n))) => Ok(
                ConstrainedType::Bytes(n),
            ),
            _ => Err(ErrView::InvalidControl),
        },
        _ => Err(ErrView::InvalidControl),
    }
}

/// What flattening a control expression yields: only the size operator is
/// supported.
pub open spec fn sflatten_control(ctl: ast::TypeControl) -> Result<NodeView, ErrView> {
    if ctl.op@ == "size"@ {
        match scontrol_to_constrained(ctl) {
            Ok(t) => Ok(NodeView::ConstrainedType(t)),
            Err(e) => Err(e),
        }
    } else {
        Err(ErrView::UnsupportedCddl(ctl.op@))
    }
}

/// What flattening a type (a choice of alternatives) yields: exactly one
/// alternative must remain; zero alternatives and multiple alternatives are
/// rejected.
pub open spec fn sflatten_type(t: ast::Type) -> Result<NodeView, ErrView>
    decreases t, 0int,
{
    match sflatten_choices(t.0@) {
        Err(e) => Err(e),
        Ok(s) => if s.len() == 0 {
            Err(ErrView::InvalidEnum0)
        } else if s.len() == 1 {
            Ok(s[0])
        } else {
            Err(ErrView::TodoEnums)
        },
    }
}

/// Flatten each alternative of a choice, failing fast on the first error.
pub open spec fn sflatten_choices(s: Seq<ast::Type1>) -> Result<Seq<NodeView>, ErrView>
    decreases s, 0int,
{
    if s.len() == 0 {
        Ok(Seq::empty())
    } else {
        match sflatten_type1(s[0]) {
            Err(e) => Err(e),
            Ok(n) => match sflatten_choices(s.drop_first()) {
                Err(e) => Err(e),
                Ok(rest) => Ok(seq![n] + rest),
            },
        }
    }
}

/// What flattening one alternative yields: ranges are unsupported.
pub open spec fn sflatten_type1(t1: ast::Type1) -> Result<NodeView, ErrView>
    decreases t1, 0int,
{
    match t1 {
        ast::Type1::Simple(t2) => sflatten_type2(t2),
        ast::Type1::Range => Err(ErrView::UnsupportedCddl("range"@)),
        ast::Type1::Control(ctl) => sflatten_control(ctl),
    }
}

/// What flattening a plain type expression yields.
pub open spec fn sflatten_type2(t2: ast::Type2) -> Result<NodeView, ErrView>
    decreases t2, 0int,
{
    match t2 {
        ast::Type2::Value(v) => sflatten_value(v),
        ast::Type2::Typename(n) => sflatten_typename(n@),
        ast::Type2::Parenthesized(t) => sflatten_type(t),
        ast::Type2::Mapping(g) => sflatten_map(g),
        ast::Type2::Array(g) => sflatten_array(g),
        ast::Type2::Other => Err(ErrView::UnsupportedCddl("type"@)),
    }
}

/// The entries of a group: choices are unsupported, so the group must hold
/// exactly one choice.
pub open spec fn sget_entries(g: ast::Group) -> Result<Seq<ast::GrpEnt>, ErrView> {
    if g.0@.len() == 1 {
        Ok(g.0@[0].0@)
    } else {
        Err(ErrView::InvalidEnum0)
    }
}

/// What flattening a map literal yields: a nominal field list.
pub open spec fn sflatten_map(g: ast::Group) -> Result<NodeView, ErrView>
    decreases g, 1int,
{
    match sflatten_group(g) {
        Ok(members) => Ok(NodeView::Mapping(members)),
        Err(e) => Err(e),
    }
}

/// What flattening an array literal yields: exactly one member whose
/// repetition count is an exact number.
pub open spec fn sflatten_array(g: ast::Group) -> Result<NodeView, ErrView>
    decreases g, 1int,
{
    match sget_entries(g) {
        Err(e) => Err(e),
        Ok(entries) => if entries.len() == 1 {
            match sflatten_groupentry(entries[0]) {
                Err(e) => Err(e),
                Ok(ty) => match entries[0].occur {
                    Some(ast::Occur::Numbered(a, len)) => if a == len {
                        Ok(NodeView::Array { len: len as nat, ty: Box::new(ty) })
                    } else {
                        Err(ErrView::InvalidArraySize)
                    },
                    _ => Err(ErrView::InvalidArraySize),
                },
            }
        } else {
            Err(ErrView::InvalidArray)
        },
    }
}

/// Flatten a group's members, failing fast on the first error.
pub open spec fn sflatten_group(g: ast::Group) -> Result<Seq<NodeView>, ErrView>
    decreases g, 0int,
{
    match sget_entries(g) {
        Err(e) => Err(e),
        Ok(entries) => smembers(entries),
    }
}

/// Flatten a sequence of group entries, in order.
pub open spec fn smembers(s: Seq<ast::GrpEnt>) -> Result<Seq<NodeView>, ErrView>
    decreases s, 0int,
{
    if s.len() == 0 {
        Ok(Seq::empty())
    } else {
        match sflatten_groupentry(s[0]) {
            Err(e) => Err(e),
            Ok(n) => match smembers(s.drop_first()) {
                Err(e) => Err(e),
                Ok(rest) => Ok(seq![n] + rest),
            },
        }
    }
}

/// What flattening one group entry yields.
pub open spec fn sflatten_groupentry(ge: ast::GrpEnt) -> Result<NodeView, ErrView>
    decreases ge, 0int,
{
    match ge.val {
        ast::GrpEntVal::Member(m) => sflatten_member(m),
        ast::GrpEntVal::Parenthesized(g) => match sflatten_group(g) {
            Ok(members) => Ok(NodeView::Group(members)),
            Err(e) => Err(e),
        },
        ast::GrpEntVal::Groupname(_) => Err(ErrView::UnsupportedCddl(""@)),
    }
}

/// What flattening one group member yields: a keyed member becomes a named
/// field; a keyless member is accepted only as a bare reference.
pub open spec fn sflatten_member(m: ast::Member) -> Result<NodeView, ErrView>
    decreases m, 0int,
{
    match m.key {
        Some(ast::MemberKeyVal::Bareword(s)) => match sflatten_type(m.value) {
            Ok(n) => Ok(NodeView::KeyVal(s@, Box::new(n))),
            Err(e) => Err(e),
        },
        Some(ast::MemberKeyVal::Other) => Err(ErrView::InvalidGroupMissingKey),
        None => sassume_foreign(m.value),
    }
}

/// A keyless member's value must flatten to a bare reference: that is the
/// idiom that splices a named group's fields in place.
pub open spec fn sassume_foreign(t: ast::Type) -> Result<NodeView, ErrView>
    decreases t, 1int,
{
    match sflatten_type(t) {
        Ok(NodeView::Foreign(s)) => Ok(NodeView::Foreign(s)),
        _ => Err(ErrView::InvalidType),
    }
}

/// What flattening one rule yields: its name paired with its node.
pub open spec fn sflatten_rule(r: ast::Rule) -> Result<(Seq<char>, NodeView), ErrView>
    decreases r, 2int,
{
    let flat = match r.val {
        ast::RuleVal::AssignType(t) => sflatten_type(t),
        ast::RuleVal::AssignGroup(g) => sflatten_groupentry(g),
    };
    match flat {
        Ok(n) => Ok((r.name@, n)),
        Err(e) => Err(e),
    }
}

/// The view of a flattening result.
pub open spec fn node_res(r: FlattenResult<Node>) -> Result<NodeView, ErrView> {
    match r {
        Ok(n) => Ok(n@),
        Err(e) => Err(e@),
    }
}

/// Appending one node appends its view.
pub proof fn lemma_nodes_view_push(s: Seq<Node>, n: Node)
    ensures
        nodes_view(s.push(n)) == nodes_view(s).push(n@),
    decreases s.len(),
{
    lemma_nodes_view(s.push(n));
    lemma_nodes_view(s);
    assert forall|i: int| 0 <= i < s.len() + 1 implies nodes_view(s.push(n))[i] == nodes_view(
        s,
    ).push(n@)[i] by {
        assert(nodes_view(s.push(n))[i] == s.push(n)[i]@);
        if i < s.len() {
            assert(s.push(n)[i] == s[i]);
        } else {
            assert(s.push(n)[i] == n);
        }
    }
    assert(nodes_view(s.push(n)) =~= nodes_view(s).push(n@));
}

/// An encoded nonempty text is at least one byte long.
proof fn lemma_encode_nonempty(s: Seq<char>)
    requires
        s.len() > 0,
    ensures
        encode_utf8(s).len() >= 1,
{
    vstd::utf8::char_is_scalar(s[0]);
    assert(vstd::utf8::encode_scalar(s[0] as u32).len() >= 1);
}

/// A text encodes to exactly one byte exactly when it is a single character
/// of the 7-bit range.
proof fn lemma_one_byte_iff(s: Seq<char>)
    ensures
        (encode_utf8(s).len() == 1) <==> (s.len() == 1 && vstd::utf8::is_ascii_chars(s)),
{
    if s.len() == 0 {
        assert(encode_utf8(s).len() == 0);
    } else {
        vstd::utf8::char_is_scalar(s[0]);
        if s.len() == 1 {
            assert(s.drop_first().len() == 0);
            assert(encode_utf8(s.drop_first()).len() == 0);
            if (s[0] as u32) <= 0x7f {
                assert(vstd::utf8::encode_scalar(s[0] as u32).len() == 1);
                assert(vstd::utf8::is_ascii_chars(s)) by {
                    assert forall|i: int| 0 <= i < s.len() implies '\0' <= #[trigger] s[i]
                        <= '\u{7f}' by {
                        assert(s[i] == s[0]);
                        vstd::utf8::char_u32_cast(s[0], s[0] as u32);
                        vstd::utf8::char_u32_cast('\0', '\0' as u32);
                        vstd::utf8::char_u32_cast('\u{7f}', '\u{7f}' as u32);
                    }
                }
            } else {
                assert(vstd::utf8::encode_scalar(s[0] as u32).len() >= 2);
                assert(!('\0' <= s[0] <= '\u{7f}'));
            }
        } else {
            assert(vstd::utf8::encode_scalar(s[0] as u32).len() >= 1);
            lemma_encode_nonempty(s.drop_first());
            assert(encode_utf8(s).len() >= 2);
        }
    }
}

/// Copy a byte vector.
pub(crate) fn bytes_dup(b: &Vec<u8>) -> (r: Vec<u8>)
    ensures
        r@ == b@,
{
    let mut out: Vec<u8> = Vec::new();
    let mut i: usize = 0;
    while i < b.len()
        invariant
            0 <= i <= b@.len(),
            out@ == b@.subrange(0, i as int),
        decreases b@.len() - i,
    {
        out.push(b[i]);
        i = i + 1;
        proof {
            assert(out@ =~= b@.subrange(0, i as int));
        }
    }
    proof {
        assert(out@ =~= b@);
    }
    out
}

/// Classify a bare type name.
fn flatten_primative(prim: &str) -> (r: PrimativeType)
    ensures
        r@ == sprim(prim@),
{
    if str_eq(prim, "int") {
        PrimativeType::Int
    } else if str_eq(prim, "uint") {
        PrimativeType::UInt
    } else if str_eq(prim, "tstr") || str_eq(prim, "text") {
        PrimativeType::TStr
    } else if str_eq(prim, "bstr") || str_eq(prim, "bytes") {
        PrimativeType::BStr
    } else if str_eq(prim, "bool") || str_eq(prim, "boolean") {
        PrimativeType::Bool
    } else {
        PrimativeType::Unresolved(str_to_owned(prim))
    }
}

/// Flatten a text literal: one byte of text is a character constant.
fn flatten_literal_text(val: &str) -> (r: Literal)
    ensures
        r@ == slit_text(val@),
{
    proof {
        lemma_one_byte_iff(val@);
    }
    if val.unicode_len() == 1 && val.is_ascii() {
        Literal::Char(val.get_char(0))
    } else {
        Literal::Str(str_to_owned(val))
    }
}

/// Flatten a literal value.
fn flatten_value(val: &ast::Value) -> (r: FlattenResult<Node>)
    ensures
        node_res(r) == sflatten_value(*val),
{
    match val {
        ast::Value::Text(s) => Ok(Node::Literal(flatten_literal_text(s.as_str()))),
        ast::Value::Nint(i) => Ok(Node::Literal(Literal::Int(*i))),
        ast::Value::Uint(u) => Ok(Node::Literal(Literal::UInt(*u))),
        ast::Value::Bytes(b) => Ok(Node::Literal(Literal::Bytes(bytes_dup(b)))),
        ast::Value::Float => Err(ValidateError::InvalidLiteral),
    }
}

/// Flatten a bare type name.
fn flatten_typename(name: &str) -> (r: FlattenResult<Node>)
    ensures
        node_res(r) == sflatten_typename(name@),
{
    match flatten_primative(name) {
        PrimativeType::Int => Err(ValidateError::InvalidUnconstrainedPrimative),
        PrimativeType::UInt => Err(ValidateError::InvalidUnconstrainedPrimative),
        PrimativeType::TStr => Err(ValidateError::InvalidUnconstrainedPrimative),
        PrimativeType::BStr => Err(ValidateError::InvalidUnconstrainedPrimative),
        PrimativeType::Bool => Ok(Node::ConstrainedType(ConstrainedType::Bool)),
        PrimativeType::Unresolved(s) => Ok(Node::Foreign(s)),
    }
}

/// Fold a size-control expression into the matching constrained type.
fn control_to_constrained_type(ctl: &ast::TypeControl) -> (r: FlattenResult<ConstrainedType>)
    ensures
        match r {
            Ok(t) => scontrol_to_constrained(*ctl) == Ok::<ConstrainedType, ErrView>(t),
            Err(e) => scontrol_to_constrained(*ctl) == Err::<ConstrainedType, ErrView>(e@),
        },
{
    if let ast::Type2::Typename(s) = &ctl.target {
        match (flatten_primative(s.as_str()), &ctl.arg) {
            (PrimativeType::Int, ast::Type2::Value(ast::Value::Uint(n))) => {
                if *n == 1 {
                    Ok(ConstrainedType::I8)
                } else if *n == 2 {
                    Ok(ConstrainedType::I16)
                } else if *n == 4 {
                    Ok(ConstrainedType::I32)
                } else if *n == 8 {
                    Ok(ConstrainedType::I64)
                } else {
                    Err(ValidateError::InvalidControl)
                }
            },
            (PrimativeType::UInt, ast::Type2::Value(ast::Value::Uint(n))) => {
                if *n == 1 {
                    Ok(ConstrainedType::U8)
                } else if *n == 2 {
                    Ok(ConstrainedType::U16)
                } else if *n == 4 {
                    Ok(ConstrainedType::U32)
                } else if *n == 8 {
                    Ok(ConstrainedType::U64)
                } else {
                    Err(ValidateError::InvalidControl)
                }
            },
            (PrimativeType::TStr, ast::Type2::Value(ast::Value::Uint(n))) => Ok(
                ConstrainedType::Str(*n),
            ),
            (PrimativeType::BStr, ast::Type2::Value(ast::Value::Uint(n))) => Ok(
                ConstrainedType::Bytes(*n),
            ),
            _ => Err(ValidateError::InvalidControl),
        }
    } else {
        Err(ValidateError::InvalidControl)
    }
}

/// Flatten a control expression; only the size operator is supported.
fn flatten_control(ctl: &ast::TypeControl) -> (r: FlattenResult<Node>)
    ensures
        node_res(r) == sflatten_control(*ctl),
{
    if str_eq(ctl.op.as_str(), "size") {
        match control_to_constrained_type(ctl) {
            Ok(t) => Ok(Node::ConstrainedType(t)),
            Err(e) => Err(e),
        }
    } else {
        Err(ValidateError::UnsupportedCddl(ctl.op.clone()))
    }
}

/// Flatten a type: exactly one choice alternative must remain.
pub(crate) fn flatten_type(ty: &ast::Type) -> (r: FlattenResult<Node>)
    ensures
        node_res(r) == sflatten_type(*ty),
    decreases *ty, 4int,
{
    let mut nodes: Vec<Node> = Vec::new();
    let n = ty.0.len();
    let mut i: usize = 0;
    proof {
        assert(ty.0@.skip(0) =~= ty.0@);
        match sflatten_choices(ty.0@) {
            Ok(rest) => {
                assert(nodes_view(nodes@) + rest =~= rest);
            },
            Err(e) => {},
        }
    }
    while i < n
        invariant
            n == ty.0@.len(),
            0 <= i <= n,
            match sflatten_choices(ty.0@.skip(i as int)) {
                Ok(rest) => sflatten_choices(ty.0@) == Ok::<_, ErrView>(
                    nodes_view(nodes@) + rest,
                ),
                Err(e) => sflatten_choices(ty.0@) == Err::<Seq<NodeView>, _>(e),
            },
        decreases n - i,
    {
        proof {
            assert(ty.0@.skip(i as int)[0] == ty.0@[i as int]);
        }
        match flatten_type1(&ty.0[i]) {
            Ok(node) => {
                let ghost old_nodes = nodes@;
                nodes.push(node);
                proof {
                    lemma_nodes_view_push(old_nodes, node);
                    assert(ty.0@.skip(i as int).drop_first() =~= ty.0@.skip(i + 1));
                    match sflatten_choices(ty.0@.skip(i + 1)) {
                        Ok(rest) => {
                            assert(nodes_view(old_nodes) + (seq![node@] + rest) =~= nodes_view(
                                nodes@,
                            ) + rest);
                        },
                        Err(e) => {},
                    }
                }
            },
            Err(e) => {
                return Err(e);
            },
        }
        i = i + 1;
    }
    proof {
        assert(ty.0@.skip(n as int) =~= Seq::<ast::Type1>::empty());
        assert(nodes_view(nodes@) + Seq::<NodeView>::empty() =~= nodes_view(nodes@));
        lemma_nodes_view(nodes@);
    }
    if nodes.len() == 0 {
        Err(ValidateError::InvalidEnum0)
    } else if nodes.len() == 1 {
        match nodes.pop() {
            Some(node) => Ok(node),
            None => Err(ValidateError::Infallible),
        }
    } else {
        Err(ValidateError::TodoEnums)
    }
}

/// Flatten one choice alternative.
fn flatten_type1(ty1: &ast::Type1) -> (r: FlattenResult<Node>)
    ensures
        node_res(r) == sflatten_type1(*ty1),
    decreases *ty1, 0int,
{
    match ty1 {
        ast::Type1::Simple(ty2) => flatten_type2(ty2),
        ast::Type1::Range => Err(ValidateError::UnsupportedCddl(str_to_owned("range"))),
        ast::Type1::Control(ctl) => flatten_control(ctl),
    }
}

/// Flatten a plain type expression.
fn flatten_type2(ty2: &ast::Type2) -> (r: FlattenResult<Node>)
    ensures
        node_res(r) == sflatten_type2(*ty2),
    decreases *ty2, 0int,
{
    match ty2 {
        ast::Type2::Value(v) => flatten_value(v),
        ast::Type2::Typename(t) => flatten_typename(t.as_str()),
        ast::Type2::Parenthesized(t) => flatten_type(t),
        ast::Type2::Mapping(g) => flatten_map(g),
        ast::Type2::Array(g) => flatten_array(g),
        ast::Type2::Other => Err(ValidateError::UnsupportedCddl(str_to_owned("type"))),
    }
}

/// Flatten a map literal into a nominal field list.
fn flatten_map(group: &ast::Group) -> (r: FlattenResult<Node>)
    ensures
        node_res(r) == sflatten_map(*group),
    decreases *group, 2int,
{
    match flatten_group(group) {
        Ok(members) => Ok(Node::Mapping(Group { members })),
        Err(e) => Err(e),
    }
}

/// Flatten an array literal: one member with an exact repetition count.
fn flatten_array(group: &ast::Group) -> (r: FlattenResult<Node>)
    ensures
        node_res(r) == sflatten_array(*group),
    decreases *group, 2int,
{
    match get_group_entries(group) {
        Err(e) => Err(e),
        Ok(entries) => {
            if entries.len() == 1 {
                let ty = match flatten_groupentry(&entries[0]) {
                    Ok(t) => t,
                    Err(e) => {
                        return Err(e);
                    },
                };
                match entries[0].occur {
                    Some(ast::Occur::Numbered(a, len)) => {
                        if a == len {
                            Ok(Node::Array(Array { len, ty: Box::new(ty) }))
                        } else {
                            Err(ValidateError::InvalidArraySize)
                        }
                    },
                    _ => Err(ValidateError::InvalidArraySize),
                }
            } else {
                Err(ValidateError::InvalidArray)
            }
        },
    }
}

/// Flatten a group's members in order.
fn flatten_group(group: &ast::Group) -> (r: FlattenResult<Vec<Node>>)
    ensures
        match r {
            Ok(v) => sflatten_group(*group) == Ok::<_, ErrView>(nodes_view(v@)),
            Err(e) => sflatten_group(*group) == Err::<Seq<NodeView>, _>(e@),
        },
    decreases *group, 1int,
{
    let entries = match get_group_entries(group) {
        Ok(entries) => entries,
        Err(e) => {
            return Err(e);
        },
    };
    let mut nodes: Vec<Node> = Vec::new();
    let n = entries.len();
    let mut i: usize = 0;
    proof {
        assert(entries@.skip(0) =~= entries@);
        match smembers(entries@) {
            Ok(rest) => {
                assert(nodes_view(nodes@) + rest =~= rest);
            },
            Err(e) => {},
        }
    }
    while i < n
        invariant
            n == entries@.len(),
            0 <= i <= n,
            sget_entries(*group) == Ok::<_, ErrView>(entries@),
            match smembers(entries@.skip(i as int)) {
                Ok(rest) => smembers(entries@) == Ok::<_, ErrView>(nodes_view(nodes@) + rest),
                Err(e) => smembers(entries@) == Err::<Seq<NodeView>, _>(e),
            },
        decreases n - i,
    {
        proof {
            assert(entries@.skip(i as int)[0] == entries@[i as int]);
            assert(decreases_to!(*group => entries@[i as int]));
        }
        match flatten_groupentry(&entries[i]) {
            Ok(node) => {
                let ghost old_nodes = nodes@;
                nodes.push(node);
                proof {
                    lemma_nodes_view_push(old_nodes, node);
                    assert(entries@.skip(i as int).drop_first() =~= entries@.skip(i + 1));
                    match smembers(entries@.skip(i + 1)) {
                        Ok(rest) => {
                            assert(nodes_view(old_nodes) + (seq![node@] + rest) =~= nodes_view(
                                nodes@,
                            ) + rest);
                        },
                        Err(e) => {},
                    }
                }
            },
            Err(e) => {
                return Err(e);
            },
        }
        i = i + 1;
    }
    proof {
        assert(entries@.skip(n as int) =~= Seq::<ast::GrpEnt>::empty());
        assert(nodes_view(nodes@) + Seq::<NodeView>::empty() =~= nodes_view(nodes@));
    }
    Ok(nodes)
}

/// The entries of a group; group choices are unsupported.
fn get_group_entries<'a>(group: &'a ast::Group) -> (r: FlattenResult<&'a Vec<ast::GrpEnt>>)
    ensures
        match r {
            Ok(v) => sget_entries(*group) == Ok::<_, ErrView>(v@),
            Err(e) => sget_entries(*group) == Err::<Seq<ast::GrpEnt>, _>(e@),
        },
{
    if group.0.len() == 1 {
        Ok(&group.0[0].0)
    } else {
        Err(ValidateError::InvalidEnum0)
    }
}

/// Flatten one group entry.
pub(crate) fn flatten_groupentry(group_entry: &ast::GrpEnt) -> (r: FlattenResult<Node>)
    ensures
        node_res(r) == sflatten_groupentry(*group_entry),
    decreases *group_entry, 3int,
{
    match &group_entry.val {
        ast::GrpEntVal::Member(m) => flatten_group_member(m),
        ast::GrpEntVal::Parenthesized(g) => match flatten_group(g) {
            Ok(members) => Ok(Node::Group(Group { members })),
            Err(e) => Err(e),
        },
        ast::GrpEntVal::Groupname(_) => {
            proof {
                reveal_strlit("");
                assert(""@ =~= Seq::<char>::empty());
            }
            Err(ValidateError::UnsupportedCddl(String::new()))
        },
    }
}

/// Flatten one group member: keyed members become named fields; a keyless
/// member must be a bare reference.
fn flatten_group_member(member: &ast::Member) -> (r: FlattenResult<Node>)
    ensures
        node_res(r) == sflatten_member(*member),
    decreases *member, 6int,
{
    match &member.key {
        Some(ast::MemberKeyVal::Bareword(s)) => match flatten_type(&member.value) {
            Ok(node) => Ok(Node::KeyVal(KeyVal::new(s.as_str(), node))),
            Err(e) => Err(e),
        },
        Some(ast::MemberKeyVal::Other) => Err(ValidateError::InvalidGroupMissingKey),
        None => assume_foreign_value(&member.value),
    }
}

/// A keyless member's value must be a bare reference to another rule.
fn assume_foreign_value(ty: &ast::Type) -> (r: FlattenResult<Node>)
    ensures
        node_res(r) == sassume_foreign(*ty),
    decreases *ty, 5int,
{
    match flatten_type(ty) {
        Ok(Node::Foreign(s)) => Ok(Node::Foreign(s)),
        _ => Err(ValidateError::InvalidType),
    }
}

/// Flatten one rule into its name and node.
pub(crate) fn flatten_rule(rule: &ast::Rule) -> (r: FlattenResult<(String, Node)>)
    ensures
        match r {
            Ok(p) => sflatten_rule(*rule) == Ok::<_, ErrView>((p.0@, p.1@)),
            Err(e) => sflatten_rule(*rule) == Err::<(Seq<char>, NodeView), _>(e@),
        },
{
    let node = match &rule.val {
        ast::RuleVal::AssignType(t) => flatten_type(t),
        ast::RuleVal::AssignGroup(g) => flatten_groupentry(g),
    };
    match node {
        Ok(node) => Ok((rule.name.clone(), node)),
        Err(e) => Err(e),
    }
}

/// What flattening a whole schema yields: the rule table, later rules of the
/// same name replacing earlier ones, with the first error failing the whole
/// run.
pub open spec fn sflatten_rules(s: Seq<ast::Rule>) -> Result<Map<Seq<char>, NodeView>, ErrView>
    decreases s, 3int,
{
    if s.len() == 0 {
        Ok(Map::empty())
    } else {
        match sflatten_rule(s[0]) {
            Err(e) => Err(e),
            Ok((k, v)) => match sflatten_rules(s.drop_first()) {
                Err(e) => Err(e),
                Ok(m) => if m.dom().contains(k) {
                    Ok(m)
                } else {
                    Ok(m.insert(k, v))
                },
            },
        }
    }
}

} // verus!
