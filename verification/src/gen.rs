//! The rendering stage: from the linked rule table to text artifacts.
//!
//! Rendering maps every struct of the linked mapping onto a type declaration
//! of the requested target language, each field carrying its zero-based
//! binary field index as serialization metadata, and every literal rule onto
//! a named constant. Identifier casing follows the target language's
//! convention; an optional prefix is applied before case conversion, so the
//! whole prefixed name is re-cased as a unit.

use vstd::prelude::*;

verus! {

broadcast use {vstd::std_specs::vec::group_vec_axioms, vstd::seq::group_seq_axioms};

use crate::strutil::{push_char, str_eq, str_to_owned};
use crate::util::ValidateError;
use crate::ivt::{ConstrainedType, Literal, LitView};
use crate::validate::{lkvs_view, Fields, LinkedKeyVal, LinkedNode, LinkedNodeMap, LinkedView};

/// The target output language.
#[derive(Debug, PartialEq, Eq, Clone, Copy)]
pub enum Language {
    /// Systems code with a C-ABI binding flavor.
    C,
    /// Plain systems-struct code.
    Rust,
    /// Interchange code with bridging accessors.
    Typescript,
}

impl Default for Language {
    /// The binding flavor is the default target.
    fn default() -> (r: Language)
        ensures
            r == Language::C,
    {
        Language::C
    }
}

/// Options for modifying the behavior of rendered code.
#[derive(Debug, PartialEq)]
pub struct Options {
    /// The target output language.
    pub language: Language,
    /// An identifier prefix, applied before case conversion.
    pub prefix: Option<String>,
    /// A semantic version for generated project scaffolding.
    pub version: Option<String>,
}

impl Default for Options {
    /// The default render configuration: default language, no prefix, no
    /// version.
    fn default() -> (r: Options)
        ensures
            r.language == Language::C,
            r.prefix is None,
            r.version is None,
    {
        Options { language: Language::C, prefix: None, version: None }
    }
}

/// A rendering failure.
#[derive(Debug, PartialEq)]
pub enum RenderError {
    /// A validation failure surfaced through rendering.
    Validate(ValidateError),
    /// A malformed generation directive; the payload describes it.
    Render(String),
    /// An invalid case-conversion request; the payload names it.
    Case(String),
    /// A literal kind that cannot be rendered as a named constant.
    UnsupportedLiteral,
    /// A type or array-element combination that this version does not render.
    Unimplemented,
}

/// The text of each rendering failure's description.
pub open spec fn srender_message(e: RenderError) -> Seq<char> {
    match e {
        RenderError::Validate(v) => crate::util::smessage(v),
        RenderError::Render(s) => "render failure "@ + s@,
        RenderError::Case(s) => "invalid case "@ + s@,
        RenderError::UnsupportedLiteral => "unsupported literal"@,
        RenderError::Unimplemented => "unimplemented"@,
    }
}

impl RenderError {
    /// A human-readable description of the failure.
    pub fn message(&self) -> (r: String)
        ensures
            r@ == srender_message(*self),
    {
        match self {
            RenderError::Validate(e) => e.message(),
            RenderError::Render(s) => {
                let mut out = str_to_owned("render failure ");
                out.append(s.as_str());
                out
            },
            RenderError::Case(s) => {
                let mut out = str_to_owned("invalid case ");
                out.append(s.as_str());
                out
            },
            RenderError::UnsupportedLiteral => str_to_owned("unsupported literal"),
            RenderError::Unimplemented => str_to_owned("unimplemented"),
        }
    }
}

impl From<ValidateError> for RenderError {
    /// A validation failure surfaces as a rendering failure.
    fn from(value: ValidateError) -> (r: RenderError) {
        RenderError::Validate(value)
    }
}

impl vstd::std_specs::convert::FromSpecImpl<ValidateError> for RenderError {
    open spec fn obeys_from_spec() -> bool {
        true
    }

    open spec fn from_spec(value: ValidateError) -> RenderError {
        RenderError::Validate(value)
    }
}

/// The spec-level mirror of [`RenderError`].
pub enum RendErrView {
    Validate(crate::util::ErrView),
    Render(Seq<char>),
    Case(Seq<char>),
    UnsupportedLiteral,
    Unimplemented,
}

impl View for RenderError {
    type V = RendErrView;

    open spec fn view(&self) -> RendErrView {
        match self {
            RenderError::Validate(e) => RendErrView::Validate(e@),
            RenderError::Render(s) => RendErrView::Render(s@),
            RenderError::Case(s) => RendErrView::Case(s@),
            RenderError::UnsupportedLiteral => RendErrView::UnsupportedLiteral,
            RenderError::Unimplemented => RendErrView::Unimplemented,
        }
    }
}

/// All methods of this module return a `RenderResult`.
pub type RenderResult<T> = Result<T, RenderError>;

/// The view of a string-rendering result.
pub open spec fn render_res(r: RenderResult<String>) -> Result<Seq<char>, RendErrView> {
    match r {
        Ok(s) => Ok(s@),
        Err(e) => Err(e@),
    }
}

/// What heck's `to_snake_case` returns: the result depends on the characters
/// alone.
pub uninterp spec fn snake_of(s: Seq<char>) -> Seq<char>;

/// What heck's `to_shouty_snake_case` returns: the result depends on the
/// characters alone.
pub uninterp spec fn shouty_snake_of(s: Seq<char>) -> Seq<char>;

/// What heck's `to_upper_camel_case` returns: the result depends on the
/// characters alone.
pub uninterp spec fn upper_camel_of(s: Seq<char>) -> Seq<char>;

/// What heck's `to_lower_camel_case` returns: the result depends on the
/// characters alone.
pub uninterp spec fn lower_camel_of(s: Seq<char>) -> Seq<char>;

/// Relies on `heck::ToSnakeCase::to_snake_case`: a pure function of the text.
#[verifier::external_body]
fn heck_snake(s: &str) -> (r: String)
    ensures
        r@ == snake_of(s@),
{
    heck::ToSnakeCase::to_snake_case(s)
}

/// Relies on `heck::ToShoutySnakeCase::to_shouty_snake_case`: a pure
/// function of the text.
#[verifier::external_body]
fn heck_shouty_snake(s: &str) -> (r: String)
    ensures
        r@ == shouty_snake_of(s@),
{
    heck::ToShoutySnakeCase::to_shouty_snake_case(s)
}

/// Relies on `heck::ToUpperCamelCase::to_upper_camel_case`: a pure function
/// of the text.
#[verifier::external_body]
fn heck_upper_camel(s: &str) -> (r: String)
    ensures
        r@ == upper_camel_of(s@),
{
    heck::ToUpperCamelCase::to_upper_camel_case(s)
}

/// Relies on `heck::ToLowerCamelCase::to_lower_camel_case`: a pure function
/// of the text.
#[verifier::external_body]
fn heck_lower_camel(s: &str) -> (r: String)
    ensures
        r@ == lower_camel_of(s@),
{
    heck::ToLowerCamelCase::to_lower_camel_case(s)
}

/// The view of an optional string.
pub open spec fn opt_view(p: Option<String>) -> Option<Seq<char>> {
    match p {
        Some(s) => Some(s@),
        None => None,
    }
}

/// Copy an optional string.
fn clone_opt_string(p: &Option<String>) -> (r: Option<String>)
    ensures
        opt_view(r) == opt_view(*p),
{
    match p {
        Some(s) => Some(s.clone()),
        None => None,
    }
}

/// The decimal digits of a number.
pub open spec fn dec_digits(n: nat) -> Seq<char>
    decreases n,
{
    if n < 10 {
        seq![((48 + n) as u8) as char]
    } else {
        dec_digits(n / 10) + seq![((48 + n % 10) as u8) as char]
    }
}

/// The decimal rendering of a signed number.
pub open spec fn dec_int(v: int) -> Seq<char> {
    if v >= 0 {
        dec_digits(v as nat)
    } else {
        seq!['-'] + dec_digits((-v) as nat)
    }
}

/// Render a number in decimal.
pub fn u64_to_dec(n: u64) -> (r: String)
    ensures
        r@ == dec_digits(n as nat),
    decreases n,
{
    if n < 10 {
        let mut s = String::new();
        push_char(&mut s, (48 + n as u8) as char);
        proof {
            assert(s@ =~= dec_digits(n as nat));
        }
        s
    } else {
        let mut s = u64_to_dec(n / 10);
        push_char(&mut s, (48 + (n % 10) as u8) as char);
        proof {
            assert(s@ =~= dec_digits(n as nat));
        }
        s
    }
}

/// Render a signed number in decimal.
pub fn i64_to_dec(v: i64) -> (r: String)
    ensures
        r@ == dec_int(v as int),
{
    if v >= 0 {
        u64_to_dec(v as u64)
    } else {
        let n: u64 = if v == i64::MIN {
            0x8000_0000_0000_0000
        } else {
            (-v) as u64
        };
        let mut s = String::new();
        push_char(&mut s, '-');
        let digits = u64_to_dec(n);
        s.append(digits.as_str());
        proof {
            assert(s@ =~= dec_int(v as int));
        }
        s
    }
}

/// The snake-cased name, prefixed first for the binding-flavor target.
pub open spec fn sto_snake(s: Seq<char>, lang: Language, prefix: Option<Seq<char>>) -> Seq<char> {
    match (lang, prefix) {
        (Language::C, Some(p)) => snake_of(p + s),
        _ => snake_of(s),
    }
}

/// The shouty-snake-cased name, prefixed first for the binding-flavor target.
pub open spec fn sto_shouty(s: Seq<char>, lang: Language, prefix: Option<Seq<char>>) -> Seq<char> {
    match (lang, prefix) {
        (Language::C, Some(p)) => shouty_snake_of(p + s),
        _ => shouty_snake_of(s),
    }
}

/// The upper-camel-cased name, prefixed first for the binding-flavor target.
pub open spec fn sto_upper(s: Seq<char>, lang: Language, prefix: Option<Seq<char>>) -> Seq<char> {
    match (lang, prefix) {
        (Language::C, Some(p)) => upper_camel_of(p + s),
        _ => upper_camel_of(s),
    }
}

/// The lower-camel-cased name, prefixed first for the binding-flavor target.
pub open spec fn sto_lower(s: Seq<char>, lang: Language, prefix: Option<Seq<char>>) -> Seq<char> {
    match (lang, prefix) {
        (Language::C, Some(p)) => lower_camel_of(p + s),
        _ => lower_camel_of(s),
    }
}

/// A function name: the verb and the name joined, always prefixed when a
/// prefix is given, then snake-cased as a whole.
pub open spec fn sto_fn(
    s: Seq<char>,
    verb: Seq<char>,
    lang: Language,
    prefix: Option<Seq<char>>,
) -> Seq<char> {
    match prefix {
        Some(p) => snake_of(p + verb + seq!['_'] + s),
        None => snake_of(verb + seq!['_'] + s),
    }
}

/// Change a name to snake case for the given target.
fn to_snake_case(val: &str, language: Language, prefix: Option<String>) -> (r: String)
    ensures
        r@ == sto_snake(val@, language, opt_view(prefix)),
{
    match (language, prefix) {
        (Language::C, Some(prefix)) => {
            let mut s = prefix;
            s.append(val);
            heck_snake(s.as_str())
        },
        (_, _) => heck_snake(val),
    }
}

/// Change a name to shouty snake case for the given target.
fn to_shouty_snake_case(val: &str, lang: Language, prefix: Option<String>) -> (r: String)
    ensures
        r@ == sto_shouty(val@, lang, opt_view(prefix)),
{
    match (lang, prefix) {
        (Language::C, Some(prefix)) => {
            let mut s = prefix;
            s.append(val);
            heck_shouty_snake(s.as_str())
        },
        (_, _) => heck_shouty_snake(val),
    }
}

/// Change a name to upper camel case for the given target.
fn to_upper_camel_case(val: &str, lang: Language, prefix: Option<String>) -> (r: String)
    ensures
        r@ == sto_upper(val@, lang, opt_view(prefix)),
{
    match (lang, prefix) {
        (Language::C, Some(prefix)) => {
            let mut s = prefix;
            s.append(val);
            heck_upper_camel(s.as_str())
        },
        (_, _) => heck_upper_camel(val),
    }
}

/// Change a name to lower camel case for the given target.
fn to_lower_camel_case(val: &str, lang: Language, prefix: Option<String>) -> (r: String)
    ensures
        r@ == sto_lower(val@, lang, opt_view(prefix)),
{
    match (lang, prefix) {
        (Language::C, Some(prefix)) => {
            let mut s = prefix;
            s.append(val);
            heck_lower_camel(s.as_str())
        },
        (_, _) => heck_lower_camel(val),
    }
}

/// Build a function name from a verb and a name.
fn to_fn_case(name: &str, verb: &str, lang: Language, prefix: Option<String>) -> (r: String)
    ensures
        r@ == sto_fn(name@, verb@, lang, opt_view(prefix)),
{
    match (lang, prefix) {
        (_, Some(prefix)) => {
            let mut s = prefix;
            s.append(verb);
            push_char(&mut s, '_');
            s.append(name);
            proof {
                assert(s@ =~= opt_view(Some(prefix)).unwrap() + verb@ + seq!['_'] + name@);
            }
            heck_snake(s.as_str())
        },
        (_, _) => {
            let mut s = str_to_owned(verb);
            push_char(&mut s, '_');
            s.append(name);
            proof {
                assert(s@ =~= verb@ + seq!['_'] + name@);
            }
            heck_snake(s.as_str())
        },
    }
}

/// What the case-conversion request named by `case` yields: struct names
/// follow the target's type convention, function names take a verb, constant
/// names are shouty; an unknown request is an error naming it.
pub open spec fn scaseify(
    s: Seq<char>,
    case: Seq<char>,
    verb: Option<Seq<char>>,
    lang: Language,
    prefix: Option<Seq<char>>,
) -> Result<Seq<char>, RendErrView> {
    if case == "struct"@ {
        match lang {
            Language::C => Ok(sto_snake(s, lang, prefix)),
            _ => Ok(sto_upper(s, lang, prefix)),
        }
    } else if case == "fn"@ {
        match verb {
            Some(v) => Ok(sto_fn(s, v, lang, prefix)),
            None => Err(RendErrView::Render(Seq::empty())),
        }
    } else if case == "enum"@ || case == "const"@ || case == "define"@ {
        Ok(sto_shouty(s, lang, prefix))
    } else if case == "lowerCamelCase"@ {
        Ok(sto_lower(s, lang, prefix))
    } else {
        Err(RendErrView::Case(case))
    }
}

/// Change a name's case as the request names it.
pub fn caseify(s: &str, case: &str, verb: Option<&str>, opts: &Options) -> (r: RenderResult<
    String,
>)
    ensures
        render_res(r) == scaseify(s@, case@, match verb {
            Some(v) => Some(v@),
            None => None,
        }, opts.language, opt_view(opts.prefix)),
{
    let lang = opts.language;
    let pre = clone_opt_string(&opts.prefix);
    if str_eq(case, "struct") {
        match lang {
            Language::C => Ok(to_snake_case(s, lang, pre)),
            _ => Ok(to_upper_camel_case(s, lang, pre)),
        }
    } else if str_eq(case, "fn") {
        match verb {
            Some(v) => Ok(to_fn_case(s, v, lang, pre)),
            None => {
                proof {
                    reveal_strlit("");
                    assert(""@ =~= Seq::<char>::empty());
                }
                Err(RenderError::Render(String::new()))
            },
        }
    } else if str_eq(case, "enum") || str_eq(case, "const") || str_eq(case, "define") {
        Ok(to_shouty_snake_case(s, lang, pre))
    } else if str_eq(case, "lowerCamelCase") {
        Ok(to_lower_camel_case(s, lang, pre))
    } else {
        Err(RenderError::Case(str_to_owned(case)))
    }
}

/// A struct's rendered type name for the given target.
pub open spec fn sstruct_name(s: Seq<char>, lang: Language, prefix: Option<Seq<char>>) -> Seq<
    char,
> {
    match lang {
        Language::C => sto_snake(s, lang, prefix),
        _ => sto_upper(s, lang, prefix),
    }
}

/// Render a struct's type name for the given target.
fn struct_name(s: &str, opts: &Options) -> (r: String)
    ensures
        r@ == sstruct_name(s@, opts.language, opt_view(opts.prefix)),
{
    let pre = clone_opt_string(&opts.prefix);
    match opts.language {
        Language::C => to_snake_case(s, opts.language, pre),
        _ => to_upper_camel_case(s, opts.language, pre),
    }
}

/// The fixed-width scalar type name of the systems-struct target.
pub open spec fn sscalar_rs(t: ConstrainedType) -> Seq<char>
    recommends
        !(t is Str),
        !(t is Bytes),
{
    match t {
        ConstrainedType::U8 => "u8"@,
        ConstrainedType::I8 => "i8"@,
        ConstrainedType::U16 => "u16"@,
        ConstrainedType::I16 => "i16"@,
        ConstrainedType::U32 => "u32"@,
        ConstrainedType::I32 => "i32"@,
        ConstrainedType::U64 => "u64"@,
        ConstrainedType::I64 => "i64"@,
        ConstrainedType::Bool => "bool"@,
        _ => ""@,
    }
}

/// The field declaration of one resolved field in the systems-struct shape,
/// `vis` holding the visibility prefix of the target mode. Fixed-length text
/// and byte-array fields become fixed-size byte arrays; an array over
/// anything but a 1-byte scalar is not rendered by this version.
pub open spec fn sfield_rs(
    key: Seq<char>,
    lv: LinkedView,
    lang: Language,
    prefix: Option<Seq<char>>,
    vis: Seq<char>,
) -> Result<Seq<char>, RendErrView> {
    let k = snake_of(key);
    match lv {
        LinkedView::ConstrainedType(t) => match t {
            ConstrainedType::Str(n) => Ok(vis + k + ": [u8; "@ + dec_digits(n as nat) + "]"@),
            ConstrainedType::Bytes(n) => Err(RendErrView::Unimplemented),
            _ => Ok(vis + k + ": "@ + sscalar_rs(t)),
        },
        LinkedView::ForeignStruct(s) => Ok(vis + k + ": "@ + sstruct_name(s, lang, prefix)),
        LinkedView::Array { len, ty } => match *ty {
            LinkedView::ConstrainedType(ConstrainedType::U8) => Ok(
                vis + k + ": [u8; "@ + dec_digits(len) + "]"@,
            ),
            _ => Err(RendErrView::Unimplemented),
        },
        _ => Err(RendErrView::Unimplemented),
    }
}

/// The field declaration of one resolved field in the C-ABI header shape.
pub open spec fn sfield_c(key: Seq<char>, lv: LinkedView) -> Result<Seq<char>, RendErrView> {
    let k = snake_of(key);
    match lv {
        LinkedView::ConstrainedType(t) => match t {
            ConstrainedType::U8 => Ok("uint8_t "@ + k),
            ConstrainedType::I8 => Ok("int8_t "@ + k),
            ConstrainedType::U16 => Ok("uint16_t "@ + k),
            ConstrainedType::I16 => Ok("int16_t "@ + k),
            ConstrainedType::U32 => Ok("uint32_t "@ + k),
            ConstrainedType::I32 => Ok("int32_t "@ + k),
            ConstrainedType::U64 => Ok("uint64_t "@ + k),
            ConstrainedType::I64 => Ok("int64_t "@ + k),
            ConstrainedType::Bool => Ok("bool "@ + k),
            ConstrainedType::Str(n) => Ok("char "@ + k + "["@ + dec_digits(n as nat) + "]"@),
            ConstrainedType::Bytes(n) => Err(RendErrView::Unimplemented),
        },
        _ => Err(RendErrView::Unimplemented),
    }
}

/// The raw-bytes binding attribute at a field index.
pub open spec fn sattr_bytes(i: nat) -> Seq<char> {
    "#[cbor(n("@ + dec_digits(i) + "), with = \"minicbor::bytes\")]"@
}

/// The plain field-index attribute.
pub open spec fn sattr_n(i: nat) -> Seq<char> {
    "#[n("@ + dec_digits(i) + ")]"@
}

/// The serialization attributes of one field in the systems-struct mode:
/// every field carries its zero-based binary field index; byte arrays and
/// fixed-length text carry the raw-bytes binding hint, and byte arrays over
/// the inline threshold of 32 carry the big-array helper hint.
pub open spec fn sattr_rust(lv: LinkedView, i: nat) -> Seq<char> {
    match lv {
        LinkedView::Array { len, ty } => match *ty {
            LinkedView::ConstrainedType(ConstrainedType::U8) => if len <= 32 {
                sattr_bytes(i)
            } else {
                sattr_bytes(i) + " #[serde(with=\"BigArray\")]"@
            },
            _ => sattr_n(i),
        },
        LinkedView::ConstrainedType(ConstrainedType::Str(n)) => sattr_bytes(i)
            + " #[serde(serialize_with = \"ser_bytes_as_str\")] #[serde(deserialize_with = \"de_str_as_bytes\")]"@,
        _ => sattr_n(i),
    }
}

/// The serialization attributes of one field in the binding-flavor mode.
pub open spec fn sattr_c(lv: LinkedView, i: nat) -> Seq<char> {
    match lv {
        LinkedView::Array { len, ty } => match *ty {
            LinkedView::ConstrainedType(ConstrainedType::U8) => sattr_bytes(i),
            _ => sattr_n(i),
        },
        LinkedView::ConstrainedType(ConstrainedType::Str(n)) => sattr_bytes(i),
        _ => sattr_n(i),
    }
}

/// The default-value initializer of one field: byte arrays are zero-filled,
/// everything else defers to the type's default.
pub open spec fn sfield_default(key: Seq<char>, lv: LinkedView) -> Result<Seq<char>, RendErrView> {
    let k = snake_of(key);
    match lv {
        LinkedView::Array { len, ty } => match *ty {
            LinkedView::ConstrainedType(ConstrainedType::U8) => Ok(
                k + ": [0; "@ + dec_digits(len) + "]"@,
            ),
            _ => Err(RendErrView::Unimplemented),
        },
        _ => Ok(k + ": Default::default()"@),
    }
}

/// The constant declaration of one literal rule: byte-sequence literals
/// cannot be rendered as a named constant.
pub open spec fn sliteral_decl(
    name: Seq<char>,
    lit: LitView,
    lang: Language,
    prefix: Option<Seq<char>>,
) -> Result<Seq<char>, RendErrView> {
    let n = sto_shouty(name, lang, prefix);
    match lit {
        LitView::Bool(b) => Ok(
            "pub const "@ + n + ": bool = "@ + (if b {
                "true"@
            } else {
                "false"@
            }) + ";"@,
        ),
        LitView::Int(i) => Ok("pub const "@ + n + ": i32 = "@ + dec_int(i as int) + ";"@),
        LitView::UInt(u) => Ok("pub const "@ + n + ": u32 = "@ + dec_digits(u as nat) + ";"@),
        LitView::Str(s) => Ok("pub const "@ + n + ": &'static str = \""@ + s + "\";"@),
        LitView::Char(c) => Ok("pub const "@ + n + ": char = '"@ + seq![c] + "';"@),
        LitView::Bytes(b) => Err(RendErrView::UnsupportedLiteral),
    }
}

/// Render one field declaration in the systems-struct shape.
fn field_rs(key: &str, lv: &LinkedNode, opts: &Options, vis: &str) -> (r: RenderResult<String>)
    ensures
        render_res(r) == sfield_rs(key@, lv@, opts.language, opt_view(opts.prefix), vis@),
{
    let k = heck_snake(key);
    let mut out = str_to_owned(vis);
    out.append(k.as_str());
    match lv {
        LinkedNode::ConstrainedType(t) => {
            proof {
                assert(lv@ == LinkedView::ConstrainedType(*t));
            }
            match t {
                ConstrainedType::Str(n) => {
                    out.append(": [u8; ");
                    let d = u64_to_dec(*n);
                    out.append(d.as_str());
                    out.append("]");
                    proof {
                        assert(out@ =~= vis@ + snake_of(key@) + ": [u8; "@ + dec_digits(
                            *n as nat,
                        ) + "]"@);
                    }
                    Ok(out)
                },
                ConstrainedType::Bytes(n) => Err(RenderError::Unimplemented),
                _ => {
                    out.append(": ");
                    let tyname: &str = match t {
                        ConstrainedType::U8 => "u8",
                        ConstrainedType::I8 => "i8",
                        ConstrainedType::U16 => "u16",
                        ConstrainedType::I16 => "i16",
                        ConstrainedType::U32 => "u32",
                        ConstrainedType::I32 => "i32",
                        ConstrainedType::U64 => "u64",
                        ConstrainedType::I64 => "i64",
                        ConstrainedType::Bool => "bool",
                        _ => "",
                    };
                    out.append(tyname);
                    proof {
                        assert(out@ =~= vis@ + snake_of(key@) + ": "@ + sscalar_rs(*t));
                    }
                    Ok(out)
                },
            }
        },
        LinkedNode::ForeignStruct(s) => {
            proof {
                assert(lv@ == LinkedView::ForeignStruct(s@));
            }
            out.append(": ");
            let n = struct_name(s.as_str(), opts);
            out.append(n.as_str());
            proof {
                assert(out@ =~= vis@ + snake_of(key@) + ": "@ + sstruct_name(
                    s@,
                    opts.language,
                    opt_view(opts.prefix),
                ));
            }
            Ok(out)
        },
        LinkedNode::Array(arr) => {
            proof {
                assert(lv@ == LinkedView::Array { len: arr.len as nat, ty: Box::new((*arr.ty)@) });
            }
            match &*arr.ty {
                LinkedNode::ConstrainedType(ConstrainedType::U8) => {
                    proof {
                        assert((*arr.ty)@ == LinkedView::ConstrainedType(ConstrainedType::U8));
                    }
                    out.append(": [u8; ");
                    let d = u64_to_dec(arr.len as u64);
                    out.append(d.as_str());
                    out.append("]");
                    proof {
                        assert(out@ =~= vis@ + snake_of(key@) + ": [u8; "@ + dec_digits(
                            arr.len as nat,
                        ) + "]"@);
                    }
                    Ok(out)
                },
                _ => Err(RenderError::Unimplemented),
            }
        },
        _ => Err(RenderError::Unimplemented),
    }
}

/// Render one field declaration in the C-ABI header shape.
fn field_c(key: &str, lv: &LinkedNode) -> (r: RenderResult<String>)
    ensures
        render_res(r) == sfield_c(key@, lv@),
{
    let k = heck_snake(key);
    match lv {
        LinkedNode::ConstrainedType(t) => {
            match t {
                ConstrainedType::Str(n) => {
                    let mut out = str_to_owned("char ");
                    out.append(k.as_str());
                    out.append("[");
                    let d = u64_to_dec(*n);
                    out.append(d.as_str());
                    out.append("]");
                    proof {
                        assert(out@ =~= "char "@ + snake_of(key@) + "["@ + dec_digits(*n as nat)
                            + "]"@);
                    }
                    Ok(out)
                },
                ConstrainedType::Bytes(n) => Err(RenderError::Unimplemented),
                _ => {
                    let tyname: &str = match t {
                        ConstrainedType::U8 => "uint8_t ",
                        ConstrainedType::I8 => "int8_t ",
                        ConstrainedType::U16 => "uint16_t ",
                        ConstrainedType::I16 => "int16_t ",
                        ConstrainedType::U32 => "uint32_t ",
                        ConstrainedType::I32 => "int32_t ",
                        ConstrainedType::U64 => "uint64_t ",
                        ConstrainedType::I64 => "int64_t ",
                        _ => "bool ",
                    };
                    let mut out = str_to_owned(tyname);
                    out.append(k.as_str());
                    Ok(out)
                },
            }
        },
        _ => Err(RenderError::Unimplemented),
    }
}

/// Render the raw-bytes binding attribute at a field index.
fn attr_bytes(i: u64) -> (r: String)
    ensures
        r@ == sattr_bytes(i as nat),
{
    let mut out = str_to_owned("#[cbor(n(");
    let d = u64_to_dec(i);
    out.append(d.as_str());
    out.append("), with = \"minicbor::bytes\")]");
    proof {
        assert(out@ =~= sattr_bytes(i as nat));
    }
    out
}

/// Render the plain field-index attribute.
fn attr_n(i: u64) -> (r: String)
    ensures
        r@ == sattr_n(i as nat),
{
    let mut out = str_to_owned("#[n(");
    let d = u64_to_dec(i);
    out.append(d.as_str());
    out.append(")]");
    proof {
        assert(out@ =~= sattr_n(i as nat));
    }
    out
}

/// Render one field's serialization attributes in the systems-struct mode.
fn field_attr_rust(lv: &LinkedNode, i: u64) -> (r: String)
    ensures
        r@ == sattr_rust(lv@, i as nat),
{
    match lv {
        LinkedNode::Array(arr) => {
            proof {
                assert(lv@ == LinkedView::Array { len: arr.len as nat, ty: Box::new((*arr.ty)@) });
            }
            match &*arr.ty {
                LinkedNode::ConstrainedType(ConstrainedType::U8) => {
                    proof {
                        assert((*arr.ty)@ == LinkedView::ConstrainedType(ConstrainedType::U8));
                    }
                    if arr.len <= 32 {
                        attr_bytes(i)
                    } else {
                        let mut out = attr_bytes(i);
                        out.append(" #[serde(with=\"BigArray\")]");
                        out
                    }
                },
                _ => attr_n(i),
            }
        },
        LinkedNode::ConstrainedType(ConstrainedType::Str(n)) => {
            proof {
                assert(lv@ == LinkedView::ConstrainedType(ConstrainedType::Str(*n)));
            }
            let mut out = attr_bytes(i);
            out.append(
                " #[serde(serialize_with = \"ser_bytes_as_str\")] #[serde(deserialize_with = \"de_str_as_bytes\")]",
            );
            out
        },
        _ => attr_n(i),
    }
}

/// Render one field's serialization attributes in the binding-flavor mode.
fn field_attr_c(lv: &LinkedNode, i: u64) -> (r: String)
    ensures
        r@ == sattr_c(lv@, i as nat),
{
    match lv {
        LinkedNode::Array(arr) => {
            match &*arr.ty {
                LinkedNode::ConstrainedType(ConstrainedType::U8) => {
                    proof {
                        assert(lv@ == LinkedView::Array {
                            len: arr.len as nat,
                            ty: Box::new((*arr.ty)@),
                        });
                        assert((*arr.ty)@ == LinkedView::ConstrainedType(ConstrainedType::U8));
                        assert(sattr_c(lv@, i as nat) == sattr_bytes(i as nat));
                    }
                    attr_bytes(i)
                },
                _ => attr_n(i),
            }
        },
        LinkedNode::ConstrainedType(ConstrainedType::Str(_)) => attr_bytes(i),
        _ => attr_n(i),
    }
}

/// Render one field's serialization attributes for the given target.
pub fn field_attr(lv: &LinkedNode, i: u64, opts: &Options) -> (r: String)
    ensures
        r@ == (if opts.language is C {
            sattr_c(lv@, i as nat)
        } else {
            sattr_rust(lv@, i as nat)
        }),
{
    match opts.language {
        Language::C => field_attr_c(lv, i),
        _ => field_attr_rust(lv, i),
    }
}

/// Render one field's default-value initializer.
pub fn field_default(key: &str, lv: &LinkedNode) -> (r: RenderResult<String>)
    ensures
        render_res(r) == sfield_default(key@, lv@),
{
    let k = heck_snake(key);
    match lv {
        LinkedNode::Array(arr) => {
            proof {
                assert(lv@ == LinkedView::Array { len: arr.len as nat, ty: Box::new((*arr.ty)@) });
            }
            match &*arr.ty {
                LinkedNode::ConstrainedType(ConstrainedType::U8) => {
                    proof {
                        assert((*arr.ty)@ == LinkedView::ConstrainedType(ConstrainedType::U8));
                    }
                    let mut out = k;
                    out.append(": [0; ");
                    let d = u64_to_dec(arr.len as u64);
                    out.append(d.as_str());
                    out.append("]");
                    proof {
                        assert(out@ =~= snake_of(key@) + ": [0; "@ + dec_digits(arr.len as nat)
                            + "]"@);
                    }
                    Ok(out)
                },
                _ => Err(RenderError::Unimplemented),
            }
        },
        _ => {
            let mut out = k;
            out.append(": Default::default()");
            Ok(out)
        },
    }
}

/// Render one literal rule as a named constant of the target language.
pub fn literal_decl(name: &str, lit: &Literal, opts: &Options) -> (r: RenderResult<String>)
    ensures
        render_res(r) == sliteral_decl(name@, lit@, opts.language, opt_view(opts.prefix)),
{
    let pre = clone_opt_string(&opts.prefix);
    let n = to_shouty_snake_case(name, opts.language, pre);
    let mut out = str_to_owned("pub const ");
    out.append(n.as_str());
    match lit {
        Literal::Bool(b) => {
            out.append(": bool = ");
            if *b {
                out.append("true");
            } else {
                out.append("false");
            }
            out.append(";");
            proof {
                assert(out@ =~= "pub const "@ + sto_shouty(
                    name@,
                    opts.language,
                    opt_view(opts.prefix),
                ) + ": bool = "@ + (if *b {
                    "true"@
                } else {
                    "false"@
                }) + ";"@);
            }
            Ok(out)
        },
        Literal::Int(i) => {
            out.append(": i32 = ");
            let d = i64_to_dec(*i);
            out.append(d.as_str());
            out.append(";");
            proof {
                assert(out@ =~= "pub const "@ + sto_shouty(
                    name@,
                    opts.language,
                    opt_view(opts.prefix),
                ) + ": i32 = "@ + dec_int(*i as int) + ";"@);
            }
            Ok(out)
        },
        Literal::UInt(u) => {
            out.append(": u32 = ");
            let d = u64_to_dec(*u);
            out.append(d.as_str());
            out.append(";");
            proof {
                assert(out@ =~= "pub const "@ + sto_shouty(
                    name@,
                    opts.language,
                    opt_view(opts.prefix),
                ) + ": u32 = "@ + dec_digits(*u as nat) + ";"@);
            }
            Ok(out)
        },
        Literal::Str(s) => {
            out.append(": &'static str = \"");
            out.append(s.as_str());
            out.append("\";");
            proof {
                assert(out@ =~= "pub const "@ + sto_shouty(
                    name@,
                    opts.language,
                    opt_view(opts.prefix),
                ) + ": &'static str = \""@ + s@ + "\";"@);
            }
            Ok(out)
        },
        Literal::Char(c) => {
            out.append(": char = '");
            push_char(&mut out, *c);
            out.append("';");
            proof {
                assert(out@ =~= "pub const "@ + sto_shouty(
                    name@,
                    opts.language,
                    opt_view(opts.prefix),
                ) + ": char = '"@ + seq![*c] + "';"@);
            }
            Ok(out)
        },
        Literal::Bytes(b) => Err(RenderError::UnsupportedLiteral),
    }
}

/// A bridging getter of the interchange mode.
pub open spec fn swasm_getter(
    camel: Seq<char>,
    snake: Seq<char>,
    ty: Seq<char>,
    body: Seq<char>,
) -> Seq<char> {
    "#[wasm_bindgen(getter, js_name="@ + camel + ")] pub fn "@ + snake + "(&self) -> "@ + ty
        + " { "@ + body + " }"@
}

/// A bridging setter of the interchange mode.
pub open spec fn swasm_setter(
    camel: Seq<char>,
    snake: Seq<char>,
    ty: Seq<char>,
    body: Seq<char>,
) -> Seq<char> {
    "#[wasm_bindgen(setter, js_name="@ + camel + ")] pub fn set_"@ + snake + "(&mut self, val: "@
        + ty + ") { "@ + body + " }"@
}

/// The bridging accessor pair of one field in the interchange mode: a typed
/// getter and setter; string fields backed by fixed-size byte buffers get
/// accessors that perform a truncating copy-in and a UTF-8 copy-out.
pub open spec fn swasm_member(key: Seq<char>, lv: LinkedView) -> Result<Seq<char>, RendErrView> {
    let camel = lower_camel_of(key);
    let snake = snake_of(key);
    match lv {
        LinkedView::ConstrainedType(t) => match t {
            ConstrainedType::Str(len) => Ok(
                swasm_getter(
                    camel,
                    snake,
                    "String"@,
                    "std::str::from_utf8(&self."@ + snake + ").expect(\"invalid utf8\").to_string()"@,
                ) + " "@ + swasm_setter(
                    camel,
                    snake,
                    "&str"@,
                    "let min = core::cmp::min(val.len(), "@ + dec_digits(len as nat) + "); self."@
                        + snake + "[0..min].copy_from_slice(&val.as_bytes()[0..min]); self."@
                        + snake + "[min..].fill(0);"@,
                ),
            ),
            ConstrainedType::Bytes(n) => Ok(Seq::empty()),
            _ => Ok(
                swasm_getter(camel, snake, sscalar_rs(t), "self."@ + snake) + " "@ + swasm_setter(
                    camel,
                    snake,
                    sscalar_rs(t),
                    "self."@ + snake + " = val"@,
                ),
            ),
        },
        LinkedView::ForeignStruct(s) => Ok(
            swasm_getter(camel, snake, upper_camel_of(s), "self."@ + snake + ".clone()"@) + " "@
                + swasm_setter(camel, snake, upper_camel_of(s), "self."@ + snake + " = val"@),
        ),
        LinkedView::Array { len, ty } => match *ty {
            LinkedView::ConstrainedType(ConstrainedType::U8) => Ok(
                swasm_getter(camel, snake, "Vec<u8>"@, "self."@ + snake + ".to_vec()"@) + " "@
                    + swasm_setter(
                    camel,
                    snake,
                    "&[u8]"@,
                    "let min = core::cmp::min(val.len(), "@ + dec_digits(len) + "); self."@ + snake
                        + "[0..min].copy_from_slice(&val[0..min]); self."@ + snake
                        + "[min..].fill(0);"@,
                ),
            ),
            _ => Err(RendErrView::Unimplemented),
        },
        _ => Ok(Seq::empty()),
    }
}

/// Render a bridging getter.
fn wasm_getter(camel: &str, snake: &str, ty: &str, body: &str) -> (r: String)
    ensures
        r@ == swasm_getter(camel@, snake@, ty@, body@),
{
    let mut out = str_to_owned("#[wasm_bindgen(getter, js_name=");
    out.append(camel);
    out.append(")] pub fn ");
    out.append(snake);
    out.append("(&self) -> ");
    out.append(ty);
    out.append(" { ");
    out.append(body);
    out.append(" }");
    proof {
        assert(out@ =~= swasm_getter(camel@, snake@, ty@, body@));
    }
    out
}

/// Render a bridging setter.
fn wasm_setter(camel: &str, snake: &str, ty: &str, body: &str) -> (r: String)
    ensures
        r@ == swasm_setter(camel@, snake@, ty@, body@),
{
    let mut out = str_to_owned("#[wasm_bindgen(setter, js_name=");
    out.append(camel);
    out.append(")] pub fn set_");
    out.append(snake);
    out.append("(&mut self, val: ");
    out.append(ty);
    out.append(") { ");
    out.append(body);
    out.append(" }");
    proof {
        assert(out@ =~= swasm_setter(camel@, snake@, ty@, body@));
    }
    out
}

/// Render the bridging accessor pair of one field.
pub fn wasm_member(key: &str, lv: &LinkedNode) -> (r: RenderResult<String>)
    ensures
        render_res(r) == swasm_member(key@, lv@),
{
    let camel = heck_lower_camel(key);
    let snake = heck_snake(key);
    match lv {
        LinkedNode::ConstrainedType(t) => {
            proof {
                assert(lv@ == LinkedView::ConstrainedType(*t));
            }
            match t {
                ConstrainedType::Str(len) => {
                    let mut gbody = str_to_owned("std::str::from_utf8(&self.");
                    gbody.append(snake.as_str());
                    gbody.append(").expect(\"invalid utf8\").to_string()");
                    let mut sbody = str_to_owned("let min = core::cmp::min(val.len(), ");
                    let d = u64_to_dec(*len);
                    sbody.append(d.as_str());
                    sbody.append("); self.");
                    sbody.append(snake.as_str());
                    sbody.append("[0..min].copy_from_slice(&val.as_bytes()[0..min]); self.");
                    sbody.append(snake.as_str());
                    sbody.append("[min..].fill(0);");
                    let mut out = wasm_getter(
                        camel.as_str(),
                        snake.as_str(),
                        "String",
                        gbody.as_str(),
                    );
                    out.append(" ");
                    let setter = wasm_setter(camel.as_str(), snake.as_str(), "&str", sbody.as_str());
                    out.append(setter.as_str());
                    proof {
                        assert(gbody@ =~= "std::str::from_utf8(&self."@ + snake_of(key@)
                            + ").expect(\"invalid utf8\").to_string()"@);
                        assert(sbody@ =~= "let min = core::cmp::min(val.len(), "@ + dec_digits(
                            *len as nat,
                        ) + "); self."@ + snake_of(key@)
                            + "[0..min].copy_from_slice(&val.as_bytes()[0..min]); self."@
                            + snake_of(key@) + "[min..].fill(0);"@);
                    }
                    Ok(out)
                },
                ConstrainedType::Bytes(n) => {
                    proof {
                        reveal_strlit("");
                        assert(""@ =~= Seq::<char>::empty());
                    }
                    Ok(String::new())
                },
                _ => {
                    let tyname: &str = match t {
                        ConstrainedType::U8 => "u8",
                        ConstrainedType::I8 => "i8",
                        ConstrainedType::U16 => "u16",
                        ConstrainedType::I16 => "i16",
                        ConstrainedType::U32 => "u32",
                        ConstrainedType::I32 => "i32",
                        ConstrainedType::U64 => "u64",
                        ConstrainedType::I64 => "i64",
                        ConstrainedType::Bool => "bool",
                        _ => "",
                    };
                    let mut gbody = str_to_owned("self.");
                    gbody.append(snake.as_str());
                    let mut sbody = str_to_owned("self.");
                    sbody.append(snake.as_str());
                    sbody.append(" = val");
                    let mut out = wasm_getter(camel.as_str(), snake.as_str(), tyname, gbody.as_str());
                    out.append(" ");
                    let setter = wasm_setter(camel.as_str(), snake.as_str(), tyname, sbody.as_str());
                    out.append(setter.as_str());
                    Ok(out)
                },
            }
        },
        LinkedNode::ForeignStruct(s) => {
            proof {
                assert(lv@ == LinkedView::ForeignStruct(s@));
            }
            let other = heck_upper_camel(s.as_str());
            let mut gbody = str_to_owned("self.");
            gbody.append(snake.as_str());
            gbody.append(".clone()");
            let mut sbody = str_to_owned("self.");
            sbody.append(snake.as_str());
            sbody.append(" = val");
            let mut out = wasm_getter(camel.as_str(), snake.as_str(), other.as_str(), gbody.as_str());
            out.append(" ");
            let setter = wasm_setter(camel.as_str(), snake.as_str(), other.as_str(), sbody.as_str());
            out.append(setter.as_str());
            Ok(out)
        },
        LinkedNode::Array(arr) => {
            proof {
                assert(lv@ == LinkedView::Array { len: arr.len as nat, ty: Box::new((*arr.ty)@) });
            }
            match &*arr.ty {
                LinkedNode::ConstrainedType(ConstrainedType::U8) => {
                    proof {
                        assert((*arr.ty)@ == LinkedView::ConstrainedType(ConstrainedType::U8));
                    }
                    let mut gbody = str_to_owned("self.");
                    gbody.append(snake.as_str());
                    gbody.append(".to_vec()");
                    let mut sbody = str_to_owned("let min = core::cmp::min(val.len(), ");
                    let d = u64_to_dec(arr.len as u64);
                    sbody.append(d.as_str());
                    sbody.append("); self.");
                    sbody.append(snake.as_str());
                    sbody.append("[0..min].copy_from_slice(&val[0..min]); self.");
                    sbody.append(snake.as_str());
                    sbody.append("[min..].fill(0);");
                    let mut out = wasm_getter(
                        camel.as_str(),
                        snake.as_str(),
                        "Vec<u8>",
                        gbody.as_str(),
                    );
                    out.append(" ");
                    let setter = wasm_setter(
                        camel.as_str(),
                        snake.as_str(),
                        "&[u8]",
                        sbody.as_str(),
                    );
                    out.append(setter.as_str());
                    proof {
                        assert(sbody@ =~= "let min = core::cmp::min(val.len(), "@ + dec_digits(
                            arr.len as nat,
                        ) + "); self."@ + snake_of(key@)
                            + "[0..min].copy_from_slice(&val[0..min]); self."@ + snake_of(key@)
                            + "[min..].fill(0);"@);
                    }
                    Ok(out)
                },
                _ => Err(RenderError::Unimplemented),
            }
        },
        _ => {
            proof {
                reveal_strlit("");
                assert(""@ =~= Seq::<char>::empty());
            }
            Ok(String::new())
        },
    }
}

/// The views of a sequence of rule-table entries, element by element.
pub open spec fn tentries_view(s: Seq<(String, LinkedNode)>) -> Seq<(Seq<char>, LinkedView)>
    decreases s,
{
    if s.len() == 0 {
        Seq::empty()
    } else {
        seq![(s[0].0@, s[0].1@)] + tentries_view(s.drop_first())
    }
}

/// `tentries_view` is the element-wise view of its argument.
pub proof fn lemma_tentries_view(s: Seq<(String, LinkedNode)>)
    ensures
        tentries_view(s).len() == s.len(),
        forall|i: int| 0 <= i < s.len() ==> tentries_view(s)[i] == (
        (#[trigger] s[i]).0@,
        s[i].1@,
        ),
    decreases s.len(),
{
    reveal_with_fuel(tentries_view, 2);
    if s.len() > 0 {
        lemma_tentries_view(s.drop_first());
        assert forall|i: int| 0 <= i < s.len() implies tentries_view(s)[i] == (
        (#[trigger] s[i]).0@,
        s[i].1@,
        ) by {
            if i > 0 {
                assert(s.drop_first()[i - 1] == s[i]);
                assert(tentries_view(s)[i] == tentries_view(s.drop_first())[i - 1]);
            }
        }
    }
}

/// The visibility prefix of a field declaration in the given target mode.
pub open spec fn svis(lang: Language) -> Seq<char> {
    if lang is Typescript {
        Seq::empty()
    } else {
        "pub "@
    }
}

/// The field block of one struct: one line per field, in flattened order,
/// carrying the field's zero-based binary index `idx` onward.
pub open spec fn sfields_block(
    fields: Seq<(Seq<char>, LinkedView)>,
    idx: nat,
    lang: Language,
    prefix: Option<Seq<char>>,
) -> Result<Seq<char>, RendErrView>
    decreases fields.len(),
{
    if fields.len() == 0 {
        Ok(Seq::empty())
    } else {
        let attr = if lang is C {
            sattr_c(fields[0].1, idx)
        } else {
            sattr_rust(fields[0].1, idx)
        };
        match sfield_rs(fields[0].0, fields[0].1, lang, prefix, svis(lang)) {
            Err(e) => Err(e),
            Ok(decl) => match sfields_block(fields.drop_first(), idx + 1, lang, prefix) {
                Err(e) => Err(e),
                Ok(rest) => Ok("    "@ + attr + " "@ + decl + ",\n"@ + rest),
            },
        }
    }
}

/// Each field contributes exactly one indexed declaration line: the field
/// block of a concatenation is the concatenation of the two field blocks,
/// the second starting at the index shifted by the first part's length. In
/// particular a struct of N fields renders to exactly N declarations, the
/// one at position i carrying binary field index `idx + i`.
pub proof fn lemma_fields_block_concat(
    a: Seq<(Seq<char>, LinkedView)>,
    b: Seq<(Seq<char>, LinkedView)>,
    idx: nat,
    lang: Language,
    prefix: Option<Seq<char>>,
)
    ensures
        sfields_block(a + b, idx, lang, prefix) == match sfields_block(a, idx, lang, prefix) {
            Err(e) => Err::<Seq<char>, RendErrView>(e),
            Ok(fa) => match sfields_block(b, (idx + a.len()) as nat, lang, prefix) {
                Err(e) => Err(e),
                Ok(fb) => Ok(fa + fb),
            },
        },
    decreases a.len(),
{
    if a.len() == 0 {
        assert(a + b =~= b);
        match sfields_block(b, idx, lang, prefix) {
            Ok(fb) => {
                assert(Seq::<char>::empty() + fb =~= fb);
            },
            Err(e) => {},
        }
    } else {
        assert((a + b)[0] == a[0]);
        assert((a + b).len() > 0);
        assert((a + b).drop_first() =~= a.drop_first() + b);
        lemma_fields_block_concat(a.drop_first(), b, idx + 1, lang, prefix);
        match sfield_rs(a[0].0, a[0].1, lang, prefix, svis(lang)) {
            Err(e) => {},
            Ok(decl) => {
                let attr = if lang is C {
                    sattr_c(a[0].1, idx)
                } else {
                    sattr_rust(a[0].1, idx)
                };
                let line = "    "@ + attr + " "@ + decl + ",\n"@;
                match sfields_block(a.drop_first(), idx + 1, lang, prefix) {
                    Err(e) => {},
                    Ok(fa1) => {
                        match sfields_block(b, (idx + a.len()) as nat, lang, prefix) {
                            Err(e) => {},
                            Ok(fb) => {
                                assert(line + (fa1 + fb) =~= (line + fa1) + fb);
                            },
                        }
                    },
                }
            },
        }
    }
}

/// The accessor block of one struct in the interchange mode.
pub open spec fn saccessors(fields: Seq<(Seq<char>, LinkedView)>) -> Result<Seq<char>, RendErrView>
    decreases fields.len(),
{
    if fields.len() == 0 {
        Ok(Seq::empty())
    } else {
        match swasm_member(fields[0].0, fields[0].1) {
            Err(e) => Err(e),
            Ok(m) => match saccessors(fields.drop_first()) {
                Err(e) => Err(e),
                Ok(rest) => Ok("    "@ + m + "\n"@ + rest),
            },
        }
    }
}

/// The whole declaration of one struct: the type with its field block, and,
/// for the interchange mode, the bridging accessor block after it.
pub open spec fn sstruct_block(
    name: Seq<char>,
    fields: Seq<(Seq<char>, LinkedView)>,
    lang: Language,
    prefix: Option<Seq<char>>,
) -> Result<Seq<char>, RendErrView> {
    let n = sstruct_name(name, lang, prefix);
    match sfields_block(fields, 0, lang, prefix) {
        Err(e) => Err(e),
        Ok(body) => {
            let decl = "pub struct "@ + n + " {\n"@ + body + "}\n"@;
            if lang is Typescript {
                match saccessors(fields) {
                    Err(e) => Err(e),
                    Ok(acc) => Ok(decl + "#[wasm_bindgen]\nimpl "@ + n + " {\n"@ + acc + "}\n"@),
                }
            } else {
                Ok(decl)
            }
        },
    }
}

/// The constant declarations of the artifact: one per literal rule, in
/// table order; rules of other kinds contribute nothing here.
pub open spec fn sconsts(
    entries: Seq<(Seq<char>, LinkedView)>,
    lang: Language,
    prefix: Option<Seq<char>>,
) -> Result<Seq<char>, RendErrView>
    decreases entries.len(),
{
    if entries.len() == 0 {
        Ok(Seq::empty())
    } else {
        let rest = sconsts(entries.drop_first(), lang, prefix);
        match entries[0].1 {
            LinkedView::Literal(l) => match sliteral_decl(entries[0].0, l, lang, prefix) {
                Err(e) => Err(e),
                Ok(d) => match rest {
                    Err(e) => Err(e),
                    Ok(r) => Ok(d + "\n"@ + r),
                },
            },
            _ => rest,
        }
    }
}

/// The struct declarations of the artifact: one block per struct rule, in
/// table order; rules of other kinds contribute nothing here.
pub open spec fn sstructs(
    entries: Seq<(Seq<char>, LinkedView)>,
    lang: Language,
    prefix: Option<Seq<char>>,
) -> Result<Seq<char>, RendErrView>
    decreases entries.len(),
{
    if entries.len() == 0 {
        Ok(Seq::empty())
    } else {
        let rest = sstructs(entries.drop_first(), lang, prefix);
        match entries[0].1 {
            LinkedView::Struct(fields) => match sstruct_block(entries[0].0, fields, lang, prefix) {
                Err(e) => Err(e),
                Ok(d) => match rest {
                    Err(e) => Err(e),
                    Ok(r) => Ok(d + r),
                },
            },
            _ => rest,
        }
    }
}

/// The whole generated library artifact: the constants, then the structs.
pub open spec fn sgen_lib(
    entries: Seq<(Seq<char>, LinkedView)>,
    lang: Language,
    prefix: Option<Seq<char>>,
) -> Result<Seq<char>, RendErrView> {
    match sconsts(entries, lang, prefix) {
        Err(e) => Err(e),
        Ok(a) => match sstructs(entries, lang, prefix) {
            Err(e) => Err(e),
            Ok(b) => Ok(a + b),
        },
    }
}

/// Render the field block of one struct, `idx` being the binary field index
/// of its first field.
#[verifier::rlimit(60)]
fn fields_block(fields: &Vec<LinkedKeyVal>, idx: usize, opts: &Options) -> (r: RenderResult<String>)
    requires
        idx + fields@.len() <= usize::MAX,
    ensures
        render_res(r) == sfields_block(lkvs_view(fields@), idx as nat, opts.language, opt_view(
            opts.prefix,
        )),
    decreases fields@.len(),
{
    proof {
        crate::validate::lemma_lkvs_view(fields@);
    }
    let mut out = String::new();
    let n = fields.len();
    let mut i: usize = 0;
    let ghost fviews = lkvs_view(fields@);
    proof {
        assert(fviews.skip(0) =~= fviews);
        match sfields_block(fviews, idx as nat, opts.language, opt_view(opts.prefix)) {
            Ok(rest) => {
                assert(out@ + rest =~= rest);
            },
            Err(e) => {},
        }
    }
    while i < n
        invariant
            n == fields@.len(),
            0 <= i <= n,
            idx + n <= usize::MAX,
            fviews == lkvs_view(fields@),
            fviews.len() == n,
            forall|j: int| 0 <= j < n ==> fviews[j] == (#[trigger] fields@[j])@,
            match sfields_block(fviews.skip(i as int), (idx + i) as nat, opts.language, opt_view(
                opts.prefix,
            )) {
                Ok(rest) => sfields_block(fviews, idx as nat, opts.language, opt_view(opts.prefix))
                    == Ok::<_, RendErrView>(out@ + rest),
                Err(e) => sfields_block(fviews, idx as nat, opts.language, opt_view(opts.prefix))
                    == Err::<Seq<char>, _>(e),
            },
        decreases n - i,
    {
        proof {
            assert(fviews.skip(i as int)[0] == fviews[i as int]);
            assert(fviews[i as int] == fields@[i as int]@);
        }
        let attr = field_attr(&fields[i].1, (idx + i) as u64, opts);
        let vis: &str = match opts.language {
            Language::Typescript => "",
            _ => "pub ",
        };
        proof {
            reveal_strlit("");
            assert(""@ =~= Seq::<char>::empty());
            assert(vis@ == svis(opts.language));
        }
        match field_rs(fields[i].0.as_str(), &fields[i].1, opts, vis) {
            Ok(decl) => {
                let ghost old_out = out@;
                out.append("    ");
                out.append(attr.as_str());
                out.append(" ");
                out.append(decl.as_str());
                out.append(",\n");
                proof {
                    assert(fviews.skip(i as int).drop_first() =~= fviews.skip(i + 1));
                    match sfields_block(fviews.skip(i + 1), (idx + i + 1) as nat, opts.language,
                        opt_view(opts.prefix)) {
                        Ok(rest) => {
                            assert(old_out + ("    "@ + attr@ + " "@ + decl@ + ",\n"@ + rest)
                                =~= out@ + rest);
                        },
                        Err(e) => {},
                    }
                }
            },
            Err(e) => {
                return Err(e);
            },
        }
        i = i + 1;
    }
    proof {
        assert(fviews.skip(n as int) =~= Seq::<(Seq<char>, LinkedView)>::empty());
        assert(out@ + Seq::<char>::empty() =~= out@);
    }
    Ok(out)
}

/// Render the accessor block of one struct in the interchange mode.
fn accessors_block(fields: &Vec<LinkedKeyVal>) -> (r: RenderResult<String>)
    ensures
        render_res(r) == saccessors(lkvs_view(fields@)),
{
    proof {
        crate::validate::lemma_lkvs_view(fields@);
    }
    let mut out = String::new();
    let n = fields.len();
    let mut i: usize = 0;
    let ghost fviews = lkvs_view(fields@);
    proof {
        assert(fviews.skip(0) =~= fviews);
        match saccessors(fviews) {
            Ok(rest) => {
                assert(out@ + rest =~= rest);
            },
            Err(e) => {},
        }
    }
    while i < n
        invariant
            n == fields@.len(),
            0 <= i <= n,
            fviews == lkvs_view(fields@),
            fviews.len() == n,
            forall|j: int| 0 <= j < n ==> fviews[j] == (#[trigger] fields@[j])@,
            match saccessors(fviews.skip(i as int)) {
                Ok(rest) => saccessors(fviews) == Ok::<_, RendErrView>(out@ + rest),
                Err(e) => saccessors(fviews) == Err::<Seq<char>, _>(e),
            },
        decreases n - i,
    {
        proof {
            assert(fviews.skip(i as int)[0] == fviews[i as int]);
            assert(fviews[i as int] == fields@[i as int]@);
        }
        match wasm_member(fields[i].0.as_str(), &fields[i].1) {
            Ok(m) => {
                let ghost old_out = out@;
                out.append("    ");
                out.append(m.as_str());
                out.append("\n");
                proof {
                    assert(fviews.skip(i as int).drop_first() =~= fviews.skip(i + 1));
                    match saccessors(fviews.skip(i + 1)) {
                        Ok(rest) => {
                            assert(old_out + ("    "@ + m@ + "\n"@ + rest) =~= out@ + rest);
                        },
                        Err(e) => {},
                    }
                }
            },
            Err(e) => {
                return Err(e);
            },
        }
        i = i + 1;
    }
    proof {
        assert(fviews.skip(n as int) =~= Seq::<(Seq<char>, LinkedView)>::empty());
        assert(out@ + Seq::<char>::empty() =~= out@);
    }
    Ok(out)
}

/// Render the whole declaration of one struct.
fn struct_block(name: &str, fields: &Fields, opts: &Options) -> (r: RenderResult<String>)
    ensures
        render_res(r) == sstruct_block(name@, lkvs_view(fields.members@), opts.language, opt_view(
            opts.prefix,
        )),
{
    let n = struct_name(name, opts);
    let nmem = fields.members.len();
    proof {
        assert(fields.members@.len() == nmem);
    }
    match fields_block(&fields.members, 0, opts) {
        Err(e) => Err(e),
        Ok(body) => {
            let mut out = str_to_owned("pub struct ");
            out.append(n.as_str());
            out.append(" {\n");
            out.append(body.as_str());
            out.append("}\n");
            let ghost decl = out@;
            proof {
                assert(decl =~= "pub struct "@ + n@ + " {\n"@ + body@ + "}\n"@);
            }
            match opts.language {
                Language::Typescript => {
                    match accessors_block(&fields.members) {
                        Err(e) => Err(e),
                        Ok(acc) => {
                            out.append("#[wasm_bindgen]\nimpl ");
                            out.append(n.as_str());
                            out.append(" {\n");
                            out.append(acc.as_str());
                            out.append("}\n");
                            proof {
                                assert(out@ =~= decl + "#[wasm_bindgen]\nimpl "@ + n@ + " {\n"@
                                    + acc@ + "}\n"@);
                            }
                            Ok(out)
                        },
                    }
                },
                _ => Ok(out),
            }
        },
    }
}

/// Render the whole library artifact for the linked rule table: the named
/// constants of its literal rules, then the type declarations of its
/// structs, in sorted rule order.
#[verifier::rlimit(60)]
pub fn gen_lib(cddl: &LinkedNodeMap, opts: &Options) -> (r: RenderResult<String>)
    ensures
        render_res(r) == sgen_lib(tentries_view(cddl.entries@), opts.language, opt_view(
            opts.prefix,
        )),
{
    proof {
        lemma_tentries_view(cddl.entries@);
    }
    let ghost eviews = tentries_view(cddl.entries@);
    let mut consts = String::new();
    let n = cddl.entries.len();
    let mut i: usize = 0;
    proof {
        assert(eviews.skip(0) =~= eviews);
        match sconsts(eviews, opts.language, opt_view(opts.prefix)) {
            Ok(rest) => {
                assert(consts@ + rest =~= rest);
            },
            Err(e) => {},
        }
    }
    while i < n
        invariant
            n == cddl.entries@.len(),
            0 <= i <= n,
            eviews == tentries_view(cddl.entries@),
            eviews.len() == n,
            forall|j: int| 0 <= j < n ==> eviews[j] == (
            (#[trigger] cddl.entries@[j]).0@,
            cddl.entries@[j].1@,
            ),
            match sconsts(eviews.skip(i as int), opts.language, opt_view(opts.prefix)) {
                Ok(rest) => sconsts(eviews, opts.language, opt_view(opts.prefix)) == Ok::<
                    _,
                    RendErrView,
                >(consts@ + rest),
                Err(e) => sconsts(eviews, opts.language, opt_view(opts.prefix)) == Err::<
                    Seq<char>,
                    _,
                >(e),
            },
        decreases n - i,
    {
        proof {
            assert(eviews.skip(i as int)[0] == eviews[i as int]);
            assert(eviews.skip(i as int).drop_first() =~= eviews.skip(i + 1));
        }
        let (name, node) = cddl.entry_at(i);
        match node {
            LinkedNode::Literal(lit) => {
                proof {
                    assert(cddl.entries@[i as int].1@ == LinkedView::Literal(lit@));
                }
                match literal_decl(name.as_str(), lit, opts) {
                    Ok(d) => {
                        let ghost old_out = consts@;
                        consts.append(d.as_str());
                        consts.append("\n");
                        proof {
                            match sconsts(eviews.skip(i + 1), opts.language, opt_view(
                                opts.prefix,
                            )) {
                                Ok(rest) => {
                                    assert(old_out + (d@ + "\n"@ + rest) =~= consts@ + rest);
                                },
                                Err(e) => {},
                            }
                        }
                    },
                    Err(e) => {
                        return Err(e);
                    },
                }
            },
            _ => {
                proof {
                    assert(!(cddl.entries@[i as int].1@ is Literal));
                }
            },
        }
        i = i + 1;
    }
    proof {
        assert(eviews.skip(n as int) =~= Seq::<(Seq<char>, LinkedView)>::empty());
        assert(consts@ + Seq::<char>::empty() =~= consts@);
    }
    let mut out = consts;
    let ghost consts_view = out@;
    let mut i: usize = 0;
    proof {
        assert(eviews.skip(0) =~= eviews);
        match sstructs(eviews, opts.language, opt_view(opts.prefix)) {
            Ok(rest) => {
                assert(Seq::<char>::empty() + rest =~= rest);
            },
            Err(e) => {},
        }
    }
    while i < n
        invariant
            n == cddl.entries@.len(),
            0 <= i <= n,
            eviews == tentries_view(cddl.entries@),
            eviews.len() == n,
            forall|j: int| 0 <= j < n ==> eviews[j] == (
            (#[trigger] cddl.entries@[j]).0@,
            cddl.entries@[j].1@,
            ),
            out@.len() >= consts_view.len() && out@.subrange(0, consts_view.len() as int)
                == consts_view,
            sconsts(eviews, opts.language, opt_view(opts.prefix)) == Ok::<_, RendErrView>(
                consts_view,
            ),
            match sstructs(eviews.skip(i as int), opts.language, opt_view(opts.prefix)) {
                Ok(rest) => sstructs(eviews, opts.language, opt_view(opts.prefix)) == Ok::<
                    _,
                    RendErrView,
                >(out@.skip(consts_view.len() as int) + rest),
                Err(e) => sstructs(eviews, opts.language, opt_view(opts.prefix)) == Err::<
                    Seq<char>,
                    _,
                >(e),
            },
        decreases n - i,
    {
        proof {
            assert(eviews.skip(i as int)[0] == eviews[i as int]);
            assert(eviews.skip(i as int).drop_first() =~= eviews.skip(i + 1));
        }
        let (name, node) = cddl.entry_at(i);
        match node {
            LinkedNode::Struct(fields) => {
                proof {
                    assert(cddl.entries@[i as int].1@ == LinkedView::Struct(
                        lkvs_view(fields.members@),
                    ));
                    crate::validate::lemma_lkvs_view(fields.members@);
                }
                match struct_block(name.as_str(), fields, opts) {
                    Ok(d) => {
                        let ghost old_out = out@;
                        out.append(d.as_str());
                        proof {
                            match sstructs(eviews.skip(i + 1), opts.language, opt_view(
                                opts.prefix,
                            )) {
                                Ok(rest) => {
                                    assert(old_out.skip(consts_view.len() as int) + (d@ + rest)
                                        =~= out@.skip(consts_view.len() as int) + rest);
                                },
                                Err(e) => {},
                            }
                            assert(out@.subrange(0, consts_view.len() as int) =~= consts_view);
                        }
                    },
                    Err(e) => {
                        return Err(e);
                    },
                }
            },
            _ => {
                proof {
                    assert(!(cddl.entries@[i as int].1@ is Struct));
                }
            },
        }
        i = i + 1;
    }
    proof {
        assert(eviews.skip(n as int) =~= Seq::<(Seq<char>, LinkedView)>::empty());
        assert(out@.skip(consts_view.len() as int) + Seq::<char>::empty() =~= out@.skip(
            consts_view.len() as int,
        ));
        assert(out@ =~= consts_view + out@.skip(consts_view.len() as int));
    }
    Ok(out)
}

/// The plain value text of a literal in a header definition.
pub open spec fn sdefine_value(lit: LitView) -> Result<Seq<char>, RendErrView> {
    match lit {
        LitView::Bool(b) => Ok(
            if b {
                "true"@
            } else {
                "false"@
            },
        ),
        LitView::Int(i) => Ok(dec_int(i as int)),
        LitView::UInt(u) => Ok(dec_digits(u as nat)),
        LitView::Str(s) => Ok("\""@ + s + "\""@),
        LitView::Char(c) => Ok("'"@ + seq![c] + "'"@),
        LitView::Bytes(b) => Err(RendErrView::UnsupportedLiteral),
    }
}

/// The header-declaration artifact: a definition per literal rule and a
/// C structure layout per struct rule, in table order.
pub open spec fn sgen_extra(
    entries: Seq<(Seq<char>, LinkedView)>,
    lang: Language,
    prefix: Option<Seq<char>>,
) -> Result<Seq<char>, RendErrView>
    decreases entries.len(),
{
    if entries.len() == 0 {
        Ok(Seq::empty())
    } else {
        let head: Result<Seq<char>, RendErrView> = match entries[0].1 {
            LinkedView::Literal(l) => match sdefine_value(l) {
                Err(e) => Err(e),
                Ok(v) => Ok(
                    "#define "@ + sto_shouty(entries[0].0, lang, prefix) + " "@ + v + "\n"@,
                ),
            },
            LinkedView::Struct(fields) => match sc_fields_block(fields) {
                Err(e) => Err(e),
                Ok(body) => Ok(
                    "typedef struct {\n"@ + body + "} "@ + sto_snake(entries[0].0, lang, prefix)
                        + ";\n"@,
                ),
            },
            _ => Ok(Seq::empty()),
        };
        match head {
            Err(e) => Err(e),
            Ok(h) => match sgen_extra(entries.drop_first(), lang, prefix) {
                Err(e) => Err(e),
                Ok(rest) => Ok(h + rest),
            },
        }
    }
}

/// The C field block of one struct: one declaration line per field.
pub open spec fn sc_fields_block(fields: Seq<(Seq<char>, LinkedView)>) -> Result<
    Seq<char>,
    RendErrView,
>
    decreases fields.len(),
{
    if fields.len() == 0 {
        Ok(Seq::empty())
    } else {
        match sfield_c(fields[0].0, fields[0].1) {
            Err(e) => Err(e),
            Ok(decl) => match sc_fields_block(fields.drop_first()) {
                Err(e) => Err(e),
                Ok(rest) => Ok("    "@ + decl + ";\n"@ + rest),
            },
        }
    }
}

/// Render the C field block of one struct.
fn c_fields_block(fields: &Vec<LinkedKeyVal>) -> (r: RenderResult<String>)
    ensures
        render_res(r) == sc_fields_block(lkvs_view(fields@)),
{
    proof {
        crate::validate::lemma_lkvs_view(fields@);
    }
    let mut out = String::new();
    let n = fields.len();
    let mut i: usize = 0;
    let ghost fviews = lkvs_view(fields@);
    proof {
        assert(fviews.skip(0) =~= fviews);
        match sc_fields_block(fviews) {
            Ok(rest) => {
                assert(out@ + rest =~= rest);
            },
            Err(e) => {},
        }
    }
    while i < n
        invariant
            n == fields@.len(),
            0 <= i <= n,
            fviews == lkvs_view(fields@),
            fviews.len() == n,
            forall|j: int| 0 <= j < n ==> fviews[j] == (#[trigger] fields@[j])@,
            match sc_fields_block(fviews.skip(i as int)) {
                Ok(rest) => sc_fields_block(fviews) == Ok::<_, RendErrView>(out@ + rest),
                Err(e) => sc_fields_block(fviews) == Err::<Seq<char>, _>(e),
            },
        decreases n - i,
    {
        proof {
            assert(fviews.skip(i as int)[0] == fviews[i as int]);
            assert(fviews[i as int] == fields@[i as int]@);
            assert(fviews.skip(i as int).drop_first() =~= fviews.skip(i + 1));
        }
        match field_c(fields[i].0.as_str(), &fields[i].1) {
            Ok(decl) => {
                let ghost old_out = out@;
                out.append("    ");
                out.append(decl.as_str());
                out.append(";\n");
                proof {
                    match sc_fields_block(fviews.skip(i + 1)) {
                        Ok(rest) => {
                            assert(old_out + ("    "@ + decl@ + ";\n"@ + rest) =~= out@ + rest);
                        },
                        Err(e) => {},
                    }
                }
            },
            Err(e) => {
                return Err(e);
            },
        }
        i = i + 1;
    }
    proof {
        assert(fviews.skip(n as int) =~= Seq::<(Seq<char>, LinkedView)>::empty());
        assert(out@ + Seq::<char>::empty() =~= out@);
    }
    Ok(out)
}

/// Render the plain value text of a literal in a header definition.
fn define_value(lit: &Literal) -> (r: RenderResult<String>)
    ensures
        render_res(r) == sdefine_value(lit@),
{
    match lit {
        Literal::Bool(b) => {
            if *b {
                Ok(str_to_owned("true"))
            } else {
                Ok(str_to_owned("false"))
            }
        },
        Literal::Int(i) => Ok(i64_to_dec(*i)),
        Literal::UInt(u) => Ok(u64_to_dec(*u)),
        Literal::Str(s) => {
            let mut out = str_to_owned("\"");
            out.append(s.as_str());
            out.append("\"");
            proof {
                assert(out@ =~= "\""@ + s@ + "\""@);
            }
            Ok(out)
        },
        Literal::Char(c) => {
            let mut out = str_to_owned("'");
            push_char(&mut out, *c);
            out.append("'");
            proof {
                assert(out@ =~= "'"@ + seq![*c] + "'"@);
            }
            Ok(out)
        },
        Literal::Bytes(b) => Err(RenderError::UnsupportedLiteral),
    }
}

/// Render the header-declaration artifact for the linked rule table.
#[verifier::rlimit(60)]
pub fn gen_extra(cddl: &LinkedNodeMap, opts: &Options) -> (r: RenderResult<String>)
    ensures
        render_res(r) == sgen_extra(tentries_view(cddl.entries@), opts.language, opt_view(
            opts.prefix,
        )),
{
    proof {
        lemma_tentries_view(cddl.entries@);
    }
    let ghost eviews = tentries_view(cddl.entries@);
    let mut out = String::new();
    let n = cddl.entries.len();
    let mut i: usize = 0;
    proof {
        assert(eviews.skip(0) =~= eviews);
        match sgen_extra(eviews, opts.language, opt_view(opts.prefix)) {
            Ok(rest) => {
                assert(out@ + rest =~= rest);
            },
            Err(e) => {},
        }
    }
    while i < n
        invariant
            n == cddl.entries@.len(),
            0 <= i <= n,
            eviews == tentries_view(cddl.entries@),
            eviews.len() == n,
            forall|j: int| 0 <= j < n ==> eviews[j] == (
            (#[trigger] cddl.entries@[j]).0@,
            cddl.entries@[j].1@,
            ),
            match sgen_extra(eviews.skip(i as int), opts.language, opt_view(opts.prefix)) {
                Ok(rest) => sgen_extra(eviews, opts.language, opt_view(opts.prefix)) == Ok::<
                    _,
                    RendErrView,
                >(out@ + rest),
                Err(e) => sgen_extra(eviews, opts.language, opt_view(opts.prefix)) == Err::<
                    Seq<char>,
                    _,
                >(e),
            },
        decreases n - i,
    {
        proof {
            assert(eviews.skip(i as int)[0] == eviews[i as int]);
            assert(eviews.skip(i as int).drop_first() =~= eviews.skip(i + 1));
        }
        let (name, node) = cddl.entry_at(i);
        let ghost old_out = out@;
        match node {
            LinkedNode::Literal(lit) => {
                proof {
                    assert(cddl.entries@[i as int].1@ == LinkedView::Literal(lit@));
                }
                match define_value(lit) {
                    Ok(v) => {
                        let pre = clone_opt_string(&opts.prefix);
                        let nm = to_shouty_snake_case(name.as_str(), opts.language, pre);
                        out.append("#define ");
                        out.append(nm.as_str());
                        out.append(" ");
                        out.append(v.as_str());
                        out.append("\n");
                        proof {
                            let h = "#define "@ + sto_shouty(
                                cddl.entries@[i as int].0@,
                                opts.language,
                                opt_view(opts.prefix),
                            ) + " "@ + v@ + "\n"@;
                            assert(out@ =~= old_out + h);
                            match sgen_extra(eviews.skip(i + 1), opts.language, opt_view(
                                opts.prefix,
                            )) {
                                Ok(rest) => {
                                    assert(old_out + (h + rest) =~= out@ + rest);
                                },
                                Err(e) => {},
                            }
                        }
                    },
                    Err(e) => {
                        return Err(e);
                    },
                }
            },
            LinkedNode::Struct(fields) => {
                proof {
                    assert(cddl.entries@[i as int].1@ == LinkedView::Struct(
                        lkvs_view(fields.members@),
                    ));
                }
                match c_fields_block(&fields.members) {
                    Ok(body) => {
                        let pre = clone_opt_string(&opts.prefix);
                        let nm = to_snake_case(name.as_str(), opts.language, pre);
                        out.append("typedef struct {\n");
                        out.append(body.as_str());
                        out.append("} ");
                        out.append(nm.as_str());
                        out.append(";\n");
                        proof {
                            let h = "typedef struct {\n"@ + body@ + "} "@ + sto_snake(
                                cddl.entries@[i as int].0@,
                                opts.language,
                                opt_view(opts.prefix),
                            ) + ";\n"@;
                            assert(out@ =~= old_out + h);
                            match sgen_extra(eviews.skip(i + 1), opts.language, opt_view(
                                opts.prefix,
                            )) {
                                Ok(rest) => {
                                    assert(old_out + (h + rest) =~= out@ + rest);
                                },
                                Err(e) => {},
                            }
                        }
                    },
                    Err(e) => {
                        return Err(e);
                    },
                }
            },
            _ => {
                proof {
                    assert(!(cddl.entries@[i as int].1@ is Literal));
                    assert(!(cddl.entries@[i as int].1@ is Struct));
                    assert(out@ =~= old_out + Seq::<char>::empty());
                    match sgen_extra(eviews.skip(i + 1), opts.language, opt_view(opts.prefix)) {
                        Ok(rest) => {
                            assert(old_out + (Seq::<char>::empty() + rest) =~= out@ + rest);
                        },
                        Err(e) => {},
                    }
                }
            },
        }
        i = i + 1;
    }
    proof {
        assert(eviews.skip(n as int) =~= Seq::<(Seq<char>, LinkedView)>::empty());
        assert(out@ + Seq::<char>::empty() =~= out@);
    }
    Ok(out)
}

/// The package-manifest skeleton for a project name and an optional version.
pub open spec fn sgen_cargo(name: Seq<char>, version: Option<Seq<char>>) -> Seq<char> {
    let v = match version {
        Some(v) => v,
        None => "0.1.0"@,
    };
    "[package]\nname = \""@ + name + "\"\nversion = \""@ + v + "\"\nedition = \"2021\"\n"@
}

/// Render the package-manifest skeleton named for a project and version.
pub fn gen_cargo(name: &str, opts: &Options) -> (r: RenderResult<String>)
    ensures
        render_res(r) == Ok::<Seq<char>, RendErrView>(
            sgen_cargo(name@, opt_view(opts.version)),
        ),
{
    let mut out = str_to_owned("[package]\nname = \"");
    out.append(name);
    out.append("\"\nversion = \"");
    match &opts.version {
        Some(v) => {
            out.append(v.as_str());
        },
        None => {
            out.append("0.1.0");
        },
    }
    out.append("\"\nedition = \"2021\"\n");
    proof {
        assert(out@ =~= sgen_cargo(name@, opt_view(opts.version)));
    }
    Ok(out)
}

/// Restrict a linked rule table to its struct rules or to its literal rules.
pub fn filter_nodes(cddl: LinkedNodeMap, structs: bool) -> (r: LinkedNodeMap)
    requires
        cddl.wf(),
    ensures
        r.wf(),
        forall|k: Seq<char>| #[trigger] r@.dom().contains(k) <==> (cddl@.dom().contains(k) && (if
            structs {
            cddl@[k] is Struct
        } else {
            cddl@[k] is Literal
        })),
        forall|k: Seq<char>| #[trigger] r@.dom().contains(k) ==> r@[k] == cddl@[k],
{
    proof {
        crate::table::lemma_sorted_distinct(cddl.entries@);
        crate::table::lemma_entries_map(cddl.entries@);
    }
    let ghost orig = cddl.entries@;
    let mut cddl = cddl;
    let mut out = LinkedNodeMap::new();
    while cddl.entries.len() > 0
        invariant
            entries_sorted_linked(orig),
            entries_sorted_linked(cddl.entries@),
            cddl.entries@ == orig.take(cddl.entries@.len() as int),
            cddl.entries@.len() <= orig.len(),
            out.wf(),
            forall|k: Seq<char>| #[trigger] out@.dom().contains(k) <==> exists|j: int|
                cddl.entries@.len() <= j < orig.len() && (#[trigger] orig[j].0@) == k && (if structs {
                    orig[j].1@ is Struct
                } else {
                    orig[j].1@ is Literal
                }),
            forall|j: int|
                cddl.entries@.len() <= j < orig.len() && (if structs {
                    orig[j].1@ is Struct
                } else {
                    orig[j].1@ is Literal
                }) ==> out@[#[trigger] orig[j].0@] == orig[j].1@,
        decreases cddl.entries@.len(),
    {
        let ghost m = cddl.entries@.len() as int;
        match cddl.entries.pop() {
            None => {
                proof {
                    assert(false);
                }
            },
            Some(entry) => {
                proof {
                    assert(cddl.entries@ =~= orig.take(m - 1));
                    assert(entry == orig[m - 1]);
                }
                let keep = match (&entry.1, structs) {
                    (LinkedNode::Struct(f), true) => true,
                    (LinkedNode::Literal(l), false) => true,
                    _ => false,
                };
                if keep {
                    let ghost old_out = out@;
                    out.insert(entry.0, entry.1);
                    proof {
                        crate::table::lemma_sorted_distinct(orig);
                        assert forall|k: Seq<char>| #[trigger] out@.dom().contains(k) implies
                            exists|j: int|
                            m - 1 <= j < orig.len() && (#[trigger] orig[j].0@) == k && (if structs {
                                orig[j].1@ is Struct
                            } else {
                                orig[j].1@ is Literal
                            }) by {
                            if k == orig[m - 1].0@ {
                                assert(orig[m - 1].0@ == k);
                            } else {
                                let j = choose|j: int|
                                    m <= j < orig.len() && (#[trigger] orig[j].0@) == k && (if
                                        structs {
                                        orig[j].1@ is Struct
                                    } else {
                                        orig[j].1@ is Literal
                                    });
                                assert(orig[j].0@ == k);
                            }
                        }
                    }
                } else {
                    proof {
                        assert forall|k: Seq<char>| #[trigger] out@.dom().contains(k) implies
                            exists|j: int|
                            m - 1 <= j < orig.len() && (#[trigger] orig[j].0@) == k && (if structs {
                                orig[j].1@ is Struct
                            } else {
                                orig[j].1@ is Literal
                            }) by {
                            let j = choose|j: int|
                                m <= j < orig.len() && (#[trigger] orig[j].0@) == k && (if structs {
                                    orig[j].1@ is Struct
                                } else {
                                    orig[j].1@ is Literal
                                });
                            assert(orig[j].0@ == k);
                        }
                    }
                }
            },
        }
    }
    proof {
        crate::table::lemma_sorted_distinct(orig);
        crate::table::lemma_entries_map(orig);
        assert(cddl.entries@.len() == 0);
        assert forall|k: Seq<char>| #[trigger] out@.dom().contains(k) implies (entries_map_linked(
            orig,
        ).dom().contains(k) && (if structs {
            entries_map_linked(orig)[k] is Struct
        } else {
            entries_map_linked(orig)[k] is Literal
        })) by {
            let j = choose|j: int|
                0 <= j < orig.len() && (#[trigger] orig[j].0@) == k && (if structs {
                    orig[j].1@ is Struct
                } else {
                    orig[j].1@ is Literal
                });
            assert(orig[j].0@ == k);
        }
        assert forall|k: Seq<char>|
            entries_map_linked(orig).dom().contains(k) && (if structs {
                entries_map_linked(orig)[k] is Struct
            } else {
                entries_map_linked(orig)[k] is Literal
            }) implies #[trigger] out@.dom().contains(k) by {
            let j = choose|j: int| 0 <= j < orig.len() && (#[trigger] orig[j].0@) == k;
            assert(orig[j].0@ == k);
            assert(entries_map_linked(orig)[k] == orig[j].1@);
        }
    }
    out
}

/// The entry mapping of a linked rule table's entries.
pub open spec fn entries_map_linked(s: Seq<(String, LinkedNode)>) -> Map<Seq<char>, LinkedView> {
    crate::table::entries_map(s)
}

/// Whether a linked rule table's entries are strictly sorted.
pub open spec fn entries_sorted_linked(s: Seq<(String, LinkedNode)>) -> bool {
    crate::table::entries_sorted(s)
}

/// Restrict a linked rule table to its struct rules.
pub fn filter_structs(cddl: LinkedNodeMap) -> (r: LinkedNodeMap)
    requires
        cddl.wf(),
    ensures
        r.wf(),
        forall|k: Seq<char>| #[trigger] r@.dom().contains(k) <==> (cddl@.dom().contains(k)
            && cddl@[k] is Struct),
        forall|k: Seq<char>| #[trigger] r@.dom().contains(k) ==> r@[k] == cddl@[k],
{
    filter_nodes(cddl, true)
}

} // verus!
