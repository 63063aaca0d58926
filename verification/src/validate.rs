//! The linking stage: resolving symbolic references and splicing groups.
//!
//! Linking consumes the full rule table as a read-only symbol table and
//! resolves every [`crate::ivt::Node::Foreign`] placeholder, producing a
//! [`LinkedNode`] with no outstanding references. A reference to a nominal
//! struct is kept by name ([`LinkedNode::ForeignStruct`]); a reference to a
//! transparent group is spliced: its already-flattened fields are inlined in
//! place, preserving order, to arbitrary depth.
//!
//! Resolution recurses through the symbol table, guarded by the set of names
//! currently being resolved: a rule that transitively references itself is
//! reported as [`crate::util::ValidateError::Cycle`] instead of recursing
//! forever.

use vstd::prelude::*;

verus! {

broadcast use {
    vstd::std_specs::vec::group_vec_axioms,
    vstd::seq::group_seq_axioms,
    vstd::set::group_set_axioms,
};

use crate::ivt::{ConstrainedType, Literal, LitView, Node, NodeView, NodeMap};
use crate::table::RuleTable;
use crate::util::{ErrView, ValidateError};
use crate::FlattenResult;

/// A resolved, flattened field list.
#[derive(Debug, PartialEq)]
pub struct Fields {
    /// The field members, in their flattened order; the position of a field
    /// is its binary field index.
    pub members: Vec<LinkedKeyVal>,
}

/// One resolved field: a key paired with its resolved type.
#[derive(Debug, PartialEq)]
pub struct LinkedKeyVal(pub String, pub LinkedNode);

/// A [`LinkedKeyVal`] in named-field form rather than pair form.
#[derive(Debug, PartialEq)]
pub struct LinkedKeyValStruct {
    /// The field's key.
    pub key: String,
    /// The field's resolved type.
    pub val: LinkedNode,
}

/// A resolved fixed-length array.
#[derive(Debug, PartialEq)]
pub struct LinkedArray {
    /// The exact element count.
    pub len: usize,
    /// The element type: a scalar or a named struct reference.
    pub ty: Box<LinkedNode>,
}

/// The linked IR of one rule: no unresolved references remain.
#[derive(Debug, PartialEq)]
pub enum LinkedNode {
    /// A literal constant.
    Literal(Literal),
    /// A scalar with a concrete wire width.
    ConstrainedType(ConstrainedType),
    /// A fixed-length array.
    Array(LinkedArray),
    /// A resolved, still-transparent field list.
    Fields(Fields),
    /// A resolved nominal field list; only the value bound to a top-level
    /// rule name may be a struct.
    Struct(Fields),
    /// A resolved reference to another top-level struct, kept by name.
    ForeignStruct(String),
}

/// The spec-level mirror of [`LinkedNode`].
pub enum LinkedView {
    Literal(LitView),
    ConstrainedType(ConstrainedType),
    Array { len: nat, ty: Box<LinkedView> },
    Fields(Seq<(Seq<char>, LinkedView)>),
    Struct(Seq<(Seq<char>, LinkedView)>),
    ForeignStruct(Seq<char>),
}

impl View for LinkedKeyVal {
    type V = (Seq<char>, LinkedView);

    open spec fn view(&self) -> (Seq<char>, LinkedView)
        decreases self,
    {
        (self.0@, self.1@)
    }
}

/// The views of a sequence of resolved fields, element by element.
pub open spec fn lkvs_view(s: Seq<LinkedKeyVal>) -> Seq<(Seq<char>, LinkedView)>
    decreases s,
{
    if s.len() == 0 {
        Seq::empty()
    } else {
        seq![s[0]@] + lkvs_view(s.drop_first())
    }
}

/// `lkvs_view` is the element-wise view of its argument.
pub proof fn lemma_lkvs_view(s: Seq<LinkedKeyVal>)
    ensures
        lkvs_view(s).len() == s.len(),
        forall|i: int| 0 <= i < s.len() ==> lkvs_view(s)[i] == #[trigger] s[i]@,
    decreases s.len(),
{
    reveal_with_fuel(lkvs_view, 2);
    if s.len() > 0 {
        lemma_lkvs_view(s.drop_first());
        assert(lkvs_view(s) == seq![s[0]@] + lkvs_view(s.drop_first()));
        assert forall|i: int| 0 <= i < s.len() implies lkvs_view(s)[i] == #[trigger] s[i]@ by {
            if i > 0 {
                assert(s.drop_first()[i - 1] == s[i]);
                assert(lkvs_view(s)[i] == lkvs_view(s.drop_first())[i - 1]);
            }
        }
    }
}

/// Concatenating field vectors concatenates their views.
pub proof fn lemma_lkvs_view_concat(a: Seq<LinkedKeyVal>, b: Seq<LinkedKeyVal>)
    ensures
        lkvs_view(a + b) == lkvs_view(a) + lkvs_view(b),
{
    lemma_lkvs_view(a + b);
    lemma_lkvs_view(a);
    lemma_lkvs_view(b);
    assert forall|i: int| 0 <= i < a.len() + b.len() implies lkvs_view(a + b)[i] == (lkvs_view(a)
        + lkvs_view(b))[i] by {
        assert(lkvs_view(a + b)[i] == (a + b)[i]@);
        if i < a.len() {
            assert((a + b)[i] == a[i]);
            assert(lkvs_view(a)[i] == a[i]@);
        } else {
            assert((a + b)[i] == b[i - a.len()]);
            assert(lkvs_view(b)[i - a.len()] == b[i - a.len()]@);
        }
    }
    assert(lkvs_view(a + b) =~= lkvs_view(a) + lkvs_view(b));
}

impl View for LinkedNode {
    type V = LinkedView;

    open spec fn view(&self) -> LinkedView
        decreases self,
    {
        match self {
            LinkedNode::Literal(l) => LinkedView::Literal(l@),
            LinkedNode::ConstrainedType(t) => LinkedView::ConstrainedType(*t),
            LinkedNode::Array(a) => LinkedView::Array {
                len: a.len as nat,
                ty: Box::new((*a.ty)@),
            },
            LinkedNode::Fields(f) => LinkedView::Fields(lkvs_view(f.members@)),
            LinkedNode::Struct(f) => LinkedView::Struct(lkvs_view(f.members@)),
            LinkedNode::ForeignStruct(s) => LinkedView::ForeignStruct(s@),
        }
    }
}

impl LinkedKeyVal {
    /// Pair a key with its resolved type.
    pub fn new(key: &str, node: LinkedNode) -> (r: LinkedKeyVal)
        ensures
            r.0@ == key@,
            r.1 == node,
    {
        LinkedKeyVal(crate::strutil::str_to_owned(key), node)
    }
}

impl From<ConstrainedType> for LinkedNode {
    /// A constrained type is one variant of a resolved node.
    fn from(ty: ConstrainedType) -> (r: LinkedNode) {
        LinkedNode::ConstrainedType(ty)
    }
}

impl vstd::std_specs::convert::FromSpecImpl<ConstrainedType> for LinkedNode {
    open spec fn obeys_from_spec() -> bool {
        true
    }

    open spec fn from_spec(ty: ConstrainedType) -> LinkedNode {
        LinkedNode::ConstrainedType(ty)
    }
}

impl From<(String, LinkedNode)> for LinkedKeyVal {
    /// A key/value pair is a resolved field.
    fn from(t: (String, LinkedNode)) -> (r: LinkedKeyVal) {
        LinkedKeyVal(t.0, t.1)
    }
}

impl vstd::std_specs::convert::FromSpecImpl<(String, LinkedNode)> for LinkedKeyVal {
    open spec fn obeys_from_spec() -> bool {
        true
    }

    open spec fn from_spec(t: (String, LinkedNode)) -> LinkedKeyVal {
        LinkedKeyVal(t.0, t.1)
    }
}

impl From<LinkedKeyValStruct> for LinkedKeyVal {
    /// The pair form of a named field.
    fn from(node: LinkedKeyValStruct) -> (r: LinkedKeyVal) {
        LinkedKeyVal(node.key, node.val)
    }
}

impl vstd::std_specs::convert::FromSpecImpl<LinkedKeyValStruct> for LinkedKeyVal {
    open spec fn obeys_from_spec() -> bool {
        true
    }

    open spec fn from_spec(node: LinkedKeyValStruct) -> LinkedKeyVal {
        LinkedKeyVal(node.key, node.val)
    }
}

impl From<LinkedKeyVal> for LinkedKeyValStruct {
    /// The named-field form of a pair.
    fn from(node: LinkedKeyVal) -> (r: LinkedKeyValStruct) {
        LinkedKeyValStruct { key: node.0, val: node.1 }
    }
}

impl vstd::std_specs::convert::FromSpecImpl<LinkedKeyVal> for LinkedKeyValStruct {
    open spec fn obeys_from_spec() -> bool {
        true
    }

    open spec fn from_spec(node: LinkedKeyVal) -> LinkedKeyValStruct {
        LinkedKeyValStruct { key: node.0, val: node.1 }
    }
}

/// The linked rule table produced by linking.
pub type LinkedNodeMap = RuleTable<LinkedNode>;

/// Entering an unvisited name of the table shrinks the set of names still
/// open to resolution.
pub proof fn lemma_visit_decreases(dom: Set<Seq<char>>, vis: Set<Seq<char>>, name: Seq<char>)
    requires
        dom.finite(),
        dom.contains(name),
        !vis.contains(name),
    ensures
        dom.difference(vis.insert(name)).len() < dom.difference(vis).len(),
{
    assert(dom.difference(vis.insert(name)) =~= dom.difference(vis).remove(name));
    assert(dom.difference(vis).contains(name));
}

/// What resolving one node yields, given the symbol table `ctx` and the set
/// `vis` of names currently being resolved.
///
/// A reference whose target resolves to a struct collapses to a by-name
/// reference; any other resolved target is substituted in place. A name met
/// again while it is still being resolved is a cycle. A field list in a
/// position where none is allowed (a bare key/value pair at rule level) is
/// rejected rather than resolved.
pub open spec fn slink_node(
    n: NodeView,
    ctx: Map<Seq<char>, NodeView>,
    vis: Set<Seq<char>>,
) -> Result<LinkedView, ErrView>
    decreases ctx.dom().difference(vis).len(), n, 2int,
        when ctx.dom().finite()
        via slink_node_dec
{
    match n {
        NodeView::Literal(l) => Ok(LinkedView::Literal(l)),
        NodeView::ConstrainedType(t) => Ok(LinkedView::ConstrainedType(t)),
        NodeView::Foreign(name) => if vis.contains(name) {
            Err(ErrView::Cycle(name))
        } else if !ctx.dom().contains(name) {
            Err(ErrView::ForeignKey(name))
        } else {
            match slink_node(ctx[name], ctx, vis.insert(name)) {
                Ok(LinkedView::Struct(f)) => Ok(LinkedView::ForeignStruct(name)),
                r => r,
            }
        },
        NodeView::Group(ms) => match slink_members(ms, ctx, vis) {
            Ok(f) => Ok(LinkedView::Fields(f)),
            Err(e) => Err(e),
        },
        NodeView::Mapping(ms) => match slink_members(ms, ctx, vis) {
            Ok(f) => Ok(LinkedView::Struct(f)),
            Err(e) => Err(e),
        },
        NodeView::Array { len, ty } => match slink_node(*ty, ctx, vis) {
            Err(e) => Err(e),
            Ok(LinkedView::Array { len: l2, ty: t2 }) => Err(ErrView::InvalidArray),
            Ok(LinkedView::Fields(f)) => Err(ErrView::InvalidArray),
            Ok(LinkedView::Struct(f)) => Err(ErrView::InvalidArray),
            Ok(t) => Ok(LinkedView::Array { len, ty: Box::new(t) }),
        },
        NodeView::KeyVal(k, v) => Err(ErrView::InvalidType),
    }
}

#[via_fn]
proof fn slink_node_dec(n: NodeView, ctx: Map<Seq<char>, NodeView>, vis: Set<Seq<char>>) {
    match n {
        NodeView::Foreign(name) => {
            if !vis.contains(name) && ctx.dom().contains(name) {
                lemma_visit_decreases(ctx.dom(), vis, name);
            }
        },
        _ => {},
    }
}

/// Resolve the members of a field list in order, splicing each member's
/// fields in place and failing fast on the first error.
pub open spec fn slink_members(
    ms: Seq<NodeView>,
    ctx: Map<Seq<char>, NodeView>,
    vis: Set<Seq<char>>,
) -> Result<Seq<(Seq<char>, LinkedView)>, ErrView>
    decreases ctx.dom().difference(vis).len(), ms, 1int,
        when ctx.dom().finite()
{
    if ms.len() == 0 {
        Ok(Seq::empty())
    } else {
        match slink_member(ms[0], ctx, vis) {
            Err(e) => Err(e),
            Ok(fs) => match slink_members(ms.drop_first(), ctx, vis) {
                Err(e) => Err(e),
                Ok(rest) => Ok(fs + rest),
            },
        }
    }
}

/// What resolving one member of a field list yields: a keyed member becomes
/// exactly one field; a keyless member must name a transparent group, whose
/// already-resolved fields are spliced in place.
pub open spec fn slink_member(
    m: NodeView,
    ctx: Map<Seq<char>, NodeView>,
    vis: Set<Seq<char>>,
) -> Result<Seq<(Seq<char>, LinkedView)>, ErrView>
    decreases ctx.dom().difference(vis).len(), m, 3int,
        when ctx.dom().finite()
        via slink_member_dec
{
    match m {
        NodeView::KeyVal(k, v) => match slink_node(*v, ctx, vis) {
            Ok(n) => Ok(seq![(k, n)]),
            Err(e) => Err(e),
        },
        NodeView::Foreign(key) => if vis.contains(key) {
            Err(ErrView::Cycle(key))
        } else if !ctx.dom().contains(key) {
            Err(ErrView::InvalidType)
        } else {
            match ctx[key] {
                NodeView::Group(g) => slink_members(g, ctx, vis.insert(key)),
                _ => Err(ErrView::InvalidType),
            }
        },
        _ => Err(ErrView::InvalidGroupMissingKey),
    }
}

#[via_fn]
proof fn slink_member_dec(m: NodeView, ctx: Map<Seq<char>, NodeView>, vis: Set<Seq<char>>) {
    match m {
        NodeView::Foreign(key) => {
            if !vis.contains(key) && ctx.dom().contains(key) {
                lemma_visit_decreases(ctx.dom(), vis, key);
            }
        },
        _ => {},
    }
}

/// Resolving a concatenation of members resolves each part in order, the
/// first error winning.
pub proof fn lemma_members_concat(
    a: Seq<NodeView>,
    b: Seq<NodeView>,
    ctx: Map<Seq<char>, NodeView>,
    vis: Set<Seq<char>>,
)
    requires
        ctx.dom().finite(),
    ensures
        slink_members(a + b, ctx, vis) == match slink_members(a, ctx, vis) {
            Err(e) => Err::<Seq<(Seq<char>, LinkedView)>, ErrView>(e),
            Ok(fa) => match slink_members(b, ctx, vis) {
                Err(e) => Err(e),
                Ok(fb) => Ok(fa + fb),
            },
        },
    decreases a.len(),
{
    if a.len() == 0 {
        assert(a + b =~= b);
        match slink_members(b, ctx, vis) {
            Ok(fb) => {
                assert(Seq::<(Seq<char>, LinkedView)>::empty() + fb =~= fb);
            },
            Err(e) => {},
        }
    } else {
        assert((a + b)[0] == a[0]);
        assert((a + b).len() > 0);
        assert((a + b).drop_first() =~= a.drop_first() + b);
        lemma_members_concat(a.drop_first(), b, ctx, vis);
        match slink_member(a[0], ctx, vis) {
            Err(e) => {},
            Ok(f0) => {
                match slink_members(a.drop_first(), ctx, vis) {
                    Err(e) => {},
                    Ok(fa1) => {
                        match slink_members(b, ctx, vis) {
                            Err(e) => {},
                            Ok(fb) => {
                                assert(f0 + (fa1 + fb) =~= (f0 + fa1) + fb);
                            },
                        }
                    },
                }
            },
        }
    }
}

/// Shrinking the set of names under resolution cannot change a resolution
/// that succeeds: a successful run never meets a guarded name.
pub proof fn lemma_node_vis_shrink(
    n: NodeView,
    ctx: Map<Seq<char>, NodeView>,
    vis_small: Set<Seq<char>>,
    vis_big: Set<Seq<char>>,
)
    requires
        ctx.dom().finite(),
        vis_small.subset_of(vis_big),
        slink_node(n, ctx, vis_big) is Ok,
    ensures
        slink_node(n, ctx, vis_small) == slink_node(n, ctx, vis_big),
    decreases ctx.dom().difference(vis_small).len(), n, 2int,
{
    match n {
        NodeView::Foreign(name) => {
            assert(!vis_big.contains(name));
            assert(ctx.dom().contains(name));
            assert(slink_node(ctx[name], ctx, vis_big.insert(name)) is Ok);
            lemma_visit_decreases(ctx.dom(), vis_small, name);
            assert(vis_small.insert(name).subset_of(vis_big.insert(name)));
            lemma_node_vis_shrink(ctx[name], ctx, vis_small.insert(name), vis_big.insert(name));
        },
        NodeView::Group(ms) => {
            lemma_members_vis_shrink(ms, ctx, vis_small, vis_big);
        },
        NodeView::Mapping(ms) => {
            lemma_members_vis_shrink(ms, ctx, vis_small, vis_big);
        },
        NodeView::Array { len, ty } => {
            lemma_node_vis_shrink(*ty, ctx, vis_small, vis_big);
        },
        _ => {},
    }
}

/// The member-list form of [`lemma_node_vis_shrink`].
pub proof fn lemma_members_vis_shrink(
    ms: Seq<NodeView>,
    ctx: Map<Seq<char>, NodeView>,
    vis_small: Set<Seq<char>>,
    vis_big: Set<Seq<char>>,
)
    requires
        ctx.dom().finite(),
        vis_small.subset_of(vis_big),
        slink_members(ms, ctx, vis_big) is Ok,
    ensures
        slink_members(ms, ctx, vis_small) == slink_members(ms, ctx, vis_big),
    decreases ctx.dom().difference(vis_small).len(), ms, 1int,
{
    if ms.len() > 0 {
        assert(slink_member(ms[0], ctx, vis_big) is Ok);
        lemma_member_vis_shrink(ms[0], ctx, vis_small, vis_big);
        lemma_members_vis_shrink(ms.drop_first(), ctx, vis_small, vis_big);
    }
}

/// The single-member form of [`lemma_node_vis_shrink`].
pub proof fn lemma_member_vis_shrink(
    m: NodeView,
    ctx: Map<Seq<char>, NodeView>,
    vis_small: Set<Seq<char>>,
    vis_big: Set<Seq<char>>,
)
    requires
        ctx.dom().finite(),
        vis_small.subset_of(vis_big),
        slink_member(m, ctx, vis_big) is Ok,
    ensures
        slink_member(m, ctx, vis_small) == slink_member(m, ctx, vis_big),
    decreases ctx.dom().difference(vis_small).len(), m, 3int,
{
    match m {
        NodeView::KeyVal(k, v) => {
            lemma_node_vis_shrink(*v, ctx, vis_small, vis_big);
        },
        NodeView::Foreign(key) => {
            assert(!vis_big.contains(key));
            assert(ctx.dom().contains(key));
            lemma_visit_decreases(ctx.dom(), vis_small, key);
            assert(vis_small.insert(key).subset_of(vis_big.insert(key)));
            match ctx[key] {
                NodeView::Group(g) => {
                    lemma_members_vis_shrink(g, ctx, vis_small.insert(key), vis_big.insert(key));
                },
                _ => {},
            }
        },
        _ => {},
    }
}

/// Splicing a referenced group is the same as writing its fields inline:
/// when a member list that references the transparent group `name` resolves
/// successfully, it resolves to exactly what the list with `name`'s members
/// written in its place resolves to.
pub proof fn lemma_splice_is_inline(
    ms1: Seq<NodeView>,
    name: Seq<char>,
    ms2: Seq<NodeView>,
    ctx: Map<Seq<char>, NodeView>,
    vis: Set<Seq<char>>,
)
    requires
        ctx.dom().finite(),
        ctx.dom().contains(name),
        !vis.contains(name),
        ctx[name] is Group,
        slink_members(ms1 + seq![NodeView::Foreign(name)] + ms2, ctx, vis) is Ok,
    ensures
        slink_members(ms1 + seq![NodeView::Foreign(name)] + ms2, ctx, vis) == slink_members(
            ms1 + ctx[name]->Group_0 + ms2,
            ctx,
            vis,
        ),
{
    let g2 = ctx[name]->Group_0;
    let mid = seq![NodeView::Foreign(name)];
    lemma_members_concat(ms1 + mid, ms2, ctx, vis);
    lemma_members_concat(ms1, mid, ctx, vis);
    lemma_members_concat(ms1 + g2, ms2, ctx, vis);
    lemma_members_concat(ms1, g2, ctx, vis);
    assert((ms1 + mid) + ms2 =~= ms1 + mid + ms2);
    assert((ms1 + g2) + ms2 =~= ms1 + g2 + ms2);
    assert(slink_members(ms1, ctx, vis) is Ok);
    assert(slink_members(mid, ctx, vis) is Ok);
    assert(mid.drop_first() =~= Seq::<NodeView>::empty());
    assert(slink_members(Seq::<NodeView>::empty(), ctx, vis) == Ok::<
        Seq<(Seq<char>, LinkedView)>,
        ErrView,
    >(Seq::empty()));
    assert(slink_members(mid, ctx, vis) == match slink_member(mid[0], ctx, vis) {
        Err(e) => Err::<Seq<(Seq<char>, LinkedView)>, ErrView>(e),
        Ok(f0) => Ok(f0 + Seq::<(Seq<char>, LinkedView)>::empty()),
    });
    assert(slink_member(mid[0], ctx, vis) == slink_members(g2, ctx, vis.insert(name)));
    assert(slink_members(g2, ctx, vis.insert(name)) is Ok);
    assert(vis.subset_of(vis.insert(name)));
    lemma_members_vis_shrink(g2, ctx, vis, vis.insert(name));
    match slink_member(mid[0], ctx, vis) {
        Ok(f0) => {
            assert(f0 + Seq::<(Seq<char>, LinkedView)>::empty() =~= f0);
        },
        Err(e) => {},
    }
}

/// The names held by the stack of rules currently being resolved.
pub open spec fn vis_set(v: Seq<String>) -> Set<Seq<char>> {
    Set::new(|k: Seq<char>| exists|i: int| 0 <= i < v.len() && (#[trigger] v[i]@) == k)
}

/// Pushing a name onto the stack inserts it into the set of open names.
proof fn lemma_vis_push(v: Seq<String>, s: String)
    ensures
        vis_set(v.push(s)) == vis_set(v).insert(s@),
{
    assert forall|k: Seq<char>| vis_set(v.push(s)).contains(k) implies vis_set(v).insert(
        s@,
    ).contains(k) by {
        let i = choose|i: int| 0 <= i < v.push(s).len() && (#[trigger] v.push(s)[i]@) == k;
        if i < v.len() {
            assert(v[i]@ == k);
        }
    }
    assert forall|k: Seq<char>| vis_set(v).insert(s@).contains(k) implies vis_set(
        v.push(s),
    ).contains(k) by {
        if k == s@ {
            assert(v.push(s)[v.len() as int]@ == k);
        } else {
            let i = choose|i: int| 0 <= i < v.len() && (#[trigger] v[i]@) == k;
            assert(v.push(s)[i]@ == k);
        }
    }
    assert(vis_set(v.push(s)) =~= vis_set(v).insert(s@));
}

/// Whether the stack of open names holds the given name.
fn visiting_contains(visiting: &Vec<String>, name: &str) -> (r: bool)
    ensures
        r == vis_set(visiting@).contains(name@),
{
    let mut i: usize = 0;
    while i < visiting.len()
        invariant
            0 <= i <= visiting@.len(),
            forall|j: int| 0 <= j < i ==> (#[trigger] visiting@[j]@) != name@,
        decreases visiting@.len() - i,
    {
        if crate::strutil::str_eq(visiting[i].as_str(), name) {
            return true;
        }
        i = i + 1;
    }
    false
}

/// Copy the stack of open names.
fn clone_vec_string(v: &Vec<String>) -> (r: Vec<String>)
    ensures
        r@ == v@,
{
    let mut out: Vec<String> = Vec::new();
    let mut i: usize = 0;
    while i < v.len()
        invariant
            0 <= i <= v@.len(),
            out@ == v@.subrange(0, i as int),
        decreases v@.len() - i,
    {
        out.push(v[i].clone());
        i = i + 1;
        proof {
            assert(out@ =~= v@.subrange(0, i as int));
        }
    }
    proof {
        assert(out@ =~= v@);
    }
    out
}

/// Copy a literal.
fn dup_literal(l: &Literal) -> (r: Literal)
    ensures
        r@ == l@,
{
    match l {
        Literal::Int(i) => Literal::Int(*i),
        Literal::UInt(u) => Literal::UInt(*u),
        Literal::Bool(b) => Literal::Bool(*b),
        Literal::Str(s) => Literal::Str(s.clone()),
        Literal::Char(c) => Literal::Char(*c),
        Literal::Bytes(b) => Literal::Bytes(crate::ivt::bytes_dup(b)),
    }
}

/// The view of a node-linking result.
pub open spec fn link_res(r: FlattenResult<LinkedNode>) -> Result<LinkedView, ErrView> {
    match r {
        Ok(n) => Ok(n@),
        Err(e) => Err(e@),
    }
}

/// The view of a field-list-linking result.
pub open spec fn fields_res(r: FlattenResult<Vec<LinkedKeyVal>>) -> Result<
    Seq<(Seq<char>, LinkedView)>,
    ErrView,
> {
    match r {
        Ok(v) => Ok(lkvs_view(v@)),
        Err(e) => Err(e@),
    }
}

/// Resolve one node against the symbol table, `visiting` holding the names
/// on the current resolution path.
pub(crate) fn link_node(node: &Node, ctx: &NodeMap, visiting: &Vec<String>) -> (r: FlattenResult<
    LinkedNode,
>)
    requires
        ctx.wf(),
    ensures
        link_res(r) == slink_node(node@, ctx@, vis_set(visiting@)),
    decreases ctx@.dom().difference(vis_set(visiting@)).len(), *node, 4int,
{
    proof {
        crate::table::lemma_entries_map_finite(ctx.entries@);
    }
    match node {
        Node::Literal(lit) => Ok(LinkedNode::Literal(dup_literal(lit))),
        Node::ConstrainedType(t) => Ok(LinkedNode::ConstrainedType(*t)),
        Node::Foreign(t) => link_foreign(node, ctx, visiting),
        Node::Group(g) => link_group(g, ctx, visiting),
        Node::Mapping(g) => link_struct(g, ctx, visiting),
        Node::Array(a) => link_array(a, ctx, visiting),
        Node::KeyVal(kv) => Err(ValidateError::InvalidType),
    }
}

/// Resolve an array: the element type must resolve to a scalar or a named
/// struct reference; nested arrays and inline field lists are rejected.
fn link_array(arr: &crate::ivt::Array, ctx: &NodeMap, visiting: &Vec<String>) -> (r: FlattenResult<
    LinkedNode,
>)
    requires
        ctx.wf(),
    ensures
        link_res(r) == slink_node(
            NodeView::Array { len: arr.len as nat, ty: Box::new((*arr.ty)@) },
            ctx@,
            vis_set(visiting@),
        ),
    decreases ctx@.dom().difference(vis_set(visiting@)).len(), *arr, 1int,
{
    proof {
        crate::table::lemma_entries_map_finite(ctx.entries@);
    }
    match link_node(&arr.ty, ctx, visiting) {
        Err(e) => Err(e),
        Ok(LinkedNode::Array(a2)) => Err(ValidateError::InvalidArray),
        Ok(LinkedNode::Fields(f)) => Err(ValidateError::InvalidArray),
        Ok(LinkedNode::Struct(f)) => Err(ValidateError::InvalidArray),
        Ok(n) => Ok(LinkedNode::Array(LinkedArray { len: arr.len, ty: Box::new(n) })),
    }
}

/// Resolve a reference: a target that resolves to a struct is kept by name;
/// any other resolved target is substituted in place.
fn link_foreign(node: &Node, ctx: &NodeMap, visiting: &Vec<String>) -> (r: FlattenResult<
    LinkedNode,
>)
    requires
        ctx.wf(),
        node is Foreign,
    ensures
        link_res(r) == slink_node(node@, ctx@, vis_set(visiting@)),
    decreases ctx@.dom().difference(vis_set(visiting@)).len(), *node, 0int,
{
    proof {
        crate::table::lemma_entries_map_finite(ctx.entries@);
    }
    let key = match node {
        Node::Foreign(k) => k,
        _ => {
            return Err(ValidateError::Infallible);
        },
    };
    if visiting_contains(visiting, key.as_str()) {
        Err(ValidateError::Cycle(key.clone()))
    } else {
        match ctx.get(key.as_str()) {
            None => Err(ValidateError::ForeignKey(key.clone())),
            Some(target) => {
                let mut v2 = clone_vec_string(visiting);
                v2.push(key.clone());
                proof {
                    lemma_vis_push(visiting@, *key);
                    lemma_visit_decreases(ctx@.dom(), vis_set(visiting@), key@);
                }
                match link_node(target, ctx, &v2) {
                    Ok(LinkedNode::Struct(f)) => Ok(LinkedNode::ForeignStruct(key.clone())),
                    r => r,
                }
            },
        }
    }
}

/// Resolve a transparent group into a resolved field list.
fn link_group(map: &crate::ivt::Group, ctx: &NodeMap, visiting: &Vec<String>) -> (r: FlattenResult<
    LinkedNode,
>)
    requires
        ctx.wf(),
    ensures
        link_res(r) == slink_node(NodeView::Group(crate::ivt::nodes_view(map.members@)), ctx@,
            vis_set(visiting@)),
    decreases ctx@.dom().difference(vis_set(visiting@)).len(), *map, 1int,
{
    proof {
        crate::table::lemma_entries_map_finite(ctx.entries@);
    }
    match link_fields(&map.members, ctx, visiting) {
        Ok(members) => Ok(LinkedNode::Fields(Fields { members })),
        Err(e) => Err(e),
    }
}

/// Resolve a keyed group into a nominal struct.
fn link_struct(map: &crate::ivt::Group, ctx: &NodeMap, visiting: &Vec<String>) -> (r: FlattenResult<
    LinkedNode,
>)
    requires
        ctx.wf(),
    ensures
        link_res(r) == slink_node(NodeView::Mapping(crate::ivt::nodes_view(map.members@)), ctx@,
            vis_set(visiting@)),
    decreases ctx@.dom().difference(vis_set(visiting@)).len(), *map, 1int,
{
    proof {
        crate::table::lemma_entries_map_finite(ctx.entries@);
    }
    match link_fields(&map.members, ctx, visiting) {
        Ok(members) => Ok(LinkedNode::Struct(Fields { members })),
        Err(e) => Err(e),
    }
}

/// Resolve the members of a field list in order, splicing referenced groups
/// in place.
fn link_fields(members: &Vec<Node>, ctx: &NodeMap, visiting: &Vec<String>) -> (r: FlattenResult<
    Vec<LinkedKeyVal>,
>)
    requires
        ctx.wf(),
    ensures
        fields_res(r) == slink_members(crate::ivt::nodes_view(members@), ctx@,
            vis_set(visiting@)),
    decreases ctx@.dom().difference(vis_set(visiting@)).len(), *members, 0int,
{
    proof {
        crate::table::lemma_entries_map_finite(ctx.entries@);
        crate::ivt::lemma_nodes_view(members@);
    }
    let ghost mviews = crate::ivt::nodes_view(members@);
    let ghost vis = vis_set(visiting@);
    let mut out: Vec<LinkedKeyVal> = Vec::new();
    let n = members.len();
    let mut i: usize = 0;
    proof {
        assert(mviews.skip(0) =~= mviews);
        match slink_members(mviews, ctx@, vis) {
            Ok(rest) => {
                assert(lkvs_view(out@) + rest =~= rest);
            },
            Err(e) => {},
        }
    }
    while i < n
        invariant
            ctx.wf(),
            ctx@.dom().finite(),
            n == members@.len(),
            0 <= i <= n,
            mviews == crate::ivt::nodes_view(members@),
            mviews.len() == n,
            forall|j: int| 0 <= j < n ==> mviews[j] == #[trigger] members@[j]@,
            vis == vis_set(visiting@),
            match slink_members(mviews.skip(i as int), ctx@, vis) {
                Ok(rest) => slink_members(mviews, ctx@, vis) == Ok::<_, ErrView>(
                    lkvs_view(out@) + rest,
                ),
                Err(e) => slink_members(mviews, ctx@, vis) == Err::<
                    Seq<(Seq<char>, LinkedView)>,
                    _,
                >(e),
            },
        decreases n - i,
    {
        proof {
            assert(mviews.skip(i as int)[0] == mviews[i as int]);
        }
        match link_field_member(&members[i], ctx, visiting) {
            Ok(mut part) => {
                let ghost old_out = out@;
                let ghost part_view = part@;
                out.append(&mut part);
                proof {
                    lemma_lkvs_view_concat(old_out, part_view);
                    assert(mviews.skip(i as int).drop_first() =~= mviews.skip(i + 1));
                    match slink_members(mviews.skip(i + 1), ctx@, vis) {
                        Ok(rest) => {
                            assert(lkvs_view(old_out) + (lkvs_view(part_view) + rest)
                                =~= lkvs_view(out@) + rest);
                        },
                        Err(e) => {},
                    }
                }
            },
            Err(e) => {
                return Err(e);
            },
        }
        i = i + 1;
    }
    proof {
        assert(mviews.skip(n as int) =~= Seq::<NodeView>::empty());
        assert(lkvs_view(out@) + Seq::<(Seq<char>, LinkedView)>::empty() =~= lkvs_view(out@));
    }
    Ok(out)
}

/// Resolve one member: a keyed member yields exactly one field; a keyless
/// member must name a transparent group, whose fields are spliced in place.
fn link_field_member(node: &Node, ctx: &NodeMap, visiting: &Vec<String>) -> (r: FlattenResult<
    Vec<LinkedKeyVal>,
>)
    requires
        ctx.wf(),
    ensures
        fields_res(r) == slink_member(node@, ctx@, vis_set(visiting@)),
    decreases ctx@.dom().difference(vis_set(visiting@)).len(), *node, 5int,
{
    proof {
        crate::table::lemma_entries_map_finite(ctx.entries@);
    }
    match node {
        Node::KeyVal(kv) => match link_node(&kv.1, ctx, visiting) {
            Ok(n) => {
                let ghost nview = n@;
                let mut out: Vec<LinkedKeyVal> = Vec::new();
                out.push(LinkedKeyVal(kv.0.clone(), n));
                proof {
                    lemma_lkvs_view(out@);
                    assert(lkvs_view(out@)[0] == out@[0]@);
                    assert(out@[0]@ == (kv.0@, nview));
                    assert(lkvs_view(out@) =~= seq![(kv.0@, nview)]);
                }
                Ok(out)
            },
            Err(e) => Err(e),
        },
        Node::Foreign(key) => {
            if visiting_contains(visiting, key.as_str()) {
                Err(ValidateError::Cycle(key.clone()))
            } else {
                match ctx.get(key.as_str()) {
                    Some(Node::Group(g)) => {
                        let mut v2 = clone_vec_string(visiting);
                        v2.push(key.clone());
                        proof {
                            lemma_vis_push(visiting@, *key);
                            lemma_visit_decreases(ctx@.dom(), vis_set(visiting@), key@);
                        }
                        link_fields(&g.members, ctx, &v2)
                    },
                    _ => Err(ValidateError::InvalidType),
                }
            }
        },
        _ => Err(ValidateError::InvalidGroupMissingKey),
    }
}

} // verus!
