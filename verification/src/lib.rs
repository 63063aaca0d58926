//! Compile a schema written in a compact data-definition notation into
//! source-code artifacts: type declarations plus serialization metadata.
//!
//! The pipeline has three stages:
//! - flattening (`ivt`): each raw rule of the schema tree becomes a shallow
//!   IR `Node`, with cross-rule references left symbolic;
//! - linking (`validate`): every symbolic reference is resolved against the
//!   full rule table, and anonymous groups are spliced into their containers;
//! - rendering (`gen`): the linked tree is mapped onto per-target-language
//!   declarations with binary-format field attributes.
//!
//! A small companion module (`codec`) holds the primitive binary encode and
//! decode operations that the generated code's runtime convention refers to.

pub mod ast;
pub mod codec;
pub mod gen;
pub mod ivt;
pub mod strutil;
pub mod table;
pub mod util;
pub mod validate;

pub use crate::gen::{Language, Options, RenderError, RenderResult};
pub use crate::ivt::{Array, ConstrainedType, Group, KeyVal, Literal, Node};
pub use crate::validate::{Fields, LinkedArray, LinkedKeyVal, LinkedNode};

use vstd::prelude::*;

verus! {

broadcast use {vstd::std_specs::vec::group_vec_axioms, vstd::seq::group_seq_axioms};

use crate::ivt::{sflatten_rules, NodeMap, NodeView};
use crate::table::{lemma_entries_map, lemma_entries_map_finite, lemma_sorted_distinct};
use crate::util::{ErrView, ValidateError};
use crate::validate::{slink_node, vis_set, LinkedNodeMap, LinkedView};

/// Both flattening and linking report failures as `ValidateError`.
pub type FlattenResult<T> = Result<T, ValidateError>;

/// A failure of the generation front end.
#[derive(Debug, PartialEq)]
pub enum Error {
    /// The schema input could not be opened; the payload names it.
    CouldNotOpenCddl(String),
    /// A rendering failure.
    Render(crate::gen::RenderError),
}

impl From<crate::gen::RenderError> for Error {
    /// A rendering failure surfaces as a front-end failure.
    fn from(value: crate::gen::RenderError) -> (r: Error) {
        Error::Render(value)
    }
}

impl vstd::std_specs::convert::FromSpecImpl<crate::gen::RenderError> for Error {
    open spec fn obeys_from_spec() -> bool {
        true
    }

    open spec fn from_spec(value: crate::gen::RenderError) -> Error {
        Error::Render(value)
    }
}

/// The text of each front-end failure's description.
pub open spec fn serror_message(e: Error) -> Seq<char> {
    match e {
        Error::CouldNotOpenCddl(path) => "Could not open CDDL "@ + path@,
        Error::Render(r) => crate::gen::srender_message(r),
    }
}

impl Error {
    /// A human-readable description of the failure.
    pub fn message(&self) -> (r: String)
        ensures
            r@ == serror_message(*self),
    {
        match self {
            Error::CouldNotOpenCddl(path) => {
                let mut out = crate::strutil::str_to_owned("Could not open CDDL ");
                out.append(path.as_str());
                out
            },
            Error::Render(e) => e.message(),
        }
    }
}

/// Flatten an already parsed schema into the rule table: each rule's raw
/// expression is reduced to a shallow IR node, with cross-rule references
/// deferred to linking. Later rules of the same name replace earlier ones,
/// and the first failing rule fails the whole run.
pub fn flatten(cddl: &ast::Cddl) -> (r: FlattenResult<NodeMap>)
    ensures
        match r {
            Ok(nm) => nm.wf() && sflatten_rules(cddl.rules@) == Ok::<_, ErrView>(nm@),
            Err(e) => sflatten_rules(cddl.rules@) == Err::<Map<Seq<char>, NodeView>, _>(e@),
        },
{
    let mut nm = NodeMap::new();
    let n = cddl.rules.len();
    let mut i: usize = 0;
    proof {
        assert(cddl.rules@.skip(0) =~= cddl.rules@);
        match sflatten_rules(cddl.rules@) {
            Ok(m) => {
                assert(nm@.union_prefer_right(m) =~= m);
            },
            Err(e) => {},
        }
    }
    while i < n
        invariant
            n == cddl.rules@.len(),
            0 <= i <= n,
            nm.wf(),
            match sflatten_rules(cddl.rules@.skip(i as int)) {
                Ok(m) => sflatten_rules(cddl.rules@) == Ok::<_, ErrView>(
                    nm@.union_prefer_right(m),
                ),
                Err(e) => sflatten_rules(cddl.rules@) == Err::<Map<Seq<char>, NodeView>, _>(e),
            },
        decreases n - i,
    {
        proof {
            assert(cddl.rules@.skip(i as int)[0] == cddl.rules@[i as int]);
        }
        match ivt::flatten_rule(&cddl.rules[i]) {
            Ok(p) => {
                let ghost old_map = nm@;
                let ghost k = p.0@;
                let ghost v = p.1@;
                nm.insert(p.0, p.1);
                proof {
                    assert(cddl.rules@.skip(i as int).drop_first() =~= cddl.rules@.skip(i + 1));
                    match sflatten_rules(cddl.rules@.skip(i + 1)) {
                        Ok(m2) => {
                            let combined = if m2.dom().contains(k) {
                                m2
                            } else {
                                m2.insert(k, v)
                            };
                            assert(old_map.union_prefer_right(combined)
                                =~= old_map.insert(k, v).union_prefer_right(m2));
                        },
                        Err(e) => {},
                    }
                }
            },
            Err(e) => {
                return Err(e);
            },
        }
        i = i + 1;
    }
    proof {
        assert(cddl.rules@.skip(n as int) =~= Seq::<ast::Rule>::empty());
        assert(nm@.union_prefer_right(Map::<Seq<char>, NodeView>::empty()) =~= nm@);
    }
    Ok(nm)
}

/// Resolve every symbolic reference of the rule table against the table
/// itself, keeping every rule name: linking neither adds nor drops rules.
/// The first unresolvable rule, in sorted name order, fails the whole run
/// with its error.
pub fn link(nodes: &NodeMap) -> (r: FlattenResult<LinkedNodeMap>)
    requires
        nodes.wf(),
    ensures
        match r {
            Ok(lm) => {
                &&& lm.wf()
                &&& lm@.dom() == nodes@.dom()
                &&& forall|k: Seq<char>| #[trigger] nodes@.dom().contains(k) ==> slink_node(
                    nodes@[k],
                    nodes@,
                    Set::empty(),
                ) == Ok::<_, ErrView>(lm@[k])
            },
            Err(e) => exists|i: int|
                0 <= i < nodes.entries@.len() && slink_node(
                    nodes.entries@[i].1@,
                    nodes@,
                    Set::empty(),
                ) == Err::<LinkedView, _>(e@) && forall|j: int|
                    0 <= j < i ==> (#[trigger] slink_node(
                        nodes.entries@[j].1@,
                        nodes@,
                        Set::empty(),
                    )) is Ok,
        },
{
    proof {
        lemma_entries_map_finite(nodes.entries@);
        lemma_sorted_distinct(nodes.entries@);
        lemma_entries_map(nodes.entries@);
    }
    let visiting: Vec<String> = Vec::new();
    proof {
        assert(vis_set(visiting@) =~= Set::<Seq<char>>::empty());
    }
    let mut lm = LinkedNodeMap::new();
    let n = nodes.len();
    let mut i: usize = 0;
    while i < n
        invariant
            nodes.wf(),
            n == nodes.entries@.len(),
            0 <= i <= n,
            visiting@.len() == 0,
            vis_set(visiting@) == Set::<Seq<char>>::empty(),
            lm.wf(),
            forall|k: Seq<char>| #[trigger] lm@.dom().contains(k) <==> exists|j: int|
                0 <= j < i && (#[trigger] nodes.entries@[j].0@) == k,
            forall|j: int|
                0 <= j < i ==> ((#[trigger] slink_node(
                    nodes.entries@[j].1@,
                    nodes@,
                    Set::empty(),
                )) matches Ok(v) && lm@[nodes.entries@[j].0@] == v),
        decreases n - i,
    {
        let (name, node) = nodes.entry_at(i);
        let name = name.clone();
        match crate::validate::link_node(node, nodes, &visiting) {
            Ok(ln) => {
                let ghost old_lm = lm@;
                lm.insert(name, ln);
                proof {
                    assert forall|k: Seq<char>| #[trigger] lm@.dom().contains(k) implies exists|
                        j: int,
                    | 0 <= j < i + 1 && (#[trigger] nodes.entries@[j].0@) == k by {
                        if k != nodes.entries@[i as int].0@ {
                            let j = choose|j: int|
                                0 <= j < i && (#[trigger] nodes.entries@[j].0@) == k;
                            assert(nodes.entries@[j].0@ == k);
                        } else {
                            assert(nodes.entries@[i as int].0@ == k);
                        }
                    }
                    lemma_sorted_distinct(nodes.entries@);
                    assert forall|j: int| 0 <= j < i + 1 implies ((#[trigger] slink_node(
                        nodes.entries@[j].1@,
                        nodes@,
                        Set::empty(),
                    )) matches Ok(v) && lm@[nodes.entries@[j].0@] == v) by {
                        if j < i {
                            assert(nodes.entries@[j].0@ != nodes.entries@[i as int].0@);
                        }
                    }
                }
            },
            Err(e) => {
                proof {
                    assert(slink_node(nodes.entries@[i as int].1@, nodes@, Set::empty())
                        == Err::<LinkedView, ErrView>(e@));
                }
                return Err(e);
            },
        }
        i = i + 1;
    }
    proof {
        assert forall|k: Seq<char>| #[trigger] nodes@.dom().contains(k) implies lm@.dom().contains(
            k,
        ) by {
            let j = choose|j: int|
                0 <= j < nodes.entries@.len() && (#[trigger] nodes.entries@[j].0@) == k;
            assert(nodes.entries@[j].0@ == k);
        }
        assert forall|k: Seq<char>| #[trigger] lm@.dom().contains(k) implies nodes@.dom().contains(
            k,
        ) by {
            let j = choose|j: int| 0 <= j < n && (#[trigger] nodes.entries@[j].0@) == k;
            assert(nodes@.dom().contains(nodes.entries@[j].0@));
        }
        assert(lm@.dom() =~= nodes@.dom());
        assert forall|k: Seq<char>| #[trigger] nodes@.dom().contains(k) implies slink_node(
            nodes@[k],
            nodes@,
            Set::empty(),
        ) == Ok::<_, ErrView>(lm@[k]) by {
            let j = choose|j: int|
                0 <= j < nodes.entries@.len() && (#[trigger] nodes.entries@[j].0@) == k;
            assert(nodes@[k] == nodes.entries@[j].1@);
        }
    }
    Ok(lm)
}

} // verus!
