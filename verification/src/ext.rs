//! Declarations of outside types that appear in the signatures of the
//! library's trusted wrappers. All of them are opaque to the verifier: the
//! library only carries their values through, it never inspects them.

use vstd::prelude::*;

verus! {

/// `rbx_types::Variant` is one scene property value. The library keeps every
/// property of a node so the node can be re-encoded faithfully, but its logic
/// never reads a `Variant`; content references are projected out to plain
/// strings at decode time instead.
#[verifier::external_type_specification]
#[verifier::external_body]
pub struct ExVariant(rbx_types::Variant);

/// `rbx_dom_weak::WeakDom` is the codec's own graph representation, used only
/// inside the trusted decode and encode wrappers.
#[verifier::external_type_specification]
#[verifier::external_body]
pub struct ExWeakDom(rbx_dom_weak::WeakDom);

/// `rbx_dom_weak::Instance` is one node of a `WeakDom`.
#[verifier::external_type_specification]
#[verifier::external_body]
pub struct ExInstance(rbx_dom_weak::Instance);

/// `rbx_dom_weak::InstanceBuilder` describes a node to be inserted into a
/// `WeakDom` while re-encoding.
#[verifier::external_type_specification]
#[verifier::external_body]
pub struct ExInstanceBuilder(rbx_dom_weak::InstanceBuilder);

} // verus!
