//! The element and extension types that ride on the two core mechanisms: a
//! data-list element whose option list is a live collection, and a WebGL
//! extension whose availability is gated by the capability registry.

use vstd::prelude::*;

use crate::collection::{Filter, HTMLCollection};
use crate::registry::{
    contains_name, registered, spec_enable_set, spec_supported, FeatureDescriptor, RegistryError,
    WebGLExtensions,
};
use crate::tree::{ElementKind, Tree};

verus! {

/// A data-list element: one node of the document tree. Its option list is a
/// live collection over its descendants, filtered to option-like elements.
pub struct HTMLDataListElement {
    pub node: usize,
}

impl HTMLDataListElement {
    /// Creates the underlying element as a fresh, detached data-list node of
    /// the tree and binds the wrapper to it.
    pub fn new_inherited(t: &mut Tree) -> (e: HTMLDataListElement)
        requires
            old(t).wf(),
            old(t).generation < u64::MAX,
        ensures
            final(t).wf(),
            e.node == old(t).nodes@.len(),
            final(t).nodes@.len() == old(t).nodes@.len() + 1,
            final(t).nodes@[e.node as int].kind == ElementKind::DataList,
            final(t).nodes@[e.node as int].children@ == Seq::<usize>::empty(),
            forall|j: int| 0 <= j < old(t).nodes@.len()
                ==> final(t).nodes@[j] == old(t).nodes@[j],
            final(t).generation == old(t).generation + 1,
    {
        let node = t.new_node(ElementKind::DataList);
        HTMLDataListElement { node }
    }

    /// The element's option list: a live collection bound to this element as
    /// root, filtered to option-like descendants. The collection starts
    /// stale; its first read traverses.
    pub fn options(&self, t: &Tree) -> (c: HTMLCollection)
        requires
            self.node < t.nodes@.len(),
        ensures
            c.root == self.node,
            c.filter == Filter::IsOptionLike,
            !c.cache_valid,
            c.wf(*t),
    {
        HTMLCollection::create(t, self.node, Filter::IsOptionLike)
    }
}

/// The name the half-float color-buffer extension is registered under.
pub open spec fn ext_color_buffer_half_float_name() -> Seq<char> {
    "EXT_color_buffer_half_float"@
}

/// The name of the texture extension whose support this one depends on.
pub open spec fn oes_texture_half_float_name() -> Seq<char> {
    "OES_texture_half_float"@
}

/// An optional rendering-context capability: color buffers with half-float
/// precision. It is tied to contexts of version one or above and is supported
/// only where the half-float texture capability is supported in turn.
pub struct EXTColorBufferHalfFloat {
}

impl EXTColorBufferHalfFloat {
    /// The bare extension object; it carries no state of its own.
    pub fn new_inherited() -> (e: EXTColorBufferHalfFloat)
        ensures
            e == (EXTColorBufferHalfFloat {  }),
    {
        EXTColorBufferHalfFloat {  }
    }

    /// The extension's registered name.
    pub fn name() -> (s: &'static str)
        ensures
            s@ == ext_color_buffer_half_float_name(),
    {
        "EXT_color_buffer_half_float"
    }

    /// The minimum context version the extension requires.
    pub fn min_version() -> (v: u64)
        ensures
            v == 1u64,
    {
        1
    }

    /// The extension's feature descriptor: its name, its version gate, and
    /// its dependency on the half-float texture capability.
    pub fn descriptor() -> (d: FeatureDescriptor)
        ensures
            d.name@ == ext_color_buffer_half_float_name(),
            d.min_version == 1u64,
            match d.dependency {
                Option::Some(dep) => dep@ == oes_texture_half_float_name(),
                Option::None => false,
            },
    {
        FeatureDescriptor {
            name: "EXT_color_buffer_half_float".to_owned(),
            min_version: 1,
            dependency: Some("OES_texture_half_float".to_owned()),
        }
    }

    /// The extension's own support check delegates to the capability it
    /// depends on: it is supported exactly where the half-float texture
    /// capability is.
    pub fn is_supported(ext: &WebGLExtensions) -> (r: Result<bool, RegistryError>)
        requires
            ext.wf(),
        ensures
            match r {
                Result::Ok(b) => registered(ext.features@, oes_texture_half_float_name()) && b
                    == spec_supported(ext.features@, ext.version, oes_texture_half_float_name()),
                Result::Err(e) => e == RegistryError::NotFound && !registered(
                    ext.features@,
                    oes_texture_half_float_name(),
                ),
            },
    {
        ext.is_supported("OES_texture_half_float")
    }

    /// Enables the extension through the registry, which runs the activation
    /// at most once and rejects the call where the extension is unsupported.
    pub fn enable(ext: &mut WebGLExtensions) -> (r: Result<(), RegistryError>)
        requires
            old(ext).wf(),
        ensures
            final(ext).wf(),
            final(ext).features == old(ext).features,
            final(ext).version == old(ext).version,
            match r {
                Result::Ok(_) => registered(
                    old(ext).features@,
                    ext_color_buffer_half_float_name(),
                ) && spec_supported(
                    old(ext).features@,
                    old(ext).version,
                    ext_color_buffer_half_float_name(),
                ) && final(ext).enabled.deep_view() == spec_enable_set(
                    old(ext).enabled.deep_view(),
                    ext_color_buffer_half_float_name(),
                ),
                Result::Err(e) => final(ext).enabled == old(ext).enabled && ((e
                    == RegistryError::NotFound && !registered(
                    old(ext).features@,
                    ext_color_buffer_half_float_name(),
                )) || (e == RegistryError::Unsupported && registered(
                    old(ext).features@,
                    ext_color_buffer_half_float_name(),
                ) && !spec_supported(
                    old(ext).features@,
                    old(ext).version,
                    ext_color_buffer_half_float_name(),
                ))),
            },
    {
        ext.enable("EXT_color_buffer_half_float")
    }

    /// Whether the extension has been enabled on this context.
    pub fn is_enabled(ext: &WebGLExtensions) -> (r: bool)
        ensures
            r == contains_name(ext.enabled.deep_view(), ext_color_buffer_half_float_name()),
    {
        ext.is_enabled("EXT_color_buffer_half_float")
    }
}

} // verus!
