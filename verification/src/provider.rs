//! The top-level synchronization driver.
//!
//! One pass walks the snapshot, encodes the instance records, serializes
//! them, allocates a fresh device buffer, disposes the superseded one, and
//! publishes the new handle under [`UI_INSTANCES`].  A pass that finds no
//! record is a complete no-op: the previous buffer, if any, stays live and
//! stays published (a documented asymmetry, not an oversight).  Allocation
//! failure abandons the pass with every piece of previous state intact.

use vstd::prelude::*;
use crate::device::{BUFFER_USAGE_COPY_SRC, BUFFER_USAGE_VERTEX, Device};
use crate::encode::{RECT_DATA_BYTES, RectData, collect_rects, spec_rects, spec_record_count};
use crate::registry::RenderResources;
use crate::scene::Scene;
use crate::wire::{buffer_bytes, serialize_rects};

verus! {

/// The well-known name the current instance buffer is published under.
pub const UI_INSTANCES: &'static str = "ui_instances";

/// Why a synchronization pass failed.
#[derive(Clone, Copy, PartialEq, Eq, Structural, Debug)]
pub enum SyncError {
    /// The device could not satisfy the buffer allocation.  The previously
    /// tracked buffer and its publication are untouched.
    AllocationFailure,
}

/// Owner of the UI instance buffer: the reference quad mesh handle and the
/// at-most-one live buffer handle of the latest non-empty pass.
pub struct UiResourceProvider {
    /// Handle of the unit-quad mesh every instance is drawn with; seeded once
    /// at initialization and required by every pass.
    pub quad: Option<u64>,
    /// Handle of the currently tracked instance buffer, if any pass has
    /// produced one.
    pub instance_buffer: Option<u64>,
}

impl UiResourceProvider {
    /// A provider with no mesh handle and no tracked buffer.
    pub fn new() -> (p: UiResourceProvider)
        ensures
            p.quad is None,
            p.instance_buffer is None,
    {
        UiResourceProvider { quad: None, instance_buffer: None }
    }

    /// Seeds the reference quad mesh handle.  The asset registry that loads
    /// the quad geometry is an external collaborator; it hands its mesh
    /// handle in here.
    pub fn initialize(&mut self, quad_mesh: u64)
        ensures
            final(self).quad == Some(quad_mesh),
            final(self).instance_buffer == old(self).instance_buffer,
    {
        self.quad = Some(quad_mesh);
    }

    /// One synchronization pass over `scene`.
    ///
    /// `depths[t]` is the depth bit pattern the `t`-th emitted record takes;
    /// the caller supplies one entry per record (`count_records` says how
    /// many).  Returns `Ok(None)` for a pass with nothing to draw,
    /// `Ok(Some(handle))` with the freshly allocated and published buffer
    /// handle otherwise, and `Err(SyncError::AllocationFailure)` exactly when
    /// the device refused the allocation.
    pub fn update<D: Device>(
        &mut self,
        renderer: &mut D,
        resources: &mut RenderResources,
        scene: &Scene,
        depths: &Vec<u32>,
    ) -> (r: Result<Option<u64>, SyncError>)
        requires
            old(self).quad is Some,
            scene.wf(),
            depths@.len() == spec_record_count(scene@),
            old(self).instance_buffer matches Some(g) ==> old(renderer).live().contains(g),
        ensures
            final(self).quad == old(self).quad,
            spec_record_count(scene@) == 0 ==> {
                &&& r == Ok::<Option<u64>, SyncError>(None)
                &&& *final(self) == *old(self)
                &&& *final(renderer) == *old(renderer)
                &&& *final(resources) == *old(resources)
            },
            spec_record_count(scene@) > 0 ==> match r {
                Ok(opt) => {
                    &&& opt matches Some(handle)
                    &&& !old(renderer).live().contains(handle)
                    &&& final(self).instance_buffer == Some(handle)
                    &&& final(renderer).live().contains(handle)
                    &&& final(renderer).live() == match old(self).instance_buffer {
                        Some(g) => old(renderer).live().insert(handle).remove(g),
                        None => old(renderer).live().insert(handle),
                    }
                    &&& final(renderer).contents()[handle] == buffer_bytes(
                        spec_rects(scene@, depths@),
                    )
                    &&& final(renderer).alloc_count() == old(renderer).alloc_count() + 1
                    &&& final(renderer).dispose_count() == old(renderer).dispose_count() + (
                    if old(self).instance_buffer is Some {
                        1nat
                    } else {
                        0nat
                    })
                    &&& final(resources).bindings() == old(resources).bindings().insert(
                        UI_INSTANCES@,
                        handle,
                    )
                    &&& (old(self).instance_buffer matches Some(g) ==> handle != g
                        && !final(renderer).live().contains(g))
                },
                Err(e) => {
                    &&& e == SyncError::AllocationFailure
                    &&& *final(self) == *old(self)
                    &&& final(renderer).live() == old(renderer).live()
                    &&& final(renderer).contents() == old(renderer).contents()
                    &&& final(renderer).alloc_count() == old(renderer).alloc_count()
                    &&& final(renderer).dispose_count() == old(renderer).dispose_count()
                    &&& *final(resources) == *old(resources)
                },
            },
    {
        let rects = collect_rects(scene, depths);
        self.synchronize(renderer, resources, &rects)
    }

    /// The buffer lifecycle step of one pass.
    ///
    /// An empty record list is a complete no-op.  Otherwise the records are
    /// serialized to the wire layout and a fresh buffer is allocated; on
    /// success the superseded buffer, if any, is disposed exactly once and
    /// the new handle is tracked and published; on allocation failure
    /// nothing is touched.
    pub fn synchronize<D: Device>(
        &mut self,
        renderer: &mut D,
        resources: &mut RenderResources,
        rects: &Vec<RectData>,
    ) -> (r: Result<Option<u64>, SyncError>)
        requires
            old(self).quad is Some,
            old(self).instance_buffer matches Some(g) ==> old(renderer).live().contains(g),
        ensures
            final(self).quad == old(self).quad,
            rects@.len() == 0 ==> {
                &&& r == Ok::<Option<u64>, SyncError>(None)
                &&& *final(self) == *old(self)
                &&& *final(renderer) == *old(renderer)
                &&& *final(resources) == *old(resources)
            },
            rects@.len() > 0 ==> match r {
                Ok(opt) => {
                    &&& opt matches Some(handle)
                    &&& !old(renderer).live().contains(handle)
                    &&& final(self).instance_buffer == Some(handle)
                    &&& final(renderer).live().contains(handle)
                    &&& final(renderer).live() == match old(self).instance_buffer {
                        Some(g) => old(renderer).live().insert(handle).remove(g),
                        None => old(renderer).live().insert(handle),
                    }
                    &&& final(renderer).contents()[handle] == buffer_bytes(rects@)
                    &&& final(renderer).alloc_count() == old(renderer).alloc_count() + 1
                    &&& final(renderer).dispose_count() == old(renderer).dispose_count() + (
                    if old(self).instance_buffer is Some {
                        1nat
                    } else {
                        0nat
                    })
                    &&& final(resources).bindings() == old(resources).bindings().insert(
                        UI_INSTANCES@,
                        handle,
                    )
                    &&& (old(self).instance_buffer matches Some(g) ==> handle != g
                        && !final(renderer).live().contains(g))
                },
                Err(e) => {
                    &&& e == SyncError::AllocationFailure
                    &&& *final(self) == *old(self)
                    &&& final(renderer).live() == old(renderer).live()
                    &&& final(renderer).contents() == old(renderer).contents()
                    &&& final(renderer).alloc_count() == old(renderer).alloc_count()
                    &&& final(renderer).dispose_count() == old(renderer).dispose_count()
                    &&& *final(resources) == *old(resources)
                },
            },
    {
        if rects.len() == 0 {
            return Ok(None);
        }
        let bytes = serialize_rects(rects);
        let mesh = self.quad.unwrap();
        let allocated = renderer.create_instance_buffer(
            mesh,
            &bytes,
            RECT_DATA_BYTES,
            rects.len(),
            BUFFER_USAGE_COPY_SRC | BUFFER_USAGE_VERTEX,
        );
        match allocated {
            None => Err(SyncError::AllocationFailure),
            Some(handle) => {
                // Allocation precedes disposal: a failed pass must leave the
                // previous buffer intact, and the fresh handle is installed
                // in the same pass, so no window treats both as current.
                match self.instance_buffer {
                    Some(old_handle) => renderer.remove_buffer(old_handle),
                    None => {},
                }
                resources.set_named_resource(UI_INSTANCES.to_owned(), handle);
                self.instance_buffer = Some(handle);
                Ok(Some(handle))
            },
        }
    }
}

} // verus!
