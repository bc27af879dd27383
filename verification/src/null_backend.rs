//! A dummy backend that accepts every command and does nothing.

use vstd::prelude::*;

use crate::types::{ImageData, ImageResource, RenderContext, ResourceId};

verus! {

/// A render context that registers nothing.
#[derive(Copy, Clone, Default)]
pub struct NullRenderContext {}

impl NullRenderContext {
    pub fn new() -> (c: NullRenderContext)
        ensures
            c.ctx_wf(),
    {
        NullRenderContext {  }
    }
}

impl RenderContext for NullRenderContext {
    /// Nothing is kept, so nothing can be malformed.
    open spec fn ctx_wf(&self) -> bool {
        true
    }

    /// Hands out a constant handle carrying the image's dimensions.
    fn register_image(&mut self, image: ImageData) -> (r: ImageResource) {
        ImageResource { id: ResourceId(0), width: image.width, height: image.height }
    }

    fn unregister_resource(&mut self, id: ResourceId) {
    }
}

/// A window renderer that ignores every command.
#[derive(Copy, Clone, Default)]
pub struct NullWindowRenderer {
    is_active: bool,
}

impl NullWindowRenderer {
    pub fn new() -> (r: NullWindowRenderer)
        ensures
            !r.spec_is_active(),
    {
        NullWindowRenderer { is_active: false }
    }

    /// Whether `resume` was called more recently than `suspend`.
    pub closed spec fn spec_is_active(&self) -> bool {
        self.is_active
    }

    /// Mark the renderer active.
    pub fn resume(&mut self)
        ensures
            final(self).spec_is_active(),
    {
        self.is_active = true;
    }

    /// Mark the renderer inactive.
    pub fn suspend(&mut self)
        ensures
            !final(self).spec_is_active(),
    {
        self.is_active = false;
    }

    pub fn is_active(&self) -> (r: bool)
        ensures
            r == self.spec_is_active(),
    {
        self.is_active
    }

    /// Size changes are ignored.
    pub fn set_size(&mut self, width: u32, height: u32)
        ensures
            *final(self) == *old(self),
    {
    }
}

/// An image renderer that ignores every command.
#[derive(Copy, Clone, Default)]
pub struct NullImageRenderer;

impl NullImageRenderer {
    pub fn new() -> (r: NullImageRenderer) {
        NullImageRenderer
    }
}

/// A scene painter that ignores every command.
#[derive(Copy, Clone, Default)]
pub struct NullScenePainter;

impl NullScenePainter {
    pub fn new() -> (r: NullScenePainter) {
        NullScenePainter
    }
}

} // verus!
