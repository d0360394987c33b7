//! The unit scheduler's contract with the renderer: a unit is called once
//! per tick to push its primitives and lights into the frame's scene,
//! through the scene-building API and nothing else.

use vstd::prelude::*;

verus! {

use crate::render::Render;
use crate::render::Scene;

/// One animated participant of the scene: asked once per tick, before the
/// frame's scene is rendered, to contribute to it.
pub trait Unit {
    fn response(&mut self, render: &mut Render, scene: &mut Scene);
}

/// A unit that contributes nothing.
pub struct DummyUnit {}

impl Unit for DummyUnit {
    fn response(&mut self, render: &mut Render, scene: &mut Scene) {
    }
}

} // verus!
