//! The scene boundary: game-specific logic driven by the frame loop.
//!
//! A scene spawns its entities on `init`, reacts to input every frame in
//! `tick`, and handles the frame's overlap map in `on_overlaps`. The frame
//! loop calls the three hooks in that order; each must leave the World
//! well-formed so the next frame can go on. [`EmptyScene`] is the inert
//! scene that does nothing.
use vstd::prelude::*;

verus! {

use std::collections::HashMap;
use crate::input::Input;
use crate::world::{ActorId, World};

/// Game-specific logic run by the frame loop; `delta_time` is in fixed-point
/// milliseconds.
pub trait Scene<I: Input> {
    /// Spawns the scene's initial entities.
    fn init(&mut self, world: &mut World)
        requires
            old(world).wf(),
        ensures
            final(world).wf(),
    ;

    /// Per-frame logic, before collision detection.
    fn tick(&mut self, input: &I, world: &mut World, delta_time: i64)
        requires
            old(world).wf(),
        ensures
            final(world).wf(),
    ;

    /// Reacts to the overlap map computed this frame.
    fn on_overlaps(
        &mut self,
        overlaps: &HashMap<ActorId, Vec<ActorId>>,
        world: &mut World,
        delta_time: i64,
    )
        requires
            old(world).wf(),
        ensures
            final(world).wf(),
    ;
}

/// A scene with no entities and no logic.
pub struct EmptyScene;

impl EmptyScene {
    /// An inert scene.
    pub fn new() -> (r: EmptyScene) {
        EmptyScene {  }
    }
}

impl<I: Input> Scene<I> for EmptyScene {
    fn init(&mut self, _world: &mut World) {
    }

    fn tick(&mut self, _input: &I, _world: &mut World, _delta_time: i64) {
    }

    fn on_overlaps(
        &mut self,
        _overlaps: &HashMap<ActorId, Vec<ActorId>>,
        _world: &mut World,
        _delta_time: i64,
    ) {
    }
}

} // verus!
