//! Names for the ways a physics component is blended between two snapshots.
//!
//! The blending itself is floating-point arithmetic and is supplied by the
//! application; this module fixes which components take part and how each is
//! kept in step between the two ends of a connection.

use vstd::prelude::*;

verus! {

/// How a component is kept in step with the remote copy.
#[derive(Clone, Copy, Debug, PartialEq, Eq, Structural)]
pub enum ComponentSyncMode {
    /// Every update is taken over.
    Full,
    /// Only the first value is taken over.
    Once,
}

/// The physics components that travel over a connection.
#[derive(Clone, Copy, Debug, PartialEq, Eq, Structural)]
pub enum PhysicsComponent {
    Position,
    Rotation,
    LinearVelocity,
    AngularVelocity,
    Mass,
}

impl PhysicsComponent {
    /// Whether the component changes while the body lives.
    pub open spec fn varies(self) -> bool {
        self != PhysicsComponent::Mass
    }

    /// How the component is kept in step: what varies is taken over with
    /// every update, the mass only once.
    pub fn mode(self) -> (mode: ComponentSyncMode)
        ensures
            mode == if self.varies() {
                ComponentSyncMode::Full
            } else {
                ComponentSyncMode::Once
            },
    {
        match self {
            PhysicsComponent::Mass => ComponentSyncMode::Once,
            _ => ComponentSyncMode::Full,
        }
    }
}

/// Blends two positions linearly.
#[derive(Clone, Copy, Debug, Default)]
pub struct PositionLinearInterpolation;

/// Blends two rotations linearly, by their angles in degrees.
#[derive(Clone, Copy, Debug, Default)]
pub struct RotationLinearInterpolation;

/// Blends two linear velocities linearly.
#[derive(Clone, Copy, Debug, Default)]
pub struct LinearVelocityLinearInterpolation;

/// Blends two angular velocities linearly.
#[derive(Clone, Copy, Debug, Default)]
pub struct AngularVelocityAngularInterpolation;

} // verus!
