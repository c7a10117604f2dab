use vstd::prelude::*;

use crate::layer_id::LayerId;
use crate::target::Target;

verus! {

/// High-level world events that a scene processes each tick. `K` is the
/// key type of the input system and `A` the action type that the scene runs
/// when an event fires; the event rules never look inside either.
#[derive(Clone, Debug)]
pub enum WorldEvent<K, A> {
    /// Fired once when a key transitions from up to down.
    KeyPress { key: K, action: A, target: Target },
    /// Fired once when a key transitions from down to up.
    KeyRelease { key: K, action: A, target: Target },
    /// Fired when an object the target designates on `layer` overlaps another object on `layer`.
    LayerCollision { action: A, target: Target, layer: LayerId },
    /// Fired when an object the target designates is on `layer`.
    LayerEnter { action: A, target: Target, layer: LayerId },
    /// Fired when an object the target designates is on a layer other than `layer`.
    LayerExit { action: A, target: Target, layer: LayerId },
    /// Fired when an object the target designates is inside the camera's view.
    CameraEnter { action: A, target: Target },
    /// Fired when an object the target designates is outside the camera's view.
    CameraExit { action: A, target: Target },
    /// Fired when an object the target designates touches the edge of the scene.
    BoundaryCollision { action: A, target: Target, layer: LayerId },
    /// Fired when objects of the two targets overlap on some layer.
    GlobalCollision { action: A, target: Target, with_target: Target },
}

impl<K, A> WorldEvent<K, A> {
    /// The target the event is about.
    pub open spec fn target_of(self) -> Target {
        match self {
            WorldEvent::KeyPress { target, .. } => target,
            WorldEvent::KeyRelease { target, .. } => target,
            WorldEvent::LayerCollision { target, .. } => target,
            WorldEvent::LayerEnter { target, .. } => target,
            WorldEvent::LayerExit { target, .. } => target,
            WorldEvent::CameraEnter { target, .. } => target,
            WorldEvent::CameraExit { target, .. } => target,
            WorldEvent::BoundaryCollision { target, .. } => target,
            WorldEvent::GlobalCollision { target, .. } => target,
        }
    }

    /// The action run when the event fires.
    pub open spec fn action_of(self) -> A {
        match self {
            WorldEvent::KeyPress { action, .. } => action,
            WorldEvent::KeyRelease { action, .. } => action,
            WorldEvent::LayerCollision { action, .. } => action,
            WorldEvent::LayerEnter { action, .. } => action,
            WorldEvent::LayerExit { action, .. } => action,
            WorldEvent::CameraEnter { action, .. } => action,
            WorldEvent::CameraExit { action, .. } => action,
            WorldEvent::BoundaryCollision { action, .. } => action,
            WorldEvent::GlobalCollision { action, .. } => action,
        }
    }

    /// The layer the event names, for the four variants that name one.
    pub open spec fn layer_of(self) -> Option<LayerId> {
        match self {
            WorldEvent::LayerCollision { layer, .. } => Some(layer),
            WorldEvent::LayerEnter { layer, .. } => Some(layer),
            WorldEvent::LayerExit { layer, .. } => Some(layer),
            WorldEvent::BoundaryCollision { layer, .. } => Some(layer),
            _ => None,
        }
    }

    /// The key of a key event.
    pub open spec fn key_of(self) -> Option<K> {
        match self {
            WorldEvent::KeyPress { key, .. } => Some(key),
            WorldEvent::KeyRelease { key, .. } => Some(key),
            _ => None,
        }
    }

    /// A key press or a key release.
    pub open spec fn is_key_event(self) -> bool {
        self is KeyPress || self is KeyRelease
    }

    /// Returns the target the event is about.
    pub fn get_target(&self) -> (t: &Target)
        ensures
            *t == self.target_of(),
    {
        match self {
            WorldEvent::KeyPress { target, .. } => target,
            WorldEvent::KeyRelease { target, .. } => target,
            WorldEvent::LayerCollision { target, .. } => target,
            WorldEvent::LayerEnter { target, .. } => target,
            WorldEvent::LayerExit { target, .. } => target,
            WorldEvent::CameraEnter { target, .. } => target,
            WorldEvent::CameraExit { target, .. } => target,
            WorldEvent::BoundaryCollision { target, .. } => target,
            WorldEvent::GlobalCollision { target, .. } => target,
        }
    }

    /// Returns the action run when the event fires.
    pub fn get_action(&self) -> (a: &A)
        ensures
            *a == self.action_of(),
    {
        match self {
            WorldEvent::KeyPress { action, .. } => action,
            WorldEvent::KeyRelease { action, .. } => action,
            WorldEvent::LayerCollision { action, .. } => action,
            WorldEvent::LayerEnter { action, .. } => action,
            WorldEvent::LayerExit { action, .. } => action,
            WorldEvent::CameraEnter { action, .. } => action,
            WorldEvent::CameraExit { action, .. } => action,
            WorldEvent::BoundaryCollision { action, .. } => action,
            WorldEvent::GlobalCollision { action, .. } => action,
        }
    }

    /// Returns the layer the event names, if its variant names one.
    pub fn get_layer(&self) -> (l: Option<LayerId>)
        ensures
            l == self.layer_of(),
    {
        match self {
            WorldEvent::LayerCollision { layer, .. } => Some(*layer),
            WorldEvent::LayerEnter { layer, .. } => Some(*layer),
            WorldEvent::LayerExit { layer, .. } => Some(*layer),
            WorldEvent::BoundaryCollision { layer, .. } => Some(*layer),
            _ => None,
        }
    }

    /// Returns the key associated with this event, if any.
    pub fn get_key(&self) -> (k: Option<&K>)
        ensures
            match k {
                Some(key) => self.key_of() == Some(*key),
                None => self.key_of() is None,
            },
    {
        match self {
            WorldEvent::KeyPress { key, .. } => Some(key),
            WorldEvent::KeyRelease { key, .. } => Some(key),
            _ => None,
        }
    }

    /// Whether this is a key press event.
    pub fn is_key_press(&self) -> (b: bool)
        ensures
            b == self is KeyPress,
    {
        matches!(self, WorldEvent::KeyPress { .. })
    }

    /// Whether this is a key release event.
    pub fn is_key_release(&self) -> (b: bool)
        ensures
            b == self is KeyRelease,
    {
        matches!(self, WorldEvent::KeyRelease { .. })
    }
}

} // verus!
