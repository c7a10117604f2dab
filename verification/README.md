# flowmango

The rules of a 2.5D scene engine, verified with Verus.

A scene draws its world objects on depth layers and reacts to world events
(key presses and releases, collisions on a layer or across layers, objects
entering or leaving a layer or the camera's view, objects touching the edge
of the scene). This crate holds the parts of that engine that decide things:

- `src/layer_id.rs`: layer identifiers.
- `src/target.rs`: targets (by id, by name, by tag), the per-object facts the
  rules read (`ObjectInfo`), and which objects a target designates.
- `src/collision.rs`: which pairs of objects are tested for overlap, on one
  layer; the overlap test itself is handed in.
- `src/world_event.rs`: the world events and their accessors.
- `src/events.rs`: the event queue: key bindings fire on key transitions,
  other events wait until their condition holds.
- `src/naming.rs`: the names under which layer canvases keep objects.
- `src/laws.rs`: properties of the rules, proved.

`app/` is the engine around it: canvases, cameras, shadows and the
floating-point geometry, which call into the library.
