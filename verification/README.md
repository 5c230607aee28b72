# world_sync

State handling for rollback sessions of a Bevy game, verified with Verus:

- **World snapshots** (`world`, `registry`, `capture`, `restore`, `snapshot`,
  `sections`, `wire`, `entity`): capture all rollback entities, their components
  and the registered resources, carry them as bytes, and restore them on another
  peer or into a new session.
- **Session migration** (`migration`): pause, snapshot, restore, resume.
- **Component snapshots** (`strategy`, `component_history`,
  `component_snapshot`): save the components of one type frame by frame, and go
  back to a saved frame.
- **Mid-session player sync** (`sync`): the steps by which a host brings a new
  player into a running session.

Modules whose names end in `_laws` state what holds across functions: that
restoring undoes capturing, for every codec that gives back what the captured
world holds, each value as a value of its own type; that a snapshot survives its
bytes and that cut-off bytes are rejected; that every way of saving reflects the
same components; that a new player ends up with exactly the world that the host
sent.

`app/` connects the library to the ECS. It reads plain values out of the world,
calls the library, and writes back what it decided. Values are encoded by
bincode there; the library frames the bytes and takes the codec as a function.

The only outside calls in the library are those that turn bits into entities
(`entity`); what they are trusted to do is written above each of them.
