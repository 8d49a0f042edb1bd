# physics_rendering_engine

The game rules of a voxel-building action RPG, written in Verus and proved
against their contracts: the building grid with its 4x4x4 sub-block masks,
block shapes and their rotations and mirrors, support and placement, mining,
greedy meshing of cube faces, inventory, equipment, leveling, quests, the
entity world, the music and footstep player's decisions, and the input state
machines of the game and its editor.

- `src/` — the verified library. Each public function states what it returns
  or changes; the laws of the library (rotations compose, a removal undoes a
  placement, items are conserved by stacking and pickup, quest rewards are
  given once, greedy quads partition the faces, ...) are public proof
  functions next to the code they speak of.
- `tests/` — tests run against the compiled library.
- `app/` — the program around the library: the window and its input events
  (winit), settings and save files, physics shapes and handles (rapier3d),
  vertex generation, and what is floating point: stats and item numbers,
  cameras, the melee and spell timers, slime hops and A* over the terrain's
  heights.
