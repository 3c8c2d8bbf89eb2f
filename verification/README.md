# canicasbrawl

The rules of CanicasBrawl — marbles racing down a level assembled from modules —
as a library verified with Verus, with a small command-line program around it.

## Layout

- `src/` — the verified library. Every public function carries a `requires`/`ensures`
  contract over mathematical models (`Seq`, `int`, views), and the properties that
  span several functions are stated as public proof functions named `law_*`.
  - `args` — which flags select which command, seed, cast and palette.
  - `roster` — the cast: characters with their face images, anonymous slots, the
    3×3 starting grid.
  - `level_generation` — when a new module is drawn, which one, how effect slots
    resolve, the replay keys of module objects.
  - `race` — who leads, who crosses the finish and in which order, swap partners.
  - `voice_tracker` — the leader track used for narration, with the start-of-race
    jitter cleaned away.
  - `baked_events` — the one-line-per-event track written by a bake and read by a
    replay.
  - `figma_to_modules`, `content`, `torus_assets` — the naming conventions of the
    level editor's layers, torus model names and the faces of torus meshes.
  - `faces` — the body colour of a marble, read off its face image.
  - `collision_groups`, `stall_detector`, `hud` — collision masks, stall detection,
    the leader badge.
  - `text`, `float_text` — the text primitives the parsers are built on.
- `tests/` — tests run against the compiled library.
- `app/` — the program: argument handling, the module-building pipeline (file
  I/O, JSON, and the floating-point geometry of the exported objects).

Positions, sizes and times that the game keeps as `f32` are held by the library as
integers (microseconds, millimetres, ordering keys) or, in the event track, as the
text that stands for the number.
