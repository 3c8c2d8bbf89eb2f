//! The rules of CanicasBrawl, a race of marbles falling through a level built from
//! modules: the command line, the cast, how the level grows, who leads and who
//! finishes, the effects the sensors apply, the replay events, the naming conventions
//! of the level editor, and the commentary track — each with its contract.

pub mod args;
pub mod baked_events;
pub mod collision_groups;
pub mod content;
pub mod faces;
pub mod figma_to_modules;
pub mod float_text;
pub mod hud;
pub mod level_generation;
pub mod race;
pub mod roster;
pub mod stall_detector;
pub mod text;
pub mod torus_assets;
pub mod voice_tracker;
