//! Game logic of a small pastoral tile game: the player's inventory and the
//! item catalog, level definitions loaded from JSON, the tile grid of a scene,
//! the registry of loaded levels, hero animation frames, potion throwing and
//! the inventory HUD layout.

pub mod text;
pub mod inventory;
pub mod pastoral;
pub mod effects;
pub mod scene;
pub mod level_registry;
pub mod hero;
pub mod player;
pub mod potions;
pub mod hud;
pub mod main_scene;
