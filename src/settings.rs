use vstd::prelude::*;

verus! {

/// Paths of the player's two textures.
pub struct Player {
    pub right: String,
    pub left: String,
}

/// Paths of the two fog textures.
pub struct Shadow {
    pub light: String,
    pub dark: String,
}

/// Paths of the textures and of the font.
pub struct Textures {
    pub ground: String,
    pub wall: String,
    pub player: Player,
    pub shadow: Shadow,
    pub title: String,
    pub regen_title: String,
    pub font: String,
    pub treasure: String,
}

/// Paths of the sound effects.
pub struct Sounds {
    pub found_treasure: String,
    pub next_stage: String,
    pub next_game: String,
}

/// Where the game finds its assets.
pub struct Settings {
    pub textures: Textures,
    pub sounds: Sounds,
}

} // verus!
