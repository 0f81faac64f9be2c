use vstd::prelude::*;

verus! {

/// Whether the engine runs the game or its editor.
#[derive(Clone, Copy, Debug, PartialEq, Eq, Structural)]
pub enum GameState {
    Playing,
    Editor,
}

/// Kind of a light source.
#[derive(Clone, Copy, Debug, PartialEq, Eq, Structural)]
pub enum LightType {
    Point,
    Directional,
    Spot,
}

} // verus!
