use std::collections::HashMap;
use vstd::prelude::*;

verus! {

/// One block of the palette: the properties it can have, each with its
/// possible values, and its states.
pub struct PaletteEntry {
    pub properties: Option<HashMap<String, Vec<String>>>,
    pub states: Vec<PaletteState>,
}

/// One state of a block: the values of its properties, the identifier that
/// stands for it on the wire, and whether it is the block's default state.
pub struct PaletteState {
    pub properties: Option<HashMap<String, String>>,
    pub id: u32,
    pub default: bool,
}

} // verus!
