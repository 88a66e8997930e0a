//! Game rules of a turn-based Imperialism-style strategy game: the hex map,
//! civilian units and their orders, diplomacy between nations, the AI's
//! planning helpers, and the BMP sprite conversion, each with a contract.

pub mod ai;
pub mod assets;
pub mod bmp_loader;
pub mod map;
pub mod resources;
pub mod civilians;
pub mod constants;
pub mod diplomacy;
pub mod economy;
