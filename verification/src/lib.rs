//! Procedural painting of a tile-based world grid.
//!
//! A generation run starts from a grid that is all `Land`. Layers are
//! painted onto it one after the other, each from a field of hits that tells
//! which tiles the layer's noise claims; a tile belongs to the first layer
//! that claims it. At the end the walkability blockage is repaired: the
//! walls inside a region of one terrain category come down and the outer
//! edge of the grid is walled in.
//!
//! * [`map`] holds the tiles and the grid.
//! * [`layer`] holds the layers, their seeds and the painting.
//! * [`walkability`] holds the repair of the blockage.
//! * [`generator`] ties them together in the order the caller chooses.
//! * [`map_as_image`] renders a grid as RGB bytes for inspection.
//!
//! Every function is verified against its contract, and the properties that
//! hold of every run (precedence of the first layer, the blocked outer ring,
//! open walls inside regions, standing walls between regions, idempotence of
//! the repair) are proved as lemmas next to the functions they speak of.

pub mod generator;
pub mod layer;
pub mod map;
pub mod map_as_image;
pub mod walkability;
