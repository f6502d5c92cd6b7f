//! Interpretation of each diagram family into the shared card/timing layouts.

pub mod cards;
pub mod d2;
pub mod dbml;
pub mod likec4;
pub mod nomnoml;
pub mod pikchr;
pub mod structurizr;
pub mod wavedrom;
