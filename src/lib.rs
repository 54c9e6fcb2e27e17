//! Hiding a picture in the free modules of a QR symbol while keeping its
//! payload readable.

/// The symbol as a grid of modules, with its functional cells.
pub mod qr;
/// Tri-state figures, their placements and the cost of a placement.
pub mod template;
/// The encoder and decoder that the rest relies on.
pub mod codec;
/// Mapping padding bits to the cells they control, and painting through them.
pub mod mapper;
/// Mutation, acceptance and parent choice for the evolutionary search.
pub mod evolve;
/// Drawing a grid for a terminal.
pub mod render;
