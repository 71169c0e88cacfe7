//! Framing of GPS tracks on a web-map tile pyramid.
//!
//! Positions are held in fixed point on the spherical Mercator square: each
//! axis of the square is divided into 2^32 world units, `x` growing eastward
//! from the antimeridian and `y` growing southward from the northern edge.
//! On that square the library computes the bounding rectangle of a set of
//! tracks, chooses the finest zoom level whose tile grid fits a canvas, and
//! places every track sample in a scene whose horizontal extent is the tile
//! grid and whose vertical extent is the normalised elevation.
//!
//! Scene lengths are integers counted in scene steps, of which 2^33 make up
//! the side of one tile. Horizontal positions are exact in that unit;
//! heights are rounded down to it, which still keeps samples of different
//! elevation at different heights.

pub mod error;
pub mod frame;
pub mod bounds;
pub mod decimal;
pub mod mercator;
pub mod requests;
pub mod scene;
pub mod tiles;
pub mod track;
