//! Client-side logic for a shared-canvas pixel protocol: colours, the wire
//! encoding of pixel commands, the batch collector that turns logical pixels
//! into frames, the content sources that produce frames, and the handshake and
//! pacing decisions of a session.

pub mod canvas;
pub mod codec;
pub mod color;
pub mod fill;
pub mod gif;
pub mod image;
pub mod letters;
pub mod pipeline;
pub mod pixelcollector;
pub mod raster;
pub mod snake;
pub mod sorting;
pub mod span;
pub mod window;
pub mod wire;
