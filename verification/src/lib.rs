//! Goal views for editors that cannot host the Lean infoview: the framing, the
//! message routing and the rendering of a proxy that sits between an editor
//! and `lake serve`, a debug adapter that shows the same goals, and the small
//! decisions of the window around them.

pub mod text;
pub mod json;
pub mod frame;
pub mod table;
pub mod ids;
pub mod state;
pub mod render;
pub mod snapshot;
pub mod bridge;
pub mod session;
pub mod publish;
pub mod debug;
pub mod adapter;
pub mod http;
pub mod paths;
pub mod window;
pub mod extension;
pub mod laws;
