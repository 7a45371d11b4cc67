//! A terminal chat client's core: message framing on a byte stream, the
//! wrapping of a message history into screen lines, the layout of the screen,
//! and the decisions of a chat session.
pub mod frame;
pub mod message;
pub mod screen;
pub mod session;
pub mod text;
pub mod wrap;
