//! An unrolled linked list: elements live in chunks of at most `N`
//! elements, and the chunks form a chain in which each chunk keeps a single
//! link field, the XOR of the handles of its two neighbours.

pub mod chain;
pub mod cursor;
mod cursor_mut;
mod into_iter;
mod iter;
mod iter_mut;
pub mod laws;
mod list;
mod node;

pub use cursor::Cursor;
pub use cursor_mut::CursorMut;
pub use into_iter::IntoIter;
pub use iter::Iter;
pub use iter_mut::IterMut;
pub use list::ArrayList;
pub use node::Node;
