//! A bump arena and containers of fixed capacity whose room is reserved in
//! it.
//!
//! An [`Arena`] is a budget of bytes. A block is reserved at the alignment of
//! its type behind everything reserved before, or refused where it does not
//! fit; nothing is given back but by [`Arena::reset`], which gives back
//! everything. Each container records where its block starts and holds its
//! values itself, so no container reads memory that another one wrote.

pub mod align;
pub mod arena;
pub mod array;
pub mod boxed;
pub mod list;
pub mod order;
pub mod string;
pub mod table;

pub use arena::Arena;
pub use array::Array as ArenaArray;
pub use boxed::Box as ArenaBox;
pub use list::List as ArenaList;
pub use string::{ArenaString, CapacityExceeded};
pub use table::{ArenaTable, Key};
