//! A small co-author roster library.
//!
//! An [`author::Author`] is an identity record (alias, display name, email)
//! with three text encodings: a pipe-delimited storage form that round-trips
//! through the parser, a `Name <email>` attribution form, and a bracketed
//! display form for interactive listings. The [`roster`] module holds the
//! pure logic of the listing and active-set operations: parsing every stored
//! value, rendering the listing text, and choosing which roster entries
//! replace the active set.

pub mod author;
pub mod roster;
pub mod text;
