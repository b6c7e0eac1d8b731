//! A small record store for book entries.
//!
//! Each book is held as a single string whose three fields (name, category,
//! author) are joined by the delimiter `;`. An ownership index grants each
//! record's registered owner the right to update it.

pub mod codec;
pub mod store;
