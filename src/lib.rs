//! A growable contiguous buffer whose storage is grown geometrically and
//! whose behaviour is stated as a sequence model.

pub mod growth;
pub mod my_vec;

pub use my_vec::MyVec;
