use vstd::prelude::*;

pub mod archive;
pub mod cache;
pub mod decoder;
pub mod natural;
pub mod page_order;
pub mod raw;
pub mod text;
pub mod types;
pub mod view;
pub mod worker;

verus! {

} // verus!
