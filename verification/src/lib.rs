use vstd::prelude::*;

pub mod text;
pub mod stack;
pub mod comment;
pub mod title;
pub mod report;
pub mod session;
pub mod laws;

verus! {
}
