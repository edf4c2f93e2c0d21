use vstd::prelude::*;

pub mod discord;
pub mod geometry;
pub mod ids;
pub mod message;
pub mod number;
pub mod requests;
pub mod runtime;
pub mod state;
pub mod style;
pub mod text;
pub mod unicode;

verus! {

}
