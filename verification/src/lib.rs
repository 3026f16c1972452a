use vstd::prelude::*;

pub mod strutil;
pub mod numparse;
pub mod error;
pub mod opts;
pub mod columns;
pub mod states;
pub mod config;
pub mod util;
pub mod order;
pub mod locale;
pub mod flows;
pub mod channels;
pub mod render;

verus! {
}
