//! Symbol-resolution core for a Kotlin/Java/Swift language server.

use vstd::prelude::*;

pub mod bare_completion;
pub mod completion_items;
pub mod cross_package;
pub mod completion;
pub mod cst;
pub mod extensions;
pub mod find;
pub mod text;
pub mod throttle;
pub mod tie_break;
pub mod hierarchy;
pub mod imports;
pub mod package_scope;
pub mod platform;
pub mod qualified;
pub mod receiver_calls;
pub mod ranking;
pub mod resolve;
pub mod rg;
pub mod scope_check;
pub mod infer;
pub mod infer_lines;
pub mod interning;
pub mod members;
pub mod segments;
pub mod types;

verus! {

} // verus!
