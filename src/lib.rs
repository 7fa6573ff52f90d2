//! Structured errors for people to read, and context chains that gather
//! attributes for logging and for the errors made in them.
pub mod attrs;
pub mod context;
pub mod conversion;
pub mod error;
pub mod laws;
pub mod layout;
pub mod level;
pub mod render;

pub use attrs::AttrMap;
pub use context::Log;
pub use conversion::{ErrContext, ResultContext};
pub use error::{agg_err, agg_err_with, err, err_with, fatal_tree, Error};
pub use layout::{compact_text, layout, Line, LineKind};
pub use level::{Level, DEBUG, ERR, INFO, WARN};
pub use render::{RenderBranch, RenderNode};
