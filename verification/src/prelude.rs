pub use crate::error::Error;
pub use crate::settings::{CssSettings, HtmlSettings, PluginSettings, Settings};

use vstd::prelude::*;

verus! {

/// The result type of the processors.
pub type Result<T> = core::result::Result<T, Error>;

} // verus!
