//! Parameter discovery and instantiation for parametric model documents.
//!
//! A model document declares top-level constants (`NAME = value;`). This
//! library discovers those declarations, infers each one's type, builds an
//! immutable template of defaults, and produces per-request instances that
//! accept untrusted text overrides and re-serialize them as `name=value`
//! override fragments in a deterministic order.

pub mod args;
pub mod extract;
pub mod instance;
pub mod laws;
pub mod loader;
pub mod number;
pub mod params;
pub mod scan;
pub mod template;
pub mod text;

pub use args::build_openscad_args;
pub use extract::{extract_param_specs, parse_options_from_comment};
pub use instance::ScadParams;
pub use loader::{CorpusBuilder, ScadDoc};
pub use params::{parse_bool, sanitize_filename_component, ParamSpec, ParamType};
pub use template::{Binding, ScadParamTemplate};
pub use text::field_to_scad_name;
