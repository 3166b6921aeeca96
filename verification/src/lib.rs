use vstd::prelude::*;

pub mod ai;
pub mod annotate;
pub mod config;
pub mod convert;
pub mod dashboard;
pub mod debug;
pub mod diff;
pub mod edit;
pub mod formats;
pub mod lang;
pub mod merge;
pub mod model;
pub mod normalize;
pub mod path_glob;
pub mod paths;
pub mod reporter;
pub mod sorted;
pub mod stats;
pub mod sync;
pub mod terminal;
pub mod text;
pub mod transformers;
pub mod translate;
pub mod ui;
pub mod validation;
pub mod view;

pub use annotate::AnnotateOptions;
pub use formats::{parse_custom_format, CustomFormat};
pub use terminal::UiMode;
pub use translate::{TranslateOptions, TranslateOutcome};

verus! {

} // verus!
