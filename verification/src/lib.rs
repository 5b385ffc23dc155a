//! Decide how to re-encode, repair and modernize media files.
//!
//! The pipeline:
//!
//! 1. [`cli`]: from a command line to a request.
//! 2. [`probe`]: from what ffprobe reports to a typed
//!    [`model::MediaProfile`].
//! 3. [`assess`]: from a profile to its issues.
//! 4. [`plan`]: from a profile, its issues and the user's wishes to a recipe
//!    and the paths of what is written.
//! 5. [`format`]: what is shown to people.
//! 6. [`execute`]: from a recipe to the ffmpeg command line, and one run of
//!    ffmpeg step by step.
//! 7. [`flow`]: a whole run, from a profile to a finished file.
//!
//! What all of it amounts to is stated and proved in [`promises`].
//!
//! The library does no I/O. Where a step needs some, a state machine says
//! what is to be done and takes what came of it.

pub mod assess;
pub mod binary64;
pub mod cli;
pub mod double;
pub mod error;
pub mod execute;
pub mod flow;
pub mod format;
pub mod model;
pub mod numeral;
pub mod path;
pub mod plan;
pub mod probe;
pub mod promises;
pub mod text;

pub use error::Error;
pub use model::MediaProfile;
