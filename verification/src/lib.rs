//! The discrete core of a feed-forward network trainer: the shape rules of a
//! network, class selection and accuracy counting, dataset shuffling, and the
//! epoch schedule of a training run.
//!
//! Every numeric quantity that reaches these functions is an integer: layer
//! sizes, lengths, indices, and order keys that stand for activations.

pub mod classify;
pub mod image;
pub mod layer_list;
pub mod schedule;
pub mod shuffle;
pub mod state;
pub mod topology;

pub use classify::{evaluate, predict, target_class, Accuracy, Outcome};
pub use image::gray_to_rgb;
pub use layer_list::parse_layer_sizes;
pub use schedule::{Phase, Schedule, Step};
pub use shuffle::{permute, shuffle_dataset};
pub use state::{Command, TrainingState};
pub use topology::{Activation, ConfigurationError, LayerRole, ShapeMismatch, Topology};
