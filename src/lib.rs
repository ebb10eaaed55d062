//! Evolves color palettes with a genetic algorithm whose fitness is built
//! from statistics over perceptual color distances, lightness and chroma.
//!
//! Every quantity that the verified logic reads is held in fixed point: one
//! unit is a thousandth of the natural unit (of a Lab axis, of a color
//! distance, of a chroma, of a target's factor).
//!
//! Choices where the model leaves room:
//! - a statistic of an empty sample (the distances between the free colors
//!   of a one-color palette) is undefined: `StatValues::from` gives `None`,
//!   a target that reads it gives `None`, and the palette's fitness is
//!   `UNDEFINED_FITNESS`, below every defined fitness;
//! - ranking is stable: palettes of equal fitness keep their order;
//! - of the children of a generation, the first `mutation_count_of(..)` are
//!   mutated, with noise that the caller draws;
//! - crossover orders colors by a hue key that orders them as their hue
//!   angle does (see `color::hue_key_spec`).
//!
//! Distances between colors (CIEDE2000 on gamut-clamped colors) are floating
//! point and are computed by the caller, which hands them over as matrices.

pub mod action;
pub mod color;
pub mod colorscheme;
pub mod filter;
pub mod fitness;
pub mod genetic;
pub mod number;
pub mod stats;
pub mod words;

pub use action::{line_to_action, line_to_target, Action, ColorFilter, ParseError};
pub use color::{chroma, hue_key, midpoint, shifted, Color, Shift, AB_MAX, HUE_STEPS, L_MAX};
pub use colorscheme::{copy_colors, sorted_by_hue, ColorScheme};
pub use filter::{deutan, protan, LinTriple, RedGreenFilter, Rgb8};
pub use fitness::{
    fx_multiply, fx_power, ColorSchemeProblemDescription, FitnessData, Parameter, Strength, Target, TargetDirection,
    UNDEFINED_FITNESS, UNIT,
};
pub use genetic::{
    rank_order, tournament_selection, tournament_winner, Genotype, Population, ProblemDescription, TOURNAMENT_SIZE,
};
pub use number::{parse_fixed, parse_integer};
pub use stats::{isqrt, Stat, StatValues};
pub use words::split_words;
