pub mod chromosome;
pub mod evolve;
pub mod params;
mod rng;
pub mod score;
pub mod select;

pub use evolve::{create_population, crossover, generation, mutate};
pub use params::Fraction;
pub use rng::create_chromosome;
pub use score::{get_score, lemma_score_bounds, Score, ScoreError};
pub use select::{lemma_selection_preserves_distinctness, selection, sort_by_score};
