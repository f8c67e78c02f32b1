//! Multi-step breeding-path search over an owned-pal pool.
//!
//! Candidate pals (owned, then bred intermediates) are pairwise combined
//! for up to `max_breeding_steps` rounds, beam-pruned per (species,
//! carried passives, required progenitors, IV minimums met) state and by
//! species reachability, and ranked by **expected eggs**: the expected
//! number of breeding attempts across the whole plan.
//!
//! Cost model, per bred node: one egg succeeds when the child rolls
//! every passive the node must carry (see [`crate::passives`]), every
//! supplyable goal IV minimum (see [`crate::iv`]), and, when the node is
//! later used as a gendered parent, the required gender. Bred
//! intermediates are re-bred until they succeed; owned pals cost
//! nothing.

pub mod mask;
pub mod plan;
pub mod record;
pub mod world;
pub mod seed;
pub mod beam;
pub mod breed;
pub mod rounds;
pub mod solver;
pub mod laws;
pub mod price;
pub mod reach;
pub mod complete;
pub mod found;
