//! Gap-weighted subsequence kernel over the match positions of an alignment.
//!
//! The library models an alignment as an edit script of run-length
//! operations, extracts the positions at which the script matches, and
//! prepares everything the kernel recurrence consumes: the validated order
//! `k`, the branch of the recurrence that applies, the match positions and
//! the per-gap decay exponents.
pub mod cigar;
pub mod positions;
pub mod kernel;

pub use cigar::{Cigar, CigarElem, CigarOp};
pub use kernel::{compute, Lodhi, OrderError, Plan, Schedule};
pub use positions::{collect_match_positions, gap_exponents};
