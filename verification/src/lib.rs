//! Heuristic spam scoring for blog comments.
//!
//! A [`Comment`] (body text plus optional author, URL and submission history)
//! is scored against a fixed set of rules. Each rule contributes a signed
//! weight to a running score, and the final score maps to a [`Status`]:
//! a score of 1 or more is `Valid`, exactly 0 is `Moderate`, and anything
//! below 0 is `Spam`.
//!
//! Every rule is specified as a pure function of the comment's text, and the
//! executable checks are verified against those specifications. The entry
//! point is `process_comment`.

pub mod consonants;
pub mod laws;
pub mod links;
pub mod score;
pub mod tables;
pub mod text;

pub use consonants::count_consonant_collections;
pub use links::{extract_links, parse_url, LinkCapture};
pub use score::{process_comment, Comment, Snooker, Status};
