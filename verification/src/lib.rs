//! Member-of-parliament feed library: a streaming XML-to-domain-model parser
//! together with a party-history consolidation algorithm.
//!
//! The feed text is tokenized by the `xml` crate; the token stream is then
//! driven through a depth-tracked state machine that builds one `Member`
//! record per member block. Each member's raw party-interval list is
//! consolidated into a chronological, merged timeline.

pub mod api_url;
pub mod consolidate;
pub mod dates;
pub mod domain;
pub mod numbers;
pub mod parser;
pub mod tokens;
