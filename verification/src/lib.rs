//! A one-directional pub/sub message bridge, split into its two verified
//! components: the topic-name sanitizer and the bridge relay logic.

pub mod bridge;
pub mod sanitize;
