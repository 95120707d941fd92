//! The filters that decide which pairs of transitions a composition keeps.

pub mod alt_sequence_compose_filter;
pub mod compose_filter;
pub mod match_compose_filter;
pub mod no_match_compose_filter;
pub mod null_compose_filter;
pub mod sequence_compose_filter;
pub mod trivial_compose_filter;

pub use self::alt_sequence_compose_filter::AltSequenceComposeFilter;
pub use self::compose_filter::ComposeFilter;
pub use self::match_compose_filter::MatchComposeFilter;
pub use self::no_match_compose_filter::NoMatchComposeFilter;
pub use self::null_compose_filter::NullComposeFilter;
pub use self::sequence_compose_filter::SequenceComposeFilter;
pub use self::trivial_compose_filter::TrivialComposeFilter;
