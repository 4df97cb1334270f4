//! Result collection over the documents matched by a query: bounded top-K
//! ranking, counting, composition of several collectors in one scan, and the
//! block-wise serializer of term positions.

pub mod doc;
pub mod ranking;
pub mod top_score_collector;
pub mod count_collector;
pub mod multi_collector;
pub mod bits;
pub mod positions;
