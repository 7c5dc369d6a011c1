//! A card-collection query engine: color identities with subset containment and a
//! permissive parser, a faceted search filter, and the consolidation of printings.

pub mod color;
pub mod dedup;
pub mod entry;
pub mod oracle;
pub mod search;
pub mod text;

pub use color::{ColorIdent, ColorParseError};
pub use entry::{Entry, RawRow, User};
pub use search::Search;
pub use dedup::{dedup_cards, CardDeduper};
pub use oracle::Card;
