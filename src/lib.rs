//! A personal feed of bookmarked links: the record codec, the upsert engine
//! that keeps the feed newest-first, the read-only query filters, and the
//! view model of a feed's page.
pub mod codec;
pub mod html;
pub mod laws;
pub mod model;
pub mod query;
pub mod text;
pub mod upsert;

pub use codec::{decode_feed, encode_feed, DecodeError};
pub use html::{feed_view, FeedPage, FeedView, LinkView};
pub use model::{Feed, Link};
pub use query::{filter_feed, list, parse_date, parse_timestamp_date, CalendarDate};
pub use text::{normalize_tags, parse_optional_tags, parse_tags};
pub use upsert::{
    add, feed_or_new, insert_new_link_front, is_not_found, update_link_in_place, upsert_with_id, FeedError,
};
