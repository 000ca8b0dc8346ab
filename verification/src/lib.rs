//! Client-side core of a messaging-bot API: routes outbound requests across
//! several credentials, keeps per-conversation affinity, and merges the
//! per-credential update feeds into one duplicate-free stream.
//!
//! The HTTP transport, timers and wire-format (de)serialization are external
//! collaborators; the driver around this library performs them and feeds
//! their plain results back into the verified state machines found here.

pub mod affinity;
pub mod answer;
pub mod api;
pub mod dedup;
pub mod digits;
pub mod update;

pub use affinity::AffinityTracker;
pub use answer::AnswerCallbackQuery;
pub use api::race_result;
pub use api::Api;
pub use api::RaceWinner;
pub use api::Route;
pub use api::SendType;
pub use api::UpdatesStream;
pub use dedup::DuplicateFilter;
pub use digits::int64_to_decimal;
pub use digits::parse_i64_or_zero;
pub use update::identity_key;
pub use update::CallbackQuery;
pub use update::ChannelPost;
pub use update::Message;
pub use update::RawCallback;
pub use update::Update;
pub use update::UpdateKey;
pub use update::UpdateKind;
