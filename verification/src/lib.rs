//! Verified core of a small set of storage and terminal tools: a log-replayed key/value store,
//! the decisions of an S3 bucket browser, a timestamp message source and the storage iterator
//! interface.
pub mod browser;
pub mod clock;
pub mod iterators;
pub mod kv;
pub mod lending;
pub mod order;
pub mod ordered_map;

pub use browser::{
    handle_key, next_state, pane_lines, parent_listing_path, s3_try_from_config, s3_try_from_env,
    App, Config, ConfigError, EnvVar, KeyInput, S3Config, S3EnvVars, State, UiEvent,
};
pub use clock::{gen_msg, message_from_millis, ClockError, Message};
pub use iterators::StorageIterator;
pub use kv::{Command, CommandPos, KvStore, KvsError};
pub use lending::{print_item, LendingIterator, WindowsMut};
