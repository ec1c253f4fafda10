//! A key/value configuration store backed by a single YAML document.
//!
//! [`Config`] maps string keys to structured values ([`ConfigValue`]). It is
//! built from the text of its backing file and hands back the text to write
//! after every change; reading and writing the file is the caller's part.
//! Typed access goes through [`ToValue`] and [`FromValue`].

pub mod convert;
pub mod store;
pub mod value;
pub mod yaml;

pub use convert::{FromValue, ToValue};
pub use store::{get_list, get_value, set_list, set_value, Config, ConfigError};
pub use value::{ConfigValue, Num};
