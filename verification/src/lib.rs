pub mod args;
pub mod banner;
pub mod bookmark;
pub mod codec;
pub mod error;
pub mod history;
pub mod hopper;
pub mod path;
pub mod resolver;
pub mod shortcut;
pub mod text;
