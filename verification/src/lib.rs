//! Session history model for several coding-assistant providers.
pub mod json;
pub mod text;
pub mod models;
pub mod external;
pub mod kimi_code;
pub mod kimi_fold;
pub mod cursor;
pub mod grok;
pub mod paths;
