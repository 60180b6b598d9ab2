//! Verified core of a personal-homepage social platform.
//!
//! Users register and log in, customise an HTML page with uploaded media,
//! and grant friends access to private content through one-time invite
//! tokens. The modules here hold the account, invite and friendship tables,
//! the access-control rule that gates user pages, the content listings, the
//! upload validation, and the text edits applied to a user's page.

pub mod access;
pub mod auth;
pub mod content;
pub mod friends;
pub mod invite;
pub mod page;
pub mod paths;
pub mod text;
pub mod upload;
pub mod username;
