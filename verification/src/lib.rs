//! Turning a vault of Tomet documents into a published book: the verified core.

pub mod text;
pub mod html;
pub mod links;
pub mod slug;
pub mod kinds;
pub mod loader;
pub mod table;
pub mod config;
pub mod i18n;
pub mod catalog;
pub mod toc;
pub mod search;
pub mod renderer;
pub mod paths;
pub mod serve;
pub mod icon;
pub mod pattern;
pub mod code;
pub mod external_links;
pub mod internal_links;
pub mod marker;
pub mod meta;
pub mod document;
pub mod publish;
pub mod media;
pub mod routes;
pub mod cli;
