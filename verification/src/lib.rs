//! Web agents: HTTP fetching, HTML scraping, HTML to Markdown conversion,
//! SearXNG search and YouTube transcript extraction.
//!
//! This crate holds the logic of the agents with its contracts; the framework
//! glue and the network calls live beside it.

pub mod entity;
pub mod error;
pub mod html_scraper;
pub mod html_to_markdown;
pub mod input;
pub mod number;
pub mod searxng;
pub mod text;
pub mod timedtext;
pub mod xml;
pub mod yt_transcript;
