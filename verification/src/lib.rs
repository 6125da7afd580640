use vstd::prelude::*;

pub mod article;
pub mod console;
pub mod feed;
pub mod feeds;
pub mod news;
pub mod opml;
pub mod pages;
pub mod story;
pub mod subscriptions;
pub mod summary;
pub mod text;
pub mod time;
pub mod xml;

pub use feeds::{normalise, NewsItem, Subscription};
