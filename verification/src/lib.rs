pub mod cli;
pub mod error;
pub mod search;
pub mod text;
pub mod weburl;
pub mod markdown;
pub mod fetch;
pub mod dom;
