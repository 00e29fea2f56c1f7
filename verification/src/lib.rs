//! Text analysis for a search engine: turning raw field text into a
//! normalized sequence of indexable tokens.
//!
//! A [`analyzer::TextAnalyzer`] composes one [`tokenize::Tokenizer`] with an
//! ordered chain of [`filter::TokenFilter`]s; running it on a text yields a
//! single-pass [`stream::TokenStream`] of [`token::Token`]s. The
//! [`manager::TokenizerManager`] registry lets schemas refer to pipelines by
//! name (`"default"`, `"en_stem"`, ...) instead of by configuration, and
//! hands every caller an independent clone.

pub mod token;
pub mod stream;
pub mod tokenize;
pub mod filter;
pub mod analyzer;
pub mod manager;
