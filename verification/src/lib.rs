//! Kana and kanji drills: the hiragana and katakana tables and a round-based
//! kana practice, a JSON model and the reading of WaniKani subjects into
//! review items, a review session over them, and the request, cache and
//! response rules of the WaniKani API client.

pub mod json;
pub mod kana;
pub mod session;
pub mod storage;
pub mod subject;
pub mod text;
pub mod wanikani;
