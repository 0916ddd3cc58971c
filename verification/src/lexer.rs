//! The word splitter: whitespace is collapsed, then the text is cut into
//! words. Both passes are searches of the pattern engine.

use vstd::prelude::*;
use crate::decl::ParseError;
use crate::pattern::{all_matches, find_every, replace_every, replaced, texts};

verus! {

/// The pattern of a run of whitespace.
pub open spec fn whitespace_pattern() -> Seq<char> {
    "\\s+"@
}

/// The pattern of a word: a run of word characters, or one character that is
/// neither a word character nor whitespace.
pub open spec fn word_pattern() -> Seq<char> {
    "(\\w+|[^\\w\\s])"@
}

/// `text` with every run of whitespace collapsed into one space.
pub open spec fn normalized(text: Seq<char>) -> Option<Seq<char>> {
    replaced(whitespace_pattern(), text, " "@)
}

/// The words of a text whose whitespace has been collapsed.
pub open spec fn words_in(normal: Seq<char>) -> Option<Seq<Seq<char>>> {
    all_matches(word_pattern(), normal)
}

/// The words of `text`, in order.
pub open spec fn word_seq(text: Seq<char>) -> Option<Seq<Seq<char>>> {
    match normalized(text) {
        None => None,
        Some(normal) => words_in(normal),
    }
}

/// Collapses every run of whitespace in `text` into one space.
pub fn normalize_whitespace(text: &str) -> (r: Result<String, ParseError>)
    ensures
        match r {
            Ok(normal) => normalized(text@) == Some(normal@),
            Err(e) => e == ParseError::Pattern && normalized(text@) is None,
        },
{
    match replace_every("\\s+", text, " ") {
        Ok(normal) => Ok(normal),
        Err(_) => Err(ParseError::Pattern),
    }
}

/// Cuts a text whose whitespace has been collapsed into its words.
pub fn cut_words(normal: &str) -> (r: Result<Vec<String>, ParseError>)
    ensures
        match r {
            Ok(words) => words_in(normal@) == Some(texts(words@)),
            Err(e) => e == ParseError::Pattern && words_in(normal@) is None,
        },
{
    match find_every("(\\w+|[^\\w\\s])", normal) {
        Ok(words) => Ok(words),
        Err(_) => Err(ParseError::Pattern),
    }
}

/// Splits raw text into its words.
pub fn split_words(text: &str) -> (r: Result<Vec<String>, ParseError>)
    ensures
        match r {
            Ok(words) => word_seq(text@) == Some(texts(words@)),
            Err(e) => e == ParseError::Pattern && word_seq(text@) is None,
        },
{
    match normalize_whitespace(text) {
        Ok(normal) => cut_words(normal.as_str()),
        Err(e) => Err(e),
    }
}

} // verus!
