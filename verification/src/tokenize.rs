//! Search-mode word segmentation. Indexing and querying both go through
//! [`cut_search`], so that the words written to the full-text index and the
//! words of a query are split the same way.
//!
//! The segmenter is `jieba-rs` with the dictionary it bundles. The cppjieba
//! binding (`jieba`) would need its dictionary files (`jieba.dict.utf8`,
//! `hmm_model.utf8`, `user.dict.utf8`, `idf.utf8`, `stop_words.utf8`) embedded
//! at build time, and those files are not part of this project; `jieba-rs`
//! carries the same base jieba dictionary but no project user dictionary, so
//! words that only the user dictionary would keep whole may be split
//! differently.

use vstd::prelude::*;

use jieba_rs::Jieba;

use crate::text::{chars_of_all, join_chars, join_with, string_of, string_views, views};

verus! {

#[verifier::external_type_specification]
#[verifier::external_body]
pub struct ExJieba(Jieba);

/// The words `jieba_rs::Jieba::cut_for_search` (HMM off) yields for a text,
/// with the segmenter built from the bundled dictionary.
pub uninterp spec fn jieba_search_words(text: Seq<char>) -> Seq<Seq<char>>;

/// Whether a segmenter was built with the dictionary bundled in `jieba_rs`.
pub uninterp spec fn jieba_bundled(j: Jieba) -> bool;

/// `jieba_rs::Jieba::new`: a segmenter built with the bundled dictionary
/// (`Jieba::new` loads `DEFAULT_DICT`).
#[verifier::external_body]
fn jieba_new() -> (j: Jieba)
    ensures
        jieba_bundled(j),
{
    Jieba::new()
}

/// `jieba_rs::Jieba::cut_for_search` with HMM off, each word copied into a
/// `String`. The claim, for a segmenter built with the bundled dictionary: the
/// words are `jieba_search_words` of the text.
#[verifier::external_body]
fn jieba_cut(jieba: &Jieba, text: &str) -> (r: Vec<String>)
    requires
        jieba_bundled(*jieba),
    ensures
        string_views(r@) == jieba_search_words(text@),
{
    jieba.cut_for_search(text, false).into_iter().map(|w| w.to_string()).collect()
}

/// A word segmenter with the bundled dictionary.
pub struct Tokenizer {
    jieba: Jieba,
}

impl Tokenizer {
    /// The tokenizer holds a segmenter built with the bundled dictionary.
    pub closed spec fn wf(&self) -> bool {
        jieba_bundled(self.jieba)
    }

    /// A tokenizer over the bundled dictionary.
    pub fn new() -> (t: Self)
        ensures
            t.wf(),
    {
        Tokenizer { jieba: jieba_new() }
    }

    /// The search-mode words of `text`.
    pub fn words(&self, text: &str) -> (r: Vec<String>)
        requires
            self.wf(),
        ensures
            string_views(r@) == jieba_search_words(text@),
    {
        jieba_cut(&self.jieba, text)
    }
}

/// The text as written to the full-text index: its search-mode words joined
/// by single spaces.
pub open spec fn cut_search_text(text: Seq<char>) -> Seq<char> {
    join_with(jieba_search_words(text), " "@)
}

/// Search-mode segmentation joined by spaces.
pub fn cut_search(tok: &Tokenizer, text: &str) -> (r: String)
    requires
        tok.wf(),
    ensures
        r@ == cut_search_text(text@),
{
    let words = tok.words(text);
    join_words(&words)
}

/// Words joined by single spaces.
pub fn join_words(words: &Vec<String>) -> (r: String)
    ensures
        r@ == join_with(string_views(words@), " "@),
{
    let cv = chars_of_all(words);
    let sep = crate::text::chars_of(" ");
    let joined = join_chars(&cv, sep.as_slice());
    proof {
        assert(cv@.map_values(|v: Vec<char>| v@) =~= views(cv@));
    }
    string_of(joined.as_slice())
}

} // verus!
