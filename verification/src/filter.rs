//! Token filters: transforming or pruning a token stream.
//!
//! A filter may rewrite a token's text and may drop tokens, but it never
//! touches offsets and never renumbers the surviving tokens' positions, so
//! dropped tokens leave gaps in the position sequence.

use vstd::prelude::*;

use vstd::string::StringExecFns;
use vstd::string::StrSliceExecFns;

use crate::token::{Token, TokenView};
use crate::tokenize::{abs_tokens, tokens_ordered};

verus! {

/// The languages with a stemming pipeline in the default registry.
#[derive(Clone, Copy, Debug)]
pub enum Language {
    German,
    English,
    Spanish,
    French,
    Hungarian,
    Italian,
    Dutch,
    Portuguese,
    Romanian,
    Russian,
    Tamil,
}

/// A small integer tag for each language, used to index the named stemming
/// function [`stem_of`].
pub open spec fn lang_code(l: Language) -> int {
    match l {
        Language::German => 0,
        Language::English => 1,
        Language::Spanish => 2,
        Language::French => 3,
        Language::Hungarian => 4,
        Language::Italian => 5,
        Language::Dutch => 6,
        Language::Portuguese => 7,
        Language::Romanian => 8,
        Language::Russian => 9,
        Language::Tamil => 10,
    }
}

/// A transformation of a token stream.
///
/// * `LowerCaser` rewrites each token's text to its lowercase form.
/// * `RemoveLong` drops each token whose text has more than `limit`
///   characters.
/// * `Stemmer` rewrites each token's text to its stem in the given language.
#[derive(Clone, Copy, Debug)]
pub enum TokenFilter {
    LowerCaser,
    RemoveLong { limit: usize },
    Stemmer { language: Language },
}

/// What `str::to_lowercase` returns for a text: a function of the
/// characters alone.
pub uninterp spec fn lower_of(s: Seq<char>) -> Seq<char>;

/// Relies on `str::to_lowercase`: the Unicode lowercase form of the text,
/// a fixed function of the characters named by [`lower_of`].
#[verifier::external_body]
fn lowercase(s: &str) -> (r: String)
    ensures
        r@ == lower_of(s@),
{
    s.to_lowercase()
}

/// What the Snowball stemmer for the language with the given tag returns
/// for a word: a fixed, deterministic function of language and word alone.
pub uninterp spec fn stem_of(lang: int, s: Seq<char>) -> Seq<char>;

/// Relies on `rust_stemmers::Stemmer::create` and
/// `rust_stemmers::Stemmer::stem`: the Snowball stem of the word in the
/// given language, a fixed function of language and word named by
/// [`stem_of`].
#[verifier::external_body]
fn stem_word(language: &Language, s: &str) -> (r: String)
    ensures
        r@ == stem_of(lang_code(*language), s@),
{
    let algorithm = match language {
        Language::German => rust_stemmers::Algorithm::German,
        Language::English => rust_stemmers::Algorithm::English,
        Language::Spanish => rust_stemmers::Algorithm::Spanish,
        Language::French => rust_stemmers::Algorithm::French,
        Language::Hungarian => rust_stemmers::Algorithm::Hungarian,
        Language::Italian => rust_stemmers::Algorithm::Italian,
        Language::Dutch => rust_stemmers::Algorithm::Dutch,
        Language::Portuguese => rust_stemmers::Algorithm::Portuguese,
        Language::Romanian => rust_stemmers::Algorithm::Romanian,
        Language::Russian => rust_stemmers::Algorithm::Russian,
        Language::Tamil => rust_stemmers::Algorithm::Tamil,
    };
    rust_stemmers::Stemmer::create(algorithm).stem(s).into_owned()
}

/// One token after its text is rewritten; offsets and positions are kept.
pub open spec fn retext(tv: TokenView, text: Seq<char>) -> TokenView {
    TokenView {
        text,
        offset_from: tv.offset_from,
        offset_to: tv.offset_to,
        position: tv.position,
        position_length: tv.position_length,
    }
}

/// The token sequence a filter leaves of `toks`.
pub open spec fn filter_tokens(f: TokenFilter, toks: Seq<TokenView>) -> Seq<TokenView>
    decreases toks.len(),
{
    if toks.len() == 0 {
        Seq::empty()
    } else {
        let rest = filter_tokens(f, toks.drop_last());
        let last = toks.last();
        match f {
            TokenFilter::LowerCaser => rest + seq![retext(last, lower_of(last.text))],
            TokenFilter::RemoveLong { limit } => if last.text.len() <= limit {
                rest + seq![last]
            } else {
                rest
            },
            TokenFilter::Stemmer { language } => rest + seq![
                retext(last, stem_of(lang_code(language), last.text)),
            ],
        }
    }
}

/// The lowercaser passes every token through, only rewriting its text to
/// the lowercase form: offsets and position bookkeeping are untouched.
pub proof fn lemma_lowercaser_keeps_shape(toks: Seq<TokenView>)
    ensures
        filter_tokens(TokenFilter::LowerCaser, toks).len() == toks.len(),
        forall|k: int|
            0 <= k < toks.len() ==> filter_tokens(TokenFilter::LowerCaser, toks)[k] == retext(
                toks[k],
                lower_of(toks[k].text),
            ),
    decreases toks.len(),
{
    if toks.len() > 0 {
        lemma_lowercaser_keeps_shape(toks.drop_last());
    }
}

/// A stemmer passes every token through, only rewriting its text to the
/// language's stem: offsets and position bookkeeping are untouched.
pub proof fn lemma_stemmer_keeps_shape(language: Language, toks: Seq<TokenView>)
    ensures
        filter_tokens(TokenFilter::Stemmer { language }, toks).len() == toks.len(),
        forall|k: int|
            0 <= k < toks.len() ==> filter_tokens(TokenFilter::Stemmer { language }, toks)[k]
                == retext(toks[k], stem_of(lang_code(language), toks[k].text)),
    decreases toks.len(),
{
    if toks.len() > 0 {
        lemma_stemmer_keeps_shape(language, toks.drop_last());
    }
}

/// Whether a token's text stays within the length limit.
pub open spec fn fits_limit(limit: usize) -> spec_fn(TokenView) -> bool {
    |tv: TokenView| tv.text.len() <= limit
}

/// `RemoveLong` keeps exactly the tokens of at most `limit` characters, in
/// order and otherwise untouched; it never renumbers the survivors, so a
/// dropped token leaves a gap in the position sequence.
pub proof fn lemma_remove_long_is_filter(limit: usize, toks: Seq<TokenView>)
    ensures
        filter_tokens(TokenFilter::RemoveLong { limit }, toks) == toks.filter(fits_limit(limit)),
    decreases toks.len(),
{
    reveal(Seq::filter);
    if toks.len() == 0 {
        assert(toks =~= Seq::<TokenView>::empty());
    } else {
        lemma_remove_long_is_filter(limit, toks.drop_last());
        let rest = toks.drop_last().filter(fits_limit(limit));
        assert(rest.push(toks.last()) =~= rest + seq![toks.last()]);
    }
}

proof fn lemma_remove_long_ordered_bounded(
    limit: usize,
    toks: Seq<TokenView>,
    lo: int,
    pos: int,
    hi: int,
    phi: int,
)
    requires
        tokens_ordered(toks, lo, pos),
        forall|k: int|
            0 <= k < toks.len() ==> (#[trigger] toks[k]).offset_to <= hi && toks[k].position
                < phi,
    ensures
        tokens_ordered(filter_tokens(TokenFilter::RemoveLong { limit }, toks), lo, pos),
        forall|k: int|
            0 <= k < filter_tokens(TokenFilter::RemoveLong { limit }, toks).len() ==> (
            #[trigger] filter_tokens(TokenFilter::RemoveLong { limit }, toks)[k]).offset_to <= hi
                && filter_tokens(TokenFilter::RemoveLong { limit }, toks)[k].position < phi,
    decreases toks.len(),
{
    if toks.len() > 0 {
        let last = toks.last();
        let shorter = toks.drop_last();
        assert(tokens_ordered(shorter, lo, pos));
        assert(forall|k: int|
            0 <= k < shorter.len() ==> (#[trigger] shorter[k]).offset_to <= last.offset_from
                && shorter[k].position < last.position);
        lemma_remove_long_ordered_bounded(limit, shorter, lo, pos, last.offset_from, last.position);
        let rest = filter_tokens(TokenFilter::RemoveLong { limit }, shorter);
        if last.text.len() <= limit {
            let out = rest + seq![last];
            assert(out.drop_last() =~= rest);
            assert(out.last() == last);
        }
    }
}

/// Dropping overlong tokens keeps the stream ordered: spans still never
/// overlap and the surviving positions still strictly increase.
pub proof fn lemma_remove_long_preserves_ordered(
    limit: usize,
    toks: Seq<TokenView>,
    lo: int,
    pos: int,
)
    requires
        tokens_ordered(toks, lo, pos),
    ensures
        tokens_ordered(filter_tokens(TokenFilter::RemoveLong { limit }, toks), lo, pos),
{
    if toks.len() > 0 {
        let last = toks.last();
        assert(forall|k: int|
            0 <= k < toks.len() ==> (#[trigger] toks[k]).offset_to <= last.offset_to
                && toks[k].position < last.position + 1);
        lemma_remove_long_ordered_bounded(limit, toks, lo, pos, last.offset_to, last.position + 1);
    }
}

/// Rewriting token texts never disturbs the stream's order: the lowercaser
/// and the stemmers keep every span and position as it was.
pub proof fn lemma_rewrite_preserves_ordered(
    f: TokenFilter,
    toks: Seq<TokenView>,
    lo: int,
    pos: int,
)
    requires
        !(f is RemoveLong),
        tokens_ordered(toks, lo, pos),
    ensures
        tokens_ordered(filter_tokens(f, toks), lo, pos),
{
    let out = filter_tokens(f, toks);
    match f {
        TokenFilter::LowerCaser => {
            lemma_lowercaser_keeps_shape(toks);
        },
        TokenFilter::Stemmer { language } => {
            lemma_stemmer_keeps_shape(language, toks);
        },
        TokenFilter::RemoveLong { .. } => {
        },
    }
}

/// Runs one filter over a token vector.
pub fn apply_filter(f: &TokenFilter, toks: Vec<Token>) -> (r: Vec<Token>)
    ensures
        abs_tokens(r@) == filter_tokens(*f, abs_tokens(toks@)),
{
    let mut out: Vec<Token> = Vec::new();
    let mut j: usize = 0;
    while j < toks.len()
        invariant
            j <= toks.len(),
            abs_tokens(out@) == filter_tokens(*f, abs_tokens(toks@).take(j as int)),
        decreases toks.len() - j,
    {
        let cur = &toks[j];
        match f {
            TokenFilter::LowerCaser => {
                let text = lowercase(cur.text.as_str());
                let tok = Token {
                    text,
                    offset_from: cur.offset_from,
                    offset_to: cur.offset_to,
                    position: cur.position,
                    position_length: cur.position_length,
                };
                proof {
                    assert(abs_tokens(out@.push(tok)) =~= abs_tokens(out@) + seq![tok@]);
                }
                out.push(tok);
            },
            TokenFilter::RemoveLong { limit } => {
                if cur.text.as_str().unicode_len() <= *limit {
                    let tok = cur.clone();
                    proof {
                        assert(abs_tokens(out@.push(tok)) =~= abs_tokens(out@) + seq![tok@]);
                    }
                    out.push(tok);
                }
            },
            TokenFilter::Stemmer { language } => {
                let text = stem_word(language, cur.text.as_str());
                let tok = Token {
                    text,
                    offset_from: cur.offset_from,
                    offset_to: cur.offset_to,
                    position: cur.position,
                    position_length: cur.position_length,
                };
                proof {
                    assert(abs_tokens(out@.push(tok)) =~= abs_tokens(out@) + seq![tok@]);
                }
                out.push(tok);
            },
        }
        j = j + 1;
        proof {
            let full = abs_tokens(toks@);
            assert(full.take(j as int).drop_last() =~= full.take(j as int - 1));
            assert(full.take(j as int).last() == full[j as int - 1]);
        }
    }
    proof {
        assert(abs_tokens(toks@).take(toks@.len() as int) =~= abs_tokens(toks@));
    }
    out
}

} // verus!
