//! The analysis pipeline: one tokenizer plus an ordered chain of token
//! filters, built once and then immutable.

use vstd::prelude::*;

use crate::filter::{
    filter_tokens, lemma_remove_long_preserves_ordered, lemma_rewrite_preserves_ordered, Language,
    TokenFilter,
};
use crate::stream::TokenStream;
use crate::token::Token;
use crate::token::TokenView;
use crate::tokenize::{
    abs_tokens, base_tokens, byte_off, lemma_base_tokens_ordered, text_fits, tokenize,
    tokens_ordered, Tokenizer,
};

verus! {

/// A mathematical picture of a pipeline: which tokenizer it starts from and
/// the filters behind it, in execution order.
pub struct AnalyzerView {
    pub tokenizer: Tokenizer,
    pub filters: Seq<TokenFilter>,
}

/// The tokens left after the filters in `fs` run in order over `toks`.
pub open spec fn chain_tokens(fs: Seq<TokenFilter>, toks: Seq<TokenView>) -> Seq<TokenView>
    decreases fs.len(),
{
    if fs.len() == 0 {
        toks
    } else {
        filter_tokens(fs.last(), chain_tokens(fs.drop_last(), toks))
    }
}

/// The tokens a pipeline produces on the text `s`: the tokenizer's base
/// tokens, threaded through each filter in registration order.
pub open spec fn analyze_spec(a: AnalyzerView, s: Seq<char>) -> Seq<TokenView> {
    chain_tokens(a.filters, base_tokens(a.tokenizer, s))
}

/// An immutable composition of one tokenizer and an ordered sequence of
/// token filters. Built with [`TextAnalyzer::builder`]; each run on a text
/// yields a fresh [`TokenStream`], so one value can analyze any number of
/// texts in sequence without state leaking between runs.
pub struct TextAnalyzer {
    tokenizer: Tokenizer,
    filters: Vec<TokenFilter>,
}

impl View for TextAnalyzer {
    type V = AnalyzerView;

    closed spec fn view(&self) -> AnalyzerView {
        AnalyzerView { tokenizer: self.tokenizer, filters: self.filters@ }
    }
}

/// Accumulates a tokenizer and filters, in call order, into a
/// [`TextAnalyzer`].
pub struct TextAnalyzerBuilder {
    tokenizer: Tokenizer,
    filters: Vec<TokenFilter>,
}

impl View for TextAnalyzerBuilder {
    type V = AnalyzerView;

    closed spec fn view(&self) -> AnalyzerView {
        AnalyzerView { tokenizer: self.tokenizer, filters: self.filters@ }
    }
}

impl TextAnalyzer {
    /// Starts a pipeline from a bare tokenizer, with no filters yet.
    pub fn builder(tokenizer: Tokenizer) -> (b: TextAnalyzerBuilder)
        ensures
            b@.tokenizer == tokenizer,
            b@.filters == Seq::<TokenFilter>::empty(),
    {
        TextAnalyzerBuilder { tokenizer, filters: Vec::new() }
    }

    /// Analyzes a text: runs the tokenizer, threads the base tokens through
    /// each filter in order, and returns the result as a stream positioned
    /// before its first token.
    pub fn token_stream(&self, text: &str) -> (r: TokenStream)
        ensures
            r@.tokens == analyze_spec(self@, text@),
            r@.cursor == 0,
    {
        let mut toks: Vec<Token> = tokenize(&self.tokenizer, text);
        let mut k: usize = 0;
        proof {
            assert(self.filters@.take(0) =~= Seq::<TokenFilter>::empty());
        }
        while k < self.filters.len()
            invariant
                k <= self.filters.len(),
                abs_tokens(toks@) == chain_tokens(
                    self.filters@.take(k as int),
                    base_tokens(self@.tokenizer, text@),
                ),
                self@ == (AnalyzerView { tokenizer: self.tokenizer, filters: self.filters@ }),
            decreases self.filters.len() - k,
        {
            toks = crate::filter::apply_filter(&self.filters[k], toks);
            k = k + 1;
            proof {
                assert(self.filters@.take(k as int).drop_last() =~= self.filters@.take(
                    k as int - 1,
                ));
                assert(self.filters@.take(k as int).last() == self.filters@[k as int - 1]);
            }
        }
        proof {
            assert(self.filters@.take(self.filters@.len() as int) =~= self.filters@);
        }
        TokenStream::new(toks)
    }
}

impl Clone for TextAnalyzer {
    /// A clone shares only immutable configuration; it analyzes every text
    /// exactly as the original does.
    fn clone(&self) -> (r: Self)
        ensures
            r@ == self@,
    {
        let mut filters: Vec<TokenFilter> = Vec::new();
        let mut k: usize = 0;
        while k < self.filters.len()
            invariant
                k <= self.filters.len(),
                filters@ == self.filters@.take(k as int),
            decreases self.filters.len() - k,
        {
            filters.push(self.filters[k]);
            k = k + 1;
            proof {
                assert(self.filters@.take(k as int) =~= self.filters@.take(k as int - 1).push(
                    self.filters@[k as int - 1],
                ));
            }
        }
        proof {
            assert(self.filters@.take(self.filters@.len() as int) =~= self.filters@);
        }
        TextAnalyzer { tokenizer: self.tokenizer, filters }
    }
}

impl TextAnalyzerBuilder {
    /// Appends one filter; filters run in the order they were appended.
    pub fn filter(self, f: TokenFilter) -> (r: Self)
        ensures
            r@.tokenizer == self@.tokenizer,
            r@.filters == self@.filters.push(f),
    {
        let mut filters = self.filters;
        filters.push(f);
        TextAnalyzerBuilder { tokenizer: self.tokenizer, filters }
    }

    /// Freezes the accumulated chain into an immutable pipeline.
    pub fn build(self) -> (r: TextAnalyzer)
        ensures
            r@ == self@,
    {
        TextAnalyzer { tokenizer: self.tokenizer, filters: self.filters }
    }
}

/// The `raw` pipeline: the raw tokenizer and no filters.
pub open spec fn raw_pipeline() -> AnalyzerView {
    AnalyzerView { tokenizer: Tokenizer::Raw, filters: Seq::empty() }
}

/// The `default` pipeline: the simple tokenizer, tokens over 40 characters
/// dropped, the rest lowercased.
pub open spec fn default_pipeline() -> AnalyzerView {
    AnalyzerView {
        tokenizer: Tokenizer::Simple,
        filters: seq![TokenFilter::RemoveLong { limit: 40 }, TokenFilter::LowerCaser],
    }
}

/// A `<lang>_stem` pipeline: the `default` pipeline plus a trailing stemmer
/// for the language.
pub open spec fn stem_pipeline(language: Language) -> AnalyzerView {
    AnalyzerView {
        tokenizer: Tokenizer::Simple,
        filters: seq![
            TokenFilter::RemoveLong { limit: 40 },
            TokenFilter::LowerCaser,
            TokenFilter::Stemmer { language },
        ],
    }
}

/// The `whitespace` pipeline: the whitespace tokenizer and no filters.
pub open spec fn whitespace_pipeline() -> AnalyzerView {
    AnalyzerView { tokenizer: Tokenizer::Whitespace, filters: Seq::empty() }
}

/// On any input text, the `raw` pipeline produces exactly one token: its
/// text is the whole input, its byte span covers the whole input, and it
/// sits at position 0.
pub proof fn lemma_raw_single_token(text: Seq<char>)
    ensures
        analyze_spec(raw_pipeline(), text).len() == 1,
        analyze_spec(raw_pipeline(), text)[0].text == text,
        analyze_spec(raw_pipeline(), text)[0].offset_from == 0,
        analyze_spec(raw_pipeline(), text)[0].offset_to == byte_off(text, text.len() as int),
        analyze_spec(raw_pipeline(), text)[0].position == 0,
        analyze_spec(raw_pipeline(), text)[0].position_length == 1,
{
}

/// On any input text, the `default` pipeline's tokens are exactly the
/// simple tokenizer's tokens with those over 40 characters dropped and the
/// rest lowercased, in that order.
pub proof fn lemma_default_pipeline_tokens(text: Seq<char>)
    ensures
        analyze_spec(default_pipeline(), text) == filter_tokens(
            TokenFilter::LowerCaser,
            filter_tokens(
                TokenFilter::RemoveLong { limit: 40 },
                base_tokens(Tokenizer::Simple, text),
            ),
        ),
{
    let base = base_tokens(Tokenizer::Simple, text);
    let fs = default_pipeline().filters;
    let shorter = seq![TokenFilter::RemoveLong { limit: 40 }];
    assert(fs.drop_last() =~= shorter);
    assert(shorter.drop_last() =~= Seq::<TokenFilter>::empty());
    assert(chain_tokens(Seq::<TokenFilter>::empty(), base) == base);
    assert(chain_tokens(shorter, base) == filter_tokens(
        TokenFilter::RemoveLong { limit: 40 },
        base,
    ));
    assert(chain_tokens(fs, base) == filter_tokens(
        TokenFilter::LowerCaser,
        chain_tokens(shorter, base),
    ));
}

proof fn lemma_chain_preserves_ordered(fs: Seq<TokenFilter>, toks: Seq<TokenView>)
    requires
        tokens_ordered(toks, 0, 0),
    ensures
        tokens_ordered(chain_tokens(fs, toks), 0, 0),
    decreases fs.len(),
{
    if fs.len() > 0 {
        lemma_chain_preserves_ordered(fs.drop_last(), toks);
        let mid = chain_tokens(fs.drop_last(), toks);
        match fs.last() {
            TokenFilter::RemoveLong { limit } => {
                lemma_remove_long_preserves_ordered(limit, mid, 0, 0);
            },
            _ => {
                lemma_rewrite_preserves_ordered(fs.last(), mid, 0, 0);
            },
        }
    }
}

/// Whatever the pipeline, its output stream is well-formed: every token's
/// byte span sits inside the original text in order, spans are
/// monotonically non-decreasing from token to token and never overlap, and
/// positions strictly increase, though they may skip values where a filter
/// dropped a token.
pub proof fn lemma_analysis_ordered(a: AnalyzerView, text: Seq<char>)
    requires
        text_fits(text),
    ensures
        tokens_ordered(analyze_spec(a, text), 0, 0),
{
    lemma_base_tokens_ordered(a.tokenizer, text);
    lemma_chain_preserves_ordered(a.filters, base_tokens(a.tokenizer, text));
}

/// Pipelines with equal configuration analyze equal texts to equal tokens:
/// running a pipeline twice on one input, or running a clone of it, yields
/// identical output, and a second pass is had by re-invoking the pipeline.
pub proof fn lemma_analysis_deterministic(a: AnalyzerView, b: AnalyzerView, text: Seq<char>)
    requires
        a == b,
    ensures
        analyze_spec(a, text) == analyze_spec(b, text),
{
}

/// What a pipeline produces on a text depends on that text alone: two
/// holders of equally configured pipelines, each analyzing its own input,
/// get outputs that reflect only their own inputs, never each other's.
pub proof fn lemma_analyses_independent(
    a: AnalyzerView,
    b: AnalyzerView,
    text_a: Seq<char>,
    text_b: Seq<char>,
)
    requires
        a == b,
    ensures
        analyze_spec(a, text_a) == analyze_spec(b, text_a),
        analyze_spec(b, text_b) == analyze_spec(a, text_b),
{
}

} // verus!
