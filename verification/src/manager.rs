//! The named-pipeline registry: pipeline name to [`TextAnalyzer`].

use vstd::prelude::*;

use vstd::string::StringExecFns;

use crate::analyzer::{
    analyze_spec, default_pipeline, raw_pipeline, stem_pipeline, whitespace_pipeline,
    AnalyzerView, TextAnalyzer,
};
use crate::filter::{Language, TokenFilter};
use crate::tokenize::Tokenizer;

verus! {

/// The view of one registry entry: the name and the pipeline under it.
pub open spec fn abs_entries(s: Seq<(String, TextAnalyzer)>) -> Seq<(Seq<char>, AnalyzerView)> {
    s.map_values(|e: (String, TextAnalyzer)| (e.0@, e.1@))
}

/// The mapping that a list of registrations denotes: entries apply in
/// order, so a later registration of a name shadows an earlier one.
pub open spec fn entries_map(s: Seq<(Seq<char>, AnalyzerView)>) -> Map<Seq<char>, AnalyzerView>
    decreases s.len(),
{
    if s.len() == 0 {
        Map::empty()
    } else {
        entries_map(s.drop_last()).insert(s.last().0, s.last().1)
    }
}

/// A registry of analysis pipelines under unique string names. Index
/// schemas refer to pipelines by these names; [`TokenizerManager::get`]
/// hands each caller an independent clone, so callers never share in-flight
/// state.
pub struct TokenizerManager {
    entries: Vec<(String, TextAnalyzer)>,
}

impl View for TokenizerManager {
    type V = Map<Seq<char>, AnalyzerView>;

    closed spec fn view(&self) -> Map<Seq<char>, AnalyzerView> {
        entries_map(abs_entries(self.entries@))
    }
}

impl TokenizerManager {
    /// Creates an empty registry.
    pub fn new() -> (r: Self)
        ensures
            r@ == Map::<Seq<char>, AnalyzerView>::empty(),
    {
        let r = TokenizerManager { entries: Vec::new() };
        proof {
            assert(abs_entries(r.entries@) =~= Seq::<(Seq<char>, AnalyzerView)>::empty());
        }
        r
    }

    /// Registers a pipeline under a name, replacing any pipeline previously
    /// registered under that name. Always succeeds.
    pub fn register(&mut self, name: &str, analyzer: TextAnalyzer)
        ensures
            final(self)@ == old(self)@.insert(name@, analyzer@),
    {
        let ghost old_abs = abs_entries(self.entries@);
        let key = String::from_str(name);
        let ghost pair_view = (name@, analyzer@);
        self.entries.push((key, analyzer));
        proof {
            let new_abs = abs_entries(self.entries@);
            assert(new_abs.drop_last() =~= old_abs);
            assert(new_abs.last() == pair_view);
        }
    }

    /// Looks a name up: a fresh, independent clone of the pipeline
    /// registered under it, or nothing when the name was never registered.
    pub fn get(&self, name: &str) -> (r: Option<TextAnalyzer>)
        ensures
            match r {
                Some(a) => self@.contains_key(name@) && a@ == self@[name@],
                None => !self@.contains_key(name@),
            },
    {
        let key = String::from_str(name);
        let ghost full = abs_entries(self.entries@);
        let mut j: usize = self.entries.len();
        proof {
            assert(full.take(j as int) =~= full);
        }
        while j > 0
            invariant
                j <= self.entries.len(),
                full == abs_entries(self.entries@),
                key@ == name@,
                self@ == entries_map(abs_entries(self.entries@)),
                self@.contains_key(name@) <==> entries_map(full.take(j as int)).contains_key(
                    name@,
                ),
                entries_map(full.take(j as int)).contains_key(name@) ==> self@[name@]
                    == entries_map(full.take(j as int))[name@],
            decreases j,
        {
            let e = &self.entries[j - 1];
            proof {
                let part = full.take(j as int);
                assert(part.drop_last() =~= full.take(j as int - 1));
                assert(part.last() == (e.0@, e.1@));
            }
            if e.0 == key {
                return Some(e.1.clone());
            }
            j = j - 1;
        }
        proof {
            assert(full.take(0) =~= Seq::<(Seq<char>, AnalyzerView)>::empty());
        }
        None
    }
}

impl Clone for TokenizerManager {
    /// A clone holds its own copy of every registration; looking a name up
    /// in the clone yields the same pipeline as in the original.
    fn clone(&self) -> (r: Self)
        ensures
            r@ == self@,
    {
        let mut entries: Vec<(String, TextAnalyzer)> = Vec::new();
        let mut k: usize = 0;
        proof {
            assert(abs_entries(entries@) =~= abs_entries(self.entries@).take(0));
        }
        while k < self.entries.len()
            invariant
                k <= self.entries.len(),
                abs_entries(entries@) == abs_entries(self.entries@).take(k as int),
            decreases self.entries.len() - k,
        {
            proof {
                assert(abs_entries(entries@).len() == entries@.len());
            }
            let e = &self.entries[k];
            entries.push((e.0.clone(), e.1.clone()));
            k = k + 1;
            proof {
                assert(abs_entries(entries@) =~= abs_entries(self.entries@).take(k as int));
            }
        }
        proof {
            assert(abs_entries(self.entries@).take(self.entries@.len() as int) =~= abs_entries(
                self.entries@,
            ));
        }
        TokenizerManager { entries }
    }
}

/// The names and pipelines a default-constructed registry holds: `raw`,
/// `default`, `whitespace`, and one `<lang>_stem` pipeline per supported
/// language.
pub open spec fn default_registry() -> Map<Seq<char>, AnalyzerView> {
    Map::<Seq<char>, AnalyzerView>::empty().insert("raw"@, raw_pipeline()).insert(
        "default"@,
        default_pipeline(),
    ).insert("de_stem"@, stem_pipeline(Language::German)).insert(
        "en_stem"@,
        stem_pipeline(Language::English),
    ).insert("es_stem"@, stem_pipeline(Language::Spanish)).insert(
        "fr_stem"@,
        stem_pipeline(Language::French),
    ).insert("hu_stem"@, stem_pipeline(Language::Hungarian)).insert(
        "it_stem"@,
        stem_pipeline(Language::Italian),
    ).insert("nl_stem"@, stem_pipeline(Language::Dutch)).insert(
        "pt_stem"@,
        stem_pipeline(Language::Portuguese),
    ).insert("ro_stem"@, stem_pipeline(Language::Romanian)).insert(
        "ru_stem"@,
        stem_pipeline(Language::Russian),
    ).insert("ta_stem"@, stem_pipeline(Language::Tamil)).insert(
        "whitespace"@,
        whitespace_pipeline(),
    )
}

/// The exact name set of the default registry.
pub open spec fn default_names() -> Set<Seq<char>> {
    set![
        "raw"@,
        "default"@,
        "de_stem"@,
        "en_stem"@,
        "es_stem"@,
        "fr_stem"@,
        "hu_stem"@,
        "it_stem"@,
        "nl_stem"@,
        "pt_stem"@,
        "ro_stem"@,
        "ru_stem"@,
        "ta_stem"@,
        "whitespace"@,
    ]
}

/// Builds the `default` pipeline.
fn default_analyzer() -> (r: TextAnalyzer)
    ensures
        r@ == default_pipeline(),
{
    let r = TextAnalyzer::builder(Tokenizer::Simple).filter(
        TokenFilter::RemoveLong { limit: 40 },
    ).filter(TokenFilter::LowerCaser).build();
    proof {
        assert(r@.filters =~= default_pipeline().filters);
    }
    r
}

/// Builds the stemming pipeline for one language.
fn stem_analyzer(language: Language) -> (r: TextAnalyzer)
    ensures
        r@ == stem_pipeline(language),
{
    let r = TextAnalyzer::builder(Tokenizer::Simple).filter(
        TokenFilter::RemoveLong { limit: 40 },
    ).filter(TokenFilter::LowerCaser).filter(TokenFilter::Stemmer { language }).build();
    proof {
        assert(r@.filters =~= stem_pipeline(language).filters);
    }
    r
}

impl Default for TokenizerManager {
    /// Creates a registry prepopulated with the default pipelines, exactly
    /// the names of [`default_names`].
    fn default() -> (r: TokenizerManager)
        ensures
            r@ == default_registry(),
    {
        let mut manager = TokenizerManager::new();
        let raw = TextAnalyzer::builder(Tokenizer::Raw).build();
        proof {
            assert(raw@ =~~= raw_pipeline());
        }
        manager.register("raw", raw);
        manager.register("default", default_analyzer());
        manager.register("de_stem", stem_analyzer(Language::German));
        manager.register("en_stem", stem_analyzer(Language::English));
        manager.register("es_stem", stem_analyzer(Language::Spanish));
        manager.register("fr_stem", stem_analyzer(Language::French));
        manager.register("hu_stem", stem_analyzer(Language::Hungarian));
        manager.register("it_stem", stem_analyzer(Language::Italian));
        manager.register("nl_stem", stem_analyzer(Language::Dutch));
        manager.register("pt_stem", stem_analyzer(Language::Portuguese));
        manager.register("ro_stem", stem_analyzer(Language::Romanian));
        manager.register("ru_stem", stem_analyzer(Language::Russian));
        manager.register("ta_stem", stem_analyzer(Language::Tamil));
        let whitespace = TextAnalyzer::builder(Tokenizer::Whitespace).build();
        proof {
            assert(whitespace@ =~~= whitespace_pipeline());
        }
        manager.register("whitespace", whitespace);
        manager
    }
}

/// A default-constructed registry answers to exactly the default names: no
/// more, no fewer.
pub proof fn lemma_default_registry_names()
    ensures
        default_registry().dom() == default_names(),
{
    assert(default_registry().dom() =~= default_names());
}

/// Each default name answers with its own pipeline in the default
/// registry: the built-ins hide none of each other.
pub proof fn lemma_default_registry_entries()
    ensures
        default_registry()["raw"@] == raw_pipeline(),
        default_registry()["default"@] == default_pipeline(),
        default_registry()["whitespace"@] == whitespace_pipeline(),
        default_registry()["de_stem"@] == stem_pipeline(Language::German),
        default_registry()["en_stem"@] == stem_pipeline(Language::English),
        default_registry()["es_stem"@] == stem_pipeline(Language::Spanish),
        default_registry()["fr_stem"@] == stem_pipeline(Language::French),
        default_registry()["hu_stem"@] == stem_pipeline(Language::Hungarian),
        default_registry()["it_stem"@] == stem_pipeline(Language::Italian),
        default_registry()["nl_stem"@] == stem_pipeline(Language::Dutch),
        default_registry()["pt_stem"@] == stem_pipeline(Language::Portuguese),
        default_registry()["ro_stem"@] == stem_pipeline(Language::Romanian),
        default_registry()["ru_stem"@] == stem_pipeline(Language::Russian),
        default_registry()["ta_stem"@] == stem_pipeline(Language::Tamil),
{
    reveal_strlit("raw");
    reveal_strlit("default");
    reveal_strlit("whitespace");
    reveal_strlit("de_stem");
    reveal_strlit("en_stem");
    reveal_strlit("es_stem");
    reveal_strlit("fr_stem");
    reveal_strlit("hu_stem");
    reveal_strlit("it_stem");
    reveal_strlit("nl_stem");
    reveal_strlit("pt_stem");
    reveal_strlit("ro_stem");
    reveal_strlit("ru_stem");
    reveal_strlit("ta_stem");
    assert("raw"@.len() == 3);
    assert("whitespace"@.len() == 10);
    assert("default"@[0] == 'd' && "default"@[1] == 'e' && "default"@[2] == 'f');
    assert("de_stem"@[0] == 'd' && "de_stem"@[1] == 'e' && "de_stem"@[2] == '_');
    assert("en_stem"@[0] == 'e' && "en_stem"@[1] == 'n');
    assert("es_stem"@[0] == 'e' && "es_stem"@[1] == 's');
    assert("fr_stem"@[0] == 'f');
    assert("hu_stem"@[0] == 'h');
    assert("it_stem"@[0] == 'i');
    assert("nl_stem"@[0] == 'n');
    assert("pt_stem"@[0] == 'p');
    assert("ro_stem"@[0] == 'r' && "ro_stem"@[1] == 'o');
    assert("ru_stem"@[0] == 'r' && "ru_stem"@[1] == 'u');
    assert("ta_stem"@[0] == 't');
}

/// Looking a name up right after registering a pipeline under it yields
/// that pipeline's behavior on every input, whatever the registry held
/// before.
pub proof fn lemma_register_then_get(
    m: Map<Seq<char>, AnalyzerView>,
    name: Seq<char>,
    p: AnalyzerView,
    text: Seq<char>,
)
    ensures
        m.insert(name, p).contains_key(name),
        analyze_spec(m.insert(name, p)[name], text) == analyze_spec(p, text),
{
}

/// Registering twice under one name replaces the first registration: the
/// registry is left exactly as if only the second had happened.
pub proof fn lemma_register_replaces(
    m: Map<Seq<char>, AnalyzerView>,
    name: Seq<char>,
    first: AnalyzerView,
    second: AnalyzerView,
)
    ensures
        m.insert(name, first).insert(name, second) == m.insert(name, second),
{
    assert(m.insert(name, first).insert(name, second) =~= m.insert(name, second));
}

/// A name outside the default set is unregistered in a freshly
/// default-constructed registry, so looking it up yields nothing.
pub proof fn lemma_default_has_only_default_names(name: Seq<char>)
    requires
        !default_names().contains(name),
    ensures
        !default_registry().contains_key(name),
{
    lemma_default_registry_names();
}

} // verus!
