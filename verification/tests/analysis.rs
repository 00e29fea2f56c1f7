use text_analysis::analyzer::TextAnalyzer;
use text_analysis::filter::TokenFilter;
use text_analysis::manager::TokenizerManager;
use text_analysis::stream::TokenStream;
use text_analysis::tokenize::Tokenizer;

fn drain(stream: &mut TokenStream) -> Vec<(String, usize, usize, usize, usize)> {
    let mut out = Vec::new();
    while stream.advance() {
        let t = stream.token();
        out.push((
            t.text.clone(),
            t.offset_from,
            t.offset_to,
            t.position,
            t.position_length,
        ));
    }
    out
}

fn texts_of(stream: &mut TokenStream) -> Vec<String> {
    drain(stream).into_iter().map(|t| t.0).collect()
}

#[test]
fn raw_emits_whole_input() {
    let manager = TokenizerManager::default();
    let analyzer = manager.get("raw").unwrap();
    let mut stream = analyzer.token_stream("Hello, World!");
    let tokens = drain(&mut stream);
    assert_eq!(tokens.len(), 1);
    assert_eq!(tokens[0].0, "Hello, World!");
    assert_eq!(tokens[0].1, 0);
    assert_eq!(tokens[0].2, 13);
    assert_eq!(tokens[0].3, 0);
    assert_eq!(tokens[0].4, 1);
}

#[test]
fn raw_on_empty_input() {
    let manager = TokenizerManager::default();
    let analyzer = manager.get("raw").unwrap();
    let mut stream = analyzer.token_stream("");
    let tokens = drain(&mut stream);
    assert_eq!(tokens.len(), 1);
    assert_eq!(tokens[0].0, "");
    assert_eq!(tokens[0].1, 0);
    assert_eq!(tokens[0].2, 0);
}

#[test]
fn whitespace_splits_on_whitespace_runs() {
    let manager = TokenizerManager::default();
    let analyzer = manager.get("whitespace").unwrap();
    let mut stream = analyzer.token_stream("a  b\tc");
    let tokens = drain(&mut stream);
    let expected = vec![
        ("a".to_string(), 0, 1, 0, 1),
        ("b".to_string(), 3, 4, 1, 1),
        ("c".to_string(), 5, 6, 2, 1),
    ];
    assert_eq!(tokens, expected);
}

#[test]
fn splitting_tokenizers_emit_nothing_on_empty_or_blank_input() {
    let manager = TokenizerManager::default();
    for name in ["default", "whitespace"] {
        let analyzer = manager.get(name).unwrap();
        assert!(drain(&mut analyzer.token_stream("")).is_empty());
        assert!(drain(&mut analyzer.token_stream(" \t  \n")).is_empty());
    }
}

#[test]
fn whitespace_keeps_punctuation_inside_tokens() {
    let manager = TokenizerManager::default();
    let analyzer = manager.get("whitespace").unwrap();
    let mut stream = analyzer.token_stream("don't stop!");
    assert_eq!(texts_of(&mut stream), vec!["don't", "stop!"]);
}

#[test]
fn default_lowercases_tokens() {
    let manager = TokenizerManager::default();
    let analyzer = manager.get("default").unwrap();
    let mut stream = analyzer.token_stream("The QUICK fox");
    assert_eq!(texts_of(&mut stream), vec!["the", "quick", "fox"]);
}

#[test]
fn default_splits_on_punctuation() {
    let manager = TokenizerManager::default();
    let analyzer = manager.get("default").unwrap();
    let mut stream = analyzer.token_stream("hello, world!");
    assert_eq!(texts_of(&mut stream), vec!["hello", "world"]);
}

#[test]
fn default_keeps_offsets_of_rewritten_tokens() {
    let manager = TokenizerManager::default();
    let analyzer = manager.get("default").unwrap();
    let mut stream = analyzer.token_stream("ABC");
    let tokens = drain(&mut stream);
    assert_eq!(tokens, vec![("abc".to_string(), 0, 3, 0, 1)]);
}

#[test]
fn default_drops_overlong_token_and_keeps_neighbors() {
    let manager = TokenizerManager::default();
    let analyzer = manager.get("default").unwrap();
    let long_word = "x".repeat(41);
    let text = format!("ok {} yes", long_word);
    let mut stream = analyzer.token_stream(&text);
    let tokens = drain(&mut stream);
    assert_eq!(tokens.len(), 2);
    assert_eq!(tokens[0].0, "ok");
    assert_eq!(tokens[1].0, "yes");
    // the dropped token's position stays vacant
    assert_eq!(tokens[0].3, 0);
    assert_eq!(tokens[1].3, 2);
}

#[test]
fn default_keeps_token_of_exactly_forty_chars() {
    let manager = TokenizerManager::default();
    let analyzer = manager.get("default").unwrap();
    let word = "X".repeat(40);
    let mut stream = analyzer.token_stream(&word);
    assert_eq!(texts_of(&mut stream), vec!["x".repeat(40)]);
}

#[test]
fn en_stem_stems_english_words() {
    let manager = TokenizerManager::default();
    let analyzer = manager.get("en_stem").unwrap();
    let mut stream = analyzer.token_stream("Walking and running");
    assert_eq!(texts_of(&mut stream), vec!["walk", "and", "run"]);
}

#[test]
fn en_stem_keeps_offsets_of_stemmed_tokens() {
    let manager = TokenizerManager::default();
    let analyzer = manager.get("en_stem").unwrap();
    let mut stream = analyzer.token_stream("Running");
    let tokens = drain(&mut stream);
    assert_eq!(tokens, vec![("run".to_string(), 0, 7, 0, 1)]);
}

#[test]
fn de_stem_stems_german_words() {
    let manager = TokenizerManager::default();
    let analyzer = manager.get("de_stem").unwrap();
    let mut stream = analyzer.token_stream("Abends");
    assert_eq!(texts_of(&mut stream), vec!["abend"]);
}

#[test]
fn ru_stem_stems_russian_words_with_utf8_offsets() {
    let manager = TokenizerManager::default();
    let analyzer = manager.get("ru_stem").unwrap();
    let word = "\u{430}\u{43a}\u{43a}\u{443}\u{440}\u{430}\u{442}\u{43d}\u{43e}";
    let stem = "\u{430}\u{43a}\u{43a}\u{443}\u{440}\u{430}\u{442}\u{43d}";
    let mut stream = analyzer.token_stream(word);
    let tokens = drain(&mut stream);
    // each Cyrillic letter is two bytes; offsets span the original word
    assert_eq!(tokens, vec![(stem.to_string(), 0, 18, 0, 1)]);
}

#[test]
fn es_stem_stems_spanish_words() {
    let manager = TokenizerManager::default();
    let analyzer = manager.get("es_stem").unwrap();
    let mut stream = analyzer.token_stream("acad\u{e9}mica");
    assert_eq!(texts_of(&mut stream), vec!["academ"]);
}

#[test]
fn en_stem_passes_non_alphabetic_tokens_through() {
    let manager = TokenizerManager::default();
    let analyzer = manager.get("en_stem").unwrap();
    let mut stream = analyzer.token_stream("12345");
    assert_eq!(texts_of(&mut stream), vec!["12345"]);
}

#[test]
fn byte_offsets_reference_original_utf8_text() {
    let manager = TokenizerManager::default();
    let analyzer = manager.get("whitespace").unwrap();
    let mut stream = analyzer.token_stream("h\u{e9}llo w\u{f6}rld");
    let tokens = drain(&mut stream);
    assert_eq!(tokens.len(), 2);
    assert_eq!((tokens[0].1, tokens[0].2), (0, 6));
    assert_eq!((tokens[1].1, tokens[1].2), (7, 13));
}

#[test]
fn default_manager_contains_exactly_the_default_names() {
    let manager = TokenizerManager::default();
    let names = [
        "raw", "default", "whitespace", "de_stem", "en_stem", "es_stem", "fr_stem", "hu_stem",
        "it_stem", "nl_stem", "pt_stem", "ro_stem", "ru_stem", "ta_stem",
    ];
    for name in names {
        assert!(manager.get(name).is_some(), "missing pipeline: {}", name);
    }
    for name in ["en", "stem", "Default", "raw ", "", "simple"] {
        assert!(manager.get(name).is_none(), "unexpected pipeline: {}", name);
    }
}

#[test]
fn new_manager_is_empty() {
    let manager = TokenizerManager::new();
    assert!(manager.get("default").is_none());
    assert!(manager.get("raw").is_none());
}

#[test]
fn register_then_get_yields_equivalent_pipeline() {
    let mut manager = TokenizerManager::new();
    let pipeline = TextAnalyzer::builder(Tokenizer::Whitespace)
        .filter(TokenFilter::LowerCaser)
        .build();
    let direct = drain(&mut pipeline.token_stream("Keep IT simple"));
    manager.register("custom", pipeline);
    let fetched = manager.get("custom").unwrap();
    let via_registry = drain(&mut fetched.token_stream("Keep IT simple"));
    assert_eq!(direct, via_registry);
}

#[test]
fn register_twice_replaces_the_first() {
    let mut manager = TokenizerManager::default();
    let first = TextAnalyzer::builder(Tokenizer::Raw).build();
    let second = TextAnalyzer::builder(Tokenizer::Whitespace).build();
    manager.register("custom", first);
    manager.register("custom", second);
    let fetched = manager.get("custom").unwrap();
    let mut stream = fetched.token_stream("a b");
    assert_eq!(texts_of(&mut stream), vec!["a", "b"]);
}

#[test]
fn registering_overrides_a_builtin_name() {
    let mut manager = TokenizerManager::default();
    manager.register("default", TextAnalyzer::builder(Tokenizer::Raw).build());
    let fetched = manager.get("default").unwrap();
    let mut stream = fetched.token_stream("A b");
    assert_eq!(texts_of(&mut stream), vec!["A b"]);
}

#[test]
fn cloned_pipeline_runs_identically_twice() {
    let manager = TokenizerManager::default();
    let analyzer = manager.get("en_stem").unwrap();
    let twin = analyzer.clone();
    let first = drain(&mut analyzer.token_stream("Stemming stems words"));
    let second = drain(&mut analyzer.token_stream("Stemming stems words"));
    let third = drain(&mut twin.token_stream("Stemming stems words"));
    assert_eq!(first, second);
    assert_eq!(first, third);
}

#[test]
fn interleaved_streams_do_not_contaminate_each_other() {
    let manager = TokenizerManager::default();
    let a = manager.get("en_stem").unwrap();
    let b = manager.get("en_stem").unwrap();
    let mut stream_a = a.token_stream("cats running dogs");
    let mut stream_b = b.token_stream("birds jumped south today");
    let mut texts_a = Vec::new();
    let mut texts_b = Vec::new();
    loop {
        let more_a = stream_a.advance();
        if more_a {
            texts_a.push(stream_a.token().text.clone());
        }
        let more_b = stream_b.advance();
        if more_b {
            texts_b.push(stream_b.token().text.clone());
        }
        if !more_a && !more_b {
            break;
        }
    }
    assert_eq!(texts_a, vec!["cat", "run", "dog"]);
    assert_eq!(texts_b, vec!["bird", "jump", "south", "today"]);
}

#[test]
fn stream_is_single_pass() {
    let manager = TokenizerManager::default();
    let analyzer = manager.get("whitespace").unwrap();
    let mut stream = analyzer.token_stream("one two");
    assert_eq!(texts_of(&mut stream), vec!["one", "two"]);
    assert!(!stream.advance());
    // a second pass requires re-invoking the pipeline
    let mut again = analyzer.token_stream("one two");
    assert_eq!(texts_of(&mut again), vec!["one", "two"]);
}

#[test]
fn cloned_manager_answers_like_the_original() {
    let manager = TokenizerManager::default();
    let twin = manager.clone();
    let original = drain(&mut manager.get("default").unwrap().token_stream("A B"));
    let copied = drain(&mut twin.get("default").unwrap().token_stream("A B"));
    assert_eq!(original, copied);
    assert!(twin.get("no_such_pipeline").is_none());
}
