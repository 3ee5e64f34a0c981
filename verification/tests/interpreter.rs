use anyrun_hunspell::config::{Alias, Config};
use anyrun_hunspell::decoder::{decode_line, Completion};
use anyrun_hunspell::format::{format_results, DisplayEntry};
use anyrun_hunspell::pipeline::{
    engine_request, plan_query, render_engine_output, selection_action, QueryPlan,
    SelectionAction,
};
use anyrun_hunspell::query::{parse_query, Query};
use anyrun_hunspell::readiness::{classify, Verdict};
use anyrun_hunspell::registry::{parse_dictionary_listing, DictionaryRegistry};

fn sample_registry() -> DictionaryRegistry {
    DictionaryRegistry::new(
        vec!["en_US".to_string(), "de_DE".to_string()],
        vec![
            Alias { name: "en".to_string(), dictionary: "en_US".to_string() },
            Alias { name: "de".to_string(), dictionary: "de_DE".to_string() },
            Alias { name: "xx".to_string(), dictionary: "xx_XX".to_string() },
        ],
    )
}

fn query(lang: &str, body: &str, terminated: bool) -> Query {
    Query {
        language_token: lang.to_string(),
        body_text: body.to_string(),
        language_terminated: terminated,
    }
}

// Raw inputs without the configured prefix produce no output at all.
#[test]
fn no_prefix_yields_nothing() {
    let config = Config::default();
    let registry = sample_registry();
    assert!(matches!(plan_query("hello", &config, &registry), QueryPlan::NotApplicable));
    assert!(matches!(plan_query("", &config, &registry), QueryPlan::NotApplicable));
    assert!(matches!(plan_query(":spel hello", &config, &registry), QueryPlan::NotApplicable));
}

// The readiness decision table, one boundary test per combination.
#[test]
fn readiness_table_all_rows() {
    let registry = sample_registry();
    // unknown language, empty body, terminated -> error
    assert!(matches!(
        classify(&registry, &query("zz", "", true)),
        Verdict::NotFound { .. }
    ));
    // unknown language, body present, terminated -> error
    assert!(matches!(
        classify(&registry, &query("zz", "text", true)),
        Verdict::NotFound { .. }
    ));
    // unknown language, body present, unterminated -> error
    assert!(matches!(
        classify(&registry, &query("zz", "text", false)),
        Verdict::NotFound { .. }
    ));
    // unknown language, empty body, unterminated -> still being typed
    assert!(matches!(classify(&registry, &query("zz", "", false)), Verdict::Waiting));
    // known language, empty body -> waiting, terminated or not
    assert!(matches!(classify(&registry, &query("en_US", "", true)), Verdict::Waiting));
    assert!(matches!(classify(&registry, &query("en_US", "", false)), Verdict::Waiting));
    // known language, body present -> proceed, terminated or not
    assert!(matches!(
        classify(&registry, &query("en_US", "text", true)),
        Verdict::Proceed { .. }
    ));
    assert!(matches!(
        classify(&registry, &query("en_US", "text", false)),
        Verdict::Proceed { .. }
    ));
}

// A body of pure whitespace counts as empty.
#[test]
fn readiness_whitespace_body_waits() {
    let registry = sample_registry();
    assert!(matches!(classify(&registry, &query("en_US", "   ", true)), Verdict::Waiting));
}

// Membership is re-checked even after alias resolution: an alias whose
// target is not installed is dropped at construction, so its name resolves
// to itself and is unknown.
#[test]
fn alias_to_missing_dictionary_is_unusable() {
    let registry = sample_registry();
    match classify(&registry, &query("xx", "word", true)) {
        Verdict::NotFound { resolved } => assert_eq!(resolved, "xx"),
        _ => panic!("expected a not-found verdict"),
    }
}

// The latest alias entry for a name wins, as in a map built from the list.
#[test]
fn later_alias_entry_wins() {
    let registry = DictionaryRegistry::new(
        vec!["en_US".to_string(), "en_GB".to_string()],
        vec![
            Alias { name: "en".to_string(), dictionary: "en_US".to_string() },
            Alias { name: "en".to_string(), dictionary: "en_GB".to_string() },
        ],
    );
    assert_eq!(registry.resolve("en"), "en_GB");
    assert_eq!(registry.resolve("fr"), "fr");
}

// Decoder: the five line shapes.
#[test]
fn decode_correct_star() {
    match decode_line("* hello") {
        Some(Completion::Correct { word }) => assert_eq!(word, "hello"),
        _ => panic!("expected a correct record"),
    }
}

#[test]
fn decode_correct_dash() {
    match decode_line("- worked") {
        Some(Completion::Correct { word }) => assert_eq!(word, "worked"),
        _ => panic!("expected a correct record"),
    }
}

#[test]
fn decode_correct_affix() {
    match decode_line("+ running run") {
        Some(Completion::Correct { word }) => assert_eq!(word, "running"),
        _ => panic!("expected a correct record"),
    }
}

#[test]
fn decode_near_miss() {
    match decode_line("& hllo 2 0: hello, hullo") {
        Some(Completion::NearMiss { word, suggestions }) => {
            assert_eq!(word, "hllo");
            assert_eq!(suggestions, vec!["hello".to_string(), "hullo".to_string()]);
        },
        _ => panic!("expected a near-miss record"),
    }
}

#[test]
fn decode_incorrect() {
    match decode_line("# wrlx 0") {
        Some(Completion::Incorrect { word }) => assert_eq!(word, "wrlx"),
        _ => panic!("expected an incorrect record"),
    }
}

#[test]
fn decode_blank_line_is_line_end() {
    assert!(matches!(decode_line(""), Some(Completion::LineEnd)));
}

// Lines with a recognized prefix but a missing delimiter are dropped.
#[test]
fn decode_malformed_lines_dropped() {
    assert!(decode_line("& hllo 2 0 hello").is_none());
    assert!(decode_line("& x: a").is_none());
    assert!(decode_line("+ alone").is_none());
    assert!(decode_line("# alone").is_none());
}

// The two trailing fields are whitespace-run delimited: doubled spaces
// collapse into one delimiter.
#[test]
fn decode_affix_with_doubled_space() {
    match decode_line("+ a  b") {
        Some(Completion::Correct { word }) => assert_eq!(word, "a"),
        _ => panic!("expected a correct record"),
    }
}

// An empty suggestion list text still yields one (empty) suggestion, as a
// split on the delimiter does.
#[test]
fn decode_near_miss_empty_suggestion_text() {
    match decode_line("& w 1 0: ") {
        Some(Completion::NearMiss { word, suggestions }) => {
            assert_eq!(word, "w");
            assert_eq!(suggestions, vec![String::new()]);
        }
        _ => panic!("expected a near-miss record"),
    }
}

// Unrecognized lines are dropped, not an error.
#[test]
fn decode_unrecognized_lines_dropped() {
    assert!(decode_line("Hunspell 1.7.0").is_none());
    assert!(decode_line("@ odd").is_none());
    assert!(decode_line("*x").is_none());
    assert!(decode_line("*").is_none());
}

// Formatter mapping, including the near-miss order.
#[test]
fn format_near_miss_keeps_order() {
    let completions = vec![Completion::NearMiss {
        word: "hllo".to_string(),
        suggestions: vec!["hello".to_string(), "hullo".to_string()],
    }];
    let entries = format_results(completions, 15);
    assert_eq!(entries.len(), 2);
    assert_eq!(entries[0].title, "hello");
    assert_eq!(entries[1].title, "hullo");
    assert_eq!(entries[0].subtitle.as_deref(), Some("🖉 Suggestion for 'hllo'"));
    assert_eq!(entries[0].category_id, Some(1));
    assert!(entries[0].rich_text);
}

#[test]
fn format_correct_entry() {
    let entries = format_results(vec![Completion::Correct { word: "hello".to_string() }], 15);
    assert_eq!(entries.len(), 1);
    assert_eq!(entries[0].title, "hello");
    assert_eq!(entries[0].subtitle.as_deref(), Some("✔ Correct"));
    assert_eq!(entries[0].category_id, Some(0));
}

#[test]
fn format_incorrect_entry() {
    let entries = format_results(vec![Completion::Incorrect { word: "wrlx".to_string() }], 15);
    assert_eq!(entries.len(), 1);
    assert_eq!(entries[0].title, "𐄂 No suggestions for 'wrlx'");
    assert!(entries[0].subtitle.is_none());
    assert_eq!(entries[0].category_id, Some(2));
}

#[test]
fn format_line_end_contributes_nothing() {
    let entries = format_results(vec![Completion::LineEnd], 15);
    assert!(entries.is_empty());
}

// Truncation drops only the tail: the prefix of size max is kept exactly.
fn five_entry_batch() -> Vec<Completion> {
    vec![
        Completion::Correct { word: "one".to_string() },
        Completion::NearMiss {
            word: "w".to_string(),
            suggestions: vec!["two".to_string(), "three".to_string(), "four".to_string()],
        },
        Completion::Incorrect { word: "five".to_string() },
    ]
}

#[test]
fn format_truncates_only_the_tail() {
    let full: Vec<DisplayEntry> = format_results(five_entry_batch(), 15);
    assert_eq!(full.len(), 5);
    let capped = format_results(five_entry_batch(), 3);
    assert_eq!(capped.len(), 3);
    for i in 0..3 {
        assert_eq!(capped[i].title, full[i].title);
        assert_eq!(capped[i].category_id, full[i].category_id);
    }
    assert_eq!(capped[0].title, "one");
    assert_eq!(capped[1].title, "two");
    assert_eq!(capped[2].title, "three");
}

#[test]
fn format_zero_cap_yields_nothing() {
    let entries = format_results(vec![Completion::Correct { word: "x".to_string() }], 0);
    assert!(entries.is_empty());
}

// Worked examples through the whole front half of the pipeline.
#[test]
fn example_default_language() {
    let config = Config::default();
    let registry = sample_registry();
    match plan_query(":spell hello", &config, &registry) {
        QueryPlan::Invoke { dictionary, text } => {
            assert_eq!(dictionary, "en_US");
            assert_eq!(text, "hello");
        },
        _ => panic!("expected an engine invocation"),
    }
}

#[test]
fn example_alias_language() {
    let config = Config::default();
    let registry = sample_registry();
    match plan_query(":spell:en hello world", &config, &registry) {
        QueryPlan::Invoke { dictionary, text } => {
            assert_eq!(dictionary, "en_US");
            assert_eq!(text, "hello world");
        },
        _ => panic!("expected an engine invocation"),
    }
}

#[test]
fn example_unknown_unterminated_waits() {
    let config = Config::default();
    let registry = sample_registry();
    match plan_query(":spell:zz", &config, &registry) {
        QueryPlan::Respond { entries } => {
            assert_eq!(entries.len(), 1);
            assert_eq!(entries[0].title, "Waiting...");
            assert!(entries[0].category_id.is_none());
        },
        _ => panic!("expected a placeholder answer"),
    }
}

#[test]
fn example_unknown_terminated_errors() {
    let config = Config::default();
    let registry = sample_registry();
    match plan_query(":spell:zz ", &config, &registry) {
        QueryPlan::Respond { entries } => {
            assert_eq!(entries.len(), 1);
            assert_eq!(entries[0].title, "Dictionary Not Found: zz");
            assert!(entries[0].category_id.is_none());
        },
        _ => panic!("expected a placeholder answer"),
    }
}

#[test]
fn example_known_language_no_text_waits() {
    let config = Config::default();
    let registry = sample_registry();
    match plan_query(":spell:en ", &config, &registry) {
        QueryPlan::Respond { entries } => {
            assert_eq!(entries.len(), 1);
            assert_eq!(entries[0].title, "Waiting...");
        },
        _ => panic!("expected a placeholder answer"),
    }
}

#[test]
fn example_trailing_space_trimmed() {
    let config = Config::default();
    let registry = sample_registry();
    match plan_query(":spell  hello  ", &config, &registry) {
        QueryPlan::Invoke { dictionary, text } => {
            assert_eq!(dictionary, "en_US");
            assert_eq!(text, "hello");
        },
        _ => panic!("expected an engine invocation"),
    }
}

// A space between the prefix and the marker leaves the marker
// unrecognized: the rest is ordinary body text under the default language.
#[test]
fn marker_after_space_is_body_text() {
    let config = Config::default();
    let registry = sample_registry();
    match plan_query(":spell :en hello", &config, &registry) {
        QueryPlan::Invoke { dictionary, text } => {
            assert_eq!(dictionary, "en_US");
            assert_eq!(text, ":en hello");
        }
        _ => panic!("expected an engine invocation"),
    }
}

// Worked examples through the back half of the pipeline.
#[test]
fn example_near_miss_output() {
    let entries = render_engine_output("& hllo 2 0: hello, hullo", 15);
    assert_eq!(entries.len(), 2);
    assert_eq!(entries[0].title, "hello");
    assert_eq!(entries[1].title, "hullo");
}

#[test]
fn example_incorrect_output() {
    let entries = render_engine_output("# wrlx 0", 15);
    assert_eq!(entries.len(), 1);
    assert_eq!(entries[0].title, "𐄂 No suggestions for 'wrlx'");
}

#[test]
fn render_full_batch_with_blank_and_noise_lines() {
    let output = "Hunspell 1.7.0\n* hello\n\n& hllo 2 0: hello, hullo\n# wrlx 0\nbroken & line\n";
    let entries = render_engine_output(output, 15);
    assert_eq!(entries.len(), 4);
    assert_eq!(entries[0].title, "hello");
    assert_eq!(entries[1].title, "hello");
    assert_eq!(entries[2].title, "hullo");
    assert_eq!(entries[3].title, "𐄂 No suggestions for 'wrlx'");
}

#[test]
fn render_respects_cap() {
    let output = "& w 9 0: a, b, c, d, e, f, g, h, i";
    let entries = render_engine_output(output, 4);
    assert_eq!(entries.len(), 4);
    assert_eq!(entries[0].title, "a");
    assert_eq!(entries[3].title, "d");
}

#[test]
fn render_handles_crlf_lines() {
    let entries = render_engine_output("* ok\r\n# bad 0\r\n", 15);
    assert_eq!(entries.len(), 2);
    assert_eq!(entries[0].title, "ok");
}

// The exact request text handed to the engine.
#[test]
fn engine_request_shape() {
    assert_eq!(engine_request("hello world"), "`\n^hello world");
    assert_eq!(engine_request(""), "`\n^");
}

// Selection handling: copy for correct words and suggestions, dismiss
// otherwise.
#[test]
fn selection_actions() {
    assert!(matches!(selection_action(Some(0)), SelectionAction::CopyTitle));
    assert!(matches!(selection_action(Some(1)), SelectionAction::CopyTitle));
    assert!(matches!(selection_action(Some(2)), SelectionAction::Dismiss));
    assert!(matches!(selection_action(Some(7)), SelectionAction::Dismiss));
    assert!(matches!(selection_action(None), SelectionAction::Dismiss));
}

// The engine's dictionary listing: three header lines, then one path per
// installed dictionary.
#[test]
fn dictionary_listing_parsed() {
    let out = "SEARCH PATH:\n.::/usr/share/hunspell\nAVAILABLE DICTIONARIES:\n/usr/share/hunspell/en_US\n/usr/share/hunspell/de_DE\nLOADED DICTIONARY:\n";
    let dicts = parse_dictionary_listing(out);
    assert_eq!(dicts, vec!["en_US".to_string(), "de_DE".to_string()]);
}

#[test]
fn dictionary_listing_short_output_is_empty() {
    assert!(parse_dictionary_listing("one\ntwo").is_empty());
    assert!(parse_dictionary_listing("").is_empty());
}

// Default configuration values.
#[test]
fn default_config_values() {
    let config = Config::default();
    assert_eq!(config.prefix, ":spell");
    assert_eq!(config.default_language, "en_US");
    assert_eq!(config.max_entries, 15);
    assert_eq!(config.aliases.len(), 1);
    assert_eq!(config.aliases[0].name, "en");
    assert_eq!(config.aliases[0].dictionary, "en_US");
}

// The parser's split, checked directly.
#[test]
fn parser_splits_tagged_query() {
    let q = parse_query(":spell:de  zwei worte", ":spell", "en_US").unwrap();
    assert_eq!(q.language_token, "de");
    assert_eq!(q.body_text, " zwei worte");
    assert!(q.language_terminated);
}

#[test]
fn parser_unterminated_tag() {
    let q = parse_query(":spell:de", ":spell", "en_US").unwrap();
    assert_eq!(q.language_token, "de");
    assert_eq!(q.body_text, "");
    assert!(!q.language_terminated);
}

#[test]
fn parser_default_language_and_trailing_space() {
    let q = parse_query(":spell abc ", ":spell", "en_US").unwrap();
    assert_eq!(q.language_token, "en_US");
    assert_eq!(q.body_text, "abc");
    assert!(q.language_terminated);

    let q2 = parse_query(":spell abc", ":spell", "en_US").unwrap();
    assert!(!q2.language_terminated);
}

#[test]
fn parser_empty_rest() {
    let q = parse_query(":spell", ":spell", "en_US").unwrap();
    assert_eq!(q.language_token, "en_US");
    assert_eq!(q.body_text, "");
    assert!(!q.language_terminated);
}
