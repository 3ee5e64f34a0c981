//! The end-to-end query pipeline: from a raw input to either silence, a
//! placeholder entry, or an engine invocation; and from the engine's raw
//! output to the capped list of display entries.

use vstd::prelude::*;
use vstd::string::StringExecFns;
use crate::config::Config;
use crate::decoder::{decode_line, decode_model, Completion, CompletionModel};
use crate::format::{
    cap_entries, entries_of_all, format_results, models_of, completion_models, DisplayEntry,
    EntryModel,
};
use crate::query::{
    parse_query, spec_body_text, spec_language_terminated, spec_language_token,
};
use crate::readiness::{classify, readiness_table, Verdict, VerdictKind};
use crate::registry::DictionaryRegistry;
use crate::text::{spec_lines, spec_trim, split_lines, starts_with};

verus! {

/// What one user input event calls for.
pub enum QueryPlan {
    /// The input does not carry the configured prefix: produce no output
    /// at all.
    NotApplicable,
    /// Answer immediately with these entries (a placeholder row), without
    /// invoking the engine.
    Respond { entries: Vec<DisplayEntry> },
    /// Invoke the engine on `text` with dictionary `dictionary`, then
    /// decode and format its output.
    Invoke { dictionary: String, text: String },
}

/// The model of the single placeholder entry shown while a query is still
/// being typed.
pub open spec fn waiting_entry_model() -> EntryModel {
    EntryModel { title: "Waiting..."@, subtitle: None, rich_text: false, category_id: None }
}

/// The model of the single placeholder entry shown when the resolved
/// language names no installed dictionary.
pub open spec fn not_found_entry_model(resolved: Seq<char>) -> EntryModel {
    EntryModel {
        title: "Dictionary Not Found: "@ + resolved,
        subtitle: None,
        rich_text: false,
        category_id: None,
    }
}

/// Decides what a raw input calls for. An input without the configured
/// prefix yields no output at all. Otherwise the input is parsed, the
/// language token resolved and re-checked against the installed set, and
/// the decision table applied: a settled unknown language answers with a
/// "not found" placeholder, an unsettled or textless query with a
/// "waiting" placeholder, and a complete query asks for an engine run on
/// the trimmed body text.
pub fn plan_query(raw: &str, config: &Config, registry: &DictionaryRegistry) -> (p: QueryPlan)
    ensures
        ({
            let rest = raw@.skip(config.prefix@.len() as int);
            let lang = spec_language_token(rest, config.default_language@);
            let body = spec_body_text(rest);
            let term = spec_language_terminated(rest);
            let resolved = registry.spec_resolve(lang);
            let known = registry.spec_is_known(resolved);
            let non_empty = spec_trim(body).len() > 0;
            let verdict = readiness_table(known, non_empty, term);
            match p {
                QueryPlan::NotApplicable => !starts_with(raw@, config.prefix@),
                QueryPlan::Respond { entries } => {
                    &&& starts_with(raw@, config.prefix@)
                    &&& verdict != VerdictKind::Proceed
                    &&& verdict == VerdictKind::NotFound ==> models_of(entries@) == seq![
                        not_found_entry_model(resolved),
                    ]
                    &&& verdict == VerdictKind::Waiting ==> models_of(entries@) == seq![
                        waiting_entry_model(),
                    ]
                },
                QueryPlan::Invoke { dictionary, text } => {
                    &&& starts_with(raw@, config.prefix@)
                    &&& verdict == VerdictKind::Proceed
                    &&& dictionary@ == resolved
                    &&& text@ == spec_trim(body)
                },
            }
        }),
{
    match parse_query(raw, config.prefix.as_str(), config.default_language.as_str()) {
        None => QueryPlan::NotApplicable,
        Some(q) => {
            match classify(registry, &q) {
                Verdict::NotFound { resolved } => {
                    let mut title = String::from_str("Dictionary Not Found: ");
                    title.append(resolved.as_str());
                    let mut entries: Vec<DisplayEntry> = Vec::new();
                    entries.push(
                        DisplayEntry { title, subtitle: None, rich_text: false, category_id: None },
                    );
                    proof {
                        assert(models_of(entries@) =~~= seq![
                            not_found_entry_model(resolved@),
                        ]);
                    }
                    QueryPlan::Respond { entries }
                },
                Verdict::Waiting => {
                    let mut entries: Vec<DisplayEntry> = Vec::new();
                    entries.push(
                        DisplayEntry {
                            title: String::from_str("Waiting..."),
                            subtitle: None,
                            rich_text: false,
                            category_id: None,
                        },
                    );
                    proof {
                        assert(models_of(entries@) =~~= seq![waiting_entry_model()]);
                    }
                    QueryPlan::Respond { entries }
                },
                Verdict::Proceed { dictionary, text } => QueryPlan::Invoke { dictionary, text },
            }
        },
    }
}

/// The exact text written to the engine for one query: a line holding a
/// single backtick (switching the engine to terse mode), then the text
/// prefixed with a caret (so the engine takes it as data, never as a
/// command).
pub fn engine_request(text: &str) -> (r: String)
    ensures
        r@ == "`\n^"@ + text@,
{
    let mut s = String::from_str("`\n^");
    s.append(text);
    s
}

/// The completion records of a batch of output lines: each line decoded,
/// dropped lines contributing nothing, order kept.
pub open spec fn decoded_of(lines: Seq<Seq<char>>) -> Seq<CompletionModel>
    decreases lines.len(),
{
    if lines.len() == 0 {
        Seq::empty()
    } else {
        (match decode_model(lines[0]) {
            Some(c) => seq![c],
            None => Seq::empty(),
        }) + decoded_of(lines.skip(1))
    }
}

/// Appending one line appends its decoded record, if it has one.
pub proof fn lemma_decoded_of_push(lines: Seq<Seq<char>>, line: Seq<char>)
    ensures
        decoded_of(lines.push(line)) == decoded_of(lines) + (match decode_model(line) {
            Some(c) => seq![c],
            None => Seq::<CompletionModel>::empty(),
        }),
    decreases lines.len(),
{
    let tail = match decode_model(line) {
        Some(c) => seq![c],
        None => Seq::<CompletionModel>::empty(),
    };
    if lines.len() == 0 {
        assert(lines.push(line)[0] == line);
        assert(lines.push(line).skip(1) =~= Seq::<Seq<char>>::empty());
        assert(decoded_of(Seq::<Seq<char>>::empty()) == Seq::<CompletionModel>::empty());
        assert(decoded_of(lines.push(line)) =~= decoded_of(lines) + tail);
    } else {
        lemma_decoded_of_push(lines.skip(1), line);
        assert(lines.push(line)[0] == lines[0]);
        assert(lines.push(line).skip(1) =~= lines.skip(1).push(line));
        let head = match decode_model(lines[0]) {
            Some(c) => seq![c],
            None => Seq::<CompletionModel>::empty(),
        };
        assert(decoded_of(lines.push(line)) == head + (decoded_of(lines.skip(1)) + tail));
        assert(head + (decoded_of(lines.skip(1)) + tail) =~= (head + decoded_of(lines.skip(1)))
            + tail);
    }
}

/// Decodes a whole batch of engine output: the text is split into lines,
/// each line decoded (unrecognized and malformed lines dropped), and the
/// records formatted into at most `max_entries` display entries.
pub fn render_engine_output(output: &str, max_entries: u32) -> (v: Vec<DisplayEntry>)
    ensures
        v@.len() <= max_entries,
        models_of(v@) == cap_entries(
            entries_of_all(decoded_of(spec_lines(output@))),
            max_entries as int,
        ),
{
    let lines = split_lines(output);
    let mut completions: Vec<Completion> = Vec::new();
    let n = lines.len();
    let mut i: usize = 0;
    proof {
        assert(lines.deep_view().take(0) =~= Seq::<Seq<char>>::empty());
        assert(completion_models(completions@) =~= decoded_of(lines.deep_view().take(0)));
    }
    while i < n
        invariant
            n == lines@.len(),
            0 <= i <= n,
            lines.deep_view() == spec_lines(output@),
            lines.deep_view().len() == n,
            completion_models(completions@) == decoded_of(lines.deep_view().take(i as int)),
        decreases n - i,
    {
        let ghost prevmodels = completion_models(completions@);
        let ghost prev = completions@;
        proof {
            assert(lines.deep_view().take(i + 1) =~= lines.deep_view().take(i as int).push(
                lines.deep_view()[i as int],
            ));
            lemma_decoded_of_push(lines.deep_view().take(i as int), lines.deep_view()[i as int]);
            assert(lines.deep_view()[i as int] == lines@[i as int]@);
        }
        match decode_line(lines[i].as_str()) {
            Some(c) => {
                completions.push(c);
                proof {
                    assert forall|k: int| 0 <= k < completions@.len() implies #[trigger]
                        completion_models(completions@)[k] == decoded_of(
                        lines.deep_view().take(i + 1),
                    )[k] by {
                        if k < prev.len() {
                            assert(completions@[k] == prev[k]);
                            assert(prevmodels[k] == prev[k].model());
                        } else {
                            assert(completions@[k] == c);
                        }
                    }
                    assert(completion_models(completions@) =~= decoded_of(
                        lines.deep_view().take(i + 1),
                    ));
                }
            },
            None => {
                proof {
                    assert(completion_models(completions@) =~= decoded_of(
                        lines.deep_view().take(i + 1),
                    ));
                }
            },
        }
        i = i + 1;
    }
    proof {
        assert(lines.deep_view().take(n as int) =~= lines.deep_view());
    }
    format_results(completions, max_entries)
}

/// Suggestion order is preserved end to end: a well-formed near-miss line
/// decodes to its suggestion list unchanged, and the display entries made
/// from the decoded record carry those suggestions as titles, one per
/// suggestion, in the same order.
pub proof fn lemma_suggestion_order_end_to_end(
    word: Seq<char>,
    count: Seq<char>,
    offset: Seq<char>,
    suggs: Seq<Seq<char>>,
)
    requires
        forall|j: int| 0 <= j < word.len() ==> #[trigger] word[j] != ':',
        forall|j: int|
            0 <= j < count.len() ==> !crate::text::is_space(#[trigger] count[j]) && count[j]
                != ':',
        forall|j: int|
            0 <= j < offset.len() ==> !crate::text::is_space(#[trigger] offset[j]) && offset[j]
                != ':',
        count.len() > 0,
        offset.len() > 0,
        word.len() > 0 ==> !crate::text::is_space(word.last()),
        suggs.len() >= 1,
        forall|i: int|
            0 <= i < suggs.len() ==> crate::decoder::delimiter_free(#[trigger] suggs[i]),
    ensures
        ({
            let line = seq!['&', ' '] + word + seq![' '] + count + seq![' '] + offset + seq![
                ':',
                ' ',
            ] + crate::decoder::join_suggestions(suggs);
            let record = CompletionModel::NearMiss { word: word, suggestions: suggs };
            &&& decode_model(line) == Some(record)
            &&& crate::format::entries_of(record).len() == suggs.len()
            &&& forall|i: int|
                0 <= i < suggs.len() ==> #[trigger] crate::format::entries_of(record)[i].title
                    == suggs[i] && crate::format::entries_of(record)[i].category_id == Some(1u32)
        }),
{
    crate::decoder::lemma_decode_near_miss_line(word, count, offset, suggs);
    crate::format::lemma_near_miss_order(word, suggs);
}

/// How the host is to react when an entry is selected.
pub enum SelectionAction {
    /// Copy the entry's title.
    CopyTitle,
    /// Close without further action.
    Dismiss,
}

/// The reaction a selected entry calls for: a correct word or a suggestion
/// is copied; anything else dismisses.
pub fn selection_action(category_id: Option<u32>) -> (a: SelectionAction)
    ensures
        (a == SelectionAction::CopyTitle) == (category_id == Some(0u32) || category_id == Some(
            1u32,
        )),
{
    match category_id {
        Some(0) => SelectionAction::CopyTitle,
        Some(1) => SelectionAction::CopyTitle,
        _ => SelectionAction::Dismiss,
    }
}

} // verus!
