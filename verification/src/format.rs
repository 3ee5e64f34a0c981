//! The result formatter: maps completion records to display entries and
//! truncates the concatenation to the configured maximum, dropping only the
//! tail and never reordering.

use vstd::prelude::*;
use vstd::string::StringExecFns;
use crate::decoder::{Completion, CompletionModel};

verus! {

/// One display-ready result row handed to the host.
pub struct DisplayEntry {
    /// The row's main text.
    pub title: String,
    /// The row's secondary text, if any.
    pub subtitle: Option<String>,
    /// Whether the texts carry rich-text markup.
    pub rich_text: bool,
    /// How a later selection of this row is to be handled: 0 and 1 mean
    /// "copy the title", 2 means "dismiss", and an absent value marks a
    /// non-actionable placeholder row.
    pub category_id: Option<u32>,
}

/// The mathematical shape of a display entry.
pub struct EntryModel {
    pub title: Seq<char>,
    pub subtitle: Option<Seq<char>>,
    pub rich_text: bool,
    pub category_id: Option<u32>,
}

impl DisplayEntry {
    /// The model this entry stands for.
    pub open spec fn model(self) -> EntryModel {
        EntryModel {
            title: self.title@,
            subtitle: match self.subtitle {
                Some(s) => Some(s@),
                None => None,
            },
            rich_text: self.rich_text,
            category_id: self.category_id,
        }
    }
}

/// The models of a sequence of entries, in order.
pub open spec fn models_of(v: Seq<DisplayEntry>) -> Seq<EntryModel> {
    Seq::new(v.len(), |i: int| v[i].model())
}

/// The models of a sequence of completions, in order.
pub open spec fn completion_models(v: Seq<Completion>) -> Seq<CompletionModel> {
    Seq::new(v.len(), |i: int| v[i].model())
}

/// Subtitle of an entry for a suggested correction of `word`.
pub open spec fn suggestion_subtitle(word: Seq<char>) -> Seq<char> {
    "🖉 Suggestion for '"@ + word + "'"@
}

/// Title of the entry for a misspelled word without suggestions.
pub open spec fn no_suggestion_title(word: Seq<char>) -> Seq<char> {
    "𐄂 No suggestions for '"@ + word + "'"@
}

/// The display entries one completion contributes: one for a correct word,
/// one per suggestion of a near miss (in the engine's order), one for a
/// misspelling without suggestions, and none for a line end.
pub open spec fn entries_of(c: CompletionModel) -> Seq<EntryModel> {
    match c {
        CompletionModel::Correct { word } => seq![
            EntryModel {
                title: word,
                subtitle: Some("✔ Correct"@),
                rich_text: true,
                category_id: Some(0u32),
            },
        ],
        CompletionModel::NearMiss { word, suggestions } => Seq::new(
            suggestions.len(),
            |i: int|
                EntryModel {
                    title: suggestions[i],
                    subtitle: Some(suggestion_subtitle(word)),
                    rich_text: true,
                    category_id: Some(1u32),
                },
        ),
        CompletionModel::Incorrect { word } => seq![
            EntryModel {
                title: no_suggestion_title(word),
                subtitle: None,
                rich_text: true,
                category_id: Some(2u32),
            },
        ],
        CompletionModel::LineEnd => Seq::empty(),
    }
}

/// The entries of a whole batch of completions, concatenated in order.
pub open spec fn entries_of_all(cs: Seq<CompletionModel>) -> Seq<EntryModel>
    decreases cs.len(),
{
    if cs.len() == 0 {
        Seq::empty()
    } else {
        entries_of(cs[0]) + entries_of_all(cs.skip(1))
    }
}

/// `s` truncated to at most `max` entries: exactly the prefix of size
/// `max`, or all of `s` when it is no longer than that.
pub open spec fn cap_entries(s: Seq<EntryModel>, max: int) -> Seq<EntryModel> {
    if s.len() <= max {
        s
    } else {
        s.take(max)
    }
}

/// Truncation never reorders: the result is never longer than `max` and
/// every entry it keeps is the entry of the untruncated sequence at the
/// same position.
pub proof fn lemma_truncation_keeps_prefix(s: Seq<EntryModel>, max: int)
    requires
        0 <= max,
    ensures
        cap_entries(s, max).len() <= max,
        cap_entries(s, max).len() == if s.len() <= max { s.len() as int } else { max },
        forall|i: int| 0 <= i < cap_entries(s, max).len() ==> cap_entries(s, max)[i] == s[i],
{
}

/// A near miss contributes one entry per suggestion, in the engine's order:
/// the entry at position `i` is titled with suggestion `i` and marked as a
/// suggestion row.
pub proof fn lemma_near_miss_order(word: Seq<char>, suggestions: Seq<Seq<char>>)
    ensures
        entries_of(CompletionModel::NearMiss { word, suggestions }).len() == suggestions.len(),
        forall|i: int|
            0 <= i < suggestions.len() ==> entries_of(
                CompletionModel::NearMiss { word, suggestions },
            )[i] == (EntryModel {
                title: suggestions[i],
                subtitle: Some(suggestion_subtitle(word)),
                rich_text: true,
                category_id: Some(1u32),
            }),
{
}

/// Splitting a batch anywhere splits its entries at the matching place.
pub proof fn lemma_entries_of_all_append(a: Seq<CompletionModel>, b: Seq<CompletionModel>)
    ensures
        entries_of_all(a + b) == entries_of_all(a) + entries_of_all(b),
    decreases a.len(),
{
    if a.len() == 0 {
        assert(a + b =~= b);
        assert(entries_of_all(a) + entries_of_all(b) =~= entries_of_all(b));
    } else {
        lemma_entries_of_all_append(a.skip(1), b);
        assert((a + b).skip(1) =~= a.skip(1) + b);
        assert((a + b)[0] == a[0]);
        assert(entries_of(a[0]) + (entries_of_all(a.skip(1)) + entries_of_all(b)) =~= (entries_of(
            a[0],
        ) + entries_of_all(a.skip(1))) + entries_of_all(b));
    }
}

/// Appending one completion appends its entries.
pub proof fn lemma_entries_of_all_push(cs: Seq<CompletionModel>, c: CompletionModel)
    ensures
        entries_of_all(cs.push(c)) == entries_of_all(cs) + entries_of(c),
{
    lemma_entries_of_all_append(cs, seq![c]);
    assert(cs.push(c) =~= cs + seq![c]);
    assert(seq![c].skip(1) =~= Seq::<CompletionModel>::empty());
    assert(seq![c][0] == c);
    assert(entries_of_all(Seq::<CompletionModel>::empty()) =~= Seq::<EntryModel>::empty());
    assert(entries_of_all(seq![c]) == entries_of(c) + entries_of_all(seq![c].skip(1)));
    assert(entries_of_all(seq![c]) =~= entries_of(c));
}

/// The display entries of one completion record.
fn completion_to_entries(c: &Completion) -> (v: Vec<DisplayEntry>)
    ensures
        models_of(v@) == entries_of(c.model()),
{
    match c {
        Completion::Correct { word } => {
            let mut v: Vec<DisplayEntry> = Vec::new();
            v.push(
                DisplayEntry {
                    title: word.clone(),
                    subtitle: Some(String::from_str("✔ Correct")),
                    rich_text: true,
                    category_id: Some(0),
                },
            );
            proof {
                assert(models_of(v@) =~~= entries_of(c.model()));
            }
            v
        },
        Completion::NearMiss { word, suggestions } => {
            let mut subtitle = String::from_str("🖉 Suggestion for '");
            subtitle.append(word.as_str());
            subtitle.append("'");
            let mut v: Vec<DisplayEntry> = Vec::new();
            let n = suggestions.len();
            let mut i: usize = 0;
            while i < n
                invariant
                    n == suggestions@.len(),
                    0 <= i <= n,
                    v@.len() == i,
                    subtitle@ == suggestion_subtitle(word@),
                    models_of(v@) =~~= entries_of(c.model()).take(i as int),
                    c matches Completion::NearMiss { word: w2, suggestions: s2 } && w2 == word
                        && s2 == suggestions,
                decreases n - i,
            {
                let ghost vprev = v@;
                let title = suggestions[i].clone();
                proof {
                    assert(title@ == suggestions@[i as int]@);
                }
                v.push(
                    DisplayEntry {
                        title,
                        subtitle: Some(subtitle.clone()),
                        rich_text: true,
                        category_id: Some(1),
                    },
                );
                proof {
                    let em = entries_of(c.model());
                    assert(c.model() matches CompletionModel::NearMiss { word: wv, suggestions: sv }
                        && wv == word@ && sv == suggestions.deep_view());
                    assert(suggestions.deep_view().len() == suggestions@.len());
                    assert(suggestions.deep_view()[i as int] == suggestions@[i as int]@);
                    assert(em.len() == suggestions.deep_view().len());
                    assert(em.len() == n);
                    assert(vprev.len() == i);
                    assert(v@.len() == i + 1);
                    assert forall|k: int| 0 <= k < i + 1 implies models_of(v@)[k] == em.take(i
                        + 1)[k] by {
                        if k < i {
                            assert(v@[k] == vprev[k]);
                            assert(models_of(vprev)[k] == vprev[k].model());
                            assert(models_of(vprev)[k] == em.take(i as int)[k]);
                        } else {
                            assert(em[k] == (EntryModel {
                                title: suggestions.deep_view()[k],
                                subtitle: Some(suggestion_subtitle(word@)),
                                rich_text: true,
                                category_id: Some(1u32),
                            }));
                            assert(v@[k].model() == em[k]);
                        }
                    }
                    assert(models_of(v@).len() == i + 1);
                    assert(models_of(v@) =~= em.take(i + 1));
                }
                i = i + 1;
            }
            proof {
                assert(entries_of(c.model()).take(n as int) =~~= entries_of(c.model()));
            }
            v
        },
        Completion::Incorrect { word } => {
            let mut title = String::from_str("𐄂 No suggestions for '");
            title.append(word.as_str());
            title.append("'");
            let mut v: Vec<DisplayEntry> = Vec::new();
            v.push(DisplayEntry { title, subtitle: None, rich_text: true, category_id: Some(2) });
            proof {
                assert(models_of(v@) =~~= entries_of(c.model()));
            }
            v
        },
        Completion::LineEnd => {
            let v: Vec<DisplayEntry> = Vec::new();
            proof {
                assert(models_of(v@) =~~= entries_of(c.model()));
            }
            v
        },
    }
}

/// Maps a batch of completions to display entries, concatenated in the
/// order the completions appeared, then truncated to at most `max_entries`
/// entries; truncation only ever drops the tail.
pub fn format_results(completions: Vec<Completion>, max_entries: u32) -> (v: Vec<DisplayEntry>)
    ensures
        v@.len() <= max_entries,
        models_of(v@) == cap_entries(
            entries_of_all(completion_models(completions@)),
            max_entries as int,
        ),
{
    let max = max_entries as usize;
    let mut out: Vec<DisplayEntry> = Vec::new();
    let ghost mut done: Seq<EntryModel> = Seq::empty();
    let n = completions.len();
    let mut i: usize = 0;
    proof {
        assert(models_of(out@) =~~= cap_entries(done, max as int));
        assert(completion_models(completions@.take(0)) =~= Seq::<CompletionModel>::empty());
    }
    while i < n
        invariant
            n == completions@.len(),
            0 <= i <= n,
            max == max_entries as usize,
            out@.len() <= max,
            done == entries_of_all(completion_models(completions@.take(i as int))),
            models_of(out@) == cap_entries(done, max as int),
        decreases n - i,
    {
        let mut es = completion_to_entries(&completions[i]);
        let ghost cm = completions@[i as int].model();
        let ghost es_full = entries_of(cm);
        proof {
            assert(es_full.skip(0) =~= es_full);
        }
        let mut j: usize = 0;
        let m = es.len();
        while j < m
            invariant
                m == es_full.len(),
                0 <= j <= m,
                models_of(es@) == es_full.skip(j as int),
                es@.len() == m - j,
                max == max_entries as usize,
                out@.len() <= max,
                done == entries_of_all(completion_models(completions@.take(i as int)))
                    + es_full.take(j as int),
                models_of(out@) == cap_entries(done, max as int),
            decreases m - j,
        {
            let ghost prev = es@;
            let ghost outprev = out@;
            let e = es.remove(0);
            proof {
                assert(e == prev[0]);
                assert(models_of(prev)[0] == prev[0].model());
                assert(es_full.skip(j as int)[0] == es_full[j as int]);
                assert(e.model() == es_full[j as int]);
                assert forall|k: int| 0 <= k < es@.len() implies models_of(es@)[k] == es_full.skip(
                    j + 1,
                )[k] by {
                    assert(es@[k] == prev[k + 1]);
                    assert(models_of(prev)[k + 1] == prev[k + 1].model());
                    assert(models_of(prev)[k + 1] == es_full.skip(j as int)[k + 1]);
                    assert(es_full.skip(j as int)[k + 1] == es_full[j + 1 + k]);
                    assert(es_full.skip(j + 1)[k] == es_full[j + 1 + k]);
                }
                assert(models_of(es@).len() == es@.len());
                assert(models_of(es@) =~= es_full.skip(j + 1));
            }
            let room = out.len() < max;
            if room {
                out.push(e);
            }
            proof {
                let em = es_full[j as int];
                let done_old = done;
                done = done.push(em);
                assert(es_full.take(j + 1) =~= es_full.take(j as int).push(em));
                assert(done =~= entries_of_all(completion_models(completions@.take(i as int)))
                    + es_full.take(j + 1));
                if room {
                    assert(out@ == outprev.push(e));
                    assert(models_of(outprev).len() == outprev.len());
                    assert(outprev.len() < max);
                    assert(cap_entries(done_old, max as int).len() == outprev.len());
                    assert(done_old.len() == outprev.len());
                    assert(cap_entries(done, max as int) == done);
                    assert forall|k: int| 0 <= k < out@.len() implies models_of(out@)[k]
                        == done[k] by {
                        if k < outprev.len() {
                            assert(out@[k] == outprev[k]);
                            assert(models_of(outprev)[k] == outprev[k].model());
                            assert(cap_entries(done_old, max as int) == done_old);
                            assert(done[k] == done_old[k]);
                        } else {
                            assert(out@[k] == e);
                            assert(done[k] == em);
                        }
                    }
                    assert(models_of(out@).len() == done.len());
                    assert(models_of(out@) =~= cap_entries(done, max as int));
                } else {
                    assert(out@ == outprev);
                    assert(out@.len() == max);
                    assert(cap_entries(done_old, max as int).len() == max);
                    assert(done_old.len() >= max);
                    assert forall|k: int| 0 <= k < max implies cap_entries(done, max as int)[k]
                        == cap_entries(done_old, max as int)[k] by {
                        assert(done[k] == done_old[k]);
                    }
                    assert(cap_entries(done, max as int).len() == max);
                    assert(cap_entries(done, max as int) =~= cap_entries(done_old, max as int));
                    assert(models_of(out@) == cap_entries(done, max as int));
                }
            }
            j = j + 1;
        }
        proof {
            assert(es_full.take(m as int) =~= es_full);
            lemma_entries_of_all_push(completion_models(completions@.take(i as int)), cm);
            assert(completion_models(completions@.take(i + 1)) =~= completion_models(
                completions@.take(i as int),
            ).push(cm));
        }
        i = i + 1;
    }
    proof {
        assert(completions@.take(n as int) =~= completions@);
    }
    out
}

} // verus!
