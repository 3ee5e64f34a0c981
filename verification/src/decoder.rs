//! The protocol decoder: classifies one line of the spell-checking engine's
//! interactive-mode output into a completion record. Lines that match no
//! known shape, or match a shape but lack its delimiter, are dropped, never
//! an error: one malformed line must not poison the batch.

use vstd::prelude::*;
use vstd::string::StrSliceExecFns;
use crate::text::{
    find_pair, find_space, is_space, lemma_find_pair, lemma_find_space, lemma_rfind_space,
    rfind_space, space_run_start, str_find_pair, str_find_space, str_rfind_space,
    str_space_run_start,
};

verus! {

/// One decoded line of engine output.
pub enum Completion {
    /// The word is spelled correctly (root form, compound, or affix
    /// analysis).
    Correct { word: String },
    /// The word is misspelled and the engine offers corrections, in the
    /// engine's own order, which is significant.
    NearMiss { word: String, suggestions: Vec<String> },
    /// The word is misspelled and the engine offers nothing.
    Incorrect { word: String },
    /// A blank line: the end of one input line's results.
    LineEnd,
}

/// The mathematical shape of a completion record.
pub enum CompletionModel {
    Correct { word: Seq<char> },
    NearMiss { word: Seq<char>, suggestions: Seq<Seq<char>> },
    Incorrect { word: Seq<char> },
    LineEnd,
}

impl Completion {
    /// The model this record stands for.
    pub open spec fn model(self) -> CompletionModel {
        match self {
            Completion::Correct { word } => CompletionModel::Correct { word: word@ },
            Completion::NearMiss { word, suggestions } => CompletionModel::NearMiss {
                word: word@,
                suggestions: suggestions.deep_view(),
            },
            Completion::Incorrect { word } => CompletionModel::Incorrect { word: word@ },
            Completion::LineEnd => CompletionModel::LineEnd,
        }
    }
}

/// The model of an optional record: dropped lines have none.
pub open spec fn model_of(r: Option<Completion>) -> Option<CompletionModel> {
    match r {
        Some(c) => Some(c.model()),
        None => None,
    }
}

/// The line opens with marker character `c` followed by one space.
pub open spec fn tagged(line: Seq<char>, c: char) -> bool {
    line.len() >= 2 && line[0] == c && line[1] == ' '
}

/// A `+ ` line reads `<word> <root>`: the word is what stands before the
/// last whitespace run. Without any whitespace the line is malformed and
/// dropped.
pub open spec fn decode_plus(rest: Seq<char>) -> Option<CompletionModel> {
    let ls = rfind_space(rest);
    if ls < 0 {
        None
    } else {
        Some(CompletionModel::Correct { word: rest.take(space_run_start(rest, ls)) })
    }
}

/// A `# ` line reads `<word> <offset>`: the word is what stands before the
/// first whitespace. Without any whitespace the line is malformed and
/// dropped.
pub open spec fn decode_sharp(rest: Seq<char>) -> Option<CompletionModel> {
    if find_space(rest) == rest.len() {
        None
    } else {
        Some(CompletionModel::Incorrect { word: rest.take(find_space(rest)) })
    }
}

/// The suggestion list split on `", "`, in order. The list is never empty;
/// a part between two delimiters may be the empty string.
pub open spec fn split_suggestions(s: Seq<char>) -> Seq<Seq<char>>
    decreases s.len(),
    via split_suggestions_decreases
{
    let k = find_pair(s, ',', ' ');
    if k == s.len() {
        seq![s]
    } else {
        seq![s.take(k)] + split_suggestions(s.skip(k + 2))
    }
}

#[via_fn]
proof fn split_suggestions_decreases(s: Seq<char>) {
    lemma_find_pair(s, ',', ' ');
}

/// A `& ` line reads `<word> <count> <offset>: <s1>, <s2>, ...`: split once
/// on the first `": "` into the info part and the suggestion list; the word
/// is the info part with its two trailing whitespace-delimited fields
/// removed. A line without the `": "` delimiter, or whose info part has
/// fewer than three fields, is malformed and dropped.
pub open spec fn decode_amp(rest: Seq<char>) -> Option<CompletionModel> {
    let k = find_pair(rest, ':', ' ');
    if k == rest.len() {
        None
    } else {
        let info = rest.take(k);
        let suggestion_part = rest.skip(k + 2);
        let ls1 = rfind_space(info);
        if ls1 < 0 {
            None
        } else {
            let before = info.take(space_run_start(info, ls1));
            let ls2 = rfind_space(before);
            if ls2 < 0 {
                None
            } else {
                Some(
                    CompletionModel::NearMiss {
                        word: before.take(space_run_start(before, ls2)),
                        suggestions: split_suggestions(suggestion_part),
                    },
                )
            }
        }
    }
}

/// The grammar of one engine output line, checked in order, first match
/// wins: `* ` and `- ` mark a correct word, `+ ` a word correct via affix
/// analysis, `& ` a misspelling with suggestions, `# ` a misspelling
/// without, and an empty line ends one input line's results. Anything else
/// is dropped.
pub open spec fn decode_model(line: Seq<char>) -> Option<CompletionModel> {
    if tagged(line, '*') || tagged(line, '-') {
        Some(CompletionModel::Correct { word: line.skip(2) })
    } else if tagged(line, '+') {
        decode_plus(line.skip(2))
    } else if tagged(line, '&') {
        decode_amp(line.skip(2))
    } else if tagged(line, '#') {
        decode_sharp(line.skip(2))
    } else if line.len() == 0 {
        Some(CompletionModel::LineEnd)
    } else {
        None
    }
}

/// A suggestion list joined with `", "`, the inverse shape of
/// [`split_suggestions`].
pub open spec fn join_suggestions(suggs: Seq<Seq<char>>) -> Seq<char>
    decreases suggs.len(),
{
    if suggs.len() == 0 {
        Seq::empty()
    } else if suggs.len() == 1 {
        suggs[0]
    } else {
        suggs[0] + seq![',', ' '] + join_suggestions(suggs.skip(1))
    }
}

/// `s` holds no `", "` delimiter anywhere.
pub open spec fn delimiter_free(s: Seq<char>) -> bool {
    forall|j: int| 0 <= j && j + 1 < s.len() ==> !(#[trigger] s[j] == ',' && s[j + 1] == ' ')
}

/// Splitting undoes joining: a non-empty suggestion list, none of whose
/// entries holds the `", "` delimiter, is recovered exactly from its
/// joined form.
pub proof fn lemma_split_join_suggestions(suggs: Seq<Seq<char>>)
    requires
        suggs.len() >= 1,
        forall|i: int| 0 <= i < suggs.len() ==> delimiter_free(#[trigger] suggs[i]),
    ensures
        split_suggestions(join_suggestions(suggs)) == suggs,
    decreases suggs.len(),
{
    let s = join_suggestions(suggs);
    lemma_find_pair(s, ',', ' ');
    if suggs.len() == 1 {
        assert(delimiter_free(suggs[0]));
        assert(find_pair(s, ',', ' ') == s.len()) by {
            if find_pair(s, ',', ' ') < s.len() {
                assert(s[find_pair(s, ',', ' ')] == ',' && s[find_pair(s, ',', ' ') + 1] == ' ');
            }
        }
        assert(split_suggestions(s) =~~= suggs);
    } else {
        let head = suggs[0];
        let tail = join_suggestions(suggs.skip(1));
        let hl = head.len() as int;
        assert(s == head + seq![',', ' '] + tail);
        assert(s[hl] == ',' && s[hl + 1] == ' ');
        assert(find_pair(s, ',', ' ') == hl) by {
            if find_pair(s, ',', ' ') > hl {
                assert(!(s[hl] == ',' && s[hl + 1] == ' '));
            }
            if find_pair(s, ',', ' ') < hl {
                let k = find_pair(s, ',', ' ');
                assert(s[k] == ',' && s[k + 1] == ' ');
                if k + 1 < hl {
                    assert(head[k] == ',' && head[k + 1] == ' ');
                    assert(delimiter_free(suggs[0]));
                } else {
                    assert(s[k + 1] == ',');
                }
            }
        }
        assert(s.take(hl) =~= head);
        assert(s.skip(hl + 2) =~= tail);
        lemma_split_join_suggestions(suggs.skip(1));
        assert(split_suggestions(s) == seq![head] + suggs.skip(1));
        assert(seq![head] + suggs.skip(1) =~= suggs);
    }
}

/// A line built as `* <word>` (or `- <word>`) decodes to exactly that
/// correct word, whatever the word holds.
pub proof fn lemma_decode_correct_line(marker: char, word: Seq<char>)
    requires
        marker == '*' || marker == '-',
    ensures
        decode_model(seq![marker, ' '] + word) == Some(
            CompletionModel::Correct { word: word },
        ),
{
    let line = seq![marker, ' '] + word;
    assert(line[0] == marker && line[1] == ' ');
    assert(line.skip(2) =~= word);
}

/// A line built as `+ <word> <root>` decodes to that word as correct,
/// provided the root holds no whitespace and the word does not end in
/// whitespace.
pub proof fn lemma_decode_plus_line(word: Seq<char>, root: Seq<char>)
    requires
        forall|j: int| 0 <= j < root.len() ==> !is_space(#[trigger] root[j]),
        word.len() > 0 ==> !is_space(word.last()),
    ensures
        decode_model(seq!['+', ' '] + word + seq![' '] + root) == Some(
            CompletionModel::Correct { word: word },
        ),
{
    let line = seq!['+', ' '] + word + seq![' '] + root;
    let rest = word + seq![' '] + root;
    assert(line[0] == '+' && line[1] == ' ');
    assert(line[0] != '*' && line[0] != '-');
    assert(line.skip(2) =~= rest);
    let wl = word.len() as int;
    assert(rest[wl] == ' ');
    lemma_rfind_space(rest);
    assert(rfind_space(rest) == wl) by {
        if rfind_space(rest) < wl {
            assert(!is_space(rest[wl]));
        }
        if rfind_space(rest) > wl {
            let k = rfind_space(rest);
            assert(is_space(rest[k]));
            assert(rest[k] == root[k - wl - 1]);
        }
    }
    assert(space_run_start(rest, wl) == wl) by {
        if wl > 0 {
            assert(rest[wl - 1] == word.last());
        }
    }
    assert(rest.take(wl) =~= word);
}

/// A line built as `# <word> <offset>` decodes to that word as incorrect
/// without suggestions, provided the word holds no whitespace.
pub proof fn lemma_decode_sharp_line(word: Seq<char>, offset: Seq<char>)
    requires
        forall|j: int| 0 <= j < word.len() ==> !is_space(#[trigger] word[j]),
    ensures
        decode_model(seq!['#', ' '] + word + seq![' '] + offset) == Some(
            CompletionModel::Incorrect { word: word },
        ),
{
    let line = seq!['#', ' '] + word + seq![' '] + offset;
    let rest = word + seq![' '] + offset;
    assert(line[0] == '#' && line[1] == ' ');
    assert(line[0] != '*' && line[0] != '-' && line[0] != '+' && line[0] != '&');
    assert(line.skip(2) =~= rest);
    let wl = word.len() as int;
    assert(rest[wl] == ' ');
    assert(is_space(rest[wl]));
    lemma_find_space(rest);
    assert(find_space(rest) == wl) by {
        if find_space(rest) < wl {
            assert(!is_space(rest[find_space(rest)]));
            assert(rest[find_space(rest)] == word[find_space(rest)]);
        }
        if find_space(rest) > wl {
            assert(!is_space(rest[wl]));
        }
    }
    assert(rest.take(wl) =~= word);
}

/// An empty line decodes to the end-of-results sentinel.
pub proof fn lemma_decode_empty_line()
    ensures
        decode_model(Seq::empty()) == Some(CompletionModel::LineEnd),
{
}

/// A `& ` line missing its `": "` delimiter is dropped, whatever else it
/// holds.
pub proof fn lemma_decode_amp_missing_delimiter(rest: Seq<char>)
    requires
        forall|j: int| 0 <= j < rest.len() ==> #[trigger] rest[j] != ':',
    ensures
        decode_model(seq!['&', ' '] + rest) is None,
{
    let line = seq!['&', ' '] + rest;
    assert(line[0] == '&' && line[1] == ' ');
    assert(line[0] != '*' && line[0] != '-' && line[0] != '+');
    assert(line.skip(2) =~= rest);
    lemma_find_pair(rest, ':', ' ');
    assert(find_pair(rest, ':', ' ') == rest.len()) by {
        if find_pair(rest, ':', ' ') < rest.len() {
            assert(rest[find_pair(rest, ':', ' ')] == ':');
        }
    }
}

/// A line built as `& <word> <count> <offset>: <s1>, <s2>, ...` decodes to
/// exactly that near miss, with the suggestions in their given order,
/// provided the count and offset are single whitespace-free fields, no
/// colon occurs before the delimiter, the word does not end in whitespace,
/// the suggestion list is non-empty, and no suggestion holds the `", "`
/// delimiter.
pub proof fn lemma_decode_near_miss_line(
    word: Seq<char>,
    count: Seq<char>,
    offset: Seq<char>,
    suggs: Seq<Seq<char>>,
)
    requires
        forall|j: int| 0 <= j < word.len() ==> #[trigger] word[j] != ':',
        forall|j: int|
            0 <= j < count.len() ==> !is_space(#[trigger] count[j]) && count[j] != ':',
        forall|j: int|
            0 <= j < offset.len() ==> !is_space(#[trigger] offset[j]) && offset[j] != ':',
        count.len() > 0,
        offset.len() > 0,
        word.len() > 0 ==> !is_space(word.last()),
        suggs.len() >= 1,
        forall|i: int| 0 <= i < suggs.len() ==> delimiter_free(#[trigger] suggs[i]),
    ensures
        decode_model(
            seq!['&', ' '] + word + seq![' '] + count + seq![' '] + offset + seq![':', ' ']
                + join_suggestions(suggs),
        ) == Some(CompletionModel::NearMiss { word: word, suggestions: suggs }),
{
    let joined = join_suggestions(suggs);
    let info = word + seq![' '] + count + seq![' '] + offset;
    let rest = info + seq![':', ' '] + joined;
    let line = seq!['&', ' '] + rest;
    assert(seq!['&', ' '] + word + seq![' '] + count + seq![' '] + offset + seq![':', ' ']
        + joined =~= line);
    assert(line[0] == '&' && line[1] == ' ');
    assert(line[0] != '*' && line[0] != '-' && line[0] != '+');
    assert(line.skip(2) =~= rest);
    let il = info.len() as int;
    let wl = word.len() as int;
    let cl = count.len() as int;
    assert(rest[il] == ':' && rest[il + 1] == ' ');
    lemma_find_pair(rest, ':', ' ');
    assert(find_pair(rest, ':', ' ') == il) by {
        if find_pair(rest, ':', ' ') > il {
            assert(!(rest[il] == ':' && rest[il + 1] == ' '));
        }
        if find_pair(rest, ':', ' ') < il {
            let k = find_pair(rest, ':', ' ');
            assert(rest[k] == ':');
            assert(info[k] == rest[k]);
            if k < wl {
                assert(word[k] != ':');
            } else if k == wl {
                assert(info[k] == ' ');
            } else if k < wl + 1 + cl {
                assert(count[k - wl - 1] != ':');
            } else if k == wl + 1 + cl {
                assert(info[k] == ' ');
            } else {
                assert(offset[k - wl - cl - 2] != ':');
            }
        }
    }
    assert(rest.take(il) =~= info);
    assert(rest.skip(il + 2) =~= joined);
    // The last whitespace of the info part ends the count field.
    lemma_rfind_space(info);
    let sp2 = wl + 1 + cl;
    assert(info[sp2] == ' ');
    assert(rfind_space(info) == sp2) by {
        if rfind_space(info) < sp2 {
            assert(!is_space(info[sp2]));
        }
        if rfind_space(info) > sp2 {
            let k = rfind_space(info);
            assert(is_space(info[k]));
            assert(info[k] == offset[k - sp2 - 1]);
        }
    }
    assert(space_run_start(info, sp2) == sp2) by {
        assert(info[sp2 - 1] == count.last());
        assert(!is_space(info[sp2 - 1]));
    }
    let before = info.take(sp2);
    assert(before =~= word + seq![' '] + count);
    lemma_rfind_space(before);
    assert(before[wl] == ' ');
    assert(rfind_space(before) == wl) by {
        if rfind_space(before) < wl {
            assert(!is_space(before[wl]));
        }
        if rfind_space(before) > wl {
            let k = rfind_space(before);
            assert(is_space(before[k]));
            assert(before[k] == count[k - wl - 1]);
        }
    }
    assert(space_run_start(before, wl) == wl) by {
        if wl > 0 {
            assert(before[wl - 1] == word.last());
        }
    }
    assert(before.take(wl) =~= word);
    lemma_split_join_suggestions(suggs);
}

/// Splits a suggestion list on `", "`, preserving order.
fn split_suggestions_exec(s: &str) -> (r: Vec<String>)
    ensures
        r.deep_view() == split_suggestions(s@),
    decreases s@.len(),
{
    let n = s.unicode_len();
    let k = str_find_pair(s, ',', ' ');
    if k == n {
        let mut out: Vec<String> = Vec::new();
        out.push(s.to_owned());
        proof {
            assert(out.deep_view() =~~= split_suggestions(s@));
        }
        out
    } else {
        proof {
            lemma_find_pair(s@, ',', ' ');
        }
        let head = s.substring_char(0, k);
        let mut tail = split_suggestions_exec(s.substring_char(k + 2, n));
        let mut out: Vec<String> = Vec::new();
        out.push(head.to_owned());
        out.append(&mut tail);
        proof {
            assert(s@.subrange(0, k as int) =~= s@.take(k as int));
            assert(s@.subrange(k + 2, n as int) =~= s@.skip(k + 2));
            assert(out.deep_view() =~~= split_suggestions(s@));
        }
        out
    }
}

/// Decodes a `& ` line's remainder into a near-miss record, or `None` when
/// it is malformed.
fn decode_near_miss(rest: &str) -> (r: Option<Completion>)
    ensures
        model_of(r) == decode_amp(rest@),
{
    let n = rest.unicode_len();
    let k = str_find_pair(rest, ':', ' ');
    if k == n {
        return None;
    }
    proof {
        lemma_find_pair(rest@, ':', ' ');
    }
    let info = rest.substring_char(0, k);
    let suggestion_part = rest.substring_char(k + 2, n);
    proof {
        assert(info@ =~= rest@.take(k as int));
        assert(suggestion_part@ =~= rest@.skip(k + 2));
    }
    match str_rfind_space(info) {
        None => None,
        Some(ls1) => {
            proof {
                lemma_rfind_space(info@);
            }
            let j1 = str_space_run_start(info, ls1);
            let before = info.substring_char(0, j1);
            proof {
                assert(before@ =~= info@.take(j1 as int));
            }
            match str_rfind_space(before) {
                None => None,
                Some(ls2) => {
                    proof {
                        lemma_rfind_space(before@);
                    }
                    let j2 = str_space_run_start(before, ls2);
                    let word = before.substring_char(0, j2).to_owned();
                    let suggestions = split_suggestions_exec(suggestion_part);
                    proof {
                        assert(word@ =~= before@.take(j2 as int));
                    }
                    Some(Completion::NearMiss { word, suggestions })
                },
            }
        },
    }
}

/// Decodes one line of engine output, or `None` for a line that is to be
/// dropped.
pub fn decode_line(line: &str) -> (r: Option<Completion>)
    ensures
        model_of(r) == decode_model(line@),
{
    let n = line.unicode_len();
    if n == 0 {
        return Some(Completion::LineEnd);
    }
    if n < 2 {
        return None;
    }
    let c0 = line.get_char(0);
    let c1 = line.get_char(1);
    if (c0 == '*' || c0 == '-') && c1 == ' ' {
        let word = line.substring_char(2, n).to_owned();
        proof {
            assert(word@ =~= line@.skip(2));
        }
        Some(Completion::Correct { word })
    } else if c0 == '+' && c1 == ' ' {
        let rest = line.substring_char(2, n);
        proof {
            assert(rest@ =~= line@.skip(2));
        }
        match str_rfind_space(rest) {
            None => None,
            Some(ls) => {
                proof {
                    lemma_rfind_space(rest@);
                }
                let j = str_space_run_start(rest, ls);
                let word = rest.substring_char(0, j).to_owned();
                proof {
                    assert(word@ =~= rest@.take(j as int));
                }
                Some(Completion::Correct { word })
            },
        }
    } else if c0 == '&' && c1 == ' ' {
        let rest = line.substring_char(2, n);
        proof {
            assert(rest@ =~= line@.skip(2));
        }
        decode_near_miss(rest)
    } else if c0 == '#' && c1 == ' ' {
        let rest = line.substring_char(2, n);
        proof {
            assert(rest@ =~= line@.skip(2));
        }
        let m = rest.unicode_len();
        let fs = str_find_space(rest);
        if fs == m {
            None
        } else {
            proof {
                lemma_find_space(rest@);
            }
            let word = rest.substring_char(0, fs).to_owned();
            proof {
                assert(word@ =~= rest@.take(find_space(rest@)));
            }
            Some(Completion::Incorrect { word })
        }
    } else {
        None
    }
}

} // verus!
