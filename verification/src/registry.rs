//! The dictionary registry: the set of installed dictionary identifiers and
//! the alias table, with alias resolution and membership tests.

use vstd::prelude::*;
use vstd::string::StrSliceExecFns;
use crate::config::Alias;
use crate::text::str_eq;

verus! {

/// `d` is one of the identifiers in `known`.
pub open spec fn known_contains(known: Seq<String>, d: Seq<char>) -> bool {
    exists|i: int| 0 <= i < known.len() && #[trigger] known[i]@ == d
}

/// The dictionary the alias table maps `name` to, if any. When a name is
/// listed twice, the later entry wins, as it would in a map built from the
/// list.
pub open spec fn alias_lookup(aliases: Seq<Alias>, name: Seq<char>) -> Option<Seq<char>>
    decreases aliases.len(),
{
    if aliases.len() == 0 {
        None
    } else if aliases.last().name@ == name {
        Some(aliases.last().dictionary@)
    } else {
        alias_lookup(aliases.drop_last(), name)
    }
}

/// An alias is kept only when the dictionary it points to is installed.
pub open spec fn alias_kept(known: Seq<String>, a: Alias) -> bool {
    known_contains(known, a.dictionary@)
}

/// The alias table restricted to aliases whose target is installed, in
/// their original order.
pub open spec fn filter_aliases(known: Seq<String>, aliases: Seq<Alias>) -> Seq<Alias> {
    aliases.filter(|a: Alias| alias_kept(known, a))
}

/// The set of installed dictionary identifiers plus the alias table.
/// Read-only for the lifetime of a session.
pub struct DictionaryRegistry {
    /// Identifiers of the installed dictionaries.
    pub known: Vec<String>,
    /// Usable aliases: each points at an installed dictionary.
    pub aliases: Vec<Alias>,
}

impl DictionaryRegistry {
    /// The identifier `token` resolves to: what the alias table maps it to,
    /// or `token` itself when no alias matches.
    pub open spec fn spec_resolve(self, token: Seq<char>) -> Seq<char> {
        match alias_lookup(self.aliases@, token) {
            Some(d) => d,
            None => token,
        }
    }

    /// `d` names an installed dictionary.
    pub open spec fn spec_is_known(self, d: Seq<char>) -> bool {
        known_contains(self.known@, d)
    }

    /// Builds the registry, dropping every alias whose target dictionary is
    /// not installed.
    pub fn new(known: Vec<String>, aliases: Vec<Alias>) -> (r: Self)
        ensures
            r.known == known,
            r.aliases@ == filter_aliases(known@, aliases@),
    {
        let ghost pred = |a: Alias| alias_kept(known@, a);
        let mut kept: Vec<Alias> = Vec::new();
        let n = aliases.len();
        let mut i: usize = 0;
        while i < n
            invariant
                n == aliases@.len(),
                0 <= i <= n,
                kept@ == aliases@.take(i as int).filter(pred),
                pred == (|a: Alias| alias_kept(known@, a)),
            decreases n - i,
        {
            proof {
                reveal(Seq::filter);
                assert(aliases@.take(i + 1).drop_last() =~= aliases@.take(i as int));
                assert(aliases@.take(i + 1).last() == aliases@[i as int]);
            }
            let a = &aliases[i];
            if contains_str(&known, a.dictionary.as_str()) {
                kept.push(Alias { name: a.name.clone(), dictionary: a.dictionary.clone() });
            }
            i = i + 1;
        }
        proof {
            assert(aliases@.take(n as int) =~= aliases@);
        }
        DictionaryRegistry { known, aliases: kept }
    }

    /// Alias resolution: the alias table's entry for `token`, scanned so
    /// that the latest matching entry wins, or `token` itself.
    pub fn resolve<'a>(&'a self, token: &'a str) -> (r: &'a str)
        ensures
            r@ == self.spec_resolve(token@),
    {
        let n = self.aliases.len();
        proof {
            assert(self.aliases@.take(n as int) =~= self.aliases@);
        }
        let mut i: usize = n;
        while i > 0
            invariant
                n == self.aliases@.len(),
                0 <= i <= n,
                alias_lookup(self.aliases@, token@) == alias_lookup(
                    self.aliases@.take(i as int),
                    token@,
                ),
            decreases i,
        {
            proof {
                assert(self.aliases@.take(i as int).drop_last() =~= self.aliases@.take(i - 1));
                assert(self.aliases@.take(i as int).last() == self.aliases@[i - 1]);
            }
            i = i - 1;
            let a = &self.aliases[i];
            if str_eq(a.name.as_str(), token) {
                return a.dictionary.as_str();
            }
        }
        token
    }

    /// Membership of `d` in the installed set.
    pub fn is_known(&self, d: &str) -> (r: bool)
        ensures
            r == self.spec_is_known(d@),
    {
        contains_str(&self.known, d)
    }
}

/// A line reports an installed dictionary when it is a path: it starts
/// with a slash.
pub open spec fn is_path_line(line: Seq<char>) -> bool {
    line.len() > 0 && line[0] == '/'
}

/// How many leading lines of `lines` are path lines.
pub open spec fn path_run_len(lines: Seq<Seq<char>>) -> int
    decreases lines.len(),
{
    if lines.len() == 0 {
        0
    } else if is_path_line(lines[0]) {
        1 + path_run_len(lines.skip(1))
    } else {
        0
    }
}

pub proof fn lemma_path_run_len(lines: Seq<Seq<char>>)
    ensures
        0 <= path_run_len(lines) <= lines.len(),
        forall|j: int| 0 <= j < path_run_len(lines) ==> is_path_line(#[trigger] lines[j]),
        path_run_len(lines) < lines.len() ==> !is_path_line(lines[path_run_len(lines)]),
    decreases lines.len(),
{
    if lines.len() == 0 {
    } else if is_path_line(lines[0]) {
        lemma_path_run_len(lines.skip(1));
        assert forall|j: int| 0 <= j < path_run_len(lines) implies is_path_line(
            #[trigger] lines[j],
        ) by {
            if j >= 1 {
                assert(lines.skip(1)[j - 1] == lines[j]);
            }
        }
        if path_run_len(lines) < lines.len() {
            assert(lines.skip(1)[path_run_len(lines) - 1] == lines[path_run_len(lines)]);
        }
    } else {
    }
}

/// The dictionary name a path line reports: what follows the last slash,
/// or the whole line when it has none.
pub open spec fn dict_name_of(line: Seq<char>) -> Seq<char> {
    if crate::text::rfind_char(line, '/') >= 0 {
        line.skip(crate::text::rfind_char(line, '/') + 1)
    } else {
        line
    }
}

/// The dictionary names reported by one run of the engine's listing
/// output: after three header lines, one name per leading path line.
pub open spec fn spec_dictionary_listing(out: Seq<char>) -> Seq<Seq<char>> {
    let lines = crate::text::spec_lines(out);
    if lines.len() <= 3 {
        Seq::empty()
    } else {
        let rest = lines.skip(3);
        Seq::new(path_run_len(rest) as nat, |i: int| dict_name_of(rest[i]))
    }
}

/// Extracts the installed dictionary names from the engine's listing
/// output: three header lines are skipped, then each line up to the first
/// non-path line contributes the name after its last slash.
pub fn parse_dictionary_listing(output: &str) -> (r: Vec<String>)
    ensures
        r.deep_view() == spec_dictionary_listing(output@),
{
    let lines = crate::text::split_lines(output);
    let mut r: Vec<String> = Vec::new();
    if lines.len() <= 3 {
        proof {
            assert(r.deep_view() =~~= spec_dictionary_listing(output@));
        }
        return r;
    }
    let ghost rest = lines.deep_view().skip(3);
    proof {
        lemma_path_run_len(rest);
    }
    let n = lines.len();
    let mut i: usize = 3;
    while i < n
        invariant
            n == lines@.len(),
            3 <= i <= n,
            rest == lines.deep_view().skip(3),
            lines.deep_view() == crate::text::spec_lines(output@),
            lines.deep_view().len() == n,
            forall|j: int| 0 <= j < i - 3 ==> is_path_line(#[trigger] rest[j]),
            r.deep_view() == Seq::new((i - 3) as nat, |k: int| dict_name_of(rest[k])),
        decreases n - i,
    {
        let line = &lines[i];
        let ln = line.as_str().unicode_len();
        proof {
            assert(rest[i - 3] == lines.deep_view()[i as int]);
            assert(lines.deep_view()[i as int] == lines@[i as int]@);
        }
        if !(ln > 0 && line.as_str().get_char(0) == '/') {
            proof {
                lemma_path_run_len(rest);
                assert(!is_path_line(rest[i - 3]));
                assert(path_run_len(rest) == i - 3);
                assert(spec_dictionary_listing(output@) =~~= Seq::new(
                    path_run_len(rest) as nat,
                    |k: int| dict_name_of(rest[k]),
                ));
                assert(r.deep_view() =~~= spec_dictionary_listing(output@));
            }
            return r;
        }
        proof {
            crate::text::lemma_rfind_char(line@, '/');
        }
        let name = match crate::text::str_rfind_char(line.as_str(), '/') {
            Some(p) => line.as_str().substring_char(p + 1, ln).to_owned(),
            None => line.clone(),
        };
        proof {
            assert(name@ == dict_name_of(rest[i - 3]));
        }
        let ghost odv = r.deep_view();
        let ghost rprev = r@;
        r.push(name);
        proof {
            assert(odv.len() == rprev.len());
            assert(odv.len() == (i - 3) as nat);
            assert(r@ == rprev.push(name));
            assert(r@.len() == i + 1 - 3);
            assert forall|k: int| 0 <= k < i + 1 - 3 implies #[trigger] r.deep_view()[k]
                == dict_name_of(rest[k]) by {
                assert(r.deep_view()[k] == r@[k]@);
                if k < i - 3 {
                    assert(r@[k] == rprev[k]);
                    assert(odv[k] == rprev[k]@);
                } else {
                    assert(r@[k] == name);
                }
            }
            assert(r.deep_view() =~~= Seq::new((i + 1 - 3) as nat, |k: int| dict_name_of(rest[k])));
        }
        i = i + 1;
    }
    proof {
        lemma_path_run_len(rest);
        assert(path_run_len(rest) == n - 3);
        assert(spec_dictionary_listing(output@) =~~= Seq::new(
            path_run_len(rest) as nat,
            |k: int| dict_name_of(rest[k]),
        ));
        assert(r.deep_view() =~~= spec_dictionary_listing(output@));
    }
    r
}

/// Membership of `d` in a list of identifiers.
pub fn contains_str(known: &Vec<String>, d: &str) -> (r: bool)
    ensures
        r == known_contains(known@, d@),
{
    let n = known.len();
    let mut i: usize = 0;
    while i < n
        invariant
            n == known@.len(),
            0 <= i <= n,
            forall|j: int| 0 <= j < i ==> known@[j]@ != d@,
        decreases n - i,
    {
        if str_eq(known[i].as_str(), d) {
            return true;
        }
        i = i + 1;
    }
    false
}

} // verus!
