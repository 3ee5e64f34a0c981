//! The incremental query parser: splits a raw input into a language token
//! and body text, tracking whether the language token is finished.

use vstd::prelude::*;
use vstd::string::StrSliceExecFns;
use crate::text::{
    find_space, is_space, is_space_char, spec_trim, starts_with, str_find_space, str_starts_with,
    str_trim,
};

verus! {

/// One user input event, split into its parts. Created per input; never
/// stored.
pub struct Query {
    /// The language tag as typed, or the configured default.
    pub language_token: String,
    /// The text to be spell-checked, as typed (not yet trimmed).
    pub body_text: String,
    /// Whether the language tag was finished by whitespace.
    pub language_terminated: bool,
}

/// The language token of `rest` (the raw input with the prefix stripped):
/// with a leading `:` marker, everything up to the first whitespace; without
/// one, the configured default language.
pub open spec fn spec_language_token(rest: Seq<char>, default_language: Seq<char>) -> Seq<char> {
    if rest.len() > 0 && rest[0] == ':' {
        let stripped = rest.skip(1);
        stripped.take(find_space(stripped))
    } else {
        default_language
    }
}

/// The body text of `rest`: with a leading `:` marker, everything after the
/// first whitespace (empty when there is none); without one, the whole rest
/// trimmed.
pub open spec fn spec_body_text(rest: Seq<char>) -> Seq<char> {
    if rest.len() > 0 && rest[0] == ':' {
        let stripped = rest.skip(1);
        if find_space(stripped) == stripped.len() {
            Seq::empty()
        } else {
            stripped.skip(find_space(stripped) + 1)
        }
    } else {
        spec_trim(rest)
    }
}

/// Whether the language token is settled: with a leading `:` marker, a
/// whitespace character ended it; without one, the default language is in
/// force and the token counts as settled exactly when the rest ends in
/// whitespace.
pub open spec fn spec_language_terminated(rest: Seq<char>) -> bool {
    if rest.len() > 0 && rest[0] == ':' {
        find_space(rest.skip(1)) < rest.skip(1).len()
    } else {
        rest.len() > 0 && is_space(rest.last())
    }
}

/// Splits a raw input into a [`Query`], or signals "not applicable" when the
/// input does not start with the configured prefix (the caller must then
/// produce no output at all).
pub fn parse_query(raw: &str, prefix: &str, default_language: &str) -> (r: Option<Query>)
    ensures
        match r {
            None => !starts_with(raw@, prefix@),
            Some(q) => {
                &&& starts_with(raw@, prefix@)
                &&& q.language_token@ == spec_language_token(
                    raw@.skip(prefix@.len() as int),
                    default_language@,
                )
                &&& q.body_text@ == spec_body_text(raw@.skip(prefix@.len() as int))
                &&& q.language_terminated == spec_language_terminated(
                    raw@.skip(prefix@.len() as int),
                )
            },
        },
{
    if !str_starts_with(raw, prefix) {
        return None;
    }
    let n = raw.unicode_len();
    let p = prefix.unicode_len();
    let rest = raw.substring_char(p, n);
    proof {
        assert(rest@ =~= raw@.skip(prefix@.len() as int));
    }
    let rn = rest.unicode_len();
    if rn > 0 && rest.get_char(0) == ':' {
        let stripped = rest.substring_char(1, rn);
        proof {
            assert(stripped@ =~= rest@.skip(1));
        }
        let sn = stripped.unicode_len();
        let fs = str_find_space(stripped);
        proof {
            crate::text::lemma_find_space(stripped@);
        }
        if fs < sn {
            let lang = stripped.substring_char(0, fs);
            let body = stripped.substring_char(fs + 1, sn);
            proof {
                assert(lang@ =~= stripped@.take(find_space(stripped@)));
                assert(body@ =~= stripped@.skip(find_space(stripped@) + 1));
            }
            Some(
                Query {
                    language_token: lang.to_owned(),
                    body_text: body.to_owned(),
                    language_terminated: true,
                },
            )
        } else {
            proof {
                assert(stripped@.take(find_space(stripped@)) =~= stripped@);
            }
            Some(
                Query {
                    language_token: stripped.to_owned(),
                    body_text: String::new(),
                    language_terminated: false,
                },
            )
        }
    } else {
        let ends_space = rn > 0 && is_space_char(rest.get_char(rn - 1));
        Some(
            Query {
                language_token: default_language.to_owned(),
                body_text: str_trim(rest).to_owned(),
                language_terminated: ends_space,
            },
        )
    }
}

} // verus!
