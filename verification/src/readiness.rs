//! The readiness classifier: the decision table over whether the language
//! is known, whether body text is present, and whether the language token
//! was terminated.

use vstd::prelude::*;
use vstd::string::StrSliceExecFns;
use crate::query::Query;
use crate::registry::DictionaryRegistry;
use crate::text::{spec_trim, str_trim};

verus! {

/// What the classifier decided, with its payload.
pub enum Verdict {
    /// The language token is settled and names no installed dictionary.
    NotFound {
        /// The identifier the token resolved to.
        resolved: String,
    },
    /// The language token is still being typed, or no body text is present
    /// yet.
    Waiting,
    /// The query is complete: check `text` against dictionary `dictionary`.
    Proceed {
        /// The resolved dictionary identifier.
        dictionary: String,
        /// The body text, trimmed of surrounding whitespace.
        text: String,
    },
}

/// The bare shape of a verdict, payload ignored.
pub enum VerdictKind {
    NotFound,
    Waiting,
    Proceed,
}

impl Verdict {
    /// The shape of this verdict.
    pub open spec fn kind(self) -> VerdictKind {
        match self {
            Verdict::NotFound { .. } => VerdictKind::NotFound,
            Verdict::Waiting => VerdictKind::Waiting,
            Verdict::Proceed { .. } => VerdictKind::Proceed,
        }
    }
}

/// The decision table, row by row. An unknown token still being typed
/// waits rather than errors; once whitespace terminates it, or non-empty
/// text already follows it, it is a firm error. A known language with no
/// text always waits.
pub open spec fn readiness_table(
    lang_known: bool,
    body_non_empty: bool,
    language_terminated: bool,
) -> VerdictKind {
    match (lang_known, body_non_empty, language_terminated) {
        (false, false, true) => VerdictKind::NotFound,
        (false, true, true) => VerdictKind::NotFound,
        (false, true, false) => VerdictKind::NotFound,
        (false, false, false) => VerdictKind::Waiting,
        (true, false, true) => VerdictKind::Waiting,
        (true, false, false) => VerdictKind::Waiting,
        (true, true, true) => VerdictKind::Proceed,
        (true, true, false) => VerdictKind::Proceed,
    }
}

/// The identifier a query's language token resolves to.
pub open spec fn spec_resolved(registry: DictionaryRegistry, q: Query) -> Seq<char> {
    registry.spec_resolve(q.language_token@)
}

/// Whether the resolved identifier names an installed dictionary. Membership
/// is always re-checked here, even for a token that went through the alias
/// table.
pub open spec fn spec_lang_known(registry: DictionaryRegistry, q: Query) -> bool {
    registry.spec_is_known(spec_resolved(registry, q))
}

/// Whether the query carries any body text beyond whitespace.
pub open spec fn spec_body_non_empty(q: Query) -> bool {
    spec_trim(q.body_text@).len() > 0
}

/// Classifies a parsed query against the registry: resolves the language
/// token, re-checks that the resolved identifier is installed, and applies
/// the decision table. On `Proceed`, the forwarded text is the body text
/// trimmed of surrounding whitespace.
pub fn classify(registry: &DictionaryRegistry, q: &Query) -> (v: Verdict)
    ensures
        v.kind() == readiness_table(
            spec_lang_known(*registry, *q),
            spec_body_non_empty(*q),
            q.language_terminated,
        ),
        (v matches Verdict::NotFound { resolved } ==> resolved@ == spec_resolved(*registry, *q)),
        (v matches Verdict::Proceed { dictionary, text } ==> dictionary@ == spec_resolved(
            *registry,
            *q,
        ) && text@ == spec_trim(q.body_text@)),
{
    let resolved = registry.resolve(q.language_token.as_str());
    let lang_known = registry.is_known(resolved);
    let trimmed = str_trim(q.body_text.as_str());
    let body_non_empty = trimmed.unicode_len() > 0;
    if !lang_known && (q.language_terminated || body_non_empty) {
        Verdict::NotFound { resolved: resolved.to_owned() }
    } else if body_non_empty {
        Verdict::Proceed { dictionary: resolved.to_owned(), text: trimmed.to_owned() }
    } else {
        Verdict::Waiting
    }
}

/// The decision table, spelled out: every combination of the three inputs
/// and the verdict it yields.
pub proof fn lemma_readiness_table()
    ensures
        readiness_table(false, false, true) == VerdictKind::NotFound,
        readiness_table(false, true, true) == VerdictKind::NotFound,
        readiness_table(false, true, false) == VerdictKind::NotFound,
        readiness_table(false, false, false) == VerdictKind::Waiting,
        readiness_table(true, false, true) == VerdictKind::Waiting,
        readiness_table(true, false, false) == VerdictKind::Waiting,
        readiness_table(true, true, true) == VerdictKind::Proceed,
        readiness_table(true, true, false) == VerdictKind::Proceed,
{
}

} // verus!
