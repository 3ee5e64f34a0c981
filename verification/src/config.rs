//! Configuration consumed by the interpreter: the query prefix, the default
//! dictionary, the result cap, and the user-defined dictionary aliases.

use vstd::prelude::*;
use vstd::string::StringExecFns;

verus! {

/// A user-facing short name that stands for a canonical dictionary
/// identifier.
pub struct Alias {
    /// The short name typed by the user.
    pub name: String,
    /// The canonical identifier of the dictionary it stands for.
    pub dictionary: String,
}

/// The configuration values the interpreter consumes: they arrive already
/// parsed from whatever store the host keeps them in.
pub struct Config {
    /// A raw query is handled only when it starts with this literal prefix.
    pub prefix: String,
    /// Dictionary used when the query names none.
    pub default_language: String,
    /// Cap on the number of display entries produced for one query.
    pub max_entries: u32,
    /// User-defined alias table, looked up by name.
    pub aliases: Vec<Alias>,
}

impl Default for Config {
    /// Prefix `:spell`, default language `en_US`, at most 15 entries, and
    /// the single alias `en` for `en_US`.
    fn default() -> (c: Self)
        ensures
            c.prefix@ == ":spell"@,
            c.default_language@ == "en_US"@,
            c.max_entries == 15u32,
            c.aliases@.len() == 1,
            c.aliases@[0].name@ == "en"@,
            c.aliases@[0].dictionary@ == "en_US"@,
    {
        let mut aliases: Vec<Alias> = Vec::new();
        aliases.push(
            Alias { name: String::from_str("en"), dictionary: String::from_str("en_US") },
        );
        Config {
            prefix: String::from_str(":spell"),
            default_language: String::from_str("en_US"),
            max_entries: 15,
            aliases,
        }
    }
}

} // verus!
