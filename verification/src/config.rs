//! The shape of the project configuration the linter consumes: the
//! path-alias table and the list of excluded directories. Reading and
//! decoding the configuration file happens outside the library; the linter
//! only consumes these plain values.
use vstd::prelude::*;

verus! {

/// One path-alias rule: a pattern prefix, possibly holding a `*` wildcard,
/// and its ordered candidate replacements. Only the first candidate is ever
/// applied; a rule with no candidates is skipped.
pub struct AliasEntry {
    pub pattern: String,
    pub targets: Vec<String>,
}

/// The mathematical model of one alias rule.
pub ghost struct AliasEntryV {
    pub pattern: Seq<char>,
    pub targets: Seq<Seq<char>>,
}

impl View for AliasEntry {
    type V = AliasEntryV;

    open spec fn view(&self) -> AliasEntryV {
        AliasEntryV {
            pattern: self.pattern@,
            targets: self.targets@.map_values(|t: String| t@),
        }
    }
}

/// The compiler options of the project configuration: its path-alias table,
/// in the order the rules are applied.
pub struct CompilerOptions {
    pub paths: Vec<AliasEntry>,
}

/// The whole project configuration: alias table and the directory names the
/// file walk must not descend into.
pub struct Properties {
    pub compiler_options: CompilerOptions,
    pub exclude: Vec<String>,
}

} // verus!
