use vstd::prelude::*;

verus! {

/// Declares regex::Regex so that a compiled expression can live in a field;
/// Verus sees nothing inside a value of it.
#[verifier::external_type_specification]
#[verifier::external_body]
pub struct ExRegex(regex::Regex);

/// What `regex::Regex::is_match` returns for a pattern and a haystack: an
/// unanchored search, a function of the two strings alone.
pub uninterp spec fn regex_matches(pattern: Seq<char>, haystack: Seq<char>) -> bool;

/// Whether `regex::Regex::new` accepts the pattern text: under the default
/// configuration, compilation succeeds or fails as a function of the pattern
/// alone.
pub uninterp spec fn regex_compiles(pattern: Seq<char>) -> bool;

/// A compiled asset-name pattern, beside the pattern text it was compiled
/// from. Only `compile` builds one, so the expression always belongs to the
/// recorded pattern.
pub struct AssetPattern {
    re: regex::Regex,
    pattern: String,
}

impl AssetPattern {
    /// The pattern text this matcher was compiled from.
    pub closed spec fn spec_pattern(&self) -> Seq<char> {
        self.pattern@
    }

    /// Relies on regex::Regex::new: compiles the pattern text exactly when
    /// the expression compiler accepts it, or hands back the compile error
    /// as text. The matcher keeps the pattern it was compiled from.
    #[verifier::external_body]
    fn compile(pattern: &str) -> (r: Result<AssetPattern, String>)
        ensures
            r is Ok == regex_compiles(pattern@),
            r matches Ok(p) ==> p.spec_pattern() == pattern@,
    {
        match regex::Regex::new(pattern) {
            Ok(re) => Ok(AssetPattern { re, pattern: pattern.to_owned() }),
            Err(e) => Err(e.to_string()),
        }
    }

    /// Relies on regex::Regex::is_match, whose result depends on the compiled
    /// pattern and the haystack alone; the matcher's expression was compiled
    /// by `compile` from the pattern it carries.
    #[verifier::external_body]
    fn search(&self, haystack: &str) -> (r: bool)
        ensures
            r == regex_matches(self.spec_pattern(), haystack@),
    {
        self.re.is_match(haystack)
    }

    /// Whether the pattern matches anywhere in `haystack`.
    pub fn is_match(&self, haystack: &str) -> (r: bool)
        ensures
            r == regex_matches(self.spec_pattern(), haystack@),
    {
        self.search(haystack)
    }
}

/// Compiles the asset-name pattern the caller supplied: a matcher exactly
/// when the expression compiler accepts the pattern, else the error text
/// naming what it objected to.
pub fn get_compiled_asset_pattern(pattern: &str) -> (r: Result<AssetPattern, String>)
    ensures
        r is Ok == regex_compiles(pattern@),
        r matches Ok(p) ==> p.spec_pattern() == pattern@,
{
    AssetPattern::compile(pattern)
}

} // verus!
