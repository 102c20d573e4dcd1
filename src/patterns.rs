//! The detection rules: one compiled regular expression per kind of entry,
//! plus the rule that ends a docstring.
use vstd::prelude::*;
use vstd::string::StringExecFns;

verus! {

#[verifier::external_type_specification]
#[verifier::external_body]
pub struct ExRegex(regex::Regex);

#[verifier::external_type_specification]
#[verifier::external_body]
pub struct ExRegexError(regex::Error);

/// Whether `regex::Regex::new` accepts `pattern`.
pub uninterp spec fn regex_compiles(pattern: Seq<char>) -> bool;

/// Whether the compiled `pattern` matches somewhere in `haystack`.
pub uninterp spec fn regex_matches(pattern: Seq<char>, haystack: Seq<char>) -> bool;

/// The text of the leftmost-first match of the compiled `pattern` in
/// `haystack`.
pub uninterp spec fn regex_first_match(pattern: Seq<char>, haystack: Seq<char>) -> Seq<char>;

/// A function definition keyword followed by an identifier.
pub const DEF_MATCH: &'static str = r"def\s\w+";

/// A class definition keyword followed by an identifier.
pub const CLASS_MATCH: &'static str = r"class\s\w+";

/// The export-list name assigned a list or tuple.
pub const ALL_MATCH: &'static str = r"__all__\s=\s(\[|\()";

/// One level of indentation, then a triple quote, then perhaps a word.
pub const DOCSTRING_START: &'static str = r#"\s{4}"{3}\w*|\s{4}"{3}"#;

/// A triple quote of either style at the end of the line.
pub const DOCSTRING_END: &'static str = r#"('{3}|"{3})$"#;

/// A compiled regular expression together with its source text.
pub struct Pattern {
    source: String,
    compiled: regex::Regex,
}

impl Pattern {
    /// The source text the expression was compiled from.
    pub closed spec fn source(&self) -> Seq<char> {
        self.source@
    }

    /// Relies on `regex::Regex::new`: compiles `source`, and fails exactly
    /// when the crate refuses the pattern.
    #[verifier::external_body]
    pub(crate) fn compile(source: &str) -> (r: Result<Pattern, regex::Error>)
        ensures
            r is Ok <==> regex_compiles(source@),
            r matches Ok(p) ==> p.source() == source@,
    {
        match regex::Regex::new(source) {
            Ok(compiled) => Ok(Pattern { source: source.to_string(), compiled }),
            Err(e) => Err(e),
        }
    }

    /// Relies on `regex::Regex::is_match`: whether the expression matches
    /// anywhere in `haystack`.
    #[verifier::external_body]
    pub(crate) fn is_match(&self, haystack: &str) -> (r: bool)
        ensures
            r == regex_matches(self.source(), haystack@),
    {
        self.compiled.is_match(haystack)
    }

    /// Relies on `regex::Regex::find` and `regex::Match::as_str`: the text of
    /// the leftmost-first match, present exactly when the expression
    /// matches.
    #[verifier::external_body]
    pub(crate) fn find(&self, haystack: &str) -> (r: Option<String>)
        ensures
            r is Some <==> regex_matches(self.source(), haystack@),
            r matches Some(m) ==> m@ == regex_first_match(self.source(), haystack@),
    {
        match self.compiled.find(haystack) {
            Some(m) => Some(m.as_str().to_string()),
            None => None,
        }
    }

    /// The source text.
    pub fn as_str(&self) -> (r: &str)
        ensures
            r@ == self.source(),
    {
        self.source.as_str()
    }
}

/// A detection rule that could not be compiled.
#[derive(Debug)]
pub struct PatternError {
    /// The source text of the rule.
    pub pattern: String,
}

/// The five detection rules.
pub struct PatternRegistry {
    pub all: Pattern,
    pub class: Pattern,
    pub method: Pattern,
    pub docstring_start: Pattern,
    pub docstring_end: Pattern,
}

/// Whether every detection rule compiles.
pub open spec fn registry_compiles() -> bool {
    &&& regex_compiles(ALL_MATCH@)
    &&& regex_compiles(CLASS_MATCH@)
    &&& regex_compiles(DEF_MATCH@)
    &&& regex_compiles(DOCSTRING_START@)
    &&& regex_compiles(DOCSTRING_END@)
}

impl PatternRegistry {
    /// Each rule holds the expression of its kind.
    pub open spec fn wf(&self) -> bool {
        &&& self.all.source() == ALL_MATCH@
        &&& self.class.source() == CLASS_MATCH@
        &&& self.method.source() == DEF_MATCH@
        &&& self.docstring_start.source() == DOCSTRING_START@
        &&& self.docstring_end.source() == DOCSTRING_END@
    }

    /// Compiles the five rules; fails on the first one that does not
    /// compile, naming it.
    pub fn load() -> (r: Result<PatternRegistry, PatternError>)
        ensures
            r is Ok <==> registry_compiles(),
            r matches Ok(reg) ==> reg.wf(),
            r matches Err(e) ==> !regex_compiles(e.pattern@),
    {
        let all = compile_named(ALL_MATCH)?;
        let class = compile_named(CLASS_MATCH)?;
        let method = compile_named(DEF_MATCH)?;
        let docstring_start = compile_named(DOCSTRING_START)?;
        let docstring_end = compile_named(DOCSTRING_END)?;
        Ok(PatternRegistry { all, class, method, docstring_start, docstring_end })
    }
}

/// Compiles `source`, reporting a failure under its source text.
fn compile_named(source: &str) -> (r: Result<Pattern, PatternError>)
    ensures
        r is Ok <==> regex_compiles(source@),
        r matches Ok(p) ==> p.source() == source@,
        r matches Err(e) ==> e.pattern@ == source@,
{
    match Pattern::compile(source) {
        Ok(p) => Ok(p),
        Err(_) => Err(PatternError { pattern: String::from_str(source) }),
    }
}

} // verus!
