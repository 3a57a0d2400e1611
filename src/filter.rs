//! Inclusion and exclusion patterns, and the filter that applies them to a path.
use vstd::prelude::*;

verus! {

#[verifier::external_type_specification]
#[verifier::external_body]
pub struct ExRegex(regex::Regex);

#[verifier::external_type_specification]
#[verifier::external_body]
pub struct ExRegexError(regex::Error);

/// Whether the regular expression `pattern` compiles.
pub uninterp spec fn regex_valid(pattern: Seq<char>) -> bool;

/// Whether the regular expression `pattern` matches somewhere in `text`.
pub uninterp spec fn regex_found(pattern: Seq<char>, text: Seq<char>) -> bool;

/// Relies on regex::Regex::new: whether a pattern compiles depends on the
/// pattern alone.
#[verifier::external_body]
fn compile(source: &str) -> (r: Result<regex::Regex, regex::Error>)
    ensures
        r is Ok <==> regex_valid(source@),
{
    regex::Regex::new(source)
}

/// Relies on regex::Regex::is_match: a search for the compiled pattern
/// anywhere in `text`. A `Pattern` is only made by `Pattern::new`, so its
/// compiled form is the one of its source.
#[verifier::external_body]
fn compiled_is_match(p: &Pattern, text: &str) -> (r: bool)
    ensures
        r == regex_found(p@, text@),
{
    p.compiled.is_match(text)
}

/// A pattern that does not compile.
pub struct PatternError {
    pub pattern: String,
}

/// A regular expression together with its source text.
pub struct Pattern {
    source: String,
    compiled: regex::Regex,
}

impl View for Pattern {
    type V = Seq<char>;

    closed spec fn view(&self) -> Seq<char> {
        self.source@
    }
}

impl Pattern {
    pub fn new(source: String) -> (r: Result<Pattern, PatternError>)
        ensures
            r is Ok <==> regex_valid(source@),
            r matches Ok(p) ==> p@ == source@,
            r matches Err(e) ==> e.pattern@ == source@,
    {
        match compile(source.as_str()) {
            Ok(compiled) => Ok(Pattern { source, compiled }),
            Err(_) => Err(PatternError { pattern: source }),
        }
    }

    pub fn as_str(&self) -> (r: &str)
        ensures
            r@ == self@,
    {
        self.source.as_str()
    }

    /// Whether the pattern is found anywhere in `text`.
    pub fn is_match(&self, text: &str) -> (r: bool)
        ensures
            r == regex_found(self@, text@),
    {
        compiled_is_match(self, text)
    }
}

pub open spec fn sources(ps: Seq<Pattern>) -> Seq<Seq<char>> {
    ps.map_values(|p: Pattern| p@)
}

pub open spec fn any_found(patterns: Seq<Seq<char>>, text: Seq<char>) -> bool {
    exists|i: int| 0 <= i < patterns.len() && regex_found(#[trigger] patterns[i], text)
}

/// The filter of one side: with allow patterns, a path is admitted iff
/// one of them is found in it; without, iff no exclusion pattern is.
pub open spec fn passes(allow: Seq<Seq<char>>, exclude: Seq<Seq<char>>, text: Seq<char>) -> bool {
    if allow.len() > 0 {
        any_found(allow, text)
    } else {
        !any_found(exclude, text)
    }
}

/// Whether one of `patterns` is found in `text`.
pub fn find_any(patterns: &Vec<Pattern>, text: &str) -> (r: bool)
    ensures
        r == any_found(sources(patterns@), text@),
{
    let mut i: usize = 0;
    while i < patterns.len()
        invariant
            i <= patterns@.len(),
            forall|j: int| 0 <= j < i ==> !regex_found(#[trigger] sources(patterns@)[j], text@),
        decreases patterns@.len() - i,
    {
        if patterns[i].is_match(text) {
            assert(sources(patterns@)[i as int] == patterns@[i as int]@);
            return true;
        }
        i = i + 1;
    }
    false
}

/// One side of a sync: its directory and the patterns that filter its entries.
pub struct SyncPath {
    pub path: String,
    pub allow: Vec<Pattern>,
    pub exclude: Vec<Pattern>,
}

impl SyncPath {
    /// Whether the entry at `abs_path` takes part in the sync on this side.
    pub fn accepts(&self, abs_path: &str) -> (r: bool)
        ensures
            r == passes(sources(self.allow@), sources(self.exclude@), abs_path@),
    {
        if self.allow.len() > 0 {
            find_any(&self.allow, abs_path)
        } else {
            !find_any(&self.exclude, abs_path)
        }
    }
}

/// Which side of the sync an entry belongs to.
pub enum OperateDirection {
    From,
    To,
}

/// The whole configuration of a sync.
pub struct SyncContext {
    pub from: SyncPath,
    pub to: SyncPath,
    pub recursive: bool,
}

impl SyncContext {
    pub open spec fn side(&self, direction: OperateDirection) -> SyncPath {
        match direction {
            OperateDirection::From => self.from,
            OperateDirection::To => self.to,
        }
    }

    /// Whether the entry at `abs_path` takes part in the sync on the side
    /// `direction`, by that side's patterns.
    pub fn check_include_and_exclude(&self, abs_path: &str, direction: &OperateDirection) -> (r: bool)
        ensures
            r == passes(
                sources(self.side(*direction).allow@),
                sources(self.side(*direction).exclude@),
                abs_path@,
            ),
    {
        match direction {
            OperateDirection::From => self.from.accepts(abs_path),
            OperateDirection::To => self.to.accepts(abs_path),
        }
    }
}

} // verus!
