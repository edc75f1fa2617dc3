use vstd::prelude::*;

verus! {

#[verifier::external_type_specification]
#[verifier::external_body]
pub struct ExRegex(regex::Regex);

#[verifier::external_type_specification]
#[verifier::external_body]
pub struct ExRegexError(regex::Error);

/// The characters that have a meaning in a regular expression.
pub open spec fn is_meta_character(c: char) -> bool {
    c == '\\' || c == '.' || c == '+' || c == '*' || c == '?' || c == '(' || c == ')' || c == '|'
        || c == '[' || c == ']' || c == '{' || c == '}' || c == '^' || c == '$' || c == '#' || c
        == '&' || c == '-' || c == '~'
}

/// The text with a backslash before each meta character: a pattern that
/// matches the text literally.
pub open spec fn escaped(s: Seq<char>) -> Seq<char>
    decreases s.len(),
{
    if s.len() == 0 {
        Seq::empty()
    } else {
        escaped(s.drop_last()) + if is_meta_character(s.last()) {
            seq!['\\', s.last()]
        } else {
            seq![s.last()]
        }
    }
}

/// Whether `regex::Regex::new` accepts a pattern.
pub uninterp spec fn pattern_accepted(p: Seq<char>) -> bool;

/// Whether a regular expression compiled from pattern `p` finds a match
/// anywhere in `text`.
pub uninterp spec fn pattern_finds(p: Seq<char>, text: Seq<char>) -> bool;

/// A compiled regular expression, kept together with its pattern.
/// Only `compile` makes one, so `regex` is always compiled from `pattern`.
#[derive(Debug)]
pub struct Matcher {
    regex: regex::Regex,
    pattern: String,
}

impl Matcher {
    /// The pattern this matcher was compiled from.
    pub closed spec fn pattern(&self) -> Seq<char> {
        self.pattern@
    }

    pub fn pattern_text(&self) -> (r: &str)
        ensures
            r@ == self.pattern(),
    {
        self.pattern.as_str()
    }
}

/// Relies on `regex::escape`, which puts a backslash before each meta
/// character of `regex_syntax::is_meta_character`.
#[verifier::external_body]
pub(crate) fn escape(s: &str) -> (r: String)
    ensures
        r@ == escaped(s@),
{
    regex::escape(s)
}

/// Relies on `regex::Regex::new`: whether it accepts depends on the pattern
/// alone.
#[verifier::external_body]
pub(crate) fn compile(p: String) -> (r: Result<Matcher, regex::Error>)
    ensures
        r is Ok <==> pattern_accepted(p@),
        r matches Ok(m) ==> m.pattern() == p@,
{
    match regex::Regex::new(&p) {
        Ok(regex) => Ok(Matcher { regex, pattern: p }),
        Err(e) => Err(e),
    }
}

/// Relies on `regex::Regex::is_match`: whether the expression matches
/// somewhere in `text`, which depends on its pattern and `text` alone.
#[verifier::external_body]
pub(crate) fn finds(m: &Matcher, text: &str) -> (r: bool)
    ensures
        r == pattern_finds(m.pattern(), text@),
{
    m.regex.is_match(text)
}

/// Relies on the `Display` of `regex::Error`: its message.
#[verifier::external_body]
pub(crate) fn error_message(e: &regex::Error) -> (r: String) {
    e.to_string()
}

} // verus!
