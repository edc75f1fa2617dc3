use vstd::prelude::*;
use vstd::string::*;
use crate::ast::{
    And, AndModel, Or, OrModel, Prefix, PrefixModel, PrefixType, Query, StringQuery, TextModel,
};
use crate::matcher::{compile, error_message, escape, escaped, pattern_accepted};
use crate::parse::{QueryError, parse_and_at, parse_tokens, token_is};
use crate::token::{tokenize, tokenize_query};

verus! {

/// The pattern a string criterion compiles to: anchored at both ends for a
/// whole-word search, marked case-insensitive when case is ignored, and the
/// text taken as a regular expression or escaped to match literally.
pub open spec fn pattern_of(raw: Seq<char>, whole_word: bool, ignore_case: bool, use_regex: bool) -> Seq<char> {
    (if whole_word {
        seq!['^']
    } else {
        Seq::empty()
    }) + (if ignore_case {
        seq!['(', '?', 'i', ')']
    } else {
        Seq::empty()
    }) + (if use_regex {
        raw
    } else {
        escaped(raw)
    }) + (if whole_word {
        seq!['$']
    } else {
        Seq::empty()
    })
}

/// The prefix types searched by text.
pub open spec fn is_text_type(t: PrefixType) -> bool {
    t == PrefixType::Pid || t == PrefixType::Name
}

/// Whether every raw text criterion of the tree compiles.
pub open spec fn accepted_and(a: AndModel, ww: bool, ic: bool, rx: bool) -> bool
    decreases a,
{
    accepted_or(a.lhs, ww, ic, rx) && match a.rhs {
        Some(r) => accepted_or(r, ww, ic, rx),
        None => true,
    }
}

pub open spec fn accepted_or(o: OrModel, ww: bool, ic: bool, rx: bool) -> bool
    decreases o,
{
    accepted_prefix(o.lhs, ww, ic, rx) && match o.rhs {
        Some(r) => accepted_prefix(r, ww, ic, rx),
        None => true,
    }
}

pub open spec fn accepted_prefix(x: PrefixModel, ww: bool, ic: bool, rx: bool) -> bool
    decreases x,
{
    match x {
        PrefixModel::Group(a) => accepted_and(*a, ww, ic, rx),
        PrefixModel::Text(t, TextModel::Raw(s)) => is_text_type(t) ==> pattern_accepted(
            pattern_of(s, ww, ic, rx),
        ),
        _ => true,
    }
}

/// The tree with each raw text criterion replaced by its compiled pattern.
pub open spec fn compiled_and(a: AndModel, ww: bool, ic: bool, rx: bool) -> AndModel
    decreases a,
{
    AndModel {
        lhs: compiled_or(a.lhs, ww, ic, rx),
        rhs: match a.rhs {
            Some(r) => Some(compiled_or(r, ww, ic, rx)),
            None => None,
        },
    }
}

pub open spec fn compiled_or(o: OrModel, ww: bool, ic: bool, rx: bool) -> OrModel
    decreases o,
{
    OrModel {
        lhs: compiled_prefix(o.lhs, ww, ic, rx),
        rhs: match o.rhs {
            Some(r) => Some(compiled_prefix(r, ww, ic, rx)),
            None => None,
        },
    }
}

pub open spec fn compiled_prefix(x: PrefixModel, ww: bool, ic: bool, rx: bool) -> PrefixModel
    decreases x,
{
    match x {
        PrefixModel::Group(a) => PrefixModel::Group(Box::new(compiled_and(*a, ww, ic, rx))),
        PrefixModel::Text(t, TextModel::Raw(s)) => if is_text_type(t) {
            PrefixModel::Text(t, TextModel::Compiled(pattern_of(s, ww, ic, rx)))
        } else {
            x
        },
        _ => x,
    }
}

/// `n` keeps the shape of `o`: the same combinators, and in each criterion
/// the same fields populated, the same prefix types and the same numeric
/// comparisons; under a group the text field is untouched.
pub open spec fn kept_and(o: And, n: And) -> bool
    decreases o,
{
    kept_or(o.lhs, n.lhs) && match (o.rhs, n.rhs) {
        (Some(a), Some(b)) => kept_or(*a, *b),
        (None, None) => true,
        _ => false,
    }
}

pub open spec fn kept_or(o: Or, n: Or) -> bool
    decreases o,
{
    kept_prefix(o.lhs, n.lhs) && match (o.rhs, n.rhs) {
        (Some(a), Some(b)) => kept_prefix(*a, *b),
        (None, None) => true,
        _ => false,
    }
}

pub open spec fn kept_prefix(o: Prefix, n: Prefix) -> bool
    decreases o,
{
    &&& n.compare_prefix == o.compare_prefix
    &&& match (o.and, n.and) {
        (Some(a), Some(b)) => kept_and(*a, *b) && n.regex_prefix == o.regex_prefix,
        (None, None) => match (o.regex_prefix, n.regex_prefix) {
            (Some((t1, _)), Some((t2, _))) => t1 == t2,
            (None, None) => true,
            _ => false,
        },
        _ => false,
    }
}

/// What compiling `o` leaves in `n` when it stops at the first criterion
/// that fails, depth first and left to right: every criterion before it
/// compiled, it and every later criterion as they were.
pub open spec fn partly_compiled_and(o: And, n: And, ww: bool, ic: bool, rx: bool) -> bool
    decreases o,
{
    if accepted_or(o.lhs.model(), ww, ic, rx) {
        &&& n.lhs.model() == compiled_or(o.lhs.model(), ww, ic, rx)
        &&& match (o.rhs, n.rhs) {
            (Some(a), Some(b)) => partly_compiled_or(*a, *b, ww, ic, rx),
            (None, None) => true,
            _ => false,
        }
    } else {
        partly_compiled_or(o.lhs, n.lhs, ww, ic, rx) && n.rhs == o.rhs
    }
}

pub open spec fn partly_compiled_or(o: Or, n: Or, ww: bool, ic: bool, rx: bool) -> bool
    decreases o,
{
    if accepted_prefix(o.lhs.model(), ww, ic, rx) {
        &&& n.lhs.model() == compiled_prefix(o.lhs.model(), ww, ic, rx)
        &&& match (o.rhs, n.rhs) {
            (Some(a), Some(b)) => partly_compiled_prefix(*a, *b, ww, ic, rx),
            (None, None) => true,
            _ => false,
        }
    } else {
        partly_compiled_prefix(o.lhs, n.lhs, ww, ic, rx) && n.rhs == o.rhs
    }
}

pub open spec fn partly_compiled_prefix(o: Prefix, n: Prefix, ww: bool, ic: bool, rx: bool) -> bool
    decreases o,
{
    match (o.and, n.and) {
        (Some(a), Some(b)) => partly_compiled_and(*a, *b, ww, ic, rx),
        (None, None) => if accepted_prefix(o.model(), ww, ic, rx) {
            n.model() == compiled_prefix(o.model(), ww, ic, rx)
        } else {
            n.regex_prefix == o.regex_prefix
        },
        _ => false,
    }
}

proof fn lemma_kept_and_refl(a: And)
    ensures
        kept_and(a, a),
    decreases a,
{
    lemma_kept_or_refl(a.lhs);
    match a.rhs {
        Some(r) => lemma_kept_or_refl(*r),
        None => {},
    }
}

proof fn lemma_kept_or_refl(o: Or)
    ensures
        kept_or(o, o),
    decreases o,
{
    lemma_kept_prefix_refl(o.lhs);
    match o.rhs {
        Some(r) => lemma_kept_prefix_refl(*r),
        None => {},
    }
}

proof fn lemma_kept_prefix_refl(x: Prefix)
    ensures
        kept_prefix(x, x),
    decreases x,
{
    match x.and {
        Some(a) => lemma_kept_and_refl(*a),
        None => {},
    }
}

/// What parsing `text` and compiling it with `flags` gives: the parse error,
/// or the compiled tree exactly when every pattern is accepted, or else a
/// matcher error.
pub open spec fn parse_outcome(text: Seq<char>, flags: (bool, bool, bool), r: Result<Query, QueryError>) -> bool {
    let (ww, ic, rx) = flags;
    match parse_tokens(tokenize(text)) {
        Err(e) => r == Err::<Query, QueryError>(e),
        Ok(a) => {
            &&& r is Ok <==> accepted_and(a, ww, ic, rx)
            &&& r matches Ok(q) ==> q.model() == compiled_and(a, ww, ic, rx)
            &&& r matches Err(e) ==> e is MatcherCompileFailure
        },
    }
}

/// Builds the pattern of a string criterion; see `pattern_of`.
pub fn pattern_for(raw: &str, whole_word: bool, ignore_case: bool, use_regex: bool) -> (r: String)
    ensures
        r@ == pattern_of(raw@, whole_word, ignore_case, use_regex),
{
    proof {
        reveal_strlit("^");
        reveal_strlit("(?i)");
        reveal_strlit("$");
        assert("^"@ =~= seq!['^']);
        assert("(?i)"@ =~= seq!['(', '?', 'i', ')']);
        assert("$"@ =~= seq!['$']);
    }
    let mut p = String::new();
    if whole_word {
        p.append("^");
    }
    if ignore_case {
        p.append("(?i)");
    }
    if use_regex {
        p.append(raw);
    } else {
        let e = escape(raw);
        p.append(e.as_str());
    }
    if whole_word {
        p.append("$");
    }
    assert(p@ =~= pattern_of(raw@, whole_word, ignore_case, use_regex));
    p
}

impl Query {
    /// Compiles every string criterion into a matcher.
    pub fn process_regexes(
        &mut self,
        is_searching_whole_word: bool,
        is_ignoring_case: bool,
        is_searching_with_regex: bool,
    ) -> (r: Result<(), QueryError>)
        ensures
            r is Ok <==> accepted_and(
                old(self).model(),
                is_searching_whole_word,
                is_ignoring_case,
                is_searching_with_regex,
            ),
            r is Ok ==> final(self).model() == compiled_and(
                old(self).model(),
                is_searching_whole_word,
                is_ignoring_case,
                is_searching_with_regex,
            ),
            r matches Err(e) ==> e is MatcherCompileFailure,
            kept_and(old(self).query, final(self).query),
            partly_compiled_and(
                old(self).query,
                final(self).query,
                is_searching_whole_word,
                is_ignoring_case,
                is_searching_with_regex,
            ),
            !accepted_or(
                old(self).query.lhs.model(),
                is_searching_whole_word,
                is_ignoring_case,
                is_searching_with_regex,
            ) ==> final(self).query.rhs == old(self).query.rhs,
    {
        self.query.process_regexes(is_searching_whole_word, is_ignoring_case, is_searching_with_regex)
    }
}

impl And {
    pub fn process_regexes(
        &mut self,
        is_searching_whole_word: bool,
        is_ignoring_case: bool,
        is_searching_with_regex: bool,
    ) -> (r: Result<(), QueryError>)
        ensures
            r is Ok <==> accepted_and(
                old(self).model(),
                is_searching_whole_word,
                is_ignoring_case,
                is_searching_with_regex,
            ),
            r is Ok ==> final(self).model() == compiled_and(
                old(self).model(),
                is_searching_whole_word,
                is_ignoring_case,
                is_searching_with_regex,
            ),
            r matches Err(e) ==> e is MatcherCompileFailure,
            kept_and(*old(self), *final(self)),
            partly_compiled_and(
                *old(self),
                *final(self),
                is_searching_whole_word,
                is_ignoring_case,
                is_searching_with_regex,
            ),
            !accepted_or(
                old(self).lhs.model(),
                is_searching_whole_word,
                is_ignoring_case,
                is_searching_with_regex,
            ) ==> final(self).rhs == old(self).rhs,
            accepted_or(
                old(self).lhs.model(),
                is_searching_whole_word,
                is_ignoring_case,
                is_searching_with_regex,
            ) ==> final(self).lhs.model() == compiled_or(
                old(self).lhs.model(),
                is_searching_whole_word,
                is_ignoring_case,
                is_searching_with_regex,
            ),
        decreases *old(self),
    {
        match self.lhs.process_regexes(
            is_searching_whole_word,
            is_ignoring_case,
            is_searching_with_regex,
        ) {
            Err(e) => {
                proof {
                    if self.rhs is Some {
                        lemma_kept_or_refl(*self.rhs->0);
                    }
                }
                return Err(e);
            },
            Ok(()) => {},
        }
        match &mut self.rhs {
            Some(rhs) => rhs.process_regexes(
                is_searching_whole_word,
                is_ignoring_case,
                is_searching_with_regex,
            ),
            None => Ok(()),
        }
    }
}

impl Or {
    pub fn process_regexes(
        &mut self,
        is_searching_whole_word: bool,
        is_ignoring_case: bool,
        is_searching_with_regex: bool,
    ) -> (r: Result<(), QueryError>)
        ensures
            r is Ok <==> accepted_or(
                old(self).model(),
                is_searching_whole_word,
                is_ignoring_case,
                is_searching_with_regex,
            ),
            r is Ok ==> final(self).model() == compiled_or(
                old(self).model(),
                is_searching_whole_word,
                is_ignoring_case,
                is_searching_with_regex,
            ),
            r matches Err(e) ==> e is MatcherCompileFailure,
            kept_or(*old(self), *final(self)),
            partly_compiled_or(
                *old(self),
                *final(self),
                is_searching_whole_word,
                is_ignoring_case,
                is_searching_with_regex,
            ),
            !accepted_prefix(
                old(self).lhs.model(),
                is_searching_whole_word,
                is_ignoring_case,
                is_searching_with_regex,
            ) ==> final(self).rhs == old(self).rhs,
            accepted_prefix(
                old(self).lhs.model(),
                is_searching_whole_word,
                is_ignoring_case,
                is_searching_with_regex,
            ) ==> final(self).lhs.model() == compiled_prefix(
                old(self).lhs.model(),
                is_searching_whole_word,
                is_ignoring_case,
                is_searching_with_regex,
            ),
        decreases *old(self),
    {
        match self.lhs.process_regexes(
            is_searching_whole_word,
            is_ignoring_case,
            is_searching_with_regex,
        ) {
            Err(e) => {
                proof {
                    if self.rhs is Some {
                        lemma_kept_prefix_refl(*self.rhs->0);
                    }
                }
                return Err(e);
            },
            Ok(()) => {},
        }
        match &mut self.rhs {
            Some(rhs) => rhs.process_regexes(
                is_searching_whole_word,
                is_ignoring_case,
                is_searching_with_regex,
            ),
            None => Ok(()),
        }
    }
}

impl Prefix {
    pub fn process_regexes(
        &mut self,
        is_searching_whole_word: bool,
        is_ignoring_case: bool,
        is_searching_with_regex: bool,
    ) -> (r: Result<(), QueryError>)
        ensures
            r is Ok <==> accepted_prefix(
                old(self).model(),
                is_searching_whole_word,
                is_ignoring_case,
                is_searching_with_regex,
            ),
            r is Ok ==> final(self).model() == compiled_prefix(
                old(self).model(),
                is_searching_whole_word,
                is_ignoring_case,
                is_searching_with_regex,
            ),
            r matches Err(e) ==> e is MatcherCompileFailure,
            kept_prefix(*old(self), *final(self)),
            partly_compiled_prefix(
                *old(self),
                *final(self),
                is_searching_whole_word,
                is_ignoring_case,
                is_searching_with_regex,
            ),
            r is Err && old(self).and is None ==> final(self).regex_prefix == old(
                self,
            ).regex_prefix,
        decreases *old(self),
    {
        match &mut self.and {
            Some(and) => {
                return and.process_regexes(
                    is_searching_whole_word,
                    is_ignoring_case,
                    is_searching_with_regex,
                );
            },
            None => {},
        }
        match &mut self.regex_prefix {
            Some((prefix_type, query_content)) => {
                if !(*prefix_type == PrefixType::Pid || *prefix_type == PrefixType::Name) {
                    return Ok(());
                }
                let pattern = match &*query_content {
                    StringQuery::Value(raw) => pattern_for(
                        raw.as_str(),
                        is_searching_whole_word,
                        is_ignoring_case,
                        is_searching_with_regex,
                    ),
                    StringQuery::Regex(_) => {
                        return Ok(());
                    },
                };
                match compile(pattern) {
                    Ok(m) => {
                        *query_content = StringQuery::Regex(m);
                        Ok(())
                    },
                    Err(e) => Err(QueryError::MatcherCompileFailure(error_message(&e))),
                }
            },
            None => Ok(()),
        }
    }
}

/// Parses a query and compiles its string criteria with the given search
/// flags.
pub fn parse_query(text: &str, whole_word: bool, ignore_case: bool, use_regex: bool) -> (r: Result<
    Query,
    QueryError,
>)
    ensures
        parse_outcome(text@, (whole_word, ignore_case, use_regex), r),
{
    let toks = tokenize_query(text);
    let mut q = if toks.len() == 0 {
        Query {
            query: And {
                lhs: Or {
                    lhs: Prefix { and: None, regex_prefix: None, compare_prefix: None },
                    rhs: None,
                },
                rhs: None,
            },
        }
    } else {
        match parse_and_at(&toks, 0) {
            Ok((a, p)) => {
                if p < toks.len() {
                    if token_is(&toks[p], ')') {
                        return Err(QueryError::MissingOpeningParen);
                    } else {
                        return Err(QueryError::ComparatorParseFailure);
                    }
                }
                Query { query: a }
            },
            Err(e) => {
                return Err(e);
            },
        }
    };
    match q.process_regexes(whole_word, ignore_case, use_regex) {
        Ok(()) => Ok(q),
        Err(e) => Err(e),
    }
}

/// Parses the search text a widget holds, with its search flags.
pub trait ProcessQuery {
    /// The search text.
    spec fn search_text(&self) -> Seq<char>;

    /// Whole-word, ignore-case and regex flags, in that order.
    spec fn search_flags(&self) -> (bool, bool, bool);

    fn parse_query(&self) -> (r: Result<Query, QueryError>)
        ensures
            parse_outcome(self.search_text(), self.search_flags(), r),
    ;
}

/// The search input of a process list: its text and its three flags.
#[derive(Debug)]
pub struct SearchState {
    pub current_search_query: String,
    pub is_searching_whole_word: bool,
    pub is_ignoring_case: bool,
    pub is_searching_with_regex: bool,
}

impl ProcessQuery for SearchState {
    open spec fn search_text(&self) -> Seq<char> {
        self.current_search_query@
    }

    open spec fn search_flags(&self) -> (bool, bool, bool) {
        (self.is_searching_whole_word, self.is_ignoring_case, self.is_searching_with_regex)
    }

    fn parse_query(&self) -> (r: Result<Query, QueryError>) {
        parse_query(
            self.current_search_query.as_str(),
            self.is_searching_whole_word,
            self.is_ignoring_case,
            self.is_searching_with_regex,
        )
    }
}

} // verus!
