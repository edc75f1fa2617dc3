use vstd::prelude::*;
use vstd::string::*;
use crate::ast::{
    And, AndModel, NumericalQuery, Or, OrModel, Prefix, PrefixModel, PrefixType, Query,
    QueryComparison, StringQuery, TextModel,
};
use crate::number::{Decimal, parse_decimal, pow10};
use crate::text::{ascii_lower_seq, same_text, same_text_ignoring_case};
use crate::token::texts;

verus! {

/// Why a query does not compile.
#[derive(Debug)]
pub enum QueryError {
    MissingClosingParen,
    MissingOpeningParen,
    ComparatorParseFailure,
    MatcherCompileFailure(String),
}

impl QueryError {
    /// A message for the user.
    pub fn message(&self) -> (r: String)
        ensures
            self is MissingClosingParen ==> r@ == "Missing closing parentheses"@,
            self is MissingOpeningParen ==> r@ == "Missing opening parentheses"@,
            self is ComparatorParseFailure ==> r@ == "Failed to parse comparator."@,
            self matches QueryError::MatcherCompileFailure(m) ==> r@ == m@,
    {
        match self {
            QueryError::MissingClosingParen => String::from_str("Missing closing parentheses"),
            QueryError::MissingOpeningParen => String::from_str("Missing opening parentheses"),
            QueryError::ComparatorParseFailure => String::from_str("Failed to parse comparator."),
            QueryError::MatcherCompileFailure(m) => m.clone(),
        }
    }
}

pub open spec fn is_and_word(t: Seq<char>) -> bool {
    ascii_lower_seq(t) == seq!['a', 'n', 'd'] || t == seq!['&', '&']
}

pub open spec fn is_or_word(t: Seq<char>) -> bool {
    ascii_lower_seq(t) == seq!['o', 'r'] || t == seq!['|', '|']
}

/// The prefix type a token names, ignoring ASCII case; `Name` for any other
/// token.
pub open spec fn prefix_type_of(t: Seq<char>) -> PrefixType {
    let l = ascii_lower_seq(t);
    if l == seq!['c', 'p', 'u'] {
        PrefixType::Cpu
    } else if l == seq!['m', 'e', 'm'] {
        PrefixType::Mem
    } else if l == seq!['r'] {
        PrefixType::Rps
    } else if l == seq!['w'] {
        PrefixType::Wps
    } else if l == seq!['r', 'e', 'a', 'd'] {
        PrefixType::TRead
    } else if l == seq!['w', 'r', 'i', 't', 'e'] {
        PrefixType::TWrite
    } else if l == seq!['p', 'i', 'd'] {
        PrefixType::Pid
    } else {
        PrefixType::Name
    }
}

/// The prefix types whose threshold may carry a byte unit.
pub open spec fn takes_unit(t: PrefixType) -> bool {
    t == PrefixType::Rps || t == PrefixType::Wps || t == PrefixType::TRead || t
        == PrefixType::TWrite
}

/// The number of bytes a unit token stands for.
pub open spec fn unit_factor(t: Seq<char>) -> Option<nat> {
    if t == seq!['T', 'B'] {
        Some(pow10(12))
    } else if t == seq!['T', 'i', 'B'] {
        Some(1_099_511_627_776)
    } else if t == seq!['G', 'B'] {
        Some(pow10(9))
    } else if t == seq!['G', 'i', 'B'] {
        Some(1_073_741_824)
    } else if t == seq!['M', 'B'] {
        Some(pow10(6))
    } else if t == seq!['M', 'i', 'B'] {
        Some(1_048_576)
    } else if t == seq!['K', 'B'] {
        Some(pow10(3))
    } else if t == seq!['K', 'i', 'B'] {
        Some(1024)
    } else if t == seq!['B'] {
        Some(1)
    } else {
        None
    }
}

/// A value token with a unit written onto it: the text before the unit, and
/// the unit's factor. The longest unit that ends the token counts.
pub open spec fn attached_unit(tok: Seq<char>) -> Option<(Seq<char>, nat)> {
    let n = tok.len() as int;
    if n >= 3 && unit_factor(tok.subrange(n - 3, n)) is Some {
        Some((tok.subrange(0, n - 3), unit_factor(tok.subrange(n - 3, n))->0))
    } else if n >= 2 && unit_factor(tok.subrange(n - 2, n)) is Some {
        Some((tok.subrange(0, n - 2), unit_factor(tok.subrange(n - 2, n))->0))
    } else if n >= 1 && unit_factor(tok.subrange(n - 1, n)) is Some {
        Some((tok.subrange(0, n - 1), unit_factor(tok.subrange(n - 1, n))->0))
    } else {
        None
    }
}

/// `d` times `f`, where the product still fits.
pub open spec fn scaled(d: Decimal, f: nat) -> Option<Decimal> {
    if d.mantissa * f <= u128::MAX {
        Some(Decimal { mantissa: (d.mantissa * f) as u128, ..d })
    } else {
        None
    }
}

pub open spec fn trim_leading_quotes(t: Seq<char>) -> Seq<char>
    decreases t.len(),
{
    if t.len() > 0 && t[0] == '"' {
        trim_leading_quotes(t.drop_first())
    } else {
        t
    }
}

pub open spec fn trim_trailing_quotes(t: Seq<char>) -> Seq<char>
    decreases t.len(),
{
    if t.len() > 0 && t.last() == '"' {
        trim_trailing_quotes(t.drop_last())
    } else {
        t
    }
}

/// The token without the double quotes at either end.
pub open spec fn trim_quotes(t: Seq<char>) -> Seq<char> {
    trim_trailing_quotes(trim_leading_quotes(t))
}

pub open spec fn numeric_criterion(kind: PrefixType, c: QueryComparison, v: Decimal) -> PrefixModel {
    PrefixModel::Compare(kind, c, v)
}

/// After a threshold ending before `next`: an optional unit token.
pub open spec fn parse_unit(
    t: Seq<Seq<char>>,
    next: int,
    kind: PrefixType,
    c: QueryComparison,
    v: Decimal,
) -> Result<(PrefixModel, int), QueryError> {
    if takes_unit(kind) && 0 <= next < t.len() && unit_factor(t[next]) is Some {
        match scaled(v, unit_factor(t[next])->0) {
            Some(w) => Ok((numeric_criterion(kind, c, w), next + 1)),
            None => Err(QueryError::ComparatorParseFailure),
        }
    } else {
        Ok((numeric_criterion(kind, c, v), next))
    }
}

/// A numeric criterion whose operator token stands at `q`. For the byte
/// fields the unit may follow the number as a token of its own or be written
/// onto it.
pub open spec fn parse_comparison(t: Seq<Seq<char>>, q: int, kind: PrefixType) -> Result<
    (PrefixModel, int),
    QueryError,
> {
    if !(0 <= q < t.len()) {
        Err(QueryError::ComparatorParseFailure)
    } else {
        let op = t[q];
        let greater = op == seq!['>'];
        let choice: Option<(QueryComparison, int)> = if op == seq!['='] {
            Some((QueryComparison::Equal, q + 1))
        } else if greater || op == seq!['<'] {
            if q + 1 < t.len() {
                if t[q + 1] == seq!['='] {
                    Some(
                        (
                            if greater {
                                QueryComparison::GreaterOrEqual
                            } else {
                                QueryComparison::LessOrEqual
                            },
                            q + 2,
                        ),
                    )
                } else {
                    Some(
                        (
                            if greater {
                                QueryComparison::Greater
                            } else {
                                QueryComparison::Less
                            },
                            q + 1,
                        ),
                    )
                }
            } else {
                None
            }
        } else {
            None
        };
        match choice {
            None => Err(QueryError::ComparatorParseFailure),
            Some((c, vi)) => if vi < t.len() {
                match parse_decimal(t[vi]) {
                    Some(v) => parse_unit(t, vi + 1, kind, c, v),
                    None => match attached_unit(t[vi]) {
                        Some((digits, f)) => if takes_unit(kind) {
                            match parse_decimal(digits) {
                                Some(v) => match scaled(v, f) {
                                    Some(w) => Ok((numeric_criterion(kind, c, w), vi + 1)),
                                    None => Err(QueryError::ComparatorParseFailure),
                                },
                                None => Err(QueryError::ComparatorParseFailure),
                            }
                        } else {
                            Err(QueryError::ComparatorParseFailure)
                        },
                        None => Err(QueryError::ComparatorParseFailure),
                    },
                }
            } else {
                Err(QueryError::ComparatorParseFailure)
            },
        }
    }
}

/// The tokens that cannot stand as the text of a `pid` search.
pub open spec fn is_operator_or_paren(t: Seq<char>) -> bool {
    t == seq!['<'] || t == seq!['>'] || t == seq!['('] || t == seq![')']
}

/// A criterion that starts with the token at `pos`, which is no parenthesis.
pub open spec fn parse_atom(t: Seq<Seq<char>>, pos: int) -> Result<(PrefixModel, int), QueryError> {
    let kind = prefix_type_of(t[pos]);
    if kind == PrefixType::Name {
        Ok((PrefixModel::Text(kind, TextModel::Raw(trim_quotes(t[pos]))), pos + 1))
    } else if kind == PrefixType::Pid {
        if pos + 1 < t.len() {
            if t[pos + 1] == seq!['='] {
                if pos + 2 < t.len() {
                    Ok((PrefixModel::Text(kind, TextModel::Raw(t[pos + 2])), pos + 3))
                } else {
                    Err(QueryError::ComparatorParseFailure)
                }
            } else if is_operator_or_paren(t[pos + 1]) {
                Err(QueryError::ComparatorParseFailure)
            } else {
                Ok((PrefixModel::Text(kind, TextModel::Raw(t[pos + 1])), pos + 2))
            }
        } else {
            Err(QueryError::ComparatorParseFailure)
        }
    } else {
        parse_comparison(t, pos + 1, kind)
    }
}

/// `Prefix := "(" And ")" | atom`, from token `pos`: the tree and the
/// position after it.
pub open spec fn parse_prefix(t: Seq<Seq<char>>, pos: int) -> Result<(PrefixModel, int), QueryError>
    decreases t.len() - pos, 1int,
{
    if !(0 <= pos < t.len()) {
        Err(QueryError::ComparatorParseFailure)
    } else if t[pos] == seq!['('] {
        match parse_and(t, pos + 1) {
            Err(e) => Err(e),
            Ok((a, p)) => if 0 <= p < t.len() && t[p] == seq![')'] {
                Ok((PrefixModel::Group(Box::new(a)), p + 1))
            } else {
                Err(QueryError::MissingClosingParen)
            },
        }
    } else if t[pos] == seq![')'] {
        Err(QueryError::MissingOpeningParen)
    } else {
        parse_atom(t, pos)
    }
}

/// The rest of an `Or` chain after its left operand `lhs`, from token `pos`.
/// Chains of three or more fold to the left through a group.
pub open spec fn or_tail(t: Seq<Seq<char>>, pos: int, lhs: PrefixModel) -> Result<
    (OrModel, int),
    QueryError,
>
    decreases t.len() - pos, 1int,
{
    if 0 <= pos < t.len() && is_or_word(t[pos]) {
        match parse_prefix(t, pos + 1) {
            Err(e) => Err(e),
            Ok((rhs, p)) => if pos + 1 < p <= t.len() {
                if p < t.len() && is_or_word(t[p]) {
                    or_tail(
                        t,
                        p,
                        PrefixModel::Group(
                            Box::new(AndModel { lhs: OrModel { lhs, rhs: Some(rhs) }, rhs: None }),
                        ),
                    )
                } else {
                    Ok((OrModel { lhs, rhs: Some(rhs) }, p))
                }
            } else {
                Err(QueryError::ComparatorParseFailure)
            },
        }
    } else {
        Ok((OrModel { lhs, rhs: None }, pos))
    }
}

/// `Or := Prefix (("or" | "||") Prefix)*`, from token `pos`.
pub open spec fn parse_or(t: Seq<Seq<char>>, pos: int) -> Result<(OrModel, int), QueryError>
    decreases t.len() - pos, 2int,
{
    match parse_prefix(t, pos) {
        Err(e) => Err(e),
        Ok((lhs, p)) => if pos < p <= t.len() {
            or_tail(t, p, lhs)
        } else {
            Err(QueryError::ComparatorParseFailure)
        },
    }
}

/// The rest of an `And` chain after its left operand `lhs`, from token `pos`.
pub open spec fn and_tail(t: Seq<Seq<char>>, pos: int, lhs: OrModel) -> Result<
    (AndModel, int),
    QueryError,
>
    decreases t.len() - pos, 2int,
{
    if 0 <= pos < t.len() && is_and_word(t[pos]) {
        match parse_or(t, pos + 1) {
            Err(e) => Err(e),
            Ok((rhs, p)) => if pos + 1 < p <= t.len() {
                if p < t.len() && is_and_word(t[p]) {
                    and_tail(
                        t,
                        p,
                        OrModel {
                            lhs: PrefixModel::Group(Box::new(AndModel { lhs, rhs: Some(rhs) })),
                            rhs: None,
                        },
                    )
                } else {
                    Ok((AndModel { lhs, rhs: Some(rhs) }, p))
                }
            } else {
                Err(QueryError::ComparatorParseFailure)
            },
        }
    } else {
        Ok((AndModel { lhs, rhs: None }, pos))
    }
}

/// `And := Or (("and" | "&&") Or)*`, from token `pos`.
pub open spec fn parse_and(t: Seq<Seq<char>>, pos: int) -> Result<(AndModel, int), QueryError>
    decreases t.len() - pos, 3int,
{
    match parse_or(t, pos) {
        Err(e) => Err(e),
        Ok((lhs, p)) => if pos < p <= t.len() {
            and_tail(t, p, lhs)
        } else {
            Err(QueryError::ComparatorParseFailure)
        },
    }
}

/// The query that matches every process: one blank criterion.
pub open spec fn blank_query() -> AndModel {
    AndModel { lhs: OrModel { lhs: PrefixModel::Blank, rhs: None }, rhs: None }
}

/// The tree a token sequence parses to. No tokens give the query that
/// matches everything. A token left over after a complete query is an
/// error: an unmatched `)`, or else a comparator error.
pub open spec fn parse_tokens(t: Seq<Seq<char>>) -> Result<AndModel, QueryError> {
    if t.len() == 0 {
        Ok(blank_query())
    } else {
        match parse_and(t, 0) {
            Ok((a, p)) => if p == t.len() {
                Ok(a)
            } else if t[p] == seq![')'] {
                Err(QueryError::MissingOpeningParen)
            } else {
                Err(QueryError::ComparatorParseFailure)
            },
            Err(e) => Err(e),
        }
    }
}

pub(crate) fn token_is(t: &String, c: char) -> (r: bool)
    ensures
        r == (t@ == seq![c]),
{
    let s = t.as_str();
    if s.unicode_len() != 1 {
        return false;
    }
    let r = s.get_char(0) == c;
    assert(r ==> t@ =~= seq![c]);
    r
}

fn and_token(t: &String) -> (r: bool)
    ensures
        r == is_and_word(t@),
{
    proof {
        reveal_strlit("and");
        reveal_strlit("&&");
    }
    let s = t.as_str();
    let a = same_text_ignoring_case(s, "and");
    let b = same_text(s, "&&");
    proof {
        assert("and"@ =~= seq!['a', 'n', 'd']);
        assert("&&"@ =~= seq!['&', '&']);
    }
    a || b
}

fn or_token(t: &String) -> (r: bool)
    ensures
        r == is_or_word(t@),
{
    proof {
        reveal_strlit("or");
        reveal_strlit("||");
    }
    let s = t.as_str();
    let a = same_text_ignoring_case(s, "or");
    let b = same_text(s, "||");
    proof {
        assert("or"@ =~= seq!['o', 'r']);
        assert("||"@ =~= seq!['|', '|']);
    }
    a || b
}

impl PrefixType {
    /// The prefix type a token names, ignoring ASCII case; `Name` for any
    /// other token.
    pub fn from_token(t: &str) -> (r: PrefixType)
        ensures
            r == prefix_type_of(t@),
    {
        proof {
            reveal_strlit("cpu");
            reveal_strlit("mem");
            reveal_strlit("r");
            reveal_strlit("w");
            reveal_strlit("read");
            reveal_strlit("write");
            reveal_strlit("pid");
            assert("cpu"@ =~= seq!['c', 'p', 'u']);
            assert("mem"@ =~= seq!['m', 'e', 'm']);
            assert("r"@ =~= seq!['r']);
            assert("w"@ =~= seq!['w']);
            assert("read"@ =~= seq!['r', 'e', 'a', 'd']);
            assert("write"@ =~= seq!['w', 'r', 'i', 't', 'e']);
            assert("pid"@ =~= seq!['p', 'i', 'd']);
        }
        if same_text_ignoring_case(t, "cpu") {
            PrefixType::Cpu
        } else if same_text_ignoring_case(t, "mem") {
            PrefixType::Mem
        } else if same_text_ignoring_case(t, "r") {
            PrefixType::Rps
        } else if same_text_ignoring_case(t, "w") {
            PrefixType::Wps
        } else if same_text_ignoring_case(t, "read") {
            PrefixType::TRead
        } else if same_text_ignoring_case(t, "write") {
            PrefixType::TWrite
        } else if same_text_ignoring_case(t, "pid") {
            PrefixType::Pid
        } else {
            PrefixType::Name
        }
    }
}

impl std::str::FromStr for PrefixType {
    type Err = QueryError;

    /// Never fails: a token that names no prefix is a name search.
    fn from_str(s: &str) -> (r: Result<PrefixType, QueryError>)
        ensures
            r == Ok::<PrefixType, QueryError>(prefix_type_of(s@)),
    {
        Ok(PrefixType::from_token(s))
    }
}

/// The number of bytes a unit token stands for.
pub fn unit_of(t: &str) -> (r: Option<u64>)
    ensures
        r matches Some(f) ==> unit_factor(t@) == Some(f as nat),
        r is None ==> unit_factor(t@) is None,
{
    proof {
        reveal_strlit("TB");
        reveal_strlit("TiB");
        reveal_strlit("GB");
        reveal_strlit("GiB");
        reveal_strlit("MB");
        reveal_strlit("MiB");
        reveal_strlit("KB");
        reveal_strlit("KiB");
        reveal_strlit("B");
        assert("TB"@ =~= seq!['T', 'B']);
        assert("TiB"@ =~= seq!['T', 'i', 'B']);
        assert("GB"@ =~= seq!['G', 'B']);
        assert("GiB"@ =~= seq!['G', 'i', 'B']);
        assert("MB"@ =~= seq!['M', 'B']);
        assert("MiB"@ =~= seq!['M', 'i', 'B']);
        assert("KB"@ =~= seq!['K', 'B']);
        assert("KiB"@ =~= seq!['K', 'i', 'B']);
        assert("B"@ =~= seq!['B']);
        reveal_with_fuel(pow10, 13);
    }
    if same_text(t, "TB") {
        Some(1_000_000_000_000)
    } else if same_text(t, "TiB") {
        Some(1_099_511_627_776)
    } else if same_text(t, "GB") {
        Some(1_000_000_000)
    } else if same_text(t, "GiB") {
        Some(1_073_741_824)
    } else if same_text(t, "MB") {
        Some(1_000_000)
    } else if same_text(t, "MiB") {
        Some(1_048_576)
    } else if same_text(t, "KB") {
        Some(1000)
    } else if same_text(t, "KiB") {
        Some(1024)
    } else if same_text(t, "B") {
        Some(1)
    } else {
        None
    }
}

/// Splits a unit written onto the end of a value token; see `attached_unit`.
pub fn split_unit(t: &str) -> (r: Option<(String, u64)>)
    ensures
        match r {
            Some((digits, f)) => attached_unit(t@) == Some((digits@, f as nat)),
            None => attached_unit(t@) is None,
        },
{
    let n = t.unicode_len();
    let mut k: usize = 3;
    while k > 0
        invariant
            n == t@.len(),
            k <= 3,
            forall|j: int|
                k < j <= 3 && j <= n ==> unit_factor(
                    #[trigger] t@.subrange(n - j, n as int),
                ) is None,
        decreases k,
    {
        if n >= k {
            match unit_of(t.substring_char(n - k, n)) {
                Some(f) => {
                    let digits = t.substring_char(0, n - k).to_owned();
                    return Some((digits, f));
                },
                None => {},
            }
        }
        k = k - 1;
    }
    None
}

/// Removes the double quotes at either end of a token.
pub fn strip_quotes(t: &str) -> (r: String)
    ensures
        r@ == trim_quotes(t@),
{
    let n = t.unicode_len();
    let mut i: usize = 0;
    assert(t@.subrange(0, n as int) =~= t@);
    while i < n && t.get_char(i) == '"'
        invariant
            n == t@.len(),
            i <= n,
            trim_leading_quotes(t@) == trim_leading_quotes(t@.subrange(i as int, n as int)),
        decreases n - i,
    {
        assert(t@.subrange(i as int, n as int).drop_first() =~= t@.subrange(i + 1, n as int));
        i = i + 1;
    }
    let ghost lead = t@.subrange(i as int, n as int);
    assert(trim_leading_quotes(lead) == lead);
    let mut j: usize = n;
    while j > i && t.get_char(j - 1) == '"'
        invariant
            n == t@.len(),
            i <= j <= n,
            lead == t@.subrange(i as int, n as int),
            trim_trailing_quotes(lead) == trim_trailing_quotes(t@.subrange(i as int, j as int)),
        decreases j,
    {
        assert(t@.subrange(i as int, j as int).drop_last() =~= t@.subrange(i as int, j - 1));
        j = j - 1;
    }
    assert(trim_trailing_quotes(t@.subrange(i as int, j as int)) == t@.subrange(i as int, j as int));
    t.substring_char(i, j).to_owned()
}


/// `r` is the exec result that `s` describes, ending after `lo` and by `hi`.
pub open spec fn prefix_agrees(
    r: Result<(Prefix, usize), QueryError>,
    s: Result<(PrefixModel, int), QueryError>,
    lo: int,
    hi: int,
) -> bool {
    match r {
        Ok((x, p)) => s == Ok::<(PrefixModel, int), QueryError>((x.model(), p as int)) && lo < p
            <= hi,
        Err(e) => s == Err::<(PrefixModel, int), QueryError>(e),
    }
}

pub open spec fn or_agrees(
    r: Result<(Or, usize), QueryError>,
    s: Result<(OrModel, int), QueryError>,
    lo: int,
    hi: int,
) -> bool {
    match r {
        Ok((x, p)) => s == Ok::<(OrModel, int), QueryError>((x.model(), p as int)) && lo < p <= hi,
        Err(e) => s == Err::<(OrModel, int), QueryError>(e),
    }
}

pub open spec fn and_agrees(
    r: Result<(And, usize), QueryError>,
    s: Result<(AndModel, int), QueryError>,
    lo: int,
    hi: int,
) -> bool {
    match r {
        Ok((x, p)) => s == Ok::<(AndModel, int), QueryError>((x.model(), p as int)) && lo < p <= hi,
        Err(e) => s == Err::<(AndModel, int), QueryError>(e),
    }
}

fn group(a: And) -> (r: Prefix)
    ensures
        r.model() == PrefixModel::Group(Box::new(a.model())),
{
    Prefix { and: Some(Box::new(a)), regex_prefix: None, compare_prefix: None }
}

fn text_criterion(kind: PrefixType, text: String) -> (r: Prefix)
    ensures
        r.model() == PrefixModel::Text(kind, TextModel::Raw(text@)),
{
    Prefix { and: None, regex_prefix: Some((kind, StringQuery::Value(text))), compare_prefix: None }
}

fn numeric_prefix(kind: PrefixType, c: QueryComparison, v: Decimal) -> (r: Prefix)
    ensures
        r.model() == numeric_criterion(kind, c, v),
{
    Prefix {
        and: None,
        regex_prefix: None,
        compare_prefix: Some((kind, NumericalQuery { condition: c, value: v })),
    }
}

fn parse_unit_at(
    toks: &Vec<String>,
    next: usize,
    kind: PrefixType,
    c: QueryComparison,
    v: Decimal,
) -> (r: Result<(Prefix, usize), QueryError>)
    requires
        next <= toks.len(),
    ensures
        prefix_agrees(r, parse_unit(texts(toks@), next as int, kind, c, v), next - 1, toks.len() as int),
{
    let unit = kind == PrefixType::Rps || kind == PrefixType::Wps || kind == PrefixType::TRead
        || kind == PrefixType::TWrite;
    if unit && next < toks.len() {
        match unit_of(toks[next].as_str()) {
            Some(f) => match v.mantissa.checked_mul(f as u128) {
                Some(m) => Ok((numeric_prefix(kind, c, Decimal { mantissa: m, ..v }), next + 1)),
                None => Err(QueryError::ComparatorParseFailure),
            },
            None => Ok((numeric_prefix(kind, c, v), next)),
        }
    } else {
        Ok((numeric_prefix(kind, c, v), next))
    }
}

fn parse_comparison_at(toks: &Vec<String>, q: usize, kind: PrefixType) -> (r: Result<
    (Prefix, usize),
    QueryError,
>)
    requires
        q <= toks.len(),
    ensures
        prefix_agrees(r, parse_comparison(texts(toks@), q as int, kind), q as int, toks.len() as int),
{
    if q >= toks.len() {
        return Err(QueryError::ComparatorParseFailure);
    }
    let op = &toks[q];
    let greater = token_is(op, '>');
    let (c, vi) = if token_is(op, '=') {
        (QueryComparison::Equal, q + 1)
    } else if greater || token_is(op, '<') {
        if q + 1 < toks.len() {
            if token_is(&toks[q + 1], '=') {
                (
                    if greater {
                        QueryComparison::GreaterOrEqual
                    } else {
                        QueryComparison::LessOrEqual
                    },
                    q + 2,
                )
            } else {
                (
                    if greater {
                        QueryComparison::Greater
                    } else {
                        QueryComparison::Less
                    },
                    q + 1,
                )
            }
        } else {
            return Err(QueryError::ComparatorParseFailure);
        }
    } else {
        return Err(QueryError::ComparatorParseFailure);
    };
    if vi < toks.len() {
        match Decimal::parse(toks[vi].as_str()) {
            Some(v) => parse_unit_at(toks, vi + 1, kind, c, v),
            None => {
                let unit = kind == PrefixType::Rps || kind == PrefixType::Wps || kind
                    == PrefixType::TRead || kind == PrefixType::TWrite;
                match split_unit(toks[vi].as_str()) {
                    Some((digits, f)) => {
                        if !unit {
                            return Err(QueryError::ComparatorParseFailure);
                        }
                        match Decimal::parse(digits.as_str()) {
                            Some(v) => match v.mantissa.checked_mul(f as u128) {
                                Some(m) => Ok(
                                    (numeric_prefix(kind, c, Decimal { mantissa: m, ..v }), vi + 1),
                                ),
                                None => Err(QueryError::ComparatorParseFailure),
                            },
                            None => Err(QueryError::ComparatorParseFailure),
                        }
                    },
                    None => Err(QueryError::ComparatorParseFailure),
                }
            },
        }
    } else {
        Err(QueryError::ComparatorParseFailure)
    }
}

fn parse_atom_at(toks: &Vec<String>, pos: usize) -> (r: Result<(Prefix, usize), QueryError>)
    requires
        pos < toks.len(),
    ensures
        prefix_agrees(r, parse_atom(texts(toks@), pos as int), pos as int, toks.len() as int),
{
    let first = &toks[pos];
    let kind = PrefixType::from_token(first.as_str());
    match kind {
        PrefixType::Name => Ok((text_criterion(kind, strip_quotes(first.as_str())), pos + 1)),
        PrefixType::Pid => {
            if pos + 1 < toks.len() {
                if token_is(&toks[pos + 1], '=') {
                    if pos + 2 < toks.len() {
                        Ok((text_criterion(kind, toks[pos + 2].clone()), pos + 3))
                    } else {
                        Err(QueryError::ComparatorParseFailure)
                    }
                } else if token_is(&toks[pos + 1], '<') || token_is(&toks[pos + 1], '>')
                    || token_is(&toks[pos + 1], '(') || token_is(&toks[pos + 1], ')') {
                    Err(QueryError::ComparatorParseFailure)
                } else {
                    Ok((text_criterion(kind, toks[pos + 1].clone()), pos + 2))
                }
            } else {
                Err(QueryError::ComparatorParseFailure)
            }
        },
        _ => parse_comparison_at(toks, pos + 1, kind),
    }
}

fn parse_prefix_at(toks: &Vec<String>, pos: usize) -> (r: Result<(Prefix, usize), QueryError>)
    requires
        pos <= toks.len(),
    ensures
        prefix_agrees(r, parse_prefix(texts(toks@), pos as int), pos as int, toks.len() as int),
    decreases toks.len() - pos, 1int,
{
    if pos >= toks.len() {
        return Err(QueryError::ComparatorParseFailure);
    }
    if token_is(&toks[pos], '(') {
        match parse_and_at(toks, pos + 1) {
            Err(e) => Err(e),
            Ok((a, p)) => {
                if p < toks.len() && token_is(&toks[p], ')') {
                    Ok((group(a), p + 1))
                } else {
                    Err(QueryError::MissingClosingParen)
                }
            },
        }
    } else if token_is(&toks[pos], ')') {
        Err(QueryError::MissingOpeningParen)
    } else {
        parse_atom_at(toks, pos)
    }
}

fn or_tail_at(toks: &Vec<String>, pos: usize, lhs: Prefix) -> (r: Result<(Or, usize), QueryError>)
    requires
        pos <= toks.len(),
    ensures
        or_agrees(r, or_tail(texts(toks@), pos as int, lhs.model()), pos - 1, toks.len() as int),
    decreases toks.len() - pos, 1int,
{
    if pos < toks.len() && or_token(&toks[pos]) {
        match parse_prefix_at(toks, pos + 1) {
            Err(e) => Err(e),
            Ok((rhs, p)) => {
                if p < toks.len() && or_token(&toks[p]) {
                    let folded = group(And { lhs: Or { lhs, rhs: Some(Box::new(rhs)) }, rhs: None });
                    or_tail_at(toks, p, folded)
                } else {
                    Ok((Or { lhs, rhs: Some(Box::new(rhs)) }, p))
                }
            },
        }
    } else {
        Ok((Or { lhs, rhs: None }, pos))
    }
}

fn parse_or_at(toks: &Vec<String>, pos: usize) -> (r: Result<(Or, usize), QueryError>)
    requires
        pos <= toks.len(),
    ensures
        or_agrees(r, parse_or(texts(toks@), pos as int), pos as int, toks.len() as int),
    decreases toks.len() - pos, 2int,
{
    match parse_prefix_at(toks, pos) {
        Err(e) => Err(e),
        Ok((lhs, p)) => or_tail_at(toks, p, lhs),
    }
}

fn and_tail_at(toks: &Vec<String>, pos: usize, lhs: Or) -> (r: Result<(And, usize), QueryError>)
    requires
        pos <= toks.len(),
    ensures
        and_agrees(r, and_tail(texts(toks@), pos as int, lhs.model()), pos - 1, toks.len() as int),
    decreases toks.len() - pos, 2int,
{
    if pos < toks.len() && and_token(&toks[pos]) {
        match parse_or_at(toks, pos + 1) {
            Err(e) => Err(e),
            Ok((rhs, p)) => {
                if p < toks.len() && and_token(&toks[p]) {
                    let folded = Or {
                        lhs: group(And { lhs, rhs: Some(Box::new(rhs)) }),
                        rhs: None,
                    };
                    and_tail_at(toks, p, folded)
                } else {
                    Ok((And { lhs, rhs: Some(Box::new(rhs)) }, p))
                }
            },
        }
    } else {
        Ok((And { lhs, rhs: None }, pos))
    }
}

pub(crate) fn parse_and_at(toks: &Vec<String>, pos: usize) -> (r: Result<(And, usize), QueryError>)
    requires
        pos <= toks.len(),
    ensures
        and_agrees(r, parse_and(texts(toks@), pos as int), pos as int, toks.len() as int),
    decreases toks.len() - pos, 3int,
{
    match parse_or_at(toks, pos) {
        Err(e) => Err(e),
        Ok((lhs, p)) => and_tail_at(toks, p, lhs),
    }
}

} // verus!
