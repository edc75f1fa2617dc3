use vstd::prelude::*;
use vstd::string::*;
use crate::matcher::{Matcher, pattern_finds, finds};
use crate::number::{Decimal, compare, dec_lt, dec_near, near};

verus! {

/// The process field a criterion constrains.
#[derive(Clone, Copy, Debug, PartialEq, Eq, Structural)]
pub enum PrefixType {
    Pid,
    Cpu,
    Mem,
    Rps,
    Wps,
    TRead,
    TWrite,
    Name,
}

#[derive(Clone, Copy, Debug, PartialEq, Eq, Structural)]
pub enum QueryComparison {
    Equal,
    Less,
    Greater,
    LessOrEqual,
    GreaterOrEqual,
}

/// The search text of a string criterion: raw until compiled, then a matcher.
#[derive(Debug)]
pub enum StringQuery {
    Value(String),
    Regex(Matcher),
}

/// A numeric criterion: a comparison against a threshold in base units.
#[derive(Clone, Copy, Debug)]
pub struct NumericalQuery {
    pub condition: QueryComparison,
    pub value: Decimal,
}

#[derive(Debug)]
pub struct Query {
    pub query: And,
}

/// A conjunction; an absent right side means no further operand.
#[derive(Debug)]
pub struct And {
    pub lhs: Or,
    pub rhs: Option<Box<Or>>,
}

/// A disjunction; an absent right side means no further operand.
#[derive(Debug)]
pub struct Or {
    pub lhs: Prefix,
    pub rhs: Option<Box<Prefix>>,
}

/// A group, a string criterion or a numeric criterion. The parser fills
/// exactly one of the three; the first one present is the one that counts.
#[derive(Debug)]
pub struct Prefix {
    pub and: Option<Box<And>>,
    pub regex_prefix: Option<(PrefixType, StringQuery)>,
    pub compare_prefix: Option<(PrefixType, NumericalQuery)>,
}

/// One process as the evaluator sees it.
#[derive(Debug)]
pub struct ProcessRecord {
    pub name: String,
    pub pid: u32,
    pub cpu_usage: Decimal,
    pub mem_usage: Decimal,
    pub rps: Decimal,
    pub wps: Decimal,
    pub total_read: Decimal,
    pub total_write: Decimal,
}

/// Mathematical model of a string criterion's text.
pub enum TextModel {
    Raw(Seq<char>),
    Compiled(Seq<char>),
}

/// Mathematical model of a `Prefix`.
pub enum PrefixModel {
    Group(Box<AndModel>),
    Text(PrefixType, TextModel),
    Compare(PrefixType, QueryComparison, Decimal),
    Blank,
}

pub struct OrModel {
    pub lhs: PrefixModel,
    pub rhs: Option<PrefixModel>,
}

pub struct AndModel {
    pub lhs: OrModel,
    pub rhs: Option<OrModel>,
}

impl StringQuery {
    pub open spec fn model(&self) -> TextModel {
        match self {
            StringQuery::Value(s) => TextModel::Raw(s@),
            StringQuery::Regex(m) => TextModel::Compiled(m.pattern()),
        }
    }
}

impl And {
    pub open spec fn model(&self) -> AndModel
        decreases self,
    {
        AndModel {
            lhs: self.lhs.model(),
            rhs: match &self.rhs {
                Some(r) => Some(r.model()),
                None => None,
            },
        }
    }
}

impl Or {
    pub open spec fn model(&self) -> OrModel
        decreases self,
    {
        OrModel {
            lhs: self.lhs.model(),
            rhs: match &self.rhs {
                Some(r) => Some(r.model()),
                None => None,
            },
        }
    }
}

impl Prefix {
    pub open spec fn model(&self) -> PrefixModel
        decreases self,
    {
        match &self.and {
            Some(a) => PrefixModel::Group(Box::new(a.model())),
            None => match &self.regex_prefix {
                Some((t, q)) => PrefixModel::Text(*t, q.model()),
                None => match &self.compare_prefix {
                    Some((t, n)) => PrefixModel::Compare(*t, n.condition, n.value),
                    None => PrefixModel::Blank,
                },
            },
        }
    }
}

impl Query {
    pub open spec fn model(&self) -> AndModel {
        self.query.model()
    }
}

pub open spec fn digit_char(d: nat) -> char {
    ((d + '0' as nat) as u8) as char
}

/// The decimal digits of `n`, without leading zeros.
pub open spec fn decimal_text(n: nat) -> Seq<char>
    decreases n,
{
    if n < 10 {
        seq![digit_char(n)]
    } else {
        decimal_text(n / 10) + seq![digit_char(n % 10)]
    }
}

/// Whether `field` compares to `threshold` as `op` says. `Equal` holds when
/// they differ by less than `f64::EPSILON`; the orderings are exact.
pub open spec fn comparison_holds(op: QueryComparison, field: Decimal, threshold: Decimal) -> bool {
    match op {
        QueryComparison::Equal => dec_near(field, threshold),
        QueryComparison::Less => dec_lt(field, threshold),
        QueryComparison::Greater => dec_lt(threshold, field),
        QueryComparison::LessOrEqual => !dec_lt(threshold, field),
        QueryComparison::GreaterOrEqual => !dec_lt(field, threshold),
    }
}

/// The record's value for a numeric prefix type.
pub open spec fn numeric_field(t: PrefixType, p: ProcessRecord) -> Option<Decimal> {
    match t {
        PrefixType::Cpu => Some(p.cpu_usage),
        PrefixType::Mem => Some(p.mem_usage),
        PrefixType::Rps => Some(p.rps),
        PrefixType::Wps => Some(p.wps),
        PrefixType::TRead => Some(p.total_read),
        PrefixType::TWrite => Some(p.total_write),
        _ => None,
    }
}

/// Whether a record passes a query tree; combinations the parser never
/// builds pass.
pub open spec fn eval_and(a: AndModel, p: ProcessRecord) -> bool
    decreases a,
{
    match a.rhs {
        Some(r) => eval_or(a.lhs, p) && eval_or(r, p),
        None => eval_or(a.lhs, p),
    }
}

pub open spec fn eval_or(o: OrModel, p: ProcessRecord) -> bool
    decreases o,
{
    match o.rhs {
        Some(r) => eval_prefix(o.lhs, p) || eval_prefix(r, p),
        None => eval_prefix(o.lhs, p),
    }
}

pub open spec fn eval_prefix(x: PrefixModel, p: ProcessRecord) -> bool
    decreases x,
{
    match x {
        PrefixModel::Group(a) => eval_and(*a, p),
        PrefixModel::Text(PrefixType::Name, TextModel::Compiled(pat)) => pattern_finds(pat, p.name@),
        PrefixModel::Text(PrefixType::Pid, TextModel::Compiled(pat)) => pattern_finds(
            pat,
            decimal_text(p.pid as nat),
        ),
        PrefixModel::Compare(t, op, v) => match numeric_field(t, p) {
            Some(f) => comparison_holds(op, f, v),
            None => true,
        },
        _ => true,
    }
}

fn digit_str(d: u32) -> (r: &'static str)
    requires
        d < 10,
    ensures
        r@ == seq![digit_char(d as nat)],
{
    proof {
        reveal_strlit("0");
        reveal_strlit("1");
        reveal_strlit("2");
        reveal_strlit("3");
        reveal_strlit("4");
        reveal_strlit("5");
        reveal_strlit("6");
        reveal_strlit("7");
        reveal_strlit("8");
        reveal_strlit("9");
    }
    let r = if d == 0 {
        "0"
    } else if d == 1 {
        "1"
    } else if d == 2 {
        "2"
    } else if d == 3 {
        "3"
    } else if d == 4 {
        "4"
    } else if d == 5 {
        "5"
    } else if d == 6 {
        "6"
    } else if d == 7 {
        "7"
    } else if d == 8 {
        "8"
    } else {
        "9"
    };
    assert(r@ =~= seq![digit_char(d as nat)]);
    r
}

fn append_decimal(s: &mut String, n: u32)
    ensures
        final(s)@ == old(s)@ + decimal_text(n as nat),
    decreases n,
{
    if n >= 10 {
        append_decimal(s, n / 10);
    }
    s.append(digit_str(n % 10));
    proof {
        assert(final(s)@ =~= old(s)@ + decimal_text(n as nat));
    }
}

/// Renders a process id as decimal text.
pub fn pid_text(n: u32) -> (r: String)
    ensures
        r@ == decimal_text(n as nat),
{
    let mut s = String::new();
    append_decimal(&mut s, n);
    assert(s@ =~= decimal_text(n as nat));
    s
}

fn comparison_check(op: QueryComparison, field: &Decimal, threshold: &Decimal) -> (r: bool)
    ensures
        r == comparison_holds(op, *field, *threshold),
{
    let c = compare(field, threshold);
    match op {
        QueryComparison::Equal => near(field, threshold),
        QueryComparison::Less => c == -1,
        QueryComparison::Greater => c == 1,
        QueryComparison::LessOrEqual => c != 1,
        QueryComparison::GreaterOrEqual => c != -1,
    }
}

impl Query {
    /// Whether `process` passes this query.
    pub fn check(&self, process: &ProcessRecord) -> (r: bool)
        ensures
            r == eval_and(self.model(), *process),
    {
        self.query.check(process)
    }
}

impl And {
    pub fn check(&self, process: &ProcessRecord) -> (r: bool)
        ensures
            r == eval_and(self.model(), *process),
        decreases self,
    {
        match &self.rhs {
            Some(rhs) => self.lhs.check(process) && rhs.check(process),
            None => self.lhs.check(process),
        }
    }
}

impl Or {
    pub fn check(&self, process: &ProcessRecord) -> (r: bool)
        ensures
            r == eval_or(self.model(), *process),
        decreases self,
    {
        match &self.rhs {
            Some(rhs) => self.lhs.check(process) || rhs.check(process),
            None => self.lhs.check(process),
        }
    }
}

impl Prefix {
    pub fn check(&self, process: &ProcessRecord) -> (r: bool)
        ensures
            r == eval_prefix(self.model(), *process),
        decreases self,
    {
        match &self.and {
            Some(and) => and.check(process),
            None => match &self.regex_prefix {
                Some((prefix_type, query_content)) => match query_content {
                    StringQuery::Regex(m) => match prefix_type {
                        PrefixType::Name => finds(m, process.name.as_str()),
                        PrefixType::Pid => {
                            let text = pid_text(process.pid);
                            finds(m, text.as_str())
                        },
                        _ => true,
                    },
                    StringQuery::Value(_) => true,
                },
                None => match &self.compare_prefix {
                    Some((prefix_type, numerical_query)) => {
                        let field = match prefix_type {
                            PrefixType::Cpu => &process.cpu_usage,
                            PrefixType::Mem => &process.mem_usage,
                            PrefixType::Rps => &process.rps,
                            PrefixType::Wps => &process.wps,
                            PrefixType::TRead => &process.total_read,
                            PrefixType::TWrite => &process.total_write,
                            _ => {
                                return true;
                            },
                        };
                        comparison_check(numerical_query.condition, field, &numerical_query.value)
                    },
                    None => true,
                },
            },
        }
    }
}

} // verus!
