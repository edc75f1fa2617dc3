use vstd::prelude::*;
use crate::ast::{
    AndModel, OrModel, PrefixModel, PrefixType, ProcessRecord, QueryComparison, TextModel,
    comparison_holds, decimal_text, eval_and, eval_or, eval_prefix, numeric_field,
};
use crate::compile::{accepted_and, compiled_and, compiled_or, compiled_prefix, pattern_of};
use crate::matcher::{escaped, pattern_finds};
use crate::number::{Decimal, dec_lt, first_exponent_mark, parse_decimal, plain_decimal, scan_digits};
use crate::parse::{
    QueryError, and_tail, is_and_word, is_or_word, or_tail, parse_and, parse_atom,
    parse_comparison, parse_or, parse_prefix, parse_tokens, parse_unit, prefix_type_of,
    trim_quotes,
};

verus! {

/// A tree of one criterion.
pub open spec fn single(x: PrefixModel) -> AndModel {
    AndModel { lhs: OrModel { lhs: x, rhs: None }, rhs: None }
}

/// The tokens that spell a comparison operator.
pub open spec fn op_tokens(c: QueryComparison) -> Seq<Seq<char>> {
    match c {
        QueryComparison::Equal => seq![seq!['=']],
        QueryComparison::Less => seq![seq!['<']],
        QueryComparison::Greater => seq![seq!['>']],
        QueryComparison::LessOrEqual => seq![seq!['<'], seq!['=']],
        QueryComparison::GreaterOrEqual => seq![seq!['>'], seq!['=']],
    }
}

/// A token that parses as a name search on its own: no keyword, no
/// parenthesis, no boolean operator.
pub open spec fn plain_word(w: Seq<char>) -> bool {
    &&& prefix_type_of(w) == PrefixType::Name
    &&& w != seq!['(']
    &&& w != seq![')']
    &&& !is_and_word(w)
    &&& !is_or_word(w)
}

proof fn lemma_equals_sign_is_no_number()
    ensures
        parse_decimal(seq!['=']) is None,
{
    reveal(parse_decimal);
    let e = seq!['='];
    assert(e.drop_first() =~= Seq::<char>::empty());
    assert(e.drop_last() =~= Seq::<char>::empty());
    assert(first_exponent_mark(e.drop_first()) is None);
    assert(first_exponent_mark(e) is None);
    assert(scan_digits(e) is None);
    assert(!(e.len() > 0 && (e[0] == '-' || e[0] == '+')));
    assert(plain_decimal(e) is None);
}

/// A numeric prefix, an operator and a number form one comparison: the
/// query holds of a record exactly when the record's field compares to the
/// number as the operator says, whatever the search flags.
pub proof fn lemma_single_comparison(
    kw: Seq<char>,
    c: QueryComparison,
    num: Seq<char>,
    ww: bool,
    ic: bool,
    rx: bool,
    p: ProcessRecord,
)
    requires
        numeric_field(prefix_type_of(kw), p) is Some,
        parse_decimal(num) is Some,
    ensures
        ({
            let kind = prefix_type_of(kw);
            let v = parse_decimal(num)->0;
            let a = single(PrefixModel::Compare(kind, c, v));
            &&& parse_tokens(seq![kw] + op_tokens(c) + seq![num]) == Ok::<AndModel, QueryError>(a)
            &&& accepted_and(a, ww, ic, rx)
            &&& compiled_and(a, ww, ic, rx) == a
            &&& eval_and(a, p) == comparison_holds(c, numeric_field(kind, p)->0, v)
        }),
{
    let t = seq![kw] + op_tokens(c) + seq![num];
    let kind = prefix_type_of(kw);
    let v = parse_decimal(num)->0;
    let x = PrefixModel::Compare(kind, c, v);
    let n = t.len() as int;
    assert(t[0] == kw);
    assert(t[n - 1] == num);
    assert(kw != seq!['('] && kw != seq![')']) by {
        if kw == seq!['('] || kw == seq![')'] {
            assert(crate::text::ascii_lower_seq(kw) =~= kw);
        }
    }
    lemma_equals_sign_is_no_number();
    let eq = seq!['='];
    let lt = seq!['<'];
    let gt = seq!['>'];
    assert(eq != lt && eq != gt && lt != gt) by {
        assert(eq[0] != lt[0] && eq[0] != gt[0] && lt[0] != gt[0]);
    }
    match c {
        QueryComparison::Equal => {
            assert(n == 3 && t[1] == eq && t[2] == num);
        },
        QueryComparison::Less => {
            assert(n == 3 && t[1] == lt && t[2] == num);
        },
        QueryComparison::Greater => {
            assert(n == 3 && t[1] == gt && t[2] == num);
        },
        QueryComparison::LessOrEqual => {
            assert(n == 4 && t[1] == lt && t[2] == eq && t[3] == num);
        },
        QueryComparison::GreaterOrEqual => {
            assert(n == 4 && t[1] == gt && t[2] == eq && t[3] == num);
        },
    }
    assert(parse_unit(t, n, kind, c, v) == Ok::<(PrefixModel, int), QueryError>((x, n)));
    assert(parse_comparison(t, 1, kind) == Ok::<(PrefixModel, int), QueryError>((x, n)));
    assert(parse_atom(t, 0) == Ok::<(PrefixModel, int), QueryError>((x, n)));
    assert(parse_prefix(t, 0) == Ok::<(PrefixModel, int), QueryError>((x, n)));
    assert(or_tail(t, n, x) == Ok::<(OrModel, int), QueryError>((OrModel { lhs: x, rhs: None }, n)));
    assert(parse_or(t, 0) == Ok::<(OrModel, int), QueryError>((OrModel { lhs: x, rhs: None }, n)));
    assert(and_tail(t, n, OrModel { lhs: x, rhs: None }) == Ok::<(AndModel, int), QueryError>(
        (single(x), n),
    ));
    assert(parse_and(t, 0) == Ok::<(AndModel, int), QueryError>((single(x), n)));
}

/// An operator with no number after it is a comparator error, not a query.
pub proof fn lemma_missing_value(kw: Seq<char>, c: QueryComparison)
    requires
        prefix_type_of(kw) != PrefixType::Name,
        prefix_type_of(kw) != PrefixType::Pid,
    ensures
        parse_tokens(seq![kw] + op_tokens(c)) == Err::<AndModel, QueryError>(
            QueryError::ComparatorParseFailure,
        ),
{
    let t = seq![kw] + op_tokens(c);
    let n = t.len() as int;
    let kind = prefix_type_of(kw);
    assert(t[0] == kw);
    assert(kw != seq!['('] && kw != seq![')']) by {
        if kw == seq!['('] || kw == seq![')'] {
            assert(crate::text::ascii_lower_seq(kw) =~= kw);
        }
    }
    let eq = seq!['='];
    let lt = seq!['<'];
    let gt = seq!['>'];
    assert(eq != lt && eq != gt && lt != gt) by {
        assert(eq[0] != lt[0] && eq[0] != gt[0] && lt[0] != gt[0]);
    }
    match c {
        QueryComparison::Equal => {
            assert(n == 2 && t[1] == eq);
        },
        QueryComparison::Less => {
            assert(n == 2 && t[1] == lt);
        },
        QueryComparison::Greater => {
            assert(n == 2 && t[1] == gt);
        },
        QueryComparison::LessOrEqual => {
            assert(n == 3 && t[1] == lt && t[2] == eq);
        },
        QueryComparison::GreaterOrEqual => {
            assert(n == 3 && t[1] == gt && t[2] == eq);
        },
    }
    assert(parse_comparison(t, 1, kind) is Err);
    assert(parse_prefix(t, 0) is Err);
    assert(parse_or(t, 0) is Err);
}

/// A token that names no prefix is a name search for its text, with the
/// quotes at its ends removed.
pub proof fn lemma_name_fallback(w: Seq<char>)
    requires
        prefix_type_of(w) == PrefixType::Name,
        w != seq!['('],
        w != seq![')'],
    ensures
        parse_tokens(seq![w]) == Ok::<AndModel, QueryError>(
            single(PrefixModel::Text(PrefixType::Name, TextModel::Raw(trim_quotes(w)))),
        ),
{
    let t = seq![w];
    let x = PrefixModel::Text(PrefixType::Name, TextModel::Raw(trim_quotes(w)));
    assert(t[0] == w);
    assert(parse_prefix(t, 0) == Ok::<(PrefixModel, int), QueryError>((x, 1)));
    assert(or_tail(t, 1, x) == Ok::<(OrModel, int), QueryError>((OrModel { lhs: x, rhs: None }, 1)));
    assert(parse_or(t, 0) == Ok::<(OrModel, int), QueryError>((OrModel { lhs: x, rhs: None }, 1)));
    assert(and_tail(t, 1, OrModel { lhs: x, rhs: None }) == Ok::<(AndModel, int), QueryError>(
        (single(x), 1),
    ));
}

/// The leaf a plain word parses to.
pub open spec fn name_leaf(w: Seq<char>) -> PrefixModel {
    PrefixModel::Text(PrefixType::Name, TextModel::Raw(trim_quotes(w)))
}

pub open spec fn or_leaf(w: Seq<char>) -> OrModel {
    OrModel { lhs: name_leaf(w), rhs: None }
}

pub open spec fn and_word() -> Seq<char> {
    seq!['a', 'n', 'd']
}

/// The tree both spellings of a three-word conjunction parse to.
pub open spec fn and_chain_tree(x: Seq<char>, y: Seq<char>, z: Seq<char>) -> AndModel {
    AndModel {
        lhs: OrModel {
            lhs: PrefixModel::Group(Box::new(AndModel { lhs: or_leaf(x), rhs: Some(or_leaf(y)) })),
            rhs: None,
        },
        rhs: Some(or_leaf(z)),
    }
}

proof fn lemma_word_facts()
    ensures
        is_and_word(and_word()),
        !is_or_word(and_word()),
        !is_and_word(seq![')']),
        !is_or_word(seq![')']),
        and_word() != seq!['('],
        and_word() != seq![')'],
        seq!['('] != seq![')'],
{
    let close = seq![')'];
    assert(crate::text::ascii_lower_seq(and_word()) =~= and_word());
    assert(crate::text::ascii_lower_seq(and_word()).len() != 2);
    assert(crate::text::ascii_lower_seq(close) =~= close);
    assert(seq!['('][0] != seq![')'][0]);
}

proof fn lemma_leaf(t: Seq<Seq<char>>, i: int)
    requires
        0 <= i < t.len(),
        plain_word(t[i]),
        i + 1 < t.len() ==> !is_or_word(t[i + 1]),
    ensures
        parse_or(t, i) == Ok::<(OrModel, int), QueryError>((or_leaf(t[i]), i + 1)),
{
    let w = t[i];
    assert(parse_prefix(t, i) == Ok::<(PrefixModel, int), QueryError>((name_leaf(w), i + 1)));
    assert(or_tail(t, i + 1, name_leaf(w)) == Ok::<(OrModel, int), QueryError>((or_leaf(w), i + 1)));
}

proof fn lemma_chain_parse(x: Seq<char>, y: Seq<char>, z: Seq<char>)
    requires
        plain_word(x),
        plain_word(y),
        plain_word(z),
    ensures
        parse_tokens(seq![x, and_word(), y, and_word(), z]) == Ok::<AndModel, QueryError>(
            and_chain_tree(x, y, z),
        ),
{
    lemma_word_facts();
    let t = seq![x, and_word(), y, and_word(), z];
    let tree = and_chain_tree(x, y, z);
    assert(t[0] == x && t[1] == and_word() && t[2] == y && t[3] == and_word() && t[4] == z);
    lemma_leaf(t, 0);
    lemma_leaf(t, 2);
    lemma_leaf(t, 4);
    assert(and_tail(t, 3, tree.lhs) == Ok::<(AndModel, int), QueryError>((tree, 5)));
    assert(and_tail(t, 1, or_leaf(x)) == Ok::<(AndModel, int), QueryError>((tree, 5)));
    assert(parse_and(t, 0) == Ok::<(AndModel, int), QueryError>((tree, 5)));
}

proof fn lemma_grouped_parse(x: Seq<char>, y: Seq<char>, z: Seq<char>)
    requires
        plain_word(x),
        plain_word(y),
        plain_word(z),
    ensures
        parse_tokens(seq![seq!['('], x, and_word(), y, seq![')'], and_word(), z]) == Ok::<
            AndModel,
            QueryError,
        >(and_chain_tree(x, y, z)),
{
    lemma_word_facts();
    let g = seq![seq!['('], x, and_word(), y, seq![')'], and_word(), z];
    let tree = and_chain_tree(x, y, z);
    let inner = AndModel { lhs: or_leaf(x), rhs: Some(or_leaf(y)) };
    assert(g[0] == seq!['('] && g[1] == x && g[2] == and_word() && g[3] == y && g[4] == seq![')']
        && g[5] == and_word() && g[6] == z);
    lemma_leaf(g, 1);
    lemma_leaf(g, 3);
    lemma_leaf(g, 6);
    assert(and_tail(g, 4, or_leaf(y)) == Ok::<(AndModel, int), QueryError>(
        (AndModel { lhs: or_leaf(y), rhs: None }, 4),
    ));
    assert(and_tail(g, 2, or_leaf(x)) == Ok::<(AndModel, int), QueryError>((inner, 4)));
    assert(parse_and(g, 1) == Ok::<(AndModel, int), QueryError>((inner, 4)));
    assert(parse_prefix(g, 0) == Ok::<(PrefixModel, int), QueryError>((tree.lhs.lhs, 5)));
    assert(or_tail(g, 5, tree.lhs.lhs) == Ok::<(OrModel, int), QueryError>((tree.lhs, 5)));
    assert(parse_or(g, 0) == Ok::<(OrModel, int), QueryError>((tree.lhs, 5)));
    assert(and_tail(g, 7, or_leaf(z)) == Ok::<(AndModel, int), QueryError>(
        (AndModel { lhs: or_leaf(z), rhs: None }, 7),
    ));
    assert(and_tail(g, 5, tree.lhs) == Ok::<(AndModel, int), QueryError>((tree, 7)));
    assert(parse_and(g, 0) == Ok::<(AndModel, int), QueryError>((tree, 7)));
}

/// `x and y and z` parses to the same tree as `( x and y ) and z`, and a
/// record passes it exactly when it passes each of `x`, `y` and `z` alone.
pub proof fn lemma_and_chain(
    x: Seq<char>,
    y: Seq<char>,
    z: Seq<char>,
    ww: bool,
    ic: bool,
    rx: bool,
    p: ProcessRecord,
)
    requires
        plain_word(x),
        plain_word(y),
        plain_word(z),
    ensures
        parse_tokens(seq![x, and_word(), y, and_word(), z]) == parse_tokens(
            seq![seq!['('], x, and_word(), y, seq![')'], and_word(), z],
        ),
        parse_tokens(seq![x, and_word(), y, and_word(), z]) == Ok::<AndModel, QueryError>(
            and_chain_tree(x, y, z),
        ),
        eval_and(compiled_and(and_chain_tree(x, y, z), ww, ic, rx), p) == (eval_and(
            compiled_and(single(name_leaf(x)), ww, ic, rx),
            p,
        ) && eval_and(compiled_and(single(name_leaf(y)), ww, ic, rx), p) && eval_and(
            compiled_and(single(name_leaf(z)), ww, ic, rx),
            p,
        )),
{
    lemma_chain_parse(x, y, z);
    lemma_grouped_parse(x, y, z);
    let inner = compiled_and(AndModel { lhs: or_leaf(x), rhs: Some(or_leaf(y)) }, ww, ic, rx);
    assert(eval_prefix(PrefixModel::Group(Box::new(inner)), p) == eval_and(inner, p));
}

pub open spec fn or_word() -> Seq<char> {
    seq!['o', 'r']
}

/// The tree `x or y or z` parses to: the first two grouped on the left.
pub open spec fn or_chain_tree(x: Seq<char>, y: Seq<char>, z: Seq<char>) -> AndModel {
    AndModel {
        lhs: OrModel {
            lhs: PrefixModel::Group(
                Box::new(
                    AndModel {
                        lhs: OrModel { lhs: name_leaf(x), rhs: Some(name_leaf(y)) },
                        rhs: None,
                    },
                ),
            ),
            rhs: Some(name_leaf(z)),
        },
        rhs: None,
    }
}

/// `x or y or z` folds to the left, and a record passes it exactly when it
/// passes one of `x`, `y` and `z` alone.
pub proof fn lemma_or_chain(
    x: Seq<char>,
    y: Seq<char>,
    z: Seq<char>,
    ww: bool,
    ic: bool,
    rx: bool,
    p: ProcessRecord,
)
    requires
        plain_word(x),
        plain_word(y),
        plain_word(z),
    ensures
        parse_tokens(seq![x, or_word(), y, or_word(), z]) == Ok::<AndModel, QueryError>(
            or_chain_tree(x, y, z),
        ),
        eval_and(compiled_and(or_chain_tree(x, y, z), ww, ic, rx), p) == (eval_and(
            compiled_and(single(name_leaf(x)), ww, ic, rx),
            p,
        ) || eval_and(compiled_and(single(name_leaf(y)), ww, ic, rx), p) || eval_and(
            compiled_and(single(name_leaf(z)), ww, ic, rx),
            p,
        )),
{
    let w = or_word();
    assert(crate::text::ascii_lower_seq(w) =~= w);
    assert(is_or_word(w));
    assert(w != seq!['('] && w != seq![')']);
    let t = seq![x, w, y, w, z];
    let tree = or_chain_tree(x, y, z);
    let inner = AndModel { lhs: OrModel { lhs: name_leaf(x), rhs: Some(name_leaf(y)) }, rhs: None };
    assert(t[0] == x && t[1] == w && t[2] == y && t[3] == w && t[4] == z);
    assert(parse_prefix(t, 0) == Ok::<(PrefixModel, int), QueryError>((name_leaf(x), 1)));
    assert(parse_prefix(t, 2) == Ok::<(PrefixModel, int), QueryError>((name_leaf(y), 3)));
    assert(parse_prefix(t, 4) == Ok::<(PrefixModel, int), QueryError>((name_leaf(z), 5)));
    assert(or_tail(t, 3, tree.lhs.lhs) == Ok::<(OrModel, int), QueryError>((tree.lhs, 5)));
    assert(or_tail(t, 1, name_leaf(x)) == Ok::<(OrModel, int), QueryError>((tree.lhs, 5)));
    assert(parse_or(t, 0) == Ok::<(OrModel, int), QueryError>((tree.lhs, 5)));
    assert(and_tail(t, 5, tree.lhs) == Ok::<(AndModel, int), QueryError>((tree, 5)));
    assert(parse_and(t, 0) == Ok::<(AndModel, int), QueryError>((tree, 5)));
    let ci = compiled_and(inner, ww, ic, rx);
    assert(eval_prefix(PrefixModel::Group(Box::new(ci)), p) == eval_and(ci, p));
}

/// The tree a chain `a and b and c` folds to, for any operands.
pub open spec fn folded_and(a: OrModel, b: OrModel, c: OrModel) -> AndModel {
    AndModel {
        lhs: OrModel {
            lhs: PrefixModel::Group(Box::new(AndModel { lhs: a, rhs: Some(b) })),
            rhs: None,
        },
        rhs: Some(c),
    }
}

/// Folding a chain keeps its meaning: for any operands and any record, the
/// folded tree, compiled, holds exactly when all three operands, compiled,
/// hold; compiling commutes with folding.
pub proof fn lemma_folding_keeps_conjunction(
    a: OrModel,
    b: OrModel,
    c: OrModel,
    ww: bool,
    ic: bool,
    rx: bool,
    p: ProcessRecord,
)
    ensures
        compiled_and(folded_and(a, b, c), ww, ic, rx) == folded_and(
            compiled_or(a, ww, ic, rx),
            compiled_or(b, ww, ic, rx),
            compiled_or(c, ww, ic, rx),
        ),
        eval_and(folded_and(a, b, c), p) == (eval_or(a, p) && eval_or(b, p) && eval_or(c, p)),
{
    let inner = AndModel { lhs: a, rhs: Some(b) };
    let g = PrefixModel::Group(Box::new(inner));
    let ci = AndModel { lhs: compiled_or(a, ww, ic, rx), rhs: Some(compiled_or(b, ww, ic, rx)) };
    assert(compiled_and(inner, ww, ic, rx) == ci);
    assert(crate::compile::compiled_prefix(g, ww, ic, rx) == PrefixModel::Group(Box::new(ci)));
    assert(compiled_or(OrModel { lhs: g, rhs: None }, ww, ic, rx) == OrModel {
        lhs: PrefixModel::Group(Box::new(ci)),
        rhs: None,
    });
    assert(eval_prefix(g, p) == eval_and(inner, p));
}

/// The tokens of `(cpu>10 or mem>10) and pid=100`.
pub open spec fn grouped_query_tokens() -> Seq<Seq<char>> {
    seq![
        seq!['('],
        seq!['c', 'p', 'u'],
        seq!['>'],
        seq!['1', '0'],
        seq!['o', 'r'],
        seq!['m', 'e', 'm'],
        seq!['>'],
        seq!['1', '0'],
        seq![')'],
        seq!['a', 'n', 'd'],
        seq!['p', 'i', 'd'],
        seq!['='],
        seq!['1', '0', '0'],
    ]
}

proof fn lemma_ten()
    ensures
        parse_decimal(seq!['1', '0']) == Some(Decimal { negative: false, mantissa: 10, scale: 0 }),
{
    reveal(parse_decimal);
    let t = seq!['1', '0'];
    let one = seq!['1'];
    let zero = seq!['0'];
    let e = Seq::<char>::empty();
    assert(t.drop_first() =~= zero);
    assert(zero.drop_first() =~= e);
    assert(first_exponent_mark(e) is None);
    assert(zero[0] == '0');
    assert(first_exponent_mark(zero) is None);
    assert(t[0] == '1');
    assert(first_exponent_mark(t) is None);
    assert(t.drop_last() =~= one);
    assert(one.drop_last() =~= e);
    assert(scan_digits(e) == Some((0nat, 0nat, false, 0nat)));
    assert(one.last() == '1' && t.last() == '0');
    assert(crate::number::digit_value('1') == 1);
    assert(crate::number::digit_value('0') == 0);
    assert(scan_digits(one) == Some((1nat, 0nat, false, 1nat)));
    assert(scan_digits(t) == Some((10nat, 0nat, false, 2nat)));
    assert(!(t.len() > 0 && (t[0] == '-' || t[0] == '+')));
}

proof fn lemma_query_words()
    ensures
        prefix_type_of(seq!['c', 'p', 'u']) == PrefixType::Cpu,
        prefix_type_of(seq!['m', 'e', 'm']) == PrefixType::Mem,
        prefix_type_of(seq!['p', 'i', 'd']) == PrefixType::Pid,
        is_or_word(seq!['o', 'r']),
        is_and_word(seq!['a', 'n', 'd']),
        !is_or_word(seq!['a', 'n', 'd']),
        !is_or_word(seq![')']),
        !is_and_word(seq![')']),
        seq!['>'] != seq!['='],
        seq!['>'] != seq!['<'],
        seq!['1', '0'] != seq!['='],
        seq!['1', '0', '0'] != seq!['<'],
        seq!['1', '0', '0'] != seq!['>'],
        seq!['1', '0', '0'] != seq!['('],
        seq!['1', '0', '0'] != seq![')'],
        seq!['='] != seq!['<'],
        seq!['='] != seq!['>'],
        seq!['c', 'p', 'u'] != seq!['('],
        seq!['c', 'p', 'u'] != seq![')'],
        seq!['m', 'e', 'm'] != seq!['('],
        seq!['m', 'e', 'm'] != seq![')'],
        seq!['p', 'i', 'd'] != seq!['('],
        seq!['p', 'i', 'd'] != seq![')'],
        seq!['('] != seq![')'],
{
    use_lower(seq!['c', 'p', 'u']);
    use_lower(seq!['m', 'e', 'm']);
    use_lower(seq!['p', 'i', 'd']);
    use_lower(seq!['o', 'r']);
    use_lower(seq!['a', 'n', 'd']);
    use_lower(seq![')']);
    assert(seq!['>'][0] != seq!['='][0]);
    assert(seq!['>'][0] != seq!['<'][0]);
    assert(seq!['='][0] != seq!['<'][0]);
    assert(seq!['('][0] != seq![')'][0]);
    assert(seq!['c', 'p', 'u'].len() != seq!['('].len());
}

proof fn use_lower(w: Seq<char>)
    requires
        forall|i: int| 0 <= i < w.len() ==> 'a' <= #[trigger] w[i] <= 'z' || w[i] == ')',
    ensures
        crate::text::ascii_lower_seq(w) == w,
{
    assert(crate::text::ascii_lower_seq(w) =~= w);
}

/// `(cpu>10 or mem>10) and pid=100` binds the `or` inside the `and`: with
/// no search flags, a record passes exactly when its cpu or its memory
/// exceeds 10 and its pid's text contains `100`.
pub proof fn lemma_grouped_or_inside_and(p: ProcessRecord)
    ensures
        ({
            let ten = Decimal { negative: false, mantissa: 10, scale: 0 };
            match parse_tokens(grouped_query_tokens()) {
                Ok(a) => accepted_and(a, false, false, false) ==> eval_and(
                    compiled_and(a, false, false, false),
                    p,
                ) == ((dec_lt(ten, p.cpu_usage) || dec_lt(ten, p.mem_usage)) && pattern_finds(
                    seq!['1', '0', '0'],
                    decimal_text(p.pid as nat),
                )),
                Err(_) => false,
            }
        }),
{
    lemma_ten();
    lemma_query_words();
    let t = grouped_query_tokens();
    let ten = Decimal { negative: false, mantissa: 10, scale: 0 };
    let cpu = PrefixModel::Compare(PrefixType::Cpu, QueryComparison::Greater, ten);
    let mem = PrefixModel::Compare(PrefixType::Mem, QueryComparison::Greater, ten);
    let hundred = seq!['1', '0', '0'];
    let pid = PrefixModel::Text(PrefixType::Pid, TextModel::Raw(hundred));
    assert(t[0] == seq!['('] && t[1] == seq!['c', 'p', 'u'] && t[2] == seq!['>'] && t[3] == seq![
        '1',
        '0',
    ] && t[4] == seq!['o', 'r'] && t[5] == seq!['m', 'e', 'm'] && t[6] == seq!['>'] && t[7]
        == seq!['1', '0'] && t[8] == seq![')'] && t[9] == seq!['a', 'n', 'd'] && t[10] == seq![
        'p',
        'i',
        'd',
    ] && t[11] == seq!['='] && t[12] == hundred);
    assert(parse_comparison(t, 2, PrefixType::Cpu) == Ok::<(PrefixModel, int), QueryError>((cpu, 4)));
    assert(parse_prefix(t, 1) == Ok::<(PrefixModel, int), QueryError>((cpu, 4)));
    assert(parse_comparison(t, 6, PrefixType::Mem) == Ok::<(PrefixModel, int), QueryError>((mem, 8)));
    assert(parse_prefix(t, 5) == Ok::<(PrefixModel, int), QueryError>((mem, 8)));
    let inner_or = OrModel { lhs: cpu, rhs: Some(mem) };
    assert(or_tail(t, 4, cpu) == Ok::<(OrModel, int), QueryError>((inner_or, 8)));
    assert(parse_or(t, 1) == Ok::<(OrModel, int), QueryError>((inner_or, 8)));
    let inner = AndModel { lhs: inner_or, rhs: None };
    assert(and_tail(t, 8, inner_or) == Ok::<(AndModel, int), QueryError>((inner, 8)));
    assert(parse_and(t, 1) == Ok::<(AndModel, int), QueryError>((inner, 8)));
    let g = PrefixModel::Group(Box::new(inner));
    assert(parse_prefix(t, 0) == Ok::<(PrefixModel, int), QueryError>((g, 9)));
    assert(or_tail(t, 9, g) == Ok::<(OrModel, int), QueryError>((OrModel { lhs: g, rhs: None }, 9)));
    assert(parse_or(t, 0) == Ok::<(OrModel, int), QueryError>((OrModel { lhs: g, rhs: None }, 9)));
    assert(parse_prefix(t, 10) == Ok::<(PrefixModel, int), QueryError>((pid, 13)));
    assert(or_tail(t, 13, pid) == Ok::<(OrModel, int), QueryError>((OrModel { lhs: pid, rhs: None }, 13)));
    assert(parse_or(t, 10) == Ok::<(OrModel, int), QueryError>((OrModel { lhs: pid, rhs: None }, 13)));
    let tree = AndModel {
        lhs: OrModel { lhs: g, rhs: None },
        rhs: Some(OrModel { lhs: pid, rhs: None }),
    };
    assert(and_tail(t, 9, OrModel { lhs: g, rhs: None }) == Ok::<(AndModel, int), QueryError>(
        (tree, 13),
    ));
    assert(parse_and(t, 0) == Ok::<(AndModel, int), QueryError>((tree, 13)));
    assert(parse_tokens(t) == Ok::<AndModel, QueryError>(tree));
    reveal_with_fuel(escaped, 4);
    assert(hundred.drop_last() =~= seq!['1', '0']);
    assert(seq!['1', '0'].drop_last() =~= seq!['1']);
    assert(seq!['1'].drop_last() =~= Seq::<char>::empty());
    assert(escaped(hundred) =~= hundred);
    assert(pattern_of(hundred, false, false, false) =~= hundred);
    let ci = compiled_and(inner, false, false, false);
    assert(compiled_prefix(g, false, false, false) == PrefixModel::Group(Box::new(ci)));
    assert(eval_prefix(PrefixModel::Group(Box::new(ci)), p) == eval_and(ci, p));
}

/// `t` spells `words[0] and words[1] and ... and words[n-1]`.
pub open spec fn is_and_chain(t: Seq<Seq<char>>, words: Seq<Seq<char>>) -> bool {
    &&& words.len() >= 1
    &&& t.len() == 2 * words.len() - 1
    &&& forall|i: int| 0 <= i < words.len() ==> t[2 * i] == #[trigger] words[i]
    &&& forall|i: int| 0 <= i < words.len() - 1 ==> #[trigger] t[2 * i + 1] == and_word()
}

/// Whether a record passes the word alone, compiled with the flags.
pub open spec fn passes_word(w: Seq<char>, ww: bool, ic: bool, rx: bool, p: ProcessRecord) -> bool {
    eval_or(compiled_or(or_leaf(w), ww, ic, rx), p)
}

proof fn lemma_and_chain_from(
    t: Seq<Seq<char>>,
    words: Seq<Seq<char>>,
    k: int,
    lhs: OrModel,
    ww: bool,
    ic: bool,
    rx: bool,
    p: ProcessRecord,
)
    requires
        is_and_chain(t, words),
        forall|i: int| 0 <= i < words.len() ==> plain_word(#[trigger] words[i]),
        1 <= k <= words.len(),
    ensures
        and_tail(t, 2 * k - 1, lhs) is Ok,
        and_tail(t, 2 * k - 1, lhs)->Ok_0.1 == t.len(),
        eval_and(compiled_and(and_tail(t, 2 * k - 1, lhs)->Ok_0.0, ww, ic, rx), p) == (eval_or(
            compiled_or(lhs, ww, ic, rx),
            p,
        ) && forall|j: int| k <= j < words.len() ==> passes_word(#[trigger] words[j], ww, ic, rx, p)),
    decreases words.len() - k,
{
    lemma_word_facts();
    let n = words.len() as int;
    if k == n {
        assert(and_tail(t, 2 * k - 1, lhs) == Ok::<(AndModel, int), QueryError>(
            (AndModel { lhs, rhs: None }, t.len() as int),
        ));
    } else {
        assert(t[2 * (k - 1) + 1] == and_word());
        assert(t[2 * k] == words[k]);
        assert(plain_word(words[k]));
        if k + 1 < n {
            assert(t[2 * k + 1] == and_word());
        }
        lemma_leaf(t, 2 * k);
        let leaf = or_leaf(words[k]);
        let inner = AndModel { lhs, rhs: Some(leaf) };
        let folded = OrModel { lhs: PrefixModel::Group(Box::new(inner)), rhs: None };
        let ci = compiled_and(inner, ww, ic, rx);
        assert(compiled_or(folded, ww, ic, rx) == OrModel {
            lhs: PrefixModel::Group(Box::new(ci)),
            rhs: None,
        });
        assert(eval_prefix(PrefixModel::Group(Box::new(ci)), p) == eval_and(ci, p));
        if k + 1 < n {
            lemma_and_chain_from(t, words, k + 1, folded, ww, ic, rx, p);
            assert(and_tail(t, 2 * k - 1, lhs) == and_tail(t, 2 * (k + 1) - 1, folded));
        } else {
            assert(and_tail(t, 2 * k - 1, lhs) == Ok::<(AndModel, int), QueryError>(
                (inner, t.len() as int),
            ));
        }
    }
}

/// A chain of any number of words joined by `and` parses, and a record
/// passes it exactly when it passes every word alone: folding the chain
/// never changes the result.
pub proof fn lemma_and_chain_any_length(
    t: Seq<Seq<char>>,
    words: Seq<Seq<char>>,
    ww: bool,
    ic: bool,
    rx: bool,
    p: ProcessRecord,
)
    requires
        is_and_chain(t, words),
        forall|i: int| 0 <= i < words.len() ==> plain_word(#[trigger] words[i]),
    ensures
        parse_tokens(t) is Ok,
        eval_and(compiled_and(parse_tokens(t)->Ok_0, ww, ic, rx), p) == forall|j: int|
            0 <= j < words.len() ==> passes_word(#[trigger] words[j], ww, ic, rx, p),
{
    lemma_word_facts();
    assert(t[2 * 0int] == words[0]);
    assert(plain_word(words[0]));
    if words.len() > 1 {
        assert(t[2 * 0int + 1] == and_word());
    }
    lemma_leaf(t, 0);
    lemma_and_chain_from(t, words, 1, or_leaf(words[0]), ww, ic, rx, p);
    assert(parse_and(t, 0) == and_tail(t, 1, or_leaf(words[0])));
    assert((forall|j: int| 0 <= j < words.len() ==> passes_word(#[trigger] words[j], ww, ic, rx, p))
        <==> (passes_word(words[0], ww, ic, rx, p) && forall|j: int| 1 <= j < words.len()
        ==> passes_word(#[trigger] words[j], ww, ic, rx, p)));
}

/// `t` spells `words[0] or words[1] or ... or words[n-1]`.
pub open spec fn is_or_chain(t: Seq<Seq<char>>, words: Seq<Seq<char>>) -> bool {
    &&& words.len() >= 1
    &&& t.len() == 2 * words.len() - 1
    &&& forall|i: int| 0 <= i < words.len() ==> t[2 * i] == #[trigger] words[i]
    &&& forall|i: int| 0 <= i < words.len() - 1 ==> #[trigger] t[2 * i + 1] == or_word()
}

proof fn lemma_or_word_facts()
    ensures
        is_or_word(or_word()),
        !is_and_word(or_word()),
        or_word() != seq!['('],
        or_word() != seq![')'],
{
    let w = or_word();
    assert(crate::text::ascii_lower_seq(w) =~= w);
    assert(w.len() == 2);
}

proof fn lemma_or_chain_from(
    t: Seq<Seq<char>>,
    words: Seq<Seq<char>>,
    k: int,
    lhs: PrefixModel,
    ww: bool,
    ic: bool,
    rx: bool,
    p: ProcessRecord,
)
    requires
        is_or_chain(t, words),
        forall|i: int| 0 <= i < words.len() ==> plain_word(#[trigger] words[i]),
        1 <= k <= words.len(),
    ensures
        or_tail(t, 2 * k - 1, lhs) is Ok,
        or_tail(t, 2 * k - 1, lhs)->Ok_0.1 == t.len(),
        eval_or(compiled_or(or_tail(t, 2 * k - 1, lhs)->Ok_0.0, ww, ic, rx), p) == (eval_prefix(
            compiled_prefix(lhs, ww, ic, rx),
            p,
        ) || exists|j: int| k <= j < words.len() && passes_word(#[trigger] words[j], ww, ic, rx, p)),
    decreases words.len() - k,
{
    lemma_or_word_facts();
    let n = words.len() as int;
    if k == n {
        assert(or_tail(t, 2 * k - 1, lhs) == Ok::<(OrModel, int), QueryError>(
            (OrModel { lhs, rhs: None }, t.len() as int),
        ));
    } else {
        assert(t[2 * (k - 1) + 1] == or_word());
        assert(t[2 * k] == words[k]);
        let w = words[k];
        assert(plain_word(w));
        if k + 1 < n {
            assert(t[2 * k + 1] == or_word());
        }
        assert(parse_prefix(t, 2 * k) == Ok::<(PrefixModel, int), QueryError>((name_leaf(w), 2 * k + 1)));
        let leaf = name_leaf(w);
        assert(passes_word(w, ww, ic, rx, p) == eval_prefix(compiled_prefix(leaf, ww, ic, rx), p));
        let pair = OrModel { lhs, rhs: Some(leaf) };
        let inner = AndModel { lhs: pair, rhs: None };
        let g = PrefixModel::Group(Box::new(inner));
        let ci = compiled_and(inner, ww, ic, rx);
        assert(compiled_prefix(g, ww, ic, rx) == PrefixModel::Group(Box::new(ci)));
        assert(eval_prefix(PrefixModel::Group(Box::new(ci)), p) == eval_and(ci, p));
        assert(eval_and(ci, p) == eval_or(compiled_or(pair, ww, ic, rx), p));
        if k + 1 < n {
            lemma_or_chain_from(t, words, k + 1, g, ww, ic, rx, p);
            assert(or_tail(t, 2 * k - 1, lhs) == or_tail(t, 2 * (k + 1) - 1, g));
            assert((exists|j: int| k <= j < words.len() && passes_word(#[trigger] words[j], ww, ic, rx, p))
                <==> (passes_word(w, ww, ic, rx, p) || exists|j: int| k + 1 <= j < words.len()
                && passes_word(#[trigger] words[j], ww, ic, rx, p)));
        } else {
            assert(or_tail(t, 2 * k - 1, lhs) == Ok::<(OrModel, int), QueryError>(
                (pair, t.len() as int),
            ));
            assert((exists|j: int| k <= j < words.len() && passes_word(#[trigger] words[j], ww, ic, rx, p))
                <==> passes_word(w, ww, ic, rx, p));
        }
    }
}

/// A chain of any number of words joined by `or` parses, and a record
/// passes it exactly when it passes one of the words alone.
pub proof fn lemma_or_chain_any_length(
    t: Seq<Seq<char>>,
    words: Seq<Seq<char>>,
    ww: bool,
    ic: bool,
    rx: bool,
    p: ProcessRecord,
)
    requires
        is_or_chain(t, words),
        forall|i: int| 0 <= i < words.len() ==> plain_word(#[trigger] words[i]),
    ensures
        parse_tokens(t) is Ok,
        eval_and(compiled_and(parse_tokens(t)->Ok_0, ww, ic, rx), p) == exists|j: int|
            0 <= j < words.len() && passes_word(#[trigger] words[j], ww, ic, rx, p),
{
    lemma_or_word_facts();
    assert(t[2 * 0int] == words[0]);
    let w = words[0];
    assert(plain_word(w));
    if words.len() > 1 {
        assert(t[2 * 0int + 1] == or_word());
    }
    assert(parse_prefix(t, 0) == Ok::<(PrefixModel, int), QueryError>((name_leaf(w), 1)));
    lemma_or_chain_from(t, words, 1, name_leaf(w), ww, ic, rx, p);
    let o = or_tail(t, 1, name_leaf(w))->Ok_0.0;
    assert(parse_or(t, 0) == Ok::<(OrModel, int), QueryError>((o, t.len() as int)));
    assert(and_tail(t, t.len() as int, o) == Ok::<(AndModel, int), QueryError>(
        (AndModel { lhs: o, rhs: None }, t.len() as int),
    ));
    assert(passes_word(w, ww, ic, rx, p) == eval_prefix(compiled_prefix(name_leaf(w), ww, ic, rx), p));
    assert((exists|j: int| 0 <= j < words.len() && passes_word(#[trigger] words[j], ww, ic, rx, p))
        <==> (passes_word(w, ww, ic, rx, p) || exists|j: int| 1 <= j < words.len()
        && passes_word(#[trigger] words[j], ww, ic, rx, p)));
}

} // verus!
