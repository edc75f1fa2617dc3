use vstd::prelude::*;
use vstd::string::*;

verus! {

/// The characters that Unicode classes as white space.
pub open spec fn is_space(c: char) -> bool {
    c == ' ' || ('\t' <= c && c <= '\r') || c == '\u{85}' || c == '\u{a0}' || c == '\u{1680}'
        || ('\u{2000}' <= c && c <= '\u{200a}') || c == '\u{2028}' || c == '\u{2029}' || c
        == '\u{202f}' || c == '\u{205f}' || c == '\u{3000}'
}

/// The characters that always stand as tokens of their own.
pub open spec fn is_delimiter(c: char) -> bool {
    c == '=' || c == '>' || c == '<' || c == '(' || c == ')'
}

/// Appends the pending run of characters as a token, unless it is empty.
pub open spec fn flush(done: Seq<Seq<char>>, run: Seq<char>) -> Seq<Seq<char>> {
    if run.len() == 0 {
        done
    } else {
        done.push(run)
    }
}

/// Tokens completed so far, and the pending run of ordinary characters,
/// after reading `s` from left to right.
pub open spec fn scan_tokens(s: Seq<char>) -> (Seq<Seq<char>>, Seq<char>)
    decreases s.len(),
{
    if s.len() == 0 {
        (Seq::empty(), Seq::empty())
    } else {
        let (done, run) = scan_tokens(s.drop_last());
        let c = s.last();
        if is_space(c) {
            (flush(done, run), Seq::empty())
        } else if is_delimiter(c) {
            (flush(done, run).push(seq![c]), Seq::empty())
        } else {
            (done, run.push(c))
        }
    }
}

/// The tokens of a query: white space separates them, and each delimiter
/// is a token by itself.
pub open spec fn tokenize(s: Seq<char>) -> Seq<Seq<char>> {
    flush(scan_tokens(s).0, scan_tokens(s).1)
}

pub open spec fn texts(v: Seq<String>) -> Seq<Seq<char>> {
    v.map_values(|t: String| t@)
}

fn space_char(c: char) -> (r: bool)
    ensures
        r == is_space(c),
{
    c == ' ' || ('\t' <= c && c <= '\r') || c == '\u{85}' || c == '\u{a0}' || c == '\u{1680}'
        || ('\u{2000}' <= c && c <= '\u{200a}') || c == '\u{2028}' || c == '\u{2029}' || c
        == '\u{202f}' || c == '\u{205f}' || c == '\u{3000}'
}

fn delimiter_char(c: char) -> (r: bool)
    ensures
        r == is_delimiter(c),
{
    c == '=' || c == '>' || c == '<' || c == '(' || c == ')'
}

fn push_run(text: &str, done: &mut Vec<String>, from: usize, to: usize)
    requires
        from <= to <= text@.len(),
    ensures
        texts(final(done)@) == flush(texts(old(done)@), text@.subrange(from as int, to as int)),
{
    if from < to {
        let t = text.substring_char(from, to).to_owned();
        done.push(t);
        assert(texts(final(done)@) =~= texts(old(done)@).push(text@.subrange(from as int, to as int)));
    } else {
        assert(texts(final(done)@) =~= texts(old(done)@));
    }
}

/// Splits a query into its tokens.
pub fn tokenize_query(text: &str) -> (r: Vec<String>)
    ensures
        texts(r@) == tokenize(text@),
{
    let n = text.unicode_len();
    let mut done: Vec<String> = Vec::new();
    let mut start: usize = 0;
    let mut i: usize = 0;
    assert(texts(done@) =~= Seq::<Seq<char>>::empty());
    assert(text@.take(0) =~= Seq::<char>::empty());
    while i < n
        invariant
            n == text@.len(),
            start <= i <= n,
            scan_tokens(text@.take(i as int)) == (texts(done@), text@.subrange(
                start as int,
                i as int,
            )),
        decreases n - i,
    {
        let c = text.get_char(i);
        let ghost pre = text@.take(i as int);
        proof {
            assert(text@.take(i + 1).drop_last() =~= pre);
            assert(text@.take(i + 1).last() == c);
        }
        if space_char(c) {
            push_run(text, &mut done, start, i);
            start = i + 1;
        } else if delimiter_char(c) {
            push_run(text, &mut done, start, i);
            push_run(text, &mut done, i, i + 1);
            proof {
                assert(text@.subrange(i as int, i + 1) =~= seq![c]);
            }
            start = i + 1;
        } else {
            proof {
                assert(text@.subrange(start as int, i + 1) =~= text@.subrange(
                    start as int,
                    i as int,
                ).push(c));
            }
        }
        i = i + 1;
        proof {
            if start == i {
                assert(text@.subrange(start as int, i as int) =~= Seq::<char>::empty());
            }
        }
    }
    assert(text@.take(n as int) =~= text@);
    push_run(text, &mut done, start, n);
    done
}

} // verus!
