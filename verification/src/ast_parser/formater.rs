//! Refining the tokens of a grammar file before its heads are read.
//!
//! One pass over the tokens: a quoted run becomes one string token, spaces
//! and blank texts go, a lone tab text becomes a tab, digits become number
//! tokens, and `::`, `+=`, `-=`, `*=`, `/=`, `!=`, `==`, `<=`, `>=` are
//! joined into one token. `lines` holds the source position of each token
//! and is kept in step with the tokens; malformed numbers are reported in
//! `errors`.
//!
//! The text of a quoted run is the texts of its tokens one after another,
//! each as `lexer::lexemes::deparse_token` writes it back.
use vstd::prelude::*;

use crate::lexer::lexemes::{deparse_token, lexeme_text, lexemes_of, Lexeme, Operators, Tokens};
use crate::text::{
    is_digit, is_whitespace, is_ws, parse_usize, parse_usize_chars, push_char, push_str,
    string_from_chars, utf8_width, chars_of,
};
use crate::token_refactor::parse_err::Errors;

verus! {

/// Every character of `s` is white space (true of the empty text).
pub open spec fn all_ws(s: Seq<char>) -> bool {
    forall|i: int| 0 <= i < s.len() ==> is_ws(#[trigger] s[i])
}

/// `e` reports the malformed number `n` (its position and its text).
pub open spec fn reports_number(e: Errors, n: ((usize, usize), Seq<char>)) -> bool {
    match e {
        Errors::InvalidNumber(pos, text) => pos == n.0 && text@ == n.1,
        _ => false,
    }
}

/// `after` is `before` followed by one report of each malformed number of
/// `found`, in order.
pub open spec fn reported(
    before: Seq<Errors>,
    after: Seq<Errors>,
    found: Seq<((usize, usize), Seq<char>)>,
) -> bool {
    &&& after.len() == before.len() + found.len()
    &&& after.take(before.len() as int) == before
    &&& forall|k: int|
        0 <= k < found.len() ==> reports_number(#[trigger] after[before.len() + k], found[k])
}

/// First position at or after `k` that holds a double quote (the length of
/// `ts` when none does).
pub open spec fn quote_close(ts: Seq<Lexeme>, k: int) -> int
    decreases ts.len() - k,
{
    if k < 0 || k >= ts.len() {
        ts.len() as int
    } else if ts[k] == Lexeme::DoubleQuotes {
        k
    } else {
        quote_close(ts, k + 1)
    }
}

/// The source texts of `ts[a..b]`, one after another.
pub open spec fn texts(ts: Seq<Lexeme>, a: int, b: int) -> Seq<char>
    decreases b - a,
{
    if b <= a {
        seq![]
    } else {
        texts(ts, a, b - 1) + lexeme_text(ts[b - 1])
    }
}

/// The outcome of refining the token at `idx`: the new tokens, the new
/// positions, the malformed numbers found, and how far the cursor moves
/// (0 when the token was taken out). `None` when the step would index
/// past the end of the tokens or of the positions.
pub open spec fn step(ts: Seq<Lexeme>, ls: Seq<(usize, usize)>, idx: int) -> Option<
    (Seq<Lexeme>, Seq<(usize, usize)>, Seq<((usize, usize), Seq<char>)>, int),
> {
    match ts[idx] {
        Lexeme::DoubleQuotes => quote_step(ts, ls, idx),
        Lexeme::Space => remove_step(ts, ls, idx),
        Lexeme::Colon => merge_step(ts, ls, idx, Lexeme::Colon, Lexeme::DoubleColon),
        Lexeme::Text(txt) => text_step(ts, ls, idx, txt),
        Lexeme::Operator(op) => match joined_with_equal(op) {
            Some(j) => merge_step(
                ts,
                ls,
                idx,
                Lexeme::Operator(Operators::Equal),
                Lexeme::Operator(j),
            ),
            None => Some((ts, ls, seq![], 1)),
        },
        Lexeme::AngleBracket(closing) => merge_step(
            ts,
            ls,
            idx,
            Lexeme::Operator(Operators::Equal),
            Lexeme::Operator(
                if closing {
                    Operators::LessEq
                } else {
                    Operators::MoreEq
                },
            ),
        ),
        _ => Some((ts, ls, seq![], 1)),
    }
}

/// The operator that `op` followed by `=` becomes, if it joins with `=`.
pub open spec fn joined_with_equal(op: Operators) -> Option<Operators> {
    match op {
        Operators::Add => Some(Operators::AddEq),
        Operators::Sub => Some(Operators::SubEq),
        Operators::Mul => Some(Operators::MulEq),
        Operators::Div => Some(Operators::DivEq),
        Operators::Not => Some(Operators::NotEqual),
        Operators::Equal => Some(Operators::DoubleEq),
        _ => None,
    }
}

/// Takes out the token at `idx` and its position.
pub open spec fn remove_step(ts: Seq<Lexeme>, ls: Seq<(usize, usize)>, idx: int) -> Option<
    (Seq<Lexeme>, Seq<(usize, usize)>, Seq<((usize, usize), Seq<char>)>, int),
> {
    if idx < ls.len() {
        Some((ts.remove(idx), ls.remove(idx), seq![], 0))
    } else {
        None
    }
}

/// Joins the token at `idx` with the next one into `into` when the next
/// one is `next`.
pub open spec fn merge_step(
    ts: Seq<Lexeme>,
    ls: Seq<(usize, usize)>,
    idx: int,
    next: Lexeme,
    into: Lexeme,
) -> Option<(Seq<Lexeme>, Seq<(usize, usize)>, Seq<((usize, usize), Seq<char>)>, int)> {
    if idx + 1 >= ts.len() {
        None
    } else if ts[idx + 1] == next {
        if idx + 1 < ls.len() {
            Some((ts.update(idx, into).remove(idx + 1), ls.remove(idx + 1), seq![], 1))
        } else {
            None
        }
    } else {
        Some((ts, ls, seq![], 1))
    }
}

/// Joins a quoted run into one string token; an unclosed quote takes the
/// rest of the tokens.
pub open spec fn quote_step(ts: Seq<Lexeme>, ls: Seq<(usize, usize)>, idx: int) -> Option<
    (Seq<Lexeme>, Seq<(usize, usize)>, Seq<((usize, usize), Seq<char>)>, int),
> {
    let close = quote_close(ts, idx + 1);
    if idx + 1 >= ts.len() {
        None
    } else if close < ts.len() {
        if close + 1 <= ls.len() {
            Some(
                (
                    ts.update(idx, Lexeme::String(texts(ts, idx + 1, close))).take(idx + 1)
                        + ts.skip(close + 1),
                    ls.take(idx + 1) + ls.skip(close + 1),
                    seq![],
                    1,
                ),
            )
        } else {
            None
        }
    } else if idx + 1 <= ls.len() {
        Some(
            (
                ts.update(idx, Lexeme::String(texts(ts, idx + 1, ts.len() as int))).take(idx + 1),
                ls.take(idx + 1),
                seq![],
                1,
            ),
        )
    } else {
        None
    }
}

/// Reports the malformed number `text` at the position of `idx`.
pub open spec fn report_step(
    ts: Seq<Lexeme>,
    ls: Seq<(usize, usize)>,
    idx: int,
    text: Seq<char>,
) -> Option<(Seq<Lexeme>, Seq<(usize, usize)>, Seq<((usize, usize), Seq<char>)>, int)> {
    if idx < ls.len() {
        Some((ts, ls, seq![(ls[idx], text)], 1))
    } else {
        None
    }
}

/// Refines a text token: numbers, blank texts and tabs.
pub open spec fn text_step(
    ts: Seq<Lexeme>,
    ls: Seq<(usize, usize)>,
    idx: int,
    txt: Seq<char>,
) -> Option<(Seq<Lexeme>, Seq<(usize, usize)>, Seq<((usize, usize), Seq<char>)>, int)> {
    if txt.len() > 0 && is_digit(txt[0]) {
        number_step(ts, ls, idx, txt)
    } else if !all_ws(txt) {
        Some((ts, ls, seq![], 1))
    } else if txt == seq!['\t'] {
        Some((ts.update(idx, Lexeme::Tab), ls, seq![], 1))
    } else {
        remove_step(ts, ls, idx)
    }
}

/// Reads a text that starts with a digit as a number: `a.b` (with the dot
/// and the digits after it as the next two tokens) is a float, digits
/// alone an integer, digits followed by one more character a number with
/// that character as its kind.
pub open spec fn number_step(
    ts: Seq<Lexeme>,
    ls: Seq<(usize, usize)>,
    idx: int,
    txt: Seq<char>,
) -> Option<(Seq<Lexeme>, Seq<(usize, usize)>, Seq<((usize, usize), Seq<char>)>, int)> {
    if idx + 1 >= ts.len() {
        None
    } else if ts[idx + 1] == Lexeme::Dot {
        match parse_usize(txt) {
            None => report_step(ts, ls, idx, txt),
            Some(a) => if idx + 2 >= ts.len() {
                None
            } else {
                match ts[idx + 2] {
                    Lexeme::Text(txt2) => match parse_usize(txt2) {
                        Some(b) => if idx + 2 < ls.len() {
                            Some(
                                (
                                    ts.update(idx, Lexeme::Number(a, b, 'f')).remove(idx + 1).remove(
                                        idx + 1,
                                    ),
                                    ls.remove(idx + 1).remove(idx + 1),
                                    seq![],
                                    1,
                                ),
                            )
                        } else {
                            None
                        },
                        None => report_step(ts, ls, idx, txt + seq!['.'] + txt2),
                    },
                    _ => Some((ts, ls, seq![], 1)),
                }
            },
        }
    } else if is_digit(txt.last()) {
        match parse_usize(txt) {
            Some(n) => Some((ts.update(idx, Lexeme::Number(n, 0, 'i')), ls, seq![], 1)),
            None => report_step(ts, ls, idx, txt),
        }
    } else if utf8_width(txt.last()) != 1 {
        None
    } else {
        match parse_usize(txt.drop_last()) {
            Some(n) => Some((ts.update(idx, Lexeme::Number(n, 0, txt.last())), ls, seq![], 1)),
            None => report_step(ts, ls, idx, txt),
        }
    }
}

/// The whole pass from position `i` on: the final tokens, the final
/// positions and the malformed numbers found, in order; `None` when a step
/// would index past the end.
pub open spec fn run(ts: Seq<Lexeme>, ls: Seq<(usize, usize)>, i: int) -> Option<
    (Seq<Lexeme>, Seq<(usize, usize)>, Seq<((usize, usize), Seq<char>)>),
>
    decreases ts.len() - i,
{
    if i < 0 || i >= ts.len() {
        Some((ts, ls, seq![]))
    } else {
        match step(ts, ls, i) {
            None => None,
            Some((t2, l2, found, advance)) => if 0 <= t2.len() - (i + advance) < ts.len() - i
                && 0 <= advance {
                match run(t2, l2, i + advance) {
                    Some((t3, l3, found3)) => Some((t3, l3, found + found3)),
                    None => None,
                }
            } else {
                None
            },
        }
    }
}

pub(crate) proof fn lemma_quote_close(ts: Seq<Lexeme>, k: int)
    requires
        0 <= k <= ts.len(),
    ensures
        k <= quote_close(ts, k) <= ts.len(),
        forall|j: int| k <= j < quote_close(ts, k) ==> ts[j] != Lexeme::DoubleQuotes,
        quote_close(ts, k) < ts.len() ==> ts[quote_close(ts, k)] == Lexeme::DoubleQuotes,
    decreases ts.len() - k,
{
    if k < ts.len() && ts[k] != Lexeme::DoubleQuotes {
        lemma_quote_close(ts, k + 1);
    }
}

/// A step that succeeds either takes a token out and stays, or moves one
/// token on, and never moves past the end.
pub(crate) open spec fn shrinks(
    ts: Seq<Lexeme>,
    i: int,
    r: Option<(Seq<Lexeme>, Seq<(usize, usize)>, Seq<((usize, usize), Seq<char>)>, int)>,
) -> bool {
    r is Some ==> {
        let (t2, l2, found, advance) = r.unwrap();
        &&& 0 <= advance
        &&& 0 <= t2.len() - (i + advance) < ts.len() - i
    }
}

pub(crate) proof fn lemma_number_step_shrinks(ts: Seq<Lexeme>, ls: Seq<(usize, usize)>, i: int, txt: Seq<char>)
    requires
        0 <= i < ts.len(),
        txt.len() > 0,
    ensures
        shrinks(ts, i, number_step(ts, ls, i, txt)),
{
    let r = number_step(ts, ls, i, txt);
    if r is Some {
        let (t2, l2, found, advance) = r.unwrap();
        assert(i + 1 < ts.len());
        if ts[i + 1] == Lexeme::Dot && parse_usize(txt) is Some {
            assert(i + 2 < ts.len());
            match ts[i + 2] {
                Lexeme::Text(txt2) => {
                    if parse_usize(txt2) is Some {
                        assert(t2.len() == ts.len() - 2);
                    } else {
                        assert(t2 == ts);
                    }
                },
                _ => {
                    assert(t2 == ts);
                },
            }
        } else if ts[i + 1] == Lexeme::Dot {
            assert(t2 == ts);
        } else if is_digit(txt.last()) {
            if parse_usize(txt) is Some {
                assert(t2 == ts.update(i, Lexeme::Number(parse_usize(txt).unwrap(), 0, 'i')));
                assert(t2.len() == ts.len());
            } else {
                assert(t2 == ts);
            }
        } else {
            if parse_usize(txt.drop_last()) is Some {
                let x = Lexeme::Number(parse_usize(txt.drop_last()).unwrap(), 0, txt.last());
                lemma_seq_update(ts, i, x);
                assert(t2.len() == ts.len());
            } else {
                assert(t2 == ts);
            }
        }
        assert(advance == 1);
        assert(0 <= t2.len() - (i + advance));
        assert(t2.len() - (i + advance) < ts.len() - i);
    }
}

pub(crate) proof fn lemma_seq_update(ts: Seq<Lexeme>, i: int, x: Lexeme)
    requires
        0 <= i < ts.len(),
    ensures
        ts.update(i, x).len() == ts.len(),
        ts.update(i, x)[i] == x,
        forall|k: int| 0 <= k < ts.len() && k != i ==> ts.update(i, x)[k] == ts[k],
{
}

proof fn lemma_step_shrinks(ts: Seq<Lexeme>, ls: Seq<(usize, usize)>, i: int)
    requires
        0 <= i < ts.len(),
    ensures
        shrinks(ts, i, step(ts, ls, i)),
{
    match ts[i] {
        Lexeme::DoubleQuotes => {
            lemma_quote_close(ts, i + 1);
            let close = quote_close(ts, i + 1);
            if i + 1 < ts.len() && close < ts.len() && close + 1 <= ls.len() {
                let t1 = ts.update(i, Lexeme::String(texts(ts, i + 1, close)));
                assert((t1.take(i + 1) + ts.skip(close + 1)).len() == i + 1 + ts.len() - (close + 1));
            }
        },
        Lexeme::Text(txt) => {
            if txt.len() > 0 && is_digit(txt[0]) {
                lemma_number_step_shrinks(ts, ls, i, txt);
            }
        },
        _ => {},
    }
}

pub(crate) proof fn lemma_reported_nothing(e: Seq<Errors>)
    ensures
        reported(e, e, seq![]),
{
    assert(e.take(e.len() as int) =~= e);
}

pub(crate) proof fn lemma_reported_one(e: Seq<Errors>, x: Errors, n: ((usize, usize), Seq<char>))
    requires
        reports_number(x, n),
    ensures
        reported(e, e.push(x), seq![n]),
{
    assert(e.push(x).take(e.len() as int) =~= e);
    assert(e.push(x)[e.len() + 0int] == x);
}

pub(crate) proof fn lemma_reported_chain(
    e0: Seq<Errors>,
    e1: Seq<Errors>,
    e2: Seq<Errors>,
    f1: Seq<((usize, usize), Seq<char>)>,
    f2: Seq<((usize, usize), Seq<char>)>,
)
    requires
        reported(e0, e1, f1),
        reported(e1, e2, f2),
    ensures
        reported(e0, e2, f1 + f2),
{
    assert(e2.take(e0.len() as int) =~= e1.take(e0.len() as int)) by {
        assert forall|j: int| 0 <= j < e0.len() implies e2[j] == e1[j] by {
            assert(e2.take(e1.len() as int)[j] == e1[j]);
        }
    }
    assert forall|k: int| 0 <= k < (f1 + f2).len() implies reports_number(
        #[trigger] e2[e0.len() + k],
        (f1 + f2)[k],
    ) by {
        if k < f1.len() {
            assert(e2.take(e1.len() as int)[e0.len() + k] == e1[e0.len() + k]);
            assert(reports_number(e1[e0.len() + k], f1[k]));
        } else {
            assert(reports_number(e2[e1.len() + (k - f1.len())], f2[k - f1.len()]));
        }
    }
}

pub(crate) proof fn lemma_number_step_keeps_lengths(
    ts: Seq<Lexeme>,
    ls: Seq<(usize, usize)>,
    i: int,
    txt: Seq<char>,
)
    requires
        0 <= i < ts.len(),
        ls.len() == ts.len(),
        txt.len() > 0,
        number_step(ts, ls, i, txt) is Some,
    ensures
        number_step(ts, ls, i, txt).unwrap().0.len() == number_step(ts, ls, i, txt).unwrap().1.len(),
{
    if ts[i + 1] == Lexeme::Dot && parse_usize(txt) is Some {
        match ts[i + 2] {
            Lexeme::Text(txt2) => {
                if parse_usize(txt2) is Some {
                    let a = parse_usize(txt).unwrap();
                    let b = parse_usize(txt2).unwrap();
                    let t1 = ts.update(i, Lexeme::Number(a, b, 'f'));
                    assert(t1.remove(i + 1).remove(i + 1).len() == ts.len() - 2);
                }
            },
            _ => {},
        }
    } else if ts[i + 1] != Lexeme::Dot && !is_digit(txt.last()) && parse_usize(txt.drop_last()) is Some {
        lemma_seq_update(
            ts,
            i,
            Lexeme::Number(parse_usize(txt.drop_last()).unwrap(), 0, txt.last()),
        );
    }
}

proof fn lemma_step_keeps_lengths(ts: Seq<Lexeme>, ls: Seq<(usize, usize)>, i: int)
    requires
        0 <= i < ts.len(),
        ls.len() == ts.len(),
        step(ts, ls, i) is Some,
    ensures
        step(ts, ls, i).unwrap().0.len() == step(ts, ls, i).unwrap().1.len(),
{
    match ts[i] {
        Lexeme::DoubleQuotes => {
            lemma_quote_close(ts, i + 1);
            let close = quote_close(ts, i + 1);
            let t1 = ts.update(i, Lexeme::String(texts(ts, i + 1, close)));
            if close < ts.len() {
                assert((t1.take(i + 1) + ts.skip(close + 1)).len() == (ls.take(i + 1) + ls.skip(
                    close + 1,
                )).len());
            }
        },
        Lexeme::Text(txt) => {
            if txt.len() > 0 && is_digit(txt[0]) {
                lemma_number_step_keeps_lengths(ts, ls, i, txt);
            }
        },
        _ => {},
    }
}

/// The positions stay in step with the tokens: when every token has its
/// position, every refined token still has one.
pub proof fn law_lines_stay_in_step(ts: Seq<Lexeme>, ls: Seq<(usize, usize)>, i: int)
    requires
        0 <= i,
        ls.len() == ts.len(),
        run(ts, ls, i) is Some,
    ensures
        run(ts, ls, i).unwrap().0.len() == run(ts, ls, i).unwrap().1.len(),
    decreases ts.len() - i,
{
    if i < ts.len() {
        lemma_step_keeps_lengths(ts, ls, i);
        let (t2, l2, found, advance) = step(ts, ls, i).unwrap();
        law_lines_stay_in_step(t2, l2, i + advance);
    }
}

/// A space, or a text of white space only.
pub open spec fn is_blank(l: Lexeme) -> bool {
    l == Lexeme::Space || (l matches Lexeme::Text(s) && all_ws(s))
}

/// A two-character operator of a grammar file is joined into one token,
/// and the pass goes on after it: `+=`, `-=`, `*=`, `/=`, `!=`, `==`,
/// `<=` and `>=` each become a single operator, whose position is that of
/// the first of the two, and the position of the `=` is dropped.
pub proof fn law_grammar_operators_join_with_equal(
    ts: Seq<Lexeme>,
    ls: Seq<(usize, usize)>,
    i: int,
    first: Lexeme,
    j: Operators,
)
    requires
        0 <= i,
        i + 1 < ts.len(),
        i + 1 < ls.len(),
        ts[i] == first,
        ts[i + 1] == Lexeme::Operator(Operators::Equal),
        (first == Lexeme::Operator(Operators::Add) && j == Operators::AddEq) || (first
            == Lexeme::Operator(Operators::Sub) && j == Operators::SubEq) || (first
            == Lexeme::Operator(Operators::Mul) && j == Operators::MulEq) || (first
            == Lexeme::Operator(Operators::Div) && j == Operators::DivEq) || (first
            == Lexeme::Operator(Operators::Not) && j == Operators::NotEqual) || (first
            == Lexeme::Operator(Operators::Equal) && j == Operators::DoubleEq) || (first
            == Lexeme::AngleBracket(true) && j == Operators::LessEq) || (first
            == Lexeme::AngleBracket(false) && j == Operators::MoreEq),
    ensures
        step(ts, ls, i) == Some(
            (
                ts.update(i, Lexeme::Operator(j)).remove(i + 1),
                ls.remove(i + 1),
                Seq::<((usize, usize), Seq<char>)>::empty(),
                1int,
            ),
        ),
        run(ts, ls, i) == run(ts.update(i, Lexeme::Operator(j)).remove(i + 1), ls.remove(i + 1), i + 1),
{
    let t2 = ts.update(i, Lexeme::Operator(j)).remove(i + 1);
    let l2 = ls.remove(i + 1);
    assert(step(ts, ls, i) == Some((t2, l2, Seq::<((usize, usize), Seq<char>)>::empty(), 1int)));
    match run(t2, l2, i + 1) {
        Some((t3, l3, f3)) => {
            assert(Seq::<((usize, usize), Seq<char>)>::empty() + f3 =~= f3);
        },
        None => {},
    }
}

/// Two colons of a grammar file are joined into one `::` token.
pub proof fn law_grammar_colons_join(ts: Seq<Lexeme>, ls: Seq<(usize, usize)>, i: int)
    requires
        0 <= i,
        i + 1 < ts.len(),
        i + 1 < ls.len(),
        ts[i] == Lexeme::Colon,
        ts[i + 1] == Lexeme::Colon,
    ensures
        step(ts, ls, i) == Some(
            (
                ts.update(i, Lexeme::DoubleColon).remove(i + 1),
                ls.remove(i + 1),
                Seq::<((usize, usize), Seq<char>)>::empty(),
                1int,
            ),
        ),
{
}

/// A tab character of a grammar file becomes a tab token in its place,
/// which indents the nodes; a space is taken out.
pub proof fn law_grammar_tabs_kept_spaces_dropped(ts: Seq<Lexeme>, ls: Seq<(usize, usize)>, i: int)
    requires
        0 <= i < ts.len(),
        i < ls.len(),
    ensures
        ts[i] == Lexeme::Text(seq!['\t']) ==> step(ts, ls, i) == Some(
            (ts.update(i, Lexeme::Tab), ls, Seq::<((usize, usize), Seq<char>)>::empty(), 1int),
        ),
        ts[i] == Lexeme::Space ==> step(ts, ls, i) == Some(
            (ts.remove(i), ls.remove(i), Seq::<((usize, usize), Seq<char>)>::empty(), 0int),
        ),
{
    if ts[i] == Lexeme::Text(seq!['\t']) {
        assert(all_ws(seq!['\t']));
        assert(!is_digit('\t'));
    }
}

proof fn lemma_step_keeps_prefix(ts: Seq<Lexeme>, ls: Seq<(usize, usize)>, i: int)
    requires
        0 <= i < ts.len(),
        step(ts, ls, i) is Some,
    ensures
        ({
            let (t2, l2, found, advance) = step(ts, ls, i).unwrap();
            &&& forall|k: int| 0 <= k < i ==> t2[k] == ts[k]
            &&& advance == 1 ==> !is_blank(t2[i])
        }),
{
    lemma_step_shrinks(ts, ls, i);
    let (t2, l2, found, advance) = step(ts, ls, i).unwrap();
    match ts[i] {
        Lexeme::DoubleQuotes => {
            lemma_quote_close(ts, i + 1);
            let close = quote_close(ts, i + 1);
            if close < ts.len() {
                let u = ts.update(i, Lexeme::String(texts(ts, i + 1, close)));
                assert(t2 == u.take(i + 1) + ts.skip(close + 1));
                assert forall|k: int| 0 <= k <= i implies t2[k] == u[k] by {
                    assert((u.take(i + 1) + ts.skip(close + 1))[k] == u.take(i + 1)[k]);
                }
            } else {
                let u = ts.update(i, Lexeme::String(texts(ts, i + 1, ts.len() as int)));
                assert(t2 == u.take(i + 1));
                assert forall|k: int| 0 <= k <= i implies t2[k] == u[k] by {
                    assert(u.take(i + 1)[k] == u[k]);
                }
            }
        },
        Lexeme::Text(txt) => {
            if txt.len() > 0 && is_digit(txt[0]) {
                assert(!is_ws(txt[0]));
                assert(!all_ws(txt));
                if ts[i + 1] == Lexeme::Dot && parse_usize(txt) is Some {
                    match ts[i + 2] {
                        Lexeme::Text(txt2) => {
                            if parse_usize(txt2) is Some {
                                let a = parse_usize(txt).unwrap();
                                let b = parse_usize(txt2).unwrap();
                                let t1 = ts.update(i, Lexeme::Number(a, b, 'f'));
                                assert(t2 == t1.remove(i + 1).remove(i + 1));
                                assert(t2[i] == t1[i]);
                            } else {
                                assert(t2 == ts);
                            }
                        },
                        _ => {
                            assert(t2 == ts);
                        },
                    }
                } else if ts[i + 1] == Lexeme::Dot {
                    assert(t2 == ts);
                } else if is_digit(txt.last()) {
                    if parse_usize(txt) is Some {
                        let x = Lexeme::Number(parse_usize(txt).unwrap(), 0, 'i');
                        assert(t2 == ts.update(i, x));
                    } else {
                        assert(t2 == ts);
                    }
                } else if parse_usize(txt.drop_last()) is Some {
                    let x = Lexeme::Number(parse_usize(txt.drop_last()).unwrap(), 0, txt.last());
                    lemma_seq_update(ts, i, x);
                    assert(t2 == ts.update(i, x));
                    assert(t2[i] == x);
                } else {
                    assert(t2 == ts);
                }
            } else if !all_ws(txt) {
                assert(t2 == ts);
            } else if txt == seq!['\t'] {
                assert(t2 == ts.update(i, Lexeme::Tab));
            } else {
                assert(t2 == ts.remove(i));
            }
        },
        Lexeme::Colon => {
            if ts[i + 1] == Lexeme::Colon {
                let u = ts.update(i, Lexeme::DoubleColon);
                assert(t2 == u.remove(i + 1));
                assert(t2[i] == u[i]);
            }
        },
        Lexeme::Operator(op) => {
            if joined_with_equal(op) is Some && ts[i + 1] == Lexeme::Operator(Operators::Equal) {
                let u = ts.update(i, Lexeme::Operator(joined_with_equal(op).unwrap()));
                assert(t2 == u.remove(i + 1));
                assert(t2[i] == u[i]);
            }
        },
        Lexeme::AngleBracket(closing) => {
            if ts[i + 1] == Lexeme::Operator(Operators::Equal) {
                let u = ts.update(
                    i,
                    Lexeme::Operator(
                        if closing {
                            Operators::LessEq
                        } else {
                            Operators::MoreEq
                        },
                    ),
                );
                assert(t2 == u.remove(i + 1));
                assert(t2[i] == u[i]);
            }
        },
        _ => {},
    }
}

/// After the pass no token is a space or a blank text: each one was taken
/// out or, inside quotes, became part of a string.
pub proof fn law_no_blanks_left(ts: Seq<Lexeme>, ls: Seq<(usize, usize)>, i: int)
    requires
        0 <= i,
        run(ts, ls, i) is Some,
        forall|k: int| 0 <= k < i && k < ts.len() ==> !is_blank(#[trigger] ts[k]),
    ensures
        forall|k: int|
            0 <= k < run(ts, ls, i).unwrap().0.len() ==> !is_blank(
                #[trigger] run(ts, ls, i).unwrap().0[k],
            ),
    decreases ts.len() - i,
{
    if i < ts.len() {
        lemma_step_keeps_prefix(ts, ls, i);
        lemma_step_shrinks(ts, ls, i);
        let (t2, l2, found, advance) = step(ts, ls, i).unwrap();
        assert forall|k: int| 0 <= k < i + advance && k < t2.len() implies !is_blank(
            #[trigger] t2[k],
        ) by {
            if k < i {
                assert(t2[k] == ts[k]);
            }
        }
        law_no_blanks_left(t2, l2, i + advance);
    }
}

/// Takes `v[a..b]` out of `v`.
pub(crate) fn remove_range<T>(v: &mut Vec<T>, a: usize, b: usize)
    requires
        a <= b <= old(v)@.len(),
    ensures
        final(v)@ == old(v)@.take(a as int) + old(v)@.skip(b as int),
{
    let ghost start = v@;
    let mut k: usize = a;
    while k < b
        invariant
            a <= k <= b <= start.len(),
            v@ == start.take(a as int) + start.skip(k as int),
        decreases b - k,
    {
        v.remove(a);
        assert(v@ =~= start.take(a as int) + start.skip(k + 1));
        k = k + 1;
    }
}

pub(crate) fn is_quote(t: &Tokens) -> (b: bool)
    ensures
        b == (t@ == Lexeme::DoubleQuotes),
{
    match t {
        Tokens::DoubleQuotes => true,
        _ => false,
    }
}

pub(crate) fn is_colon(t: &Tokens) -> (b: bool)
    ensures
        b == (t@ == Lexeme::Colon),
{
    match t {
        Tokens::Colon => true,
        _ => false,
    }
}

pub(crate) fn is_dot(t: &Tokens) -> (b: bool)
    ensures
        b == (t@ == Lexeme::Dot),
{
    match t {
        Tokens::Dot => true,
        _ => false,
    }
}

pub(crate) fn is_equal_sign(t: &Tokens) -> (b: bool)
    ensures
        b == (t@ == Lexeme::Operator(Operators::Equal)),
{
    match t {
        Tokens::Operator(Operators::Equal) => true,
        _ => false,
    }
}

pub(crate) fn digit_char(c: char) -> (b: bool)
    ensures
        b == is_digit(c),
{
    '0' <= c && c <= '9'
}

pub(crate) fn all_whitespace(v: &Vec<char>) -> (b: bool)
    ensures
        b == all_ws(v@),
{
    let mut i: usize = 0;
    while i < v.len()
        invariant
            i <= v@.len(),
            forall|j: int| 0 <= j < i ==> is_ws(#[trigger] v@[j]),
        decreases v@.len() - i,
    {
        if !is_whitespace(v[i]) {
            return false;
        }
        i = i + 1;
    }
    true
}

pub(crate) fn joined(op: Operators) -> (r: Option<Operators>)
    ensures
        r == joined_with_equal(op),
{
    match op {
        Operators::Add => Some(Operators::AddEq),
        Operators::Sub => Some(Operators::SubEq),
        Operators::Mul => Some(Operators::MulEq),
        Operators::Div => Some(Operators::DivEq),
        Operators::Not => Some(Operators::NotEqual),
        Operators::Equal => Some(Operators::DoubleEq),
        _ => None,
    }
}

/// Replaces the token at `idx` by `into` and takes the next token and its
/// position out.
pub(crate) fn join_next(tokens: &mut Vec<Tokens>, idx: usize, lines: &mut Vec<(usize, usize)>, into: Tokens)
    requires
        idx + 1 < old(tokens)@.len(),
        idx + 1 < old(lines)@.len(),
    ensures
        lexemes_of(final(tokens)@) == lexemes_of(old(tokens)@).update(idx as int, into@).remove(
            idx + 1,
        ),
        final(lines)@ == old(lines)@.remove(idx + 1),
{
    let ghost into_view = into@;
    let n = tokens.len();
    tokens[idx] = into;
    tokens.remove(idx + 1);
    lines.remove(idx + 1);
    assert(lexemes_of(tokens@) =~= lexemes_of(old(tokens)@).update(idx as int, into_view).remove(
        idx + 1,
    ));
}

/// Joins the quoted run that starts at `idx` into one string token.
pub(crate) fn read_string(tokens: &mut Vec<Tokens>, idx: usize, lines: &mut Vec<(usize, usize)>) -> (r: usize)
    requires
        idx < old(tokens)@.len(),
        quote_step(lexemes_of(old(tokens)@), old(lines)@, idx as int) is Some,
    ensures
        quote_step(lexemes_of(old(tokens)@), old(lines)@, idx as int) == Some(
            (lexemes_of(final(tokens)@), final(lines)@, Seq::<((usize, usize), Seq<char>)>::empty(), r as int),
        ),
{
    let n = tokens.len();
    let ghost t0 = tokens@;
    let ghost ts = lexemes_of(tokens@);
    let ghost ls = lines@;
    let ghost close = quote_close(ts, idx + 1);
    proof {
        lemma_quote_close(ts, idx + 1);
    }
    let mut i: usize = idx + 1;
    let mut res = String::new();
    loop
        invariant_except_break
            i < ts.len(),
        invariant
            idx + 1 <= i <= close <= ts.len(),
            n == ts.len(),
            t0 == old(tokens)@,
            ls == old(lines)@,
            tokens@ == t0,
            lines@ == ls,
            ts == lexemes_of(t0),
            close == quote_close(ts, idx + 1),
            forall|j: int| idx + 1 <= j < close ==> ts[j] != Lexeme::DoubleQuotes,
            close < ts.len() ==> ts[close] == Lexeme::DoubleQuotes,
            res@ == texts(ts, idx + 1, i as int),
            quote_step(ts, ls, idx as int) is Some,
        ensures
            i == close,
            close < ts.len(),
        decreases close - i,
    {
        assert(ts[i as int] == tokens@[i as int]@);
        if is_quote(&tokens[i]) {
            break;
        }
        let piece = deparse_token(&tokens[i]);
        assert(ts[i as int] == tokens@[i as int]@);
        push_str(&mut res, piece.as_str());
        assert(res@ == texts(ts, idx + 1, i + 1));
        i = i + 1;
        if i == tokens.len() {
            let ghost text = res@;
            tokens.truncate(idx + 1);
            lines.truncate(idx + 1);
            tokens[idx] = Tokens::String(res);
            proof {
                assert(lexemes_of(tokens@) =~= ts.update(idx as int, Lexeme::String(text)).take(
                    idx + 1,
                ));
            }
            return 1;
        }
    }
    let ghost text = res@;
    remove_range(tokens, idx + 1, i + 1);
    remove_range(lines, idx + 1, i + 1);
    tokens[idx] = Tokens::String(res);
    proof {
        assert(lexemes_of(tokens@) =~= ts.update(idx as int, Lexeme::String(text)).take(idx + 1)
            + ts.skip(close + 1));
    }
    1
}

/// Reads the digits of a text token as a number.
pub(crate) fn number_token(
    tokens: &mut Vec<Tokens>,
    idx: usize,
    lines: &mut Vec<(usize, usize)>,
    errors: &mut Vec<Errors>,
    v: Vec<char>,
) -> (r: usize)
    requires
        idx < old(tokens)@.len(),
        v@.len() > 0,
        number_step(lexemes_of(old(tokens)@), old(lines)@, idx as int, v@) is Some,
    ensures
        ({
            let s = number_step(lexemes_of(old(tokens)@), old(lines)@, idx as int, v@).unwrap();
            &&& lexemes_of(final(tokens)@) == s.0
            &&& final(lines)@ == s.1
            &&& reported(old(errors)@, final(errors)@, s.2)
            &&& r as int == s.3
        }),
{
    let n = tokens.len();
    let ghost ts = lexemes_of(tokens@);
    let ghost ls = lines@;
    proof {
        lemma_reported_nothing(errors@);
        assert(v@.subrange(0, v@.len() as int) =~= v@);
    }
    if is_dot(&tokens[idx + 1]) {
        match parse_usize_chars(&v, 0, v.len()) {
            None => {
                let e = Errors::InvalidNumber(lines[idx], string_from_chars(&v));
                proof {
                    lemma_reported_one(errors@, e, (ls[idx as int], v@));
                }
                errors.push(e);
                return 1;
            },
            Some(a) => {
                let next: Option<Vec<char>> = match &tokens[idx + 2] {
                    Tokens::Text(t2) => Some(chars_of(t2.as_str())),
                    _ => None,
                };
                match next {
                    Some(w) => {
                        proof {
                            assert(w@.subrange(0, w@.len() as int) =~= w@);
                        }
                        match parse_usize_chars(&w, 0, w.len()) {
                            Some(b) => {
                                tokens[idx] = Tokens::Number(a, b, 'f');
                                tokens.remove(idx + 1);
                                tokens.remove(idx + 1);
                                lines.remove(idx + 1);
                                lines.remove(idx + 1);
                                proof {
                                    assert(lexemes_of(tokens@) =~= ts.update(
                                        idx as int,
                                        Lexeme::Number(a, b, 'f'),
                                    ).remove(idx + 1).remove(idx + 1));
                                }
                            },
                            None => {
                                let mut res = string_from_chars(&v);
                                push_char(&mut res, '.');
                                let tail = string_from_chars(&w);
                                push_str(&mut res, tail.as_str());
                                assert(res@ =~= v@ + seq!['.'] + w@);
                                let e = Errors::InvalidNumber(lines[idx], res);
                                proof {
                                    lemma_reported_one(
                                        errors@,
                                        e,
                                        (ls[idx as int], v@ + seq!['.'] + w@),
                                    );
                                }
                                errors.push(e);
                                return 1;
                            },
                        }
                    },
                    None => {},
                }
            },
        }
    } else {
        let last = v[v.len() - 1];
        if digit_char(last) {
            match parse_usize_chars(&v, 0, v.len()) {
                Some(k) => {
                    tokens[idx] = Tokens::Number(k, 0, 'i');
                    assert(lexemes_of(tokens@) =~= ts.update(idx as int, Lexeme::Number(k, 0, 'i')));
                },
                None => {
                    let e = Errors::InvalidNumber(lines[idx], string_from_chars(&v));
                    proof {
                        lemma_reported_one(errors@, e, (ls[idx as int], v@));
                    }
                    errors.push(e);
                },
            }
        } else {
            assert(v@.subrange(0, v@.len() - 1) =~= v@.drop_last());
            match parse_usize_chars(&v, 0, v.len() - 1) {
                Some(k) => {
                    let number = Tokens::Number(k, 0, last);
                    let ghost number_view = number@;
                    tokens[idx] = number;
                    assert(lexemes_of(tokens@) =~= ts.update(idx as int, number_view));
                },
                None => {
                    let e = Errors::InvalidNumber(lines[idx], string_from_chars(&v));
                    proof {
                        lemma_reported_one(errors@, e, (ls[idx as int], v@));
                    }
                    errors.push(e);
                },
            }
        }
    }
    1
}

/// Refines a text token: numbers, blank texts and tabs.
fn text_token(
    tokens: &mut Vec<Tokens>,
    idx: usize,
    lines: &mut Vec<(usize, usize)>,
    errors: &mut Vec<Errors>,
    v: Vec<char>,
) -> (r: usize)
    requires
        idx < old(tokens)@.len(),
        text_step(lexemes_of(old(tokens)@), old(lines)@, idx as int, v@) is Some,
    ensures
        ({
            let s = text_step(lexemes_of(old(tokens)@), old(lines)@, idx as int, v@).unwrap();
            &&& lexemes_of(final(tokens)@) == s.0
            &&& final(lines)@ == s.1
            &&& reported(old(errors)@, final(errors)@, s.2)
            &&& r as int == s.3
        }),
{
    let ghost ts = lexemes_of(tokens@);
    proof {
        lemma_reported_nothing(errors@);
    }
    if v.len() > 0 && digit_char(v[0]) {
        return number_token(tokens, idx, lines, errors, v);
    }
    if !all_whitespace(&v) {
        return 1;
    }
    if v.len() == 1 && v[0] == '\t' {
        assert(v@ =~= seq!['\t']);
        tokens[idx] = Tokens::Tab;
        assert(lexemes_of(tokens@) =~= ts.update(idx as int, Lexeme::Tab));
        return 1;
    }
    assert(v@ != seq!['\t']);
    lines.remove(idx);
    tokens.remove(idx);
    assert(lexemes_of(tokens@) =~= ts.remove(idx as int));
    0
}

/// Refines the token at `idx`; returns how far the cursor moves.
fn process_token(
    tokens: &mut Vec<Tokens>,
    idx: usize,
    lines: &mut Vec<(usize, usize)>,
    errors: &mut Vec<Errors>,
) -> (r: usize)
    requires
        idx < old(tokens)@.len(),
        step(lexemes_of(old(tokens)@), old(lines)@, idx as int) is Some,
    ensures
        ({
            let s = step(lexemes_of(old(tokens)@), old(lines)@, idx as int).unwrap();
            &&& lexemes_of(final(tokens)@) == s.0
            &&& final(lines)@ == s.1
            &&& reported(old(errors)@, final(errors)@, s.2)
            &&& r as int == s.3
        }),
{
    let n = tokens.len();
    let ghost ts = lexemes_of(tokens@);
    proof {
        lemma_reported_nothing(errors@);
        assert(ts[idx as int] == tokens@[idx as int]@);
    }
    match &tokens[idx] {
        Tokens::DoubleQuotes => {
            return read_string(tokens, idx, lines);
        },
        Tokens::Space => {
            tokens.remove(idx);
            lines.remove(idx);
            assert(lexemes_of(tokens@) =~= ts.remove(idx as int));
            return 0;
        },
        Tokens::Colon => {
            if is_colon(&tokens[idx + 1]) {
                join_next(tokens, idx, lines, Tokens::DoubleColon);
            }
        },
        Tokens::Text(txt) => {
            let v = chars_of(txt.as_str());
            return text_token(tokens, idx, lines, errors, v);
        },
        Tokens::Operator(op) => {
            let o = *op;
            match joined(o) {
                Some(j) => {
                    if is_equal_sign(&tokens[idx + 1]) {
                        join_next(tokens, idx, lines, Tokens::Operator(j));
                    }
                },
                None => {},
            }
        },
        Tokens::AngleBracket(closing) => {
            let into = if *closing {
                Operators::LessEq
            } else {
                Operators::MoreEq
            };
            if is_equal_sign(&tokens[idx + 1]) {
                join_next(tokens, idx, lines, Tokens::Operator(into));
            }
        },
        _ => {},
    }
    1
}

/// Refines the tokens of a grammar file in one pass from the first token
/// to the last; `lines` is kept in step with the tokens and every
/// malformed number is reported in `errors`.
pub fn refactor(
    tokens: Vec<Tokens>,
    lines: &mut Vec<(usize, usize)>,
    errors: &mut Vec<Errors>,
) -> (refined: Vec<Tokens>)
    requires
        run(lexemes_of(tokens@), old(lines)@, 0) is Some,
    ensures
        ({
            let (t, l, found) = run(lexemes_of(tokens@), old(lines)@, 0).unwrap();
            &&& lexemes_of(refined@) == t
            &&& final(lines)@ == l
            &&& reported(old(errors)@, final(errors)@, found)
        }),
{
    let mut tokens = tokens;
    let ghost t0 = lexemes_of(tokens@);
    let ghost l0 = lines@;
    let ghost e0 = errors@;
    let ghost mut found: Seq<((usize, usize), Seq<char>)> = seq![];
    proof {
        lemma_reported_nothing(errors@);
    }
    let mut i: usize = 0;
    while i < tokens.len()
        invariant
            i <= tokens@.len() || run(lexemes_of(tokens@), lines@, i as int) == Some(
                (lexemes_of(tokens@), lines@, Seq::<((usize, usize), Seq<char>)>::empty()),
            ),
            run(lexemes_of(tokens@), lines@, i as int) is Some,
            run(t0, l0, 0) == match run(lexemes_of(tokens@), lines@, i as int) {
                Some((t3, l3, f3)) => Some((t3, l3, found + f3)),
                None => None,
            },
            reported(e0, errors@, found),
            e0 == old(errors)@,
        decreases tokens@.len() - i,
    {
        let ghost ts = lexemes_of(tokens@);
        let ghost ls = lines@;
        let ghost es = errors@;
        proof {
            lemma_step_shrinks(ts, ls, i as int);
        }
        let advance = process_token(&mut tokens, i, lines, errors);
        proof {
            let s = step(ts, ls, i as int).unwrap();
            lemma_reported_chain(e0, es, errors@, found, s.2);
            let (t3, l3, f3) = run(lexemes_of(tokens@), lines@, i + advance).unwrap();
            assert(found + (s.2 + f3) =~= (found + s.2) + f3);
            found = found + s.2;
        }
        i = i + advance;
    }
    proof {
        assert(found + Seq::<((usize, usize), Seq<char>)>::empty() =~= found);
    }
    tokens
}

} // verus!
