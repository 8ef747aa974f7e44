//! Refining the tokens of a source file: strings, numbers, comments,
//! repeated semicolons and two-character operators.
//!
//! One pass over the tokens: a quoted run becomes one string token, spaces
//! and blank texts go, digits become number tokens, `//` and `/*` become
//! comment keywords and a comment is taken out up to its end (a `"\n"`
//! text, or `*/`), a run of semicolons keeps only its first, and `::`,
//! `+=`, `-=`, `*=`, `/=`, `!=`, `==` are joined into one token. `lines`
//! holds the source position of each token and is kept in step with the
//! tokens; malformed numbers are reported in `errors`.
//!
//! The text of a quoted run is the texts of its tokens one after another,
//! each as `lexer::lexemes::deparse_token` writes it back.
use vstd::prelude::*;

use crate::ast_parser::formater::{
    all_whitespace, all_ws, digit_char, is_colon, is_equal_sign, join_next, joined, joined_with_equal,
    lemma_number_step_shrinks, lemma_quote_close, lemma_reported_chain, lemma_reported_nothing,
    merge_step, number_step, number_token, quote_step, read_string, remove_range, remove_step,
    reported, shrinks,
};
use crate::lexer::compiler_data::Keywords;
use crate::lexer::lexemes::{lexemes_of, Lexeme, Operators, Tokens};
use crate::text::{chars_of, is_digit};
use crate::token_refactor::parse_err::Errors;

verus! {

/// The newline text that ends a line comment.
pub open spec fn is_newline(l: Lexeme) -> bool {
    l == Lexeme::Text(seq!['\n'])
}

/// First position at or after `k` that does not hold a semicolon (the
/// length of `ts` when every one does).
pub open spec fn semicolons_end(ts: Seq<Lexeme>, k: int) -> int
    decreases ts.len() - k,
{
    if k < 0 || k >= ts.len() {
        ts.len() as int
    } else if ts[k] == Lexeme::Semicolon {
        semicolons_end(ts, k + 1)
    } else {
        k
    }
}

/// First position at or after `k` that holds a newline text.
pub open spec fn newline_from(ts: Seq<Lexeme>, k: int) -> Option<int>
    decreases ts.len() - k,
{
    if k < 0 || k >= ts.len() {
        None
    } else if is_newline(ts[k]) {
        Some(k)
    } else {
        newline_from(ts, k + 1)
    }
}

/// First position at or after `k` of a `*` followed by `/`; `None` when
/// the tokens end first, or end right after a `*`.
pub open spec fn block_end_from(ts: Seq<Lexeme>, k: int) -> Option<int>
    decreases ts.len() - k,
{
    if k < 0 || k >= ts.len() {
        None
    } else if ts[k] == Lexeme::Operator(Operators::Mul) {
        if k + 1 >= ts.len() {
            None
        } else if ts[k + 1] == Lexeme::Operator(Operators::Div) {
            Some(k)
        } else {
            block_end_from(ts, k + 1)
        }
    } else {
        block_end_from(ts, k + 1)
    }
}

/// Keeps only the first of a run of semicolons.
pub open spec fn semicolons_step(ts: Seq<Lexeme>, ls: Seq<(usize, usize)>, idx: int) -> Option<
    (Seq<Lexeme>, Seq<(usize, usize)>, Seq<((usize, usize), Seq<char>)>, int),
> {
    let e = semicolons_end(ts, idx + 1);
    if e >= ts.len() {
        None
    } else if e == idx + 1 {
        Some((ts, ls, seq![], 1))
    } else if ls.len() < e {
        None
    } else {
        Some((ts.take(idx + 1) + ts.skip(e), ls.take(idx + 1) + ls.skip(e), seq![], 1))
    }
}

/// Takes a line comment out, from its keyword up to and with the newline
/// text that ends it.
pub open spec fn line_comment_step(ts: Seq<Lexeme>, ls: Seq<(usize, usize)>, idx: int) -> Option<
    (Seq<Lexeme>, Seq<(usize, usize)>, Seq<((usize, usize), Seq<char>)>, int),
> {
    match newline_from(ts, idx + 1) {
        None => None,
        Some(j) => if ls.len() < j + 1 {
            None
        } else {
            Some((ts.take(idx) + ts.skip(j + 1), ls.take(idx) + ls.skip(j + 1), seq![], 0))
        },
    }
}

/// Takes a block comment out, from its keyword up to and with the `*/`
/// that ends it.
pub open spec fn block_comment_step(ts: Seq<Lexeme>, ls: Seq<(usize, usize)>, idx: int) -> Option<
    (Seq<Lexeme>, Seq<(usize, usize)>, Seq<((usize, usize), Seq<char>)>, int),
> {
    match block_end_from(ts, idx + 1) {
        None => None,
        Some(j) => if ls.len() < j + 2 {
            None
        } else {
            Some((ts.take(idx) + ts.skip(j + 2), ls.take(idx) + ls.skip(j + 2), seq![], 0))
        },
    }
}

/// A `/`: joined with `=`, or the start of a `//` or `/*` comment, which
/// is read again from the same position.
pub open spec fn slash_step(ts: Seq<Lexeme>, ls: Seq<(usize, usize)>, idx: int) -> Option<
    (Seq<Lexeme>, Seq<(usize, usize)>, Seq<((usize, usize), Seq<char>)>, int),
> {
    if idx + 1 >= ts.len() {
        None
    } else if ts[idx + 1] == Lexeme::Operator(Operators::Equal) {
        merge_step(
            ts,
            ls,
            idx,
            Lexeme::Operator(Operators::Equal),
            Lexeme::Operator(Operators::DivEq),
        )
    } else if ts[idx + 1] == Lexeme::Operator(Operators::Div) || ts[idx + 1] == Lexeme::Operator(
        Operators::Mul,
    ) {
        if idx + 1 < ls.len() {
            let k = if ts[idx + 1] == Lexeme::Operator(Operators::Div) {
                Keywords::CommentLine
            } else {
                Keywords::CommentBlock
            };
            Some((ts.update(idx, Lexeme::Keyword(k)).remove(idx + 1), ls.remove(idx + 1), seq![], 0))
        } else {
            None
        }
    } else {
        Some((ts, ls, seq![], 1))
    }
}

/// The outcome of refining the token at `idx`: the new tokens, the new
/// positions, the malformed numbers found, and how far the cursor moves
/// (0 when the token was taken out or is to be read again). `None` when
/// the step would index past the end of the tokens or of the positions.
pub open spec fn refine_step(ts: Seq<Lexeme>, ls: Seq<(usize, usize)>, idx: int) -> Option<
    (Seq<Lexeme>, Seq<(usize, usize)>, Seq<((usize, usize), Seq<char>)>, int),
> {
    match ts[idx] {
        Lexeme::DoubleQuotes => quote_step(ts, ls, idx),
        Lexeme::Space => remove_step(ts, ls, idx),
        Lexeme::Colon => merge_step(ts, ls, idx, Lexeme::Colon, Lexeme::DoubleColon),
        Lexeme::Semicolon => semicolons_step(ts, ls, idx),
        Lexeme::Text(txt) => if txt.len() > 0 && is_digit(txt[0]) {
            number_step(ts, ls, idx, txt)
        } else if !all_ws(txt) {
            Some((ts, ls, seq![], 1))
        } else {
            remove_step(ts, ls, idx)
        },
        Lexeme::Operator(op) => if op == Operators::Div {
            slash_step(ts, ls, idx)
        } else {
            match joined_with_equal(op) {
                Some(j) => merge_step(
                    ts,
                    ls,
                    idx,
                    Lexeme::Operator(Operators::Equal),
                    Lexeme::Operator(j),
                ),
                None => Some((ts, ls, seq![], 1)),
            }
        },
        Lexeme::Keyword(Keywords::CommentLine) => line_comment_step(ts, ls, idx),
        Lexeme::Keyword(Keywords::CommentBlock) => block_comment_step(ts, ls, idx),
        _ => Some((ts, ls, seq![], 1)),
    }
}

/// The whole pass from position `i` on: the final tokens, the final
/// positions and the malformed numbers found, in order; `None` when a step
/// would index past the end.
pub open spec fn refine_run(ts: Seq<Lexeme>, ls: Seq<(usize, usize)>, i: int) -> Option<
    (Seq<Lexeme>, Seq<(usize, usize)>, Seq<((usize, usize), Seq<char>)>),
>
    decreases ts.len() - i,
{
    if i < 0 || i >= ts.len() {
        Some((ts, ls, seq![]))
    } else {
        match refine_step(ts, ls, i) {
            None => None,
            Some((t2, l2, found, advance)) => if 0 <= t2.len() - (i + advance) < ts.len() - i
                && 0 <= advance {
                match refine_run(t2, l2, i + advance) {
                    Some((t3, l3, found3)) => Some((t3, l3, found + found3)),
                    None => None,
                }
            } else {
                None
            },
        }
    }
}

proof fn lemma_semicolons_end(ts: Seq<Lexeme>, k: int)
    requires
        0 <= k <= ts.len(),
    ensures
        k <= semicolons_end(ts, k) <= ts.len(),
        forall|j: int| k <= j < semicolons_end(ts, k) ==> ts[j] == Lexeme::Semicolon,
        semicolons_end(ts, k) < ts.len() ==> ts[semicolons_end(ts, k)] != Lexeme::Semicolon,
    decreases ts.len() - k,
{
    if k < ts.len() && ts[k] == Lexeme::Semicolon {
        lemma_semicolons_end(ts, k + 1);
    }
}

proof fn lemma_newline_from(ts: Seq<Lexeme>, k: int)
    requires
        0 <= k,
    ensures
        match newline_from(ts, k) {
            Some(j) => k <= j < ts.len() && is_newline(ts[j]) && forall|m: int|
                k <= m < j ==> !is_newline(#[trigger] ts[m]),
            None => forall|m: int| k <= m < ts.len() ==> !is_newline(#[trigger] ts[m]),
        },
    decreases ts.len() - k,
{
    if k < ts.len() && !is_newline(ts[k]) {
        lemma_newline_from(ts, k + 1);
    }
}

proof fn lemma_block_end_from(ts: Seq<Lexeme>, k: int)
    requires
        0 <= k,
    ensures
        match block_end_from(ts, k) {
            Some(j) => k <= j && j + 1 < ts.len() && ts[j] == Lexeme::Operator(Operators::Mul)
                && ts[j + 1] == Lexeme::Operator(Operators::Div) && forall|m: int|
                k <= m < j ==> !(#[trigger] ts[m] == Lexeme::Operator(Operators::Mul) && ts[m + 1]
                    == Lexeme::Operator(Operators::Div)) && m + 1 < ts.len(),
            None => true,
        },
    decreases ts.len() - k,
{
    if k < ts.len() {
        if ts[k] == Lexeme::Operator(Operators::Mul) {
            if k + 1 < ts.len() && ts[k + 1] != Lexeme::Operator(Operators::Div) {
                lemma_block_end_from(ts, k + 1);
            }
        } else {
            lemma_block_end_from(ts, k + 1);
        }
    }
}

proof fn lemma_refine_step_shrinks(ts: Seq<Lexeme>, ls: Seq<(usize, usize)>, i: int)
    requires
        0 <= i < ts.len(),
    ensures
        shrinks(ts, i, refine_step(ts, ls, i)),
{
    match ts[i] {
        Lexeme::DoubleQuotes => {
            lemma_quote_close(ts, i + 1);
            let close = crate::ast_parser::formater::quote_close(ts, i + 1);
            if i + 1 < ts.len() && close < ts.len() && close + 1 <= ls.len() {
                let t1 = ts.update(
                    i,
                    Lexeme::String(crate::ast_parser::formater::texts(ts, i + 1, close)),
                );
                assert((t1.take(i + 1) + ts.skip(close + 1)).len() == i + 1 + ts.len() - (close + 1));
            }
        },
        Lexeme::Text(txt) => {
            if txt.len() > 0 && is_digit(txt[0]) {
                lemma_number_step_shrinks(ts, ls, i, txt);
            }
        },
        Lexeme::Semicolon => {
            lemma_semicolons_end(ts, i + 1);
        },
        Lexeme::Keyword(Keywords::CommentLine) => {
            lemma_newline_from(ts, i + 1);
        },
        Lexeme::Keyword(Keywords::CommentBlock) => {
            lemma_block_end_from(ts, i + 1);
        },
        _ => {},
    }
}

proof fn lemma_refine_step_keeps_lengths(ts: Seq<Lexeme>, ls: Seq<(usize, usize)>, i: int)
    requires
        0 <= i < ts.len(),
        ls.len() == ts.len(),
        refine_step(ts, ls, i) is Some,
    ensures
        refine_step(ts, ls, i).unwrap().0.len() == refine_step(ts, ls, i).unwrap().1.len(),
{
    match ts[i] {
        Lexeme::DoubleQuotes => {
            lemma_quote_close(ts, i + 1);
            let close = crate::ast_parser::formater::quote_close(ts, i + 1);
            let t1 = ts.update(
                i,
                Lexeme::String(crate::ast_parser::formater::texts(ts, i + 1, close)),
            );
            if close < ts.len() {
                assert((t1.take(i + 1) + ts.skip(close + 1)).len() == (ls.take(i + 1) + ls.skip(
                    close + 1,
                )).len());
            }
        },
        Lexeme::Text(txt) => {
            if txt.len() > 0 && is_digit(txt[0]) {
                crate::ast_parser::formater::lemma_number_step_keeps_lengths(ts, ls, i, txt);
            }
        },
        Lexeme::Semicolon => {
            lemma_semicolons_end(ts, i + 1);
        },
        Lexeme::Keyword(Keywords::CommentLine) => {
            lemma_newline_from(ts, i + 1);
        },
        Lexeme::Keyword(Keywords::CommentBlock) => {
            lemma_block_end_from(ts, i + 1);
        },
        _ => {},
    }
}

/// The positions stay in step with the tokens: when every token has its
/// position, every refined token still has one.
pub proof fn law_refined_lines_stay_in_step(ts: Seq<Lexeme>, ls: Seq<(usize, usize)>, i: int)
    requires
        0 <= i,
        ls.len() == ts.len(),
        refine_run(ts, ls, i) is Some,
    ensures
        refine_run(ts, ls, i).unwrap().0.len() == refine_run(ts, ls, i).unwrap().1.len(),
    decreases ts.len() - i,
{
    if i < ts.len() {
        lemma_refine_step_keeps_lengths(ts, ls, i);
        let (t2, l2, found, advance) = refine_step(ts, ls, i).unwrap();
        law_refined_lines_stay_in_step(t2, l2, i + advance);
    }
}

/// An operator directly followed by `=` is joined with it into one token,
/// and the pass goes on after it: `+=`, `-=`, `*=`, `/=`, `!=` and `==`
/// each become a single operator, whose position is that of the first of
/// the two, and the position of the `=` is dropped.
pub proof fn law_operators_join_with_equal(
    ts: Seq<Lexeme>,
    ls: Seq<(usize, usize)>,
    i: int,
    op: Operators,
    j: Operators,
)
    requires
        0 <= i,
        i + 1 < ts.len(),
        i + 1 < ls.len(),
        ts[i] == Lexeme::Operator(op),
        ts[i + 1] == Lexeme::Operator(Operators::Equal),
        (op == Operators::Add && j == Operators::AddEq) || (op == Operators::Sub && j
            == Operators::SubEq) || (op == Operators::Mul && j == Operators::MulEq) || (op
            == Operators::Div && j == Operators::DivEq) || (op == Operators::Not && j
            == Operators::NotEqual) || (op == Operators::Equal && j == Operators::DoubleEq),
    ensures
        refine_step(ts, ls, i) == Some(
            (
                ts.update(i, Lexeme::Operator(j)).remove(i + 1),
                ls.remove(i + 1),
                Seq::<((usize, usize), Seq<char>)>::empty(),
                1int,
            ),
        ),
        refine_run(ts, ls, i) == refine_run(
            ts.update(i, Lexeme::Operator(j)).remove(i + 1),
            ls.remove(i + 1),
            i + 1,
        ),
{
    let t2 = ts.update(i, Lexeme::Operator(j)).remove(i + 1);
    let l2 = ls.remove(i + 1);
    assert(refine_step(ts, ls, i) == Some(
        (t2, l2, Seq::<((usize, usize), Seq<char>)>::empty(), 1int),
    ));
    match refine_run(t2, l2, i + 1) {
        Some((t3, l3, f3)) => {
            assert(Seq::<((usize, usize), Seq<char>)>::empty() + f3 =~= f3);
        },
        None => {},
    }
}

/// Two colons are joined into one `::` token, and the pass goes on after it.
pub proof fn law_colons_join(ts: Seq<Lexeme>, ls: Seq<(usize, usize)>, i: int)
    requires
        0 <= i,
        i + 1 < ts.len(),
        i + 1 < ls.len(),
        ts[i] == Lexeme::Colon,
        ts[i + 1] == Lexeme::Colon,
    ensures
        refine_step(ts, ls, i) == Some(
            (
                ts.update(i, Lexeme::DoubleColon).remove(i + 1),
                ls.remove(i + 1),
                Seq::<((usize, usize), Seq<char>)>::empty(),
                1int,
            ),
        ),
{
}

/// A space is taken out with its position, and the token that comes next
/// is read at the same place.
pub proof fn law_spaces_are_dropped(ts: Seq<Lexeme>, ls: Seq<(usize, usize)>, i: int)
    requires
        0 <= i < ts.len(),
        i < ls.len(),
        ts[i] == Lexeme::Space,
    ensures
        refine_step(ts, ls, i) == Some(
            (ts.remove(i), ls.remove(i), Seq::<((usize, usize), Seq<char>)>::empty(), 0int),
        ),
{
}

/// Of a run of `n` semicolons only the first is kept: the others, and
/// their positions, are taken out, and the pass goes on after the one kept.
pub proof fn law_semicolon_runs_keep_one(ts: Seq<Lexeme>, ls: Seq<(usize, usize)>, i: int, n: int)
    requires
        0 <= i,
        n >= 1,
        i + n < ts.len(),
        ls.len() >= ts.len(),
        forall|q: int| i <= q < i + n ==> #[trigger] ts[q] == Lexeme::Semicolon,
        ts[i + n] != Lexeme::Semicolon,
    ensures
        refine_step(ts, ls, i) == Some(
            (
                ts.take(i + 1) + ts.skip(i + n),
                ls.take(i + 1) + ls.skip(i + n),
                Seq::<((usize, usize), Seq<char>)>::empty(),
                1int,
            ),
        ),
{
    lemma_semicolons_end(ts, i + 1);
    let e = semicolons_end(ts, i + 1);
    if e < i + n {
        assert(ts[e] == Lexeme::Semicolon);
    }
    if e > i + n {
        assert(ts[i + n] == Lexeme::Semicolon);
    }
    assert(e == i + n);
    if n == 1 {
        assert(ts.take(i + 1) + ts.skip(i + 1) =~= ts);
        assert(ls.take(i + 1) + ls.skip(i + 1) =~= ls);
    }
}

/// A line comment is taken out from its keyword up to and with the first
/// newline after it, positions too, and what follows is read at the place
/// of the keyword.
pub proof fn law_line_comments_are_dropped(ts: Seq<Lexeme>, ls: Seq<(usize, usize)>, i: int, j: int)
    requires
        0 <= i < j < ts.len(),
        j < ls.len(),
        ts[i] == Lexeme::Keyword(Keywords::CommentLine),
        ts[j] == Lexeme::Text(seq!['\n']),
        forall|m: int| i < m < j ==> #[trigger] ts[m] != Lexeme::Text(seq!['\n']),
    ensures
        refine_step(ts, ls, i) == Some(
            (
                ts.take(i) + ts.skip(j + 1),
                ls.take(i) + ls.skip(j + 1),
                Seq::<((usize, usize), Seq<char>)>::empty(),
                0int,
            ),
        ),
{
    lemma_newline_from(ts, i + 1);
    let k = newline_from(ts, i + 1).unwrap();
    if k < j {
        assert(ts[k] != Lexeme::Text(seq!['\n']));
    }
    if k > j {
        assert(!is_newline(ts[j]));
    }
}

proof fn lemma_block_end_at(ts: Seq<Lexeme>, k: int, j: int)
    requires
        0 <= k <= j,
        j + 1 < ts.len(),
        ts[j] == Lexeme::Operator(Operators::Mul),
        ts[j + 1] == Lexeme::Operator(Operators::Div),
        forall|m: int|
            k <= m < j ==> !(#[trigger] ts[m] == Lexeme::Operator(Operators::Mul) && ts[m + 1]
                == Lexeme::Operator(Operators::Div)),
    ensures
        block_end_from(ts, k) == Some(j),
    decreases j - k,
{
    if k < j {
        lemma_block_end_at(ts, k + 1, j);
        assert(!(ts[k] == Lexeme::Operator(Operators::Mul) && ts[k + 1] == Lexeme::Operator(
            Operators::Div,
        )));
    }
}

/// A block comment is taken out from its keyword up to and with the first
/// `*/` after it, positions too, and what follows is read at the place of
/// the keyword.
pub proof fn law_block_comments_are_dropped(ts: Seq<Lexeme>, ls: Seq<(usize, usize)>, i: int, j: int)
    requires
        0 <= i < j,
        j + 1 < ts.len(),
        j + 1 < ls.len(),
        ts[i] == Lexeme::Keyword(Keywords::CommentBlock),
        ts[j] == Lexeme::Operator(Operators::Mul),
        ts[j + 1] == Lexeme::Operator(Operators::Div),
        forall|m: int|
            i < m < j ==> !(#[trigger] ts[m] == Lexeme::Operator(Operators::Mul) && ts[m + 1]
                == Lexeme::Operator(Operators::Div)),
    ensures
        refine_step(ts, ls, i) == Some(
            (
                ts.take(i) + ts.skip(j + 2),
                ls.take(i) + ls.skip(j + 2),
                Seq::<((usize, usize), Seq<char>)>::empty(),
                0int,
            ),
        ),
{
    lemma_block_end_at(ts, i + 1, j);
    assert(refine_step(ts, ls, i) == block_comment_step(ts, ls, i));
}

/// The entries of `base` at the places that `ks` names (by the first
/// number of each entry of `ks`).
pub open spec fn pick(ks: Seq<(usize, usize)>, base: Seq<(usize, usize)>) -> Seq<(usize, usize)> {
    ks.map_values(|k: (usize, usize)| base[k.0 as int])
}

/// Positions that name their own place: entry `k` is `(k, 0)`.
pub open spec fn numbered(n: nat) -> Seq<(usize, usize)> {
    Seq::new(n, |k: int| (k as usize, 0usize))
}

/// `ks` names places below `n`, each later entry a later place.
pub open spec fn increasing_below(ks: Seq<(usize, usize)>, n: int) -> bool {
    &&& forall|a: int, b: int| 0 <= a < b < ks.len() ==> ks[a].0 < ks[b].0
    &&& forall|a: int| 0 <= a < ks.len() ==> ks[a].0 < n
}

proof fn lemma_pick_ops(base: Seq<(usize, usize)>)
    ensures
        forall|ks: Seq<(usize, usize)>, k: int|
            0 <= k < ks.len() ==> #[trigger] pick(ks.remove(k), base) == pick(ks, base).remove(k),
        forall|ks: Seq<(usize, usize)>, a: int, c: int|
            0 <= a <= c <= ks.len() ==> #[trigger] pick(ks.take(a) + ks.skip(c), base) == pick(
                ks,
                base,
            ).take(a) + pick(ks, base).skip(c),
        forall|ks: Seq<(usize, usize)>, a: int|
            0 <= a <= ks.len() ==> #[trigger] pick(ks.take(a), base) == pick(ks, base).take(a),
{
    assert forall|ks: Seq<(usize, usize)>, k: int| 0 <= k < ks.len() implies #[trigger] pick(
        ks.remove(k),
        base,
    ) == pick(ks, base).remove(k) by {
        assert(pick(ks.remove(k), base) =~= pick(ks, base).remove(k));
    }
    assert forall|ks: Seq<(usize, usize)>, a: int, c: int| 0 <= a <= c <= ks.len() implies #[trigger] pick(
        ks.take(a) + ks.skip(c),
        base,
    ) == pick(ks, base).take(a) + pick(ks, base).skip(c) by {
        assert(pick(ks.take(a) + ks.skip(c), base) =~= pick(ks, base).take(a) + pick(ks, base).skip(c));
    }
    assert forall|ks: Seq<(usize, usize)>, a: int| 0 <= a <= ks.len() implies #[trigger] pick(
        ks.take(a),
        base,
    ) == pick(ks, base).take(a) by {
        assert(pick(ks.take(a), base) =~= pick(ks, base).take(a));
    }
}

proof fn lemma_increasing_ops(ks: Seq<(usize, usize)>, n: int)
    requires
        increasing_below(ks, n),
    ensures
        forall|k: int| 0 <= k < ks.len() ==> increasing_below(#[trigger] ks.remove(k), n),
        forall|a: int, c: int|
            0 <= a <= c <= ks.len() ==> increasing_below(#[trigger] (ks.take(a) + ks.skip(c)), n),
        forall|a: int| 0 <= a <= ks.len() ==> increasing_below(#[trigger] ks.take(a), n),
{
    assert forall|k: int| 0 <= k < ks.len() implies increasing_below(#[trigger] ks.remove(k), n) by {
        let r = ks.remove(k);
        assert forall|a: int, b: int| 0 <= a < b < r.len() implies r[a].0 < r[b].0 by {
            let a2 = if a < k { a } else { a + 1 };
            let b2 = if b < k { b } else { b + 1 };
            assert(r[a] == ks[a2] && r[b] == ks[b2]);
        }
        assert forall|a: int| 0 <= a < r.len() implies r[a].0 < n by {
            let a2 = if a < k { a } else { a + 1 };
            assert(r[a] == ks[a2]);
        }
    }
    assert forall|a: int, c: int| 0 <= a <= c <= ks.len() implies increasing_below(
        #[trigger] (ks.take(a) + ks.skip(c)),
        n,
    ) by {
        let r = ks.take(a) + ks.skip(c);
        assert forall|x: int, y: int| 0 <= x < y < r.len() implies r[x].0 < r[y].0 by {
            let x2 = if x < a { x } else { x - a + c };
            let y2 = if y < a { y } else { y - a + c };
            assert(r[x] == ks[x2] && r[y] == ks[y2]);
        }
        assert forall|x: int| 0 <= x < r.len() implies r[x].0 < n by {
            let x2 = if x < a { x } else { x - a + c };
            assert(r[x] == ks[x2]);
        }
    }
    assert forall|a: int| 0 <= a <= ks.len() implies increasing_below(#[trigger] ks.take(a), n) by {
        let r = ks.take(a);
        assert forall|x: int, y: int| 0 <= x < y < r.len() implies r[x].0 < r[y].0 by {
            assert(r[x] == ks[x] && r[y] == ks[y]);
        }
        assert forall|x: int| 0 <= x < r.len() implies r[x].0 < n by {
            assert(r[x] == ks[x]);
        }
    }
}

/// One step does to any positions what it does to the places they are
/// picked from; the places it keeps stay increasing.
proof fn lemma_refine_step_picks(
    ts: Seq<Lexeme>,
    ks: Seq<(usize, usize)>,
    base: Seq<(usize, usize)>,
    i: int,
    n: int,
)
    requires
        0 <= i < ts.len(),
    ensures
        (refine_step(ts, ks, i) is Some) == (refine_step(ts, pick(ks, base), i) is Some),
        refine_step(ts, ks, i) is Some ==> {
            let a = refine_step(ts, ks, i).unwrap();
            let b = refine_step(ts, pick(ks, base), i).unwrap();
            &&& b.0 == a.0
            &&& b.1 == pick(a.1, base)
            &&& b.3 == a.3
            &&& increasing_below(ks, n) ==> increasing_below(a.1, n)
        },
{
    lemma_pick_ops(base);
    if increasing_below(ks, n) {
        lemma_increasing_ops(ks, n);
        if 0 <= i + 1 < ks.len() {
            lemma_increasing_ops(ks.remove(i + 1), n);
        }
    }
    let ls = pick(ks, base);
    assert(ls.len() == ks.len());
    match ts[i] {
        Lexeme::DoubleQuotes => {
            lemma_quote_close(ts, i + 1);
        },
        Lexeme::Text(txt) => {
            if txt.len() > 0 && is_digit(txt[0]) {
                if i + 1 < ts.len() && i + 1 < ks.len() {
                    let k1 = ks.remove(i + 1);
                    assert(pick(k1, base) == ls.remove(i + 1));
                    if i + 1 < k1.len() {
                        assert(pick(k1.remove(i + 1), base) == pick(k1, base).remove(i + 1));
                    }
                }
            }
        },
        Lexeme::Semicolon => {
            lemma_semicolons_end(ts, i + 1);
        },
        Lexeme::Keyword(Keywords::CommentLine) => {
            lemma_newline_from(ts, i + 1);
        },
        Lexeme::Keyword(Keywords::CommentBlock) => {
            lemma_block_end_from(ts, i + 1);
        },
        _ => {},
    }
}

proof fn lemma_refine_run_picks(
    ts: Seq<Lexeme>,
    ks: Seq<(usize, usize)>,
    base: Seq<(usize, usize)>,
    i: int,
    n: int,
)
    requires
        0 <= i,
    ensures
        (refine_run(ts, ks, i) is Some) == (refine_run(ts, pick(ks, base), i) is Some),
        refine_run(ts, ks, i) is Some ==> {
            let a = refine_run(ts, ks, i).unwrap();
            let b = refine_run(ts, pick(ks, base), i).unwrap();
            &&& b.0 == a.0
            &&& b.1 == pick(a.1, base)
            &&& increasing_below(ks, n) ==> increasing_below(a.1, n)
        },
    decreases ts.len() - i,
{
    if i < ts.len() {
        lemma_refine_step_picks(ts, ks, base, i, n);
        if refine_step(ts, ks, i) is Some {
            let (t2, k2, f, adv) = refine_step(ts, ks, i).unwrap();
            lemma_refine_step_shrinks(ts, ks, i);
            lemma_refine_run_picks(t2, k2, base, i + adv, n);
        }
    }
}

/// The pass takes the same places out of the tokens and out of their
/// positions. Run on positions that name their own places, it gives the
/// list of places it keeps: increasing, below the number of tokens, one
/// per refined token, and independent of what the positions hold. Run on
/// any positions, one per token, it succeeds exactly when that run does,
/// gives the same tokens, and keeps the positions at those places.
pub proof fn law_refined_lines_keep_their_places(ts: Seq<Lexeme>, ls: Seq<(usize, usize)>)
    requires
        ls.len() == ts.len(),
        ts.len() <= usize::MAX,
    ensures
        (refine_run(ts, ls, 0) is Some) == (refine_run(ts, numbered(ts.len()), 0) is Some),
        refine_run(ts, ls, 0) is Some ==> {
            let kept = refine_run(ts, numbered(ts.len()), 0).unwrap();
            let r = refine_run(ts, ls, 0).unwrap();
            &&& r.0 == kept.0
            &&& r.1 == pick(kept.1, ls)
            &&& kept.1.len() == kept.0.len()
            &&& increasing_below(kept.1, ts.len() as int)
        },
{
    let ks = numbered(ts.len());
    assert(pick(ks, ls) =~= ls);
    assert(increasing_below(ks, ts.len() as int));
    lemma_refine_run_picks(ts, ks, ls, 0, ts.len() as int);
    if refine_run(ts, ks, 0) is Some {
        law_refined_lines_stay_in_step(ts, ks, 0);
    }
}

fn is_semicolon(t: &Tokens) -> (b: bool)
    ensures
        b == (t@ == Lexeme::Semicolon),
{
    match t {
        Tokens::Semicolon => true,
        _ => false,
    }
}

fn is_operator(t: &Tokens, op: Operators) -> (b: bool)
    ensures
        b == (t@ == Lexeme::Operator(op)),
{
    match t {
        Tokens::Operator(o) => *o == op,
        _ => false,
    }
}

fn is_newline_token(t: &Tokens) -> (b: bool)
    ensures
        b == is_newline(t@),
{
    match t {
        Tokens::Text(s) => {
            let v = chars_of(s.as_str());
            if v.len() == 1 && v[0] == '\n' {
                assert(v@ =~= seq!['\n']);
                true
            } else {
                assert(v@ != seq!['\n']);
                false
            }
        },
        _ => false,
    }
}

/// Keeps only the first semicolon of the run at `idx`.
fn drop_semicolons(tokens: &mut Vec<Tokens>, idx: usize, lines: &mut Vec<(usize, usize)>) -> (r: usize)
    requires
        idx < old(tokens)@.len(),
        semicolons_step(lexemes_of(old(tokens)@), old(lines)@, idx as int) is Some,
    ensures
        semicolons_step(lexemes_of(old(tokens)@), old(lines)@, idx as int) == Some(
            (lexemes_of(final(tokens)@), final(lines)@, Seq::<((usize, usize), Seq<char>)>::empty(), r as int),
        ),
{
    let n = tokens.len();
    let ghost ts = lexemes_of(tokens@);
    let ghost ls = lines@;
    let ghost e = semicolons_end(ts, idx + 1);
    proof {
        lemma_semicolons_end(ts, idx + 1);
    }
    assert(ts[idx + 1] == tokens@[idx + 1]@);
    if !is_semicolon(&tokens[idx + 1]) {
        return 1;
    }
    let ghost mut k: int = idx + 1;
    loop
        invariant
            idx + 1 <= k <= e < ts.len(),
            idx + 1 < e,
            ls.len() >= e,
            n == ts.len(),
            ts == lexemes_of(old(tokens)@),
            ls == old(lines)@,
            e == semicolons_end(ts, idx + 1),
            forall|j: int| idx + 1 <= j < e ==> ts[j] == Lexeme::Semicolon,
            ts[e] != Lexeme::Semicolon,
            lexemes_of(tokens@) == ts.take(idx + 1) + ts.skip(k),
            lines@ == ls.take(idx + 1) + ls.skip(k),
        ensures
            k == e,
        decreases e - k,
    {
        assert(lexemes_of(tokens@).len() == tokens@.len());
        assert(lexemes_of(tokens@)[idx + 1] == tokens@[idx + 1]@);
        assert((ts.take(idx + 1) + ts.skip(k))[idx + 1] == ts[k]);
        if !is_semicolon(&tokens[idx + 1]) {
            break;
        }
        let ghost before = tokens@;
        tokens.remove(idx + 1);
        lines.remove(idx + 1);
        proof {
            assert(lexemes_of(tokens@) =~= lexemes_of(before).remove(idx + 1));
            assert(lexemes_of(tokens@) =~= ts.take(idx + 1) + ts.skip(k + 1));
            assert(lines@ =~= ls.take(idx + 1) + ls.skip(k + 1));
            k = k + 1;
        }
    }
    1
}

/// Takes out the tokens from `idx` up to and with the one at `last`.
fn drop_through(
    tokens: &mut Vec<Tokens>,
    idx: usize,
    last: usize,
    lines: &mut Vec<(usize, usize)>,
)
    requires
        idx <= last < old(tokens)@.len(),
        last < old(lines)@.len(),
    ensures
        final(tokens)@ == old(tokens)@.take(idx as int) + old(tokens)@.skip(last + 1),
        final(lines)@ == old(lines)@.take(idx as int) + old(lines)@.skip(last + 1),
{
    let _n = tokens.len();
    remove_range(tokens, idx, last + 1);
    remove_range(lines, idx, last + 1);
}

/// Finds the newline text that ends the line comment at `idx`.
fn find_newline(tokens: &Vec<Tokens>, idx: usize) -> (j: usize)
    requires
        newline_from(lexemes_of(tokens@), idx + 1) is Some,
    ensures
        newline_from(lexemes_of(tokens@), idx + 1) == Some(j as int),
        idx < j < tokens@.len(),
{
    let n = tokens.len();
    let ghost ts = lexemes_of(tokens@);
    proof {
        lemma_newline_from(ts, idx + 1);
    }
    let ghost target = newline_from(ts, idx + 1).unwrap();
    let mut k = idx + 1;
    loop
        invariant
            idx + 1 <= k <= target < ts.len(),
            n == ts.len(),
            ts == lexemes_of(tokens@),
            newline_from(ts, k as int) == Some(target),
            newline_from(ts, idx + 1) == Some(target),
        decreases target - k,
    {
        assert(ts[k as int] == tokens@[k as int]@);
        if is_newline_token(&tokens[k]) {
            return k;
        }
        proof {
            lemma_newline_from(ts, k + 1);
        }
        k += 1;
    }
}

/// Finds the `*` of the `*/` that ends the block comment at `idx`.
fn find_block_end(tokens: &Vec<Tokens>, idx: usize) -> (j: usize)
    requires
        block_end_from(lexemes_of(tokens@), idx + 1) is Some,
    ensures
        block_end_from(lexemes_of(tokens@), idx + 1) == Some(j as int),
        idx < j,
        j + 1 < tokens@.len(),
{
    let n = tokens.len();
    let ghost ts = lexemes_of(tokens@);
    proof {
        lemma_block_end_from(ts, idx + 1);
    }
    let ghost target = block_end_from(ts, idx + 1).unwrap();
    let mut k = idx + 1;
    loop
        invariant
            idx + 1 <= k <= target,
            target + 1 < ts.len(),
            n == ts.len(),
            ts == lexemes_of(tokens@),
            block_end_from(ts, k as int) == Some(target),
            block_end_from(ts, idx + 1) == Some(target),
        decreases target - k,
    {
        assert(ts[k as int] == tokens@[k as int]@);
        assert(ts[k + 1] == tokens@[k + 1]@);
        if is_operator(&tokens[k], Operators::Mul) && is_operator(&tokens[k + 1], Operators::Div) {
            return k;
        }
        proof {
            lemma_block_end_from(ts, k + 1);
        }
        k += 1;
    }
}

/// Takes out the line comment at `idx`.
fn drop_line_comment(tokens: &mut Vec<Tokens>, idx: usize, lines: &mut Vec<(usize, usize)>) -> (r: usize)
    requires
        idx < old(tokens)@.len(),
        line_comment_step(lexemes_of(old(tokens)@), old(lines)@, idx as int) is Some,
    ensures
        line_comment_step(lexemes_of(old(tokens)@), old(lines)@, idx as int) == Some(
            (lexemes_of(final(tokens)@), final(lines)@, Seq::<((usize, usize), Seq<char>)>::empty(), r as int),
        ),
{
    let ghost ts = lexemes_of(tokens@);
    let j = find_newline(tokens, idx);
    drop_through(tokens, idx, j, lines);
    assert(lexemes_of(tokens@) =~= ts.take(idx as int) + ts.skip(j + 1));
    0
}

/// Takes out the block comment at `idx`.
fn drop_block_comment(tokens: &mut Vec<Tokens>, idx: usize, lines: &mut Vec<(usize, usize)>) -> (r: usize)
    requires
        idx < old(tokens)@.len(),
        block_comment_step(lexemes_of(old(tokens)@), old(lines)@, idx as int) is Some,
    ensures
        block_comment_step(lexemes_of(old(tokens)@), old(lines)@, idx as int) == Some(
            (lexemes_of(final(tokens)@), final(lines)@, Seq::<((usize, usize), Seq<char>)>::empty(), r as int),
        ),
{
    let _n = tokens.len();
    let ghost ts = lexemes_of(tokens@);
    let j = find_block_end(tokens, idx);
    drop_through(tokens, idx, j + 1, lines);
    assert(lexemes_of(tokens@) =~= ts.take(idx as int) + ts.skip(j + 2));
    0
}

/// A `/`: joins it with a following `=`, or turns `//` and `/*` into a
/// comment keyword.
fn slash_token(tokens: &mut Vec<Tokens>, idx: usize, lines: &mut Vec<(usize, usize)>) -> (r: usize)
    requires
        idx < old(tokens)@.len(),
        slash_step(lexemes_of(old(tokens)@), old(lines)@, idx as int) is Some,
    ensures
        slash_step(lexemes_of(old(tokens)@), old(lines)@, idx as int) == Some(
            (lexemes_of(final(tokens)@), final(lines)@, Seq::<((usize, usize), Seq<char>)>::empty(), r as int),
        ),
{
    let n = tokens.len();
    let ghost ts = lexemes_of(tokens@);
    assert(ts[idx + 1] == tokens@[idx + 1]@);
    if is_equal_sign(&tokens[idx + 1]) {
        join_next(tokens, idx, lines, Tokens::Operator(Operators::DivEq));
        1
    } else if is_operator(&tokens[idx + 1], Operators::Div) {
        join_next(tokens, idx, lines, Tokens::Keyword(Keywords::CommentLine));
        0
    } else if is_operator(&tokens[idx + 1], Operators::Mul) {
        join_next(tokens, idx, lines, Tokens::Keyword(Keywords::CommentBlock));
        0
    } else {
        1
    }
}

/// A text token: numbers, and blank texts, which are taken out.
fn text_token(
    tokens: &mut Vec<Tokens>,
    idx: usize,
    lines: &mut Vec<(usize, usize)>,
    errors: &mut Vec<Errors>,
    v: Vec<char>,
) -> (r: usize)
    requires
        idx < old(tokens)@.len(),
        lexemes_of(old(tokens)@)[idx as int] == Lexeme::Text(v@),
        refine_step(lexemes_of(old(tokens)@), old(lines)@, idx as int) is Some,
    ensures
        ({
            let s = refine_step(lexemes_of(old(tokens)@), old(lines)@, idx as int).unwrap();
            &&& lexemes_of(final(tokens)@) == s.0
            &&& final(lines)@ == s.1
            &&& reported(old(errors)@, final(errors)@, s.2)
            &&& r as int == s.3
        }),
{
    let ghost ts = lexemes_of(tokens@);
    proof {
        lemma_reported_nothing(errors@);
    }
    if v.len() > 0 && digit_char(v[0]) {
        return number_token(tokens, idx, lines, errors, v);
    }
    if !all_whitespace(&v) {
        return 1;
    }
    lines.remove(idx);
    tokens.remove(idx);
    assert(lexemes_of(tokens@) =~= ts.remove(idx as int));
    0
}

/// Refines the token at `idx`; returns how far the cursor moves.
fn process_token(
    tokens: &mut Vec<Tokens>,
    idx: usize,
    lines: &mut Vec<(usize, usize)>,
    errors: &mut Vec<Errors>,
) -> (r: usize)
    requires
        idx < old(tokens)@.len(),
        refine_step(lexemes_of(old(tokens)@), old(lines)@, idx as int) is Some,
    ensures
        ({
            let s = refine_step(lexemes_of(old(tokens)@), old(lines)@, idx as int).unwrap();
            &&& lexemes_of(final(tokens)@) == s.0
            &&& final(lines)@ == s.1
            &&& reported(old(errors)@, final(errors)@, s.2)
            &&& r as int == s.3
        }),
{
    let n = tokens.len();
    let ghost ts = lexemes_of(tokens@);
    let ghost ls = lines@;
    proof {
        lemma_reported_nothing(errors@);
        assert(ts[idx as int] == tokens@[idx as int]@);
    }
    match &tokens[idx] {
        Tokens::DoubleQuotes => {
            return read_string(tokens, idx, lines);
        },
        Tokens::Space => {
            tokens.remove(idx);
            lines.remove(idx);
            assert(lexemes_of(tokens@) =~= ts.remove(idx as int));
            return 0;
        },
        Tokens::Colon => {
            if is_colon(&tokens[idx + 1]) {
                join_next(tokens, idx, lines, Tokens::DoubleColon);
            }
        },
        Tokens::Semicolon => {
            return drop_semicolons(tokens, idx, lines);
        },
        Tokens::Text(txt) => {
            let v = chars_of(txt.as_str());
            return text_token(tokens, idx, lines, errors, v);
        },
        Tokens::Operator(op) => {
            let o = *op;
            if o == Operators::Div {
                return slash_token(tokens, idx, lines);
            }
            match joined(o) {
                Some(j) => {
                    if is_equal_sign(&tokens[idx + 1]) {
                        join_next(tokens, idx, lines, Tokens::Operator(j));
                    }
                },
                None => {},
            }
        },
        Tokens::Keyword(Keywords::CommentLine) => {
            return drop_line_comment(tokens, idx, lines);
        },
        Tokens::Keyword(Keywords::CommentBlock) => {
            return drop_block_comment(tokens, idx, lines);
        },
        _ => {},
    }
    1
}

/// Refines the tokens of a source file in one pass from the first token to
/// the last; `lines` is kept in step with the tokens and every malformed
/// number is reported in `errors`.
pub fn refactor(
    tokens: Vec<Tokens>,
    lines: &mut Vec<(usize, usize)>,
    errors: &mut Vec<Errors>,
) -> (refined: Vec<Tokens>)
    requires
        refine_run(lexemes_of(tokens@), old(lines)@, 0) is Some,
    ensures
        ({
            let (t, l, found) = refine_run(lexemes_of(tokens@), old(lines)@, 0).unwrap();
            &&& lexemes_of(refined@) == t
            &&& final(lines)@ == l
            &&& reported(old(errors)@, final(errors)@, found)
        }),
{
    let mut tokens = tokens;
    let ghost t0 = lexemes_of(tokens@);
    let ghost l0 = lines@;
    let ghost e0 = errors@;
    let ghost mut found: Seq<((usize, usize), Seq<char>)> = seq![];
    proof {
        lemma_reported_nothing(errors@);
    }
    let mut i: usize = 0;
    while i < tokens.len()
        invariant
            i <= tokens@.len() || refine_run(lexemes_of(tokens@), lines@, i as int) == Some(
                (lexemes_of(tokens@), lines@, Seq::<((usize, usize), Seq<char>)>::empty()),
            ),
            refine_run(lexemes_of(tokens@), lines@, i as int) is Some,
            refine_run(t0, l0, 0) == match refine_run(lexemes_of(tokens@), lines@, i as int) {
                Some((t3, l3, f3)) => Some((t3, l3, found + f3)),
                None => None,
            },
            reported(e0, errors@, found),
            e0 == old(errors)@,
        decreases tokens@.len() - i,
    {
        let ghost ts = lexemes_of(tokens@);
        let ghost ls = lines@;
        let ghost es = errors@;
        proof {
            lemma_refine_step_shrinks(ts, ls, i as int);
        }
        let advance = process_token(&mut tokens, i, lines, errors);
        proof {
            let s = refine_step(ts, ls, i as int).unwrap();
            lemma_reported_chain(e0, es, errors@, found, s.2);
            let (t3, l3, f3) = refine_run(lexemes_of(tokens@), lines@, i + advance).unwrap();
            assert(found + (s.2 + f3) =~= (found + s.2) + f3);
            found = found + s.2;
        }
        i = i + advance;
    }
    proof {
        assert(found + Seq::<((usize, usize), Seq<char>)>::empty() =~= found);
    }
    tokens
}

} // verus!
