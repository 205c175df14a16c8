//! The statement-level engine: segmentation of the element stream into
//! statement candidates, block matching by nesting depth, and the final
//! chunk validation, together with its mathematical model.

use vstd::prelude::*;

use crate::codeslice::CodeSlice;
use crate::diagnostics::{ErrV, SyntaxError};
use crate::element::{
    dv_arm, dv_arms, dv_elem, dv_elems, lemma_dv_elems_index, lemma_dv_elems_len,
    lemma_dv_elems_subrange, ElemV, ElementKind, GrammarElement, IfArm, IfArmV, KindV, StmtKind,
    StmtV,
};
use crate::reduce::{reduce, reduce_group_spec};
use crate::token::{CodeTokV, CodeToken, TokV};

verus! {

/// An element that takes part in reduction: everything except noise tokens
/// (whitespace, comments) and group boundaries (line ends, statement
/// separators, end of input).
pub open spec fn significant(e: ElemV) -> bool {
    !(e.is_token() && (e.tok_of().is_noise() || e.tok_of().is_boundary()))
}

/// The stream with noise and boundary tokens dropped, in order.
pub open spec fn sift(s: Seq<ElemV>) -> Seq<ElemV>
    decreases s,
{
    if s.len() == 0 {
        Seq::empty()
    } else {
        (if significant(s[0]) {
            seq![s[0]]
        } else {
            Seq::empty()
        }) + sift(s.subrange(1, s.len() as int))
    }
}

/// Sifting distributes over appending one element.
pub proof fn lemma_sift_push(s: Seq<ElemV>, e: ElemV)
    ensures
        sift(s.push(e)) == sift(s) + (if significant(e) {
            seq![e]
        } else {
            Seq::<ElemV>::empty()
        }),
    decreases s.len(),
{
    let tail = if significant(e) {
        seq![e]
    } else {
        Seq::<ElemV>::empty()
    };
    if s.len() == 0 {
        assert(s.push(e)[0] == e);
        assert(s.push(e).subrange(1, 1) =~= Seq::<ElemV>::empty());
        assert(sift(Seq::<ElemV>::empty()) =~= Seq::<ElemV>::empty());
        assert(sift(s) =~= Seq::<ElemV>::empty());
        assert(sift(s.push(e)) =~= sift(s) + tail);
    } else {
        assert(s.push(e)[0] == s[0]);
        assert(s.push(e).subrange(1, s.len() as int + 1) =~= s.subrange(1, s.len() as int).push(e));
        lemma_sift_push(s.subrange(1, s.len() as int), e);
        assert(sift(s.push(e)) =~= sift(s) + tail);
    }
}

/// The first significant element at or after `i`.
pub open spec fn first_significant(s: Seq<ElemV>, i: int) -> Option<int>
    decreases s.len() - i,
{
    if i < 0 || i >= s.len() {
        None
    } else if significant(s[i]) {
        Some(i)
    } else {
        first_significant(s, i + 1)
    }
}

/// What `first_significant` returns is a significant element no earlier than
/// `i`.
pub proof fn lemma_first_significant_bounds(s: Seq<ElemV>, i: int)
    ensures
        first_significant(s, i) matches Some(j) ==> i <= j && j < s.len() && significant(s[j]),
    decreases s.len() - i,
{
    if !(i < 0 || i >= s.len()) && !significant(s[i]) {
        lemma_first_significant_bounds(s, i + 1);
    }
}

/// The first boundary token at or after `i`, or the length of the stream
/// when none remains.
pub open spec fn find_boundary(s: Seq<ElemV>, i: int) -> int
    decreases s.len() - i,
{
    if i < 0 || i >= s.len() {
        s.len() as int
    } else if s[i].is_token() && s[i].tok_of().is_boundary() {
        i
    } else {
        find_boundary(s, i + 1)
    }
}

/// `find_boundary` stays within `[i, s.len()]`.
pub proof fn lemma_find_boundary_bounds(s: Seq<ElemV>, i: int)
    requires
        0 <= i <= s.len(),
    ensures
        i <= find_boundary(s, i) <= s.len(),
    decreases s.len() - i,
{
    if !(i >= s.len()) && !(s[i].is_token() && s[i].tok_of().is_boundary()) {
        lemma_find_boundary_bounds(s, i + 1);
    }
}

/// The matching closer for a block opened before `i`: scanning left to
/// right, depth-opening keywords increment and depth-closing keywords
/// decrement the running depth, which starts at `depth`; the scan stops at
/// the token that brings the depth to zero.
pub open spec fn find_closer(s: Seq<ElemV>, i: int, depth: int) -> Option<int>
    decreases s.len() - i,
{
    if i < 0 || i >= s.len() {
        None
    } else if s[i].is_token() && s[i].tok_of().closes_depth() && depth == 1 {
        Some(i)
    } else {
        let d2 = if s[i].is_token() && s[i].tok_of().opens_depth() {
            depth + 1
        } else if s[i].is_token() && s[i].tok_of().closes_depth() {
            depth - 1
        } else {
            depth
        };
        find_closer(s, i + 1, d2)
    }
}

/// What `find_closer` returns is a depth-closing token no earlier than `i`.
pub proof fn lemma_find_closer_bounds(s: Seq<ElemV>, i: int, depth: int)
    ensures
        find_closer(s, i, depth) matches Some(j) ==> i <= j && j < s.len() && s[j].is_token()
            && s[j].tok_of().closes_depth(),
    decreases s.len() - i,
{
    if !(i < 0 || i >= s.len()) && !(s[i].is_token() && s[i].tok_of().closes_depth() && depth
        == 1) {
        let d2 = if s[i].is_token() && s[i].tok_of().opens_depth() {
            depth + 1
        } else if s[i].is_token() && s[i].tok_of().closes_depth() {
            depth - 1
        } else {
            depth
        };
        lemma_find_closer_bounds(s, i + 1, d2);
    }
}

/// The first `do` token at or after `i`.
pub open spec fn find_do(s: Seq<ElemV>, i: int) -> Option<int>
    decreases s.len() - i,
{
    if i < 0 || i >= s.len() {
        None
    } else if s[i].is_token() && s[i].tok_of() is Do {
        Some(i)
    } else {
        find_do(s, i + 1)
    }
}

/// What `find_do` returns is a `do` token no earlier than `i`.
pub proof fn lemma_find_do_bounds(s: Seq<ElemV>, i: int)
    ensures
        find_do(s, i) matches Some(j) ==> i <= j && j < s.len(),
    decreases s.len() - i,
{
    if !(i < 0 || i >= s.len()) && !(s[i].is_token() && s[i].tok_of() is Do) {
        lemma_find_do_bounds(s, i + 1);
    }
}

/// The first `then` token at running depth zero, at or after `i`.
pub open spec fn find_then_d0(t: Seq<ElemV>, i: int, depth: int) -> Option<int>
    decreases t.len() - i,
{
    if i < 0 || i >= t.len() {
        None
    } else if depth == 0 && t[i].is_token() && t[i].tok_of() is Then {
        Some(i)
    } else {
        let d2 = if t[i].is_token() && t[i].tok_of().opens_depth() {
            depth + 1
        } else if t[i].is_token() && t[i].tok_of().closes_depth() {
            depth - 1
        } else {
            depth
        };
        find_then_d0(t, i + 1, d2)
    }
}

/// What `find_then_d0` returns lies in `[i, t.len())`.
pub proof fn lemma_find_then_d0_bounds(t: Seq<ElemV>, i: int, depth: int)
    ensures
        find_then_d0(t, i, depth) matches Some(j) ==> i <= j && j < t.len(),
    decreases t.len() - i,
{
    if !(i < 0 || i >= t.len()) && !(depth == 0 && t[i].is_token() && t[i].tok_of() is Then) {
        let d2 = if t[i].is_token() && t[i].tok_of().opens_depth() {
            depth + 1
        } else if t[i].is_token() && t[i].tok_of().closes_depth() {
            depth - 1
        } else {
            depth
        };
        lemma_find_then_d0_bounds(t, i + 1, d2);
    }
}

/// The first `elseif` or `else` token at running depth zero, at or after
/// `i`.
pub open spec fn find_branch_d0(t: Seq<ElemV>, i: int, depth: int) -> Option<int>
    decreases t.len() - i,
{
    if i < 0 || i >= t.len() {
        None
    } else if depth == 0 && t[i].is_token() && (t[i].tok_of() is Elseif || t[i].tok_of() is Else) {
        Some(i)
    } else {
        let d2 = if t[i].is_token() && t[i].tok_of().opens_depth() {
            depth + 1
        } else if t[i].is_token() && t[i].tok_of().closes_depth() {
            depth - 1
        } else {
            depth
        };
        find_branch_d0(t, i + 1, d2)
    }
}

/// What `find_branch_d0` returns lies in `[i, t.len())` and is an `elseif`
/// or `else` token.
pub proof fn lemma_find_branch_d0_bounds(t: Seq<ElemV>, i: int, depth: int)
    ensures
        find_branch_d0(t, i, depth) matches Some(j) ==> i <= j && j < t.len() && t[j].is_token()
            && (t[j].tok_of() is Elseif || t[j].tok_of() is Else),
    decreases t.len() - i,
{
    let here = depth == 0 && t[i].is_token() && (t[i].tok_of() is Elseif || t[i].tok_of() is Else);
    if !(i < 0 || i >= t.len()) && !here {
        let d2 = if t[i].is_token() && t[i].tok_of().opens_depth() {
            depth + 1
        } else if t[i].is_token() && t[i].tok_of().closes_depth() {
            depth - 1
        } else {
            depth
        };
        lemma_find_branch_d0_bounds(t, i + 1, d2);
    }
}

/// The message for a block opener whose matching closer never comes.
pub open spec fn msg_unterminated() -> Seq<char> {
    "unterminated block"@
}

/// The message for a closer that does not fit its opener.
pub open spec fn msg_mismatched_closer() -> Seq<char> {
    "mismatched block closer"@
}

/// The message for a `while` without a `do`.
pub open spec fn msg_while_without_do() -> Seq<char> {
    "while without do"@
}

/// The message for a missing condition expression.
pub open spec fn msg_missing_condition() -> Seq<char> {
    "expected a condition"@
}

/// The message for a condition that is no expression.
pub open spec fn msg_condition_not_expr() -> Seq<char> {
    "condition must be an expression"@
}

/// The message for an `if` without a `then`.
pub open spec fn msg_if_without_then() -> Seq<char> {
    "if without then"@
}

/// The message for a recognized but unsupported construct.
pub open spec fn msg_unsupported() -> Seq<char> {
    "unsupported statement"@
}

/// The message for an element where a statement was required.
pub open spec fn msg_not_statement() -> Seq<char> {
    "not a statement"@
}

/// The message of the internal error for a chunk with no statements.
pub open spec fn msg_empty_chunk() -> Seq<char> {
    "parser found an empty chunk"@
}

/// The block element wrapping a reduced statement sequence: its span covers
/// exactly the statements; an empty block takes the empty gap between the
/// given anchors, so that it never overlaps a sibling.
pub open spec fn block_node(lead: CodeSlice, tail: CodeSlice, body: Seq<ElemV>) -> ElemV {
    ElemV {
        span: if body.len() > 0 {
            CodeSlice::combined(body[0].span, body[body.len() - 1].span)
        } else {
            CodeSlice {
                abs_start: lead.abs_end,
                abs_end: tail.abs_start,
                line_no: lead.line_no,
                start: lead.end,
                end: tail.start,
            }
        },
        kind: KindV::Block(body),
    }
}

/// A condition group reduced to a single expression: an empty group or a
/// non-expression result is a contextual error.
pub open spec fn reduce_condition(raw: Seq<ElemV>, anchor: CodeSlice) -> Result<ElemV, ErrV> {
    if raw.len() == 0 {
        Err(ErrV::Contextual { message: msg_missing_condition(), span: anchor })
    } else {
        match reduce_group_spec(raw) {
            Err(e) => Err(e),
            Ok(c) => if c.is_expression() {
                Ok(c)
            } else {
                Err(ErrV::Contextual { message: msg_condition_not_expr(), span: c.span })
            },
        }
    }
}


/// The position right after the construct opened at `i`: one past the
/// matching closer, or, for `repeat`, the boundary that ends the `until`
/// condition.  Where no closer exists the stream's end (the parse then fails
/// with an error and the position is not used).
pub open spec fn construct_next(s: Seq<ElemV>, i: int) -> int {
    match s[i].tok_of() {
        TokV::Do | TokV::If => match find_closer(s, i + 1, 1) {
            Some(j) => j + 1,
            None => s.len() as int,
        },
        TokV::While => match find_do(s, i + 1) {
            Some(d) => match find_closer(s, d + 1, 1) {
                Some(j) => j + 1,
                None => s.len() as int,
            },
            None => s.len() as int,
        },
        TokV::Repeat => match find_closer(s, i + 1, 1) {
            Some(j) => find_boundary(s, j + 1),
            None => s.len() as int,
        },
        _ => s.len() as int,
    }
}

/// The position after a construct moves strictly forward and stays within
/// the stream.
pub proof fn lemma_construct_next_bounds(s: Seq<ElemV>, i: int)
    requires
        0 <= i < s.len(),
    ensures
        i < construct_next(s, i) <= s.len(),
{
    lemma_find_closer_bounds(s, i + 1, 1);
    lemma_find_do_bounds(s, i + 1);
    match find_do(s, i + 1) {
        Some(d) => {
            lemma_find_closer_bounds(s, d + 1, 1);
        },
        None => {},
    }
    match find_closer(s, i + 1, 1) {
        Some(j) => {
            lemma_find_boundary_bounds(s, j + 1);
        },
        None => {},
    }
}

/// One block construct parsed from position `i`, where an opener keyword
/// stands: the construct's tokens through its matching closer become one
/// statement node, the interior parsed recursively; the second component is
/// the position right after the construct.
pub open spec fn parse_construct(s: Seq<ElemV>, i: int) -> Result<ElemV, ErrV>
    recommends
        0 <= i < s.len(),
        s[i].is_token(),
    decreases s.len(), 0int,
    via parse_construct_dec
{
    let osp = s[i].span;
    match s[i].tok_of() {
        TokV::Do => match find_closer(s, i + 1, 1) {
            None => Err(ErrV::Contextual { message: msg_unterminated(), span: osp }),
            Some(j) => if !(s[j].tok_of() is End) {
                Err(ErrV::Contextual { message: msg_mismatched_closer(), span: s[j].span })
            } else {
                match parse_stmts_spec(s.subrange(i + 1, j)) {
                    Err(e) => Err(e),
                    Ok(body) => Ok(
                        ElemV {
                            span: CodeSlice::combined(osp, s[j].span),
                            kind: KindV::Statement(
                                StmtV::DoEnd { body: Box::new(block_node(osp, s[j].span, body)) },
                            ),
                        },
                    ),
                }
            },
        },
        TokV::While => match find_do(s, i + 1) {
            None => Err(ErrV::Contextual { message: msg_while_without_do(), span: osp }),
            Some(d) => match reduce_condition(sift(s.subrange(i + 1, d)), osp) {
                Err(e) => Err(e),
                Ok(cond) => match find_closer(s, d + 1, 1) {
                    None => Err(ErrV::Contextual { message: msg_unterminated(), span: osp }),
                    Some(j) => if !(s[j].tok_of() is End) {
                        Err(ErrV::Contextual { message: msg_mismatched_closer(), span: s[j].span })
                    } else {
                        match parse_stmts_spec(s.subrange(d + 1, j)) {
                            Err(e) => Err(e),
                            Ok(body) => Ok(
                                ElemV {
                                    span: CodeSlice::combined(osp, s[j].span),
                                    kind: KindV::Statement(
                                        StmtV::WhileDoEnd {
                                            condition: Box::new(cond),
                                            body: Box::new(block_node(s[d].span, s[j].span, body)),
                                        },
                                    ),
                                },
                            ),
                        }
                    },
                },
            },
        },
        TokV::Repeat => match find_closer(s, i + 1, 1) {
            None => Err(ErrV::Contextual { message: msg_unterminated(), span: osp }),
            Some(j) => if !(s[j].tok_of() is Until) {
                Err(ErrV::Contextual { message: msg_mismatched_closer(), span: s[j].span })
            } else {
                match parse_stmts_spec(s.subrange(i + 1, j)) {
                    Err(e) => Err(e),
                    Ok(body) => {
                        let k = find_boundary(s, j + 1);
                        match reduce_condition(sift(s.subrange(j + 1, k)), s[j].span) {
                            Err(e) => Err(e),
                            Ok(cond) => Ok(
                                ElemV {
                                    span: CodeSlice::combined(osp, cond.span),
                                    kind: KindV::Statement(
                                        StmtV::RepeatUntil {
                                            body: Box::new(block_node(osp, s[j].span, body)),
                                            condition: Box::new(cond),
                                        },
                                    ),
                                },
                            ),
                        }
                    },
                }
            },
        },
        TokV::If => match find_closer(s, i + 1, 1) {
            None => Err(ErrV::Contextual { message: msg_unterminated(), span: osp }),
            Some(j) => if !(s[j].tok_of() is End) {
                Err(ErrV::Contextual { message: msg_mismatched_closer(), span: s[j].span })
            } else {
                match parse_if_chain(s.subrange(i + 1, j), osp, s[j].span) {
                    Err(e) => Err(e),
                    Ok(pair) => Ok(
                        ElemV {
                            span: CodeSlice::combined(osp, s[j].span),
                            kind: KindV::Statement(
                                StmtV::IfChain { arms: pair.0, else_body: pair.1 },
                            ),
                        },
                    ),
                }
            },
        },
        _ => Err(ErrV::Contextual { message: msg_unsupported(), span: osp }),
    }
}

#[via_fn]
proof fn parse_construct_dec(s: Seq<ElemV>, i: int) {
    lemma_find_closer_bounds(s, i + 1, 1);
    lemma_find_do_bounds(s, i + 1);
    match find_do(s, i + 1) {
        Some(d) => {
            lemma_find_closer_bounds(s, d + 1, 1);
        },
        None => {},
    }
}

/// The interior of an `if` construct parsed into its arms and its optional
/// `else` block: the first depth-zero `then` closes the condition; each
/// depth-zero `elseif` starts the next arm; a depth-zero `else` takes the
/// rest.  `lead` and `tail` anchor error and empty-block spans.
pub open spec fn parse_if_chain(t: Seq<ElemV>, lead: CodeSlice, tail: CodeSlice) -> Result<
    (Seq<IfArmV>, Option<Box<ElemV>>),
    ErrV,
>
    decreases t.len(), 0int,
    via parse_if_chain_dec
{
    match find_then_d0(t, 0, 0) {
        None => Err(ErrV::Contextual { message: msg_if_without_then(), span: lead }),
        Some(p) => match reduce_condition(sift(t.subrange(0, p)), lead) {
            Err(e) => Err(e),
            Ok(cond) => match find_branch_d0(t, p + 1, 0) {
                None => match parse_stmts_spec(t.subrange(p + 1, t.len() as int)) {
                    Err(e) => Err(e),
                    Ok(body) => Ok(
                        (
                            seq![
                                IfArmV {
                                    condition: cond,
                                    body: block_node(t[p].span, tail, body),
                                },
                            ],
                            None,
                        ),
                    ),
                },
                Some(q) => match parse_stmts_spec(t.subrange(p + 1, q)) {
                    Err(e) => Err(e),
                    Ok(body) => {
                        let arm = IfArmV {
                            condition: cond,
                            body: block_node(t[p].span, t[q].span, body),
                        };
                        if t[q].tok_of() is Elseif {
                            match parse_if_chain(
                                t.subrange(q + 1, t.len() as int),
                                t[q].span,
                                tail,
                            ) {
                                Err(e) => Err(e),
                                Ok(pair) => Ok((seq![arm] + pair.0, pair.1)),
                            }
                        } else {
                            match parse_stmts_spec(t.subrange(q + 1, t.len() as int)) {
                                Err(e) => Err(e),
                                Ok(ebody) => Ok(
                                    (
                                        seq![arm],
                                        Some(Box::new(block_node(t[q].span, tail, ebody))),
                                    ),
                                ),
                            }
                        }
                    },
                },
            },
        },
    }
}

#[via_fn]
proof fn parse_if_chain_dec(t: Seq<ElemV>, lead: CodeSlice, tail: CodeSlice) {
    lemma_find_then_d0_bounds(t, 0, 0);
    match find_then_d0(t, 0, 0) {
        Some(p) => {
            lemma_find_branch_d0_bounds(t, p + 1, 0);
        },
        None => {},
    }
}

/// The ordered sequence of reduced statements parsed from the stream: noise
/// and boundaries are skipped between statements; a statement starting with
/// a block opener is parsed as a construct through its matching closer; any
/// other statement candidate runs to the next boundary and is reduced as one
/// group.
pub open spec fn parse_stmts_spec(s: Seq<ElemV>) -> Result<Seq<ElemV>, ErrV>
    decreases s.len(), 1int,
    via parse_stmts_spec_dec
{
    match first_significant(s, 0) {
        None => Ok(Seq::empty()),
        Some(i) => {
            if s[i].is_token() && s[i].tok_of().is_opener() {
                match parse_construct(s, i) {
                    Err(e) => Err(e),
                    Ok(stmt) => match parse_stmts_spec(
                        s.subrange(construct_next(s, i), s.len() as int),
                    ) {
                        Err(e) => Err(e),
                        Ok(rest) => Ok(seq![stmt] + rest),
                    },
                }
            } else {
                let k = find_boundary(s, i);
                match reduce_group_spec(sift(s.subrange(i, k))) {
                    Err(e) => Err(e),
                    Ok(stmt) => match parse_stmts_spec(s.subrange(k, s.len() as int)) {
                        Err(e) => Err(e),
                        Ok(rest) => Ok(seq![stmt] + rest),
                    },
                }
            }
        },
    }
}

#[via_fn]
proof fn parse_stmts_spec_dec(s: Seq<ElemV>) {
    lemma_first_significant_bounds(s, 0);
    match first_significant(s, 0) {
        Some(i) => {
            lemma_construct_next_bounds(s, i);
            lemma_find_boundary_bounds(s, i + 1);
        },
        None => {},
    }
}

/// The first element strictly before the last that is no true statement.
pub open spec fn find_bad_mid(stmts: Seq<ElemV>, i: int) -> Option<int>
    decreases stmts.len() - i,
{
    if i < 0 || i + 1 >= stmts.len() {
        None
    } else if !stmts[i].is_true_statement() {
        Some(i)
    } else {
        find_bad_mid(stmts, i + 1)
    }
}

/// The chunk built from the reduced top-level statements: every element but
/// the last must be a true statement; the last may also be a terminal
/// statement (`return` or `break`).  An empty statement list is an internal
/// error.
pub open spec fn build_chunk_spec(stmts: Seq<ElemV>) -> Result<ElemV, ErrV> {
    if stmts.len() == 0 {
        Err(ErrV::Internal { message: msg_empty_chunk() })
    } else {
        match find_bad_mid(stmts, 0) {
            Some(j) => Err(ErrV::Contextual { message: msg_not_statement(), span: stmts[j].span }),
            None => {
                let last = stmts[stmts.len() - 1];
                if last.is_true_statement() || last.is_terminal_statement() {
                    Ok(
                        ElemV {
                            span: CodeSlice::combined(stmts[0].span, last.span),
                            kind: KindV::Chunk(stmts),
                        },
                    )
                } else {
                    Err(ErrV::Contextual { message: msg_not_statement(), span: last.span })
                }
            },
        }
    }
}

/// The full parse of an element stream: the statement sequence, then the
/// chunk validation.
pub open spec fn parse_chunk_spec(s: Seq<ElemV>) -> Result<ElemV, ErrV> {
    match parse_stmts_spec(s) {
        Err(e) => Err(e),
        Ok(stmts) => build_chunk_spec(stmts),
    }
}

/// The mathematical value of a scanned token sequence.
pub open spec fn dv_toks(s: Seq<CodeToken>) -> Seq<CodeTokV>
    decreases s,
{
    if s.len() == 0 {
        Seq::empty()
    } else {
        seq![s[0]@] + dv_toks(s.subrange(1, s.len() as int))
    }
}

/// A token sequence and its mathematical value have the same length.
pub broadcast proof fn lemma_dv_toks_len(s: Seq<CodeToken>)
    ensures
        #[trigger] dv_toks(s).len() == s.len(),
    decreases s.len(),
{
    if s.len() > 0 {
        lemma_dv_toks_len(s.subrange(1, s.len() as int));
    }
}

/// The mathematical value of a token sequence, at each index, is the value
/// of the token there.
pub broadcast proof fn lemma_dv_toks_index(s: Seq<CodeToken>, i: int)
    requires
        0 <= i < s.len(),
    ensures
        #[trigger] dv_toks(s)[i] == s[i]@,
    decreases s.len(),
{
    lemma_dv_toks_len(s);
    if i > 0 {
        lemma_dv_toks_index(s.subrange(1, s.len() as int), i - 1);
    }
}

/// The element stream a scanned token sequence enters the pipeline as:
/// every token promoted in order.
pub open spec fn promote_all(ts: Seq<CodeTokV>) -> Seq<ElemV>
    decreases ts,
{
    if ts.len() == 0 {
        Seq::empty()
    } else {
        seq![ElemV::promoted(ts[0])] + promote_all(ts.subrange(1, ts.len() as int))
    }
}

/// A token sequence and its promoted element stream have the same length.
pub broadcast proof fn lemma_promote_all_len(ts: Seq<CodeTokV>)
    ensures
        #[trigger] promote_all(ts).len() == ts.len(),
    decreases ts.len(),
{
    if ts.len() > 0 {
        lemma_promote_all_len(ts.subrange(1, ts.len() as int));
    }
}

/// The promoted element stream, at each index, is the promotion of the token
/// there.
pub broadcast proof fn lemma_promote_all_index(ts: Seq<CodeTokV>, i: int)
    requires
        0 <= i < ts.len(),
    ensures
        #[trigger] promote_all(ts)[i] == ElemV::promoted(ts[i]),
    decreases ts.len(),
{
    lemma_promote_all_len(ts);
    if i > 0 {
        lemma_promote_all_index(ts.subrange(1, ts.len() as int), i - 1);
    }
}

/// The full parse of a scanned token sequence: promotion, segmentation and
/// reduction, then chunk validation.
pub open spec fn parse_tokens_spec(ts: Seq<CodeTokV>) -> Result<ElemV, ErrV> {
    parse_chunk_spec(promote_all(ts))
}


/// True of elements that take part in reduction.
fn elem_significant(e: &GrammarElement) -> (b: bool)
    ensures
        b == significant(e@),
{
    !(e.tok_is_noise() || e.tok_is_boundary())
}

/// Removes the first `n` elements of a vector, returning them as their own
/// vector, in order.
fn take_prefix(v: &mut Vec<GrammarElement>, n: usize) -> (p: Vec<GrammarElement>)
    requires
        n <= old(v)@.len(),
    ensures
        p@ == old(v)@.subrange(0, n as int),
        final(v)@ == old(v)@.subrange(n as int, old(v)@.len() as int),
{
    let ghost v0 = old(v)@;
    let mut p: Vec<GrammarElement> = Vec::new();
    let mut k: usize = 0;
    proof {
        assert(p@ =~= v0.subrange(0, 0));
        assert(v@ =~= v0.subrange(0, v0.len() as int));
    }
    while k < n
        invariant
            k <= n,
            n <= v0.len(),
            v0.len() == k + v@.len(),
            p@ =~= v0.subrange(0, k as int),
            v@ =~= v0.subrange(k as int, v0.len() as int),
        decreases n - k,
    {
        let e = v.remove(0);
        p.push(e);
        k = k + 1;
        proof {
            assert(p@ =~= v0.subrange(0, k as int));
            assert(v@ =~= v0.subrange(k as int, v0.len() as int));
        }
    }
    proof {
        assert(p@ =~= v0.subrange(0, n as int));
    }
    p
}

/// Removes the first `n` elements of a vector and keeps only the
/// significant ones, in order.
fn take_group(v: &mut Vec<GrammarElement>, n: usize) -> (p: Vec<GrammarElement>)
    requires
        n <= old(v)@.len(),
    ensures
        dv_elems(p@) == sift(dv_elems(old(v)@.subrange(0, n as int))),
        final(v)@ == old(v)@.subrange(n as int, old(v)@.len() as int),
{
    broadcast use lemma_dv_elems_len, lemma_dv_elems_index, lemma_dv_elems_subrange,
        crate::element::lemma_dv_elems_push;

    let ghost v0 = old(v)@;
    let mut p: Vec<GrammarElement> = Vec::new();
    let mut k: usize = 0;
    proof {
        assert(v0.subrange(0, 0) =~= Seq::<GrammarElement>::empty());
        assert(dv_elems(p@) =~= Seq::<ElemV>::empty());
        assert(dv_elems(Seq::<GrammarElement>::empty()) =~= Seq::<ElemV>::empty());
        assert(sift(Seq::<ElemV>::empty()) =~= Seq::<ElemV>::empty());
        assert(dv_elems(v0.subrange(0, 0)) =~= Seq::<ElemV>::empty());
        assert(v@ =~= v0.subrange(0, v0.len() as int));
    }
    while k < n
        invariant
            k <= n,
            n <= v0.len(),
            v0.len() == k + v@.len(),
            dv_elems(p@) == sift(dv_elems(v0.subrange(0, k as int))),
            v@ =~= v0.subrange(k as int, v0.len() as int),
        decreases n - k,
    {
        let ghost p0 = p@;
        let e = v.remove(0);
        proof {
            assert(e == v0[k as int]);
        }
        let keep = elem_significant(&e);
        if keep {
            p.push(e);
        }
        k = k + 1;
        proof {
            broadcast use lemma_dv_elems_len, lemma_dv_elems_index, lemma_dv_elems_subrange,
                crate::element::lemma_dv_elems_push;

            assert(v0.subrange(0, k as int) =~= v0.subrange(0, k - 1).push(v0[k - 1]));
            lemma_sift_push(dv_elems(v0.subrange(0, k - 1)), dv_elem(v0[k - 1]));
            if keep {
                assert(p@ == p0.push(v0[k - 1]));
                assert(dv_elems(p0.push(v0[k - 1])) == dv_elems(p0).push(dv_elem(v0[k - 1])));
                assert(dv_elems(p@) =~= sift(dv_elems(v0.subrange(0, k as int))));
            } else {
                assert(dv_elems(p@) =~= sift(dv_elems(v0.subrange(0, k as int))));
            }
            assert(v@ =~= v0.subrange(k as int, v0.len() as int));
        }
    }
    p
}

/// The first significant element at or after `i`, found by the scan.
fn first_significant_exec(s: &Vec<GrammarElement>, i: usize) -> (r: Option<usize>)
    ensures
        match r {
            Some(j) => first_significant(dv_elems(s@), i as int) == Some(j as int) && j < s@.len(),
            None => first_significant(dv_elems(s@), i as int) is None,
        },
    decreases s@.len() - i,
{
    broadcast use lemma_dv_elems_len, lemma_dv_elems_index;

    if i >= s.len() {
        return None;
    }
    if elem_significant(&s[i]) {
        Some(i)
    } else {
        first_significant_exec(s, i + 1)
    }
}

/// The first boundary token at or after `i`, or the stream length.
fn find_boundary_exec(s: &Vec<GrammarElement>, i: usize) -> (r: usize)
    requires
        i <= s@.len(),
    ensures
        r as int == find_boundary(dv_elems(s@), i as int),
        i <= r <= s@.len(),
    decreases s@.len() - i,
{
    broadcast use lemma_dv_elems_len, lemma_dv_elems_index;

    if i >= s.len() {
        return s.len();
    }
    if s[i].tok_is_boundary() {
        i
    } else {
        find_boundary_exec(s, i + 1)
    }
}

/// The matching closer, scanning from `i` with running depth `depth`.
fn find_closer_exec(s: &Vec<GrammarElement>, i: usize, depth: usize) -> (r: Option<usize>)
    requires
        s@.len() < usize::MAX,
        1 <= depth,
        depth as int <= i as int + 1,
    ensures
        match r {
            Some(j) => find_closer(dv_elems(s@), i as int, depth as int) == Some(j as int) && j
                < s@.len(),
            None => find_closer(dv_elems(s@), i as int, depth as int) is None,
        },
    decreases s@.len() - i,
{
    broadcast use lemma_dv_elems_len, lemma_dv_elems_index;

    if i >= s.len() {
        return None;
    }
    if s[i].tok_closes_depth() && depth == 1 {
        Some(i)
    } else {
        let d2: usize = if s[i].tok_opens_depth() {
            depth + 1
        } else if s[i].tok_closes_depth() {
            depth - 1
        } else {
            depth
        };
        find_closer_exec(s, i + 1, d2)
    }
}

/// The first `do` token at or after `i`.
fn find_do_exec(s: &Vec<GrammarElement>, i: usize) -> (r: Option<usize>)
    ensures
        match r {
            Some(j) => find_do(dv_elems(s@), i as int) == Some(j as int) && j < s@.len(),
            None => find_do(dv_elems(s@), i as int) is None,
        },
    decreases s@.len() - i,
{
    broadcast use lemma_dv_elems_len, lemma_dv_elems_index;

    if i >= s.len() {
        return None;
    }
    if s[i].tok_is_do() {
        Some(i)
    } else {
        find_do_exec(s, i + 1)
    }
}

/// The first depth-zero `then` token at or after `i`.
fn find_then_d0_exec(t: &Vec<GrammarElement>, i: usize, depth: usize, neg: usize) -> (r: Option<
    usize,
>)
    requires
        t@.len() < usize::MAX,
        depth as int <= i as int + 1,
        neg as int <= i as int + 1,
    ensures
        match r {
            Some(j) => find_then_d0(dv_elems(t@), i as int, depth as int - neg as int) == Some(
                j as int,
            ) && j < t@.len(),
            None => find_then_d0(dv_elems(t@), i as int, depth as int - neg as int) is None,
        },
    decreases t@.len() - i,
{
    broadcast use lemma_dv_elems_len, lemma_dv_elems_index;

    if i >= t.len() {
        return None;
    }
    if depth == neg && t[i].tok_is_then() {
        Some(i)
    } else {
        let mut d2: usize = depth;
        let mut n2: usize = neg;
        if t[i].tok_opens_depth() {
            if neg > 0 {
                n2 = neg - 1;
            } else {
                d2 = depth + 1;
            }
        } else if t[i].tok_closes_depth() {
            if depth > neg {
                d2 = depth - 1;
            } else {
                n2 = neg + 1;
            }
        }
        find_then_d0_exec(t, i + 1, d2, n2)
    }
}

/// The first depth-zero `elseif` or `else` token at or after `i`.
fn find_branch_d0_exec(t: &Vec<GrammarElement>, i: usize, depth: usize, neg: usize) -> (r: Option<
    usize,
>)
    requires
        t@.len() < usize::MAX,
        depth as int <= i as int + 1,
        neg as int <= i as int + 1,
    ensures
        match r {
            Some(j) => find_branch_d0(dv_elems(t@), i as int, depth as int - neg as int) == Some(
                j as int,
            ) && j < t@.len(),
            None => find_branch_d0(dv_elems(t@), i as int, depth as int - neg as int) is None,
        },
    decreases t@.len() - i,
{
    broadcast use lemma_dv_elems_len, lemma_dv_elems_index;

    if i >= t.len() {
        return None;
    }
    if depth == neg && (t[i].tok_is_elseif() || t[i].tok_is_else()) {
        Some(i)
    } else {
        let mut d2: usize = depth;
        let mut n2: usize = neg;
        if t[i].tok_opens_depth() {
            if neg > 0 {
                n2 = neg - 1;
            } else {
                d2 = depth + 1;
            }
        } else if t[i].tok_closes_depth() {
            if depth > neg {
                d2 = depth - 1;
            } else {
                n2 = neg + 1;
            }
        }
        find_branch_d0_exec(t, i + 1, d2, n2)
    }
}


/// The mathematical value of an optional boxed block element.
pub open spec fn dv_opt_block(o: Option<Box<GrammarElement>>) -> Option<Box<ElemV>> {
    match o {
        Some(b) => Some(Box::new(dv_elem(*b))),
        None => None,
    }
}

/// Reduces a condition group to a single expression node.
fn reduce_condition_exec(raw: Vec<GrammarElement>, anchor: CodeSlice) -> (r: Result<
    GrammarElement,
    SyntaxError,
>)
    ensures
        match r {
            Ok(c) => reduce_condition(dv_elems(raw@), anchor) == Ok::<ElemV, ErrV>(c@),
            Err(e) => reduce_condition(dv_elems(raw@), anchor) == Err::<ElemV, ErrV>(e@),
        },
{
    broadcast use lemma_dv_elems_len;

    if raw.len() == 0 {
        return Err(SyntaxError::contextual("expected a condition", anchor));
    }
    match reduce(raw) {
        Err(e) => Err(e),
        Ok(c) => {
            if c.is_expression() {
                Ok(c)
            } else {
                let sp = c.span;
                Err(SyntaxError::contextual("condition must be an expression", sp))
            }
        },
    }
}

/// Wraps a reduced statement sequence as a block element.
fn make_block(lead: CodeSlice, tail: CodeSlice, body: Vec<GrammarElement>) -> (b: GrammarElement)
    ensures
        b@ == block_node(lead, tail, dv_elems(body@)),
{
    broadcast use lemma_dv_elems_len, lemma_dv_elems_index;

    let span = if body.len() > 0 {
        CodeSlice::create_from(&body[0].span, &body[body.len() - 1].span)
    } else {
        CodeSlice {
            abs_start: lead.abs_end,
            abs_end: tail.abs_start,
            line_no: lead.line_no,
            start: lead.end,
            end: tail.start,
        }
    };
    GrammarElement { span, kind: ElementKind::Block(body) }
}

/// Parses a `do ... end` construct opened at `i`.
#[verifier::rlimit(100)]
#[verifier::spinoff_prover]
fn parse_do_exec(toks: Vec<GrammarElement>, i: usize) -> (r: Result<
    (GrammarElement, Vec<GrammarElement>),
    SyntaxError,
>)
    requires
        toks@.len() < usize::MAX,
        i < toks@.len(),
        dv_elems(toks@)[i as int].is_token(),
        dv_elems(toks@)[i as int].tok_of() is Do,
    ensures
        match r {
            Ok(p) => parse_construct(dv_elems(toks@), i as int) == Ok::<ElemV, ErrV>(p.0@)
                && dv_elems(p.1@) == dv_elems(toks@).subrange(
                construct_next(dv_elems(toks@), i as int),
                dv_elems(toks@).len() as int,
            ),
            Err(e) => parse_construct(dv_elems(toks@), i as int) == Err::<ElemV, ErrV>(e@),
        },
    decreases toks@.len(), 0int,
{
    broadcast use lemma_dv_elems_len, lemma_dv_elems_index, lemma_dv_elems_subrange;

    let ghost td = dv_elems(toks@);
    let ghost orig = toks@;
    let osp = toks[i].span;
    match find_closer_exec(&toks, i + 1, 1) {
        None => Err(SyntaxError::contextual("unterminated block", osp)),
        Some(j) => {
            proof {
                lemma_find_closer_bounds(td, i as int + 1, 1);
            }
            if !toks[j].tok_is_end() {
                let sp = toks[j].span;
                Err(SyntaxError::contextual("mismatched block closer", sp))
            } else {
                let csp = toks[j].span;
                let mut toks = toks;
                let _pre = take_prefix(&mut toks, i + 1);
                let interior = take_prefix(&mut toks, j - i - 1);
                let _closer = toks.remove(0);
                proof {
                    assert(interior@ =~= orig.subrange(i + 1, j as int));
                    assert(toks@ =~= orig.subrange(j + 1, orig.len() as int));
                    assert(dv_elems(interior@) == td.subrange(i + 1, j as int));
                    assert(dv_elems(toks@) == td.subrange(j + 1, td.len() as int));
                }
                match parse_statements(interior) {
                    Err(e) => Err(e),
                    Ok(body) => {
                        let blk = make_block(osp, csp, body);
                        let stmt = GrammarElement {
                            span: CodeSlice::create_from(&osp, &csp),
                            kind: ElementKind::Statement(StmtKind::DoEnd { body: Box::new(blk) }),
                        };
                        Ok((stmt, toks))
                    },
                }
            }
        },
    }
}

/// Parses an `if ... end` construct opened at `i`.
#[verifier::rlimit(100)]
#[verifier::spinoff_prover]
fn parse_if_exec(toks: Vec<GrammarElement>, i: usize) -> (r: Result<
    (GrammarElement, Vec<GrammarElement>),
    SyntaxError,
>)
    requires
        toks@.len() < usize::MAX,
        i < toks@.len(),
        dv_elems(toks@)[i as int].is_token(),
        dv_elems(toks@)[i as int].tok_of() is If,
    ensures
        match r {
            Ok(p) => parse_construct(dv_elems(toks@), i as int) == Ok::<ElemV, ErrV>(p.0@)
                && dv_elems(p.1@) == dv_elems(toks@).subrange(
                construct_next(dv_elems(toks@), i as int),
                dv_elems(toks@).len() as int,
            ),
            Err(e) => parse_construct(dv_elems(toks@), i as int) == Err::<ElemV, ErrV>(e@),
        },
    decreases toks@.len(), 0int,
{
    broadcast use lemma_dv_elems_len, lemma_dv_elems_index, lemma_dv_elems_subrange;

    let ghost td = dv_elems(toks@);
    let ghost orig = toks@;
    let osp = toks[i].span;
    match find_closer_exec(&toks, i + 1, 1) {
        None => Err(SyntaxError::contextual("unterminated block", osp)),
        Some(j) => {
            proof {
                lemma_find_closer_bounds(td, i as int + 1, 1);
            }
            if !toks[j].tok_is_end() {
                let sp = toks[j].span;
                Err(SyntaxError::contextual("mismatched block closer", sp))
            } else {
                let csp = toks[j].span;
                let mut toks = toks;
                let _pre = take_prefix(&mut toks, i + 1);
                let interior = take_prefix(&mut toks, j - i - 1);
                let _closer = toks.remove(0);
                proof {
                    assert(interior@ =~= orig.subrange(i + 1, j as int));
                    assert(toks@ =~= orig.subrange(j + 1, orig.len() as int));
                    assert(dv_elems(interior@) == td.subrange(i + 1, j as int));
                    assert(dv_elems(toks@) == td.subrange(j + 1, td.len() as int));
                }
                match parse_if_chain_exec(interior, osp, csp) {
                    Err(e) => Err(e),
                    Ok((arms, els)) => {
                        let stmt = GrammarElement {
                            span: CodeSlice::create_from(&osp, &csp),
                            kind: ElementKind::Statement(
                                StmtKind::IfChain { arms, else_body: els },
                            ),
                        };
                        Ok((stmt, toks))
                    },
                }
            }
        },
    }
}

/// Parses a `while ... do ... end` construct opened at `i`.
#[verifier::rlimit(100)]
#[verifier::spinoff_prover]
fn parse_while_exec(toks: Vec<GrammarElement>, i: usize) -> (r: Result<
    (GrammarElement, Vec<GrammarElement>),
    SyntaxError,
>)
    requires
        toks@.len() < usize::MAX,
        i < toks@.len(),
        dv_elems(toks@)[i as int].is_token(),
        dv_elems(toks@)[i as int].tok_of() is While,
    ensures
        match r {
            Ok(p) => parse_construct(dv_elems(toks@), i as int) == Ok::<ElemV, ErrV>(p.0@)
                && dv_elems(p.1@) == dv_elems(toks@).subrange(
                construct_next(dv_elems(toks@), i as int),
                dv_elems(toks@).len() as int,
            ),
            Err(e) => parse_construct(dv_elems(toks@), i as int) == Err::<ElemV, ErrV>(e@),
        },
    decreases toks@.len(), 0int,
{
    broadcast use lemma_dv_elems_len, lemma_dv_elems_index, lemma_dv_elems_subrange;

    let ghost td = dv_elems(toks@);
    let ghost orig = toks@;
    let osp = toks[i].span;
    match find_do_exec(&toks, i + 1) {
        None => Err(SyntaxError::contextual("while without do", osp)),
        Some(d) => {
            proof {
                lemma_find_do_bounds(td, i as int + 1);
            }
            let dsp = toks[d].span;
            let closer = find_closer_exec(&toks, d + 1, 1);
            proof {
                lemma_find_closer_bounds(td, d as int + 1, 1);
            }
            let (have_closer, j, csp, closer_is_end) = match closer {
                Some(j) => (true, j, toks[j].span, toks[j].tok_is_end()),
                None => (false, 0usize, osp, false),
            };
            let mut toks = toks;
            let _pre = take_prefix(&mut toks, i + 1);
            proof {
                assert(toks@ =~= orig.subrange(i + 1, orig.len() as int));
                assert(toks@.subrange(0, d - i - 1) =~= orig.subrange(i + 1, d as int));
            }
            let cond_raw = take_group(&mut toks, d - i - 1);
            let _do = toks.remove(0);
            proof {
                assert(dv_elems(cond_raw@) == sift(td.subrange(i + 1, d as int)));
                assert(toks@ =~= orig.subrange(d + 1, orig.len() as int));
            }
            match reduce_condition_exec(cond_raw, osp) {
                Err(e) => Err(e),
                Ok(cond) => {
                    if !have_closer {
                        Err(SyntaxError::contextual("unterminated block", osp))
                    } else if !closer_is_end {
                        Err(SyntaxError::contextual("mismatched block closer", csp))
                    } else {
                        let interior = take_prefix(&mut toks, j - d - 1);
                        let _closer = toks.remove(0);
                        proof {
                            assert(interior@ =~= orig.subrange(d + 1, j as int));
                            assert(toks@ =~= orig.subrange(j + 1, orig.len() as int));
                            assert(dv_elems(interior@) == td.subrange(d + 1, j as int));
                            assert(dv_elems(toks@) == td.subrange(j + 1, td.len() as int));
                        }
                        match parse_statements(interior) {
                            Err(e) => Err(e),
                            Ok(body) => {
                                let blk = make_block(dsp, csp, body);
                                let stmt = GrammarElement {
                                    span: CodeSlice::create_from(&osp, &csp),
                                    kind: ElementKind::Statement(
                                        StmtKind::WhileDoEnd {
                                            condition: Box::new(cond),
                                            body: Box::new(blk),
                                        },
                                    ),
                                };
                                Ok((stmt, toks))
                            },
                        }
                    }
                },
            }
        },
    }
}

/// Parses a `repeat ... until ...` construct opened at `i`.
#[verifier::rlimit(100)]
#[verifier::spinoff_prover]
fn parse_repeat_exec(toks: Vec<GrammarElement>, i: usize) -> (r: Result<
    (GrammarElement, Vec<GrammarElement>),
    SyntaxError,
>)
    requires
        toks@.len() < usize::MAX,
        i < toks@.len(),
        dv_elems(toks@)[i as int].is_token(),
        dv_elems(toks@)[i as int].tok_of() is Repeat,
    ensures
        match r {
            Ok(p) => parse_construct(dv_elems(toks@), i as int) == Ok::<ElemV, ErrV>(p.0@)
                && dv_elems(p.1@) == dv_elems(toks@).subrange(
                construct_next(dv_elems(toks@), i as int),
                dv_elems(toks@).len() as int,
            ),
            Err(e) => parse_construct(dv_elems(toks@), i as int) == Err::<ElemV, ErrV>(e@),
        },
    decreases toks@.len(), 0int,
{
    broadcast use lemma_dv_elems_len, lemma_dv_elems_index, lemma_dv_elems_subrange;

    let ghost td = dv_elems(toks@);
    let ghost orig = toks@;
    let osp = toks[i].span;
    match find_closer_exec(&toks, i + 1, 1) {
        None => Err(SyntaxError::contextual("unterminated block", osp)),
        Some(j) => {
            proof {
                lemma_find_closer_bounds(td, i as int + 1, 1);
            }
            if !toks[j].tok_is_until() {
                let sp = toks[j].span;
                Err(SyntaxError::contextual("mismatched block closer", sp))
            } else {
                let csp = toks[j].span;
                let k = find_boundary_exec(&toks, j + 1);
                let mut toks = toks;
                let _pre = take_prefix(&mut toks, i + 1);
                let interior = take_prefix(&mut toks, j - i - 1);
                let _closer = toks.remove(0);
                proof {
                    assert(interior@ =~= orig.subrange(i + 1, j as int));
                    assert(toks@ =~= orig.subrange(j + 1, orig.len() as int));
                    assert(dv_elems(interior@) == td.subrange(i + 1, j as int));
                    assert(toks@.subrange(0, k - j - 1) =~= orig.subrange(j + 1, k as int));
                }
                match parse_statements(interior) {
                    Err(e) => Err(e),
                    Ok(body) => {
                        let cond_raw = take_group(&mut toks, k - j - 1);
                        proof {
                            assert(dv_elems(cond_raw@) == sift(td.subrange(j + 1, k as int)));
                            assert(toks@ =~= orig.subrange(k as int, orig.len() as int));
                            assert(dv_elems(toks@) == td.subrange(k as int, td.len() as int));
                        }
                        match reduce_condition_exec(cond_raw, csp) {
                            Err(e) => Err(e),
                            Ok(cond) => {
                                let blk = make_block(osp, csp, body);
                                let stmt = GrammarElement {
                                    span: CodeSlice::create_from(&osp, &cond.span),
                                    kind: ElementKind::Statement(
                                        StmtKind::RepeatUntil {
                                            body: Box::new(blk),
                                            condition: Box::new(cond),
                                        },
                                    ),
                                };
                                Ok((stmt, toks))
                            },
                        }
                    },
                }
            }
        },
    }
}

/// Parses one block construct opened at `i`, returning the statement node
/// and the stream that remains after the construct.
fn parse_construct_exec(toks: Vec<GrammarElement>, i: usize) -> (r: Result<
    (GrammarElement, Vec<GrammarElement>),
    SyntaxError,
>)
    requires
        toks@.len() < usize::MAX,
        i < toks@.len(),
        dv_elems(toks@)[i as int].is_token(),
        dv_elems(toks@)[i as int].tok_of().is_opener(),
    ensures
        match r {
            Ok(p) => parse_construct(dv_elems(toks@), i as int) == Ok::<ElemV, ErrV>(p.0@)
                && dv_elems(p.1@) == dv_elems(toks@).subrange(
                construct_next(dv_elems(toks@), i as int),
                dv_elems(toks@).len() as int,
            ),
            Err(e) => parse_construct(dv_elems(toks@), i as int) == Err::<ElemV, ErrV>(e@),
        },
    decreases toks@.len(), 1int,
{
    broadcast use lemma_dv_elems_len, lemma_dv_elems_index;

    if toks[i].tok_is_do() {
        parse_do_exec(toks, i)
    } else if toks[i].tok_is_if() {
        parse_if_exec(toks, i)
    } else if toks[i].tok_is_while() {
        parse_while_exec(toks, i)
    } else if toks[i].tok_is_repeat() {
        parse_repeat_exec(toks, i)
    } else {
        let sp = toks[i].span;
        Err(SyntaxError::contextual("unsupported statement", sp))
    }
}

/// Parses the interior of an `if` construct into its arms and its optional
/// `else` block.
#[verifier::rlimit(100)]
#[verifier::spinoff_prover]
fn parse_if_chain_exec(t: Vec<GrammarElement>, lead: CodeSlice, tail: CodeSlice) -> (r: Result<
    (Vec<IfArm>, Option<Box<GrammarElement>>),
    SyntaxError,
>)
    requires
        t@.len() < usize::MAX,
    ensures
        match r {
            Ok(p) => parse_if_chain(dv_elems(t@), lead, tail) == Ok::<
                (Seq<IfArmV>, Option<Box<ElemV>>),
                ErrV,
            >((dv_arms(p.0@), dv_opt_block(p.1))),
            Err(e) => parse_if_chain(dv_elems(t@), lead, tail) == Err::<
                (Seq<IfArmV>, Option<Box<ElemV>>),
                ErrV,
            >(e@),
        },
    decreases t@.len(), 0int,
{
    broadcast use lemma_dv_elems_len, lemma_dv_elems_index, lemma_dv_elems_subrange,
        crate::element::lemma_dv_arms_len, crate::element::lemma_dv_arms_index;

    let ghost td = dv_elems(t@);
    let ghost orig = t@;
    match find_then_d0_exec(&t, 0, 0, 0) {
        None => Err(SyntaxError::contextual("if without then", lead)),
        Some(p) => {
            proof {
                lemma_find_then_d0_bounds(td, 0, 0);
            }
            let psp = t[p].span;
            let branch = find_branch_d0_exec(&t, p + 1, 0, 0);
            proof {
                lemma_find_branch_d0_bounds(td, p as int + 1, 0);
            }
            let (have_q, q, qsp, q_is_elseif) = match branch {
                Some(q) => (true, q, t[q].span, t[q].tok_is_elseif()),
                None => (false, 0usize, lead, false),
            };
            let mut t = t;
            proof {
                assert(t@.subrange(0, p as int) =~= orig.subrange(0, p as int));
            }
            let cond_raw = take_group(&mut t, p);
            let _then = t.remove(0);
            proof {
                assert(dv_elems(cond_raw@) == sift(td.subrange(0, p as int)));
                assert(t@ =~= orig.subrange(p + 1, orig.len() as int));
                assert(dv_elems(t@) == td.subrange(p + 1, td.len() as int));
            }
            match reduce_condition_exec(cond_raw, lead) {
                Err(e) => Err(e),
                Ok(cond) => {
                    if !have_q {
                        match parse_statements(t) {
                            Err(e) => Err(e),
                            Ok(body) => {
                                let blk = make_block(psp, tail, body);
                                let arm = IfArm { condition: cond, body: blk };
                                let mut arms: Vec<IfArm> = Vec::new();
                                arms.push(arm);
                                proof {
                                    assert(dv_arms(arms@) =~= seq![dv_arm(arms@[0])]);
                                }
                                Ok((arms, None))
                            },
                        }
                    } else {
                        let body_toks = take_prefix(&mut t, q - p - 1);
                        let _marker = t.remove(0);
                        proof {
                            assert(body_toks@ =~= orig.subrange(p + 1, q as int));
                            assert(t@ =~= orig.subrange(q + 1, orig.len() as int));
                            assert(dv_elems(body_toks@) == td.subrange(p + 1, q as int));
                            assert(dv_elems(t@) == td.subrange(q + 1, td.len() as int));
                        }
                        match parse_statements(body_toks) {
                            Err(e) => Err(e),
                            Ok(body) => {
                                let blk = make_block(psp, qsp, body);
                                let arm = IfArm { condition: cond, body: blk };
                                if q_is_elseif {
                                    match parse_if_chain_exec(t, qsp, tail) {
                                        Err(e) => Err(e),
                                        Ok((arms, els)) => {
                                            let mut arms = arms;
                                            let ghost apre = arms@;
                                            arms.insert(0, arm);
                                            proof {
                                                assert forall|m: int|
                                                    0 <= m < dv_arms(arms@).len() implies dv_arms(
                                                    arms@,
                                                )[m] == (seq![dv_arm(arm)] + dv_arms(apre))[m] by {
                                                    assert(dv_arms(arms@)[m] == dv_arm(arms@[m]));
                                                    if m > 0 {
                                                        assert(arms@[m] == apre[m - 1]);
                                                        assert(dv_arms(apre)[m - 1] == dv_arm(
                                                            apre[m - 1],
                                                        ));
                                                    }
                                                }
                                                assert(dv_arms(arms@) =~= seq![dv_arm(arm)]
                                                    + dv_arms(apre));
                                            }
                                            Ok((arms, els))
                                        },
                                    }
                                } else {
                                    match parse_statements(t) {
                                        Err(e) => Err(e),
                                        Ok(ebody) => {
                                            let eblk = make_block(qsp, tail, ebody);
                                            let mut arms: Vec<IfArm> = Vec::new();
                                            arms.push(arm);
                                            proof {
                                                assert(dv_arms(arms@) =~= seq![dv_arm(arms@[0])]);
                                            }
                                            Ok((arms, Some(Box::new(eblk))))
                                        },
                                    }
                                }
                            },
                        }
                    }
                },
            }
        },
    }
}

/// Parses the ordered sequence of reduced statements from the element
/// stream, consuming it.
#[verifier::rlimit(100)]
#[verifier::spinoff_prover]
fn parse_statements(toks: Vec<GrammarElement>) -> (r: Result<Vec<GrammarElement>, SyntaxError>)
    requires
        toks@.len() < usize::MAX,
    ensures
        match r {
            Ok(v) => parse_stmts_spec(dv_elems(toks@)) == Ok::<Seq<ElemV>, ErrV>(dv_elems(v@)),
            Err(e) => parse_stmts_spec(dv_elems(toks@)) == Err::<Seq<ElemV>, ErrV>(e@),
        },
    decreases toks@.len(), 2int,
{
    broadcast use lemma_dv_elems_len, lemma_dv_elems_index, lemma_dv_elems_subrange;

    let ghost td = dv_elems(toks@);
    let ghost orig = toks@;
    match first_significant_exec(&toks, 0) {
        None => {
            let v: Vec<GrammarElement> = Vec::new();
            proof {
                assert(dv_elems(v@) =~= Seq::<ElemV>::empty());
            }
            Ok(v)
        },
        Some(i) => {
            proof {
                lemma_first_significant_bounds(td, 0);
            }
            if toks[i].tok_is_opener() {
                proof {
                    lemma_construct_next_bounds(td, i as int);
                }
                match parse_construct_exec(toks, i) {
                    Err(e) => Err(e),
                    Ok((stmt, rest)) => {
                        proof {
                            assert(dv_elems(rest@).len() == rest@.len());
                            assert(rest@.len() < td.len());
                        }
                        match parse_statements(rest) {
                        Err(e) => Err(e),
                        Ok(stmts) => {
                            let mut stmts = stmts;
                            let ghost spre = stmts@;
                            stmts.insert(0, stmt);
                            proof {
                                assert forall|m: int|
                                    0 <= m < dv_elems(stmts@).len() implies dv_elems(stmts@)[m] == (
                                seq![stmt@] + dv_elems(spre))[m] by {
                                    assert(dv_elems(stmts@)[m] == dv_elem(stmts@[m]));
                                    if m > 0 {
                                        assert(stmts@[m] == spre[m - 1]);
                                        assert(dv_elems(spre)[m - 1] == dv_elem(spre[m - 1]));
                                    }
                                }
                                assert(dv_elems(stmts@) =~= seq![stmt@] + dv_elems(spre));
                            }
                            Ok(stmts)
                        },
                    }
                    },
                }
            } else {
                let k = find_boundary_exec(&toks, i);
                proof {
                    lemma_find_boundary_bounds(td, i as int + 1);
                }
                let mut toks = toks;
                let _pre = take_prefix(&mut toks, i);
                proof {
                    assert(toks@ =~= orig.subrange(i as int, orig.len() as int));
                    assert(toks@.subrange(0, k - i) =~= orig.subrange(i as int, k as int));
                }
                let group = take_group(&mut toks, k - i);
                proof {
                    assert(dv_elems(group@) == sift(td.subrange(i as int, k as int)));
                    assert(toks@ =~= orig.subrange(k as int, orig.len() as int));
                    assert(dv_elems(toks@) == td.subrange(k as int, td.len() as int));
                }
                match reduce(group) {
                    Err(e) => Err(e),
                    Ok(stmt) => match parse_statements(toks) {
                        Err(e) => Err(e),
                        Ok(stmts) => {
                            let mut stmts = stmts;
                            let ghost spre = stmts@;
                            stmts.insert(0, stmt);
                            proof {
                                assert forall|m: int|
                                    0 <= m < dv_elems(stmts@).len() implies dv_elems(stmts@)[m] == (
                                seq![stmt@] + dv_elems(spre))[m] by {
                                    assert(dv_elems(stmts@)[m] == dv_elem(stmts@[m]));
                                    if m > 0 {
                                        assert(stmts@[m] == spre[m - 1]);
                                        assert(dv_elems(spre)[m - 1] == dv_elem(spre[m - 1]));
                                    }
                                }
                                assert(dv_elems(stmts@) =~= seq![stmt@] + dv_elems(spre));
                            }
                            Ok(stmts)
                        },
                    },
                }
            }
        },
    }
}

/// The first element strictly before the last that is no true statement.
fn find_bad_mid_exec(stmts: &Vec<GrammarElement>, i: usize) -> (r: Option<usize>)
    ensures
        match r {
            Some(j) => find_bad_mid(dv_elems(stmts@), i as int) == Some(j as int) && j
                < stmts@.len(),
            None => find_bad_mid(dv_elems(stmts@), i as int) is None,
        },
    decreases stmts@.len() - i,
{
    broadcast use lemma_dv_elems_len, lemma_dv_elems_index;

    if stmts.len() < 1 || i >= stmts.len() - 1 {
        return None;
    }
    if !stmts[i].is_true_statement() {
        Some(i)
    } else {
        find_bad_mid_exec(stmts, i + 1)
    }
}

/// Validates the reduced top-level statements and wraps them as the chunk:
/// every element but the last must be a true statement; the last may also be
/// a terminal statement.
pub fn build_chunk(stmts: Vec<GrammarElement>) -> (r: Result<GrammarElement, SyntaxError>)
    ensures
        match r {
            Ok(c) => build_chunk_spec(dv_elems(stmts@)) == Ok::<ElemV, ErrV>(c@),
            Err(e) => build_chunk_spec(dv_elems(stmts@)) == Err::<ElemV, ErrV>(e@),
        },
{
    broadcast use lemma_dv_elems_len, lemma_dv_elems_index;

    if stmts.len() == 0 {
        return Err(SyntaxError::internal("parser found an empty chunk"));
    }
    match find_bad_mid_exec(&stmts, 0) {
        Some(j) => {
            let sp = stmts[j].span;
            Err(SyntaxError::contextual("not a statement", sp))
        },
        None => {
            let last_ok = stmts[stmts.len() - 1].is_true_statement() || stmts[stmts.len()
                - 1].is_terminal_statement();
            if last_ok {
                let span = CodeSlice::create_from(&stmts[0].span, &stmts[stmts.len() - 1].span);
                Ok(GrammarElement { span, kind: ElementKind::Chunk(stmts) })
            } else {
                let sp = stmts[stmts.len() - 1].span;
                Err(SyntaxError::contextual("not a statement", sp))
            }
        },
    }
}

/// Parses a full element stream into one validated chunk: segmentation,
/// reduction and block matching, then the chunk validation.
pub fn parse_chunk(elements: Vec<GrammarElement>) -> (r: Result<GrammarElement, SyntaxError>)
    requires
        elements@.len() < usize::MAX,
    ensures
        match r {
            Ok(c) => parse_chunk_spec(dv_elems(elements@)) == Ok::<ElemV, ErrV>(c@),
            Err(e) => parse_chunk_spec(dv_elems(elements@)) == Err::<ElemV, ErrV>(e@),
        },
{
    match parse_statements(elements) {
        Err(e) => Err(e),
        Ok(stmts) => build_chunk(stmts),
    }
}

/// Parses a scanned token sequence into one validated chunk, consuming the
/// tokens: every token is promoted to a grammar element, the stream is
/// segmented into statement candidates, each candidate is reduced to one
/// statement, and the resulting statement list is validated and wrapped.
pub fn parse(tokens: Vec<CodeToken>) -> (r: Result<GrammarElement, SyntaxError>)
    requires
        tokens@.len() < usize::MAX,
    ensures
        match r {
            Ok(c) => parse_tokens_spec(dv_toks(tokens@)) == Ok::<ElemV, ErrV>(c@),
            Err(e) => parse_tokens_spec(dv_toks(tokens@)) == Err::<ElemV, ErrV>(e@),
        },
{
    broadcast use lemma_dv_toks_len, lemma_dv_toks_index, lemma_promote_all_len,
        lemma_promote_all_index, lemma_dv_elems_len, lemma_dv_elems_index;

    let ghost tk = dv_toks(tokens@);
    let ghost orig = tokens@;
    let n = tokens.len();
    let mut tokens = tokens;
    let mut elems: Vec<GrammarElement> = Vec::new();
    let mut k: usize = 0;
    proof {
        assert(tokens@ =~= orig.subrange(0, orig.len() as int));
    }
    while k < n
        invariant
            k <= n,
            n == orig.len(),
            orig.len() == k + tokens@.len(),
            tokens@ =~= orig.subrange(k as int, orig.len() as int),
            elems@.len() == k,
            forall|m: int| 0 <= m < k ==> dv_elem(elems@[m]) == ElemV::promoted(dv_toks(orig)[m]),
        decreases n - k,
    {
        let t = tokens.remove(0);
        proof {
            broadcast use lemma_dv_toks_len, lemma_dv_toks_index;

            assert(t == orig[k as int]);
            assert(dv_toks(orig)[k as int] == orig[k as int]@);
        }
        let e = GrammarElement::from_token(t);
        elems.push(e);
        k = k + 1;
        proof {
            assert(tokens@ =~= orig.subrange(k as int, orig.len() as int));
        }
    }
    proof {
        assert forall|m: int| 0 <= m < tk.len() implies dv_elems(elems@)[m] == promote_all(tk)[m]
            by {
            assert(dv_elems(elems@)[m] == dv_elem(elems@[m]));
            assert(promote_all(tk)[m] == ElemV::promoted(tk[m]));
        }
        assert(dv_elems(elems@) =~= promote_all(tk));
    }
    parse_chunk(elems)
}

} // verus!
