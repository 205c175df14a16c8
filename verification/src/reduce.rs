//! The statement/expression collapsing engine, model side: unary folding,
//! binary precedence climbing and assignment recognition, applied in a fixed
//! order until a group of grammar elements becomes a single node.

use vstd::prelude::*;

use crate::codeslice::CodeSlice;
use crate::diagnostics::{ErrV, SyntaxError};
use crate::element::{
    dv_elem, dv_elems, lemma_dv_elems_index, lemma_dv_elems_len, lemma_dv_elems_subrange, ElemV,
    ElementKind, ExprV, GrammarElement, KindV, StmtKind, StmtV,
};
use crate::token::TokV;

verus! {

/// The slice spanning a whole non-empty group: from the first element's
/// start to the last element's end.
pub open spec fn group_span(g: Seq<ElemV>) -> CodeSlice
    recommends
        g.len() > 0,
{
    CodeSlice::combined(g[0].span, g[g.len() - 1].span)
}

/// The unary node folded from an operator element and its operand.
pub open spec fn unary_node(o: ElemV, operand: ElemV) -> ElemV {
    ElemV {
        span: CodeSlice::combined(o.span, operand.span),
        kind: KindV::Expression(ExprV::Unary { op: o.tok_of(), operand: Box::new(operand) }),
    }
}

/// The binary node folded from two operand elements and the operator element
/// between them; its span combines the operand spans.
pub open spec fn binary_node(l: ElemV, o: ElemV, r: ElemV) -> ElemV {
    ElemV {
        span: CodeSlice::combined(l.span, r.span),
        kind: KindV::Expression(
            ExprV::Binary { op: o.tok_of(), left: Box::new(l), right: Box::new(r) },
        ),
    }
}

/// A unary match at `i`: a unary-operator token followed by an expression,
/// the operator itself not preceded by an expression (else it would swallow a
/// binary left operand).
pub open spec fn unary_match_at(g: Seq<ElemV>, i: int) -> bool {
    &&& 0 <= i
    &&& i + 1 < g.len()
    &&& g[i].is_token()
    &&& g[i].tok_of().is_unop()
    &&& g[i + 1].is_expression()
    &&& (i == 0 || !g[i - 1].is_expression())
}

/// The first unary match at or after `i`, scanning left to right.
pub open spec fn find_unary(g: Seq<ElemV>, i: int) -> Option<int>
    decreases g.len() - i,
{
    if i < 0 || i + 1 >= g.len() {
        None
    } else if unary_match_at(g, i) {
        Some(i)
    } else {
        find_unary(g, i + 1)
    }
}

/// What `find_unary` returns is a unary match no earlier than `i`.
pub proof fn lemma_find_unary_bounds(g: Seq<ElemV>, i: int)
    ensures
        find_unary(g, i) matches Some(j) ==> i <= j && unary_match_at(g, j),
    decreases g.len() - i,
{
    if !(i < 0 || i + 1 >= g.len()) && !unary_match_at(g, i) {
        lemma_find_unary_bounds(g, i + 1);
    }
}

/// The group with the unary match at `i` folded into one node.
pub open spec fn u_spliced(g: Seq<ElemV>, i: int) -> Seq<ElemV>
    recommends
        unary_match_at(g, i),
{
    g.subrange(0, i) + seq![unary_node(g[i], g[i + 1])] + g.subrange(i + 2, g.len() as int)
}

/// Unary folding run to its fixed point: the first match is folded and the
/// scan restarts from the beginning, until no match remains.
pub open spec fn unary_fix(g: Seq<ElemV>) -> Seq<ElemV>
    decreases g.len(),
    via unary_fix_dec
{
    match find_unary(g, 0) {
        None => g,
        Some(i) => unary_fix(u_spliced(g, i)),
    }
}

#[via_fn]
proof fn unary_fix_dec(g: Seq<ElemV>) {
    lemma_find_unary_bounds(g, 0);
}

/// A binary match at `i` for tier `t`: an expression, an operator token of
/// that tier, and an expression.
pub open spec fn binary_match_at(g: Seq<ElemV>, t: int, i: int) -> bool {
    &&& 0 <= i
    &&& i + 2 < g.len()
    &&& g[i].is_expression()
    &&& g[i + 1].is_token()
    &&& g[i + 1].tok_of().binop_tier() == t
    &&& g[i + 2].is_expression()
}

/// The first binary match of tier `t` at or after `i`, scanning left to
/// right.
pub open spec fn find_binary(g: Seq<ElemV>, t: int, i: int) -> Option<int>
    decreases g.len() - i,
{
    if i < 0 || i + 2 >= g.len() {
        None
    } else if binary_match_at(g, t, i) {
        Some(i)
    } else {
        find_binary(g, t, i + 1)
    }
}

/// What `find_binary` returns is a binary match of its tier no earlier than
/// `i`.
pub proof fn lemma_find_binary_bounds(g: Seq<ElemV>, t: int, i: int)
    ensures
        find_binary(g, t, i) matches Some(j) ==> i <= j && binary_match_at(g, t, j),
    decreases g.len() - i,
{
    if !(i < 0 || i + 2 >= g.len()) && !binary_match_at(g, t, i) {
        lemma_find_binary_bounds(g, t, i + 1);
    }
}

/// The group with the binary match at `i` folded into one node.
pub open spec fn b_spliced(g: Seq<ElemV>, i: int) -> Seq<ElemV>
    recommends
        0 <= i && i + 2 < g.len(),
{
    g.subrange(0, i) + seq![binary_node(g[i], g[i + 1], g[i + 2])] + g.subrange(
        i + 3,
        g.len() as int,
    )
}

/// Binary precedence climbing from tier `t` on: within one tier the first
/// match is folded and the scan restarts from the beginning of the same tier
/// (which makes same-tier chains left-associative); when a tier has no match
/// the next, looser tier is tried; an earlier tier is never revisited.
pub open spec fn binary_fix(g: Seq<ElemV>, t: int) -> Seq<ElemV>
    decreases g.len(), 7 - t,
    via binary_fix_dec
{
    if t < 0 || t >= 7 {
        g
    } else {
        match find_binary(g, t, 0) {
            None => binary_fix(g, t + 1),
            Some(i) => binary_fix(b_spliced(g, i), t),
        }
    }
}

#[via_fn]
proof fn binary_fix_dec(g: Seq<ElemV>, t: int) {
    lemma_find_binary_bounds(g, t, 0);
}

/// Unary folding to a fixed point, then binary precedence climbing over all
/// tiers: the expression-level reduction of a group.
pub open spec fn reduce_exprs(g: Seq<ElemV>) -> Seq<ElemV> {
    binary_fix(unary_fix(g), 0)
}

/// Expression-level reduction never empties a group and never grows it.
pub proof fn lemma_reduce_exprs_len(g: Seq<ElemV>)
    ensures
        g.len() > 0 ==> reduce_exprs(g).len() > 0,
        reduce_exprs(g).len() <= g.len(),
{
    lemma_unary_fix_len(g);
    lemma_binary_fix_len(unary_fix(g), 0);
}

proof fn lemma_unary_fix_len(g: Seq<ElemV>)
    ensures
        g.len() > 0 ==> unary_fix(g).len() > 0,
        unary_fix(g).len() <= g.len(),
    decreases g.len(),
{
    lemma_find_unary_bounds(g, 0);
    match find_unary(g, 0) {
        None => {},
        Some(i) => {
            lemma_unary_fix_len(u_spliced(g, i));
        },
    }
}

proof fn lemma_binary_fix_len(g: Seq<ElemV>, t: int)
    ensures
        g.len() > 0 ==> binary_fix(g, t).len() > 0,
        binary_fix(g, t).len() <= g.len(),
    decreases g.len(), 7 - t,
{
    if !(t < 0 || t >= 7) {
        lemma_find_binary_bounds(g, t, 0);
        match find_binary(g, t, 0) {
            None => {
                lemma_binary_fix_len(g, t + 1);
            },
            Some(i) => {
                lemma_binary_fix_len(b_spliced(g, i), t);
            },
        }
    }
}

/// The message of the internal error for an empty working group.
pub open spec fn msg_empty_stmt() -> Seq<char> {
    "parser found an empty statement"@
}

/// The message for an empty item in a comma-separated list.
pub open spec fn msg_empty_item() -> Seq<char> {
    "empty item in a comma-separated list"@
}

/// The message for an assignment target that is no variable.
pub open spec fn msg_left_not_var() -> Seq<char> {
    "Left side of '=' must be a var"@
}

/// The message for an assignment value that is no expression.
pub open spec fn msg_right_not_expr() -> Seq<char> {
    "Right side of '=' must be an expression"@
}

/// The message for a `return` value that is no expression.
pub open spec fn msg_return_not_expr() -> Seq<char> {
    "return values must be expressions"@
}

/// The first `=` token at or after `i`.
pub open spec fn find_equal(g: Seq<ElemV>, i: int) -> Option<int>
    decreases g.len() - i,
{
    if i < 0 || i >= g.len() {
        None
    } else if g[i].is_token() && g[i].tok_of() is Equal {
        Some(i)
    } else {
        find_equal(g, i + 1)
    }
}

/// What `find_equal` returns is an `=` token no earlier than `i`.
pub proof fn lemma_find_equal_bounds(g: Seq<ElemV>, i: int)
    ensures
        find_equal(g, i) matches Some(j) ==> i <= j && j < g.len() && g[j].is_token()
            && g[j].tok_of() is Equal,
    decreases g.len() - i,
{
    if !(i < 0 || i >= g.len()) && !(g[i].is_token() && g[i].tok_of() is Equal) {
        lemma_find_equal_bounds(g, i + 1);
    }
}

/// The first comma token at or after `i`.
pub open spec fn find_comma(g: Seq<ElemV>, i: int) -> Option<int>
    decreases g.len() - i,
{
    if i < 0 || i >= g.len() {
        None
    } else if g[i].is_token() && g[i].tok_of() is Comma {
        Some(i)
    } else {
        find_comma(g, i + 1)
    }
}

/// What `find_comma` returns is a comma token no earlier than `i`.
pub proof fn lemma_find_comma_bounds(g: Seq<ElemV>, i: int)
    ensures
        find_comma(g, i) matches Some(j) ==> i <= j && j < g.len() && g[j].is_token()
            && g[j].tok_of() is Comma,
    decreases g.len() - i,
{
    if !(i < 0 || i >= g.len()) && !(g[i].is_token() && g[i].tok_of() is Comma) {
        lemma_find_comma_bounds(g, i + 1);
    }
}

/// A group cut at each comma token: the comma-separated pieces, commas not
/// kept.  A group with no comma is one piece; a trailing comma leaves an
/// empty last piece.
pub open spec fn split_commas(g: Seq<ElemV>) -> Seq<Seq<ElemV>>
    decreases g.len(),
    via split_commas_dec
{
    match find_comma(g, 0) {
        None => seq![g],
        Some(i) => seq![g.subrange(0, i)] + split_commas(g.subrange(i + 1, g.len() as int)),
    }
}

#[via_fn]
proof fn split_commas_dec(g: Seq<ElemV>) {
    lemma_find_comma_bounds(g, 0);
}

/// The first element at or after `i` that is no variable reference.
pub open spec fn find_non_var(s: Seq<ElemV>, i: int) -> Option<int>
    decreases s.len() - i,
{
    if i < 0 || i >= s.len() {
        None
    } else if !s[i].is_var() {
        Some(i)
    } else {
        find_non_var(s, i + 1)
    }
}

/// The first element at or after `i` that is no expression.
pub open spec fn find_non_expr(s: Seq<ElemV>, i: int) -> Option<int>
    decreases s.len() - i,
{
    if i < 0 || i >= s.len() {
        None
    } else if !s[i].is_expression() {
        Some(i)
    } else {
        find_non_expr(s, i + 1)
    }
}

/// One comma-separated piece reduced to one node: expression-level reduction
/// must collapse it to a single element.  An empty piece is a contextual
/// error at `fallback`; an irreducible piece is a syntax error at the
/// remaining material.
pub open spec fn reduce_piece(piece: Seq<ElemV>, fallback: CodeSlice) -> Result<ElemV, ErrV> {
    if piece.len() == 0 {
        Err(ErrV::Contextual { message: msg_empty_item(), span: fallback })
    } else {
        let r = reduce_exprs(piece);
        if r.len() == 1 {
            Ok(r[0])
        } else {
            Err(ErrV::Syntax { span: group_span(r) })
        }
    }
}

/// All pieces reduced, left to right; the first failure aborts.
pub open spec fn reduce_pieces(pieces: Seq<Seq<ElemV>>, fallback: CodeSlice) -> Result<
    Seq<ElemV>,
    ErrV,
>
    decreases pieces.len(),
{
    if pieces.len() == 0 {
        Ok(Seq::empty())
    } else {
        match reduce_piece(pieces[0], fallback) {
            Err(e) => Err(e),
            Ok(e0) => match reduce_pieces(
                pieces.subrange(1, pieces.len() as int),
                fallback,
            ) {
                Err(e) => Err(e),
                Ok(rest) => Ok(seq![e0] + rest),
            },
        }
    }
}

/// The reduction of one statement-candidate group to a single node, or the
/// error that stops it.
///
/// The rules, in their fixed order: a lone `break` becomes the terminal
/// statement; `return` takes its comma-separated values; a group holding `=`
/// (optionally opened by `local`) becomes an assignment whose sides are
/// reduced piece by piece; any other group goes through unary folding and
/// binary precedence climbing, and must come out as exactly one element.
pub open spec fn reduce_group_spec(g: Seq<ElemV>) -> Result<ElemV, ErrV> {
    if g.len() == 0 {
        Err(ErrV::Internal { message: msg_empty_stmt() })
    } else if g[0].is_token() && g[0].tok_of() is Break {
        if g.len() == 1 {
            Ok(ElemV { span: g[0].span, kind: KindV::Statement(StmtV::Break) })
        } else {
            Err(ErrV::Syntax { span: group_span(g) })
        }
    } else if g[0].is_token() && g[0].tok_of() is Return {
        if g.len() == 1 {
            Ok(
                ElemV {
                    span: g[0].span,
                    kind: KindV::Statement(StmtV::Return { values: Seq::empty() }),
                },
            )
        } else {
            match reduce_pieces(split_commas(g.subrange(1, g.len() as int)), group_span(g)) {
                Err(e) => Err(e),
                Ok(vals) => match find_non_expr(vals, 0) {
                    Some(j) => Err(
                        ErrV::Contextual { message: msg_return_not_expr(), span: vals[j].span },
                    ),
                    None => Ok(
                        ElemV {
                            span: CodeSlice::combined(g[0].span, vals[vals.len() - 1].span),
                            kind: KindV::Statement(StmtV::Return { values: vals }),
                        },
                    ),
                },
            }
        }
    } else {
        match find_equal(g, 0) {
            Some(eq) => {
                let is_local = g[0].is_token() && g[0].tok_of() is Local;
                let lo: int = if is_local {
                    1
                } else {
                    0
                };
                let left_raw = g.subrange(lo, eq);
                let right_raw = g.subrange(eq + 1, g.len() as int);
                match reduce_pieces(split_commas(left_raw), group_span(g)) {
                    Err(e) => Err(e),
                    Ok(targets) => match find_non_var(targets, 0) {
                        Some(j) => Err(
                            ErrV::Contextual { message: msg_left_not_var(), span: targets[j].span },
                        ),
                        None => match reduce_pieces(split_commas(right_raw), group_span(g)) {
                            Err(e) => Err(e),
                            Ok(values) => match find_non_expr(values, 0) {
                                Some(j) => Err(
                                    ErrV::Contextual {
                                        message: msg_right_not_expr(),
                                        span: values[j].span,
                                    },
                                ),
                                None => Ok(
                                    ElemV {
                                        span: group_span(g),
                                        kind: KindV::Statement(
                                            StmtV::Assignment { targets, values, is_local },
                                        ),
                                    },
                                ),
                            },
                        },
                    },
                }
            },
            None => {
                let r = reduce_exprs(g);
                if r.len() == 1 {
                    Ok(r[0])
                } else {
                    Err(ErrV::Syntax { span: group_span(r) })
                }
            },
        }
    }
}


/// The first unary match at or after `i`, found by the left-to-right scan.
fn find_unary_exec(g: &Vec<GrammarElement>, i: usize) -> (r: Option<usize>)
    ensures
        match r {
            Some(j) => find_unary(dv_elems(g@), i as int) == Some(j as int) && unary_match_at(
                dv_elems(g@),
                j as int,
            ),
            None => find_unary(dv_elems(g@), i as int) is None,
        },
    decreases g@.len() - i,
{
    broadcast use lemma_dv_elems_len, lemma_dv_elems_index;

    if g.len() < 2 || i >= g.len() - 1 {
        return None;
    }
    let op_ok = match g[i].elem_tok() {
        Some(t) => t.is_unop(),
        None => false,
    };
    let matched = op_ok && g[i + 1].is_expression() && (i == 0 || !g[i - 1].is_expression());
    if matched {
        Some(i)
    } else {
        find_unary_exec(g, i + 1)
    }
}

/// The first binary match of tier `t` at or after `i`, found by the
/// left-to-right scan.
fn find_binary_exec(g: &Vec<GrammarElement>, t: u8, i: usize) -> (r: Option<usize>)
    requires
        t < 7,
    ensures
        match r {
            Some(j) => find_binary(dv_elems(g@), t as int, i as int) == Some(j as int)
                && binary_match_at(dv_elems(g@), t as int, j as int),
            None => find_binary(dv_elems(g@), t as int, i as int) is None,
        },
    decreases g@.len() - i,
{
    broadcast use lemma_dv_elems_len, lemma_dv_elems_index;

    if g.len() < 3 || i >= g.len() - 2 {
        return None;
    }
    let third = &g[i + 2];
    let matched = g[i].is_expression() && g[i + 1].binop_tier_of() == t && third.is_expression();
    if matched {
        Some(i)
    } else {
        find_binary_exec(g, t, i + 1)
    }
}

/// Folds the unary match at `i` into one node in place.
fn splice_unary_at(g: &mut Vec<GrammarElement>, i: usize)
    requires
        unary_match_at(dv_elems(old(g)@), i as int),
    ensures
        dv_elems(final(g)@) == u_spliced(dv_elems(old(g)@), i as int),
{
    broadcast use lemma_dv_elems_len, lemma_dv_elems_index;

    let ghost pre = dv_elems(old(g)@);
    let op = g.remove(i);
    let operand = g.remove(i);
    proof {
        assert(op@ == pre[i as int]);
        assert(operand@ == pre[i + 1]);
    }
    let node = GrammarElement::create_unary(op, operand).unwrap();
    g.insert(i, node);
    proof {
        assert(node@ == unary_node(pre[i as int], pre[i + 1]));
        assert forall|k: int| 0 <= k < dv_elems(g@).len() implies dv_elems(g@)[k] == u_spliced(
            pre,
            i as int,
        )[k] by {
            assert(dv_elems(g@)[k] == dv_elem(g@[k]));
        }
        assert(dv_elems(g@) =~= u_spliced(pre, i as int));
    }
}

/// Folds the binary match at `i` into one node in place.
fn splice_binary_at(g: &mut Vec<GrammarElement>, i: usize)
    requires
        ({
            let d = dv_elems(old(g)@);
            &&& i + 2 < d.len()
            &&& d[i as int].is_expression()
            &&& d[i + 1].is_token()
            &&& d[i + 1].tok_of().is_binop()
            &&& d[i + 2].is_expression()
        }),
    ensures
        dv_elems(final(g)@) == b_spliced(dv_elems(old(g)@), i as int),
{
    broadcast use lemma_dv_elems_len, lemma_dv_elems_index;

    let ghost pre = dv_elems(old(g)@);
    let left = g.remove(i);
    let op = g.remove(i);
    let right = g.remove(i);
    proof {
        assert(left@ == pre[i as int]);
        assert(op@ == pre[i + 1]);
        assert(right@ == pre[i + 2]);
    }
    let node = GrammarElement::create_binary(left, op, right).unwrap();
    g.insert(i, node);
    proof {
        assert(node@ == binary_node(pre[i as int], pre[i + 1], pre[i + 2]));
        assert forall|k: int| 0 <= k < dv_elems(g@).len() implies dv_elems(g@)[k] == b_spliced(
            pre,
            i as int,
        )[k] by {
            assert(dv_elems(g@)[k] == dv_elem(g@[k]));
        }
        assert(dv_elems(g@) =~= b_spliced(pre, i as int));
    }
}

/// Runs unary folding to its fixed point in place.
fn apply_unary_fix(g: &mut Vec<GrammarElement>)
    ensures
        dv_elems(final(g)@) == unary_fix(dv_elems(old(g)@)),
{
    broadcast use lemma_dv_elems_len;

    let ghost orig = dv_elems(old(g)@);
    loop
        invariant
            unary_fix(dv_elems(g@)) == unary_fix(orig),
        ensures
            dv_elems(g@) == unary_fix(orig),
        decreases g@.len(),
    {
        let ghost cur = dv_elems(g@);
        match find_unary_exec(g, 0) {
            None => {
                break ;
            },
            Some(i) => {
                splice_unary_at(g, i);
                proof {
                    broadcast use lemma_dv_elems_len;

                    assert(u_spliced(cur, i as int).len() == cur.len() - 1);
                }
            },
        }
    }
}

/// Runs binary precedence climbing over all tiers in place.
fn apply_binary_fix(g: &mut Vec<GrammarElement>)
    ensures
        dv_elems(final(g)@) == binary_fix(dv_elems(old(g)@), 0),
{
    broadcast use lemma_dv_elems_len;

    let ghost orig = dv_elems(old(g)@);
    let mut t: u8 = 0;
    while t < 7
        invariant
            t <= 7,
            binary_fix(dv_elems(g@), t as int) == binary_fix(orig, 0),
        ensures
            t == 7,
            binary_fix(dv_elems(g@), t as int) == binary_fix(orig, 0),
        decreases 7 - t,
    {
        loop
            invariant
                binary_fix(dv_elems(g@), t as int) == binary_fix(orig, 0),
                t < 7,
            ensures
                binary_fix(dv_elems(g@), t as int) == binary_fix(orig, 0),
                find_binary(dv_elems(g@), t as int, 0) is None,
                t < 7,
            decreases g@.len(),
        {
            let ghost cur = dv_elems(g@);
            match find_binary_exec(g, t, 0) {
                None => {
                    break ;
                },
                Some(i) => {
                    splice_binary_at(g, i);
                    proof {
                        broadcast use lemma_dv_elems_len;

                        assert(b_spliced(cur, i as int).len() == cur.len() - 2);
                    }
                },
            }
        }
        t = t + 1;
    }
}


/// The first `=` token at or after `i`, found by the left-to-right scan.
fn find_equal_exec(g: &Vec<GrammarElement>, i: usize) -> (r: Option<usize>)
    ensures
        match r {
            Some(j) => find_equal(dv_elems(g@), i as int) == Some(j as int) && j < g@.len(),
            None => find_equal(dv_elems(g@), i as int) is None,
        },
    decreases g@.len() - i,
{
    broadcast use lemma_dv_elems_len, lemma_dv_elems_index;

    if i >= g.len() {
        return None;
    }
    if g[i].tok_is_equal() {
        Some(i)
    } else {
        find_equal_exec(g, i + 1)
    }
}

/// The first comma token at or after `i`, found by the left-to-right scan.
fn find_comma_exec(g: &Vec<GrammarElement>, i: usize) -> (r: Option<usize>)
    ensures
        match r {
            Some(j) => find_comma(dv_elems(g@), i as int) == Some(j as int) && i <= j && j
                < g@.len(),
            None => find_comma(dv_elems(g@), i as int) is None,
        },
    decreases g@.len() - i,
{
    broadcast use lemma_dv_elems_len, lemma_dv_elems_index;

    if i >= g.len() {
        return None;
    }
    if g[i].tok_is_comma() {
        Some(i)
    } else {
        find_comma_exec(g, i + 1)
    }
}

/// The first element at or after `i` that is no variable reference.
fn find_non_var_exec(s: &Vec<GrammarElement>, i: usize) -> (r: Option<usize>)
    ensures
        match r {
            Some(j) => find_non_var(dv_elems(s@), i as int) == Some(j as int) && j < s@.len(),
            None => find_non_var(dv_elems(s@), i as int) is None,
        },
    decreases s@.len() - i,
{
    broadcast use lemma_dv_elems_len, lemma_dv_elems_index;

    if i >= s.len() {
        return None;
    }
    if !s[i].is_var() {
        Some(i)
    } else {
        find_non_var_exec(s, i + 1)
    }
}

/// The first element at or after `i` that is no expression.
fn find_non_expr_exec(s: &Vec<GrammarElement>, i: usize) -> (r: Option<usize>)
    ensures
        match r {
            Some(j) => find_non_expr(dv_elems(s@), i as int) == Some(j as int) && j < s@.len(),
            None => find_non_expr(dv_elems(s@), i as int) is None,
        },
    decreases s@.len() - i,
{
    broadcast use lemma_dv_elems_len, lemma_dv_elems_index;

    if i >= s.len() {
        return None;
    }
    if !s[i].is_expression() {
        Some(i)
    } else {
        find_non_expr_exec(s, i + 1)
    }
}

/// Reduces one comma-separated piece to one node: expression-level reduction
/// must leave a single element.
fn reduce_piece_exec(piece: Vec<GrammarElement>, fallback: CodeSlice) -> (r: Result<
    GrammarElement,
    SyntaxError,
>)
    ensures
        match r {
            Ok(e) => reduce_piece(dv_elems(piece@), fallback) == Ok::<ElemV, ErrV>(e@),
            Err(err) => reduce_piece(dv_elems(piece@), fallback) == Err::<ElemV, ErrV>(err@),
        },
{
    broadcast use lemma_dv_elems_len, lemma_dv_elems_index;

    let ghost pd = dv_elems(piece@);
    if piece.len() == 0 {
        return Err(SyntaxError::contextual("empty item in a comma-separated list", fallback));
    }
    let mut p = piece;
    apply_unary_fix(&mut p);
    apply_binary_fix(&mut p);
    proof {
        assert(dv_elems(p@) == reduce_exprs(pd));
        lemma_reduce_exprs_len(pd);
    }
    if p.len() == 1 {
        let mut p = p;
        let e = p.remove(0);
        Ok(e)
    } else {
        let sp = CodeSlice::create_from(&p[0].span, &p[p.len() - 1].span);
        proof {
            assert(sp == group_span(reduce_exprs(pd)));
        }
        Err(SyntaxError::syntax(sp))
    }
}

/// Reduces a comma-separated list of pieces, left to right; the first
/// failure aborts.
fn reduce_comma_list(g: Vec<GrammarElement>, fallback: CodeSlice) -> (r: Result<
    Vec<GrammarElement>,
    SyntaxError,
>)
    ensures
        match r {
            Ok(v) => reduce_pieces(split_commas(dv_elems(g@)), fallback) == Ok::<
                Seq<ElemV>,
                ErrV,
            >(dv_elems(v@)),
            Err(err) => reduce_pieces(split_commas(dv_elems(g@)), fallback) == Err::<
                Seq<ElemV>,
                ErrV,
            >(err@),
        },
    decreases g@.len(),
{
    broadcast use lemma_dv_elems_len, lemma_dv_elems_index, lemma_dv_elems_subrange;

    let ghost gd = dv_elems(g@);
    match find_comma_exec(&g, 0) {
        None => {
            proof {
                assert(split_commas(gd) == seq![gd]);
                assert(seq![gd][0] == gd);
                assert(seq![gd].subrange(1, 1) =~= Seq::<Seq<ElemV>>::empty());
            }
            match reduce_piece_exec(g, fallback) {
                Ok(e) => {
                    let mut v: Vec<GrammarElement> = Vec::new();
                    v.push(e);
                    proof {
                        assert(dv_elems(v@) =~= seq![e@] + Seq::<ElemV>::empty());
                        assert(reduce_pieces(Seq::<Seq<ElemV>>::empty(), fallback) == Ok::<
                            Seq<ElemV>,
                            ErrV,
                        >(Seq::empty()));
                        assert(reduce_pieces(split_commas(gd), fallback) == Ok::<
                            Seq<ElemV>,
                            ErrV,
                        >(seq![e@] + Seq::<ElemV>::empty()));
                    }
                    Ok(v)
                },
                Err(e) => {
                    proof {
                        assert(reduce_pieces(split_commas(gd), fallback) == Err::<
                            Seq<ElemV>,
                            ErrV,
                        >(e@));
                    }
                    Err(e)
                },
            }
        },
        Some(ci) => {
            let ghost g0 = g@;
            let mut g = g;
            let mut piece: Vec<GrammarElement> = Vec::new();
            let mut k: usize = 0;
            while k < ci
                invariant
                    k <= ci,
                    ci < g0.len(),
                    g0.len() == k + g@.len(),
                    piece@ =~= g0.subrange(0, k as int),
                    g@ =~= g0.subrange(k as int, g0.len() as int),
                decreases ci - k,
            {
                let e = g.remove(0);
                piece.push(e);
                k = k + 1;
                proof {
                    assert(piece@ =~= g0.subrange(0, k as int));
                    assert(g@ =~= g0.subrange(k as int, g0.len() as int));
                }
            }
            let _comma = g.remove(0);
            proof {
                assert(g@ =~= g0.subrange(ci + 1, g0.len() as int));
                assert(dv_elems(piece@) == gd.subrange(0, ci as int));
                assert(dv_elems(g@) == gd.subrange(ci + 1, gd.len() as int));
                assert(split_commas(gd) == seq![gd.subrange(0, ci as int)] + split_commas(
                    gd.subrange(ci + 1, gd.len() as int),
                ));
                assert((seq![gd.subrange(0, ci as int)] + split_commas(
                    gd.subrange(ci + 1, gd.len() as int),
                ))[0] == gd.subrange(0, ci as int));
                assert((seq![gd.subrange(0, ci as int)] + split_commas(
                    gd.subrange(ci + 1, gd.len() as int),
                )).subrange(
                    1,
                    (seq![gd.subrange(0, ci as int)] + split_commas(
                        gd.subrange(ci + 1, gd.len() as int),
                    )).len() as int,
                ) =~= split_commas(gd.subrange(ci + 1, gd.len() as int)));
            }
            match reduce_piece_exec(piece, fallback) {
                Err(e) => Err(e),
                Ok(e0) => match reduce_comma_list(g, fallback) {
                    Err(e) => Err(e),
                    Ok(rest) => {
                        let mut rest = rest;
                        let ghost restpre = rest@;
                        rest.insert(0, e0);
                        proof {
                            assert forall|j: int|
                                0 <= j < dv_elems(rest@).len() implies dv_elems(rest@)[j] == (
                            seq![e0@] + dv_elems(restpre))[j] by {
                                assert(dv_elems(rest@)[j] == dv_elem(rest@[j]));
                                if j > 0 {
                                    assert(rest@[j] == restpre[j - 1]);
                                    assert(dv_elems(restpre)[j - 1] == dv_elem(restpre[j - 1]));
                                }
                            }
                            assert(dv_elems(rest@) =~= seq![e0@] + dv_elems(restpre));
                            assert(reduce_pieces(split_commas(gd), fallback) == Ok::<
                                Seq<ElemV>,
                                ErrV,
                            >(seq![e0@] + dv_elems(restpre)));
                        }
                        Ok(rest)
                    },
                },
            }
        },
    }
}


/// A group splits into at least one comma-separated piece.
pub proof fn lemma_split_commas_nonempty(g: Seq<ElemV>)
    ensures
        split_commas(g).len() >= 1,
{
    match find_comma(g, 0) {
        None => {},
        Some(i) => {},
    }
}

/// A successful piece reduction yields one node per piece.
pub proof fn lemma_reduce_pieces_len(ps: Seq<Seq<ElemV>>, fallback: CodeSlice)
    ensures
        reduce_pieces(ps, fallback) matches Ok(v) ==> v.len() == ps.len(),
    decreases ps.len(),
{
    if ps.len() > 0 {
        lemma_reduce_pieces_len(ps.subrange(1, ps.len() as int), fallback);
    }
}

/// Converts a group of grammar elements into exactly one statement or
/// expression node, or fails with a syntax error pinpointing the offending
/// slice.  The result is exactly what [`reduce_group_spec`] states of the
/// group's mathematical value.
pub fn reduce(group: Vec<GrammarElement>) -> (r: Result<GrammarElement, SyntaxError>)
    ensures
        match r {
            Ok(e) => reduce_group_spec(dv_elems(group@)) == Ok::<ElemV, ErrV>(e@),
            Err(err) => reduce_group_spec(dv_elems(group@)) == Err::<ElemV, ErrV>(err@),
        },
{
    broadcast use lemma_dv_elems_len, lemma_dv_elems_index, lemma_dv_elems_subrange;

    let ghost gd = dv_elems(group@);
    let ghost orig = group@;
    if group.len() == 0 {
        return Err(SyntaxError::internal("parser found an empty statement"));
    }
    let span_all = CodeSlice::create_from(&group[0].span, &group[group.len() - 1].span);
    proof {
        assert(span_all == group_span(gd));
    }
    if group[0].tok_is_break() {
        if group.len() == 1 {
            let sp = group[0].span;
            return Ok(GrammarElement { span: sp, kind: ElementKind::Statement(StmtKind::Break) });
        } else {
            return Err(SyntaxError::syntax(span_all));
        }
    }
    if group[0].tok_is_return() {
        if group.len() == 1 {
            let sp = group[0].span;
            let node = GrammarElement {
                span: sp,
                kind: ElementKind::Statement(StmtKind::Return { values: Vec::new() }),
            };
            proof {
                assert(dv_elems(Seq::<GrammarElement>::empty()) =~= Seq::<ElemV>::empty());
            }
            return Ok(node);
        }
        let ret_span = group[0].span;
        let mut group = group;
        let _ret = group.remove(0);
        proof {
            assert(group@ =~= orig.subrange(1, orig.len() as int));
        }
        match reduce_comma_list(group, span_all) {
            Err(e) => {
                return Err(e);
            },
            Ok(vals) => {
                match find_non_expr_exec(&vals, 0) {
                    Some(j) => {
                        return Err(
                            SyntaxError::contextual("return values must be expressions", vals[j].span),
                        );
                    },
                    None => {
                        proof {
                            lemma_split_commas_nonempty(gd.subrange(1, gd.len() as int));
                            lemma_reduce_pieces_len(
                                split_commas(gd.subrange(1, gd.len() as int)),
                                group_span(gd),
                            );
                        }
                        let sp = CodeSlice::create_from(&ret_span, &vals[vals.len() - 1].span);
                        let node = GrammarElement {
                            span: sp,
                            kind: ElementKind::Statement(StmtKind::Return { values: vals }),
                        };
                        return Ok(node);
                    },
                }
            },
        }
    }
    match find_equal_exec(&group, 0) {
        Some(eq) => {
            proof {
                lemma_find_equal_bounds(gd, 0);
            }
            let is_local = group[0].tok_is_local();
            let lo: usize = if is_local {
                1
            } else {
                0
            };
            let mut group = group;
            if is_local {
                let _local = group.remove(0);
            }
            let mut left: Vec<GrammarElement> = Vec::new();
            let mut k: usize = lo;
            proof {
                assert(left@ =~= orig.subrange(lo as int, k as int));
                assert(group@ =~= orig.subrange(k as int, orig.len() as int));
            }
            while k < eq
                invariant
                    lo <= k <= eq,
                    eq < orig.len(),
                    orig.len() == k + group@.len(),
                    left@ =~= orig.subrange(lo as int, k as int),
                    group@ =~= orig.subrange(k as int, orig.len() as int),
                decreases eq - k,
            {
                let e = group.remove(0);
                left.push(e);
                k = k + 1;
                proof {
                    assert(left@ =~= orig.subrange(lo as int, k as int));
                    assert(group@ =~= orig.subrange(k as int, orig.len() as int));
                }
            }
            let _eqtok = group.remove(0);
            proof {
                assert(group@ =~= orig.subrange(eq + 1, orig.len() as int));
                assert(dv_elems(left@) == gd.subrange(lo as int, eq as int));
                assert(dv_elems(group@) == gd.subrange(eq + 1, gd.len() as int));
            }
            match reduce_comma_list(left, span_all) {
                Err(e) => Err(e),
                Ok(targets) => match find_non_var_exec(&targets, 0) {
                    Some(j) => Err(
                        SyntaxError::contextual("Left side of '=' must be a var", targets[j].span),
                    ),
                    None => match reduce_comma_list(group, span_all) {
                        Err(e) => Err(e),
                        Ok(values) => match find_non_expr_exec(&values, 0) {
                            Some(j) => Err(
                                SyntaxError::contextual(
                                    "Right side of '=' must be an expression",
                                    values[j].span,
                                ),
                            ),
                            None => Ok(
                                GrammarElement {
                                    span: span_all,
                                    kind: ElementKind::Statement(
                                        StmtKind::Assignment { targets, values, is_local },
                                    ),
                                },
                            ),
                        },
                    },
                },
            }
        },
        None => {
            let mut g = group;
            apply_unary_fix(&mut g);
            apply_binary_fix(&mut g);
            proof {
                assert(dv_elems(g@) == reduce_exprs(gd));
                lemma_reduce_exprs_len(gd);
            }
            if g.len() == 1 {
                let e = g.remove(0);
                Ok(e)
            } else {
                let sp = CodeSlice::create_from(&g[0].span, &g[g.len() - 1].span);
                proof {
                    assert(sp == group_span(reduce_exprs(gd)));
                }
                Err(SyntaxError::syntax(sp))
            }
        },
    }
}

} // verus!
