//! Proved laws of the grammar engine: associativity and precedence of the
//! binary reduction, the priority of unary operators, the last-statement
//! rule of chunk validation, and the idempotence of the reducer.

use vstd::prelude::*;

use crate::diagnostics::ErrV;
use crate::codeslice::CodeSlice;
use crate::element::{ElemV, ExprV, IfArmV, KindV, StmtV};
use crate::parser::{
    block_node, build_chunk_spec, construct_next, find_bad_mid, find_boundary, find_branch_d0,
    find_closer, find_do, find_then_d0, first_significant, lemma_construct_next_bounds,
    lemma_find_boundary_bounds, lemma_find_branch_d0_bounds, lemma_find_closer_bounds,
    lemma_find_do_bounds, lemma_find_then_d0_bounds, lemma_first_significant_bounds,
    lemma_promote_all_index, lemma_promote_all_len, parse_chunk_spec, parse_construct,
    parse_if_chain, parse_stmts_spec, parse_tokens_spec, promote_all, reduce_condition,
    significant, sift,
};
use crate::token::CodeTokV;
use crate::reduce::{
    b_spliced, binary_fix, binary_match_at, binary_node, find_binary, find_comma, find_equal,
    find_non_expr, find_non_var, find_unary, group_span, reduce_exprs, reduce_group_spec,
    reduce_piece, reduce_pieces, split_commas, u_spliced, unary_fix, unary_match_at, unary_node,
};

verus! {

/// A stream with no `=` token anywhere from `i` on has no `=` to find.
proof fn lemma_find_equal_none(g: Seq<ElemV>, i: int)
    requires
        forall|j: int| i <= j < g.len() ==> !(g[j].is_token() && g[j].tok_of() is Equal),
    ensures
        find_equal(g, i) is None,
    decreases g.len() - i,
{
    if !(i < 0 || i >= g.len()) {
        lemma_find_equal_none(g, i + 1);
    }
}

/// A stream with no unary match anywhere has none to find.
proof fn lemma_find_unary_none(g: Seq<ElemV>, i: int)
    requires
        forall|j: int| !unary_match_at(g, j),
    ensures
        find_unary(g, i) is None,
    decreases g.len() - i,
{
    if !(i < 0 || i + 1 >= g.len()) {
        lemma_find_unary_none(g, i + 1);
    }
}

/// A stream with no binary match of tier `t` anywhere has none to find.
proof fn lemma_find_binary_none(g: Seq<ElemV>, t: int, i: int)
    requires
        forall|j: int| !binary_match_at(g, t, j),
    ensures
        find_binary(g, t, i) is None,
    decreases g.len() - i,
{
    if !(i < 0 || i + 2 >= g.len()) {
        lemma_find_binary_none(g, t, i + 1);
    }
}

/// Tiers with no match are skipped without changing the group.
proof fn lemma_binary_fix_skip_to(g: Seq<ElemV>, t: int, upto: int)
    requires
        0 <= t <= upto <= 7,
        forall|u: int, j: int| t <= u < upto ==> !binary_match_at(g, u, j),
    ensures
        binary_fix(g, t) == binary_fix(g, upto),
    decreases upto - t,
{
    if t < upto {
        assert forall|j: int| !binary_match_at(g, t, j) by {}
        lemma_find_binary_none(g, t, 0);
        lemma_binary_fix_skip_to(g, t + 1, upto);
    }
}

/// A group too short for a triple passes through every tier unchanged.
proof fn lemma_binary_fix_short(g: Seq<ElemV>, t: int)
    requires
        0 <= t <= 7,
        g.len() < 3,
    ensures
        binary_fix(g, t) == g,
{
    assert forall|u: int, j: int| t <= u < 7 ==> !binary_match_at(g, u, j) by {}
    lemma_binary_fix_skip_to(g, t, 7);
}

/// Associativity: a chain of two operators of the same tier reduces to a
/// left-leaning tree — the left pair folds first, never the right one.
pub proof fn law_same_tier_left_assoc(e1: ElemV, o1: ElemV, e2: ElemV, o2: ElemV, e3: ElemV)
    requires
        e1.is_expression(),
        e2.is_expression(),
        e3.is_expression(),
        o1.is_token(),
        o2.is_token(),
        o1.tok_of().is_binop(),
        o2.tok_of().is_binop(),
        o1.tok_of().binop_tier() == o2.tok_of().binop_tier(),
    ensures
        reduce_group_spec(seq![e1, o1, e2, o2, e3]) == Ok::<ElemV, ErrV>(
            binary_node(binary_node(e1, o1, e2), o2, e3),
        ),
{
    let g = seq![e1, o1, e2, o2, e3];
    let tier = o1.tok_of().binop_tier();
    assert(0 <= tier < 7);
    assert forall|j: int| no_equal_at(g, j) by {}
    lemma_find_equal_none(g, 0);
    assert forall|j: int| !unary_match_at(g, j) by {
        if 0 <= j && j + 1 < g.len() {
            assert(g[0] == e1);
        }
    }
    lemma_find_unary_none(g, 0);
    assert(unary_fix(g) == g);
    assert forall|u: int, j: int| 0 <= u < tier ==> !binary_match_at(g, u, j) by {}
    lemma_binary_fix_skip_to(g, 0, tier);
    assert(binary_match_at(g, tier, 0));
    assert(find_binary(g, tier, 0) == Some(0int));
    let n1 = binary_node(e1, o1, e2);
    let g2 = seq![n1, o2, e3];
    assert(b_spliced(g, 0) =~= g2);
    assert(n1.is_expression());
    assert(binary_match_at(g2, tier, 0));
    assert(find_binary(g2, tier, 0) == Some(0int));
    let n2 = binary_node(n1, o2, e3);
    let g3 = seq![n2];
    assert(b_spliced(g2, 0) =~= g3);
    lemma_binary_fix_short(g3, tier);
    assert(binary_fix(g, tier) == binary_fix(g2, tier));
    assert(binary_fix(g2, tier) == binary_fix(g3, tier));
    assert(binary_fix(g, 0) == g3);
    assert(reduce_exprs(g) == g3);
}

/// No `=` token stands at `j`: the groups of the laws below hold none.
spec fn no_equal_at(g: Seq<ElemV>, j: int) -> bool {
    !(0 <= j < g.len() && g[j].is_token() && g[j].tok_of() is Equal)
}

/// Precedence: when the tighter of two operators stands second, it folds
/// first and becomes the right child of the looser one.
pub proof fn law_tighter_tier_on_right(e1: ElemV, lo: ElemV, e2: ElemV, hi: ElemV, e3: ElemV)
    requires
        e1.is_expression(),
        e2.is_expression(),
        e3.is_expression(),
        lo.is_token(),
        hi.is_token(),
        lo.tok_of().is_binop(),
        hi.tok_of().is_binop(),
        hi.tok_of().binop_tier() < lo.tok_of().binop_tier(),
    ensures
        reduce_group_spec(seq![e1, lo, e2, hi, e3]) == Ok::<ElemV, ErrV>(
            binary_node(e1, lo, binary_node(e2, hi, e3)),
        ),
{
    let g = seq![e1, lo, e2, hi, e3];
    let thi = hi.tok_of().binop_tier();
    let tlo = lo.tok_of().binop_tier();
    assert forall|j: int| no_equal_at(g, j) by {}
    lemma_find_equal_none(g, 0);
    assert forall|j: int| !unary_match_at(g, j) by {
        if 0 <= j && j + 1 < g.len() {
            assert(g[0] == e1);
        }
    }
    lemma_find_unary_none(g, 0);
    assert(unary_fix(g) == g);
    assert forall|u: int, j: int| 0 <= u < thi ==> !binary_match_at(g, u, j) by {}
    lemma_binary_fix_skip_to(g, 0, thi);
    assert(0 <= thi < 7);
    assert(tlo < 7);
    assert(!binary_match_at(g, thi, 0));
    assert(!binary_match_at(g, thi, 1));
    assert(binary_match_at(g, thi, 2));
    assert(find_binary(g, thi, 2) == Some(2int));
    assert(find_binary(g, thi, 1) == Some(2int));
    assert(find_binary(g, thi, 0) == Some(2int));
    let n1 = binary_node(e2, hi, e3);
    let g2 = seq![e1, lo, n1];
    assert(b_spliced(g, 2) =~= g2);
    assert(n1.is_expression());
    assert forall|u: int, j: int| thi <= u < tlo ==> !binary_match_at(g2, u, j) by {}
    lemma_binary_fix_skip_to(g2, thi, tlo);
    assert(binary_match_at(g2, tlo, 0));
    assert(find_binary(g2, tlo, 0) == Some(0int));
    let n2 = binary_node(e1, lo, n1);
    let g3 = seq![n2];
    assert(b_spliced(g2, 0) =~= g3);
    lemma_binary_fix_short(g3, tlo);
    assert(binary_fix(g, thi) == binary_fix(g2, thi));
    assert(binary_fix(g2, tlo) == binary_fix(g3, tlo));
    assert(binary_fix(g, 0) == g3);
}

/// Precedence: when the tighter of two operators stands first, it folds
/// first and becomes the left child of the looser one.
pub proof fn law_tighter_tier_on_left(e1: ElemV, hi: ElemV, e2: ElemV, lo: ElemV, e3: ElemV)
    requires
        e1.is_expression(),
        e2.is_expression(),
        e3.is_expression(),
        lo.is_token(),
        hi.is_token(),
        lo.tok_of().is_binop(),
        hi.tok_of().is_binop(),
        hi.tok_of().binop_tier() < lo.tok_of().binop_tier(),
    ensures
        reduce_group_spec(seq![e1, hi, e2, lo, e3]) == Ok::<ElemV, ErrV>(
            binary_node(binary_node(e1, hi, e2), lo, e3),
        ),
{
    let g = seq![e1, hi, e2, lo, e3];
    let thi = hi.tok_of().binop_tier();
    let tlo = lo.tok_of().binop_tier();
    assert forall|j: int| no_equal_at(g, j) by {}
    lemma_find_equal_none(g, 0);
    assert forall|j: int| !unary_match_at(g, j) by {
        if 0 <= j && j + 1 < g.len() {
            assert(g[0] == e1);
        }
    }
    lemma_find_unary_none(g, 0);
    assert(unary_fix(g) == g);
    assert forall|u: int, j: int| 0 <= u < thi ==> !binary_match_at(g, u, j) by {}
    assert(0 <= thi < 7);
    assert(tlo < 7);
    lemma_binary_fix_skip_to(g, 0, thi);
    assert(binary_match_at(g, thi, 0));
    assert(find_binary(g, thi, 0) == Some(0int));
    let n1 = binary_node(e1, hi, e2);
    let g2 = seq![n1, lo, e3];
    assert(b_spliced(g, 0) =~= g2);
    assert(n1.is_expression());
    assert forall|u: int, j: int| thi <= u < tlo ==> !binary_match_at(g2, u, j) by {}
    lemma_binary_fix_skip_to(g2, thi, tlo);
    assert(binary_match_at(g2, tlo, 0));
    assert(find_binary(g2, tlo, 0) == Some(0int));
    let n2 = binary_node(n1, lo, e3);
    let g3 = seq![n2];
    assert(b_spliced(g2, 0) =~= g3);
    lemma_binary_fix_short(g3, tlo);
    assert(binary_fix(g, thi) == binary_fix(g2, thi));
    assert(binary_fix(g2, tlo) == binary_fix(g3, tlo));
    assert(binary_fix(g, 0) == g3);
}

/// Unary precedence: a unary operator folds with its operand before any
/// binary tier fires, whatever the binary operator's tier.
pub proof fn law_unary_binds_tighter(u: ElemV, e1: ElemV, o: ElemV, e2: ElemV)
    requires
        e1.is_expression(),
        e2.is_expression(),
        u.is_token(),
        u.tok_of().is_unop(),
        o.is_token(),
        o.tok_of().is_binop(),
    ensures
        reduce_group_spec(seq![u, e1, o, e2]) == Ok::<ElemV, ErrV>(
            binary_node(unary_node(u, e1), o, e2),
        ),
{
    let g = seq![u, e1, o, e2];
    let t = o.tok_of().binop_tier();
    assert forall|j: int| no_equal_at(g, j) by {}
    lemma_find_equal_none(g, 0);
    assert(unary_match_at(g, 0));
    assert(find_unary(g, 0) == Some(0int));
    let n1 = unary_node(u, e1);
    let g2 = seq![n1, o, e2];
    assert(crate::reduce::u_spliced(g, 0) =~= g2);
    assert(n1.is_expression());
    assert forall|j: int| !unary_match_at(g2, j) by {
        if 0 <= j && j + 1 < g2.len() {
            assert(g2[0] == n1);
        }
    }
    lemma_find_unary_none(g2, 0);
    assert(unary_fix(g2) == g2);
    assert(unary_fix(g) == unary_fix(g2));
    assert(0 <= t < 7);
    assert forall|v: int, j: int| 0 <= v < t ==> !binary_match_at(g2, v, j) by {}
    lemma_binary_fix_skip_to(g2, 0, t);
    assert(binary_match_at(g2, t, 0));
    assert(find_binary(g2, t, 0) == Some(0int));
    let n2 = binary_node(n1, o, e2);
    let g3 = seq![n2];
    assert(b_spliced(g2, 0) =~= g3);
    lemma_binary_fix_short(g3, t);
    assert(binary_fix(g2, t) == binary_fix(g3, t));
    assert(binary_fix(g2, 0) == g3);
}

/// Idempotence: re-running the reducer on an already-fully-reduced singleton
/// group returns the same node, unchanged.
pub proof fn law_reduce_idempotent(e: ElemV)
    requires
        e.is_reduced(),
    ensures
        reduce_group_spec(seq![e]) == Ok::<ElemV, ErrV>(e),
{
    let g = seq![e];
    assert(!g[0].is_token());
    assert(find_equal(g, 1) is None);
    assert(find_equal(g, 0) is None);
    assert(find_unary(g, 0) is None);
    assert(unary_fix(g) == g);
    lemma_binary_fix_short(g, 0);
    assert(reduce_exprs(g) == g);
}

/// `find_bad_mid` finds nothing exactly when every statement before the last
/// is a true statement.
proof fn lemma_find_bad_mid_none(stmts: Seq<ElemV>, i: int)
    requires
        0 <= i,
    ensures
        (find_bad_mid(stmts, i) is None) <==> (forall|j: int|
            i <= j < stmts.len() - 1 ==> stmts[j].is_true_statement()),
    decreases stmts.len() - i,
{
    if !(i + 1 >= stmts.len()) && stmts[i].is_true_statement() {
        lemma_find_bad_mid_none(stmts, i + 1);
    }
}

/// The last-statement rule: chunk validation succeeds exactly when every
/// statement but the last is a true statement and the last is a true or a
/// terminal statement (`return` or `break`).  In particular, a chunk whose
/// only element is a bare expression fails, and one ending in `return` or
/// `break` after true statements is valid.
pub proof fn law_last_statement_rule(stmts: Seq<ElemV>)
    requires
        stmts.len() > 0,
    ensures
        (build_chunk_spec(stmts) is Ok) <==> ((forall|i: int|
            0 <= i < stmts.len() - 1 ==> stmts[i].is_true_statement()) && (stmts[stmts.len()
            - 1].is_true_statement() || stmts[stmts.len() - 1].is_terminal_statement())),
{
    lemma_find_bad_mid_none(stmts, 0);
}

/// A chunk whose only statement is a bare expression fails chunk validation.
pub proof fn law_bare_expression_chunk_fails(e: ElemV)
    requires
        e.is_expression(),
    ensures
        build_chunk_spec(seq![e]) is Err,
{
    law_last_statement_rule(seq![e]);
}


/// The source ranges of a sequence's elements never overlap and never move
/// backwards.
pub open spec fn spans_ordered(s: Seq<ElemV>) -> bool {
    forall|i: int, j: int| 0 <= i < j < s.len() ==> s[i].span.abs_end <= s[j].span.abs_start
}

/// The inner slice lies inside the outer one.
pub open spec fn span_within(inner: CodeSlice, outer: CodeSlice) -> bool {
    outer.abs_start <= inner.abs_start && inner.abs_end <= outer.abs_end
}

/// Every span of the sequence lies inside `lo .. hi`.
pub open spec fn spans_bounded(s: Seq<ElemV>, lo: int, hi: int) -> bool {
    forall|k: int| 0 <= k < s.len() ==> lo <= s[k].span.abs_start && s[k].span.abs_end <= hi
}

/// Round-trip of spans, as a predicate: the element's span is not reversed,
/// it covers the spans of all its children, and the children stand in
/// textual order, recursively.  Of such an element, the span's source slice
/// contains the slices of all its children, in order.
pub open spec fn spans_wf(e: ElemV) -> bool
    decreases e,
{
    &&& e.span.wf()
    &&& match e.kind {
        KindV::Token(_) => true,
        KindV::Expression(x) => match x {
            ExprV::Unary { op, operand } => {
                &&& spans_wf(*operand)
                &&& span_within(operand.span, e.span)
            },
            ExprV::Binary { op, left, right } => {
                &&& spans_wf(*left)
                &&& spans_wf(*right)
                &&& span_within(left.span, e.span)
                &&& span_within(right.span, e.span)
                &&& left.span.abs_end <= right.span.abs_start
            },
            _ => true,
        },
        KindV::Statement(st) => match st {
            StmtV::Assignment { targets, values, is_local } => {
                &&& all_spans_wf(targets)
                &&& all_spans_wf(values)
                &&& spans_ordered(targets + values)
                &&& spans_bounded(targets + values, e.span.abs_start as int, e.span.abs_end as int)
            },
            StmtV::DoEnd { body } => {
                &&& spans_wf(*body)
                &&& span_within(body.span, e.span)
            },
            StmtV::WhileDoEnd { condition, body } => {
                &&& spans_wf(*condition)
                &&& spans_wf(*body)
                &&& span_within(condition.span, e.span)
                &&& span_within(body.span, e.span)
                &&& condition.span.abs_end <= body.span.abs_start
            },
            StmtV::RepeatUntil { body, condition } => {
                &&& spans_wf(*body)
                &&& spans_wf(*condition)
                &&& span_within(body.span, e.span)
                &&& span_within(condition.span, e.span)
                &&& body.span.abs_end <= condition.span.abs_start
            },
            StmtV::IfChain { arms, else_body } => {
                &&& arms_spans_wf(arms, e.span)
                &&& match else_body {
                    Some(b) => {
                        &&& spans_wf(*b)
                        &&& span_within(b.span, e.span)
                        &&& (arms.len() > 0 ==> arms[arms.len()
                            - 1].body.span.abs_end <= b.span.abs_start)
                    },
                    None => true,
                }
            },
            StmtV::Return { values } => {
                &&& all_spans_wf(values)
                &&& spans_ordered(values)
                &&& spans_bounded(values, e.span.abs_start as int, e.span.abs_end as int)
            },
            _ => true,
        },
        KindV::Block(v) => {
            &&& all_spans_wf(v)
            &&& spans_ordered(v)
            &&& spans_bounded(v, e.span.abs_start as int, e.span.abs_end as int)
        },
        KindV::Chunk(v) => {
            &&& all_spans_wf(v)
            &&& spans_ordered(v)
            &&& spans_bounded(v, e.span.abs_start as int, e.span.abs_end as int)
        },
    }
}

/// Every element of the sequence has well-nested spans.
pub open spec fn all_spans_wf(s: Seq<ElemV>) -> bool
    decreases s,
{
    s.len() == 0 || (spans_wf(s[0]) && all_spans_wf(s.subrange(1, s.len() as int)))
}

/// Every arm's condition and body have well-nested spans inside `outer`, the
/// condition before the body, and each arm before the next.
pub open spec fn arms_spans_wf(arms: Seq<IfArmV>, outer: CodeSlice) -> bool
    decreases arms,
{
    arms.len() == 0 || ({
        &&& spans_wf(arms[0].condition)
        &&& spans_wf(arms[0].body)
        &&& span_within(arms[0].condition.span, outer)
        &&& span_within(arms[0].body.span, outer)
        &&& arms[0].condition.span.abs_end <= arms[0].body.span.abs_start
        &&& (arms.len() > 1 ==> arms[0].body.span.abs_end <= arms[1].condition.span.abs_start)
        &&& arms_spans_wf(arms.subrange(1, arms.len() as int), outer)
    })
}

/// `all_spans_wf` says exactly that every element is well-nested.
pub proof fn lemma_all_spans_wf(s: Seq<ElemV>)
    ensures
        all_spans_wf(s) <==> (forall|k: int| 0 <= k < s.len() ==> spans_wf(s[k])),
    decreases s.len(),
{
    if s.len() > 0 {
        lemma_all_spans_wf(s.subrange(1, s.len() as int));
        if spans_wf(s[0]) && all_spans_wf(s.subrange(1, s.len() as int)) {
            assert forall|k: int| 0 <= k < s.len() implies spans_wf(s[k]) by {
                if k > 0 {
                    assert(s.subrange(1, s.len() as int)[k - 1] == s[k]);
                }
            }
        }
        if forall|k: int| 0 <= k < s.len() ==> spans_wf(s[k]) {
            assert forall|k: int| 0 <= k < s.len() - 1 implies spans_wf(
                #[trigger] s.subrange(1, s.len() as int)[k],
            ) by {
                assert(s.subrange(1, s.len() as int)[k] == s[k + 1]);
            }
        }
    }
}

/// Every element of the group is well-nested: the group-level form the
/// reduction lemmas carry.
pub open spec fn group_spans_wf(s: Seq<ElemV>) -> bool {
    forall|k: int| 0 <= k < s.len() ==> spans_wf(#[trigger] s[k])
}

/// One unary fold keeps the group well-nested, ordered and bounded.
proof fn lemma_u_spliced_spans(g: Seq<ElemV>, i: int, lo: int, hi: int)
    requires
        unary_match_at(g, i),
        group_spans_wf(g),
        spans_ordered(g),
        spans_bounded(g, lo, hi),
    ensures
        group_spans_wf(u_spliced(g, i)),
        spans_ordered(u_spliced(g, i)),
        spans_bounded(u_spliced(g, i), lo, hi),
{
    let r = u_spliced(g, i);
    let node = unary_node(g[i], g[i + 1]);
    assert(spans_wf(g[i]));
    assert(spans_wf(g[i + 1]));
    assert(spans_wf(node));
    assert forall|k: int| 0 <= k < r.len() implies spans_wf(#[trigger] r[k]) && lo
        <= r[k].span.abs_start && r[k].span.abs_end <= hi by {
        if k < i {
            assert(r[k] == g[k]);
        } else if k == i {
            assert(r[k] == node);
        } else {
            assert(r[k] == g[k + 1]);
        }
    }
    assert forall|k: int, m: int| 0 <= k < m < r.len() implies #[trigger] r[k].span.abs_end
        <= #[trigger] r[m].span.abs_start by {
        if k < i {
            assert(r[k] == g[k]);
        } else if k == i {
            assert(r[k] == node);
        } else {
            assert(r[k] == g[k + 1]);
        }
        if m < i {
            assert(r[m] == g[m]);
        } else if m == i {
            assert(r[m] == node);
        } else {
            assert(r[m] == g[m + 1]);
        }
    }
}

/// One binary fold keeps the group well-nested, ordered and bounded.
proof fn lemma_b_spliced_spans(g: Seq<ElemV>, t: int, i: int, lo: int, hi: int)
    requires
        binary_match_at(g, t, i),
        group_spans_wf(g),
        spans_ordered(g),
        spans_bounded(g, lo, hi),
    ensures
        group_spans_wf(b_spliced(g, i)),
        spans_ordered(b_spliced(g, i)),
        spans_bounded(b_spliced(g, i), lo, hi),
{
    let r = b_spliced(g, i);
    let node = binary_node(g[i], g[i + 1], g[i + 2]);
    assert(spans_wf(g[i]));
    assert(spans_wf(g[i + 2]));
    assert(spans_wf(node));
    assert forall|k: int| 0 <= k < r.len() implies spans_wf(#[trigger] r[k]) && lo
        <= r[k].span.abs_start && r[k].span.abs_end <= hi by {
        if k < i {
            assert(r[k] == g[k]);
        } else if k == i {
            assert(r[k] == node);
        } else {
            assert(r[k] == g[k + 2]);
        }
    }
    assert forall|k: int, m: int| 0 <= k < m < r.len() implies #[trigger] r[k].span.abs_end
        <= #[trigger] r[m].span.abs_start by {
        if k < i {
            assert(r[k] == g[k]);
        } else if k == i {
            assert(r[k] == node);
        } else {
            assert(r[k] == g[k + 2]);
        }
        if m < i {
            assert(r[m] == g[m]);
        } else if m == i {
            assert(r[m] == node);
        } else {
            assert(r[m] == g[m + 2]);
        }
    }
}

/// Unary folding to a fixed point keeps the group well-nested, ordered and
/// bounded.
proof fn lemma_unary_fix_spans(g: Seq<ElemV>, lo: int, hi: int)
    requires
        group_spans_wf(g),
        spans_ordered(g),
        spans_bounded(g, lo, hi),
    ensures
        group_spans_wf(unary_fix(g)),
        spans_ordered(unary_fix(g)),
        spans_bounded(unary_fix(g), lo, hi),
    decreases g.len(),
{
    crate::reduce::lemma_find_unary_bounds(g, 0);
    match find_unary(g, 0) {
        None => {},
        Some(i) => {
            lemma_u_spliced_spans(g, i, lo, hi);
            lemma_unary_fix_spans(u_spliced(g, i), lo, hi);
        },
    }
}

/// Precedence climbing keeps the group well-nested, ordered and bounded.
proof fn lemma_binary_fix_spans(g: Seq<ElemV>, t: int, lo: int, hi: int)
    requires
        group_spans_wf(g),
        spans_ordered(g),
        spans_bounded(g, lo, hi),
    ensures
        group_spans_wf(binary_fix(g, t)),
        spans_ordered(binary_fix(g, t)),
        spans_bounded(binary_fix(g, t), lo, hi),
    decreases g.len(), 7 - t,
{
    if !(t < 0 || t >= 7) {
        crate::reduce::lemma_find_binary_bounds(g, t, 0);
        match find_binary(g, t, 0) {
            None => {
                lemma_binary_fix_spans(g, t + 1, lo, hi);
            },
            Some(i) => {
                lemma_b_spliced_spans(g, t, i, lo, hi);
                lemma_binary_fix_spans(b_spliced(g, i), t, lo, hi);
            },
        }
    }
}

/// Expression-level reduction keeps the group well-nested, ordered and
/// bounded.
pub proof fn law_reduction_keeps_span_nesting(g: Seq<ElemV>, lo: int, hi: int)
    requires
        group_spans_wf(g),
        spans_ordered(g),
        spans_bounded(g, lo, hi),
    ensures
        group_spans_wf(reduce_exprs(g)),
        spans_ordered(reduce_exprs(g)),
        spans_bounded(reduce_exprs(g), lo, hi),
{
    lemma_unary_fix_spans(g, lo, hi);
    lemma_binary_fix_spans(unary_fix(g), 0, lo, hi);
}

/// One reduced piece is well-nested and stays within the piece's bounds.
proof fn lemma_reduce_piece_spans(piece: Seq<ElemV>, fallback: CodeSlice, lo: int, hi: int)
    requires
        group_spans_wf(piece),
        spans_ordered(piece),
        spans_bounded(piece, lo, hi),
    ensures
        reduce_piece(piece, fallback) matches Ok(v) ==> spans_wf(v) && lo <= v.span.abs_start
            && v.span.abs_end <= hi,
{
    if piece.len() > 0 {
        law_reduction_keeps_span_nesting(piece, lo, hi);
        crate::reduce::lemma_reduce_exprs_len(piece);
    }
}

/// Every reduced piece of a comma-separated group is well-nested; together
/// they stay ordered and within the group's bounds.
proof fn lemma_reduce_pieces_spans(g: Seq<ElemV>, fallback: CodeSlice, lo: int, hi: int)
    requires
        group_spans_wf(g),
        spans_ordered(g),
        spans_bounded(g, lo, hi),
    ensures
        reduce_pieces(split_commas(g), fallback) matches Ok(vals) ==> group_spans_wf(vals)
            && spans_ordered(vals) && spans_bounded(vals, lo, hi),
    decreases g.len(),
{
    crate::reduce::lemma_find_comma_bounds(g, 0);
    match find_comma(g, 0) {
        None => {
            assert(split_commas(g) == seq![g]);
            assert(seq![g][0] == g);
            assert(seq![g].subrange(1, 1) =~= Seq::<Seq<ElemV>>::empty());
            lemma_reduce_piece_spans(g, fallback, lo, hi);
            match reduce_piece(g, fallback) {
                Ok(v) => {
                    assert(reduce_pieces(Seq::<Seq<ElemV>>::empty(), fallback) == Ok::<
                        Seq<ElemV>,
                        ErrV,
                    >(Seq::empty()));
                    assert(reduce_pieces(split_commas(g), fallback) == Ok::<Seq<ElemV>, ErrV>(
                        seq![v] + Seq::<ElemV>::empty(),
                    ));
                    let vals = seq![v] + Seq::<ElemV>::empty();
                    assert forall|k: int| 0 <= k < vals.len() implies spans_wf(
                        #[trigger] vals[k],
                    ) by {
                        assert(vals[k] == v);
                    }
                },
                Err(_) => {},
            }
        },
        Some(ci) => {
            let piece0 = g.subrange(0, ci);
            let rest = g.subrange(ci + 1, g.len() as int);
            assert(split_commas(g) == seq![piece0] + split_commas(rest));
            assert((seq![piece0] + split_commas(rest))[0] == piece0);
            assert((seq![piece0] + split_commas(rest)).subrange(
                1,
                (seq![piece0] + split_commas(rest)).len() as int,
            ) =~= split_commas(rest));
            // the piece lies before the comma, the rest after it
            let mid_lo = g[ci].span.abs_start as int;
            let mid_hi = g[ci].span.abs_end as int;
            assert(spans_wf(g[ci]));
            assert forall|k: int| 0 <= k < piece0.len() implies spans_wf(#[trigger] piece0[k]) && lo
                <= piece0[k].span.abs_start && piece0[k].span.abs_end <= mid_lo by {
                assert(piece0[k] == g[k]);
            }
            assert forall|k: int| 0 <= k < rest.len() implies spans_wf(#[trigger] rest[k]) && mid_hi
                <= rest[k].span.abs_start && rest[k].span.abs_end <= hi by {
                assert(rest[k] == g[ci + 1 + k]);
            }
            assert forall|k: int, m: int| 0 <= k < m < piece0.len() implies #[trigger] piece0[k].span.abs_end
                <= #[trigger] piece0[m].span.abs_start by {
                assert(piece0[k] == g[k]);
                assert(piece0[m] == g[m]);
            }
            assert forall|k: int, m: int| 0 <= k < m < rest.len() implies #[trigger] rest[k].span.abs_end
                <= #[trigger] rest[m].span.abs_start by {
                assert(rest[k] == g[ci + 1 + k]);
                assert(rest[m] == g[ci + 1 + m]);
            }
            lemma_reduce_piece_spans(piece0, fallback, lo, mid_lo);
            lemma_reduce_pieces_spans(rest, fallback, mid_hi, hi);
            match reduce_piece(piece0, fallback) {
                Err(_) => {},
                Ok(v0) => {
                    match reduce_pieces(split_commas(rest), fallback) {
                        Err(_) => {},
                        Ok(valsr) => {
                            let vals = seq![v0] + valsr;
                            assert(reduce_pieces(split_commas(g), fallback) == Ok::<
                                Seq<ElemV>,
                                ErrV,
                            >(vals));
                            assert forall|k: int| 0 <= k < vals.len() implies spans_wf(
                                #[trigger] vals[k],
                            ) && lo <= vals[k].span.abs_start && vals[k].span.abs_end <= hi by {
                                if k > 0 {
                                    assert(vals[k] == valsr[k - 1]);
                                }
                            }
                            assert forall|k: int, m: int|
                                0 <= k < m < vals.len() implies #[trigger] vals[k].span.abs_end
                                <= #[trigger] vals[m].span.abs_start by {
                                if k > 0 {
                                    assert(vals[k] == valsr[k - 1]);
                                }
                                assert(vals[m] == valsr[m - 1]);
                            }
                        },
                    }
                },
            }
        },
    }
}

/// Round-trip of spans at the reducer: when a group enters the reducer with
/// well-nested, non-overlapping, left-to-right spans, the one node that
/// comes out is well-nested too, and its span stays within the group's
/// extent — so every compound node's source slice contains the slices of
/// all its children, in order.
pub proof fn law_reduce_keeps_span_nesting(g: Seq<ElemV>)
    requires
        group_spans_wf(g),
        spans_ordered(g),
    ensures
        reduce_group_spec(g) matches Ok(e) ==> spans_wf(e) && g.len() > 0 && span_within(
            e.span,
            group_span(g),
        ),
{
    if g.len() == 0 {
        return ;
    }
    let lo = g[0].span.abs_start as int;
    let hi = g[g.len() - 1].span.abs_end as int;
    assert(spans_wf(g[0]));
    assert(spans_wf(g[g.len() - 1]));
    assert(spans_bounded(g, lo, hi));
    if g[0].is_token() && g[0].tok_of() is Break {
        return ;
    }
    if g[0].is_token() && g[0].tok_of() is Return {
        if g.len() == 1 {
            assert(all_spans_wf(Seq::<ElemV>::empty()));
            return ;
        }
        let rest = g.subrange(1, g.len() as int);
        let rlo = g[0].span.abs_end as int;
        assert forall|k: int| 0 <= k < rest.len() implies spans_wf(#[trigger] rest[k]) && rlo
            <= rest[k].span.abs_start && rest[k].span.abs_end <= hi by {
            assert(rest[k] == g[1 + k]);
        }
        assert forall|k: int, m: int| 0 <= k < m < rest.len() implies #[trigger] rest[k].span.abs_end
            <= #[trigger] rest[m].span.abs_start by {
            assert(rest[k] == g[1 + k]);
            assert(rest[m] == g[1 + m]);
        }
        lemma_reduce_pieces_spans(rest, group_span(g), g[0].span.abs_end as int, hi);
        match reduce_pieces(split_commas(rest), group_span(g)) {
            Err(_) => {},
            Ok(vals) => {
                crate::reduce::lemma_split_commas_nonempty(rest);
                crate::reduce::lemma_reduce_pieces_len(split_commas(rest), group_span(g));
                match find_non_expr(vals, 0) {
                    Some(_) => {},
                    None => {
                        let e = ElemV {
                            span: CodeSlice::combined(g[0].span, vals[vals.len() - 1].span),
                            kind: KindV::Statement(StmtV::Return { values: vals }),
                        };
                        lemma_all_spans_wf(vals);
                        assert forall|k: int| 0 <= k < vals.len() implies e.span.abs_start as int
                            <= vals[k].span.abs_start && #[trigger] vals[k].span.abs_end
                            <= e.span.abs_end as int by {
                            assert(spans_wf(vals[k]));
                            assert(spans_wf(vals[vals.len() - 1]));
                            if k < vals.len() - 1 {
                                assert(vals[k].span.abs_end <= vals[vals.len() - 1].span.abs_start);
                            }
                        }
                        assert(spans_wf(e));
                    },
                }
            },
        }
        return ;
    }
    crate::reduce::lemma_find_equal_bounds(g, 0);
    match find_equal(g, 0) {
        Some(eq) => {
            let is_local = g[0].is_token() && g[0].tok_of() is Local;
            let elo: int = if is_local {
                1
            } else {
                0
            };
            let left_raw = g.subrange(elo, eq);
            let right_raw = g.subrange(eq + 1, g.len() as int);
            assert(spans_wf(g[eq]));
            let eq_lo = g[eq].span.abs_start as int;
            let eq_hi = g[eq].span.abs_end as int;
            assert forall|k: int| 0 <= k < left_raw.len() implies spans_wf(#[trigger] left_raw[k])
                && lo <= left_raw[k].span.abs_start && left_raw[k].span.abs_end <= eq_lo by {
                assert(left_raw[k] == g[elo + k]);
            }
            assert forall|k: int, m: int|
                0 <= k < m < left_raw.len() implies #[trigger] left_raw[k].span.abs_end
                <= #[trigger] left_raw[m].span.abs_start by {
                assert(left_raw[k] == g[elo + k]);
                assert(left_raw[m] == g[elo + m]);
            }
            assert forall|k: int| 0 <= k < right_raw.len() implies spans_wf(#[trigger] right_raw[k])
                && eq_hi <= right_raw[k].span.abs_start && right_raw[k].span.abs_end <= hi by {
                assert(right_raw[k] == g[eq + 1 + k]);
            }
            assert forall|k: int, m: int|
                0 <= k < m < right_raw.len() implies #[trigger] right_raw[k].span.abs_end
                <= #[trigger] right_raw[m].span.abs_start by {
                assert(right_raw[k] == g[eq + 1 + k]);
                assert(right_raw[m] == g[eq + 1 + m]);
            }
            lemma_reduce_pieces_spans(
                left_raw,
                group_span(g),
                lo,
                g[eq].span.abs_start as int,
            );
            lemma_reduce_pieces_spans(
                right_raw,
                group_span(g),
                g[eq].span.abs_end as int,
                hi,
            );
            match reduce_pieces(split_commas(left_raw), group_span(g)) {
                Err(_) => {},
                Ok(targets) => {
                    match find_non_var(targets, 0) {
                        Some(_) => {},
                        None => {
                            match reduce_pieces(split_commas(right_raw), group_span(g)) {
                                Err(_) => {},
                                Ok(values) => {
                                    match find_non_expr(values, 0) {
                                        Some(_) => {},
                                        None => {
                                            let e = ElemV {
                                                span: group_span(g),
                                                kind: KindV::Statement(
                                                    StmtV::Assignment { targets, values, is_local },
                                                ),
                                            };
                                            lemma_all_spans_wf(targets);
                                            lemma_all_spans_wf(values);
                                            let both = targets + values;
                                            assert forall|k: int, m: int|
                                                0 <= k < m < both.len() implies #[trigger] both[k].span.abs_end
                                                <= #[trigger] both[m].span.abs_start by {
                                                if k >= targets.len() {
                                                    assert(both[k] == values[k - targets.len()]);
                                                }
                                                if m >= targets.len() {
                                                    assert(both[m] == values[m - targets.len()]);
                                                }
                                            }
                                            assert forall|k: int|
                                                0 <= k < both.len() implies e.span.abs_start as int
                                                <= #[trigger] both[k].span.abs_start
                                                && both[k].span.abs_end
                                                <= e.span.abs_end as int by {
                                                if k >= targets.len() {
                                                    assert(both[k] == values[k - targets.len()]);
                                                }
                                            }
                                            assert(spans_wf(e));
                                        },
                                    }
                                },
                            }
                        },
                    }
                },
            }
        },
        None => {
            law_reduction_keeps_span_nesting(g, lo, hi);
            crate::reduce::lemma_reduce_exprs_len(g);
        },
    }
}


/// Sifting keeps the group well-nested, ordered and bounded.
proof fn lemma_sift_spans(s: Seq<ElemV>, lo: int, hi: int)
    requires
        group_spans_wf(s),
        spans_ordered(s),
        spans_bounded(s, lo, hi),
        lo <= hi,
    ensures
        group_spans_wf(sift(s)),
        spans_ordered(sift(s)),
        spans_bounded(sift(s), lo, hi),
    decreases s.len(),
{
    if s.len() == 0 {
        assert(sift(s) =~= Seq::<ElemV>::empty());
    } else {
        let tail = s.subrange(1, s.len() as int);
        let mid = s[0].span.abs_end as int;
        assert(spans_wf(s[0]));
        assert forall|k: int| 0 <= k < tail.len() implies spans_wf(#[trigger] tail[k]) && mid
            <= tail[k].span.abs_start && tail[k].span.abs_end <= hi by {
            assert(tail[k] == s[1 + k]);
        }
        assert forall|k: int, m: int| 0 <= k < m < tail.len() implies #[trigger] tail[k].span.abs_end
            <= #[trigger] tail[m].span.abs_start by {
            assert(tail[k] == s[1 + k]);
            assert(tail[m] == s[1 + m]);
        }
        if mid <= hi {
            lemma_sift_spans(tail, mid, hi);
        } else {
            assert(tail.len() == 0) by {
                if tail.len() > 0 {
                    assert(mid <= tail[0].span.abs_start);
                    assert(tail[0].span.abs_end <= hi);
                    assert(spans_wf(tail[0]));
                }
            }
            assert(sift(tail) =~= Seq::<ElemV>::empty());
        }
        let r = sift(s);
        if significant(s[0]) {
            assert(r == seq![s[0]] + sift(tail));
            assert forall|k: int| 0 <= k < r.len() implies spans_wf(#[trigger] r[k]) && lo
                <= r[k].span.abs_start && r[k].span.abs_end <= hi by {
                if k > 0 {
                    assert(r[k] == sift(tail)[k - 1]);
                }
            }
            assert forall|k: int, m: int| 0 <= k < m < r.len() implies #[trigger] r[k].span.abs_end
                <= #[trigger] r[m].span.abs_start by {
                assert(r[m] == sift(tail)[m - 1]);
                if k > 0 {
                    assert(r[k] == sift(tail)[k - 1]);
                }
            }
        } else {
            assert(r == Seq::<ElemV>::empty() + sift(tail));
            assert(r =~= sift(tail));
            assert forall|k: int| 0 <= k < r.len() implies spans_wf(#[trigger] r[k]) && lo
                <= r[k].span.abs_start && r[k].span.abs_end <= hi by {}
        }
    }
}

/// A reduced condition is well-nested and stays within the raw group's
/// bounds.
proof fn lemma_reduce_condition_spans(raw: Seq<ElemV>, anchor: CodeSlice, lo: int, hi: int)
    requires
        group_spans_wf(raw),
        spans_ordered(raw),
        spans_bounded(raw, lo, hi),
    ensures
        reduce_condition(raw, anchor) matches Ok(c) ==> spans_wf(c) && lo <= c.span.abs_start
            && c.span.abs_end <= hi,
{
    law_reduce_keeps_span_nesting(raw);
    if raw.len() > 0 {
        assert(spans_wf(raw[0]));
        assert(spans_wf(raw[raw.len() - 1]));
    }
}

/// Well-nested arms stay well-nested under a wider outer span.
proof fn lemma_arms_spans_widen(arms: Seq<IfArmV>, inner: CodeSlice, outer: CodeSlice)
    requires
        arms_spans_wf(arms, inner),
        outer.abs_start <= inner.abs_start,
        inner.abs_end <= outer.abs_end,
    ensures
        arms_spans_wf(arms, outer),
    decreases arms.len(),
{
    if arms.len() > 0 {
        lemma_arms_spans_widen(arms.subrange(1, arms.len() as int), inner, outer);
    }
}


/// The start of the element at `n`, or `hi` past the stream's end: the
/// bound a statement ending before position `n` must respect.
pub open spec fn hull_from(s: Seq<ElemV>, n: int, hi: int) -> int {
    if n < s.len() {
        s[n].span.abs_start as int
    } else {
        hi
    }
}

/// A parsed construct is well-nested and lies between its opener and the
/// element that follows the construct.
#[verifier::rlimit(100)]
#[verifier::spinoff_prover]
proof fn lemma_parse_construct_spans(s: Seq<ElemV>, i: int, lo: int, hi: int)
    requires
        group_spans_wf(s),
        spans_ordered(s),
        spans_bounded(s, lo, hi),
        0 <= i < s.len(),
        s[i].is_token(),
    ensures
        parse_construct(s, i) matches Ok(stmt) ==> spans_wf(stmt) && lo <= stmt.span.abs_start
            && stmt.span.abs_end <= hull_from(s, construct_next(s, i), hi),
    decreases s.len(), 0int,
{
    let osp = s[i].span;
    assert(spans_wf(s[i]));
    lemma_find_closer_bounds(s, i + 1, 1);
    lemma_find_do_bounds(s, i + 1);
    if s[i].tok_of() is Do || s[i].tok_of() is If {
        match find_closer(s, i + 1, 1) {
            None => {},
            Some(j) => {
                assert(spans_wf(s[j]));
                if s[j].tok_of() is End {
                    let csp = s[j].span;
                    let interior = s.subrange(i + 1, j);
                    assert forall|k: int| 0 <= k < interior.len() implies spans_wf(
                        #[trigger] interior[k],
                    ) && osp.abs_end as int <= interior[k].span.abs_start
                        && interior[k].span.abs_end <= csp.abs_start as int by {
                        assert(interior[k] == s[i + 1 + k]);
                    }
                    assert forall|k: int, m: int|
                        0 <= k < m < interior.len() implies #[trigger] interior[k].span.abs_end
                        <= #[trigger] interior[m].span.abs_start by {
                        assert(interior[k] == s[i + 1 + k]);
                        assert(interior[m] == s[i + 1 + m]);
                    }
                    if s[i].tok_of() is Do {
                        lemma_parse_stmts_spans(
                            interior,
                            osp.abs_end as int,
                            csp.abs_start as int,
                        );
                        match parse_stmts_spec(interior) {
                            Err(_) => {},
                            Ok(body) => {
                                let blk = block_node(osp, csp, body);
                                lemma_block_node_spans(
                                    osp,
                                    csp,
                                    body,
                                    osp.abs_end as int,
                                    csp.abs_start as int,
                                );
                                let stmt = ElemV {
                                    span: CodeSlice::combined(osp, csp),
                                    kind: KindV::Statement(StmtV::DoEnd { body: Box::new(blk) }),
                                };
                                assert(spans_wf(stmt));
                            },
                        }
                    } else {
                        lemma_parse_if_chain_spans(interior, osp, csp);
                        match parse_if_chain(interior, osp, csp) {
                            Err(_) => {},
                            Ok(pair) => {
                                let stmt = ElemV {
                                    span: CodeSlice::combined(osp, csp),
                                    kind: KindV::Statement(
                                        StmtV::IfChain { arms: pair.0, else_body: pair.1 },
                                    ),
                                };
                                assert(spans_wf(stmt));
                            },
                        }
                    }
                }
            },
        }
    } else if s[i].tok_of() is While {
        match find_do(s, i + 1) {
            None => {},
            Some(d) => {
                assert(spans_wf(s[d]));
                let cond_sub = s.subrange(i + 1, d);
                assert forall|k: int| 0 <= k < cond_sub.len() implies spans_wf(
                    #[trigger] cond_sub[k],
                ) && osp.abs_end as int <= cond_sub[k].span.abs_start
                    && cond_sub[k].span.abs_end <= s[d].span.abs_start as int by {
                    assert(cond_sub[k] == s[i + 1 + k]);
                }
                assert forall|k: int, m: int|
                    0 <= k < m < cond_sub.len() implies #[trigger] cond_sub[k].span.abs_end
                    <= #[trigger] cond_sub[m].span.abs_start by {
                    assert(cond_sub[k] == s[i + 1 + k]);
                    assert(cond_sub[m] == s[i + 1 + m]);
                }
                lemma_sift_spans(cond_sub, osp.abs_end as int, s[d].span.abs_start as int);
                lemma_reduce_condition_spans(
                    sift(cond_sub),
                    osp,
                    osp.abs_end as int,
                    s[d].span.abs_start as int,
                );
                lemma_find_closer_bounds(s, d + 1, 1);
                match reduce_condition(sift(cond_sub), osp) {
                    Err(_) => {},
                    Ok(cond) => {
                        match find_closer(s, d + 1, 1) {
                            None => {},
                            Some(j) => {
                                assert(spans_wf(s[j]));
                                if s[j].tok_of() is End {
                                    let csp = s[j].span;
                                    let interior = s.subrange(d + 1, j);
                                    assert forall|k: int| 0 <= k < interior.len() implies spans_wf(
                                        #[trigger] interior[k],
                                    ) && s[d].span.abs_end as int <= interior[k].span.abs_start
                                        && interior[k].span.abs_end <= csp.abs_start as int by {
                                        assert(interior[k] == s[d + 1 + k]);
                                    }
                                    assert forall|k: int, m: int|
                                        0 <= k < m < interior.len() implies #[trigger] interior[k].span.abs_end
                                        <= #[trigger] interior[m].span.abs_start by {
                                        assert(interior[k] == s[d + 1 + k]);
                                        assert(interior[m] == s[d + 1 + m]);
                                    }
                                    lemma_parse_stmts_spans(
                                        interior,
                                        s[d].span.abs_end as int,
                                        csp.abs_start as int,
                                    );
                                    match parse_stmts_spec(interior) {
                                        Err(_) => {},
                                        Ok(body) => {
                                            let blk = block_node(s[d].span, csp, body);
                                            lemma_block_node_spans(
                                                s[d].span,
                                                csp,
                                                body,
                                                s[d].span.abs_end as int,
                                                csp.abs_start as int,
                                            );
                                            let stmt = ElemV {
                                                span: CodeSlice::combined(osp, csp),
                                                kind: KindV::Statement(
                                                    StmtV::WhileDoEnd {
                                                        condition: Box::new(cond),
                                                        body: Box::new(blk),
                                                    },
                                                ),
                                            };
                                            assert(spans_wf(stmt));
                                        },
                                    }
                                }
                            },
                        }
                    },
                }
            },
        }
    } else if s[i].tok_of() is Repeat {
        match find_closer(s, i + 1, 1) {
            None => {},
            Some(j) => {
                assert(spans_wf(s[j]));
                if s[j].tok_of() is Until {
                    let csp = s[j].span;
                    let interior = s.subrange(i + 1, j);
                    assert forall|k: int| 0 <= k < interior.len() implies spans_wf(
                        #[trigger] interior[k],
                    ) && osp.abs_end as int <= interior[k].span.abs_start
                        && interior[k].span.abs_end <= csp.abs_start as int by {
                        assert(interior[k] == s[i + 1 + k]);
                    }
                    assert forall|k: int, m: int|
                        0 <= k < m < interior.len() implies #[trigger] interior[k].span.abs_end
                        <= #[trigger] interior[m].span.abs_start by {
                        assert(interior[k] == s[i + 1 + k]);
                        assert(interior[m] == s[i + 1 + m]);
                    }
                    lemma_parse_stmts_spans(interior, osp.abs_end as int, csp.abs_start as int);
                    match parse_stmts_spec(interior) {
                        Err(_) => {},
                        Ok(body) => {
                            let k0 = find_boundary(s, j + 1);
                            lemma_find_boundary_bounds(s, j + 1);
                            let cond_sub = s.subrange(j + 1, k0);
                            let chi = hull_from(s, k0, hi);
                            if k0 < s.len() {
                                assert(spans_wf(s[k0]));
                            }
                            assert forall|k: int| 0 <= k < cond_sub.len() implies spans_wf(
                                #[trigger] cond_sub[k],
                            ) && csp.abs_end as int <= cond_sub[k].span.abs_start
                                && cond_sub[k].span.abs_end <= chi by {
                                assert(cond_sub[k] == s[j + 1 + k]);
                            }
                            assert forall|k: int, m: int|
                                0 <= k < m < cond_sub.len() implies #[trigger] cond_sub[k].span.abs_end
                                <= #[trigger] cond_sub[m].span.abs_start by {
                                assert(cond_sub[k] == s[j + 1 + k]);
                                assert(cond_sub[m] == s[j + 1 + m]);
                            }
                            assert(csp.abs_end as int <= chi) by {
                                if k0 < s.len() {
                                    assert(spans_wf(s[k0]));
                                }
                            }
                            lemma_sift_spans(cond_sub, csp.abs_end as int, chi);
                            lemma_reduce_condition_spans(
                                sift(cond_sub),
                                csp,
                                csp.abs_end as int,
                                chi,
                            );
                            match reduce_condition(sift(cond_sub), csp) {
                                Err(_) => {},
                                Ok(cond) => {
                                    let blk = block_node(osp, csp, body);
                                    lemma_block_node_spans(
                                        osp,
                                        csp,
                                        body,
                                        osp.abs_end as int,
                                        csp.abs_start as int,
                                    );
                                    let stmt = ElemV {
                                        span: CodeSlice::combined(osp, cond.span),
                                        kind: KindV::Statement(
                                            StmtV::RepeatUntil {
                                                body: Box::new(blk),
                                                condition: Box::new(cond),
                                            },
                                        ),
                                    };
                                    assert(spans_wf(stmt));
                                },
                            }
                        },
                    }
                }
            },
        }
    } else {
    }
}

/// A block built from a reduced statement sequence between two anchors is
/// well-nested and lies between the anchors.
proof fn lemma_block_node_spans(lead: CodeSlice, tail: CodeSlice, body: Seq<ElemV>, lo: int, hi: int)
    requires
        group_spans_wf(body),
        spans_ordered(body),
        spans_bounded(body, lo, hi),
        lead.wf(),
        tail.wf(),
        lead.abs_end as int == lo,
        tail.abs_start as int == hi,
        lo <= hi,
    ensures
        spans_wf(block_node(lead, tail, body)),
        lo <= block_node(lead, tail, body).span.abs_start,
        block_node(lead, tail, body).span.abs_end <= hi,
{
    let blk = block_node(lead, tail, body);
    lemma_all_spans_wf(body);
    if body.len() > 0 {
        assert(spans_wf(body[0]));
        assert(spans_wf(body[body.len() - 1]));
        assert forall|k: int| 0 <= k < body.len() implies blk.span.abs_start as int
            <= #[trigger] body[k].span.abs_start && body[k].span.abs_end
            <= blk.span.abs_end as int by {
            assert(spans_wf(body[k]));
            if k > 0 {
                assert(body[0].span.abs_end <= body[k].span.abs_start);
            }
            if k < body.len() - 1 {
                assert(body[k].span.abs_end <= body[body.len() - 1].span.abs_start);
            }
        }
    }
}

/// A parsed `if` interior yields well-nested arms inside the span from the
/// opener to the closer, the arms in order, the `else` block last.
#[verifier::rlimit(100)]
#[verifier::spinoff_prover]
proof fn lemma_parse_if_chain_spans(t: Seq<ElemV>, lead: CodeSlice, tail: CodeSlice)
    requires
        group_spans_wf(t),
        spans_ordered(t),
        spans_bounded(t, lead.abs_end as int, tail.abs_start as int),
        lead.wf(),
        tail.wf(),
        lead.abs_end <= tail.abs_start,
    ensures
        parse_if_chain(t, lead, tail) matches Ok(pair) ==> ({
            let outer = CodeSlice::combined(lead, tail);
            &&& arms_spans_wf(pair.0, outer)
            &&& pair.0.len() >= 1
            &&& lead.abs_end <= pair.0[0].condition.span.abs_start
            &&& match pair.1 {
                Some(b) => spans_wf(*b) && span_within(b.span, outer) && pair.0[pair.0.len()
                    - 1].body.span.abs_end <= b.span.abs_start,
                None => true,
            }
        }),
    decreases t.len(), 0int,
{
    let outer = CodeSlice::combined(lead, tail);
    lemma_find_then_d0_bounds(t, 0, 0);
    match find_then_d0(t, 0, 0) {
        None => {},
        Some(p) => {
            assert(spans_wf(t[p]));
            let cond_sub = t.subrange(0, p);
            assert forall|k: int| 0 <= k < cond_sub.len() implies spans_wf(#[trigger] cond_sub[k])
                && lead.abs_end as int <= cond_sub[k].span.abs_start && cond_sub[k].span.abs_end
                <= t[p].span.abs_start as int by {
                assert(cond_sub[k] == t[k]);
            }
            assert forall|k: int, m: int|
                0 <= k < m < cond_sub.len() implies #[trigger] cond_sub[k].span.abs_end
                <= #[trigger] cond_sub[m].span.abs_start by {
                assert(cond_sub[k] == t[k]);
                assert(cond_sub[m] == t[m]);
            }
            lemma_sift_spans(cond_sub, lead.abs_end as int, t[p].span.abs_start as int);
            lemma_reduce_condition_spans(
                sift(cond_sub),
                lead,
                lead.abs_end as int,
                t[p].span.abs_start as int,
            );
            lemma_find_branch_d0_bounds(t, p + 1, 0);
            match reduce_condition(sift(cond_sub), lead) {
                Err(_) => {},
                Ok(cond) => {
                    match find_branch_d0(t, p + 1, 0) {
                        None => {
                            let body_sub = t.subrange(p + 1, t.len() as int);
                            assert forall|k: int| 0 <= k < body_sub.len() implies spans_wf(
                                #[trigger] body_sub[k],
                            ) && t[p].span.abs_end as int <= body_sub[k].span.abs_start
                                && body_sub[k].span.abs_end <= tail.abs_start as int by {
                                assert(body_sub[k] == t[p + 1 + k]);
                            }
                            assert forall|k: int, m: int|
                                0 <= k < m < body_sub.len() implies #[trigger] body_sub[k].span.abs_end
                                <= #[trigger] body_sub[m].span.abs_start by {
                                assert(body_sub[k] == t[p + 1 + k]);
                                assert(body_sub[m] == t[p + 1 + m]);
                            }
                            lemma_parse_stmts_spans(
                                body_sub,
                                t[p].span.abs_end as int,
                                tail.abs_start as int,
                            );
                            match parse_stmts_spec(body_sub) {
                                Err(_) => {},
                                Ok(body) => {
                                    lemma_block_node_spans(
                                        t[p].span,
                                        tail,
                                        body,
                                        t[p].span.abs_end as int,
                                        tail.abs_start as int,
                                    );
                                    let arm = IfArmV {
                                        condition: cond,
                                        body: block_node(t[p].span, tail, body),
                                    };
                                    let arms = seq![arm];
                                    assert(arms.subrange(1, 1) =~= Seq::<IfArmV>::empty());
                                    assert(arms_spans_wf(Seq::<IfArmV>::empty(), outer));
                                    assert(arms_spans_wf(arms, outer));
                                },
                            }
                        },
                        Some(q) => {
                            assert(spans_wf(t[q]));
                            let body_sub = t.subrange(p + 1, q);
                            assert forall|k: int| 0 <= k < body_sub.len() implies spans_wf(
                                #[trigger] body_sub[k],
                            ) && t[p].span.abs_end as int <= body_sub[k].span.abs_start
                                && body_sub[k].span.abs_end <= t[q].span.abs_start as int by {
                                assert(body_sub[k] == t[p + 1 + k]);
                            }
                            assert forall|k: int, m: int|
                                0 <= k < m < body_sub.len() implies #[trigger] body_sub[k].span.abs_end
                                <= #[trigger] body_sub[m].span.abs_start by {
                                assert(body_sub[k] == t[p + 1 + k]);
                                assert(body_sub[m] == t[p + 1 + m]);
                            }
                            lemma_parse_stmts_spans(
                                body_sub,
                                t[p].span.abs_end as int,
                                t[q].span.abs_start as int,
                            );
                            match parse_stmts_spec(body_sub) {
                                Err(_) => {},
                                Ok(body) => {
                                    lemma_block_node_spans(
                                        t[p].span,
                                        t[q].span,
                                        body,
                                        t[p].span.abs_end as int,
                                        t[q].span.abs_start as int,
                                    );
                                    let arm = IfArmV {
                                        condition: cond,
                                        body: block_node(t[p].span, t[q].span, body),
                                    };
                                    if t[q].tok_of() is Elseif {
                                        let rest = t.subrange(q + 1, t.len() as int);
                                        assert forall|k: int|
                                            0 <= k < rest.len() implies spans_wf(
                                            #[trigger] rest[k],
                                        ) && t[q].span.abs_end as int <= rest[k].span.abs_start
                                            && rest[k].span.abs_end <= tail.abs_start as int by {
                                            assert(rest[k] == t[q + 1 + k]);
                                        }
                                        assert forall|k: int, m: int|
                                            0 <= k < m < rest.len() implies #[trigger] rest[k].span.abs_end
                                            <= #[trigger] rest[m].span.abs_start by {
                                            assert(rest[k] == t[q + 1 + k]);
                                            assert(rest[m] == t[q + 1 + m]);
                                        }
                                        lemma_parse_if_chain_spans(rest, t[q].span, tail);
                                        match parse_if_chain(rest, t[q].span, tail) {
                                            Err(_) => {},
                                            Ok(pair) => {
                                                lemma_arms_spans_widen(
                                                    pair.0,
                                                    CodeSlice::combined(t[q].span, tail),
                                                    outer,
                                                );
                                                let arms = seq![arm] + pair.0;
                                                assert(arms.subrange(1, arms.len() as int)
                                                    =~= pair.0);
                                                assert(arms[0] == arm);
                                                assert(arms[1] == pair.0[0]);
                                                assert(arms_spans_wf(arms, outer));
                                                assert(arms[arms.len() - 1] == pair.0[pair.0.len()
                                                    - 1]);
                                                match pair.1 {
                                                    Some(b) => {
                                                        assert(span_within(b.span, outer));
                                                    },
                                                    None => {},
                                                }
                                            },
                                        }
                                    } else {
                                        let rest = t.subrange(q + 1, t.len() as int);
                                        assert forall|k: int|
                                            0 <= k < rest.len() implies spans_wf(
                                            #[trigger] rest[k],
                                        ) && t[q].span.abs_end as int <= rest[k].span.abs_start
                                            && rest[k].span.abs_end <= tail.abs_start as int by {
                                            assert(rest[k] == t[q + 1 + k]);
                                        }
                                        assert forall|k: int, m: int|
                                            0 <= k < m < rest.len() implies #[trigger] rest[k].span.abs_end
                                            <= #[trigger] rest[m].span.abs_start by {
                                            assert(rest[k] == t[q + 1 + k]);
                                            assert(rest[m] == t[q + 1 + m]);
                                        }
                                        lemma_parse_stmts_spans(
                                            rest,
                                            t[q].span.abs_end as int,
                                            tail.abs_start as int,
                                        );
                                        match parse_stmts_spec(rest) {
                                            Err(_) => {},
                                            Ok(ebody) => {
                                                lemma_block_node_spans(
                                                    t[q].span,
                                                    tail,
                                                    ebody,
                                                    t[q].span.abs_end as int,
                                                    tail.abs_start as int,
                                                );
                                                let arms = seq![arm];
                                                assert(arms.subrange(1, 1) =~= Seq::<
                                                    IfArmV,
                                                >::empty());
                                                assert(arms_spans_wf(
                                                    Seq::<IfArmV>::empty(),
                                                    outer,
                                                ));
                                                assert(arms_spans_wf(arms, outer));
                                            },
                                        }
                                    }
                                },
                            }
                        },
                    }
                },
            }
        },
    }
}

/// A parsed statement sequence is well-nested, ordered and stays within the
/// stream's bounds.
#[verifier::rlimit(100)]
#[verifier::spinoff_prover]
proof fn lemma_parse_stmts_spans(s: Seq<ElemV>, lo: int, hi: int)
    requires
        group_spans_wf(s),
        spans_ordered(s),
        spans_bounded(s, lo, hi),
    ensures
        parse_stmts_spec(s) matches Ok(stmts) ==> group_spans_wf(stmts) && spans_ordered(stmts)
            && spans_bounded(stmts, lo, hi),
    decreases s.len(), 1int,
{
    lemma_first_significant_bounds(s, 0);
    match first_significant(s, 0) {
        None => {},
        Some(i) => {
            assert(spans_wf(s[i]));
            assert(lo <= hi);
            if s[i].is_token() && s[i].tok_of().is_opener() {
                lemma_construct_next_bounds(s, i);
                lemma_parse_construct_spans(s, i, lo, hi);
                let nx = construct_next(s, i);
                let rest = s.subrange(nx, s.len() as int);
                let lo2 = hull_from(s, nx, hi);
                if nx < s.len() {
                    assert(spans_wf(s[nx]));
                }
                assert(lo <= lo2 && lo2 <= hi) by {
                    if nx < s.len() {
                        assert(spans_wf(s[nx]));
                    }
                }
                assert forall|k: int| 0 <= k < rest.len() implies spans_wf(#[trigger] rest[k])
                    && lo2 <= rest[k].span.abs_start && rest[k].span.abs_end <= hi by {
                    assert(rest[k] == s[nx + k]);
                    if k > 0 {
                        assert(s[nx].span.abs_end <= s[nx + k].span.abs_start);
                        assert(spans_wf(s[nx]));
                    }
                }
                assert forall|k: int, m: int|
                    0 <= k < m < rest.len() implies #[trigger] rest[k].span.abs_end
                    <= #[trigger] rest[m].span.abs_start by {
                    assert(rest[k] == s[nx + k]);
                    assert(rest[m] == s[nx + m]);
                }
                lemma_parse_stmts_spans(rest, lo2, hi);
                match parse_construct(s, i) {
                    Err(_) => {},
                    Ok(stmt) => {
                        match parse_stmts_spec(rest) {
                            Err(_) => {},
                            Ok(restst) => {
                                let stmts = seq![stmt] + restst;
                                assert forall|k: int| 0 <= k < stmts.len() implies spans_wf(
                                    #[trigger] stmts[k],
                                ) && lo <= stmts[k].span.abs_start && stmts[k].span.abs_end
                                    <= hi by {
                                    if k > 0 {
                                        assert(stmts[k] == restst[k - 1]);
                                    }
                                }
                                assert forall|k: int, m: int|
                                    0 <= k < m < stmts.len() implies #[trigger] stmts[k].span.abs_end
                                    <= #[trigger] stmts[m].span.abs_start by {
                                    assert(stmts[m] == restst[m - 1]);
                                    if k > 0 {
                                        assert(stmts[k] == restst[k - 1]);
                                    }
                                }
                            },
                        }
                    },
                }
            } else {
                let k0 = find_boundary(s, i);
                lemma_find_boundary_bounds(s, i + 1);
                let sub = s.subrange(i, k0);
                let hull = hull_from(s, k0, hi);
                if k0 < s.len() {
                    assert(spans_wf(s[k0]));
                }
                assert(s[i].span.abs_start as int <= hull && hull <= hi) by {
                    if k0 < s.len() {
                        assert(spans_wf(s[k0]));
                    }
                }
                let sub_lo = s[i].span.abs_start as int;
                assert forall|k: int| 0 <= k < sub.len() implies spans_wf(#[trigger] sub[k])
                    && sub_lo <= sub[k].span.abs_start && sub[k].span.abs_end <= hull by {
                    assert(sub[k] == s[i + k]);
                    if k > 0 {
                        assert(s[i].span.abs_end <= s[i + k].span.abs_start);
                    }
                }
                assert forall|k: int, m: int|
                    0 <= k < m < sub.len() implies #[trigger] sub[k].span.abs_end
                    <= #[trigger] sub[m].span.abs_start by {
                    assert(sub[k] == s[i + k]);
                    assert(sub[m] == s[i + m]);
                }
                lemma_sift_spans(sub, sub_lo, hull);
                let grp = sift(sub);
                law_reduce_keeps_span_nesting(grp);
                let rest = s.subrange(k0, s.len() as int);
                assert forall|k: int| 0 <= k < rest.len() implies spans_wf(#[trigger] rest[k])
                    && hull <= rest[k].span.abs_start && rest[k].span.abs_end <= hi by {
                    assert(rest[k] == s[k0 + k]);
                    if k > 0 {
                        assert(s[k0].span.abs_end <= s[k0 + k].span.abs_start);
                        assert(spans_wf(s[k0]));
                    }
                }
                assert forall|k: int, m: int|
                    0 <= k < m < rest.len() implies #[trigger] rest[k].span.abs_end
                    <= #[trigger] rest[m].span.abs_start by {
                    assert(rest[k] == s[k0 + k]);
                    assert(rest[m] == s[k0 + m]);
                }
                lemma_parse_stmts_spans(rest, hull, hi);
                match reduce_group_spec(grp) {
                    Err(_) => {},
                    Ok(stmt) => {
                        assert(spans_wf(grp[0]));
                        assert(spans_wf(grp[grp.len() - 1]));
                        match parse_stmts_spec(rest) {
                            Err(_) => {},
                            Ok(restst) => {
                                let stmts = seq![stmt] + restst;
                                assert forall|k: int| 0 <= k < stmts.len() implies spans_wf(
                                    #[trigger] stmts[k],
                                ) && lo <= stmts[k].span.abs_start && stmts[k].span.abs_end
                                    <= hi by {
                                    if k > 0 {
                                        assert(stmts[k] == restst[k - 1]);
                                    }
                                }
                                assert forall|k: int, m: int|
                                    0 <= k < m < stmts.len() implies #[trigger] stmts[k].span.abs_end
                                    <= #[trigger] stmts[m].span.abs_start by {
                                    assert(stmts[m] == restst[m - 1]);
                                    if k > 0 {
                                        assert(stmts[k] == restst[k - 1]);
                                    }
                                }
                            },
                        }
                    },
                }
            }
        },
    }
}

/// Round-trip of spans, whole pipeline: when the element stream enters the
/// parser with well-nested, non-overlapping, left-to-right spans, every
/// compound node of the parsed chunk carries a span that covers its
/// children's spans in textual order — each node's source slice contains
/// the slices of all its children, in order.
pub proof fn law_parse_keeps_span_nesting(s: Seq<ElemV>)
    requires
        group_spans_wf(s),
        spans_ordered(s),
    ensures
        parse_chunk_spec(s) matches Ok(c) ==> spans_wf(c),
{
    if s.len() == 0 {
        return ;
    }
    let lo = s[0].span.abs_start as int;
    let hi = s[s.len() - 1].span.abs_end as int;
    assert(spans_wf(s[0]));
    assert(spans_wf(s[s.len() - 1]));
    assert(spans_bounded(s, lo, hi));
    lemma_parse_stmts_spans(s, lo, hi);
    match parse_stmts_spec(s) {
        Err(_) => {},
        Ok(stmts) => {
            if stmts.len() > 0 {
                match find_bad_mid(stmts, 0) {
                    Some(_) => {},
                    None => {
                        let last = stmts[stmts.len() - 1];
                        assert(spans_wf(stmts[0]));
                        assert(spans_wf(last));
                        if last.is_true_statement() || last.is_terminal_statement() {
                            let c = ElemV {
                                span: CodeSlice::combined(stmts[0].span, last.span),
                                kind: KindV::Chunk(stmts),
                            };
                            lemma_all_spans_wf(stmts);
                            assert forall|k: int| 0 <= k < stmts.len() implies c.span.abs_start
                                as int <= #[trigger] stmts[k].span.abs_start
                                && stmts[k].span.abs_end <= c.span.abs_end as int by {
                                assert(spans_wf(stmts[k]));
                                if k > 0 {
                                    assert(stmts[0].span.abs_end <= stmts[k].span.abs_start);
                                }
                                if k < stmts.len() - 1 {
                                    assert(stmts[k].span.abs_end <= last.span.abs_start);
                                }
                            }
                            assert(spans_wf(c));
                        }
                    },
                }
            }
        },
    }
}

/// Round-trip of spans, from the scanned tokens: when the tokens carry
/// well-formed, non-overlapping, left-to-right spans, the parsed chunk is
/// well-nested throughout.
pub proof fn law_parse_tokens_keeps_span_nesting(ts: Seq<CodeTokV>)
    requires
        forall|k: int| 0 <= k < ts.len() ==> (#[trigger] ts[k].span).wf(),
        forall|k: int, m: int|
            0 <= k < m < ts.len() ==> ts[k].span.abs_end <= ts[m].span.abs_start,
    ensures
        parse_tokens_spec(ts) matches Ok(c) ==> spans_wf(c),
{
    let s = promote_all(ts);
    lemma_promote_all_len(ts);
    assert forall|k: int| 0 <= k < s.len() implies spans_wf(#[trigger] s[k]) by {
        lemma_promote_all_index(ts, k);
        assert(s[k] == ElemV::promoted(ts[k]));
    }
    assert forall|k: int, m: int| 0 <= k < m < s.len() implies s[k].span.abs_end
        <= s[m].span.abs_start by {
        lemma_promote_all_index(ts, k);
        lemma_promote_all_index(ts, m);
    }
    law_parse_keeps_span_nesting(s);
}

} // verus!
