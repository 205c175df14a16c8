//! The grammar-element type: the tagged union over tokens, expressions,
//! statements, blocks and chunks, each instance carrying one source slice,
//! together with its mathematical model.

use vstd::prelude::*;

use crate::codeslice::CodeSlice;
use crate::token::{CodeTokV, CodeToken, TokV, Token};

verus! {

/// A node of the grammar: a raw token, or a compound node built by a
/// reduction step.  Every element carries the source slice covering its full
/// extent.
#[derive(Debug, PartialEq)]
pub struct GrammarElement {
    pub kind: ElementKind,
    pub span: CodeSlice,
}

/// The variants a grammar element ranges over.
#[derive(Debug, PartialEq)]
pub enum ElementKind {
    /// A raw token that is not by itself an expression.
    Token(Token),
    /// A reduced expression.
    Expression(ExprKind),
    /// A reduced statement.
    Statement(StmtKind),
    /// A reduced statement sequence nested inside a block statement.
    Block(Vec<GrammarElement>),
    /// The top-level parse result: the validated statement sequence.
    Chunk(Vec<GrammarElement>),
}

/// The expression forms.
#[derive(Debug, PartialEq)]
pub enum ExprKind {
    /// A literal token: a number, a string, `true`, `false` or `nil`.
    Literal(Token),
    /// A variable reference by name.
    Var(String),
    /// A unary operator applied to one operand.
    Unary { op: Token, operand: Box<GrammarElement> },
    /// A binary operator applied to two operands.
    Binary { op: Token, left: Box<GrammarElement>, right: Box<GrammarElement> },
    /// Part of the node alphabet; the engine does not reduce calls yet.
    FunctionCall,
    /// Part of the node alphabet; the engine does not reduce table
    /// constructors yet.
    TableConstructor,
}

/// The statement forms.
#[derive(Debug, PartialEq)]
pub enum StmtKind {
    /// `targets = values`, optionally preceded by `local`.
    Assignment { targets: Vec<GrammarElement>, values: Vec<GrammarElement>, is_local: bool },
    /// `do body end`; the body is a [`ElementKind::Block`] element.
    DoEnd { body: Box<GrammarElement> },
    /// `while condition do body end`.
    WhileDoEnd { condition: Box<GrammarElement>, body: Box<GrammarElement> },
    /// `repeat body until condition`.
    RepeatUntil { body: Box<GrammarElement>, condition: Box<GrammarElement> },
    /// `if c then b {elseif c then b} [else b] end`.
    IfChain { arms: Vec<IfArm>, else_body: Option<Box<GrammarElement>> },
    /// Part of the node alphabet; the engine reports `for` loops as an
    /// unsupported construct.
    ForLoop,
    /// Part of the node alphabet; the engine reports function definitions as
    /// an unsupported construct.
    FunctionDef,
    /// `return values`; only valid as the last statement of a chunk.
    Return { values: Vec<GrammarElement> },
    /// `break`; only valid as the last statement of a chunk.
    Break,
}

/// One `if`/`elseif` arm: a condition and the block it guards.
#[derive(Debug, PartialEq)]
pub struct IfArm {
    pub condition: GrammarElement,
    pub body: GrammarElement,
}

/// The mathematical value of a [`GrammarElement`].
pub struct ElemV {
    pub kind: KindV,
    pub span: CodeSlice,
}

/// The mathematical value of an [`ElementKind`].
pub enum KindV {
    Token(TokV),
    Expression(ExprV),
    Statement(StmtV),
    Block(Seq<ElemV>),
    Chunk(Seq<ElemV>),
}

/// The mathematical value of an [`ExprKind`].
pub enum ExprV {
    Literal(TokV),
    Var(Seq<char>),
    Unary { op: TokV, operand: Box<ElemV> },
    Binary { op: TokV, left: Box<ElemV>, right: Box<ElemV> },
    FunctionCall,
    TableConstructor,
}

/// The mathematical value of a [`StmtKind`].
pub enum StmtV {
    Assignment { targets: Seq<ElemV>, values: Seq<ElemV>, is_local: bool },
    DoEnd { body: Box<ElemV> },
    WhileDoEnd { condition: Box<ElemV>, body: Box<ElemV> },
    RepeatUntil { body: Box<ElemV>, condition: Box<ElemV> },
    IfChain { arms: Seq<IfArmV>, else_body: Option<Box<ElemV>> },
    ForLoop,
    FunctionDef,
    Return { values: Seq<ElemV> },
    Break,
}

/// The mathematical value of an [`IfArm`].
pub struct IfArmV {
    pub condition: ElemV,
    pub body: ElemV,
}

/// The mathematical value of a grammar element.
pub open spec fn dv_elem(e: GrammarElement) -> ElemV
    decreases e,
{
    ElemV { kind: dv_kind(e.kind), span: e.span }
}

/// The mathematical value of an element kind.
pub open spec fn dv_kind(k: ElementKind) -> KindV
    decreases k,
{
    match k {
        ElementKind::Token(t) => KindV::Token(t@),
        ElementKind::Expression(x) => KindV::Expression(dv_expr(x)),
        ElementKind::Statement(s) => KindV::Statement(dv_stmt(s)),
        ElementKind::Block(v) => KindV::Block(dv_elems(v@)),
        ElementKind::Chunk(v) => KindV::Chunk(dv_elems(v@)),
    }
}

/// The mathematical value of an expression form.
pub open spec fn dv_expr(x: ExprKind) -> ExprV
    decreases x,
{
    match x {
        ExprKind::Literal(t) => ExprV::Literal(t@),
        ExprKind::Var(s) => ExprV::Var(s@),
        ExprKind::Unary { op, operand } => ExprV::Unary {
            op: op@,
            operand: Box::new(dv_elem(*operand)),
        },
        ExprKind::Binary { op, left, right } => ExprV::Binary {
            op: op@,
            left: Box::new(dv_elem(*left)),
            right: Box::new(dv_elem(*right)),
        },
        ExprKind::FunctionCall => ExprV::FunctionCall,
        ExprKind::TableConstructor => ExprV::TableConstructor,
    }
}

/// The mathematical value of a statement form.
pub open spec fn dv_stmt(s: StmtKind) -> StmtV
    decreases s,
{
    match s {
        StmtKind::Assignment { targets, values, is_local } => StmtV::Assignment {
            targets: dv_elems(targets@),
            values: dv_elems(values@),
            is_local,
        },
        StmtKind::DoEnd { body } => StmtV::DoEnd { body: Box::new(dv_elem(*body)) },
        StmtKind::WhileDoEnd { condition, body } => StmtV::WhileDoEnd {
            condition: Box::new(dv_elem(*condition)),
            body: Box::new(dv_elem(*body)),
        },
        StmtKind::RepeatUntil { body, condition } => StmtV::RepeatUntil {
            body: Box::new(dv_elem(*body)),
            condition: Box::new(dv_elem(*condition)),
        },
        StmtKind::IfChain { arms, else_body } => StmtV::IfChain {
            arms: dv_arms(arms@),
            else_body: match else_body {
                Some(b) => Some(Box::new(dv_elem(*b))),
                None => None,
            },
        },
        StmtKind::ForLoop => StmtV::ForLoop,
        StmtKind::FunctionDef => StmtV::FunctionDef,
        StmtKind::Return { values } => StmtV::Return { values: dv_elems(values@) },
        StmtKind::Break => StmtV::Break,
    }
}

/// The mathematical value of an element sequence, element by element.
pub open spec fn dv_elems(s: Seq<GrammarElement>) -> Seq<ElemV>
    decreases s,
{
    if s.len() == 0 {
        Seq::empty()
    } else {
        seq![dv_elem(s[0])] + dv_elems(s.subrange(1, s.len() as int))
    }
}

/// The mathematical value of an arm sequence, arm by arm.
pub open spec fn dv_arms(s: Seq<IfArm>) -> Seq<IfArmV>
    decreases s,
{
    if s.len() == 0 {
        Seq::empty()
    } else {
        seq![dv_arm(s[0])] + dv_arms(s.subrange(1, s.len() as int))
    }
}

/// An element sequence and its mathematical value have the same length.
pub broadcast proof fn lemma_dv_elems_len(s: Seq<GrammarElement>)
    ensures
        #[trigger] dv_elems(s).len() == s.len(),
    decreases s.len(),
{
    if s.len() > 0 {
        lemma_dv_elems_len(s.subrange(1, s.len() as int));
    }
}

/// The mathematical value of an element sequence, at each index, is the
/// value of the element there.
pub broadcast proof fn lemma_dv_elems_index(s: Seq<GrammarElement>, i: int)
    requires
        0 <= i < s.len(),
    ensures
        #[trigger] dv_elems(s)[i] == dv_elem(s[i]),
    decreases s.len(),
{
    lemma_dv_elems_len(s);
    if i > 0 {
        lemma_dv_elems_index(s.subrange(1, s.len() as int), i - 1);
    }
}

/// An arm sequence and its mathematical value have the same length.
pub broadcast proof fn lemma_dv_arms_len(s: Seq<IfArm>)
    ensures
        #[trigger] dv_arms(s).len() == s.len(),
    decreases s.len(),
{
    if s.len() > 0 {
        lemma_dv_arms_len(s.subrange(1, s.len() as int));
    }
}

/// The mathematical value of an arm sequence, at each index, is the value of
/// the arm there.
pub broadcast proof fn lemma_dv_arms_index(s: Seq<IfArm>, i: int)
    requires
        0 <= i < s.len(),
    ensures
        #[trigger] dv_arms(s)[i] == dv_arm(s[i]),
    decreases s.len(),
{
    lemma_dv_arms_len(s);
    if i > 0 {
        lemma_dv_arms_index(s.subrange(1, s.len() as int), i - 1);
    }
}

/// The mathematical value of a subrange of an element sequence is the
/// subrange of its mathematical value.
pub broadcast proof fn lemma_dv_elems_subrange(s: Seq<GrammarElement>, a: int, b: int)
    requires
        0 <= a <= b <= s.len(),
    ensures
        #[trigger] dv_elems(s.subrange(a, b)) == dv_elems(s).subrange(a, b),
{
    broadcast use lemma_dv_elems_len, lemma_dv_elems_index;

    assert forall|k: int| 0 <= k < b - a implies dv_elems(s.subrange(a, b))[k] == dv_elems(
        s,
    ).subrange(a, b)[k] by {
        assert(s.subrange(a, b)[k] == s[a + k]);
    }
    assert(dv_elems(s.subrange(a, b)) =~= dv_elems(s).subrange(a, b));
}

/// The mathematical value of an element sequence distributes over
/// appending one element.
pub broadcast proof fn lemma_dv_elems_push(s: Seq<GrammarElement>, e: GrammarElement)
    ensures
        #[trigger] dv_elems(s.push(e)) == dv_elems(s).push(dv_elem(e)),
{
    broadcast use lemma_dv_elems_len, lemma_dv_elems_index;

    assert forall|k: int| 0 <= k < s.len() + 1 implies dv_elems(s.push(e))[k] == dv_elems(s).push(
        dv_elem(e),
    )[k] by {
        if k < s.len() {
            assert(s.push(e)[k] == s[k]);
        } else {
            assert(s.push(e)[k] == e);
        }
    }
    assert(dv_elems(s.push(e)) =~= dv_elems(s).push(dv_elem(e)));
}

/// The mathematical value of an `if` arm.
pub open spec fn dv_arm(a: IfArm) -> IfArmV
    decreases a,
{
    IfArmV { condition: dv_elem(a.condition), body: dv_elem(a.body) }
}

impl View for GrammarElement {
    type V = ElemV;

    open spec fn view(&self) -> ElemV {
        dv_elem(*self)
    }
}

impl View for IfArm {
    type V = IfArmV;

    open spec fn view(&self) -> IfArmV {
        dv_arm(*self)
    }
}

impl ElemV {
    /// The element is a reduced expression.
    pub open spec fn is_expression(self) -> bool {
        self.kind is Expression
    }

    /// The element is a reduced statement of any form.
    pub open spec fn is_statement(self) -> bool {
        self.kind is Statement
    }

    /// The element is a terminal statement: `return` or `break`, only valid
    /// in the last position of a chunk.
    pub open spec fn is_terminal_statement(self) -> bool {
        self.kind matches KindV::Statement(s) && (s is Return || s is Break)
    }

    /// The element is a true statement: a statement other than a terminal
    /// one.
    pub open spec fn is_true_statement(self) -> bool {
        self.kind matches KindV::Statement(s) && !(s is Return || s is Break)
    }

    /// The element is a variable reference.
    pub open spec fn is_var(self) -> bool {
        self.kind matches KindV::Expression(x) && x is Var
    }

    /// The element is a raw token.
    pub open spec fn is_token(self) -> bool {
        self.kind is Token
    }

    /// The token of a raw-token element.
    pub open spec fn tok_of(self) -> TokV
        recommends
            self.is_token(),
    {
        match self.kind {
            KindV::Token(t) => t,
            _ => arbitrary(),
        }
    }

    /// The element is fully reduced: an expression or a statement.
    pub open spec fn is_reduced(self) -> bool {
        self.is_expression() || self.is_statement()
    }

    /// The element a token promotes to when it enters a working group:
    /// literal tokens become literal expressions, identifiers become variable
    /// references, every other token stays a raw token element.
    pub open spec fn promoted(t: CodeTokV) -> ElemV {
        ElemV {
            span: t.span,
            kind: match t.token {
                TokV::Identifier(s) => KindV::Expression(ExprV::Var(s)),
                TokV::Number(s) => KindV::Expression(ExprV::Literal(TokV::Number(s))),
                TokV::String(s) => KindV::Expression(ExprV::Literal(TokV::String(s))),
                TokV::MultiLineString(s) => KindV::Expression(
                    ExprV::Literal(TokV::MultiLineString(s)),
                ),
                TokV::True => KindV::Expression(ExprV::Literal(TokV::True)),
                TokV::False => KindV::Expression(ExprV::Literal(TokV::False)),
                TokV::Nil => KindV::Expression(ExprV::Literal(TokV::Nil)),
                other => KindV::Token(other),
            },
        }
    }

    /// The binary node built from an `expression, operator, expression`
    /// triple, if the triple matches; its span combines the operand spans.
    pub open spec fn binary_created(l: ElemV, o: ElemV, r: ElemV) -> Option<ElemV> {
        if l.is_expression() && r.is_expression() && o.is_token() && o.tok_of().is_binop() {
            Some(
                ElemV {
                    span: CodeSlice::combined(l.span, r.span),
                    kind: KindV::Expression(
                        ExprV::Binary { op: o.tok_of(), left: Box::new(l), right: Box::new(r) },
                    ),
                },
            )
        } else {
            None
        }
    }

    /// The unary node built from an `operator, expression` pair, if the pair
    /// matches; its span runs from the operator to the operand.
    pub open spec fn unary_created(o: ElemV, operand: ElemV) -> Option<ElemV> {
        if operand.is_expression() && o.is_token() && o.tok_of().is_unop() {
            Some(
                ElemV {
                    span: CodeSlice::combined(o.span, operand.span),
                    kind: KindV::Expression(
                        ExprV::Unary { op: o.tok_of(), operand: Box::new(operand) },
                    ),
                },
            )
        } else {
            None
        }
    }
}

impl GrammarElement {
    /// Builds the element a scanned token enters the pipeline as; literal
    /// tokens are promoted to expressions.
    pub fn from_token(t: CodeToken) -> (r: GrammarElement)
        ensures
            r@ == ElemV::promoted(t@),
    {
        let CodeToken { token, span } = t;
        let kind = match token {
            Token::Identifier(s) => ElementKind::Expression(ExprKind::Var(s)),
            Token::Number(s) => ElementKind::Expression(ExprKind::Literal(Token::Number(s))),
            Token::String(s) => ElementKind::Expression(ExprKind::Literal(Token::String(s))),
            Token::MultiLineString(s) => ElementKind::Expression(
                ExprKind::Literal(Token::MultiLineString(s)),
            ),
            Token::True => ElementKind::Expression(ExprKind::Literal(Token::True)),
            Token::False => ElementKind::Expression(ExprKind::Literal(Token::False)),
            Token::Nil => ElementKind::Expression(ExprKind::Literal(Token::Nil)),
            other => ElementKind::Token(other),
        };
        GrammarElement { kind, span }
    }

    /// The token of a raw-token element, or nothing for a compound node.
    pub fn elem_tok(&self) -> (r: Option<&Token>)
        ensures
            match r {
                Some(t) => self@.is_token() && t@ == self@.tok_of(),
                None => !self@.is_token(),
            },
    {
        match &self.kind {
            ElementKind::Token(t) => Some(t),
            _ => None,
        }
    }

    /// True of raw-token elements holding the `break` token.
    pub fn tok_is_break(&self) -> (b: bool)
        ensures
            b == (self@.is_token() && self@.tok_of() is Break),
    {
        match self.elem_tok() {
            Some(t) => t.is_break(),
            None => false,
        }
    }

    /// True of raw-token elements holding the `return` token.
    pub fn tok_is_return(&self) -> (b: bool)
        ensures
            b == (self@.is_token() && self@.tok_of() is Return),
    {
        match self.elem_tok() {
            Some(t) => t.is_return(),
            None => false,
        }
    }

    /// True of raw-token elements holding the `local` token.
    pub fn tok_is_local(&self) -> (b: bool)
        ensures
            b == (self@.is_token() && self@.tok_of() is Local),
    {
        match self.elem_tok() {
            Some(t) => t.is_local(),
            None => false,
        }
    }

    /// True of raw-token elements holding the `equal` token.
    pub fn tok_is_equal(&self) -> (b: bool)
        ensures
            b == (self@.is_token() && self@.tok_of() is Equal),
    {
        match self.elem_tok() {
            Some(t) => t.is_equal(),
            None => false,
        }
    }

    /// True of raw-token elements holding the `comma` token.
    pub fn tok_is_comma(&self) -> (b: bool)
        ensures
            b == (self@.is_token() && self@.tok_of() is Comma),
    {
        match self.elem_tok() {
            Some(t) => t.is_comma(),
            None => false,
        }
    }

    /// True of raw-token elements holding the `do` token.
    pub fn tok_is_do(&self) -> (b: bool)
        ensures
            b == (self@.is_token() && self@.tok_of() is Do),
    {
        match self.elem_tok() {
            Some(t) => t.is_do(),
            None => false,
        }
    }

    /// True of raw-token elements holding the `while` token.
    pub fn tok_is_while(&self) -> (b: bool)
        ensures
            b == (self@.is_token() && self@.tok_of() is While),
    {
        match self.elem_tok() {
            Some(t) => t.is_while(),
            None => false,
        }
    }

    /// True of raw-token elements holding the `repeat` token.
    pub fn tok_is_repeat(&self) -> (b: bool)
        ensures
            b == (self@.is_token() && self@.tok_of() is Repeat),
    {
        match self.elem_tok() {
            Some(t) => t.is_repeat(),
            None => false,
        }
    }

    /// True of raw-token elements holding the `if` token.
    pub fn tok_is_if(&self) -> (b: bool)
        ensures
            b == (self@.is_token() && self@.tok_of() is If),
    {
        match self.elem_tok() {
            Some(t) => t.is_if(),
            None => false,
        }
    }

    /// True of raw-token elements holding the `for` token.
    pub fn tok_is_for(&self) -> (b: bool)
        ensures
            b == (self@.is_token() && self@.tok_of() is For),
    {
        match self.elem_tok() {
            Some(t) => t.is_for(),
            None => false,
        }
    }

    /// True of raw-token elements holding the `function` token.
    pub fn tok_is_function(&self) -> (b: bool)
        ensures
            b == (self@.is_token() && self@.tok_of() is Function),
    {
        match self.elem_tok() {
            Some(t) => t.is_function(),
            None => false,
        }
    }

    /// True of raw-token elements holding the `end` token.
    pub fn tok_is_end(&self) -> (b: bool)
        ensures
            b == (self@.is_token() && self@.tok_of() is End),
    {
        match self.elem_tok() {
            Some(t) => t.is_end(),
            None => false,
        }
    }

    /// True of raw-token elements holding the `until` token.
    pub fn tok_is_until(&self) -> (b: bool)
        ensures
            b == (self@.is_token() && self@.tok_of() is Until),
    {
        match self.elem_tok() {
            Some(t) => t.is_until(),
            None => false,
        }
    }

    /// True of raw-token elements holding the `then` token.
    pub fn tok_is_then(&self) -> (b: bool)
        ensures
            b == (self@.is_token() && self@.tok_of() is Then),
    {
        match self.elem_tok() {
            Some(t) => t.is_then(),
            None => false,
        }
    }

    /// True of raw-token elements holding the `elseif` token.
    pub fn tok_is_elseif(&self) -> (b: bool)
        ensures
            b == (self@.is_token() && self@.tok_of() is Elseif),
    {
        match self.elem_tok() {
            Some(t) => t.is_elseif(),
            None => false,
        }
    }

    /// True of raw-token elements holding the `else` token.
    pub fn tok_is_else(&self) -> (b: bool)
        ensures
            b == (self@.is_token() && self@.tok_of() is Else),
    {
        match self.elem_tok() {
            Some(t) => t.is_else(),
            None => false,
        }
    }

    /// True of raw-token elements that segmentation drops.
    pub fn tok_is_noise(&self) -> (b: bool)
        ensures
            b == (self@.is_token() && self@.tok_of().is_noise()),
    {
        match self.elem_tok() {
            Some(t) => t.is_noise(),
            None => false,
        }
    }

    /// True of raw-token elements that close a statement-candidate group.
    pub fn tok_is_boundary(&self) -> (b: bool)
        ensures
            b == (self@.is_token() && self@.tok_of().is_boundary()),
    {
        match self.elem_tok() {
            Some(t) => t.is_boundary(),
            None => false,
        }
    }

    /// True of raw-token elements that open a block statement.
    pub fn tok_is_opener(&self) -> (b: bool)
        ensures
            b == (self@.is_token() && self@.tok_of().is_opener()),
    {
        match self.elem_tok() {
            Some(t) => t.is_opener(),
            None => false,
        }
    }

    /// True of raw-token elements that increment the block-nesting depth.
    pub fn tok_opens_depth(&self) -> (b: bool)
        ensures
            b == (self@.is_token() && self@.tok_of().opens_depth()),
    {
        match self.elem_tok() {
            Some(t) => t.opens_depth(),
            None => false,
        }
    }

    /// True of raw-token elements that decrement the block-nesting depth.
    pub fn tok_closes_depth(&self) -> (b: bool)
        ensures
            b == (self@.is_token() && self@.tok_of().closes_depth()),
    {
        match self.elem_tok() {
            Some(t) => t.closes_depth(),
            None => false,
        }
    }

    /// True of raw-token elements whose token is a unary operator.
    pub fn is_unop_token(&self) -> (b: bool)
        ensures
            b == (self@.is_token() && self@.tok_of().is_unop()),
    {
        match &self.kind {
            ElementKind::Token(t) => t.is_unop(),
            _ => false,
        }
    }

    /// The binary-operator tier of a raw-token element, 0 to 6; 7 for any
    /// other element.
    pub fn binop_tier_of(&self) -> (t: u8)
        ensures
            t as int == if self@.is_token() {
                self@.tok_of().binop_tier()
            } else {
                7
            },
    {
        match &self.kind {
            ElementKind::Token(t) => t.binop_tier(),
            _ => 7,
        }
    }

    /// True of reduced expressions.
    pub fn is_expression(&self) -> (b: bool)
        ensures
            b == self@.is_expression(),
    {
        match &self.kind {
            ElementKind::Expression(_) => true,
            _ => false,
        }
    }

    /// True of reduced statements of any form.
    pub fn is_statement(&self) -> (b: bool)
        ensures
            b == self@.is_statement(),
    {
        match &self.kind {
            ElementKind::Statement(_) => true,
            _ => false,
        }
    }

    /// True of terminal statements: `return` or `break`.
    pub fn is_terminal_statement(&self) -> (b: bool)
        ensures
            b == self@.is_terminal_statement(),
    {
        match &self.kind {
            ElementKind::Statement(StmtKind::Return { .. }) | ElementKind::Statement(
                StmtKind::Break,
            ) => true,
            _ => false,
        }
    }

    /// True of statements other than terminal ones.
    pub fn is_true_statement(&self) -> (b: bool)
        ensures
            b == self@.is_true_statement(),
    {
        match &self.kind {
            ElementKind::Statement(StmtKind::Return { .. }) | ElementKind::Statement(
                StmtKind::Break,
            ) => false,
            ElementKind::Statement(_) => true,
            _ => false,
        }
    }

    /// True of variable references.
    pub fn is_var(&self) -> (b: bool)
        ensures
            b == self@.is_var(),
    {
        match &self.kind {
            ElementKind::Expression(ExprKind::Var(_)) => true,
            _ => false,
        }
    }

    /// Builds the binary node for an `expression, operator, expression`
    /// triple, or nothing when the triple does not match.
    pub fn create_binary(left: GrammarElement, op: GrammarElement, right: GrammarElement) -> (r:
        Option<GrammarElement>)
        ensures
            match r {
                Some(e) => ElemV::binary_created(left@, op@, right@) == Some(e@),
                None => ElemV::binary_created(left@, op@, right@) is None,
            },
    {
        if !left.is_expression() || !right.is_expression() {
            return None;
        }
        match op.kind {
            ElementKind::Token(t) => {
                if t.is_binop() {
                    let span = CodeSlice::create_from(&left.span, &right.span);
                    Some(
                        GrammarElement {
                            span,
                            kind: ElementKind::Expression(
                                ExprKind::Binary {
                                    op: t,
                                    left: Box::new(left),
                                    right: Box::new(right),
                                },
                            ),
                        },
                    )
                } else {
                    None
                }
            },
            _ => None,
        }
    }

    /// Builds the unary node for an `operator, expression` pair, or nothing
    /// when the pair does not match.
    pub fn create_unary(op: GrammarElement, operand: GrammarElement) -> (r: Option<
        GrammarElement,
    >)
        ensures
            match r {
                Some(e) => ElemV::unary_created(op@, operand@) == Some(e@),
                None => ElemV::unary_created(op@, operand@) is None,
            },
    {
        if !operand.is_expression() {
            return None;
        }
        match op.kind {
            ElementKind::Token(t) => {
                if t.is_unop() {
                    let span = CodeSlice::create_from(&op.span, &operand.span);
                    Some(
                        GrammarElement {
                            span,
                            kind: ElementKind::Expression(
                                ExprKind::Unary { op: t, operand: Box::new(operand) },
                            ),
                        },
                    )
                } else {
                    None
                }
            },
            _ => None,
        }
    }
}

} // verus!
