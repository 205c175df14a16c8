//! The lexical alphabet: operators, punctuation, keywords, literals and
//! structural markers, together with their mathematical model.

use vstd::prelude::*;

use crate::codeslice::CodeSlice;

verus! {

/// A lexical token.  Literal payloads carry the text they were scanned from;
/// tokens are immutable once produced.
#[derive(Debug, Clone, PartialEq)]
pub enum Token {
    // single-character tokens
    Plus,
    Minus,
    Star,
    Slash,
    Percent,
    Carrot,
    Pound,
    LessThan,
    GreaterThan,
    Equal,
    LeftParen,
    RightParen,
    LeftMoustache,
    RightMoustache,
    LeftBracket,
    RightBracket,
    SemiColon,
    Colon,
    Comma,
    Period,
    // double-character tokens
    DoublePeriod,
    EqualEqual,
    NotEqual,
    GreaterEqual,
    LessEqual,
    // triple-character tokens
    TriplePeriod,
    // keywords
    And,
    Break,
    Do,
    Else,
    Elseif,
    End,
    False,
    For,
    Function,
    If,
    In,
    Local,
    Nil,
    Not,
    Or,
    Repeat,
    Return,
    Then,
    True,
    Until,
    While,
    // literals
    Identifier(String),
    String(String),
    Number(String),
    MultiLineString(String),
    // other
    Comment(String),
    WhiteSpace,
    // structural markers
    EOL,
    EOF,
}

/// The mathematical value of a [`Token`]: the same tags, with literal
/// payloads as character sequences.
pub enum TokV {
    Plus,
    Minus,
    Star,
    Slash,
    Percent,
    Carrot,
    Pound,
    LessThan,
    GreaterThan,
    Equal,
    LeftParen,
    RightParen,
    LeftMoustache,
    RightMoustache,
    LeftBracket,
    RightBracket,
    SemiColon,
    Colon,
    Comma,
    Period,
    DoublePeriod,
    EqualEqual,
    NotEqual,
    GreaterEqual,
    LessEqual,
    TriplePeriod,
    And,
    Break,
    Do,
    Else,
    Elseif,
    End,
    False,
    For,
    Function,
    If,
    In,
    Local,
    Nil,
    Not,
    Or,
    Repeat,
    Return,
    Then,
    True,
    Until,
    While,
    Identifier(Seq<char>),
    String(Seq<char>),
    Number(Seq<char>),
    MultiLineString(Seq<char>),
    Comment(Seq<char>),
    WhiteSpace,
    EOL,
    EOF,
}

impl View for Token {
    type V = TokV;

    open spec fn view(&self) -> TokV {
        match self {
            Token::Plus => TokV::Plus,
            Token::Minus => TokV::Minus,
            Token::Star => TokV::Star,
            Token::Slash => TokV::Slash,
            Token::Percent => TokV::Percent,
            Token::Carrot => TokV::Carrot,
            Token::Pound => TokV::Pound,
            Token::LessThan => TokV::LessThan,
            Token::GreaterThan => TokV::GreaterThan,
            Token::Equal => TokV::Equal,
            Token::LeftParen => TokV::LeftParen,
            Token::RightParen => TokV::RightParen,
            Token::LeftMoustache => TokV::LeftMoustache,
            Token::RightMoustache => TokV::RightMoustache,
            Token::LeftBracket => TokV::LeftBracket,
            Token::RightBracket => TokV::RightBracket,
            Token::SemiColon => TokV::SemiColon,
            Token::Colon => TokV::Colon,
            Token::Comma => TokV::Comma,
            Token::Period => TokV::Period,
            Token::DoublePeriod => TokV::DoublePeriod,
            Token::EqualEqual => TokV::EqualEqual,
            Token::NotEqual => TokV::NotEqual,
            Token::GreaterEqual => TokV::GreaterEqual,
            Token::LessEqual => TokV::LessEqual,
            Token::TriplePeriod => TokV::TriplePeriod,
            Token::And => TokV::And,
            Token::Break => TokV::Break,
            Token::Do => TokV::Do,
            Token::Else => TokV::Else,
            Token::Elseif => TokV::Elseif,
            Token::End => TokV::End,
            Token::False => TokV::False,
            Token::For => TokV::For,
            Token::Function => TokV::Function,
            Token::If => TokV::If,
            Token::In => TokV::In,
            Token::Local => TokV::Local,
            Token::Nil => TokV::Nil,
            Token::Not => TokV::Not,
            Token::Or => TokV::Or,
            Token::Repeat => TokV::Repeat,
            Token::Return => TokV::Return,
            Token::Then => TokV::Then,
            Token::True => TokV::True,
            Token::Until => TokV::Until,
            Token::While => TokV::While,
            Token::Identifier(s) => TokV::Identifier(s@),
            Token::String(s) => TokV::String(s@),
            Token::Number(s) => TokV::Number(s@),
            Token::MultiLineString(s) => TokV::MultiLineString(s@),
            Token::Comment(s) => TokV::Comment(s@),
            Token::WhiteSpace => TokV::WhiteSpace,
            Token::EOL => TokV::EOL,
            Token::EOF => TokV::EOF,
        }
    }
}

/// A token together with the source range it was scanned from.
#[derive(Debug, Clone, PartialEq)]
pub struct CodeToken {
    pub token: Token,
    pub span: CodeSlice,
}

/// The mathematical value of a [`CodeToken`].
pub struct CodeTokV {
    pub token: TokV,
    pub span: CodeSlice,
}

impl View for CodeToken {
    type V = CodeTokV;

    open spec fn view(&self) -> CodeTokV {
        CodeTokV { token: self.token@, span: self.span }
    }
}

impl CodeToken {
    /// Pairs a token with its source range.
    pub fn new(token: Token, span: CodeSlice) -> (r: CodeToken)
        ensures
            r@ == (CodeTokV { token: token@, span }),
    {
        CodeToken { token, span }
    }
}

impl TokV {
    /// Tokens that never reach the reducer: they are dropped during
    /// segmentation.
    pub open spec fn is_noise(self) -> bool {
        self is WhiteSpace || self is Comment
    }

    /// Tokens that close a statement-candidate group: a line end, a statement
    /// separator, or the end of the input.
    pub open spec fn is_boundary(self) -> bool {
        self is EOL || self is SemiColon || self is EOF
    }

    /// Tokens that stand for a complete expression by themselves.
    pub open spec fn is_literal(self) -> bool {
        self is Number || self is String || self is MultiLineString || self is True
            || self is False || self is Nil
    }

    /// Unary operators.
    pub open spec fn is_unop(self) -> bool {
        self is Minus || self is Not || self is Pound
    }

    /// The precedence tier of a binary operator, tightest (0) to loosest (6);
    /// 7 for a token that is no binary operator.
    pub open spec fn binop_tier(self) -> int {
        match self {
            TokV::Carrot => 0,
            TokV::Star | TokV::Slash => 1,
            TokV::Plus | TokV::Minus => 2,
            TokV::DoublePeriod => 3,
            TokV::LessThan | TokV::GreaterThan | TokV::LessEqual | TokV::GreaterEqual
                | TokV::NotEqual | TokV::EqualEqual => 4,
            TokV::And => 5,
            TokV::Or => 6,
            _ => 7,
        }
    }

    /// Binary operators.
    pub open spec fn is_binop(self) -> bool {
        self.binop_tier() < 7
    }

    /// Keywords that open a block statement.
    pub open spec fn is_opener(self) -> bool {
        self is Do || self is While || self is Repeat || self is If || self is For
            || self is Function
    }

    /// Keywords that increment the block-nesting depth while scanning for a
    /// matching closer.  `while` and `for` do not count here: the `do` that
    /// opens their body does.
    pub open spec fn opens_depth(self) -> bool {
        self is Do || self is If || self is Function || self is Repeat
    }

    /// Keywords that decrement the block-nesting depth.
    pub open spec fn closes_depth(self) -> bool {
        self is End || self is Until
    }

    /// The number of characters the token occupies when displayed.
    pub open spec fn display_len(self) -> int {
        match self {
            TokV::Plus | TokV::Minus | TokV::Star | TokV::Slash | TokV::Percent | TokV::Carrot
                | TokV::Pound | TokV::LessThan | TokV::GreaterThan | TokV::Equal
                | TokV::LeftParen | TokV::RightParen | TokV::LeftMoustache | TokV::RightMoustache
                | TokV::LeftBracket | TokV::RightBracket | TokV::SemiColon | TokV::Colon
                | TokV::Comma | TokV::Period | TokV::WhiteSpace => 1,
            TokV::DoublePeriod | TokV::EqualEqual | TokV::NotEqual | TokV::GreaterEqual
                | TokV::LessEqual | TokV::Do | TokV::In | TokV::If | TokV::Or => 2,
            TokV::TriplePeriod | TokV::And | TokV::End | TokV::For | TokV::Nil | TokV::Not => 3,
            TokV::Else | TokV::Then | TokV::True => 4,
            TokV::Break | TokV::Until | TokV::While | TokV::False | TokV::Local => 5,
            TokV::Elseif | TokV::Repeat | TokV::Return => 6,
            TokV::Function => 8,
            TokV::EOL | TokV::EOF => 0,
            TokV::Identifier(s) => s.len() as int,
            TokV::String(s) => s.len() + 2int,
            TokV::Number(s) => s.len() as int,
            TokV::MultiLineString(s) => s.len() + 2int,
            TokV::Comment(s) => s.len() as int,
        }
    }

    /// A line-end character: a newline or a carriage return, alone.
    pub open spec fn is_eol_str(s: Seq<char>) -> bool {
        s.len() == 1 && (s[0] == '\n' || s[0] == '\r')
    }

    /// A whitespace character: a single space.
    pub open spec fn is_whitespace_str(s: Seq<char>) -> bool {
        s.len() == 1 && s[0] == ' '
    }

    /// A single character that could stand in a number: a digit or a period.
    pub open spec fn is_number_char(s: Seq<char>) -> bool {
        s.len() == 1 && {
            let c = s[0] as u32;
            (48 <= c && c <= 57) || c == 46
        }
    }

    /// A single character that could stand in a word: a letter or an
    /// underscore anywhere, a digit only after the first position.
    pub open spec fn is_word_char(s: Seq<char>, first: bool) -> bool {
        s.len() == 1 && {
            let c = s[0] as u32;
            (65 <= c && c <= 90) || (97 <= c && c <= 122) || c == 95 || ((48 <= c && c <= 57)
                && !first)
        }
    }

    /// The keyword a word stands for, if any.
    pub open spec fn keyword_of(s: Seq<char>) -> Option<TokV> {
        if s == "and"@ {
            Some(TokV::And)
        } else if s == "break"@ {
            Some(TokV::Break)
        } else if s == "do"@ {
            Some(TokV::Do)
        } else if s == "else"@ {
            Some(TokV::Else)
        } else if s == "elseif"@ {
            Some(TokV::Elseif)
        } else if s == "end"@ {
            Some(TokV::End)
        } else if s == "false"@ {
            Some(TokV::False)
        } else if s == "for"@ {
            Some(TokV::For)
        } else if s == "function"@ {
            Some(TokV::Function)
        } else if s == "if"@ {
            Some(TokV::If)
        } else if s == "in"@ {
            Some(TokV::In)
        } else if s == "local"@ {
            Some(TokV::Local)
        } else if s == "nil"@ {
            Some(TokV::Nil)
        } else if s == "not"@ {
            Some(TokV::Not)
        } else if s == "or"@ {
            Some(TokV::Or)
        } else if s == "repeat"@ {
            Some(TokV::Repeat)
        } else if s == "return"@ {
            Some(TokV::Return)
        } else if s == "then"@ {
            Some(TokV::Then)
        } else if s == "true"@ {
            Some(TokV::True)
        } else if s == "until"@ {
            Some(TokV::Until)
        } else if s == "while"@ {
            Some(TokV::While)
        } else {
            None
        }
    }
}

/// Character-by-character string comparison; true exactly when the two views
/// are equal.
pub fn str_eq(a: &str, b: &str) -> (r: bool)
    ensures
        r == (a@ == b@),
{
    let alen = a.unicode_len();
    let blen = b.unicode_len();
    if alen != blen {
        return false;
    }
    let mut i: usize = 0;
    while i < alen
        invariant
            alen == a@.len(),
            alen == b@.len(),
            i <= alen,
            forall|j: int| 0 <= j < i ==> a@[j] == b@[j],
        decreases alen - i,
    {
        if a.get_char(i) != b.get_char(i) {
            return false;
        }
        i = i + 1;
    }
    proof {
        assert(a@ =~= b@);
    }
    true
}

impl Token {
    /// True of tokens that segmentation drops.
    pub fn is_noise(&self) -> (b: bool)
        ensures
            b == self@.is_noise(),
    {
        match self {
            Token::WhiteSpace | Token::Comment(_) => true,
            _ => false,
        }
    }

    /// True of tokens that close a statement-candidate group.
    pub fn is_boundary(&self) -> (b: bool)
        ensures
            b == self@.is_boundary(),
    {
        match self {
            Token::EOL | Token::SemiColon | Token::EOF => true,
            _ => false,
        }
    }

    /// True of tokens that stand for a complete expression by themselves.
    pub fn is_literal(&self) -> (b: bool)
        ensures
            b == self@.is_literal(),
    {
        match self {
            Token::Number(_) | Token::String(_) | Token::MultiLineString(_) | Token::True
                | Token::False | Token::Nil => true,
            _ => false,
        }
    }

    /// True of unary operators.
    pub fn is_unop(&self) -> (b: bool)
        ensures
            b == self@.is_unop(),
    {
        match self {
            Token::Minus | Token::Not | Token::Pound => true,
            _ => false,
        }
    }

    /// The precedence tier of a binary operator, 0 to 6; 7 for any other
    /// token.
    pub fn binop_tier(&self) -> (t: u8)
        ensures
            t as int == self@.binop_tier(),
    {
        match self {
            Token::Carrot => 0,
            Token::Star | Token::Slash => 1,
            Token::Plus | Token::Minus => 2,
            Token::DoublePeriod => 3,
            Token::LessThan | Token::GreaterThan | Token::LessEqual | Token::GreaterEqual
                | Token::NotEqual | Token::EqualEqual => 4,
            Token::And => 5,
            Token::Or => 6,
            _ => 7,
        }
    }

    /// True of binary operators.
    pub fn is_binop(&self) -> (b: bool)
        ensures
            b == self@.is_binop(),
    {
        self.binop_tier() < 7
    }

    /// True of keywords that open a block statement.
    pub fn is_opener(&self) -> (b: bool)
        ensures
            b == self@.is_opener(),
    {
        match self {
            Token::Do | Token::While | Token::Repeat | Token::If | Token::For
                | Token::Function => true,
            _ => false,
        }
    }

    /// True of keywords that increment the block-nesting depth.
    pub fn opens_depth(&self) -> (b: bool)
        ensures
            b == self@.opens_depth(),
    {
        match self {
            Token::Do | Token::If | Token::Function | Token::Repeat => true,
            _ => false,
        }
    }

    /// True of keywords that decrement the block-nesting depth.
    pub fn closes_depth(&self) -> (b: bool)
        ensures
            b == self@.closes_depth(),
    {
        match self {
            Token::End | Token::Until => true,
            _ => false,
        }
    }

    /// The number of characters the token occupies when displayed; used for
    /// span arithmetic during scanning.
    pub fn len(&self) -> (l: usize)
        requires
            self@.display_len() <= usize::MAX,
        ensures
            l as int == self@.display_len(),
    {
        match self {
            Token::Plus | Token::Minus | Token::Star | Token::Slash | Token::Percent
                | Token::Carrot | Token::Pound | Token::LessThan | Token::GreaterThan
                | Token::Equal | Token::LeftParen | Token::RightParen | Token::LeftMoustache
                | Token::RightMoustache | Token::LeftBracket | Token::RightBracket
                | Token::SemiColon | Token::Colon | Token::Comma | Token::Period
                | Token::WhiteSpace => 1,
            Token::DoublePeriod | Token::EqualEqual | Token::NotEqual | Token::GreaterEqual
                | Token::LessEqual | Token::Do | Token::In | Token::If | Token::Or => 2,
            Token::TriplePeriod | Token::And | Token::End | Token::For | Token::Nil
                | Token::Not => 3,
            Token::Else | Token::Then | Token::True => 4,
            Token::Break | Token::Until | Token::While | Token::False | Token::Local => 5,
            Token::Elseif | Token::Repeat | Token::Return => 6,
            Token::Function => 8,
            Token::EOL | Token::EOF => 0,
            Token::Identifier(s) => s.as_str().unicode_len(),
            Token::String(s) => s.as_str().unicode_len() + 2,
            Token::Number(s) => s.as_str().unicode_len(),
            Token::MultiLineString(s) => s.as_str().unicode_len() + 2,
            Token::Comment(s) => s.as_str().unicode_len(),
        }
    }

    /// True of a line-end character.
    pub fn is_eol(char: &str) -> (b: bool)
        ensures
            b == TokV::is_eol_str(char@),
    {
        char.unicode_len() == 1 && {
            let c = char.get_char(0);
            c == '\n' || c == '\r'
        }
    }

    /// True of a whitespace character (a single space).
    pub fn is_whitespace(char: &str) -> (b: bool)
        ensures
            b == TokV::is_whitespace_str(char@),
    {
        char.unicode_len() == 1 && char.get_char(0) == ' '
    }

    /// True of a single character that could stand in a number.
    pub fn is_valid_number_char(char: &str) -> (b: bool)
        ensures
            b == TokV::is_number_char(char@),
    {
        char.unicode_len() == 1 && {
            let c = char.get_char(0) as u32;
            (48 <= c && c <= 57) || c == 46
        }
    }

    /// True of a single character that could stand in a word; digits cannot
    /// start one.
    pub fn is_valid_word_char(char: &str, first: bool) -> (b: bool)
        ensures
            b == TokV::is_word_char(char@, first),
    {
        char.unicode_len() == 1 && {
            let c = char.get_char(0) as u32;
            (65 <= c && c <= 90) || (97 <= c && c <= 122) || c == 95 || ((48 <= c && c <= 57)
                && !first)
        }
    }

    /// True of the `break` token.
    pub fn is_break(&self) -> (b: bool)
        ensures
            b == (self@ is Break),
    {
        match self {
            Token::Break => true,
            _ => false,
        }
    }

    /// True of the `return` token.
    pub fn is_return(&self) -> (b: bool)
        ensures
            b == (self@ is Return),
    {
        match self {
            Token::Return => true,
            _ => false,
        }
    }

    /// True of the `local` token.
    pub fn is_local(&self) -> (b: bool)
        ensures
            b == (self@ is Local),
    {
        match self {
            Token::Local => true,
            _ => false,
        }
    }

    /// True of the `equal` token.
    pub fn is_equal(&self) -> (b: bool)
        ensures
            b == (self@ is Equal),
    {
        match self {
            Token::Equal => true,
            _ => false,
        }
    }

    /// True of the `comma` token.
    pub fn is_comma(&self) -> (b: bool)
        ensures
            b == (self@ is Comma),
    {
        match self {
            Token::Comma => true,
            _ => false,
        }
    }

    /// True of the `do` token.
    pub fn is_do(&self) -> (b: bool)
        ensures
            b == (self@ is Do),
    {
        match self {
            Token::Do => true,
            _ => false,
        }
    }

    /// True of the `while` token.
    pub fn is_while(&self) -> (b: bool)
        ensures
            b == (self@ is While),
    {
        match self {
            Token::While => true,
            _ => false,
        }
    }

    /// True of the `repeat` token.
    pub fn is_repeat(&self) -> (b: bool)
        ensures
            b == (self@ is Repeat),
    {
        match self {
            Token::Repeat => true,
            _ => false,
        }
    }

    /// True of the `if` token.
    pub fn is_if(&self) -> (b: bool)
        ensures
            b == (self@ is If),
    {
        match self {
            Token::If => true,
            _ => false,
        }
    }

    /// True of the `for` token.
    pub fn is_for(&self) -> (b: bool)
        ensures
            b == (self@ is For),
    {
        match self {
            Token::For => true,
            _ => false,
        }
    }

    /// True of the `function` token.
    pub fn is_function(&self) -> (b: bool)
        ensures
            b == (self@ is Function),
    {
        match self {
            Token::Function => true,
            _ => false,
        }
    }

    /// True of the `end` token.
    pub fn is_end(&self) -> (b: bool)
        ensures
            b == (self@ is End),
    {
        match self {
            Token::End => true,
            _ => false,
        }
    }

    /// True of the `until` token.
    pub fn is_until(&self) -> (b: bool)
        ensures
            b == (self@ is Until),
    {
        match self {
            Token::Until => true,
            _ => false,
        }
    }

    /// True of the `then` token.
    pub fn is_then(&self) -> (b: bool)
        ensures
            b == (self@ is Then),
    {
        match self {
            Token::Then => true,
            _ => false,
        }
    }

    /// True of the `elseif` token.
    pub fn is_elseif(&self) -> (b: bool)
        ensures
            b == (self@ is Elseif),
    {
        match self {
            Token::Elseif => true,
            _ => false,
        }
    }

    /// True of the `else` token.
    pub fn is_else(&self) -> (b: bool)
        ensures
            b == (self@ is Else),
    {
        match self {
            Token::Else => true,
            _ => false,
        }
    }

    /// The keyword token a word stands for, if any.
    pub fn match_keyword(word: &str) -> (r: Option<Token>)
        ensures
            match r {
                Some(t) => TokV::keyword_of(word@) == Some(t@),
                None => TokV::keyword_of(word@) is None,
            },
    {
        if str_eq(word, "and") {
            Some(Token::And)
        } else if str_eq(word, "break") {
            Some(Token::Break)
        } else if str_eq(word, "do") {
            Some(Token::Do)
        } else if str_eq(word, "else") {
            Some(Token::Else)
        } else if str_eq(word, "elseif") {
            Some(Token::Elseif)
        } else if str_eq(word, "end") {
            Some(Token::End)
        } else if str_eq(word, "false") {
            Some(Token::False)
        } else if str_eq(word, "for") {
            Some(Token::For)
        } else if str_eq(word, "function") {
            Some(Token::Function)
        } else if str_eq(word, "if") {
            Some(Token::If)
        } else if str_eq(word, "in") {
            Some(Token::In)
        } else if str_eq(word, "local") {
            Some(Token::Local)
        } else if str_eq(word, "nil") {
            Some(Token::Nil)
        } else if str_eq(word, "not") {
            Some(Token::Not)
        } else if str_eq(word, "or") {
            Some(Token::Or)
        } else if str_eq(word, "repeat") {
            Some(Token::Repeat)
        } else if str_eq(word, "return") {
            Some(Token::Return)
        } else if str_eq(word, "then") {
            Some(Token::Then)
        } else if str_eq(word, "true") {
            Some(Token::True)
        } else if str_eq(word, "until") {
            Some(Token::Until)
        } else if str_eq(word, "while") {
            Some(Token::While)
        } else {
            None
        }
    }
}

} // verus!
