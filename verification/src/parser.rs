//! Source spans, spanned syntax nodes and the errors the parser reports.
use vstd::prelude::*;
use vstd::string::{StringExecFns, StringSliceAdditionalSpecFns};

use crate::lexer::{lexer_error_debug_text, Lexer, LexerError, Token, TokenType};
use crate::vm::str_eq;

verus! {

broadcast use vstd::utf8::group_utf8_lib;

/// `std::num::ParseFloatError`, the error of reading a number literal.
#[verifier::external_type_specification]
#[verifier::external_body]
pub struct ExParseFloatError(std::num::ParseFloatError);

/// A byte range `start..end` of the source text.
#[derive(Debug, Clone, Copy, PartialEq, Eq, Structural)]
pub struct Span {
    pub start: usize,
    pub end: usize,
}

/// A syntax node together with the part of the source it was parsed from.
#[derive(Debug)]
pub struct Spanned<TNode> {
    pub node: TNode,
    pub span: Span,
}

/// Attaching a span to any value.
pub trait Ast: Sized {
    fn ast(self, span: Span) -> (r: Spanned<Self>)
        ensures
            r.node == self,
            r.span == span,
    {
        Spanned { node: self, span }
    }
}

impl<T: Sized> Ast for T {

}

/// `s[start..end]` of the UTF-8 bytes of `code` is a whole run of characters.
pub open spec fn is_char_range(code: &str, start: usize, end: usize) -> bool {
    &&& start <= end <= code.spec_bytes().len()
    &&& vstd::utf8::is_char_boundary(code.spec_bytes(), start as int)
    &&& vstd::utf8::is_char_boundary(code.spec_bytes(), end as int)
}

/// The text of `code` between the byte positions `start` and `end`.
pub fn substr(code: &str, start: usize, end: usize) -> (r: &str)
    requires
        is_char_range(code, start, end),
    ensures
        r.spec_bytes() == code.spec_bytes().subrange(start as int, end as int),
{
    let ghost bytes = code.spec_bytes();
    proof {
        vstd::utf8::encode_utf8_valid_utf8(code@);
    }
    let (head, _) = code.split_at(end);
    proof {
        vstd::utf8::encode_utf8_valid_utf8(head@);
        let hb = head.spec_bytes();
        assert(hb == bytes.subrange(0, end as int));
        if start < end {
            assert(hb[start as int] == bytes[start as int]);
            assert(!vstd::utf8::is_continuation_byte(bytes[start as int]));
            assert(vstd::utf8::is_char_boundary(hb, start as int));
        } else {
            assert(vstd::utf8::is_char_boundary(hb, hb.len() as int));
        }
    }
    let (_, tail) = head.split_at(start);
    assert(tail.spec_bytes() =~= bytes.subrange(start as int, end as int));
    tail
}

impl Span {
    /// The first byte position.
    pub fn start(&self) -> (r: usize)
        ensures
            r == self.start,
    {
        self.start
    }

    /// The span `start..end`.
    pub fn new(start: usize, end: usize) -> (r: Self)
        ensures
            r.start == start,
            r.end == end,
    {
        Span { start, end }
    }

    /// The text of `code` this span covers.
    pub fn slice<'b>(&self, code: &'b str) -> (r: &'b str)
        requires
            is_char_range(code, self.start, self.end),
        ensures
            r.spec_bytes() == code.spec_bytes().subrange(self.start as int, self.end as int),
    {
        substr(code, self.start, self.end)
    }
}

impl<T> Spanned<T> {
    /// The first byte position of the node.
    pub fn start(&self) -> (r: usize)
        ensures
            r == self.span.start,
    {
        self.span.start
    }

    /// The byte position just after the node.
    pub fn end(&self) -> (r: usize)
        ensures
            r == self.span.end,
    {
        self.span.end
    }

    /// The node itself.
    pub fn node(&self) -> (r: &T)
        ensures
            *r == self.node,
    {
        &self.node
    }
}

/// An error found while parsing, with where it was found.
#[derive(Debug)]
pub enum ParseError {
    VariableAlreadyDeclared { span: Span },
    UnexpectedToken { span: Span, expectation: String },
    UnexpectedEof { last_position: usize },
    UnexpectedEofWithMessage { last_position: usize, message: String },
    InvalidNumberLiteral { source: std::num::ParseFloatError },
    LexerError { source: LexerError },
    ExpectedExpression { span: Span },
    UnexpectedUnaryOperator { span: Span },
    UnsatisfiedBoolLiteral { span: Span },
    InvalidVariableName { span: Span },
    InvalidAssignmentTarget { span: Span },
    InvalidTopLevelReturn { span: Span },
    MaxFunCallArguments { span: Span },
    MaxFunDeclarationParameters { span: Span },
    InitializerReturnValue { span: Span },
    InheritFromSelf { span: Span },
    SuperOutsideClass { span: Span },
    SuperWithoutSuperclass { span: Span },
    TooManyLocals { span: Span },
    TooManyConstants { span: Span },
    TooManyUpvalues { span: Span },
    LoopBodyTooLarge { span: Span },
    UninitializedLocal { span: Span },
}

/// The span of `e`, where it has one.
pub open spec fn error_span(e: ParseError) -> Option<Span> {
    match e {
        ParseError::VariableAlreadyDeclared { span } => Some(span),
        ParseError::UnexpectedToken { span, .. } => Some(span),
        ParseError::ExpectedExpression { span } => Some(span),
        ParseError::UnexpectedUnaryOperator { span } => Some(span),
        ParseError::UnsatisfiedBoolLiteral { span } => Some(span),
        ParseError::InvalidVariableName { span } => Some(span),
        ParseError::InvalidAssignmentTarget { span } => Some(span),
        ParseError::InvalidTopLevelReturn { span } => Some(span),
        ParseError::MaxFunCallArguments { span } => Some(span),
        ParseError::MaxFunDeclarationParameters { span } => Some(span),
        ParseError::InitializerReturnValue { span } => Some(span),
        ParseError::InheritFromSelf { span } => Some(span),
        ParseError::SuperOutsideClass { span } => Some(span),
        ParseError::SuperWithoutSuperclass { span } => Some(span),
        ParseError::TooManyLocals { span } => Some(span),
        ParseError::TooManyConstants { span } => Some(span),
        ParseError::TooManyUpvalues { span } => Some(span),
        ParseError::LoopBodyTooLarge { span } => Some(span),
        ParseError::UninitializedLocal { span } => Some(span),
        _ => None,
    }
}

/// Where `e` points lies in `code`: its span on character boundaries of `code`, an end of
/// input within it.
pub open spec fn error_in(code: &str, e: ParseError) -> bool {
    &&& (error_span(e) matches Some(span) ==> is_char_range(code, span.start, span.end))
    &&& (e matches ParseError::UnexpectedEof { last_position } ==> last_position
        <= code.spec_bytes().len())
    &&& (e matches ParseError::UnexpectedEofWithMessage { last_position, .. } ==> last_position
        <= code.spec_bytes().len())
}

/// Each of `errors` points into `code`.
pub open spec fn errors_in(code: &str, errors: Seq<ParseError>) -> bool {
    forall|i: int| 0 <= i < errors.len() ==> error_in(code, #[trigger] errors[i])
}

/// The errors of one statement.
#[derive(Debug)]
pub struct StmtError {
    pub errors: Vec<ParseError>,
}

impl StmtError {
    /// The errors of a statement that failed with the one error `value`.
    pub fn single(value: ParseError) -> (r: Self)
        ensures
            r.errors@ == seq![value],
    {
        let mut errors = Vec::new();
        errors.push(value);
        StmtError { errors }
    }
}

impl ParseError {
    /// The message the error is reported with.
    pub fn message(&self) -> (r: String)
        ensures
            r@ == parse_error_message(*self),
    {
        match self {
            ParseError::VariableAlreadyDeclared { .. } => String::from_str(
                "Already a variable with this name in this scope.",
            ),
            ParseError::UnexpectedToken { expectation, .. } => expectation.clone(),
            ParseError::UnexpectedEof { .. } => String::from_str("Unexpected end of file."),
            ParseError::UnexpectedEofWithMessage { message, .. } => message.clone(),
            ParseError::InvalidNumberLiteral { .. } => String::from_str(
                "Number literal can't be converted to number",
            ),
            ParseError::LexerError { source } => String::from_str("Lexer error: ").concat(
                source.debug_text().as_str(),
            ),
            ParseError::ExpectedExpression { .. } => String::from_str("Expect expression."),
            ParseError::UnexpectedUnaryOperator { .. } => String::from_str(
                "Expected unary operator.",
            ),
            ParseError::UnsatisfiedBoolLiteral { .. } => String::from_str("Expected boolean literal."),
            ParseError::InvalidVariableName { .. } => String::from_str("Expect variable name"),
            ParseError::InvalidAssignmentTarget { .. } => String::from_str(
                "Invalid assignment target.",
            ),
            ParseError::InvalidTopLevelReturn { .. } => String::from_str(
                "Can't return from top-level code.",
            ),
            ParseError::MaxFunCallArguments { .. } => String::from_str(
                "Can't have more than 255 arguments.",
            ),
            ParseError::MaxFunDeclarationParameters { .. } => String::from_str(
                "Can't have more than 255 parameters.",
            ),
            ParseError::InitializerReturnValue { .. } => String::from_str(
                "Can't return a value from an initializer.",
            ),
            ParseError::InheritFromSelf { .. } => String::from_str(
                "A class can't inherit from itself.",
            ),
            ParseError::SuperOutsideClass { .. } => String::from_str(
                "Can't use 'super' outside of a class.",
            ),
            ParseError::SuperWithoutSuperclass { .. } => String::from_str(
                "Can't use 'super' in a class with no superclass.",
            ),
            ParseError::TooManyLocals { .. } => String::from_str(
                "Too many local variables in function.",
            ),
            ParseError::TooManyConstants { .. } => String::from_str(
                "Too many constants in one chunk.",
            ),
            ParseError::TooManyUpvalues { .. } => String::from_str(
                "Too many closure variables in function.",
            ),
            ParseError::LoopBodyTooLarge { .. } => String::from_str("Loop body too large."),
            ParseError::UninitializedLocal { .. } => String::from_str(
                "Can't read local variable in its own initializer.",
            ),
        }
    }
}

/// The message each parse error is reported with.
pub open spec fn parse_error_message(e: ParseError) -> Seq<char> {
        match e {
            ParseError::VariableAlreadyDeclared { .. } => "Already a variable with this name in this scope."@,
            ParseError::UnexpectedToken { expectation, .. } => expectation@,
            ParseError::UnexpectedEof { .. } => "Unexpected end of file."@,
            ParseError::UnexpectedEofWithMessage { message, .. } => message@,
            ParseError::InvalidNumberLiteral { .. } => "Number literal can't be converted to number"@,
            ParseError::LexerError { source } => "Lexer error: "@ + lexer_error_debug_text(source),
            ParseError::ExpectedExpression { .. } => "Expect expression."@,
            ParseError::UnexpectedUnaryOperator { .. } => "Expected unary operator."@,
            ParseError::UnsatisfiedBoolLiteral { .. } => "Expected boolean literal."@,
            ParseError::InvalidVariableName { .. } => "Expect variable name"@,
            ParseError::InvalidAssignmentTarget { .. } => "Invalid assignment target."@,
            ParseError::InvalidTopLevelReturn { .. } => "Can't return from top-level code."@,
            ParseError::MaxFunCallArguments { .. } => "Can't have more than 255 arguments."@,
            ParseError::MaxFunDeclarationParameters { .. } => "Can't have more than 255 parameters."@,
            ParseError::InitializerReturnValue { .. } => "Can't return a value from an initializer."@,
            ParseError::InheritFromSelf { .. } => "A class can't inherit from itself."@,
            ParseError::SuperOutsideClass { .. } => "Can't use 'super' outside of a class."@,
            ParseError::SuperWithoutSuperclass { .. } => "Can't use 'super' in a class with no superclass."@,
            ParseError::TooManyLocals { .. } => "Too many local variables in function."@,
            ParseError::TooManyConstants { .. } => "Too many constants in one chunk."@,
            ParseError::TooManyUpvalues { .. } => "Too many closure variables in function."@,
            ParseError::LoopBodyTooLarge { .. } => "Loop body too large."@,
            ParseError::UninitializedLocal { .. } => "Can't read local variable in its own initializer."@,
        }
    }

// ---------------------------------------------------------------------------
// The syntax tree
// ---------------------------------------------------------------------------

/// An expression with its span.
pub type AstExpression = Spanned<Expression>;

/// A statement with its span.
pub type AstStmt = Spanned<Stmt>;

/// A name with its span.
pub type AstIdent = Spanned<String>;

/// The `return` keyword with its span.
pub type AstReturn = Spanned<String>;

/// A literal. A number literal keeps its source text; turning it into a number is left to the
/// compiler's caller.
#[derive(Debug)]
pub enum AstLiteral {
    NumberLiteral(String),
    NilLiteral,
    BoolLiteral(bool),
    StringLiteral(String),
}

/// A comparison or a logical connective.
#[derive(Debug)]
pub enum LogicalExpression {
    Greater { left: Box<AstExpression>, right: Box<AstExpression> },
    GreaterEqual { left: Box<AstExpression>, right: Box<AstExpression> },
    Less { left: Box<AstExpression>, right: Box<AstExpression> },
    LessEqual { left: Box<AstExpression>, right: Box<AstExpression> },
    Equal { left: Box<AstExpression>, right: Box<AstExpression> },
    NotEqual { left: Box<AstExpression>, right: Box<AstExpression> },
    And { left: Box<AstExpression>, right: Box<AstExpression> },
    Or { left: Box<AstExpression>, right: Box<AstExpression> },
}

/// An expression.
#[derive(Debug)]
pub enum Expression {
    Assignment { lvalue: Box<AstExpression>, rvalue: Box<AstExpression> },
    Identier(String),
    Literal(AstLiteral),
    Multiply { left: Box<AstExpression>, right: Box<AstExpression> },
    Divide { left: Box<AstExpression>, right: Box<AstExpression> },
    Add { left: Box<AstExpression>, right: Box<AstExpression> },
    Subtract { left: Box<AstExpression>, right: Box<AstExpression> },
    UnaryNegation { expr: Box<AstExpression> },
    UnaryNot { expr: Box<AstExpression> },
    Grouping { expr: Box<AstExpression> },
    Logical(LogicalExpression),
    Call { calee: Box<AstExpression>, arguments: Vec<AstExpression> },
    GetProperty { object: Box<AstExpression>, name: String },
    SetProperty { object: Box<AstExpression>, name: String, value: Box<AstExpression> },
    This,
    Super { method: String },
}

/// A statement.
#[derive(Debug)]
pub enum Stmt {
    Print(AstExpression),
    Declarations(StmtDeclaration),
    If(IfStmt),
    While(WhileStmt),
    For(ForStmt),
    Block(BlockStmt),
    Return(AstReturn, Option<AstExpression>),
    Expression(AstExpression),
}

/// The statements of a block.
#[derive(Debug)]
pub struct BlockStmt(pub Vec<AstStmt>);

/// A conditional statement.
#[derive(Debug)]
pub struct IfStmt {
    pub condition: AstExpression,
    pub then_block: Box<AstStmt>,
    pub else_block: Option<Box<AstStmt>>,
}

/// A `while` loop.
#[derive(Debug)]
pub struct WhileStmt {
    pub condition: AstExpression,
    pub loop_block: Box<AstStmt>,
}

/// A `for` loop.
#[derive(Debug)]
pub struct ForStmt {
    pub condition: Option<Box<AstExpression>>,
    pub initializer: Option<Box<AstStmt>>,
    pub increment: Option<Box<AstStmt>>,
    pub block: Box<AstStmt>,
}

/// A declaration.
#[derive(Debug)]
pub enum StmtDeclaration {
    Variable { ident: AstIdent, expr: Option<AstExpression> },
    Function(FunDeclaration),
    Class(ClassDeclaration),
}

/// A function declaration.
#[derive(Debug)]
pub struct FunDeclaration {
    pub name: AstIdent,
    pub params: Vec<AstIdent>,
    pub body: Box<AstStmt>,
}

/// A class declaration.
#[derive(Debug)]
pub struct ClassDeclaration {
    pub name: AstIdent,
    pub superclass: Option<AstIdent>,
    pub methods: Vec<MethodDeclaration>,
}

/// A method of a class.
#[derive(Debug)]
pub struct MethodDeclaration {
    pub name: AstIdent,
    pub params: Vec<AstIdent>,
    pub body: Box<AstStmt>,
}

// ---------------------------------------------------------------------------
// Precedence and the parsing rules of each token
// ---------------------------------------------------------------------------

/// Binding strength of operators, weakest first.
#[derive(Clone, Copy, Debug, PartialEq, Eq, Structural)]
pub enum Precedence {
    NONE,
    LOWEST,
    ASSIGNMENT,
    OR,
    AND,
    COMPARISON,
    SUM,
    MULT,
    UNARY,
    HIGHEST,
}

impl Precedence {
    /// The rank of the level, 0 for the weakest.
    pub open spec fn rank(self) -> u8 {
        match self {
            Precedence::NONE => 0,
            Precedence::LOWEST => 1,
            Precedence::ASSIGNMENT => 2,
            Precedence::OR => 3,
            Precedence::AND => 4,
            Precedence::COMPARISON => 5,
            Precedence::SUM => 6,
            Precedence::MULT => 7,
            Precedence::UNARY => 8,
            Precedence::HIGHEST => 9,
        }
    }

    /// The rank of the level.
    pub fn level(self) -> (r: u8)
        ensures
            r == self.rank(),
    {
        match self {
            Precedence::NONE => 0,
            Precedence::LOWEST => 1,
            Precedence::ASSIGNMENT => 2,
            Precedence::OR => 3,
            Precedence::AND => 4,
            Precedence::COMPARISON => 5,
            Precedence::SUM => 6,
            Precedence::MULT => 7,
            Precedence::UNARY => 8,
            Precedence::HIGHEST => 9,
        }
    }

    /// The next stronger level; the strongest stays.
    pub fn next(self) -> (r: Self)
        ensures
            r.rank() == (if self.rank() == 9 {
                9
            } else {
                self.rank() + 1
            }),
    {
        match self {
            Precedence::NONE => Precedence::LOWEST,
            Precedence::LOWEST => Precedence::ASSIGNMENT,
            Precedence::ASSIGNMENT => Precedence::OR,
            Precedence::OR => Precedence::AND,
            Precedence::AND => Precedence::COMPARISON,
            Precedence::COMPARISON => Precedence::SUM,
            Precedence::SUM => Precedence::MULT,
            Precedence::MULT => Precedence::UNARY,
            Precedence::UNARY => Precedence::HIGHEST,
            Precedence::HIGHEST => Precedence::HIGHEST,
        }
    }
}

/// How a token begins an expression.
#[derive(Clone, Copy, Debug, PartialEq, Eq, Structural)]
pub enum PrefixRule {
    Grouping,
    Unary,
    Nil,
    Bool,
    Literal,
    Identifier,
    This,
    Super,
}

/// How a token continues an expression.
#[derive(Clone, Copy, Debug, PartialEq, Eq, Structural)]
pub enum InfixRule {
    Call,
    Logical,
    Binary,
    Assignment,
    LogicalAnd,
    LogicalOr,
    Dot,
}

/// The rules of each token: how it begins an expression, how it continues one, and the
/// precedence of its infix use.
pub open spec fn token_rules(token: TokenType) -> (Option<PrefixRule>, Option<InfixRule>, Precedence) {
    match token {
        TokenType::LeftParen => (Some(PrefixRule::Grouping), Some(InfixRule::Call), Precedence::HIGHEST),
        TokenType::Nil => (Some(PrefixRule::Nil), None, Precedence::NONE),
        TokenType::Bang => (Some(PrefixRule::Unary), None, Precedence::UNARY),
        TokenType::True | TokenType::False => (Some(PrefixRule::Bool), None, Precedence::NONE),
        TokenType::EqualEqual | TokenType::BantEqual | TokenType::Greater | TokenType::GreaterEqual
        | TokenType::Less | TokenType::LessEqual => (None, Some(InfixRule::Logical), Precedence::COMPARISON),
        TokenType::Minus | TokenType::Plus => (Some(PrefixRule::Unary), Some(InfixRule::Binary), Precedence::SUM),
        TokenType::Star | TokenType::Slash => (Some(PrefixRule::Unary), Some(InfixRule::Binary), Precedence::MULT),
        TokenType::Number | TokenType::String => (Some(PrefixRule::Literal), None, Precedence::NONE),
        TokenType::Identifier => (Some(PrefixRule::Identifier), None, Precedence::NONE),
        TokenType::Equal => (None, Some(InfixRule::Assignment), Precedence::ASSIGNMENT),
        TokenType::And => (None, Some(InfixRule::LogicalAnd), Precedence::AND),
        TokenType::Or => (None, Some(InfixRule::LogicalOr), Precedence::AND),
        TokenType::Dot => (None, Some(InfixRule::Dot), Precedence::HIGHEST),
        TokenType::This => (Some(PrefixRule::This), None, Precedence::NONE),
        TokenType::Super => (Some(PrefixRule::Super), None, Precedence::NONE),
        _ => (None, None, Precedence::NONE),
    }
}

/// The name `{:?}` gives a token type.
pub open spec fn token_type_name(t: TokenType) -> Seq<char> {
    match t {
        TokenType::Error => "Error"@,
        TokenType::LeftParen => "LeftParen"@,
        TokenType::RightParen => "RightParen"@,
        TokenType::LeftBrace => "LeftBrace"@,
        TokenType::RightBrace => "RightBrace"@,
        TokenType::Comma => "Comma"@,
        TokenType::Dot => "Dot"@,
        TokenType::Minus => "Minus"@,
        TokenType::Plus => "Plus"@,
        TokenType::Semicolon => "Semicolon"@,
        TokenType::Slash => "Slash"@,
        TokenType::Star => "Star"@,
        TokenType::Bang => "Bang"@,
        TokenType::BantEqual => "BantEqual"@,
        TokenType::Equal => "Equal"@,
        TokenType::EqualEqual => "EqualEqual"@,
        TokenType::Greater => "Greater"@,
        TokenType::GreaterEqual => "GreaterEqual"@,
        TokenType::Less => "Less"@,
        TokenType::LessEqual => "LessEqual"@,
        TokenType::Identifier => "Identifier"@,
        TokenType::String => "String"@,
        TokenType::Number => "Number"@,
        TokenType::And => "And"@,
        TokenType::Class => "Class"@,
        TokenType::Else => "Else"@,
        TokenType::False => "False"@,
        TokenType::For => "For"@,
        TokenType::Fun => "Fun"@,
        TokenType::If => "If"@,
        TokenType::Nil => "Nil"@,
        TokenType::Or => "Or"@,
        TokenType::Print => "Print"@,
        TokenType::Return => "Return"@,
        TokenType::Super => "Super"@,
        TokenType::This => "This"@,
        TokenType::True => "True"@,
        TokenType::Var => "Var"@,
        TokenType::While => "While"@,
        TokenType::Newline => "Newline"@,
    }
}

/// The name `{:?}` gives a token type.
pub fn token_name(t: TokenType) -> (r: &'static str)
    ensures
        r@ == token_type_name(t),
{
    match t {
        TokenType::Error => "Error",
        TokenType::LeftParen => "LeftParen",
        TokenType::RightParen => "RightParen",
        TokenType::LeftBrace => "LeftBrace",
        TokenType::RightBrace => "RightBrace",
        TokenType::Comma => "Comma",
        TokenType::Dot => "Dot",
        TokenType::Minus => "Minus",
        TokenType::Plus => "Plus",
        TokenType::Semicolon => "Semicolon",
        TokenType::Slash => "Slash",
        TokenType::Star => "Star",
        TokenType::Bang => "Bang",
        TokenType::BantEqual => "BantEqual",
        TokenType::Equal => "Equal",
        TokenType::EqualEqual => "EqualEqual",
        TokenType::Greater => "Greater",
        TokenType::GreaterEqual => "GreaterEqual",
        TokenType::Less => "Less",
        TokenType::LessEqual => "LessEqual",
        TokenType::Identifier => "Identifier",
        TokenType::String => "String",
        TokenType::Number => "Number",
        TokenType::And => "And",
        TokenType::Class => "Class",
        TokenType::Else => "Else",
        TokenType::False => "False",
        TokenType::For => "For",
        TokenType::Fun => "Fun",
        TokenType::If => "If",
        TokenType::Nil => "Nil",
        TokenType::Or => "Or",
        TokenType::Print => "Print",
        TokenType::Return => "Return",
        TokenType::Super => "Super",
        TokenType::This => "This",
        TokenType::True => "True",
        TokenType::Var => "Var",
        TokenType::While => "While",
        TokenType::Newline => "Newline",
    }
}

// ---------------------------------------------------------------------------
// What each parsing rule builds
// ---------------------------------------------------------------------------

/// `text` is, in UTF-8, the bytes `start..end` of `code`.
pub open spec fn source_text(code: &str, start: int, end: int, text: Seq<char>) -> bool {
    vstd::utf8::encode_utf8(text) == code.spec_bytes().subrange(start, end)
}

/// The node that a single token `t` of `code` makes: a literal, a name or `this`, spanning
/// the token, with the token's text (a string's without its quotes).
pub open spec fn leaf_of(code: &str, t: Token, e: AstExpression) -> bool {
    &&& e.span == Span { start: t.start, end: t.end }
    &&& if t.token_type == TokenType::Number {
        e.node matches Expression::Literal(AstLiteral::NumberLiteral(n)) && source_text(
            code,
            t.start as int,
            t.end as int,
            n@,
        )
    } else if t.token_type == TokenType::String {
        e.node matches Expression::Literal(AstLiteral::StringLiteral(s)) && source_text(
            code,
            t.start + 1,
            t.end - 1,
            s@,
        )
    } else if t.token_type == TokenType::Identifier {
        e.node matches Expression::Identier(name) && source_text(
            code,
            t.start as int,
            t.end as int,
            name@,
        )
    } else if t.token_type == TokenType::Nil {
        e.node == Expression::Literal(AstLiteral::NilLiteral)
    } else if t.token_type == TokenType::True {
        e.node == Expression::Literal(AstLiteral::BoolLiteral(true))
    } else if t.token_type == TokenType::False {
        e.node == Expression::Literal(AstLiteral::BoolLiteral(false))
    } else if t.token_type == TokenType::This {
        e.node is This
    } else {
        false
    }
}

/// The kind of node a prefix rule builds.
pub open spec fn prefix_builds(rule: PrefixRule, e: Expression) -> bool {
    match rule {
        PrefixRule::Grouping => e is Grouping,
        PrefixRule::Unary => e is UnaryNegation || e is UnaryNot,
        PrefixRule::Nil => e == Expression::Literal(AstLiteral::NilLiteral),
        PrefixRule::Bool => (e matches Expression::Literal(AstLiteral::BoolLiteral(_))),
        PrefixRule::Literal => (e matches Expression::Literal(AstLiteral::NumberLiteral(_))) || (
        e matches Expression::Literal(AstLiteral::StringLiteral(_))),
        PrefixRule::Identifier => e is Identier,
        PrefixRule::This => e is This,
        PrefixRule::Super => e is Super,
    }
}

/// The comparison `op` with `left` as its left operand.
pub open spec fn compares(op: TokenType, left: AstExpression, e: Expression) -> bool {
    match e {
        Expression::Logical(LogicalExpression::Greater { left: l, .. }) => op == TokenType::Greater
            && *l == left,
        Expression::Logical(LogicalExpression::GreaterEqual { left: l, .. }) => op
            == TokenType::GreaterEqual && *l == left,
        Expression::Logical(LogicalExpression::Less { left: l, .. }) => op == TokenType::Less && *l
            == left,
        Expression::Logical(LogicalExpression::LessEqual { left: l, .. }) => op
            == TokenType::LessEqual && *l == left,
        Expression::Logical(LogicalExpression::Equal { left: l, .. }) => op == TokenType::EqualEqual
            && *l == left,
        Expression::Logical(LogicalExpression::NotEqual { left: l, .. }) => op
            == TokenType::BantEqual && *l == left,
        _ => false,
    }
}

/// The arithmetic operation `op` with `left` as its left operand.
pub open spec fn computes(op: TokenType, left: AstExpression, e: Expression) -> bool {
    match e {
        Expression::Add { left: l, .. } => op == TokenType::Plus && *l == left,
        Expression::Subtract { left: l, .. } => op == TokenType::Minus && *l == left,
        Expression::Multiply { left: l, .. } => op == TokenType::Star && *l == left,
        Expression::Divide { left: l, .. } => op == TokenType::Slash && *l == left,
        _ => false,
    }
}

/// An assignment to `left`: a name is assigned, a property of an object is set.
pub open spec fn assigns(left: AstExpression, e: Expression) -> bool {
    match left.node {
        Expression::Identier(_) => (e matches Expression::Assignment { lvalue, .. } && *lvalue
            == left),
        Expression::GetProperty { object, name } => (e matches Expression::SetProperty {
            object: o,
            name: n,
            ..
        } && o == object && n == name),
        _ => false,
    }
}

/// The node an infix rule builds on `left`, where `op` is the operator token's type.
pub open spec fn infix_builds(
    rule: InfixRule,
    op: TokenType,
    left: AstExpression,
    e: Expression,
) -> bool {
    match rule {
        InfixRule::Call => (e matches Expression::Call { calee, .. } && *calee == left),
        InfixRule::Logical => compares(op, left, e),
        InfixRule::Binary => computes(op, left, e),
        InfixRule::Assignment => assigns(left, e),
        InfixRule::LogicalAnd => (e matches Expression::Logical(
            LogicalExpression::And { left: l, .. },
        ) && *l == left),
        InfixRule::LogicalOr => (e matches Expression::Logical(LogicalExpression::Or { left: l, .. })
            && *l == left),
        InfixRule::Dot => (e matches Expression::GetProperty { object, .. } && *object == left),
    }
}

/// No two of `params` have the same name.
pub open spec fn distinct_names(params: Seq<AstIdent>) -> bool {
    forall|i: int, j: int|
        0 <= i < j < params.len() ==> (#[trigger] params[i]).node@ != (#[trigger] params[j]).node@
}

/// A parameter list as functions and methods accept it: at most 255 distinct names.
pub open spec fn valid_params(params: Seq<AstIdent>) -> bool {
    params.len() <= 255 && distinct_names(params)
}

/// How strongly the outermost operator of `e` binds, as the rank of its precedence level: a
/// node that a prefix rule builds, a call and a property read bind most strongly.
pub open spec fn node_rank(e: Expression) -> u8 {
    match e {
        Expression::Assignment { .. } => Precedence::ASSIGNMENT.rank(),
        Expression::SetProperty { .. } => Precedence::ASSIGNMENT.rank(),
        Expression::Logical(LogicalExpression::And { .. }) => Precedence::AND.rank(),
        Expression::Logical(LogicalExpression::Or { .. }) => Precedence::AND.rank(),
        Expression::Logical(_) => Precedence::COMPARISON.rank(),
        Expression::Add { .. } => Precedence::SUM.rank(),
        Expression::Subtract { .. } => Precedence::SUM.rank(),
        Expression::Multiply { .. } => Precedence::MULT.rank(),
        Expression::Divide { .. } => Precedence::MULT.rank(),
        _ => Precedence::HIGHEST.rank(),
    }
}

/// The operands of the outermost operator of `e` bind as it demands: the right operand of an
/// arithmetic operator more strongly than the operator (so that a chain groups to the left),
/// the operand of a unary operator at least as strongly as a unary operator, and the right
/// operand of a comparison, of `and` and of `or` at least as strongly as a comparison, as
/// `and` and as `or`.
pub open spec fn operands_bind(e: Expression) -> bool {
    match e {
        Expression::Add { right, .. } => node_rank(right.node) > Precedence::SUM.rank(),
        Expression::Subtract { right, .. } => node_rank(right.node) > Precedence::SUM.rank(),
        Expression::Multiply { right, .. } => node_rank(right.node) > Precedence::MULT.rank(),
        Expression::Divide { right, .. } => node_rank(right.node) > Precedence::MULT.rank(),
        Expression::UnaryNegation { expr } => node_rank(expr.node) >= Precedence::UNARY.rank(),
        Expression::UnaryNot { expr } => node_rank(expr.node) >= Precedence::UNARY.rank(),
        Expression::Logical(LogicalExpression::And { right, .. }) => node_rank(right.node)
            >= Precedence::AND.rank(),
        Expression::Logical(LogicalExpression::Or { right, .. }) => node_rank(right.node)
            >= Precedence::OR.rank(),
        Expression::Logical(LogicalExpression::Greater { right, .. }) => node_rank(right.node)
            >= Precedence::COMPARISON.rank(),
        Expression::Logical(LogicalExpression::GreaterEqual { right, .. }) => node_rank(right.node)
            >= Precedence::COMPARISON.rank(),
        Expression::Logical(LogicalExpression::Less { right, .. }) => node_rank(right.node)
            >= Precedence::COMPARISON.rank(),
        Expression::Logical(LogicalExpression::LessEqual { right, .. }) => node_rank(right.node)
            >= Precedence::COMPARISON.rank(),
        Expression::Logical(LogicalExpression::Equal { right, .. }) => node_rank(right.node)
            >= Precedence::COMPARISON.rank(),
        Expression::Logical(LogicalExpression::NotEqual { right, .. }) => node_rank(right.node)
            >= Precedence::COMPARISON.rank(),
        _ => true,
    }
}

/// Every operator in `e` binds its operands as its precedence and associativity demand.
pub open spec fn well_bound(e: AstExpression) -> bool
    decreases e,
{
    &&& operands_bind(e.node)
    &&& match e.node {
        Expression::Assignment { lvalue, rvalue } => well_bound(*lvalue) && well_bound(*rvalue),
        Expression::Multiply { left, right } => well_bound(*left) && well_bound(*right),
        Expression::Divide { left, right } => well_bound(*left) && well_bound(*right),
        Expression::Add { left, right } => well_bound(*left) && well_bound(*right),
        Expression::Subtract { left, right } => well_bound(*left) && well_bound(*right),
        Expression::UnaryNegation { expr } => well_bound(*expr),
        Expression::UnaryNot { expr } => well_bound(*expr),
        Expression::Grouping { expr } => well_bound(*expr),
        Expression::Logical(c) => match c {
            LogicalExpression::Greater { left, right } => well_bound(*left) && well_bound(*right),
            LogicalExpression::GreaterEqual { left, right } => well_bound(*left) && well_bound(
                *right,
            ),
            LogicalExpression::Less { left, right } => well_bound(*left) && well_bound(*right),
            LogicalExpression::LessEqual { left, right } => well_bound(*left) && well_bound(
                *right,
            ),
            LogicalExpression::Equal { left, right } => well_bound(*left) && well_bound(*right),
            LogicalExpression::NotEqual { left, right } => well_bound(*left) && well_bound(
                *right,
            ),
            LogicalExpression::And { left, right } => well_bound(*left) && well_bound(*right),
            LogicalExpression::Or { left, right } => well_bound(*left) && well_bound(*right),
        },
        Expression::Call { calee, arguments } => well_bound(*calee) && forall|i: int|
            0 <= i < arguments@.len() ==> well_bound(#[trigger] arguments@[i]),
        Expression::GetProperty { object, .. } => well_bound(*object),
        Expression::SetProperty { object, value, .. } => well_bound(*object) && well_bound(*value),
        _ => true,
    }
}

/// Every expression in `s`, and in the statements within it, is well bound.
pub open spec fn stmt_well_bound(s: AstStmt) -> bool
    decreases s,
{
    match s.node {
        Stmt::Print(e) => well_bound(e),
        Stmt::Expression(e) => well_bound(e),
        Stmt::Return(_, value) => (value matches Some(e) ==> well_bound(e)),
        Stmt::Declarations(StmtDeclaration::Variable { expr, .. }) => (expr matches Some(e)
            ==> well_bound(e)),
        Stmt::Declarations(StmtDeclaration::Function(f)) => stmt_well_bound(*f.body),
        Stmt::Declarations(StmtDeclaration::Class(c)) => forall|i: int|
            0 <= i < c.methods@.len() ==> stmt_well_bound(*(#[trigger] c.methods@[i]).body),
        Stmt::If(i) => {
            &&& well_bound(i.condition)
            &&& stmt_well_bound(*i.then_block)
            &&& (i.else_block matches Some(b) ==> stmt_well_bound(*b))
        },
        Stmt::While(w) => well_bound(w.condition) && stmt_well_bound(*w.loop_block),
        Stmt::For(f) => {
            &&& (f.condition matches Some(c) ==> well_bound(*c))
            &&& (f.initializer matches Some(init) ==> stmt_well_bound(*init))
            &&& (f.increment matches Some(inc) ==> stmt_well_bound(*inc))
            &&& stmt_well_bound(*f.block)
        },
        Stmt::Block(BlockStmt(body)) => forall|i: int|
            0 <= i < body@.len() ==> stmt_well_bound(#[trigger] body@[i]),
    }
}

/// What an infix rule builds binds as strongly as the precedence of its operator token.
proof fn lemma_infix_rank(rule: InfixRule, op: TokenType, left: AstExpression, e: Expression)
    requires
        token_rules(op).1 == Some(rule),
        infix_builds(rule, op, left, e),
    ensures
        node_rank(e) == token_rules(op).2.rank(),
{
}

/// The kind of statement that begins with a token of type `first`.
pub open spec fn statement_kind(first: TokenType, s: Stmt) -> bool {
    if first == TokenType::Print {
        s is Print
    } else if first == TokenType::Return {
        s is Return
    } else if first == TokenType::If {
        s is If
    } else if first == TokenType::While {
        s is While
    } else if first == TokenType::For {
        s is For
    } else if first == TokenType::LeftBrace {
        s is Block
    } else {
        s is Expression
    }
}

/// The kind of declaration that begins with a token of type `first`.
pub open spec fn declaration_kind(first: TokenType, s: Stmt) -> bool {
    if first == TokenType::Var {
        s matches Stmt::Declarations(StmtDeclaration::Variable { .. })
    } else if first == TokenType::Fun {
        s matches Stmt::Declarations(StmtDeclaration::Function(_))
    } else if first == TokenType::Class {
        s matches Stmt::Declarations(StmtDeclaration::Class(_))
    } else {
        statement_kind(first, s)
    }
}

// ---------------------------------------------------------------------------
// The parser
// ---------------------------------------------------------------------------

/// The result of parsing an expression.
pub type ExprResult = Result<AstExpression, ParseError>;

/// The result of parsing a statement.
pub type StmtResult = Result<AstStmt, StmtError>;

/// A recursive-descent parser over the tokens of `code`. The errors of statements are
/// collected, and parsing resumes after the statement.
pub struct Parser<'source> {
    pub code: &'source str,
    pub lexer: Lexer<'source>,
    pub peeked: Option<Option<Result<Token, LexerError>>>,
    pub errors: Vec<ParseError>,
    pub last_position: usize,
}

/// A token of the tokenizer: its span is a run of whole characters of `code`, and a string
/// token's text between its quotes is too.
pub open spec fn token_ok(code: &str, r: Option<Result<Token, LexerError>>) -> bool {
    r matches Some(Ok(t)) ==> {
        &&& is_char_range(code, t.start, t.end)
        &&& t.token_type != TokenType::Error
        &&& t.token_type != TokenType::Newline
        &&& (t.token_type == TokenType::String ==> t.start + 2 <= t.end && is_char_range(
            code,
            (t.start + 1) as usize,
            (t.end - 1) as usize,
        ))
    }
}

impl<'source> Parser<'source> {
    /// The tokenizer reads `code` and any token looked at ahead is one it gave.
    pub open spec fn wf(&self) -> bool {
        &&& self.lexer.wf()
        &&& self.lexer.source == self.code
        &&& self.last_position <= self.code.spec_bytes().len()
        &&& errors_in(self.code, self.errors@)
        &&& (self.peeked matches Some(r) ==> token_ok(self.code, r))
        &&& (self.peeked matches Some(None) ==> self.lexer.pos == self.lexer.bytes@.len())
    }

    /// The token ahead: the one looked at ahead, else the one the tokenizer gives next.
    pub open spec fn ahead(&self) -> Option<Result<Token, LexerError>> {
        match self.peeked {
            Some(r) => r,
            None => crate::lexer::spec_next(
                self.lexer.bytes@,
                self.lexer.pos as int,
                self.lexer.extras as int,
            ).0,
        }
    }

    /// How much input is left: twice the unread bytes, plus one for a token looked at ahead.
    pub open spec fn remaining(&self) -> nat {
        (2 * (self.lexer.bytes@.len() - self.lexer.pos) + (if self.peeked matches Some(Some(_)) {
            1int
        } else {
            0int
        })) as nat
    }

    /// A step of parsing from `before`: still well formed over the same text, with no more
    /// input left and the same collected errors; and where a token was looked at ahead, either
    /// input was consumed or that token is still ahead.
    pub open spec fn stepped_from(&self, before: &Self) -> bool {
        &&& self.wf()
        &&& self.code == before.code
        &&& self.remaining() <= before.remaining()
        &&& self.errors@ == before.errors@
        &&& (before.peeked matches Some(Some(_)) ==> (self.remaining() < before.remaining()
            || self.peeked == before.peeked))
    }

    /// Whether errors were reported.
    pub fn had_errors(&self) -> (r: bool)
        ensures
            r == (self.errors@.len() > 0),
    {
        self.errors.len() > 0
    }

    /// The reported errors.
    pub fn into_errors(self) -> (r: Vec<ParseError>)
        ensures
            r@ == self.errors@,
    {
        self.errors
    }

    /// A parser at the start of `code`.
    pub fn new(code: &'source str) -> (r: Self)
        ensures
            r.wf(),
            r.code == code,
            r.errors@ == Seq::<ParseError>::empty(),
            r.peeked is None,
            r.last_position == 0,
    {
        Parser { code, lexer: Lexer::new(code), peeked: None, errors: Vec::new(), last_position: 0 }
    }

    /// The next token without consuming it.
    fn peek(&mut self) -> (r: Option<Result<Token, LexerError>>)
        requires
            old(self).wf(),
        ensures
            final(self).stepped_from(old(self)),
            final(self).last_position == old(self).last_position,
            final(self).peeked == Some(r),
            r == old(self).ahead(),
            old(self).peeked matches Some(p) ==> r == p && *final(self) == *old(self),
            old(self).peeked is None && r is Some ==> final(self).remaining() < old(self).remaining(),
            token_ok(final(self).code, r),
    {
        match self.peeked {
            Some(r) => r,
            None => {
                let r = self.lexer.next_token();
                self.peeked = Some(r);
                r
            },
        }
    }

    /// The next token, consumed.
    fn advance(&mut self) -> (r: Option<Result<Token, LexerError>>)
        requires
            old(self).wf(),
        ensures
            final(self).wf(),
            final(self).code == old(self).code,
            final(self).errors@ == old(self).errors@,
            final(self).last_position == old(self).last_position,
            final(self).remaining() <= old(self).remaining(),
            r is Some ==> final(self).remaining() < old(self).remaining(),
            old(self).peeked matches Some(p) ==> r == p,
            token_ok(final(self).code, r),
            r == old(self).ahead(),
            final(self).peeked is None,
            r is None ==> final(self).ahead() is None,
    {
        match self.peeked {
            Some(r) => {
                self.peeked = None;
                r
            },
            None => self.lexer.next_token(),
        }
    }

    /// Skips tokens up to and including the next `;` or `}`, or to the end.
    fn syncronize(&mut self)
        requires
            old(self).wf(),
        ensures
            final(self).stepped_from(old(self)),
            final(self).last_position == old(self).last_position,
            old(self).peeked matches Some(Some(_)) ==> final(self).remaining() < old(self).remaining(),
    {
        loop
            invariant
                self.wf(),
                self.code == old(self).code,
                self.errors@ == old(self).errors@,
                self.last_position == old(self).last_position,
                self.remaining() <= old(self).remaining(),
                old(self).peeked matches Some(Some(_)) ==> (self.remaining() < old(self).remaining()
                    || self.peeked == old(self).peeked),
            ensures
                self.wf(),
                self.code == old(self).code,
                self.errors@ == old(self).errors@,
                self.last_position == old(self).last_position,
                self.remaining() <= old(self).remaining(),
                old(self).peeked matches Some(Some(_)) ==> self.remaining() < old(self).remaining(),
            decreases self.remaining(),
        {
            match self.advance() {
                Some(Ok(t)) => {
                    if t.token_type == TokenType::Semicolon || t.token_type == TokenType::RightBrace {
                        break;
                    }
                },
                Some(Err(_)) => {},
                None => {
                    break;
                },
            }
        }
    }

    /// Consumes the next token if it has type `token_type`; otherwise an unexpected-token
    /// error with `expectation`. A tokenizer error is consumed and returned.
    fn consume_or_else(&mut self, token_type: TokenType, expectation: &str) -> (r: Result<Token, ParseError>)
        requires
            old(self).wf(),
        ensures
            r matches Err(e) ==> error_in(final(self).code, e),
            final(self).stepped_from(old(self)),
            r is Ok ==> final(self).remaining() < old(self).remaining(),
            r matches Ok(t) ==> token_ok(final(self).code, Some(Ok::<Token, LexerError>(t))) && t.token_type == token_type,
    {
        match self.peek() {
            Some(Ok(t)) => {
                if t.token_type == token_type {
                    let _ = self.advance();
                    self.last_position = t.end;
                    Ok(t)
                } else {
                    Err(ParseError::UnexpectedToken { span: t.span(), expectation: String::from_str(expectation) })
                }
            },
            Some(Err(e)) => {
                let _ = self.advance();
                Err(ParseError::LexerError { source: e })
            },
            None => Err(ParseError::UnexpectedEof { last_position: self.last_position }),
        }
    }

    /// Consumes the next token if it has type `token_type`; otherwise an error naming what was
    /// expected and what was found.
    fn consume(&mut self, token_type: TokenType) -> (r: Result<Token, ParseError>)
        requires
            old(self).wf(),
        ensures
            old(self).peeked matches Some(Some(Ok(t))) ==> (if t.token_type == token_type {
                r == Ok::<Token, ParseError>(t)
            } else {
                r is Err
            }),
            r matches Err(e) ==> error_in(final(self).code, e),
            old(self).peeked matches Some(p) && !(p matches Some(Ok(_))) ==> r is Err,
            final(self).stepped_from(old(self)),
            r is Ok ==> final(self).remaining() < old(self).remaining(),
            r matches Ok(t) ==> token_ok(final(self).code, Some(Ok::<Token, LexerError>(t))) && t.token_type == token_type,
    {
        match self.peek() {
            Some(Ok(t)) => {
                if t.token_type == token_type {
                    let _ = self.advance();
                    self.last_position = t.end;
                    Ok(t)
                } else {
                    let mut expectation = String::from_str("Expected '");
                    expectation.append(token_name(token_type));
                    expectation.append("' got '");
                    expectation.append(t.slice(self.code));
                    expectation.append("'");
                    Err(ParseError::UnexpectedToken { span: t.span(), expectation })
                }
            },
            Some(Err(e)) => {
                let _ = self.advance();
                Err(ParseError::LexerError { source: e })
            },
            None => Err(ParseError::UnexpectedEof { last_position: self.last_position }),
        }
    }

    /// Whether the next token has type `token_type`, without consuming it; a tokenizer error
    /// ahead is returned, not consumed.
    fn check_token(&mut self, token_type: TokenType) -> (r: Result<bool, ParseError>)
        requires
            old(self).wf(),
        ensures
            old(self).peeked is Some ==> *final(self) == *old(self),
            r matches Ok(b) ==> (final(self).peeked matches Some(Some(Ok(t))) ==> b == (t.token_type == token_type)),
            r matches Err(e) ==> error_in(final(self).code, e),
            final(self).stepped_from(old(self)),
            final(self).last_position == old(self).last_position,
            final(self).peeked is Some,
            r matches Ok(true) ==> final(self).peeked matches Some(Some(Ok(t))) && t.token_type == token_type,
            r is Err ==> final(self).peeked matches Some(Some(Err(_))),
            (old(self).peeked is None && (final(self).peeked matches Some(Some(_)))) ==> final(self).remaining() < old(self).remaining(),
    {
        match self.peek() {
            Some(Ok(t)) => Ok(t.token_type == token_type),
            Some(Err(e)) => Err(ParseError::LexerError { source: e }),
            None => Ok(false),
        }
    }

    /// Consumes the next token if it has type `token_type`.
    fn match_token(&mut self, token_type: TokenType) -> (r: Result<Option<Token>, ParseError>)
        requires
            old(self).wf(),
        ensures
            r matches Err(e) ==> error_in(final(self).code, e),
            final(self).stepped_from(old(self)),
            final(self).last_position == old(self).last_position,
            r matches Ok(Some(_)) ==> final(self).remaining() < old(self).remaining(),
            r matches Ok(Some(t)) ==> token_ok(final(self).code, Some(Ok::<Token, LexerError>(t))) && t.token_type == token_type,
            match old(self).ahead() {
                Some(Ok(t)) => if t.token_type == token_type {
                    r == Ok::<Option<Token>, ParseError>(Some(t))
                } else {
                    r == Ok::<Option<Token>, ParseError>(None)
                },
                Some(Err(_)) => r is Err,
                None => r == Ok::<Option<Token>, ParseError>(None),
            },
    {
        match self.peek() {
            Some(Ok(t)) => {
                if t.token_type == token_type {
                    let _ = self.advance();
                    Ok(Some(t))
                } else {
                    Ok(None)
                }
            },
            Some(Err(e)) => Err(ParseError::LexerError { source: e }),
            None => Ok(None),
        }
    }

    /// Consumes the next token, whatever it is.
    fn consume_next(&mut self) -> (r: Result<Token, ParseError>)
        requires
            old(self).wf(),
        ensures
            r matches Err(e) ==> error_in(final(self).code, e),
            final(self).stepped_from(old(self)),
            r is Ok ==> final(self).remaining() < old(self).remaining(),
            r matches Ok(t) ==> token_ok(final(self).code, Some(Ok::<Token, LexerError>(t))),
            old(self).peeked matches Some(Some(Ok(t))) ==> r == Ok::<Token, ParseError>(t),
    {
        match self.advance() {
            Some(Ok(t)) => {
                self.last_position = t.end;
                Ok(t)
            },
            Some(Err(e)) => Err(ParseError::LexerError { source: e }),
            None => Err(ParseError::UnexpectedEof { last_position: self.last_position }),
        }
    }

    /// The rules of `token`: how it begins an expression, how it continues one, and the
    /// precedence of its infix use.
    pub fn precedence(token: TokenType) -> (r: (Option<PrefixRule>, Option<InfixRule>, Precedence))
        requires
            token != TokenType::Error,
            token != TokenType::Newline,
        ensures
            r == token_rules(token),
    {
        match token {
            TokenType::LeftParen => (Some(PrefixRule::Grouping), Some(InfixRule::Call), Precedence::HIGHEST),
            TokenType::RightParen => (None, None, Precedence::NONE),
            TokenType::Nil => (Some(PrefixRule::Nil), None, Precedence::NONE),
            TokenType::Bang => (Some(PrefixRule::Unary), None, Precedence::UNARY),
            TokenType::True | TokenType::False => (Some(PrefixRule::Bool), None, Precedence::NONE),
            TokenType::EqualEqual
            | TokenType::BantEqual
            | TokenType::Greater
            | TokenType::GreaterEqual
            | TokenType::Less
            | TokenType::LessEqual => (None, Some(InfixRule::Logical), Precedence::COMPARISON),
            TokenType::Minus => (Some(PrefixRule::Unary), Some(InfixRule::Binary), Precedence::SUM),
            TokenType::Plus => (Some(PrefixRule::Unary), Some(InfixRule::Binary), Precedence::SUM),
            TokenType::Star => (Some(PrefixRule::Unary), Some(InfixRule::Binary), Precedence::MULT),
            TokenType::Slash => (Some(PrefixRule::Unary), Some(InfixRule::Binary), Precedence::MULT),
            TokenType::Number => (Some(PrefixRule::Literal), None, Precedence::NONE),
            TokenType::String => (Some(PrefixRule::Literal), None, Precedence::NONE),
            TokenType::Print => (None, None, Precedence::NONE),
            TokenType::Semicolon => (None, None, Precedence::NONE),
            TokenType::Var => (None, None, Precedence::NONE),
            TokenType::Identifier => (Some(PrefixRule::Identifier), None, Precedence::NONE),
            TokenType::Equal => (None, Some(InfixRule::Assignment), Precedence::ASSIGNMENT),
            TokenType::LeftBrace | TokenType::RightBrace => (None, None, Precedence::NONE),
            TokenType::If | TokenType::Else => (None, None, Precedence::NONE),
            TokenType::While | TokenType::For => (None, None, Precedence::NONE),
            TokenType::And => (None, Some(InfixRule::LogicalAnd), Precedence::AND),
            TokenType::Or => (None, Some(InfixRule::LogicalOr), Precedence::AND),
            TokenType::Fun | TokenType::Comma | TokenType::Return => (None, None, Precedence::NONE),
            TokenType::Dot => (None, Some(InfixRule::Dot), Precedence::HIGHEST),
            TokenType::Class => (None, None, Precedence::NONE),
            TokenType::This => (Some(PrefixRule::This), None, Precedence::NONE),
            TokenType::Super => (Some(PrefixRule::Super), None, Precedence::NONE),
            _ => unreached(),
        }
    }

    /// An expression.
    pub fn expression(&mut self) -> (r: ExprResult)
        requires
            old(self).wf(),
        ensures
            r matches Ok(e) ==> well_bound(e),
            old(self).peeked matches Some(p) && !(p matches Some(Ok(t)) && token_rules(t.token_type).0 is Some) ==> r is Err,
            r matches Err(e) ==> error_in(final(self).code, e),
            final(self).stepped_from(old(self)),
            r is Ok ==> final(self).remaining() < old(self).remaining(),
        decreases old(self).remaining(), 8nat,
    {
        self.parse_by_precedence(Precedence::LOWEST)
    }

    /// An expression whose operators bind at least as strongly as `precedence`.
    fn parse_by_precedence(&mut self, precedence: Precedence) -> (r: ExprResult)
        requires
            old(self).wf(),
        ensures
            r matches Ok(e) ==> well_bound(e) && precedence.rank() <= node_rank(e.node),
            old(self).peeked matches Some(p) && !(p matches Some(Ok(t)) && token_rules(t.token_type).0 is Some) ==> r is Err,
            r matches Err(e) ==> error_in(final(self).code, e),
            final(self).stepped_from(old(self)),
            r is Ok ==> final(self).remaining() < old(self).remaining(),
        decreases old(self).remaining(), 7nat,
    {
        match self.peek() {
            Some(Ok(token)) => {
                let (prefix_fn, _, _) = Self::precedence(token.token_type);
                match prefix_fn {
                    Some(rule) => {
                        let mut result = match self.apply_prefix(rule) {
                            Ok(e) => e,
                            Err(e) => {
                                return Err(e);
                            },
                        };
                        loop
                            invariant
                                self.wf(),
                                self.code == old(self).code,
                                self.errors@ == old(self).errors@,
                                self.remaining() < old(self).remaining(),
                                well_bound(result),
                                precedence.rank() <= node_rank(result.node),
                            ensures
                                self.wf(),
                                self.code == old(self).code,
                                self.errors@ == old(self).errors@,
                                self.remaining() < old(self).remaining(),
                                well_bound(result),
                                precedence.rank() <= node_rank(result.node),
                            decreases self.remaining(),
                        {
                            match self.peek() {
                                Some(Ok(next_token)) => {
                                    let (_, infix_fn, infix_prec) = Self::precedence(next_token.token_type);
                                    match infix_fn {
                                        Some(rule) => {
                                            if precedence.level() <= infix_prec.level() {
                                                let ghost before = result;
                                                result = match self.apply_infix(rule, result) {
                                                    Ok(e) => e,
                                                    Err(e) => {
                                                        return Err(e);
                                                    },
                                                };
                                                proof {
                                                    lemma_infix_rank(rule, next_token.token_type, before, result.node);
                                                }
                                            } else {
                                                break;
                                            }
                                        },
                                        None => {
                                            break;
                                        },
                                    }
                                },
                                _ => {
                                    break;
                                },
                            }
                        }
                        Ok(result)
                    },
                    None => Err(ParseError::ExpectedExpression { span: token.span() }),
                }
            },
            _ => Err(ParseError::UnexpectedEof { last_position: self.last_position }),
        }
    }

    /// Applies a prefix rule to the token ahead.
    fn apply_prefix(&mut self, rule: PrefixRule) -> (r: ExprResult)
        requires
            old(self).wf(),
        ensures
            r matches Ok(e) ==> well_bound(e),
            r matches Ok(e) ==> prefix_builds(rule, e.node),
            r matches Err(e) ==> error_in(final(self).code, e),
            final(self).stepped_from(old(self)),
            r is Ok ==> final(self).remaining() < old(self).remaining(),
        decreases old(self).remaining(), 6nat,
    {
        match rule {
            PrefixRule::Grouping => self.grouping(),
            PrefixRule::Unary => self.unary(),
            PrefixRule::Nil => self.nil(),
            PrefixRule::Bool => self.bool(),
            PrefixRule::Literal => self.literal(),
            PrefixRule::Identifier => self.identifier_contant(),
            PrefixRule::This => self.this_expression(),
            PrefixRule::Super => self.super_expression(),
        }
    }

    /// Applies an infix rule to `left` and the token ahead.
    fn apply_infix(&mut self, rule: InfixRule, left: AstExpression) -> (r: ExprResult)
        requires
            well_bound(left),
            old(self).wf(),
            old(self).peeked matches Some(Some(Ok(t))) && token_rules(t.token_type).1 == Some(rule),
        ensures
            r matches Ok(e) ==> well_bound(e),
            r matches Ok(e) ==> (old(self).peeked matches Some(Some(Ok(t))) && infix_builds(rule, t.token_type, left, e.node)),
            r matches Err(e) ==> error_in(final(self).code, e),
            final(self).stepped_from(old(self)),
            r is Ok ==> final(self).remaining() < old(self).remaining(),
        decreases old(self).remaining(), 6nat,
    {
        match rule {
            InfixRule::Call => self.call(left),
            InfixRule::Logical => self.logical(left),
            InfixRule::Binary => self.binary(left),
            InfixRule::Assignment => self.assignment(left),
            InfixRule::LogicalAnd => self.logical_and(left),
            InfixRule::LogicalOr => self.logical_or(left),
            InfixRule::Dot => self.dot(left),
        }
    }

    /// A parenthesized expression.
    fn grouping(&mut self) -> (r: ExprResult)
        requires
            old(self).wf(),
        ensures
            r matches Ok(e) ==> well_bound(e),
            r matches Ok(e) ==> e.node is Grouping,
            r matches Err(e) ==> error_in(final(self).code, e),
            final(self).stepped_from(old(self)),
            r is Ok ==> final(self).remaining() < old(self).remaining(),
        decreases old(self).remaining(), 5nat,
    {
        let l = match self.consume(TokenType::LeftParen) {
            Ok(t) => t,
            Err(e) => {
                return Err(e);
            },
        };
        let result = match self.expression() {
            Ok(e) => e,
            Err(e) => {
                return Err(e);
            },
        };
        let r = match self.consume(TokenType::RightParen) {
            Ok(t) => t,
            Err(e) => {
                return Err(e);
            },
        };
        Ok(Expression::Grouping { expr: Box::new(result) }.ast(Span::new(l.start, r.end)))
    }

    /// A call of `left` with its arguments.
    fn call(&mut self, left: AstExpression) -> (r: ExprResult)
        requires
            well_bound(left),
            old(self).wf(),
        ensures
            r matches Ok(e) ==> well_bound(e),
            r matches Ok(e) ==> (e.node matches Expression::Call { calee, .. } && *calee == left),
            r matches Err(e) ==> error_in(final(self).code, e),
            final(self).stepped_from(old(self)),
            r is Ok ==> final(self).remaining() < old(self).remaining(),
        decreases old(self).remaining(), 5nat,
    {
        match self.consume(TokenType::LeftParen) {
            Ok(_) => {},
            Err(e) => {
                return Err(e);
            },
        }
        match self.match_token(TokenType::RightParen) {
            Err(e) => Err(e),
            Ok(Some(t)) => {
                let span = Span::new(left.span.start, t.end);
                Ok(Expression::Call { calee: Box::new(left), arguments: Vec::new() }.ast(span))
            },
            Ok(None) => {
                let mut params: Vec<AstExpression> = Vec::new();
                loop
                    invariant
                        self.wf(),
                        self.code == old(self).code,
                        self.errors@ == old(self).errors@,
                        self.remaining() < old(self).remaining(),
                        well_bound(left),
                        forall|a: int| 0 <= a < params@.len() ==> well_bound(#[trigger] params@[a]),
                    decreases self.remaining(),
                {
                    if params.len() % 256 == 255 {
                        let t = match self.consume_next() {
                            Ok(t) => t,
                            Err(e) => {
                                return Err(e);
                            },
                        };
                        return Err(ParseError::MaxFunCallArguments { span: t.span() });
                    }
                    let arg = match self.expression() {
                        Ok(e) => e,
                        Err(e) => {
                            return Err(e);
                        },
                    };
                    params.push(arg);
                    match self.match_token(TokenType::Comma) {
                        Err(e) => {
                            return Err(e);
                        },
                        Ok(Some(_)) => {
                            continue ;
                        },
                        Ok(None) => {},
                    }
                    let t = match self.consume(TokenType::RightParen) {
                        Ok(t) => t,
                        Err(e) => {
                            return Err(e);
                        },
                    };
                    let span = Span::new(left.span.start, t.end);
                    return Ok(Expression::Call { calee: Box::new(left), arguments: params }.ast(span));
                }
            },
        }
    }

    /// A property of `left`.
    fn dot(&mut self, left: AstExpression) -> (r: ExprResult)
        requires
            well_bound(left),
            old(self).wf(),
        ensures
            r matches Ok(e) ==> well_bound(e),
            r matches Ok(e) ==> (e.node matches Expression::GetProperty { object, .. } && *object == left),
            r matches Err(e) ==> error_in(final(self).code, e),
            final(self).stepped_from(old(self)),
            r is Ok ==> final(self).remaining() < old(self).remaining(),
        decreases old(self).remaining(), 5nat,
    {
        match self.consume(TokenType::Dot) {
            Ok(_) => {},
            Err(e) => {
                return Err(e);
            },
        }
        if self.peek().is_none() {
            return Err(
                ParseError::UnexpectedEofWithMessage {
                    last_position: self.last_position,
                    message: String::from_str("Expect property name after '.'."),
                },
            );
        }
        let name_token = match self.consume_or_else(TokenType::Identifier, "Expect property name after '.'.") {
            Ok(t) => t,
            Err(e) => {
                return Err(e);
            },
        };
        let name = String::from_str(name_token.span().slice(self.code));
        let span = Span::new(left.span.start, name_token.end);
        Ok(Expression::GetProperty { object: Box::new(left), name }.ast(span))
    }

    /// A negation or a logical not.
    fn unary(&mut self) -> (r: ExprResult)
        requires
            old(self).wf(),
        ensures
            r matches Ok(e) ==> well_bound(e),
            r matches Ok(e) ==> e.node is UnaryNegation || e.node is UnaryNot,
            old(self).peeked matches Some(Some(Ok(t))) ==> (r matches Ok(e) ==> (t.token_type == TokenType::Minus && e.node is UnaryNegation) || (t.token_type == TokenType::Bang && e.node is UnaryNot)),
            r matches Err(e) ==> error_in(final(self).code, e),
            final(self).stepped_from(old(self)),
            r is Ok ==> final(self).remaining() < old(self).remaining(),
        decreases old(self).remaining(), 5nat,
    {
        let operator = match self.consume_next() {
            Ok(t) => t,
            Err(e) => {
                return Err(e);
            },
        };
        let expression = match self.parse_by_precedence(Precedence::UNARY) {
            Ok(e) => e,
            Err(e) => {
                return Err(e);
            },
        };
        let span = Span::new(operator.start, expression.span.end);
        match operator.token_type {
            TokenType::Minus => Ok(Expression::UnaryNegation { expr: Box::new(expression) }.ast(span)),
            TokenType::Bang => Ok(Expression::UnaryNot { expr: Box::new(expression) }.ast(span)),
            _ => Err(ParseError::UnexpectedUnaryOperator { span: operator.span() }),
        }
    }

    /// `left and ...`.
    fn logical_and(&mut self, left: AstExpression) -> (r: ExprResult)
        requires
            well_bound(left),
            old(self).wf(),
        ensures
            r matches Ok(e) ==> well_bound(e),
            r matches Ok(e) ==> (e.node matches Expression::Logical(LogicalExpression::And { left: l, .. }) && *l == left),
            r matches Err(e) ==> error_in(final(self).code, e),
            final(self).stepped_from(old(self)),
            r is Ok ==> final(self).remaining() < old(self).remaining(),
        decreases old(self).remaining(), 5nat,
    {
        match self.consume(TokenType::And) {
            Ok(_) => {},
            Err(e) => {
                return Err(e);
            },
        }
        let right = match self.parse_by_precedence(Precedence::AND) {
            Ok(e) => e,
            Err(e) => {
                return Err(e);
            },
        };
        let span = Span::new(left.span.start, right.span.end);
        Ok(
            Expression::Logical(
                LogicalExpression::And { left: Box::new(left), right: Box::new(right) },
            ).ast(span),
        )
    }

    /// `left or ...`.
    fn logical_or(&mut self, left: AstExpression) -> (r: ExprResult)
        requires
            well_bound(left),
            old(self).wf(),
        ensures
            r matches Ok(e) ==> well_bound(e),
            r matches Ok(e) ==> (e.node matches Expression::Logical(LogicalExpression::Or { left: l, .. }) && *l == left),
            r matches Err(e) ==> error_in(final(self).code, e),
            final(self).stepped_from(old(self)),
            r is Ok ==> final(self).remaining() < old(self).remaining(),
        decreases old(self).remaining(), 5nat,
    {
        match self.consume(TokenType::Or) {
            Ok(_) => {},
            Err(e) => {
                return Err(e);
            },
        }
        let right = match self.parse_by_precedence(Precedence::OR) {
            Ok(e) => e,
            Err(e) => {
                return Err(e);
            },
        };
        let span = Span::new(left.span.start, right.span.end);
        Ok(
            Expression::Logical(
                LogicalExpression::Or { left: Box::new(left), right: Box::new(right) },
            ).ast(span),
        )
    }

    /// A comparison of `left` with what follows.
    fn logical(&mut self, left: AstExpression) -> (r: ExprResult)
        requires
            well_bound(left),
            old(self).wf(),
            old(self).peeked matches Some(Some(Ok(t))) && token_rules(t.token_type).1 == Some(InfixRule::Logical),
        ensures
            r matches Ok(e) ==> well_bound(e),
            r matches Ok(e) ==> (old(self).peeked matches Some(Some(Ok(t))) && compares(t.token_type, left, e.node)),
            r matches Err(e) ==> error_in(final(self).code, e),
            final(self).stepped_from(old(self)),
            r is Ok ==> final(self).remaining() < old(self).remaining(),
        decreases old(self).remaining(), 5nat,
    {
        let operator = match self.consume_next() {
            Ok(t) => t,
            Err(e) => {
                return Err(e);
            },
        };
        let right = match self.parse_by_precedence(Precedence::COMPARISON) {
            Ok(e) => e,
            Err(e) => {
                return Err(e);
            },
        };
        let span = Span::new(left.span.start, right.span.end);
        let (l, r) = (Box::new(left), Box::new(right));
        let node = match operator.token_type {
            TokenType::BantEqual => LogicalExpression::NotEqual { left: l, right: r },
            TokenType::EqualEqual => LogicalExpression::Equal { left: l, right: r },
            TokenType::Or => LogicalExpression::Or { left: l, right: r },
            TokenType::GreaterEqual => LogicalExpression::GreaterEqual { left: l, right: r },
            TokenType::LessEqual => LogicalExpression::LessEqual { left: l, right: r },
            TokenType::Greater => LogicalExpression::Greater { left: l, right: r },
            TokenType::Less => LogicalExpression::Less { left: l, right: r },
            _ => unreached(),
        };
        Ok(Expression::Logical(node).ast(span))
    }

    /// A number or string literal.
    fn literal(&mut self) -> (r: ExprResult)
        requires
            old(self).wf(),
        ensures
            r matches Ok(e) ==> well_bound(e),
            r matches Ok(e) ==> (e.node matches Expression::Literal(AstLiteral::NumberLiteral(_))) || (e.node matches Expression::Literal(AstLiteral::StringLiteral(_))),
            old(self).peeked matches Some(Some(Ok(t))) ==> (r matches Ok(e) ==> leaf_of(final(self).code, t, e)),
            old(self).peeked matches Some(Some(Ok(t))) ==> ((t.token_type == TokenType::Number || t.token_type == TokenType::String) ==> r is Ok),
            r matches Err(e) ==> error_in(final(self).code, e),
            final(self).stepped_from(old(self)),
            r is Ok ==> final(self).remaining() < old(self).remaining(),
        decreases old(self).remaining(), 5nat,
    {
        let next = match self.consume_next() {
            Ok(t) => t,
            Err(e) => {
                return Err(e);
            },
        };
        match next.token_type {
            TokenType::Number => Ok(
                Expression::Literal(AstLiteral::NumberLiteral(String::from_str(next.slice(self.code)))).ast(
                    next.span(),
                ),
            ),
            TokenType::String => {
                let text = substr(self.code, next.start + 1, next.end - 1);
                Ok(Expression::Literal(AstLiteral::StringLiteral(String::from_str(text))).ast(next.span()))
            },
            _ => {
                let mut expectation = String::from_str("Expected either Number or Star. Got ");
                expectation.append(next.slice(self.code));
                Err(ParseError::UnexpectedToken { span: next.span(), expectation })
            },
        }
    }

    /// `nil`.
    fn nil(&mut self) -> (r: ExprResult)
        requires
            old(self).wf(),
        ensures
            r matches Ok(e) ==> well_bound(e),
            r matches Ok(e) ==> e.node == Expression::Literal(AstLiteral::NilLiteral),
            old(self).peeked matches Some(Some(Ok(t))) ==> (r matches Ok(e) ==> leaf_of(final(self).code, t, e)),
            old(self).peeked matches Some(Some(Ok(t))) ==> (t.token_type == TokenType::Nil ==> r is Ok),
            r matches Err(e) ==> error_in(final(self).code, e),
            final(self).stepped_from(old(self)),
            r is Ok ==> final(self).remaining() < old(self).remaining(),
        decreases old(self).remaining(), 5nat,
    {
        let number = match self.consume(TokenType::Nil) {
            Ok(t) => t,
            Err(e) => {
                return Err(e);
            },
        };
        Ok(Expression::Literal(AstLiteral::NilLiteral).ast(number.span()))
    }

    /// `true` or `false`.
    fn bool(&mut self) -> (r: ExprResult)
        requires
            old(self).wf(),
        ensures
            r matches Ok(e) ==> well_bound(e),
            r matches Ok(e) ==> (e.node matches Expression::Literal(AstLiteral::BoolLiteral(_))),
            old(self).peeked matches Some(Some(Ok(t))) ==> (r matches Ok(e) ==> leaf_of(final(self).code, t, e)),
            old(self).peeked matches Some(Some(Ok(t))) ==> ((t.token_type == TokenType::True || t.token_type == TokenType::False) ==> r is Ok),
            r matches Err(e) ==> error_in(final(self).code, e),
            final(self).stepped_from(old(self)),
            r is Ok ==> final(self).remaining() < old(self).remaining(),
        decreases old(self).remaining(), 5nat,
    {
        let b = match self.consume_next() {
            Ok(t) => t,
            Err(e) => {
                return Err(e);
            },
        };
        match b.token_type {
            TokenType::True => Ok(Expression::Literal(AstLiteral::BoolLiteral(true)).ast(b.span())),
            TokenType::False => Ok(Expression::Literal(AstLiteral::BoolLiteral(false)).ast(b.span())),
            _ => Err(ParseError::UnsatisfiedBoolLiteral { span: b.span() }),
        }
    }

    /// An arithmetic operation on `left` and what follows, which binds one level more strongly.
    fn binary(&mut self, left: AstExpression) -> (r: ExprResult)
        requires
            well_bound(left),
            old(self).wf(),
            old(self).peeked matches Some(Some(Ok(t))) && token_rules(t.token_type).1 == Some(InfixRule::Binary),
        ensures
            r matches Ok(e) ==> well_bound(e),
            r matches Ok(e) ==> (old(self).peeked matches Some(Some(Ok(t))) && computes(t.token_type, left, e.node)),
            r matches Err(e) ==> error_in(final(self).code, e),
            final(self).stepped_from(old(self)),
            r is Ok ==> final(self).remaining() < old(self).remaining(),
        decreases old(self).remaining(), 5nat,
    {
        let operator = match self.advance() {
            Some(Ok(t)) => t,
            _ => unreached(),
        };
        let (_, _, prec) = Self::precedence(operator.token_type);
        let right = match self.parse_by_precedence(prec.next()) {
            Ok(e) => e,
            Err(e) => {
                return Err(e);
            },
        };
        let span = Span::new(left.span.start, right.span.end);
        let (l, r) = (Box::new(left), Box::new(right));
        match operator.token_type {
            TokenType::Minus => Ok(Expression::Subtract { left: l, right: r }.ast(span)),
            TokenType::Plus => Ok(Expression::Add { left: l, right: r }.ast(span)),
            TokenType::Star => Ok(Expression::Multiply { left: l, right: r }.ast(span)),
            TokenType::Slash => Ok(Expression::Divide { left: l, right: r }.ast(span)),
            _ => unreached(),
        }
    }

    /// An assignment to `left`, a variable or a property.
    fn assignment(&mut self, left: AstExpression) -> (r: ExprResult)
        requires
            well_bound(left),
            old(self).wf(),
        ensures
            r matches Ok(e) ==> well_bound(e),
            r matches Ok(e) ==> assigns(left, e.node),
            r matches Err(e) ==> error_in(final(self).code, e),
            final(self).stepped_from(old(self)),
            r is Ok ==> final(self).remaining() < old(self).remaining(),
        decreases old(self).remaining(), 5nat,
    {
        let equal_span = match self.peek() {
            Some(Ok(t)) => t.span(),
            _ => left.span,
        };
        match self.consume(TokenType::Equal) {
            Ok(_) => {},
            Err(e) => {
                return Err(e);
            },
        }
        let rvalue = match self.expression() {
            Ok(e) => e,
            Err(e) => {
                return Err(e);
            },
        };
        match left {
            Spanned { node: Expression::Identier(name), span } => {
                let lvalue = Expression::Identier(name).ast(span);
                let result_span = Span::new(lvalue.span.start, rvalue.span.end);
                Ok(Expression::Assignment { lvalue: Box::new(lvalue), rvalue: Box::new(rvalue) }.ast(result_span))
            },
            Spanned { node: Expression::GetProperty { object, name }, span: _ } => {
                let result_span = Span::new(object.span.start, rvalue.span.end);
                Ok(Expression::SetProperty { object, name, value: Box::new(rvalue) }.ast(result_span))
            },
            _ => Err(ParseError::InvalidAssignmentTarget { span: equal_span }),
        }
    }

    /// A name.
    fn identifier_contant(&mut self) -> (r: ExprResult)
        requires
            old(self).wf(),
        ensures
            r matches Ok(e) ==> (e.node matches Expression::Identier(name) && source_text(
                final(self).code,
                e.span.start as int,
                e.span.end as int,
                name@,
            )),
            r matches Ok(e) ==> well_bound(e),
            old(self).peeked matches Some(Some(Ok(t))) ==> (r matches Ok(e) ==> leaf_of(final(self).code, t, e)),
            old(self).peeked matches Some(Some(Ok(t))) ==> (t.token_type == TokenType::Identifier ==> r is Ok),
            r matches Err(e) ==> error_in(final(self).code, e),
            r matches Ok(e) ==> is_char_range(final(self).code, e.span.start, e.span.end),
            final(self).stepped_from(old(self)),
            r is Ok ==> final(self).remaining() < old(self).remaining(),
            r matches Ok(e) ==> e.node is Identier,
        decreases old(self).remaining(), 5nat,
    {
        let ident = match self.consume(TokenType::Identifier) {
            Ok(t) => t,
            Err(e) => {
                return Err(e);
            },
        };
        Ok(Expression::Identier(String::from_str(ident.slice(self.code))).ast(ident.span()))
    }

    /// `this`.
    fn this_expression(&mut self) -> (r: ExprResult)
        requires
            old(self).wf(),
        ensures
            r matches Ok(e) ==> well_bound(e),
            r matches Ok(e) ==> e.node is This,
            old(self).peeked matches Some(Some(Ok(t))) ==> (r matches Ok(e) ==> leaf_of(final(self).code, t, e)),
            old(self).peeked matches Some(Some(Ok(t))) ==> (t.token_type == TokenType::This ==> r is Ok),
            r matches Err(e) ==> error_in(final(self).code, e),
            final(self).stepped_from(old(self)),
            r is Ok ==> final(self).remaining() < old(self).remaining(),
        decreases old(self).remaining(), 5nat,
    {
        let token = match self.consume(TokenType::This) {
            Ok(t) => t,
            Err(e) => {
                return Err(e);
            },
        };
        Ok(Expression::This.ast(token.span()))
    }

    /// `super.` and a method name.
    fn super_expression(&mut self) -> (r: ExprResult)
        requires
            old(self).wf(),
        ensures
            r matches Ok(e) ==> well_bound(e),
            r matches Ok(e) ==> e.node is Super,
            r matches Err(e) ==> error_in(final(self).code, e),
            final(self).stepped_from(old(self)),
            r is Ok ==> final(self).remaining() < old(self).remaining(),
        decreases old(self).remaining(), 5nat,
    {
        let super_token = match self.consume(TokenType::Super) {
            Ok(t) => t,
            Err(e) => {
                return Err(e);
            },
        };
        match self.consume_or_else(TokenType::Dot, "Expect '.' after 'super'.") {
            Ok(_) => {},
            Err(e) => {
                return Err(e);
            },
        }
        let method_token = match self.consume_or_else(TokenType::Identifier, "Expect superclass method name.") {
            Ok(t) => t,
            Err(e) => {
                return Err(e);
            },
        };
        let method = String::from_str(method_token.slice(self.code));
        let span = Span::new(super_token.start, method_token.end);
        Ok(Expression::Super { method }.ast(span))
    }

    /// The next declaration, `None` at the end of the input.
    fn next_declaration(&mut self) -> (r: Option<StmtResult>)
        requires
            old(self).wf(),
        ensures
            r matches Some(Err(e)) ==> e.errors@.len() > 0,
            r matches Some(Ok(s)) ==> stmt_well_bound(s),
            old(self).peeked matches Some(Some(Ok(t))) ==> (r matches Some(Ok(s)) ==> declaration_kind(t.token_type, s.node)),
            r matches Some(Err(e)) ==> errors_in(final(self).code, e.errors@),
            final(self).stepped_from(old(self)),
            r matches Some(Ok(_)) ==> final(self).remaining() < old(self).remaining(),
            r is Some ==> (final(self).remaining() < old(self).remaining() || (final(self).peeked matches Some(Some(_)))),
            r is None ==> final(self).peeked == Some(None::<Result<Token, LexerError>>),
        decreases old(self).remaining(), 14nat,
    {
        match self.peek() {
            Some(_) => Some(self.declaration()),
            None => None,
        }
    }

    /// A declaration or a statement.
    fn declaration(&mut self) -> (r: StmtResult)
        requires
            old(self).wf(),
        ensures
            r matches Err(e) ==> e.errors@.len() > 0,
            r matches Ok(s) ==> stmt_well_bound(s),
            old(self).peeked matches Some(Some(Ok(t))) ==> (r matches Ok(s) ==> declaration_kind(t.token_type, s.node)),
            r matches Err(e) ==> errors_in(final(self).code, e.errors@),
            final(self).stepped_from(old(self)),
            r is Ok ==> final(self).remaining() < old(self).remaining(),
        decreases old(self).remaining(), 13nat,
    {
        if match self.check_token(TokenType::Var) {
            Ok(x) => x,
            Err(e) => {
                return Err(StmtError::single(e));
            },
        } {
            return self.var_declaration();
        }
        if match self.check_token(TokenType::Fun) {
            Ok(x) => x,
            Err(e) => {
                return Err(StmtError::single(e));
            },
        } {
            return self.fun_declaration();
        }
        if match self.check_token(TokenType::Class) {
            Ok(x) => x,
            Err(e) => {
                return Err(StmtError::single(e));
            },
        } {
            return self.class_declaration();
        }
        self.statement()
    }

    /// A function declaration.
    fn fun_declaration(&mut self) -> (r: StmtResult)
        requires
            old(self).wf(),
        ensures
            r matches Ok(s) ==> (s.node matches Stmt::Declarations(StmtDeclaration::Function(f))
                && source_text(final(self).code, f.name.span.start as int, f.name.span.end as int, f.name.node@)
                && forall|i: int|
                0 <= i < f.params@.len() ==> source_text(
                    final(self).code,
                    (#[trigger] f.params@[i]).span.start as int,
                    f.params@[i].span.end as int,
                    f.params@[i].node@,
                )),
            r matches Err(e) ==> e.errors@.len() > 0,
            r matches Ok(s) ==> stmt_well_bound(s),
            r matches Ok(s) ==> (s.node matches Stmt::Declarations(StmtDeclaration::Function(f)) && f.body.node is Block && valid_params(f.params@)),
            r matches Err(e) ==> errors_in(final(self).code, e.errors@),
            final(self).stepped_from(old(self)),
            r is Ok ==> final(self).remaining() < old(self).remaining(),
        decreases old(self).remaining(), 11nat,
    {
        let fun_token = match self.consume(TokenType::Fun) {
            Ok(x) => x,
            Err(e) => {
                return Err(StmtError::single(e));
            },
        };
        let name_token = match self.consume(TokenType::Identifier) {
            Ok(x) => x,
            Err(e) => {
                return Err(StmtError::single(e));
            },
        };
        let name = String::from_str(name_token.slice(self.code)).ast(name_token.span());
        let params = match self.parameters() {
            Ok(x) => x,
            Err(e) => {
                return Err(e);
            },
        };
        if !match self.check_token(TokenType::LeftBrace) {
            Ok(x) => x,
            Err(e) => {
                return Err(StmtError::single(e));
            },
        } {
            let t = match self.consume_next() {
            Ok(x) => x,
            Err(e) => {
                return Err(StmtError::single(e));
            },
        };
            return Err(
                StmtError::single(
                    ParseError::UnexpectedToken {
                        span: t.span(),
                        expectation: String::from_str("Expect '{' before function body."),
                    },
                ),
            );
        }
        let block = match self.block_statement() {
            Ok(x) => x,
            Err(e) => {
                return Err(e);
            },
        };
        let span = Span::new(fun_token.start, block.span.end);
        Ok(
            Stmt::Declarations(
                StmtDeclaration::Function(FunDeclaration { name, params, body: Box::new(block) }),
            ).ast(span),
        )
    }

    /// Whether some parameter is named `x`.
    fn has_param(params: &Vec<AstIdent>, x: &str) -> (r: bool)
        ensures
            r == exists|i: int| 0 <= i < params@.len() && params@[i].node@ == x@,
    {
        let mut i: usize = 0;
        while i < params.len()
            invariant
                0 <= i <= params@.len(),
                forall|k: int| 0 <= k < i ==> params@[k].node@ != x@,
            decreases params@.len() - i,
        {
            if str_eq(params[i].node.as_str(), x) {
                return true;
            }
            i = i + 1;
        }
        false
    }

    /// The parenthesized parameter list of a function or method: distinct names, at most 255.
    fn parameters(&mut self) -> (r: Result<Vec<AstIdent>, StmtError>)
        requires
            old(self).wf(),
        ensures
            r matches Ok(ps) ==> forall|i: int|
                0 <= i < ps@.len() ==> source_text(
                    final(self).code,
                    (#[trigger] ps@[i]).span.start as int,
                    ps@[i].span.end as int,
                    ps@[i].node@,
                ),
            r matches Err(e) ==> e.errors@.len() > 0,
            r matches Ok(ps) ==> valid_params(ps@),
            r matches Err(e) ==> errors_in(final(self).code, e.errors@),
            final(self).stepped_from(old(self)),
            r is Ok ==> final(self).remaining() < old(self).remaining(),
        decreases old(self).remaining(), 10nat,
    {
        let mut params: Vec<AstIdent> = Vec::new();
        match self.consume(TokenType::LeftParen) {
            Ok(_) => {},
            Err(e) => {
                return Err(StmtError::single(e));
            },
        }
        let ahead = match self.check_token(TokenType::RightParen) {
            Ok(x) => x,
            Err(e) => {
                return Err(StmtError::single(e));
            },
        };
        if !ahead {
            loop
                invariant
                    self.wf(),
                    self.code == old(self).code,
                    self.errors@ == old(self).errors@,
                    self.remaining() < old(self).remaining(),
                    valid_params(params@),
                    forall|q: int|
                        0 <= q < params@.len() ==> source_text(
                            self.code,
                            (#[trigger] params@[q]).span.start as int,
                            params@[q].span.end as int,
                            params@[q].node@,
                        ),
                ensures
                    self.wf(),
                    self.code == old(self).code,
                    self.errors@ == old(self).errors@,
                    self.remaining() < old(self).remaining(),
                    valid_params(params@),
                    forall|q: int|
                        0 <= q < params@.len() ==> source_text(
                            self.code,
                            (#[trigger] params@[q]).span.start as int,
                            params@[q].span.end as int,
                            params@[q].node@,
                        ),
                decreases self.remaining(),
            {
                let ident = match self.identifier_contant() {
                    Ok(x) => x,
                    Err(e) => {
                        return Err(StmtError::single(e));
                    },
                };
                match ident {
                    Spanned { node: Expression::Identier(x), span } => {
                        if params.len() == 255 {
                            return Err(StmtError::single(ParseError::MaxFunDeclarationParameters { span }));
                        }
                        if Self::has_param(&params, x.as_str()) {
                            return Err(StmtError::single(ParseError::VariableAlreadyDeclared { span }));
                        }
                        params.push(x.ast(span));
                    },
                    _ => unreached(),
                }
                let closing = match self.check_token(TokenType::RightParen) {
                    Ok(x) => x,
                    Err(e) => {
                        return Err(StmtError::single(e));
                    },
                };
                if !closing {
                    match self.consume_or_else(TokenType::Comma, "Expect ')' after parameters.") {
                        Ok(_) => {},
                        Err(e) => {
                            return Err(StmtError::single(e));
                        },
                    }
                } else {
                    break;
                }
            }
        }
        match self.consume(TokenType::RightParen) {
            Ok(_) => {},
            Err(e) => {
                return Err(StmtError::single(e));
            },
        }
        Ok(params)
    }

    /// A class declaration with its optional superclass and its methods.
    fn class_declaration(&mut self) -> (r: StmtResult)
        requires
            old(self).wf(),
        ensures
            r matches Err(e) ==> e.errors@.len() > 0,
            r matches Ok(s) ==> stmt_well_bound(s),
            r matches Ok(s) ==> (s.node matches Stmt::Declarations(StmtDeclaration::Class(c)) && (c.superclass matches Some(sup) ==> sup.node@ != c.name.node@) && forall|i: int| 0 <= i < c.methods@.len() ==> (#[trigger] c.methods@[i]).body.node is Block && valid_params(c.methods@[i].params@)),
            r matches Err(e) ==> errors_in(final(self).code, e.errors@),
            final(self).stepped_from(old(self)),
            r is Ok ==> final(self).remaining() < old(self).remaining(),
        decreases old(self).remaining(), 11nat,
    {
        let class_token = match self.consume(TokenType::Class) {
            Ok(x) => x,
            Err(e) => {
                return Err(StmtError::single(e));
            },
        };
        let name_token = match self.consume(TokenType::Identifier) {
            Ok(x) => x,
            Err(e) => {
                return Err(StmtError::single(e));
            },
        };
        let name = String::from_str(name_token.slice(self.code)).ast(name_token.span());
        let superclass = if match self.check_token(TokenType::Less) {
            Ok(x) => x,
            Err(e) => {
                return Err(StmtError::single(e));
            },
        } {
            match self.consume(TokenType::Less) {
            Ok(x) => x,
            Err(e) => {
                return Err(StmtError::single(e));
            },
        };
            let super_name = match self.consume_or_else(TokenType::Identifier, "Expect superclass name.") {
            Ok(x) => x,
            Err(e) => {
                return Err(StmtError::single(e));
            },
        };
            let super_ident = String::from_str(super_name.slice(self.code)).ast(super_name.span());
            if str_eq(super_ident.node.as_str(), name.node.as_str()) {
                return Err(StmtError::single(ParseError::InheritFromSelf { span: super_name.span() }));
            }
            Some(super_ident)
        } else {
            None
        };
        match self.consume(TokenType::LeftBrace) {
            Ok(x) => x,
            Err(e) => {
                return Err(StmtError::single(e));
            },
        };
        let mut methods: Vec<MethodDeclaration> = Vec::new();
        loop
            invariant
                self.wf(),
                self.code == old(self).code,
                self.errors@ == old(self).errors@,
                self.remaining() < old(self).remaining(),
                forall|m: int| 0 <= m < methods@.len() ==> stmt_well_bound(*(#[trigger] methods@[m]).body),
                forall|m: int| 0 <= m < methods@.len() ==> (#[trigger] methods@[m]).body.node is Block && valid_params(methods@[m].params@),
            ensures
                self.wf(),
                self.code == old(self).code,
                self.errors@ == old(self).errors@,
                self.remaining() < old(self).remaining(),
                forall|m: int| 0 <= m < methods@.len() ==> stmt_well_bound(*(#[trigger] methods@[m]).body),
                forall|m: int| 0 <= m < methods@.len() ==> (#[trigger] methods@[m]).body.node is Block && valid_params(methods@[m].params@),
            decreases self.remaining(),
        {
            let at_end = match self.check_token(TokenType::RightBrace) {
            Ok(x) => x,
            Err(e) => {
                return Err(StmtError::single(e));
            },
        };
            if at_end {
                break;
            }
            let m = match self.method_declaration() {
            Ok(x) => x,
            Err(e) => {
                return Err(e);
            },
        };
            methods.push(m);
        }
        let right_brace = match self.consume(TokenType::RightBrace) {
            Ok(x) => x,
            Err(e) => {
                return Err(StmtError::single(e));
            },
        };
        let span = Span::new(class_token.start, right_brace.end);
        Ok(
            Stmt::Declarations(
                StmtDeclaration::Class(ClassDeclaration { name, superclass, methods }),
            ).ast(span),
        )
    }

    /// A method: its name, parameters and body.
    fn method_declaration(&mut self) -> (r: Result<MethodDeclaration, StmtError>)
        requires
            old(self).wf(),
        ensures
            r matches Err(e) ==> e.errors@.len() > 0,
            r matches Ok(m) ==> stmt_well_bound(*m.body),
            r matches Ok(m) ==> m.body.node is Block && valid_params(m.params@),
            r matches Err(e) ==> errors_in(final(self).code, e.errors@),
            final(self).stepped_from(old(self)),
            r is Ok ==> final(self).remaining() < old(self).remaining(),
        decreases old(self).remaining(), 11nat,
    {
        let name_token = match self.consume(TokenType::Identifier) {
            Ok(x) => x,
            Err(e) => {
                return Err(StmtError::single(e));
            },
        };
        let name = String::from_str(name_token.slice(self.code)).ast(name_token.span());
        let params = match self.parameters() {
            Ok(x) => x,
            Err(e) => {
                return Err(e);
            },
        };
        if !match self.check_token(TokenType::LeftBrace) {
            Ok(x) => x,
            Err(e) => {
                return Err(StmtError::single(e));
            },
        } {
            let t = match self.consume_next() {
            Ok(x) => x,
            Err(e) => {
                return Err(StmtError::single(e));
            },
        };
            return Err(
                StmtError::single(
                    ParseError::UnexpectedToken {
                        span: t.span(),
                        expectation: String::from_str("Expect '{' before method body."),
                    },
                ),
            );
        }
        let body = match self.block_statement() {
            Ok(x) => x,
            Err(e) => {
                return Err(e);
            },
        };
        Ok(MethodDeclaration { name, params, body: Box::new(body) })
    }

    /// A variable declaration with an optional initializer.
    fn var_declaration(&mut self) -> (r: StmtResult)
        requires
            old(self).wf(),
        ensures
            r matches Err(e) ==> e.errors@.len() > 0,
            r matches Ok(s) ==> stmt_well_bound(s),
            r matches Ok(s) ==> (s.node matches Stmt::Declarations(StmtDeclaration::Variable { .. })),
            r matches Err(e) ==> errors_in(final(self).code, e.errors@),
            final(self).stepped_from(old(self)),
            r is Ok ==> final(self).remaining() < old(self).remaining(),
        decreases old(self).remaining(), 11nat,
    {
        let decl_token = match self.consume(TokenType::Var) {
            Ok(x) => x,
            Err(e) => {
                return Err(StmtError::single(e));
            },
        };
        let ident_token = match self.consume_or_else(TokenType::Identifier, "Expect variable name.") {
            Ok(x) => x,
            Err(e) => {
                return Err(StmtError::single(e));
            },
        };
        let var_ident = String::from_str(ident_token.slice(self.code)).ast(ident_token.span());
        let mut expr: Option<AstExpression> = None;
        let eq = match self.match_token(TokenType::Equal) {
            Ok(x) => x,
            Err(e) => {
                return Err(StmtError::single(e));
            },
        };
        if eq.is_some() {
            expr = Some(match self.expression() {
            Ok(x) => x,
            Err(e) => {
                return Err(StmtError::single(e));
            },
        });
        }
        match self.consume(TokenType::Semicolon) {
            Ok(x) => x,
            Err(e) => {
                return Err(StmtError::single(e));
            },
        };
        let end = match &expr {
            Some(e) => e.span.end,
            None => var_ident.span.end,
        };
        let span = Span::new(decl_token.start, end);
        Ok(Stmt::Declarations(StmtDeclaration::Variable { ident: var_ident, expr }).ast(span))
    }

    /// A statement.
    fn statement(&mut self) -> (r: StmtResult)
        requires
            old(self).wf(),
        ensures
            r matches Err(e) ==> e.errors@.len() > 0,
            r matches Ok(s) ==> stmt_well_bound(s),
            old(self).peeked matches Some(Some(Ok(t))) ==> (r matches Ok(s) ==> statement_kind(t.token_type, s.node)),
            r matches Err(e) ==> errors_in(final(self).code, e.errors@),
            final(self).stepped_from(old(self)),
            r is Ok ==> final(self).remaining() < old(self).remaining(),
        decreases old(self).remaining(), 12nat,
    {
        if match self.check_token(TokenType::Print) {
            Ok(x) => x,
            Err(e) => {
                return Err(StmtError::single(e));
            },
        } {
            return self.print_statement();
        }
        if match self.check_token(TokenType::Return) {
            Ok(x) => x,
            Err(e) => {
                return Err(StmtError::single(e));
            },
        } {
            return self.return_statement();
        }
        if match self.check_token(TokenType::If) {
            Ok(x) => x,
            Err(e) => {
                return Err(StmtError::single(e));
            },
        } {
            return self.if_statement();
        }
        if match self.check_token(TokenType::While) {
            Ok(x) => x,
            Err(e) => {
                return Err(StmtError::single(e));
            },
        } {
            return self.while_statement();
        }
        if match self.check_token(TokenType::For) {
            Ok(x) => x,
            Err(e) => {
                return Err(StmtError::single(e));
            },
        } {
            return self.for_statement();
        }
        if match self.check_token(TokenType::LeftBrace) {
            Ok(x) => x,
            Err(e) => {
                return Err(StmtError::single(e));
            },
        } {
            return self.block_statement();
        }
        let result = match self.expression() {
            Ok(x) => x,
            Err(e) => {
                return Err(StmtError::single(e));
            },
        };
        let t = match self.consume(TokenType::Semicolon) {
            Ok(x) => x,
            Err(e) => {
                return Err(StmtError::single(e));
            },
        };
        let span = Span::new(result.span.start, t.end);
        Ok(Stmt::Expression(result).ast(span))
    }

    /// `print` and an expression.
    fn print_statement(&mut self) -> (r: StmtResult)
        requires
            old(self).wf(),
        ensures
            r matches Err(e) ==> e.errors@.len() > 0,
            r matches Ok(s) ==> stmt_well_bound(s),
            r matches Ok(s) ==> s.node is Print,
            r matches Err(e) ==> errors_in(final(self).code, e.errors@),
            final(self).stepped_from(old(self)),
            r is Ok ==> final(self).remaining() < old(self).remaining(),
        decreases old(self).remaining(), 11nat,
    {
        let print_token = match self.consume(TokenType::Print) {
            Ok(x) => x,
            Err(e) => {
                return Err(StmtError::single(e));
            },
        };
        let expr = match self.expression() {
            Ok(x) => x,
            Err(e) => {
                return Err(StmtError::single(e));
            },
        };
        let span = Span::new(print_token.start, expr.span.end);
        match self.consume(TokenType::Semicolon) {
            Ok(x) => x,
            Err(e) => {
                return Err(StmtError::single(e));
            },
        };
        Ok(Stmt::Print(expr).ast(span))
    }

    /// `return` with an optional value.
    fn return_statement(&mut self) -> (r: StmtResult)
        requires
            old(self).wf(),
        ensures
            r matches Err(e) ==> e.errors@.len() > 0,
            r matches Ok(s) ==> stmt_well_bound(s),
            r matches Ok(s) ==> s.node is Return,
            r matches Err(e) ==> errors_in(final(self).code, e.errors@),
            final(self).stepped_from(old(self)),
            r is Ok ==> final(self).remaining() < old(self).remaining(),
        decreases old(self).remaining(), 11nat,
    {
        let return_token = match self.consume(TokenType::Return) {
            Ok(x) => x,
            Err(e) => {
                return Err(StmtError::single(e));
            },
        };
        let semi = match self.match_token(TokenType::Semicolon) {
            Ok(x) => x,
            Err(e) => {
                return Err(StmtError::single(e));
            },
        };
        if let Some(semi) = semi {
            let span = Span::new(return_token.start, semi.end);
            return Ok(
                Stmt::Return(
                    String::from_str(return_token.slice(self.code)).ast(return_token.span()),
                    None,
                ).ast(span),
            );
        }
        let expr = match self.expression() {
            Ok(x) => x,
            Err(e) => {
                return Err(StmtError::single(e));
            },
        };
        let span = Span::new(return_token.start, expr.span.end);
        match self.consume(TokenType::Semicolon) {
            Ok(x) => x,
            Err(e) => {
                return Err(StmtError::single(e));
            },
        };
        Ok(
            Stmt::Return(
                String::from_str(return_token.slice(self.code)).ast(return_token.span()),
                Some(expr),
            ).ast(span),
        )
    }

    /// A block of declarations in braces.
    fn block_statement(&mut self) -> (r: StmtResult)
        requires
            old(self).wf(),
        ensures
            r matches Err(e) ==> e.errors@.len() > 0,
            r matches Ok(s) ==> stmt_well_bound(s),
            r matches Ok(s) ==> s.node is Block,
            r matches Err(e) ==> errors_in(final(self).code, e.errors@),
            final(self).stepped_from(old(self)),
            r is Ok ==> final(self).remaining() < old(self).remaining(),
        decreases old(self).remaining(), 11nat,
    {
        let left = match self.consume(TokenType::LeftBrace) {
            Ok(x) => x,
            Err(e) => {
                return Err(StmtError::single(e));
            },
        };
        let mut statements: Vec<AstStmt> = Vec::new();
        if !match self.check_token(TokenType::RightBrace) {
            Ok(x) => x,
            Err(e) => {
                return Err(StmtError::single(e));
            },
        } {
            loop
                invariant
                    self.wf(),
                    self.code == old(self).code,
                    self.errors@ == old(self).errors@,
                    self.remaining() < old(self).remaining(),
                    forall|m: int| 0 <= m < statements@.len() ==> stmt_well_bound(#[trigger] statements@[m]),
                ensures
                    self.wf(),
                    self.code == old(self).code,
                    self.errors@ == old(self).errors@,
                    self.remaining() < old(self).remaining(),
                    forall|m: int| 0 <= m < statements@.len() ==> stmt_well_bound(#[trigger] statements@[m]),
                decreases self.remaining(),
            {
                match self.next_declaration() {
                    Some(Ok(stmt)) => {
                        statements.push(stmt);
                    },
                    Some(Err(e)) => {
                        self.syncronize();
                        return Err(e);
                    },
                    None => {
                        break;
                    },
                }
                if match self.check_token(TokenType::RightBrace) {
            Ok(x) => x,
            Err(e) => {
                return Err(StmtError::single(e));
            },
        } {
                    break;
                }
            }
        }
        let right = match self.consume(TokenType::RightBrace) {
            Ok(x) => x,
            Err(e) => {
                return Err(StmtError::single(e));
            },
        };
        Ok(Stmt::Block(BlockStmt(statements)).ast(Span::new(left.start, right.end)))
    }

    /// A `while` loop.
    fn while_statement(&mut self) -> (r: StmtResult)
        requires
            old(self).wf(),
        ensures
            r matches Err(e) ==> e.errors@.len() > 0,
            r matches Ok(s) ==> stmt_well_bound(s),
            r matches Ok(s) ==> s.node is While,
            r matches Err(e) ==> errors_in(final(self).code, e.errors@),
            final(self).stepped_from(old(self)),
            r is Ok ==> final(self).remaining() < old(self).remaining(),
        decreases old(self).remaining(), 11nat,
    {
        let while_token = match self.consume(TokenType::While) {
            Ok(x) => x,
            Err(e) => {
                return Err(StmtError::single(e));
            },
        };
        match self.consume(TokenType::LeftParen) {
            Ok(x) => x,
            Err(e) => {
                return Err(StmtError::single(e));
            },
        };
        let condition = match self.expression() {
            Ok(x) => x,
            Err(e) => {
                return Err(StmtError::single(e));
            },
        };
        match self.consume(TokenType::RightParen) {
            Ok(x) => x,
            Err(e) => {
                return Err(StmtError::single(e));
            },
        };
        let loop_block = match self.statement() {
            Ok(x) => x,
            Err(e) => {
                return Err(e);
            },
        };
        let span = Span::new(while_token.start, loop_block.span.end);
        Ok(Stmt::While(WhileStmt { condition, loop_block: Box::new(loop_block) }).ast(span))
    }

    /// An `if` with an optional `else`.
    fn if_statement(&mut self) -> (r: StmtResult)
        requires
            old(self).wf(),
        ensures
            r matches Err(e) ==> e.errors@.len() > 0,
            r matches Ok(s) ==> stmt_well_bound(s),
            r matches Ok(s) ==> s.node is If,
            r matches Ok(s) ==> (s.node matches Stmt::If(i) && s.span.end == (match i.else_block {
                Some(b) => b.span.end,
                None => i.then_block.span.end,
            })),
            r matches Ok(s) ==> (s.node matches Stmt::If(i) ==> (i.else_block is None ==> !(
            final(self).ahead() matches Some(Ok(t)) && t.token_type == TokenType::Else))),
            r matches Err(e) ==> errors_in(final(self).code, e.errors@),
            final(self).stepped_from(old(self)),
            r is Ok ==> final(self).remaining() < old(self).remaining(),
        decreases old(self).remaining(), 11nat,
    {
        let if_token = match self.consume(TokenType::If) {
            Ok(x) => x,
            Err(e) => {
                return Err(StmtError::single(e));
            },
        };
        match self.consume(TokenType::LeftParen) {
            Ok(x) => x,
            Err(e) => {
                return Err(StmtError::single(e));
            },
        };
        let condition = match self.expression() {
            Ok(x) => x,
            Err(e) => {
                return Err(StmtError::single(e));
            },
        };
        match self.consume(TokenType::RightParen) {
            Ok(x) => x,
            Err(e) => {
                return Err(StmtError::single(e));
            },
        };
        let then_block = match self.statement() {
            Ok(x) => x,
            Err(e) => {
                return Err(e);
            },
        };
        let mut else_block: Option<Box<AstStmt>> = None;
        if match self.check_token(TokenType::Else) {
            Ok(x) => x,
            Err(e) => {
                return Err(StmtError::single(e));
            },
        } {
            match self.consume(TokenType::Else) {
            Ok(x) => x,
            Err(e) => {
                return Err(StmtError::single(e));
            },
        };
            else_block = Some(Box::new(match self.statement() {
            Ok(x) => x,
            Err(e) => {
                return Err(e);
            },
        }));
        }
        let end = match &else_block {
            Some(b) => b.span.end,
            None => then_block.span.end,
        };
        let span = Span::new(if_token.start, end);
        Ok(Stmt::If(IfStmt { condition, then_block: Box::new(then_block), else_block }).ast(span))
    }

    /// After an error in a clause of a `for`: skips to the `)`, and records that a `;` was
    /// expected there.
    fn recover_in_for_clause(&mut self, collected_errors: &mut Vec<ParseError>) -> (r: Result<(), StmtError>)
        requires
            old(self).wf(),
            errors_in(old(self).code, old(collected_errors)@),
        ensures
            r matches Err(e) ==> e.errors@.len() > 0,
            r matches Err(e) ==> errors_in(final(self).code, e.errors@),
            errors_in(final(self).code, final(collected_errors)@),
            final(self).stepped_from(old(self)),
            final(collected_errors)@.len() >= old(collected_errors)@.len(),
            r is Err ==> final(collected_errors)@ == old(collected_errors)@,
            r is Err ==> (final(self).peeked matches Some(Some(Err(_)))),
            r is Ok ==> match final(self).peeked {
                Some(Some(Ok(t))) => {
                    &&& t.token_type == TokenType::RightParen
                    &&& final(collected_errors)@.len() == old(collected_errors)@.len() + 1
                    &&& final(collected_errors)@.drop_last() == old(collected_errors)@
                    &&& final(collected_errors)@.last() matches ParseError::UnexpectedToken {
                        span,
                        expectation,
                    } && span == Span { start: t.start, end: t.end } && expectation@
                        == "Expect ';' after expression."@
                },
                _ => final(self).peeked == Some(None::<Result<Token, LexerError>>)
                    && final(collected_errors)@ == old(collected_errors)@,
            },
    {
        loop
            invariant
                self.wf(),
                self.code == old(self).code,
                self.errors@ == old(self).errors@,
                self.remaining() <= old(self).remaining(),
                old(self).peeked matches Some(Some(_)) ==> (self.remaining() < old(self).remaining()
                    || self.peeked == old(self).peeked),
                collected_errors@ == old(collected_errors)@,
                errors_in(old(self).code, old(collected_errors)@),
            ensures
                self.wf(),
                self.code == old(self).code,
                self.errors@ == old(self).errors@,
                self.remaining() <= old(self).remaining(),
                old(self).peeked matches Some(Some(_)) ==> (self.remaining() < old(self).remaining()
                    || self.peeked == old(self).peeked),
                collected_errors@ == old(collected_errors)@,
                (self.peeked matches Some(Some(Ok(t))) && t.token_type == TokenType::RightParen)
                    || self.ahead() is None,
            decreases self.remaining(),
        {
            let at_paren = match self.check_token(TokenType::RightParen) {
                Ok(x) => x,
                Err(e) => {
                    return Err(StmtError::single(e));
                },
            };
            if at_paren {
                break;
            }
            if self.advance().is_none() {
                break;
            }
        }
        if let Some(Ok(t)) = self.peek() {
            collected_errors.push(
                ParseError::UnexpectedToken {
                    span: t.span(),
                    expectation: String::from_str("Expect ';' after expression."),
                },
            );
        }
        Ok(())
    }

    /// A `for` loop: initializer, condition and increment, each optional, and the body.
    fn for_statement(&mut self) -> (r: StmtResult)
        requires
            old(self).wf(),
        ensures
            r matches Ok(s) ==> (s.node matches Stmt::For(f) && (f.initializer matches Some(init) ==> (init.node is Expression || init.node matches Stmt::Declarations(StmtDeclaration::Variable { .. }))) && (f.increment matches Some(inc) ==> inc.node is Expression)),
            r matches Err(e) ==> e.errors@.len() > 0,
            r matches Ok(s) ==> stmt_well_bound(s),
            r matches Ok(s) ==> s.node is For,
            r matches Err(e) ==> errors_in(final(self).code, e.errors@),
            final(self).stepped_from(old(self)),
            r is Ok ==> final(self).remaining() < old(self).remaining(),
        decreases old(self).remaining(), 11nat,
    {
        let for_token = match self.consume(TokenType::For) {
            Ok(x) => x,
            Err(e) => {
                return Err(StmtError::single(e));
            },
        };
        match self.consume(TokenType::LeftParen) {
            Ok(_) => {},
            Err(e) => {
                return Err(StmtError::single(e));
            },
        }
        let mut collected_errors: Vec<ParseError> = Vec::new();
        let is_var = match self.check_token(TokenType::Var) {
            Ok(x) => x,
            Err(e) => {
                return Err(StmtError::single(e));
            },
        };
        let init_stmt: Option<Box<AstStmt>> = if is_var {
            match self.var_declaration() {
                Ok(d) => Some(Box::new(d)),
                Err(e) => {
                    return Err(e);
                },
            }
        } else {
            let is_semi = match self.check_token(TokenType::Semicolon) {
                Ok(x) => x,
                Err(e) => {
                    return Err(StmtError::single(e));
                },
            };
            if is_semi {
                match self.consume(TokenType::Semicolon) {
                    Ok(_) => {},
                    Err(e) => {
                        return Err(StmtError::single(e));
                    },
                }
                None
            } else {
                match self.expression() {
                    Ok(expression) => {
                        match self.consume_or_else(TokenType::Semicolon, "Expect ';' after expression.") {
                            Ok(_) => {},
                            Err(e) => {
                                return Err(StmtError::single(e));
                            },
                        }
                        let span = Span::new(expression.span.start, expression.span.end);
                        Some(Box::new(Stmt::Expression(expression).ast(span)))
                    },
                    Err(err) => {
                        collected_errors.push(err);
                        match self.recover_in_for_clause(&mut collected_errors) {
                            Ok(_) => {},
                            Err(e) => {
                                return Err(e);
                            },
                        }
                        None
                    },
                }
            }
        };
        assert(init_stmt matches Some(b) ==> stmt_well_bound(*b));
        let condition: Option<Box<AstExpression>> = if collected_errors.len() == 0 {
            let semi = match self.match_token(TokenType::Semicolon) {
                Ok(x) => x,
                Err(e) => {
                    return Err(StmtError::single(e));
                },
            };
            if semi.is_some() {
                None
            } else {
                let at_paren = match self.check_token(TokenType::RightParen) {
                    Ok(x) => x,
                    Err(e) => {
                        return Err(StmtError::single(e));
                    },
                };
                if at_paren {
                    None
                } else {
                    match self.expression() {
                        Ok(expression) => {
                            match self.consume_or_else(TokenType::Semicolon, "Expect ';' after expression.") {
                                Ok(_) => {},
                                Err(e) => {
                                    return Err(StmtError::single(e));
                                },
                            }
                            Some(Box::new(expression))
                        },
                        Err(err) => {
                            collected_errors.push(err);
                            match self.recover_in_for_clause(&mut collected_errors) {
                                Ok(_) => {},
                                Err(e) => {
                                    return Err(e);
                                },
                            }
                            None
                        },
                    }
                }
            }
        } else {
            None
        };
        assert(condition matches Some(c) ==> well_bound(*c));
        if collected_errors.len() > 0 {
            return Err(StmtError { errors: collected_errors });
        }
        let at_paren = match self.check_token(TokenType::RightParen) {
            Ok(x) => x,
            Err(e) => {
                return Err(StmtError::single(e));
            },
        };
        let increment_stmt: Option<Box<AstStmt>> = if at_paren {
            None
        } else {
            let expression = match self.expression() {
                Ok(x) => x,
                Err(e) => {
                    return Err(StmtError::single(e));
                },
            };
            let span = Span::new(expression.span.start, expression.span.end);
            Some(Box::new(Stmt::Expression(expression).ast(span)))
        };
        assert(increment_stmt matches Some(b) ==> stmt_well_bound(*b));
        match self.consume(TokenType::RightParen) {
            Ok(_) => {},
            Err(e) => {
                return Err(StmtError::single(e));
            },
        }
        let block = match self.statement() {
            Ok(x) => x,
            Err(e) => {
                return Err(e);
            },
        };
        let span = Span::new(for_token.start, block.span.end);
        Ok(
            Stmt::For(
                ForStmt {
                    condition,
                    initializer: init_stmt,
                    increment: increment_stmt,
                    block: Box::new(block),
                },
            ).ast(span),
        )
    }

    /// Parses the whole input: the declarations that parse, in order; the errors of the others
    /// are collected, and parsing resumes after each.
    pub fn parse(&mut self) -> (r: Vec<AstStmt>)
        requires
            old(self).wf(),
        ensures
            forall|i: int| 0 <= i < r@.len() ==> stmt_well_bound(#[trigger] r@[i]),
            final(self).wf(),
            errors_in(final(self).code, final(self).errors@),
            final(self).code == old(self).code,
            final(self).errors@.len() >= old(self).errors@.len(),
            final(self).peeked == Some(None::<Result<Token, LexerError>>),
    {
        let mut result: Vec<AstStmt> = Vec::new();
        loop
            invariant
                self.wf(),
                self.code == old(self).code,
                self.errors@.len() >= old(self).errors@.len(),
                forall|m: int| 0 <= m < result@.len() ==> stmt_well_bound(#[trigger] result@[m]),
            ensures
                self.wf(),
                self.code == old(self).code,
                self.errors@.len() >= old(self).errors@.len(),
                forall|m: int| 0 <= m < result@.len() ==> stmt_well_bound(#[trigger] result@[m]),
                self.peeked == Some(None::<Result<Token, LexerError>>),
            decreases self.remaining(),
        {
            let ghost before = self.remaining();
            match self.next_declaration() {
                None => {
                    break;
                },
                Some(Ok(stmt)) => {
                    result.push(stmt);
                },
                Some(Err(e)) => {
                    let mut errs = e.errors;
                    self.errors.append(&mut errs);
                    self.syncronize();
                },
            }
            assert(self.remaining() < before);
        }
        result
    }
}

} // verus!
