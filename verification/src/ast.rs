//! The syntax tree: statements and expressions as closed sums, their
//! mathematical models, and the canonical text that each node renders to.

use vstd::prelude::*;
use vstd::string::StringExecFns;
use crate::text::{concat, decimal, decimal_text, join, lemma_concat_take};
use crate::token::{Token, TokenView};

verus! {

/// The model of an [`Identifier`].
pub struct IdentifierView {
    pub token: TokenView,
    pub value: Seq<char>,
}

/// The model of an [`Expression`], and of each node type that is one.
#[allow(inconsistent_fields)]
pub enum ExpressionView {
    Identifier { token: TokenView, value: Seq<char> },
    IntegerLiteral { token: TokenView, value: int },
    Boolean { token: TokenView, value: bool },
    Prefix { token: TokenView, operator: Seq<char>, right: Box<ExpressionView> },
    Infix {
        token: TokenView,
        left: Box<ExpressionView>,
        operator: Seq<char>,
        right: Box<ExpressionView>,
    },
    If {
        token: TokenView,
        condition: Box<ExpressionView>,
        consequence: BlockView,
        alternative: Option<BlockView>,
    },
    Function { token: TokenView, parameters: Seq<IdentifierView>, body: BlockView },
    Call { token: TokenView, function: Box<ExpressionView>, arguments: Seq<ExpressionView> },
}

/// The model of a [`Statement`].
pub enum StatementView {
    Let { token: TokenView, name: Option<IdentifierView>, value: Option<ExpressionView> },
    Return { token: TokenView, value: Option<ExpressionView> },
    Expression { token: TokenView, expression: Option<ExpressionView> },
}

/// The model of a [`BlockStatement`].
pub struct BlockView {
    pub token: TokenView,
    pub statements: Seq<StatementView>,
}

/// The model of a [`Program`].
pub struct ProgramView {
    pub statements: Seq<StatementView>,
}

/// A name.
#[derive(Debug)]
pub struct Identifier {
    pub token: Token,
    pub value: String,
}

/// An integer literal with its value.
#[derive(Debug)]
pub struct IntegerLiteral {
    pub token: Token,
    pub value: i32,
}

/// `true` or `false`.
#[derive(Debug)]
pub struct Boolean {
    pub token: Token,
    pub value: bool,
}

/// An operator in front of its operand.
#[derive(Debug)]
pub struct PrefixExpression {
    pub token: Token,
    pub operator: String,
    pub right: Box<Expression>,
}

/// An operator between its two operands.
#[derive(Debug)]
pub struct InfixExpression {
    pub token: Token,
    pub left: Box<Expression>,
    pub right: Box<Expression>,
    pub operator: String,
}

/// A condition with the block that follows from it and, optionally, the
/// block that follows otherwise.
#[derive(Debug)]
pub struct IfExpression {
    pub token: Token,
    pub condition: Box<Expression>,
    pub consequence: BlockStatement,
    pub alternative: Option<BlockStatement>,
}

/// A call of a function on arguments.
#[derive(Debug)]
pub struct CallExpression {
    pub token: Token,
    pub function: Box<Expression>,
    pub arguments: Vec<Expression>,
}

/// A function with its parameters and its body.
#[derive(Debug)]
pub struct FunctionLiteral {
    pub token: Token,
    pub parameters: Vec<Identifier>,
    pub body: BlockStatement,
}

/// The statements between a pair of braces.
#[derive(Debug)]
pub struct BlockStatement {
    pub token: Token,
    pub statements: Vec<Statement>,
}

/// A whole program: its statements in source order.
#[derive(Debug)]
pub struct Program {
    pub statements: Vec<Statement>,
}

/// An expression.
#[derive(Debug)]
pub enum Expression {
    Identifier(Identifier),
    IntegerLiteral(IntegerLiteral),
    Boolean(Boolean),
    Prefix(PrefixExpression),
    Infix(InfixExpression),
    If(IfExpression),
    Function(FunctionLiteral),
    Call(CallExpression),
}

/// A statement.
#[derive(Debug)]
pub enum Statement {
    Let { token: Token, name: Option<Identifier>, value: Option<Expression> },
    Return { token: Token, value: Option<Expression> },
    Expression { token: Token, expression: Option<Expression> },
}

impl View for Identifier {
    type V = IdentifierView;

    open spec fn view(&self) -> IdentifierView {
        IdentifierView { token: self.token@, value: self.value@ }
    }
}

/// The models of a sequence of identifiers.
pub open spec fn identifier_views(items: Seq<Identifier>) -> Seq<IdentifierView> {
    Seq::new(items.len(), |i: int| items[i]@)
}

/// The models of a vector of expressions.
pub open spec fn expression_views(items: Vec<Expression>) -> Seq<ExpressionView>
    decreases items, 1nat,
{
    Seq::new(
        items.len() as nat,
        |i: int|
            if 0 <= i < items.len() {
                expression_view(items[i])
            } else {
                arbitrary()
            },
    )
}

/// The models of a vector of statements.
pub open spec fn statement_views(items: Vec<Statement>) -> Seq<StatementView>
    decreases items, 1nat,
{
    Seq::new(
        items.len() as nat,
        |i: int|
            if 0 <= i < items.len() {
                statement_view(items[i])
            } else {
                arbitrary()
            },
    )
}

/// The model of a block.
pub open spec fn block_view(block: BlockStatement) -> BlockView
    decreases block, 0nat,
{
    BlockView {
        token: block.token@,
        statements: statement_views(block.statements),
    }
}

/// The model of an expression.
pub open spec fn expression_view(expression: Expression) -> ExpressionView
    decreases expression, 0nat,
{
    match expression {
        Expression::Identifier(node) => ExpressionView::Identifier {
            token: node.token@,
            value: node.value@,
        },
        Expression::IntegerLiteral(node) => ExpressionView::IntegerLiteral {
            token: node.token@,
            value: node.value as int,
        },
        Expression::Boolean(node) => ExpressionView::Boolean {
            token: node.token@,
            value: node.value,
        },
        Expression::Prefix(node) => ExpressionView::Prefix {
            token: node.token@,
            operator: node.operator@,
            right: Box::new(expression_view(*node.right)),
        },
        Expression::Infix(node) => ExpressionView::Infix {
            token: node.token@,
            left: Box::new(expression_view(*node.left)),
            operator: node.operator@,
            right: Box::new(expression_view(*node.right)),
        },
        Expression::If(node) => ExpressionView::If {
            token: node.token@,
            condition: Box::new(expression_view(*node.condition)),
            consequence: block_view(node.consequence),
            alternative: match node.alternative {
                Some(block) => Some(block_view(block)),
                None => None,
            },
        },
        Expression::Function(node) => ExpressionView::Function {
            token: node.token@,
            parameters: identifier_views(node.parameters@),
            body: block_view(node.body),
        },
        Expression::Call(node) => ExpressionView::Call {
            token: node.token@,
            function: Box::new(expression_view(*node.function)),
            arguments: expression_views(node.arguments),
        },
    }
}

/// The model of a statement.
pub open spec fn statement_view(statement: Statement) -> StatementView
    decreases statement, 0nat,
{
    match statement {
        Statement::Let { token, name, value } => StatementView::Let {
            token: token@,
            name: match name {
                Some(name) => Some(name@),
                None => None,
            },
            value: match value {
                Some(value) => Some(expression_view(value)),
                None => None,
            },
        },
        Statement::Return { token, value } => StatementView::Return {
            token: token@,
            value: match value {
                Some(value) => Some(expression_view(value)),
                None => None,
            },
        },
        Statement::Expression { token, expression } => StatementView::Expression {
            token: token@,
            expression: match expression {
                Some(expression) => Some(expression_view(expression)),
                None => None,
            },
        },
    }
}

impl View for Expression {
    type V = ExpressionView;

    open spec fn view(&self) -> ExpressionView {
        expression_view(*self)
    }
}

impl View for Statement {
    type V = StatementView;

    open spec fn view(&self) -> StatementView {
        statement_view(*self)
    }
}

impl View for BlockStatement {
    type V = BlockView;

    open spec fn view(&self) -> BlockView {
        block_view(*self)
    }
}

impl View for Program {
    type V = ProgramView;

    open spec fn view(&self) -> ProgramView {
        ProgramView { statements: statement_views(self.statements) }
    }
}

impl View for IntegerLiteral {
    type V = ExpressionView;

    open spec fn view(&self) -> ExpressionView {
        ExpressionView::IntegerLiteral { token: self.token@, value: self.value as int }
    }
}

impl View for Boolean {
    type V = ExpressionView;

    open spec fn view(&self) -> ExpressionView {
        ExpressionView::Boolean { token: self.token@, value: self.value }
    }
}

impl View for PrefixExpression {
    type V = ExpressionView;

    open spec fn view(&self) -> ExpressionView {
        expression_view(Expression::Prefix(*self))
    }
}

impl View for InfixExpression {
    type V = ExpressionView;

    open spec fn view(&self) -> ExpressionView {
        expression_view(Expression::Infix(*self))
    }
}

impl View for IfExpression {
    type V = ExpressionView;

    open spec fn view(&self) -> ExpressionView {
        expression_view(Expression::If(*self))
    }
}

impl View for FunctionLiteral {
    type V = ExpressionView;

    open spec fn view(&self) -> ExpressionView {
        expression_view(Expression::Function(*self))
    }
}

impl View for CallExpression {
    type V = ExpressionView;

    open spec fn view(&self) -> ExpressionView {
        expression_view(Expression::Call(*self))
    }
}

/// The names of a sequence of identifiers.
pub open spec fn identifier_texts(items: Seq<IdentifierView>) -> Seq<Seq<char>> {
    Seq::new(items.len(), |i: int| items[i].value)
}

/// The canonical texts of a sequence of expressions.
pub open spec fn expression_texts(items: Seq<ExpressionView>) -> Seq<Seq<char>>
    decreases items, 1nat,
{
    Seq::new(
        items.len(),
        |i: int|
            if 0 <= i < items.len() {
                render_expression(items[i])
            } else {
                arbitrary()
            },
    )
}

/// The canonical texts of a sequence of statements.
pub open spec fn statement_texts(items: Seq<StatementView>) -> Seq<Seq<char>>
    decreases items, 1nat,
{
    Seq::new(
        items.len(),
        |i: int|
            if 0 <= i < items.len() {
                render_statement(items[i])
            } else {
                arbitrary()
            },
    )
}

/// The canonical text of a block: that of its statements, one after
/// another, with nothing between them and no braces around them.
pub open spec fn render_block(block: BlockView) -> Seq<char>
    decreases block, 0nat,
{
    concat(statement_texts(block.statements))
}

/// The canonical text of an expression.
///
/// Operators stand between parentheses with their operands, an infix
/// operator with a space on either side. Each argument of a call is followed
/// by a comma and a space; a call without arguments shows one comma and
/// space all the same.
pub open spec fn render_expression(expression: ExpressionView) -> Seq<char>
    decreases expression, 0nat,
{
    match expression {
        ExpressionView::Identifier { token, value } => value,
        ExpressionView::IntegerLiteral { token, value } => decimal(value),
        ExpressionView::Boolean { token, value } => if value {
            "true"@
        } else {
            "false"@
        },
        ExpressionView::Prefix { token, operator, right } => "("@ + operator + render_expression(
            *right,
        ) + ")"@,
        ExpressionView::Infix { token, left, operator, right } => "("@ + render_expression(*left)
            + " "@ + operator + " "@ + render_expression(*right) + ")"@,
        ExpressionView::If { token, condition, consequence, alternative } => "if ("@
            + render_expression(*condition) + ") "@ + render_block(consequence) + match alternative {
            Some(block) => " else "@ + render_block(block),
            None => Seq::empty(),
        },
        ExpressionView::Function { token, parameters, body } => "fn( "@ + join(
            identifier_texts(parameters),
            ", "@,
        ) + ")\n"@ + render_block(body),
        ExpressionView::Call { token, function, arguments } => render_expression(*function) + "("@
            + join(expression_texts(arguments), ", "@) + ", "@ + ")"@,
    }
}

/// The canonical text of a statement.
///
/// A `let` without a name shows nothing; one with a name and no value shows
/// its keyword and the literal of the name's token.
pub open spec fn render_statement(statement: StatementView) -> Seq<char>
    decreases statement, 0nat,
{
    match statement {
        StatementView::Let { token, name, value } => match name {
            Some(name) => match value {
                Some(value) => token.literal() + " "@ + name.value + " = "@ + render_expression(
                    value,
                ) + ";"@,
                None => token.literal() + " "@ + name.token.literal(),
            },
            None => Seq::empty(),
        },
        StatementView::Return { token, value } => match value {
            Some(value) => token.literal() + " "@ + render_expression(value) + ";"@,
            None => "return;"@,
        },
        StatementView::Expression { token, expression } => match expression {
            Some(expression) => render_expression(expression),
            None => Seq::empty(),
        },
    }
}

/// The canonical text of a program: that of its statements, one after
/// another.
pub open spec fn render_program(program: ProgramView) -> Seq<char> {
    concat(statement_texts(program.statements))
}

/// The names of `items`, with `separator` between each two neighbours.
fn join_identifiers(items: &Vec<Identifier>, separator: &str) -> (text: String)
    ensures
        text@ == join(identifier_texts(identifier_views(items@)), separator@),
{
    let ghost parts = identifier_texts(identifier_views(items@));
    let ghost pieces = Seq::new(
        parts.len(),
        |i: int|
            if i == 0 {
                parts[i]
            } else {
                separator@ + parts[i]
            },
    );
    let mut text = String::new();
    let mut i: usize = 0;
    while i < items.len()
        invariant
            0 <= i <= items.len(),
            parts == identifier_texts(identifier_views(items@)),
            pieces == Seq::new(
                parts.len(),
                |i: int|
                    if i == 0 {
                        parts[i]
                    } else {
                        separator@ + parts[i]
                    },
            ),
            text@ == concat(pieces.take(i as int)),
        decreases items.len() - i,
    {
        proof {
            lemma_concat_take(pieces, i as int);
        }
        if i > 0 {
            text.append(separator);
        }
        text.append(items[i].value.as_str());
        i = i + 1;
    }
    proof {
        assert(pieces.take(items.len() as int) == pieces);
    }
    text
}

/// The canonical texts of `items`, with `separator` between each two
/// neighbours.
fn join_expressions(items: &Vec<Expression>, separator: &str) -> (text: String)
    ensures
        text@ == join(expression_texts(expression_views(*items)), separator@),
    decreases items,
{
    let ghost parts = expression_texts(expression_views(*items));
    let ghost pieces = Seq::new(
        parts.len(),
        |i: int|
            if i == 0 {
                parts[i]
            } else {
                separator@ + parts[i]
            },
    );
    let mut text = String::new();
    let mut i: usize = 0;
    while i < items.len()
        invariant
            0 <= i <= items.len(),
            parts == expression_texts(expression_views(*items)),
            pieces == Seq::new(
                parts.len(),
                |i: int|
                    if i == 0 {
                        parts[i]
                    } else {
                        separator@ + parts[i]
                    },
            ),
            text@ == concat(pieces.take(i as int)),
        decreases items.len() - i,
    {
        proof {
            lemma_concat_take(pieces, i as int);
        }
        if i > 0 {
            text.append(separator);
        }
        text.append(items[i].to_string().as_str());
        i = i + 1;
    }
    proof {
        assert(pieces.take(items.len() as int) == pieces);
    }
    text
}

/// The canonical texts of `items`, one after another.
fn concat_statements(items: &Vec<Statement>) -> (text: String)
    ensures
        text@ == concat(statement_texts(statement_views(*items))),
    decreases items,
{
    let ghost pieces = statement_texts(statement_views(*items));
    let mut text = String::new();
    let mut i: usize = 0;
    while i < items.len()
        invariant
            0 <= i <= items.len(),
            pieces == statement_texts(statement_views(*items)),
            text@ == concat(pieces.take(i as int)),
        decreases items.len() - i,
    {
        proof {
            lemma_concat_take(pieces, i as int);
        }
        text.append(items[i].to_string().as_str());
        i = i + 1;
    }
    proof {
        assert(pieces.take(items.len() as int) == pieces);
    }
    text
}

impl Identifier {
    /// The identifier that `token` spells: its value is the token's literal.
    pub fn new(token: Token) -> (node: Self)
        ensures
            node@ == (IdentifierView { token: token@, value: token@.literal() }),
    {
        let value = token.get_literal();
        Self { token, value }
    }

    /// The canonical text: the name.
    pub fn to_string(&self) -> (text: String)
        ensures
            text@ == self@.value,
    {
        self.value.clone()
    }
}

impl IntegerLiteral {
    /// The literal of `value` that `token` spells.
    pub fn new(token: Token, value: i32) -> (node: Self)
        ensures
            node@ == (ExpressionView::IntegerLiteral { token: token@, value: value as int }),
    {
        Self { token, value }
    }

    /// The canonical text: the value as a decimal numeral.
    pub fn to_string(&self) -> (text: String)
        ensures
            text@ == render_expression(self@),
    {
        decimal_text(self.value)
    }
}

impl Boolean {
    /// The canonical text: `true` or `false`.
    pub fn to_string(&self) -> (text: String)
        ensures
            text@ == render_expression(self@),
    {
        if self.value {
            String::from_str("true")
        } else {
            String::from_str("false")
        }
    }
}

impl PrefixExpression {
    /// The canonical text: the operator and its operand in parentheses.
    pub fn to_string(&self) -> (text: String)
        ensures
            text@ == render_expression(self@),
            text@ == "("@ + self.operator@ + render_expression(self.right@) + ")"@,
        decreases self,
    {
        let mut text = String::from_str("(");
        text.append(self.operator.as_str());
        text.append(self.right.to_string().as_str());
        text.append(")");
        text
    }
}

impl InfixExpression {
    /// The canonical text: the operands with the operator between them, a
    /// space on either side of it, in parentheses.
    pub fn to_string(&self) -> (text: String)
        ensures
            text@ == render_expression(self@),
            text@ == "("@ + render_expression(self.left@) + " "@ + self.operator@ + " "@
                + render_expression(self.right@) + ")"@,
        decreases self,
    {
        let mut text = String::from_str("(");
        text.append(self.left.to_string().as_str());
        text.append(" ");
        text.append(self.operator.as_str());
        text.append(" ");
        text.append(self.right.to_string().as_str());
        text.append(")");
        text
    }
}

impl IfExpression {
    /// The canonical text: the condition in parentheses, then the
    /// consequence and, behind `else`, the alternative.
    pub fn to_string(&self) -> (text: String)
        ensures
            text@ == render_expression(self@),
        decreases self,
    {
        let mut text = String::from_str("if (");
        text.append(self.condition.to_string().as_str());
        text.append(") ");
        text.append(self.consequence.to_string().as_str());
        match &self.alternative {
            Some(block) => {
                text.append(" else ");
                text.append(block.to_string().as_str());
            },
            None => {
                assert(text@ + Seq::<char>::empty() == text@);
            },
        }
        text
    }
}

impl FunctionLiteral {
    /// The canonical text: the parameters in parentheses, a line break, and
    /// the body.
    pub fn to_string(&self) -> (text: String)
        ensures
            text@ == render_expression(self@),
        decreases self,
    {
        let mut text = String::from_str("fn( ");
        text.append(join_identifiers(&self.parameters, ", ").as_str());
        text.append(")\n");
        text.append(self.body.to_string().as_str());
        text
    }
}

impl CallExpression {
    /// The canonical text: the function, then the arguments in parentheses.
    pub fn to_string(&self) -> (text: String)
        ensures
            text@ == render_expression(self@),
        decreases self,
    {
        let mut text = self.function.to_string();
        text.append("(");
        text.append(join_expressions(&self.arguments, ", ").as_str());
        text.append(", ");
        text.append(")");
        text
    }
}

impl BlockStatement {
    /// The canonical text: that of the statements, one after another.
    pub fn to_string(&self) -> (text: String)
        ensures
            text@ == render_block(self@),
        decreases self,
    {
        concat_statements(&self.statements)
    }
}

impl Expression {
    /// The canonical text of this expression.
    pub fn to_string(&self) -> (text: String)
        ensures
            text@ == render_expression(self@),
        decreases self,
    {
        match self {
            Expression::Identifier(node) => node.to_string(),
            Expression::IntegerLiteral(node) => node.to_string(),
            Expression::Boolean(node) => node.to_string(),
            Expression::Prefix(node) => node.to_string(),
            Expression::Infix(node) => node.to_string(),
            Expression::If(node) => node.to_string(),
            Expression::Function(node) => node.to_string(),
            Expression::Call(node) => node.to_string(),
        }
    }
}

impl Statement {
    /// An empty statement of the kind that `token` opens: a `let` without
    /// name and value, a `return` without value, and nothing for any other
    /// token.
    pub fn new(token: Token) -> (statement: Option<Self>)
        ensures
            token@ is Let ==> statement is Some && statement->0@ == (StatementView::Let {
                token: token@,
                name: None,
                value: None,
            }),
            token@ is Return ==> statement is Some && statement->0@ == (StatementView::Return {
                token: token@,
                value: None,
            }),
            !(token@ is Let) && !(token@ is Return) ==> statement is None,
    {
        match token {
            Token::Let => Some(Self::Let { token, name: None, value: None }),
            Token::Return => Some(Self::Return { token, value: None }),
            _ => None,
        }
    }

    /// The canonical text of this statement.
    pub fn to_string(&self) -> (text: String)
        ensures
            text@ == render_statement(self@),
        decreases self,
    {
        match self {
            Statement::Let { token, name, value } => match name {
                Some(name) => {
                    let mut text = token.get_literal();
                    text.append(" ");
                    match value {
                        Some(value) => {
                            text.append(name.value.as_str());
                            text.append(" = ");
                            text.append(value.to_string().as_str());
                            text.append(";");
                        },
                        None => {
                            text.append(name.token.get_literal().as_str());
                        },
                    }
                    text
                },
                None => String::new(),
            },
            Statement::Return { token, value } => match value {
                Some(value) => {
                    let mut text = token.get_literal();
                    text.append(" ");
                    text.append(value.to_string().as_str());
                    text.append(";");
                    text
                },
                None => String::from_str("return;"),
            },
            Statement::Expression { token, expression } => match expression {
                Some(expression) => expression.to_string(),
                None => String::new(),
            },
        }
    }
}

impl Program {
    /// A program without statements.
    pub fn new() -> (program: Self)
        ensures
            program@.statements.len() == 0,
    {
        Self { statements: Vec::new() }
    }

    /// The canonical text: that of the statements, one after another.
    pub fn to_string(&self) -> (text: String)
        ensures
            text@ == render_program(self@),
    {
        concat_statements(&self.statements)
    }
}

/// What every node of the tree offers: the literal text of the token it
/// was built from.
pub trait Node {
    /// The literal text of this node's token.
    spec fn token_text(&self) -> Seq<char>;

    /// The literal text of this node's token.
    fn token_literal(&self) -> (text: String)
        ensures
            text@ == self.token_text(),
    ;
}

/// Marks the nodes that are statements.
pub trait StatementTrait: Node {
    /// Does nothing; it tells a statement from other nodes.
    fn statement_node(&self);
}

impl Node for Identifier {
    open spec fn token_text(&self) -> Seq<char> {
        self.token@.literal()
    }

    fn token_literal(&self) -> (text: String) {
        self.token.get_literal()
    }
}

impl Node for IntegerLiteral {
    open spec fn token_text(&self) -> Seq<char> {
        self.token@.literal()
    }

    fn token_literal(&self) -> (text: String) {
        self.token.get_literal()
    }
}

impl Node for Boolean {
    open spec fn token_text(&self) -> Seq<char> {
        self.token@.literal()
    }

    fn token_literal(&self) -> (text: String) {
        self.token.get_literal()
    }
}

impl Node for PrefixExpression {
    open spec fn token_text(&self) -> Seq<char> {
        self.token@.literal()
    }

    fn token_literal(&self) -> (text: String) {
        self.token.get_literal()
    }
}

impl Node for InfixExpression {
    open spec fn token_text(&self) -> Seq<char> {
        self.token@.literal()
    }

    fn token_literal(&self) -> (text: String) {
        self.token.get_literal()
    }
}

impl Node for IfExpression {
    open spec fn token_text(&self) -> Seq<char> {
        self.token@.literal()
    }

    fn token_literal(&self) -> (text: String) {
        self.token.get_literal()
    }
}

impl Node for CallExpression {
    open spec fn token_text(&self) -> Seq<char> {
        self.token@.literal()
    }

    fn token_literal(&self) -> (text: String) {
        self.token.get_literal()
    }
}

impl Node for FunctionLiteral {
    open spec fn token_text(&self) -> Seq<char> {
        self.token@.literal()
    }

    fn token_literal(&self) -> (text: String) {
        self.token.get_literal()
    }
}

impl Node for BlockStatement {
    open spec fn token_text(&self) -> Seq<char> {
        self.token@.literal()
    }

    fn token_literal(&self) -> (text: String) {
        self.token.get_literal()
    }
}

impl Node for Expression {
    open spec fn token_text(&self) -> Seq<char> {
        match self {
            Expression::Identifier(node) => node.token@.literal(),
            Expression::IntegerLiteral(node) => node.token@.literal(),
            Expression::Boolean(node) => node.token@.literal(),
            Expression::Prefix(node) => node.token@.literal(),
            Expression::Infix(node) => node.token@.literal(),
            Expression::If(node) => node.token@.literal(),
            Expression::Function(node) => node.token@.literal(),
            Expression::Call(node) => node.token@.literal(),
        }
    }

    fn token_literal(&self) -> (text: String) {
        match self {
            Expression::Identifier(node) => node.token.get_literal(),
            Expression::IntegerLiteral(node) => node.token.get_literal(),
            Expression::Boolean(node) => node.token.get_literal(),
            Expression::Prefix(node) => node.token.get_literal(),
            Expression::Infix(node) => node.token.get_literal(),
            Expression::If(node) => node.token.get_literal(),
            Expression::Function(node) => node.token.get_literal(),
            Expression::Call(node) => node.token.get_literal(),
        }
    }
}

impl Node for Statement {
    /// `let` and `return` for the two statements of those names, whatever
    /// token they hold; for an expression statement the literal of its
    /// token.
    open spec fn token_text(&self) -> Seq<char> {
        match self {
            Statement::Let { token, name, value } => "let"@,
            Statement::Return { token, value } => "return"@,
            Statement::Expression { token, expression } => token@.literal(),
        }
    }

    fn token_literal(&self) -> (text: String) {
        match self {
            Statement::Let { token, name, value } => String::from_str("let"),
            Statement::Return { token, value } => String::from_str("return"),
            Statement::Expression { token, expression } => token.get_literal(),
        }
    }
}

impl StatementTrait for Statement {
    fn statement_node(&self) {
    }
}

impl Program {
    /// The literal text of the first statement's token, or the empty text
    /// for a program without statements.
    pub open spec fn token_text(&self) -> Seq<char> {
        if self.statements.len() == 0 {
            Seq::empty()
        } else {
            self.statements[0].token_text()
        }
    }

    /// The literal text of the first statement's token, or the empty text
    /// for a program without statements.
    pub fn token_literal(&self) -> (text: String)
        ensures
            text@ == self.token_text(),
    {
        if self.statements.len() == 0 {
            String::new()
        } else {
            self.statements[0].token_literal()
        }
    }
}

} // verus!
