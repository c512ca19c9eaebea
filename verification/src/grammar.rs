//! The grammar of the language, as functions from tokens to trees.
//!
//! ```text
//! Program             := (IntDeclaration | ExpressionStatement | AssignmentStatement)*
//! IntDeclaration      := 'int' Identifier ('=' Additive)? ';'
//! ExpressionStatement := Additive ';'
//! AssignmentStatement := Identifier '=' Additive ';'
//! Additive            := Multiplicative (('+' | '-') Multiplicative)*
//! Multiplicative      := Primary (('*' | '/') Primary)*
//! Primary             := IntLiteral | Identifier | '(' Additive ')'
//! ```
//!
//! Each rule is a function of the tokens and of the position at which it is
//! tried. It yields a tree and the position behind what it read, or nothing,
//! or an error. The alternatives of a statement are tried in the order above
//! and the first that yields a tree is taken; the operators of one rule
//! associate to the left.
//!
//! Some of these functions test that a rule ended behind the position where
//! it began before they go on from there. The test never fails
//! ([`lemma_progress`]); it is what shows that the definitions terminate.
use vstd::prelude::*;
use crate::ast::{ASTNodeType, Ast};
use crate::error::{ErrorKind, ErrorView};
use crate::token::{TokenType, TokenView};

verus! {

/// What a rule of the grammar yields at a position.
pub enum Parsed {
    /// The rule applies: the tree, and the position behind what was read.
    Node(Ast, int),
    /// The rule does not apply here. Nothing was read.
    Nothing,
    /// The rule applies and the tokens break it.
    Fail(ErrorView),
}

/// Every token has a kind.
pub open spec fn all_typed(tokens: Seq<TokenView>) -> bool {
    forall|i: int| 0 <= i < tokens.len() ==> (#[trigger] tokens[i]).kind is Some
}

/// The kind of the token at `pos`, or `None` behind the last token.
pub open spec fn kind_at(tokens: Seq<TokenView>, pos: int) -> Option<TokenType> {
    if 0 <= pos < tokens.len() {
        tokens[pos].kind
    } else {
        None
    }
}

/// The error that a broken rule yields, with what it says.
pub open spec fn syntax_error(message: Seq<char>) -> ErrorView {
    ErrorView { kind: ErrorKind::InvalidInput, message }
}

/// The token at `pos` is `+` or `-`.
pub open spec fn additive_operator_at(tokens: Seq<TokenView>, pos: int) -> bool {
    kind_at(tokens, pos) == Some(TokenType::Plus) || kind_at(tokens, pos) == Some(
        TokenType::Minus,
    )
}

/// The token at `pos` is `*` or `/`.
pub open spec fn multiplicative_operator_at(tokens: Seq<TokenView>, pos: int) -> bool {
    kind_at(tokens, pos) == Some(TokenType::Star) || kind_at(tokens, pos) == Some(
        TokenType::Slash,
    )
}

/// `Primary := IntLiteral | Identifier | '(' Additive ')'`
///
/// Behind an opening parenthesis an expression and a closing parenthesis
/// must follow.
pub open spec fn primary(tokens: Seq<TokenView>, pos: int) -> Parsed
    decreases tokens.len() - pos, 0int,
{
    match kind_at(tokens, pos) {
        Some(TokenType::IntLiteral) => Parsed::Node(
            Ast::leaf(ASTNodeType::IntLiteral, tokens[pos].text),
            pos + 1,
        ),
        Some(TokenType::Identifier) => Parsed::Node(
            Ast::leaf(ASTNodeType::Identifier, tokens[pos].text),
            pos + 1,
        ),
        Some(TokenType::LeftParen) => match additive(tokens, pos + 1) {
            Parsed::Node(inner, next) => if kind_at(tokens, next) == Some(TokenType::RightParen) {
                Parsed::Node(inner, next + 1)
            } else {
                Parsed::Fail(syntax_error("expecting right parenthesis"@))
            },
            Parsed::Nothing => Parsed::Fail(
                syntax_error("expecting an additive expression inside parenthesis"@),
            ),
            Parsed::Fail(e) => Parsed::Fail(e),
        },
        _ => Parsed::Nothing,
    }
}

/// `Multiplicative := Primary (('*' | '/') Primary)*`
pub open spec fn multiplicative(tokens: Seq<TokenView>, pos: int) -> Parsed
    decreases tokens.len() - pos, 1int,
{
    match primary(tokens, pos) {
        Parsed::Node(left, next) => if pos < next <= tokens.len() {
            multiplicative_rest(tokens, next, left)
        } else {
            Parsed::Nothing
        },
        other => other,
    }
}

/// The operators and operands of a product that follow its operand `left`,
/// folded onto it from the left. `pos` is the position behind `left`.
pub open spec fn multiplicative_rest(tokens: Seq<TokenView>, pos: int, left: Ast) -> Parsed
    decreases tokens.len() - pos, 0int,
{
    if multiplicative_operator_at(tokens, pos) {
        match primary(tokens, pos + 1) {
            Parsed::Node(right, next) => if pos < next <= tokens.len() {
                multiplicative_rest(
                    tokens,
                    next,
                    Ast::binary(ASTNodeType::Multiplicative, tokens[pos].text, left, right),
                )
            } else {
                Parsed::Nothing
            },
            Parsed::Nothing => Parsed::Fail(
                syntax_error("invalid additive expression, expecting the right part."@),
            ),
            Parsed::Fail(e) => Parsed::Fail(e),
        }
    } else {
        Parsed::Node(left, pos)
    }
}

/// `Additive := Multiplicative (('+' | '-') Multiplicative)*`
pub open spec fn additive(tokens: Seq<TokenView>, pos: int) -> Parsed
    decreases tokens.len() - pos, 2int,
{
    match multiplicative(tokens, pos) {
        Parsed::Node(left, next) => if pos < next <= tokens.len() {
            additive_rest(tokens, next, left)
        } else {
            Parsed::Nothing
        },
        other => other,
    }
}

/// The operators and operands of a sum that follow its operand `left`, folded
/// onto it from the left. `pos` is the position behind `left`.
pub open spec fn additive_rest(tokens: Seq<TokenView>, pos: int, left: Ast) -> Parsed
    decreases tokens.len() - pos, 0int,
{
    if additive_operator_at(tokens, pos) {
        match multiplicative(tokens, pos + 1) {
            Parsed::Node(right, next) => if pos < next <= tokens.len() {
                additive_rest(
                    tokens,
                    next,
                    Ast::binary(ASTNodeType::Additive, tokens[pos].text, left, right),
                )
            } else {
                Parsed::Nothing
            },
            Parsed::Nothing => Parsed::Fail(
                syntax_error("invalid additive expression, expecting the right part."@),
            ),
            Parsed::Fail(e) => Parsed::Fail(e),
        }
    } else {
        Parsed::Node(left, pos)
    }
}

/// The end of a declaration or an assignment: the semicolon that must stand
/// at `pos` behind the statement `node`.
pub open spec fn terminated(tokens: Seq<TokenView>, pos: int, node: Ast) -> Parsed {
    if kind_at(tokens, pos) == Some(TokenType::SemiColon) {
        Parsed::Node(node, pos + 1)
    } else {
        Parsed::Fail(syntax_error("invalid statement, expecting semicolon"@))
    }
}

/// `IntDeclaration := 'int' Identifier ('=' Additive)? ';'`
///
/// The node carries the name; the first value, where there is one, is its
/// only child.
pub open spec fn int_declare(tokens: Seq<TokenView>, pos: int) -> Parsed {
    if kind_at(tokens, pos) != Some(TokenType::Int) {
        Parsed::Nothing
    } else if kind_at(tokens, pos + 1) != Some(TokenType::Identifier) {
        Parsed::Fail(syntax_error("variable name expected"@))
    } else {
        let node = Ast::leaf(ASTNodeType::IntDeclaration, tokens[pos + 1].text);
        if kind_at(tokens, pos + 2) == Some(TokenType::Assignment) {
            match additive(tokens, pos + 3) {
                Parsed::Node(value, next) => terminated(tokens, next, node.with_child(value)),
                Parsed::Nothing => Parsed::Fail(
                    syntax_error("invalid variable initialization, expecting an expression"@),
                ),
                Parsed::Fail(e) => Parsed::Fail(e),
            }
        } else {
            terminated(tokens, pos + 2, node)
        }
    }
}

/// `ExpressionStatement := Additive ';'`
///
/// The statement is the tree of its expression. An expression with no
/// semicolon behind it is no expression statement, and no error either.
pub open spec fn expression_statement(tokens: Seq<TokenView>, pos: int) -> Parsed {
    match additive(tokens, pos) {
        Parsed::Node(node, next) => if kind_at(tokens, next) == Some(TokenType::SemiColon) {
            Parsed::Node(node, next + 1)
        } else {
            Parsed::Nothing
        },
        other => other,
    }
}

/// `AssignmentStatement := Identifier '=' Additive ';'`
///
/// The node carries the name; the value is its only child. A name with no
/// `=` behind it is no assignment, and no error either.
pub open spec fn assignment_statement(tokens: Seq<TokenView>, pos: int) -> Parsed {
    if kind_at(tokens, pos) == Some(TokenType::Identifier) && kind_at(tokens, pos + 1) == Some(
        TokenType::Assignment,
    ) {
        let node = Ast::leaf(ASTNodeType::AssignmentStmt, tokens[pos].text);
        match additive(tokens, pos + 2) {
            Parsed::Node(value, next) => terminated(tokens, next, node.with_child(value)),
            Parsed::Nothing => Parsed::Fail(
                syntax_error("invalid assignment statement, expecting an expression"@),
            ),
            Parsed::Fail(e) => Parsed::Fail(e),
        }
    } else {
        Parsed::Nothing
    }
}

/// A statement: the first of declaration, expression statement and
/// assignment that applies. Where none does, the statement is unknown.
pub open spec fn statement(tokens: Seq<TokenView>, pos: int) -> Parsed {
    match int_declare(tokens, pos) {
        Parsed::Nothing => match expression_statement(tokens, pos) {
            Parsed::Nothing => match assignment_statement(tokens, pos) {
                Parsed::Nothing => Parsed::Fail(syntax_error("unknown statement"@)),
                other => other,
            },
            other => other,
        },
        other => other,
    }
}

/// The statements from `pos` to the end of the tokens, or the error of the
/// first statement that is none.
pub open spec fn statements(tokens: Seq<TokenView>, pos: int) -> Result<Seq<Ast>, ErrorView>
    decreases tokens.len() - pos,
{
    if 0 <= pos < tokens.len() {
        match statement(tokens, pos) {
            Parsed::Node(first, next) => if pos < next <= tokens.len() {
                match statements(tokens, next) {
                    Ok(rest) => Ok(seq![first] + rest),
                    Err(e) => Err(e),
                }
            } else {
                Ok(Seq::empty())
            },
            Parsed::Nothing => Err(syntax_error("unknown statement"@)),
            Parsed::Fail(e) => Err(e),
        }
    } else {
        Ok(Seq::empty())
    }
}

/// The text of the root of every program.
pub open spec fn program_text() -> Seq<char> {
    "SimpleParser"@
}

/// `Program := (IntDeclaration | ExpressionStatement | AssignmentStatement)*`
///
/// The tree of a program: a root whose children are its statements in order.
pub open spec fn program(tokens: Seq<TokenView>) -> Result<Ast, ErrorView> {
    match statements(tokens, 0) {
        Ok(children) => Ok(Ast { kind: ASTNodeType::Program, text: program_text(), children }),
        Err(e) => Err(e),
    }
}

/// A rule that yields a tree at `pos` ended at `next`, behind `pos` and
/// within the tokens.
pub open spec fn advances(parsed: Parsed, tokens: Seq<TokenView>, pos: int) -> bool {
    parsed matches Parsed::Node(_, next) ==> pos < next <= tokens.len()
}

/// A rule that yields a tree at `pos` ended at `next`, at `pos` or behind it
/// and within the tokens.
pub open spec fn stays_or_advances(parsed: Parsed, tokens: Seq<TokenView>, pos: int) -> bool {
    parsed matches Parsed::Node(_, next) ==> pos <= next <= tokens.len()
}

/// Every expression holds at least one token and ends within the tokens.
pub proof fn lemma_progress(tokens: Seq<TokenView>, pos: int)
    requires
        0 <= pos,
    ensures
        advances(primary(tokens, pos), tokens, pos),
        advances(multiplicative(tokens, pos), tokens, pos),
        advances(additive(tokens, pos), tokens, pos),
    decreases tokens.len() - pos, 3int,
{
    lemma_progress_primary(tokens, pos);
    lemma_progress_multiplicative(tokens, pos);
    if let Parsed::Node(left, next) = multiplicative(tokens, pos) {
        lemma_progress_additive_rest(tokens, next, left);
    }
}

proof fn lemma_progress_primary(tokens: Seq<TokenView>, pos: int)
    requires
        0 <= pos,
    ensures
        advances(primary(tokens, pos), tokens, pos),
    decreases tokens.len() - pos, 0int,
{
    if kind_at(tokens, pos) == Some(TokenType::LeftParen) {
        lemma_progress(tokens, pos + 1);
    }
}

proof fn lemma_progress_multiplicative(tokens: Seq<TokenView>, pos: int)
    requires
        0 <= pos,
    ensures
        advances(multiplicative(tokens, pos), tokens, pos),
    decreases tokens.len() - pos, 1int,
{
    lemma_progress_primary(tokens, pos);
    if let Parsed::Node(left, next) = primary(tokens, pos) {
        lemma_progress_multiplicative_rest(tokens, next, left);
    }
}

proof fn lemma_progress_multiplicative_rest(tokens: Seq<TokenView>, pos: int, left: Ast)
    requires
        0 <= pos <= tokens.len(),
    ensures
        stays_or_advances(multiplicative_rest(tokens, pos, left), tokens, pos),
    decreases tokens.len() - pos, 0int,
{
    if multiplicative_operator_at(tokens, pos) {
        lemma_progress_primary(tokens, pos + 1);
        if let Parsed::Node(right, next) = primary(tokens, pos + 1) {
            lemma_progress_multiplicative_rest(
                tokens,
                next,
                Ast::binary(ASTNodeType::Multiplicative, tokens[pos].text, left, right),
            );
        }
    }
}

proof fn lemma_progress_additive_rest(tokens: Seq<TokenView>, pos: int, left: Ast)
    requires
        0 <= pos <= tokens.len(),
    ensures
        stays_or_advances(additive_rest(tokens, pos, left), tokens, pos),
    decreases tokens.len() - pos, 2int,
{
    if additive_operator_at(tokens, pos) {
        lemma_progress_multiplicative(tokens, pos + 1);
        if let Parsed::Node(right, next) = multiplicative(tokens, pos + 1) {
            lemma_progress_additive_rest(
                tokens,
                next,
                Ast::binary(ASTNodeType::Additive, tokens[pos].text, left, right),
            );
        }
    }
}

/// Every statement holds at least one token and ends within the tokens.
pub proof fn lemma_statement_progress(tokens: Seq<TokenView>, pos: int)
    requires
        0 <= pos,
    ensures
        advances(statement(tokens, pos), tokens, pos),
        advances(int_declare(tokens, pos), tokens, pos),
        advances(expression_statement(tokens, pos), tokens, pos),
        advances(assignment_statement(tokens, pos), tokens, pos),
{
    lemma_progress(tokens, pos);
    lemma_progress(tokens, pos + 2);
    lemma_progress(tokens, pos + 3);
}

/// A rule that yields a tree yields a well-formed one.
pub open spec fn shaped(parsed: Parsed) -> bool {
    parsed matches Parsed::Node(ast, _) ==> ast.well_formed()
}

/// An operator applied to two well-formed operands is a well-formed tree.
proof fn lemma_binary_well_formed(kind: ASTNodeType, op: Seq<char>, left: Ast, right: Ast)
    requires
        left.well_formed(),
        right.well_formed(),
    ensures
        Ast::binary(kind, op, left, right).well_formed(),
{
    let node = Ast::binary(kind, op, left, right);
    assert(node.children[0] == left);
    assert(node.children[1] == right);
}

/// Every expression that the grammar yields is well-formed.
pub proof fn lemma_expression_well_formed(tokens: Seq<TokenView>, pos: int)
    requires
        0 <= pos,
    ensures
        shaped(primary(tokens, pos)),
        shaped(multiplicative(tokens, pos)),
        shaped(additive(tokens, pos)),
    decreases tokens.len() - pos, 3int,
{
    lemma_primary_well_formed(tokens, pos);
    lemma_multiplicative_well_formed(tokens, pos);
    lemma_progress(tokens, pos);
    if let Parsed::Node(left, next) = multiplicative(tokens, pos) {
        lemma_additive_rest_well_formed(tokens, next, left);
    }
}

proof fn lemma_primary_well_formed(tokens: Seq<TokenView>, pos: int)
    requires
        0 <= pos,
    ensures
        shaped(primary(tokens, pos)),
    decreases tokens.len() - pos, 0int,
{
    if kind_at(tokens, pos) == Some(TokenType::LeftParen) {
        lemma_expression_well_formed(tokens, pos + 1);
    }
}

proof fn lemma_multiplicative_well_formed(tokens: Seq<TokenView>, pos: int)
    requires
        0 <= pos,
    ensures
        shaped(multiplicative(tokens, pos)),
    decreases tokens.len() - pos, 1int,
{
    lemma_primary_well_formed(tokens, pos);
    lemma_progress(tokens, pos);
    if let Parsed::Node(left, next) = primary(tokens, pos) {
        lemma_multiplicative_rest_well_formed(tokens, next, left);
    }
}

proof fn lemma_multiplicative_rest_well_formed(tokens: Seq<TokenView>, pos: int, left: Ast)
    requires
        0 <= pos <= tokens.len(),
        left.well_formed(),
    ensures
        shaped(multiplicative_rest(tokens, pos, left)),
    decreases tokens.len() - pos, 0int,
{
    if multiplicative_operator_at(tokens, pos) {
        lemma_primary_well_formed(tokens, pos + 1);
        lemma_progress(tokens, pos + 1);
        if let Parsed::Node(right, next) = primary(tokens, pos + 1) {
            let node = Ast::binary(ASTNodeType::Multiplicative, tokens[pos].text, left, right);
            lemma_binary_well_formed(ASTNodeType::Multiplicative, tokens[pos].text, left, right);
            lemma_multiplicative_rest_well_formed(tokens, next, node);
        }
    }
}

proof fn lemma_additive_rest_well_formed(tokens: Seq<TokenView>, pos: int, left: Ast)
    requires
        0 <= pos <= tokens.len(),
        left.well_formed(),
    ensures
        shaped(additive_rest(tokens, pos, left)),
    decreases tokens.len() - pos, 2int,
{
    if additive_operator_at(tokens, pos) {
        lemma_multiplicative_well_formed(tokens, pos + 1);
        lemma_progress(tokens, pos + 1);
        if let Parsed::Node(right, next) = multiplicative(tokens, pos + 1) {
            let node = Ast::binary(ASTNodeType::Additive, tokens[pos].text, left, right);
            lemma_binary_well_formed(ASTNodeType::Additive, tokens[pos].text, left, right);
            lemma_additive_rest_well_formed(tokens, next, node);
        }
    }
}

/// Every statement that the grammar yields is well-formed.
pub proof fn lemma_statement_well_formed(tokens: Seq<TokenView>, pos: int)
    requires
        0 <= pos,
    ensures
        shaped(statement(tokens, pos)),
{
    lemma_expression_well_formed(tokens, pos);
    lemma_expression_well_formed(tokens, pos + 2);
    lemma_expression_well_formed(tokens, pos + 3);
    if let Parsed::Node(value, _) = additive(tokens, pos + 3) {
        let node = Ast::leaf(ASTNodeType::IntDeclaration, tokens[pos + 1].text);
        assert(node.with_child(value).children[0] == value);
    }
    if let Parsed::Node(value, _) = additive(tokens, pos + 2) {
        let node = Ast::leaf(ASTNodeType::AssignmentStmt, tokens[pos].text);
        assert(node.with_child(value).children[0] == value);
    }
}

/// All statements that the grammar yields from `pos` on are well-formed.
proof fn lemma_statements_well_formed(tokens: Seq<TokenView>, pos: int)
    requires
        0 <= pos,
    ensures
        statements(tokens, pos) matches Ok(all) ==> forall|i: int|
            0 <= i < all.len() ==> (#[trigger] all[i]).well_formed(),
    decreases tokens.len() - pos,
{
    if pos < tokens.len() {
        lemma_statement_well_formed(tokens, pos);
        if let Parsed::Node(first, next) = statement(tokens, pos) {
            if pos < next <= tokens.len() {
                lemma_statements_well_formed(tokens, next);
            }
        }
    }
}

/// Every program that the grammar yields is well-formed.
pub proof fn lemma_program_well_formed(tokens: Seq<TokenView>)
    ensures
        program(tokens) matches Ok(ast) ==> ast.well_formed(),
{
    lemma_statements_well_formed(tokens, 0);
}

} // verus!
