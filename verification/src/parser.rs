//! The parser: recursive descent over a token stream, one function per rule
//! of the grammar.
//!
//! Each function is proved to yield what the rule of the same name in
//! [`crate::grammar`] yields, and to leave the stream behind what it read, or
//! where it was if the rule does not apply.
use vstd::prelude::*;
use crate::ast::{ASTNodeType, Ast, SimpleASTNode};
use crate::error::{invalid_input_err, ErrorView, ScriptError};
use crate::grammar::{
    additive, additive_rest, all_typed, assignment_statement, expression_statement, int_declare,
    kind_at, lemma_program_well_formed, lemma_progress, lemma_statement_progress, multiplicative,
    multiplicative_rest, primary, program, program_text, statement, statements, Parsed,
};
use crate::lexer::{classify, lemma_scan_from_typed, scan, SimpleLexer};
use crate::reader::{in_bounds, TokenReader};
use crate::token::{Token, TokenType};

verus! {

/// The outcome `result` of a parsing function, which began at `start` and
/// left the stream at `end`, is what the grammar yields.
pub open spec fn agrees(
    result: Result<Option<SimpleASTNode>, ScriptError>,
    start: nat,
    end: nat,
    parsed: Parsed,
) -> bool {
    match parsed {
        Parsed::Node(ast, next) => result matches Ok(Some(node)) && node@ == ast && end == next,
        Parsed::Nothing => result matches Ok(None) && end == start,
        Parsed::Fail(e) => result matches Err(err) && err@ == e,
    }
}

/// The outcome `result` of parsing a whole text is what the grammar yields.
pub open spec fn agrees_on_program(
    result: Result<SimpleASTNode, ScriptError>,
    parsed: Result<Ast, ErrorView>,
) -> bool {
    match parsed {
        Ok(ast) => result matches Ok(node) && node@ == ast,
        Err(e) => result matches Err(err) && err@ == e,
    }
}

/// The statements `done`, followed by those of `rest`.
spec fn after(done: Seq<Ast>, rest: Result<Seq<Ast>, ErrorView>) -> Result<Seq<Ast>, ErrorView> {
    match rest {
        Ok(more) => Ok(done + more),
        Err(e) => Err(e),
    }
}

/// The kind of the next token of the stream, or `None` at its end.
fn peek_type<R: TokenReader>(tokens: &R) -> (kind: Option<TokenType>)
    requires
        in_bounds(tokens),
        all_typed(tokens.tokens()),
    ensures
        kind == kind_at(tokens.tokens(), tokens.position() as int),
{
    match tokens.peek() {
        Some(token) => Some(token.get_type()),
        None => None,
    }
}

/// The parser. It holds no state between calls.
pub struct SimpleParser {}

impl SimpleParser {
    /// A parser.
    pub fn new() -> SimpleParser {
        SimpleParser {  }
    }

    /// Parses `code` as a program and returns the root of its tree, or the
    /// error of the first statement that is none.
    pub fn parse(&self, code: &str) -> (result: Result<SimpleASTNode, ScriptError>)
        ensures
            agrees_on_program(result, program(scan(code@))),
            result matches Ok(node) ==> node@.well_formed(),
    {
        let lexer = SimpleLexer::new();
        let mut tokens = lexer.tokenize(code);
        proof {
            lemma_scan_from_typed(classify(code@), 0);
            lemma_program_well_formed(scan(code@));
        }
        self.get_root(&mut tokens)
    }

    /// Parses the statements from the position of the stream to its end and
    /// returns them as the children of a program node.
    fn get_root<R: TokenReader>(&self, tokens: &mut R) -> (result: Result<
        SimpleASTNode,
        ScriptError,
    >)
        requires
            in_bounds(old(tokens)),
            all_typed(old(tokens).tokens()),
        ensures
            final(tokens).tokens() == old(tokens).tokens(),
            in_bounds(final(tokens)),
            match statements(old(tokens).tokens(), old(tokens).position() as int) {
                Ok(children) => result matches Ok(node) && node@ == (Ast {
                    kind: ASTNodeType::Program,
                    text: program_text(),
                    children,
                }),
                Err(e) => result matches Err(err) && err@ == e,
            },
    {
        let ghost toks = tokens.tokens();
        let ghost start = tokens.position() as int;
        let mut node = SimpleASTNode::new(ASTNodeType::Program, "SimpleParser");
        assert(after(node@.children, statements(toks, start)) == statements(toks, start)) by {
            match statements(toks, start) {
                Ok(all) => {
                    assert(node@.children + all =~= all);
                },
                Err(_) => {},
            }
        }
        while tokens.peek().is_some()
            invariant
                in_bounds(tokens),
                tokens.tokens() == toks,
                toks == old(tokens).tokens(),
                start == old(tokens).position(),
                all_typed(toks),
                node@.kind == ASTNodeType::Program,
                node@.text == program_text(),
                statements(toks, start) == after(
                    node@.children,
                    statements(toks, tokens.position() as int),
                ),
            decreases toks.len() - tokens.position(),
        {
            let ghost pos = tokens.position() as int;
            let ghost done = node@.children;
            proof {
                lemma_statement_progress(toks, pos);
            }
            let mut child = self.int_declare(tokens)?;
            if child.is_none() {
                child = self.expression_statement(tokens)?;
            }
            if child.is_none() {
                child = self.assignment_statement(tokens)?;
            }
            match child {
                None => {
                    return Err(invalid_input_err("unknown statement"));
                },
                Some(child) => {
                    proof {
                        let next = tokens.position() as int;
                        assert(statement(toks, pos) == Parsed::Node(child@, next));
                        match statements(toks, next) {
                            Ok(more) => {
                                assert(done.push(child@) + more =~= done + (seq![child@] + more));
                            },
                            Err(_) => {},
                        }
                    }
                    node.add_child(child);
                },
            }
        }
        proof {
            assert(statements(toks, tokens.position() as int) == Ok::<Seq<Ast>, ErrorView>(
                Seq::empty(),
            ));
            assert(node@.children + Seq::<Ast>::empty() =~= node@.children);
        }
        Ok(node)
    }

    /// Parses an expression statement. Where no semicolon follows the
    /// expression, the stream is put back to where it was.
    fn expression_statement<R: TokenReader>(&self, tokens: &mut R) -> (result: Result<
        Option<SimpleASTNode>,
        ScriptError,
    >)
        requires
            in_bounds(old(tokens)),
            all_typed(old(tokens).tokens()),
        ensures
            final(tokens).tokens() == old(tokens).tokens(),
            in_bounds(final(tokens)),
            agrees(
                result,
                old(tokens).position(),
                final(tokens).position(),
                expression_statement(old(tokens).tokens(), old(tokens).position() as int),
            ),
    {
        proof {
            lemma_progress(tokens.tokens(), tokens.position() as int);
        }
        let pos = tokens.get_position();
        let node = self.additive(tokens)?;
        if node.is_none() {
            return Ok(node);
        }
        if peek_type(tokens) == Some(TokenType::SemiColon) {
            let _ = tokens.read();
            return Ok(node);
        }
        tokens.set_position(pos);
        Ok(None)
    }

    /// Parses an assignment. Where no `=` follows the name, the stream is put
    /// back to where it was.
    fn assignment_statement<R: TokenReader>(&self, tokens: &mut R) -> (result: Result<
        Option<SimpleASTNode>,
        ScriptError,
    >)
        requires
            in_bounds(old(tokens)),
            all_typed(old(tokens).tokens()),
        ensures
            final(tokens).tokens() == old(tokens).tokens(),
            in_bounds(final(tokens)),
            agrees(
                result,
                old(tokens).position(),
                final(tokens).position(),
                assignment_statement(old(tokens).tokens(), old(tokens).position() as int),
            ),
    {
        proof {
            lemma_progress(tokens.tokens(), tokens.position() as int + 2);
        }
        if peek_type(tokens) != Some(TokenType::Identifier) {
            return Ok(None);
        }
        let token = tokens.read().unwrap();
        let mut node = SimpleASTNode::new(ASTNodeType::AssignmentStmt, token.get_text());
        if peek_type(tokens) == Some(TokenType::Assignment) {
            let _ = tokens.read();
            let child = self.additive(tokens)?;
            match child {
                None => {
                    return Err(
                        invalid_input_err("invalid assignment statement, expecting an expression"),
                    );
                },
                Some(child) => {
                    node.add_child(child);
                },
            }
            if peek_type(tokens) != Some(TokenType::SemiColon) {
                return Err(invalid_input_err("invalid statement, expecting semicolon"));
            }
            let _ = tokens.read();
            return Ok(Some(node));
        }
        tokens.unread();
        Ok(None)
    }

    /// Parses the declaration of an integer variable, such as `int a;` or
    /// `int b = 2 * 3;`.
    fn int_declare<R: TokenReader>(&self, tokens: &mut R) -> (result: Result<
        Option<SimpleASTNode>,
        ScriptError,
    >)
        requires
            in_bounds(old(tokens)),
            all_typed(old(tokens).tokens()),
        ensures
            final(tokens).tokens() == old(tokens).tokens(),
            in_bounds(final(tokens)),
            agrees(
                result,
                old(tokens).position(),
                final(tokens).position(),
                int_declare(old(tokens).tokens(), old(tokens).position() as int),
            ),
    {
        proof {
            lemma_progress(tokens.tokens(), tokens.position() as int + 3);
        }
        if peek_type(tokens) != Some(TokenType::Int) {
            return Ok(None);
        }
        let _ = tokens.read();
        if peek_type(tokens) != Some(TokenType::Identifier) {
            return Err(invalid_input_err("variable name expected"));
        }
        let token = tokens.read().unwrap();
        let mut node = SimpleASTNode::new(ASTNodeType::IntDeclaration, token.get_text());
        if peek_type(tokens) == Some(TokenType::Assignment) {
            let _ = tokens.read();
            match self.additive(tokens)? {
                None => {
                    return Err(
                        invalid_input_err(
                            "invalid variable initialization, expecting an expression",
                        ),
                    );
                },
                Some(child) => {
                    node.add_child(child);
                },
            }
        }
        if peek_type(tokens) != Some(TokenType::SemiColon) {
            return Err(invalid_input_err("invalid statement, expecting semicolon"));
        }
        let _ = tokens.read();
        Ok(Some(node))
    }

    /// Parses a sum: products joined by `+` and `-`, grouped from the left.
    fn additive<R: TokenReader>(&self, tokens: &mut R) -> (result: Result<
        Option<SimpleASTNode>,
        ScriptError,
    >)
        requires
            in_bounds(old(tokens)),
            all_typed(old(tokens).tokens()),
        ensures
            final(tokens).tokens() == old(tokens).tokens(),
            in_bounds(final(tokens)),
            agrees(
                result,
                old(tokens).position(),
                final(tokens).position(),
                additive(old(tokens).tokens(), old(tokens).position() as int),
            ),
        decreases old(tokens).tokens().len() - old(tokens).position(), 2int,
    {
        let ghost toks = tokens.tokens();
        let ghost start = tokens.position() as int;
        proof {
            lemma_progress(toks, start);
        }
        let mut child1 = match self.multiplicative(tokens)? {
            None => {
                return Ok(None);
            },
            Some(child) => child,
        };
        loop
            invariant
                in_bounds(tokens),
                tokens.tokens() == toks,
                toks == old(tokens).tokens(),
                start == old(tokens).position(),
                all_typed(toks),
                start < tokens.position(),
                additive(toks, start) == additive_rest(toks, tokens.position() as int, child1@),
            ensures
                in_bounds(tokens),
                tokens.tokens() == toks,
                additive(toks, start) == Parsed::Node(child1@, tokens.position() as int),
            decreases toks.len() - tokens.position(),
        {
            let ghost pos = tokens.position() as int;
            let kind = peek_type(tokens);
            if kind != Some(TokenType::Plus) && kind != Some(TokenType::Minus) {
                break ;
            }
            proof {
                lemma_progress(toks, pos + 1);
            }
            let token_text = tokens.read().unwrap().get_text();
            let mut node = SimpleASTNode::new(ASTNodeType::Additive, token_text);
            let child2 = match self.multiplicative(tokens)? {
                None => {
                    return Err(
                        invalid_input_err("invalid additive expression, expecting the right part."),
                    );
                },
                Some(child) => child,
            };
            proof {
                assert(node@.with_child(child1@).with_child(child2@).children =~= seq![
                    child1@,
                    child2@,
                ]);
            }
            node.add_child(child1);
            node.add_child(child2);
            child1 = node;
        }
        Ok(Some(child1))
    }

    /// Parses a product: primary expressions joined by `*` and `/`, grouped
    /// from the left.
    fn multiplicative<R: TokenReader>(&self, tokens: &mut R) -> (result: Result<
        Option<SimpleASTNode>,
        ScriptError,
    >)
        requires
            in_bounds(old(tokens)),
            all_typed(old(tokens).tokens()),
        ensures
            final(tokens).tokens() == old(tokens).tokens(),
            in_bounds(final(tokens)),
            agrees(
                result,
                old(tokens).position(),
                final(tokens).position(),
                multiplicative(old(tokens).tokens(), old(tokens).position() as int),
            ),
        decreases old(tokens).tokens().len() - old(tokens).position(), 1int,
    {
        let ghost toks = tokens.tokens();
        let ghost start = tokens.position() as int;
        proof {
            lemma_progress(toks, start);
        }
        let mut child1 = match self.primary(tokens)? {
            None => {
                return Ok(None);
            },
            Some(child) => child,
        };
        loop
            invariant
                in_bounds(tokens),
                tokens.tokens() == toks,
                toks == old(tokens).tokens(),
                start == old(tokens).position(),
                all_typed(toks),
                start < tokens.position(),
                multiplicative(toks, start) == multiplicative_rest(
                    toks,
                    tokens.position() as int,
                    child1@,
                ),
            ensures
                in_bounds(tokens),
                tokens.tokens() == toks,
                multiplicative(toks, start) == Parsed::Node(child1@, tokens.position() as int),
            decreases toks.len() - tokens.position(),
        {
            let ghost pos = tokens.position() as int;
            let kind = peek_type(tokens);
            if kind != Some(TokenType::Star) && kind != Some(TokenType::Slash) {
                break ;
            }
            proof {
                lemma_progress(toks, pos + 1);
            }
            let token_text = tokens.read().unwrap().get_text();
            let mut node = SimpleASTNode::new(ASTNodeType::Multiplicative, token_text);
            let child2 = match self.primary(tokens)? {
                None => {
                    return Err(
                        invalid_input_err("invalid additive expression, expecting the right part."),
                    );
                },
                Some(child) => child,
            };
            proof {
                assert(node@.with_child(child1@).with_child(child2@).children =~= seq![
                    child1@,
                    child2@,
                ]);
            }
            node.add_child(child1);
            node.add_child(child2);
            child1 = node;
        }
        Ok(Some(child1))
    }

    /// Parses a primary expression: a literal, a name, or an expression in
    /// parentheses.
    fn primary<R: TokenReader>(&self, tokens: &mut R) -> (result: Result<
        Option<SimpleASTNode>,
        ScriptError,
    >)
        requires
            in_bounds(old(tokens)),
            all_typed(old(tokens).tokens()),
        ensures
            final(tokens).tokens() == old(tokens).tokens(),
            in_bounds(final(tokens)),
            agrees(
                result,
                old(tokens).position(),
                final(tokens).position(),
                primary(old(tokens).tokens(), old(tokens).position() as int),
            ),
        decreases old(tokens).tokens().len() - old(tokens).position(), 0int,
    {
        proof {
            lemma_progress(tokens.tokens(), tokens.position() as int + 1);
        }
        match peek_type(tokens) {
            Some(TokenType::IntLiteral) => {
                let token = tokens.read().unwrap();
                Ok(Some(SimpleASTNode::new(ASTNodeType::IntLiteral, token.get_text())))
            },
            Some(TokenType::Identifier) => {
                let token = tokens.read().unwrap();
                Ok(Some(SimpleASTNode::new(ASTNodeType::Identifier, token.get_text())))
            },
            Some(TokenType::LeftParen) => {
                let _ = tokens.read();
                let node = self.additive(tokens)?;
                if node.is_none() {
                    return Err(
                        invalid_input_err("expecting an additive expression inside parenthesis"),
                    );
                }
                if peek_type(tokens) != Some(TokenType::RightParen) {
                    return Err(invalid_input_err("expecting right parenthesis"));
                }
                let _ = tokens.read();
                Ok(node)
            },
            _ => Ok(None),
        }
    }
}

} // verus!
