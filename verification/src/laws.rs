//! Laws of the interpreter: what holds of every program, proved from the
//! specifications of the lexer, the grammar and the evaluator.
use vstd::prelude::*;
use crate::ast::{ASTNodeType, Ast};
use crate::error::ErrorView;
use crate::grammar::{
    additive, additive_operator_at, additive_rest, expression_statement, int_declare, kind_at,
    lemma_progress, multiplicative, multiplicative_operator_at, multiplicative_rest, primary,
    program, program_text, statement, statements, Parsed,
};
use crate::lexer::{
    classify, is_digit, lemma_digits_end_is, lexeme_end, lexeme_kind, scan, scan_from, text_of,
};
use crate::numeral::{
    all_digits, digits_value, lemma_digits_value_nonnegative, parse_i32, unsigned_part,
};
use crate::script::{eval, eval_all, run, undefined_variable, Outcome, Session, SimpleScript};
use crate::token::{TokenType, TokenView};

verus! {

/// The tokens of a run of digits followed by a semicolon are an integer
/// literal with those digits and a semicolon.
pub proof fn lemma_scan_literal_statement(literal: Seq<char>)
    requires
        literal.len() > 0,
        all_digits(literal),
    ensures
        scan(literal.push(';')) == seq![
            TokenView { kind: Some(TokenType::IntLiteral), text: literal },
            TokenView { kind: Some(TokenType::SemiColon), text: seq![';'] },
        ],
{
    let s = classify(literal.push(';'));
    let n = literal.len() as int;
    assert forall|k: int| 1 <= k < n implies is_digit((#[trigger] s[k]).0) by {
        assert(s[k].0 == literal[k]);
    }
    assert(s[0].0 == literal[0]);
    assert(s[n].0 == ';');
    lemma_digits_end_is(s, 1, n);
    assert(lexeme_end(s, 0) == n);
    assert(lexeme_kind(s, 0) == Some(TokenType::IntLiteral));
    assert(text_of(s, 0, n) =~= literal);
    assert(lexeme_end(s, n) == n + 1);
    assert(lexeme_kind(s, n) == Some(TokenType::SemiColon));
    assert(text_of(s, n, n + 1) =~= seq![';']);
    assert(scan_from(s, n + 1) =~= Seq::empty());
    assert(scan_from(s, n) =~= seq![
        TokenView { kind: Some(TokenType::SemiColon), text: seq![';'] },
    ]);
    assert(scan_from(s, 0) =~= seq![
        TokenView { kind: Some(TokenType::IntLiteral), text: literal },
        TokenView { kind: Some(TokenType::SemiColon), text: seq![';'] },
    ]);
}

/// The program of an integer literal followed by a semicolon is that literal
/// as its only statement.
pub proof fn lemma_parse_literal_statement(literal: Seq<char>)
    ensures
        program(
            seq![
                TokenView { kind: Some(TokenType::IntLiteral), text: literal },
                TokenView { kind: Some(TokenType::SemiColon), text: seq![';'] },
            ],
        ) == Ok::<Ast, ErrorView>(
            Ast {
                kind: ASTNodeType::Program,
                text: program_text(),
                children: seq![Ast::leaf(ASTNodeType::IntLiteral, literal)],
            },
        ),
{
    let tokens = seq![
        TokenView { kind: Some(TokenType::IntLiteral), text: literal },
        TokenView { kind: Some(TokenType::SemiColon), text: seq![';'] },
    ];
    let leaf = Ast::leaf(ASTNodeType::IntLiteral, literal);
    assert(kind_at(tokens, 0) == Some(TokenType::IntLiteral));
    assert(kind_at(tokens, 1) == Some(TokenType::SemiColon));
    assert(primary(tokens, 0) == Parsed::Node(leaf, 1));
    assert(multiplicative_rest(tokens, 1, leaf) == Parsed::Node(leaf, 1));
    assert(multiplicative(tokens, 0) == Parsed::Node(leaf, 1));
    assert(additive_rest(tokens, 1, leaf) == Parsed::Node(leaf, 1));
    assert(additive(tokens, 0) == Parsed::Node(leaf, 1));
    assert(int_declare(tokens, 0) == Parsed::Nothing);
    assert(expression_statement(tokens, 0) == Parsed::Node(leaf, 2));
    assert(statement(tokens, 0) == Parsed::Node(leaf, 2));
    assert(statements(tokens, 2) == Ok::<Seq<Ast>, ErrorView>(Seq::empty()));
    assert(seq![leaf] + Seq::<Ast>::empty() =~= seq![leaf]);
    assert(statements(tokens, 0) == Ok::<Seq<Ast>, ErrorView>(seq![leaf]));
}

/// A statement that is one integer literal evaluates to the value of the
/// literal: for every run of digits `literal` whose value fits in 32 bits,
/// the text of `literal` followed by a semicolon evaluates to that value, in
/// any session, and defines no variable.
pub proof fn lemma_literal_statement(literal: Seq<char>, session: Session, verbose: bool)
    requires
        literal.len() > 0,
        all_digits(literal),
        digits_value(literal) <= i32::MAX,
    ensures
        run(literal.push(';'), session, verbose).result == Ok::<i32, ErrorView>(
            digits_value(literal) as i32,
        ),
        run(literal.push(';'), session, verbose).session.variables == session.variables,
{
    lemma_scan_literal_statement(literal);
    lemma_parse_literal_statement(literal);
    lemma_digits_value_nonnegative(literal);
    let leaf = Ast::leaf(ASTNodeType::IntLiteral, literal);
    let root = Ast { kind: ASTNodeType::Program, text: program_text(), children: seq![leaf] };
    assert(is_digit(literal[0]));
    assert(unsigned_part(literal) == literal);
    assert(parse_i32(literal) == Some(digits_value(literal) as i32));
    let entered = session.report_if(verbose, crate::script::TraceView::Calculating(root.kind));
    assert(eval_all(root.children, 0, entered, verbose) == Outcome {
        result: Ok(0),
        session: entered,
    });
    assert(root.children[0] == leaf);
    assert(eval(leaf, entered, verbose).result == Ok::<i32, ErrorView>(
        digits_value(literal) as i32,
    ));
    assert(eval_all(root.children, 1, entered, verbose) == eval(leaf, entered, verbose));
}

/// An assignment to a variable that was never declared fails, whatever its
/// value, and defines nothing: the variables of the session stay as they
/// were.
pub proof fn lemma_assignment_needs_declaration(ast: Ast, session: Session, verbose: bool)
    requires
        ast.kind == ASTNodeType::AssignmentStmt,
        !session.variables.contains_key(ast.text),
    ensures
        eval(ast, session, verbose).result == Err::<i32, ErrorView>(undefined_variable(ast.text)),
        eval(ast, session, verbose).session.variables == session.variables,
{
}

/// Sums group from the left: behind an operand `left`, the tokens
/// `op1 mid op2 right`, where no further `+` or `-` follows, yield
/// `((left op1 mid) op2 right)`, whatever the operands are.
pub proof fn lemma_sums_group_from_the_left(
    tokens: Seq<TokenView>,
    pos: int,
    left: Ast,
    mid: Ast,
    mid_end: int,
    right: Ast,
    end: int,
)
    requires
        0 <= pos,
        additive_operator_at(tokens, pos),
        multiplicative(tokens, pos + 1) == Parsed::Node(mid, mid_end),
        additive_operator_at(tokens, mid_end),
        multiplicative(tokens, mid_end + 1) == Parsed::Node(right, end),
        !additive_operator_at(tokens, end),
    ensures
        additive_rest(tokens, pos, left) == Parsed::Node(
            Ast::binary(
                ASTNodeType::Additive,
                tokens[mid_end].text,
                Ast::binary(ASTNodeType::Additive, tokens[pos].text, left, mid),
                right,
            ),
            end,
        ),
{
    lemma_progress(tokens, pos + 1);
    lemma_progress(tokens, mid_end + 1);
    let inner = Ast::binary(ASTNodeType::Additive, tokens[pos].text, left, mid);
    let outer = Ast::binary(ASTNodeType::Additive, tokens[mid_end].text, inner, right);
    assert(additive_rest(tokens, end, outer) == Parsed::Node(outer, end));
    assert(additive_rest(tokens, mid_end, inner) == Parsed::Node(outer, end));
}

/// Products group from the left: behind an operand `left`, the tokens
/// `op1 mid op2 right`, where no further `*` or `/` follows, yield
/// `((left op1 mid) op2 right)`, whatever the operands are.
pub proof fn lemma_products_group_from_the_left(
    tokens: Seq<TokenView>,
    pos: int,
    left: Ast,
    mid: Ast,
    mid_end: int,
    right: Ast,
    end: int,
)
    requires
        0 <= pos,
        multiplicative_operator_at(tokens, pos),
        primary(tokens, pos + 1) == Parsed::Node(mid, mid_end),
        multiplicative_operator_at(tokens, mid_end),
        primary(tokens, mid_end + 1) == Parsed::Node(right, end),
        !multiplicative_operator_at(tokens, end),
    ensures
        multiplicative_rest(tokens, pos, left) == Parsed::Node(
            Ast::binary(
                ASTNodeType::Multiplicative,
                tokens[mid_end].text,
                Ast::binary(ASTNodeType::Multiplicative, tokens[pos].text, left, mid),
                right,
            ),
            end,
        ),
{
    lemma_progress(tokens, pos + 1);
    lemma_progress(tokens, mid_end + 1);
    let inner = Ast::binary(ASTNodeType::Multiplicative, tokens[pos].text, left, mid);
    let outer = Ast::binary(ASTNodeType::Multiplicative, tokens[mid_end].text, inner, right);
    assert(multiplicative_rest(tokens, end, outer) == Parsed::Node(outer, end));
    assert(multiplicative_rest(tokens, mid_end, inner) == Parsed::Node(outer, end));
}

/// Products bind tighter than sums: behind an operand `left`, the tokens
/// `op1 b op2 c`, where `op1` is `+` or `-`, `op2` is `*` or `/` and no
/// further operator follows, yield `(left op1 (b op2 c))`, whatever the
/// operands are.
pub proof fn lemma_products_bind_tighter(
    tokens: Seq<TokenView>,
    pos: int,
    left: Ast,
    b: Ast,
    b_end: int,
    c: Ast,
    end: int,
)
    requires
        0 <= pos,
        additive_operator_at(tokens, pos),
        primary(tokens, pos + 1) == Parsed::Node(b, b_end),
        multiplicative_operator_at(tokens, b_end),
        primary(tokens, b_end + 1) == Parsed::Node(c, end),
        !multiplicative_operator_at(tokens, end),
        !additive_operator_at(tokens, end),
    ensures
        additive_rest(tokens, pos, left) == Parsed::Node(
            Ast::binary(
                ASTNodeType::Additive,
                tokens[pos].text,
                left,
                Ast::binary(ASTNodeType::Multiplicative, tokens[b_end].text, b, c),
            ),
            end,
        ),
{
    lemma_progress(tokens, pos + 1);
    lemma_progress(tokens, b_end + 1);
    let product = Ast::binary(ASTNodeType::Multiplicative, tokens[b_end].text, b, c);
    let sum = Ast::binary(ASTNodeType::Additive, tokens[pos].text, left, product);
    assert(multiplicative_rest(tokens, end, product) == Parsed::Node(product, end));
    assert(multiplicative_rest(tokens, b_end, b) == Parsed::Node(product, end));
    assert(multiplicative(tokens, pos + 1) == Parsed::Node(product, end));
    assert(additive_rest(tokens, end, sum) == Parsed::Node(sum, end));
}

/// A variable has the value it was last given: where a declaration or an
/// assignment of the variable `name` ends without an error, reading `name`
/// in the session it leaves yields the value it ended with.
pub proof fn lemma_binding_then_read(binding: Ast, session: Session, verbose: bool)
    requires
        binding.kind == ASTNodeType::IntDeclaration || binding.kind
            == ASTNodeType::AssignmentStmt,
        eval(binding, session, verbose).result is Ok,
    ensures
        eval(
            Ast::leaf(ASTNodeType::Identifier, binding.text),
            eval(binding, session, verbose).session,
            verbose,
        ).result == eval(binding, session, verbose).result,
{
}

/// Sessions do not share state: what a text evaluates to depends on the
/// session it is evaluated in and on nothing else. Two sessions that hold
/// the same variables and reports, such as two new ones, yield the same
/// outcome for the same text.
pub proof fn lemma_sessions_are_independent(a: SimpleScript, b: SimpleScript, code: Seq<char>)
    requires
        a@ == b@,
        a.is_verbose() == b.is_verbose(),
    ensures
        run(code, a@, a.is_verbose()) == run(code, b@, b.is_verbose()),
{
}

} // verus!
