use craft::{ASTNode, ASTNodeType, ErrorKind, SimpleASTNode, SimpleParser};

/// A tree written with parentheses: the text of the node, then its
/// children.
fn shape(node: &SimpleASTNode) -> String {
    let children = node.get_children();
    if children.is_empty() {
        return node.get_text().to_string();
    }
    let mut out = format!("({}", node.get_text());
    for child in children.iter() {
        out.push(' ');
        out.push_str(&shape(child));
    }
    out.push(')');
    out
}

fn parse(code: &str) -> SimpleASTNode {
    match SimpleParser::new().parse(code) {
        Ok(root) => root,
        Err(e) => panic!("parse failed: {}", e.message()),
    }
}

fn parse_error(code: &str) -> String {
    match SimpleParser::new().parse(code) {
        Ok(root) => panic!("parsed as {}", shape(&root)),
        Err(e) => {
            assert_eq!(e.kind(), ErrorKind::InvalidInput);
            e.message().to_string()
        }
    }
}

#[test]
fn simple_parser_test() {
    let root = parse("int age = 45+2; age= 20; age+10*2;");
    assert_eq!(root.get_type(), ASTNodeType::Program);
    assert_eq!(shape(&root), "(SimpleParser (age (+ 45 2)) (age 20) (+ age (* 10 2)))");
    let children = root.get_children();
    assert_eq!(children[0].get_type(), ASTNodeType::IntDeclaration);
    assert_eq!(children[1].get_type(), ASTNodeType::AssignmentStmt);
    assert_eq!(children[2].get_type(), ASTNodeType::Additive);

    let root = parse("a = 2+3+4;");
    assert_eq!(shape(&root), "(SimpleParser (a (+ (+ 2 3) 4)))");
    assert_eq!(root.get_children()[0].get_type(), ASTNodeType::AssignmentStmt);

    assert_eq!(parse_error("+2;"), "unknown statement");
}

#[test]
fn operators_of_one_rule_group_from_the_left() {
    let root = parse("1+2-3;");
    assert_eq!(shape(&root), "(SimpleParser (- (+ 1 2) 3))");
    let minus = &root.get_children()[0];
    assert_eq!(minus.get_type(), ASTNodeType::Additive);
    assert_eq!(minus.get_text(), "-");
    let plus = &minus.get_children()[0];
    assert_eq!(plus.get_type(), ASTNodeType::Additive);
    assert_eq!(plus.get_text(), "+");
    assert_eq!(plus.get_children()[0].get_text(), "1");
    assert_eq!(plus.get_children()[1].get_text(), "2");
    assert_eq!(minus.get_children()[1].get_text(), "3");

    assert_eq!(shape(&parse("8/4/2;")), "(SimpleParser (/ (/ 8 4) 2))");
    assert_eq!(shape(&parse("8/4*2;")), "(SimpleParser (* (/ 8 4) 2))");
}

#[test]
fn products_bind_tighter_than_sums() {
    assert_eq!(shape(&parse("2+3*4;")), "(SimpleParser (+ 2 (* 3 4)))");
    assert_eq!(shape(&parse("2*3+4;")), "(SimpleParser (+ (* 2 3) 4))");
    assert_eq!(shape(&parse("(2+3)*4;")), "(SimpleParser (* (+ 2 3) 4))");
    let root = parse("2+3*4;");
    let sum = &root.get_children()[0];
    assert_eq!(sum.get_type(), ASTNodeType::Additive);
    assert_eq!(sum.get_children()[1].get_type(), ASTNodeType::Multiplicative);
}

#[test]
fn parentheses_leave_no_node() {
    assert_eq!(shape(&parse("((7));")), "(SimpleParser 7)");
    let root = parse("(a);");
    assert_eq!(root.get_children()[0].get_type(), ASTNodeType::Identifier);
}

#[test]
fn an_assignment_is_found_after_the_expression_is_given_up() {
    let root = parse("a = 2+3+4;");
    let children = root.get_children();
    assert_eq!(children.len(), 1);
    let assignment = &children[0];
    assert_eq!(assignment.get_type(), ASTNodeType::AssignmentStmt);
    assert_eq!(assignment.get_text(), "a");
    assert_eq!(assignment.get_children().len(), 1);
    assert_eq!(shape(&assignment.get_children()[0]), "(+ (+ 2 3) 4)");
}

#[test]
fn a_declaration_without_a_value_has_no_child() {
    let root = parse("int x;");
    let declaration = &root.get_children()[0];
    assert_eq!(declaration.get_type(), ASTNodeType::IntDeclaration);
    assert_eq!(declaration.get_text(), "x");
    assert!(declaration.get_children().is_empty());
}

#[test]
fn a_declaration_with_a_value_has_it_as_child() {
    let root = parse("int a = b+3;");
    let declaration = &root.get_children()[0];
    assert_eq!(declaration.get_type(), ASTNodeType::IntDeclaration);
    assert_eq!(declaration.get_text(), "a");
    assert_eq!(shape(declaration), "(a (+ b 3))");
    let sum = &declaration.get_children()[0];
    assert_eq!(sum.get_children()[0].get_type(), ASTNodeType::Identifier);
    assert_eq!(sum.get_children()[1].get_type(), ASTNodeType::IntLiteral);
}

#[test]
fn an_empty_text_is_an_empty_program() {
    let root = parse("");
    assert_eq!(root.get_type(), ASTNodeType::Program);
    assert_eq!(root.get_text(), "SimpleParser");
    assert!(root.get_children().is_empty());
}

#[test]
fn a_leading_operator_is_no_statement() {
    let result = SimpleParser::new().parse("+2;");
    assert!(result.is_err());
    assert_eq!(parse_error("+2;"), "unknown statement");
    assert_eq!(parse_error("*"), "unknown statement");
    assert_eq!(parse_error(";"), "unknown statement");
    assert_eq!(parse_error(")"), "unknown statement");
}

#[test]
fn an_expression_without_semicolon_is_no_statement() {
    assert_eq!(parse_error("1+2"), "unknown statement");
    assert_eq!(parse_error("a"), "unknown statement");
    assert_eq!(parse_error("1; 2"), "unknown statement");
}

#[test]
fn each_broken_rule_says_what_it_expected() {
    assert_eq!(parse_error("int ;"), "variable name expected");
    assert_eq!(parse_error("int 5;"), "variable name expected");
    assert_eq!(parse_error("int "), "variable name expected");
    assert_eq!(
        parse_error("int a = ;"),
        "invalid variable initialization, expecting an expression"
    );
    assert_eq!(parse_error("int a = 1"), "invalid statement, expecting semicolon");
    assert_eq!(parse_error("int a b;"), "invalid statement, expecting semicolon");
    assert_eq!(parse_error("a = ;"), "invalid assignment statement, expecting an expression");
    assert_eq!(parse_error("a = 1"), "invalid statement, expecting semicolon");
    assert_eq!(parse_error("1 + ;"), "invalid additive expression, expecting the right part.");
    assert_eq!(parse_error("1 * ;"), "invalid additive expression, expecting the right part.");
    assert_eq!(parse_error("( ;"), "expecting an additive expression inside parenthesis");
    assert_eq!(parse_error("(1 ;"), "expecting right parenthesis");
    assert_eq!(parse_error("(1"), "expecting right parenthesis");
}

#[test]
fn the_first_error_ends_the_parse() {
    assert_eq!(parse_error("int a = 1; int ; a;"), "variable name expected");
    assert_eq!(parse_error("a; +; int ;"), "unknown statement");
}

#[test]
fn add_child_keeps_the_order() {
    let mut node = SimpleASTNode::new(ASTNodeType::Additive, "+");
    assert!(node.get_children().is_empty());
    node.add_child(SimpleASTNode::new(ASTNodeType::IntLiteral, "1"));
    node.add_child(SimpleASTNode::new(ASTNodeType::IntLiteral, "2"));
    node.add_child(SimpleASTNode::new(ASTNodeType::Identifier, "x"));
    assert_eq!(node.get_type(), ASTNodeType::Additive);
    assert_eq!(node.get_text(), "+");
    let children = node.get_children();
    assert_eq!(children.len(), 3);
    assert_eq!(children[0].get_text(), "1");
    assert_eq!(children[1].get_text(), "2");
    assert_eq!(children[2].get_text(), "x");
    assert_eq!(children[2].get_type(), ASTNodeType::Identifier);
}

#[test]
fn kinds_have_their_names() {
    assert_eq!(ASTNodeType::Program.name(), "Program");
    assert_eq!(ASTNodeType::IntDeclaration.name(), "IntDeclaration");
    assert_eq!(ASTNodeType::ExpressionStmt.name(), "ExpressionStmt");
    assert_eq!(ASTNodeType::AssignmentStmt.name(), "AssignmentStmt");
    assert_eq!(ASTNodeType::Primary.name(), "Primary");
    assert_eq!(ASTNodeType::Multiplicative.name(), "Multiplicative");
    assert_eq!(ASTNodeType::Additive.name(), "Additive");
    assert_eq!(ASTNodeType::Identifier.name(), "Identifier");
    assert_eq!(ASTNodeType::IntLiteral.name(), "IntLiteral");
}

#[test]
fn invalid_input_err_keeps_its_message() {
    let error = craft::invalid_input_err("unknown statement");
    assert_eq!(error.kind(), ErrorKind::InvalidInput);
    assert_eq!(error.message(), "unknown statement");
}

#[test]
fn a_parsed_tree_is_well_formed() {
    assert!(parse("int a = 1+2*3; a = (a+1)/2; a;").is_well_formed());
    assert!(parse("").is_well_formed());
}

#[test]
fn a_sum_needs_two_operands_to_be_well_formed() {
    let mut sum = SimpleASTNode::new(ASTNodeType::Additive, "+");
    assert!(!sum.is_well_formed());
    sum.add_child(SimpleASTNode::new(ASTNodeType::IntLiteral, "1"));
    assert!(!sum.is_well_formed());
    sum.add_child(SimpleASTNode::new(ASTNodeType::IntLiteral, "2"));
    assert!(sum.is_well_formed());
    let mut program = SimpleASTNode::new(ASTNodeType::Program, "p");
    program.add_child(SimpleASTNode::new(ASTNodeType::Multiplicative, "*"));
    assert!(!program.is_well_formed());
    let mut product = SimpleASTNode::new(ASTNodeType::Multiplicative, "*");
    product.add_child(SimpleASTNode::new(ASTNodeType::IntLiteral, "1"));
    product.add_child(SimpleASTNode::new(ASTNodeType::IntLiteral, "2"));
    product.add_child(SimpleASTNode::new(ASTNodeType::IntLiteral, "3"));
    assert!(!product.is_well_formed());
    assert!(SimpleASTNode::new(ASTNodeType::IntDeclaration, "x").is_well_formed());
}
