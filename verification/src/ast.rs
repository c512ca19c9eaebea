//! Syntax trees: a node has a kind, a text and an ordered list of children.
use vstd::prelude::*;

verus! {

/// The kind of a node of the syntax tree.
#[derive(Debug, PartialEq, Eq, Clone, Copy, Structural)]
pub enum ASTNodeType {
    /// The root: a sequence of statements.
    Program,
    /// The declaration of an integer variable, with or without a first value.
    IntDeclaration,
    /// An expression followed by a semicolon.
    ExpressionStmt,
    /// The assignment of a value to a variable.
    AssignmentStmt,
    /// A primary expression.
    Primary,
    /// A product or a quotient.
    Multiplicative,
    /// A sum or a difference.
    Additive,
    /// The name of a variable.
    Identifier,
    /// An integer written in digits.
    IntLiteral,
}

impl ASTNodeType {
    /// The name of the kind, as it is written in the source of this type.
    pub open spec fn spec_name(self) -> Seq<char> {
        match self {
            ASTNodeType::Program => "Program"@,
            ASTNodeType::IntDeclaration => "IntDeclaration"@,
            ASTNodeType::ExpressionStmt => "ExpressionStmt"@,
            ASTNodeType::AssignmentStmt => "AssignmentStmt"@,
            ASTNodeType::Primary => "Primary"@,
            ASTNodeType::Multiplicative => "Multiplicative"@,
            ASTNodeType::Additive => "Additive"@,
            ASTNodeType::Identifier => "Identifier"@,
            ASTNodeType::IntLiteral => "IntLiteral"@,
        }
    }

    /// The name of the kind, for display.
    pub fn name(&self) -> (name: &'static str)
        ensures
            name@ == self.spec_name(),
    {
        match self {
            ASTNodeType::Program => "Program",
            ASTNodeType::IntDeclaration => "IntDeclaration",
            ASTNodeType::ExpressionStmt => "ExpressionStmt",
            ASTNodeType::AssignmentStmt => "AssignmentStmt",
            ASTNodeType::Primary => "Primary",
            ASTNodeType::Multiplicative => "Multiplicative",
            ASTNodeType::Additive => "Additive",
            ASTNodeType::Identifier => "Identifier",
            ASTNodeType::IntLiteral => "IntLiteral",
        }
    }
}

/// A syntax tree as the specifications see it.
pub struct Ast {
    /// The kind of the root.
    pub kind: ASTNodeType,
    /// A literal, an operator or a name, as the kind has it.
    pub text: Seq<char>,
    /// The subtrees, first to last.
    pub children: Seq<Ast>,
}

impl Ast {
    /// A tree of one node.
    pub open spec fn leaf(kind: ASTNodeType, text: Seq<char>) -> Ast {
        Ast { kind, text, children: Seq::empty() }
    }

    /// This tree with `child` added behind its children.
    pub open spec fn with_child(self, child: Ast) -> Ast {
        Ast { kind: self.kind, text: self.text, children: self.children.push(child) }
    }

    /// An operator applied to a left and a right operand.
    pub open spec fn binary(kind: ASTNodeType, op: Seq<char>, left: Ast, right: Ast) -> Ast {
        Ast { kind, text: op, children: seq![left, right] }
    }

    /// Every sum and every product in the tree has exactly two operands.
    pub open spec fn well_formed(self) -> bool
        decreases self,
    {
        &&& (self.kind == ASTNodeType::Additive || self.kind == ASTNodeType::Multiplicative)
            ==> self.children.len() == 2
        &&& forall|i: int|
            0 <= i < self.children.len() ==> (#[trigger] self.children[i]).well_formed()
    }
}

/// A node of a syntax tree, with read access to what it holds.
pub trait ASTNode: View<V = Ast> + Sized {
    /// The children of the node, first to last.
    fn get_children(&self) -> (children: &Vec<Self>)
        ensures
            children@.len() == self@.children.len(),
            forall|i: int|
                0 <= i < children@.len() ==> (#[trigger] children@[i])@ == self@.children[i],
    ;

    /// The kind of the node.
    fn get_type(&self) -> (kind: ASTNodeType)
        ensures
            kind == self@.kind,
    ;

    /// The text of the node.
    fn get_text(&self) -> (text: &str)
        ensures
            text@ == self@.text,
    ;
}

/// A node that owns its children.
#[derive(Debug)]
pub struct SimpleASTNode {
    children: Vec<SimpleASTNode>,
    node_type: ASTNodeType,
    text: String,
}

impl View for SimpleASTNode {
    type V = Ast;

    closed spec fn view(&self) -> Ast {
        self.tree()
    }
}

impl SimpleASTNode {
    /// The tree below this node.
    spec fn tree(&self) -> Ast
        decreases self,
    {
        Ast {
            kind: self.node_type,
            text: self.text@,
            children: Seq::new(
                self.children@.len(),
                |i: int|
                    if 0 <= i < self.children@.len() {
                        self.children@[i].tree()
                    } else {
                        arbitrary()
                    },
            ),
        }
    }

    /// A node of the kind `node_type` with the text `text` and no children.
    pub fn new(node_type: ASTNodeType, text: &str) -> (node: Self)
        ensures
            node@ == Ast::leaf(node_type, text@),
    {
        let node = SimpleASTNode { children: Vec::new(), node_type, text: String::from_str(text) };
        assert(node@.children =~= Seq::empty());
        node
    }

    /// Adds `child` behind the children that the node has.
    pub fn add_child(&mut self, child: SimpleASTNode)
        ensures
            final(self)@ == old(self)@.with_child(child@),
    {
        proof {
            self.lemma_view();
        }
        self.children.push(child);
        proof {
            self.lemma_view();
            assert(self@.children =~= old(self)@.children.push(child@));
        }
    }

    /// Tells whether every sum and every product in the tree below this node
    /// has exactly two operands.
    pub fn is_well_formed(&self) -> (ok: bool)
        ensures
            ok == self@.well_formed(),
        decreases self@,
    {
        proof {
            self.lemma_view();
        }
        let binary = match self.node_type {
            ASTNodeType::Additive | ASTNodeType::Multiplicative => true,
            _ => false,
        };
        if binary && self.children.len() != 2 {
            return false;
        }
        let mut i: usize = 0;
        while i < self.children.len()
            invariant
                i <= self.children.len(),
                self@.children.len() == self.children@.len(),
                forall|j: int|
                    0 <= j < self.children@.len() ==> self@.children[j] == (
                    #[trigger] self.children@[j])@,
                forall|j: int| 0 <= j < i ==> (#[trigger] self@.children[j]).well_formed(),
            decreases self.children.len() - i,
        {
            if !self.children[i].is_well_formed() {
                return false;
            }
            i += 1;
        }
        true
    }

    /// The view of a node, field by field.
    proof fn lemma_view(&self)
        ensures
            self@.kind == self.node_type,
            self@.text == self.text@,
            self@.children.len() == self.children@.len(),
            forall|i: int|
                0 <= i < self.children@.len() ==> self@.children[i] == (
                #[trigger] self.children@[i])@,
    {
        reveal_with_fuel(SimpleASTNode::tree, 2);
    }
}

impl ASTNode for SimpleASTNode {
    fn get_children(&self) -> (children: &Vec<SimpleASTNode>) {
        proof {
            self.lemma_view();
        }
        &self.children
    }

    fn get_type(&self) -> (kind: ASTNodeType) {
        self.node_type
    }

    fn get_text(&self) -> (text: &str) {
        self.text.as_str()
    }
}

} // verus!
