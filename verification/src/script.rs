//! The evaluator: walks a syntax tree against a table of variables.
//!
//! [`eval`] says what a tree evaluates to in a session, and what the session
//! is afterwards. [`SimpleScript::evaluate`] is proved to compute it.
use vstd::prelude::*;
use vstd::hash_map::StringHashMap;
use crate::ast::{ASTNode, ASTNodeType, Ast};
use crate::error::{ErrorKind, ErrorView, ScriptError};
use crate::grammar::program;
use crate::lexer::scan;
use crate::numeral::{divide, parse_i32, parse_int, quotient};
use crate::parser::SimpleParser;

verus! {

/// Something that the evaluator reports while it works.
#[derive(Debug, PartialEq, Eq)]
pub enum TraceEvent {
    /// The evaluation of a node of this kind begins. Reported only by a
    /// verbose session.
    Calculating(ASTNodeType),
    /// The evaluation that began last and has not ended yet ends with this
    /// value. Reported only by a verbose session.
    Result(i32),
    /// A variable of this name was read and none is defined. It counts as 0.
    UnknownVariable(String),
    /// A sum or a product has this text as its operator, which is none. It
    /// counts as 0.
    UnsupportedOperator(String),
}

/// A report of the evaluator as the specifications see it.
pub enum TraceView {
    Calculating(ASTNodeType),
    Result(i32),
    UnknownVariable(Seq<char>),
    UnsupportedOperator(Seq<char>),
}

impl View for TraceEvent {
    type V = TraceView;

    open spec fn view(&self) -> TraceView {
        match self {
            TraceEvent::Calculating(kind) => TraceView::Calculating(*kind),
            TraceEvent::Result(value) => TraceView::Result(*value),
            TraceEvent::UnknownVariable(name) => TraceView::UnknownVariable(name@),
            TraceEvent::UnsupportedOperator(text) => TraceView::UnsupportedOperator(text@),
        }
    }
}

/// The views of reports, in order.
pub open spec fn trace_views(trace: Seq<TraceEvent>) -> Seq<TraceView> {
    trace.map_values(|e: TraceEvent| e@)
}

/// The state of a session: the value of each variable that is defined, and
/// what has been reported so far.
pub struct Session {
    pub variables: Map<Seq<char>, i32>,
    pub trace: Seq<TraceView>,
}

impl Session {
    /// The session of an interpreter that has done nothing yet.
    pub open spec fn fresh() -> Session {
        Session { variables: Map::empty(), trace: Seq::empty() }
    }

    /// This session after the report `event`.
    pub open spec fn report(self, event: TraceView) -> Session {
        Session { variables: self.variables, trace: self.trace.push(event) }
    }

    /// This session after the report `event`, if `verbose`; else unchanged.
    pub open spec fn report_if(self, verbose: bool, event: TraceView) -> Session {
        if verbose {
            self.report(event)
        } else {
            self
        }
    }

    /// This session with the variable `name` set to `value`.
    pub open spec fn bind(self, name: Seq<char>, value: i32) -> Session {
        Session { variables: self.variables.insert(name, value), trace: self.trace }
    }
}

/// What an evaluation yields: a value or an error, and the session in which
/// it ended.
pub struct Outcome {
    pub result: Result<i32, ErrorView>,
    pub session: Session,
}

/// The error of an assignment to the variable `name`, which is not defined.
pub open spec fn undefined_variable(name: Seq<char>) -> ErrorView {
    ErrorView { kind: ErrorKind::UndefinedVariable, message: "you dont define variable "@ + name }
}

/// The error of an integer literal whose text `text` denotes no 32-bit
/// integer.
pub open spec fn invalid_literal(text: Seq<char>) -> ErrorView {
    ErrorView { kind: ErrorKind::InvalidLiteral, message: "invalid integer literal "@ + text }
}

/// The error of a division by zero.
pub open spec fn division_by_zero() -> ErrorView {
    ErrorView { kind: ErrorKind::DivisionByZero, message: "attempt to divide by zero"@ }
}

/// The error of an operation whose result does not fit in 32 bits.
pub open spec fn overflow() -> ErrorView {
    ErrorView { kind: ErrorKind::Overflow, message: "arithmetic overflow"@ }
}

/// `value` as the result of an operation: itself if it fits in 32 bits, else
/// an overflow.
pub open spec fn fitted(value: int) -> Result<i32, ErrorView> {
    if i32::MIN <= value <= i32::MAX {
        Ok(value as i32)
    } else {
        Err(overflow())
    }
}

/// The operator that `text` names: `+`, `-`, `*` or `/`, or none.
pub open spec fn operator(text: Seq<char>) -> Option<char> {
    if text.len() == 1 && (text[0] == '+' || text[0] == '-' || text[0] == '*' || text[0] == '/') {
        Some(text[0])
    } else {
        None
    }
}

/// The operator `op` applied to `left` and `right`. A quotient is rounded
/// toward zero.
pub open spec fn apply(op: char, left: i32, right: i32) -> Result<i32, ErrorView> {
    if op == '+' {
        fitted(left + right)
    } else if op == '-' {
        fitted(left - right)
    } else if op == '*' {
        fitted(left * right)
    } else if right == 0 {
        Err(division_by_zero())
    } else {
        fitted(quotient(left as int, right as int))
    }
}

/// What the tree `ast` evaluates to in `session`.
///
/// - A program evaluates its statements in order and has the value of the
///   last, or 0 if it has none.
/// - A sum or a product evaluates its left operand, then its right one, and
///   applies its operator to the two values. An operator that is none of
///   `+ - * /` is reported, and the value is 0.
/// - A literal has the value that its text denotes.
/// - A name has the value of its variable. A name whose variable is not
///   defined is reported, and the value is 0.
/// - A declaration evaluates its first value, or takes 0 where it has none,
///   and defines or redefines its variable with it.
/// - An assignment does the same for a variable that is defined, and is an
///   error for any other; its value is then not evaluated.
/// - Any other node has the value 0.
///
/// The first error ends the evaluation; what was defined and reported before
/// it stays. A verbose session reports the kind of each node as its
/// evaluation begins, and its value as it ends without an error.
pub open spec fn eval(ast: Ast, session: Session, verbose: bool) -> Outcome
    recommends
        ast.well_formed(),
    decreases ast, 0nat,
{
    let entered = session.report_if(verbose, TraceView::Calculating(ast.kind));
    let body = match ast.kind {
        ASTNodeType::Program => eval_all(ast.children, ast.children.len(), entered, verbose),
        ASTNodeType::Additive | ASTNodeType::Multiplicative => {
            if ast.children.len() < 2 {
                Outcome { result: Ok(0), session: entered }
            } else {
                let left = eval(ast.children[0], entered, verbose);
                match left.result {
                    Err(_) => left,
                    Ok(a) => {
                        let right = eval(ast.children[1], left.session, verbose);
                        match right.result {
                            Err(_) => right,
                            Ok(b) => match operator(ast.text) {
                                Some(op) => Outcome {
                                    result: apply(op, a, b),
                                    session: right.session,
                                },
                                None => Outcome {
                                    result: Ok(0),
                                    session: right.session.report(
                                        TraceView::UnsupportedOperator(ast.text),
                                    ),
                                },
                            },
                        }
                    },
                }
            }
        },
        ASTNodeType::IntLiteral => Outcome {
            result: match parse_i32(ast.text) {
                Some(value) => Ok(value),
                None => Err(invalid_literal(ast.text)),
            },
            session: entered,
        },
        ASTNodeType::Identifier => if entered.variables.contains_key(ast.text) {
            Outcome { result: Ok(entered.variables[ast.text]), session: entered }
        } else {
            Outcome {
                result: Ok(0),
                session: entered.report(TraceView::UnknownVariable(ast.text)),
            }
        },
        ASTNodeType::AssignmentStmt | ASTNodeType::IntDeclaration => {
            if ast.kind == ASTNodeType::AssignmentStmt && !entered.variables.contains_key(
                ast.text,
            ) {
                Outcome { result: Err(undefined_variable(ast.text)), session: entered }
            } else {
                let value = if ast.children.len() > 0 {
                    eval(ast.children[0], entered, verbose)
                } else {
                    Outcome { result: Ok(0), session: entered }
                };
                match value.result {
                    Err(_) => value,
                    Ok(v) => Outcome { result: Ok(v), session: value.session.bind(ast.text, v) },
                }
            }
        },
        _ => Outcome { result: Ok(0), session: entered },
    };
    match body.result {
        Ok(v) => Outcome {
            result: Ok(v),
            session: body.session.report_if(verbose, TraceView::Result(v)),
        },
        Err(_) => body,
    }
}

/// What the first `n` of the statements `children` evaluate to in `session`,
/// one after the other: the value of the last of them, or the first error.
pub open spec fn eval_all(children: Seq<Ast>, n: nat, session: Session, verbose: bool) -> Outcome
    decreases children, n,
{
    if n == 0 || n > children.len() {
        Outcome { result: Ok(0), session }
    } else {
        let before = eval_all(children, (n - 1) as nat, session, verbose);
        match before.result {
            Err(_) => before,
            Ok(_) => eval(children[n - 1], before.session, verbose),
        }
    }
}

/// What the source text `code` evaluates to in `session`: the value of its
/// tree, or the error that its tokens break the grammar with, in which case
/// nothing is evaluated.
pub open spec fn run(code: Seq<char>, session: Session, verbose: bool) -> Outcome {
    match program(scan(code)) {
        Ok(ast) => eval(ast, session, verbose),
        Err(e) => Outcome { result: Err(e), session },
    }
}

/// The outcome `result` of an evaluation is what the specification yields.
pub open spec fn agrees(
    result: Result<i32, ScriptError>,
    expected: Result<i32, ErrorView>,
) -> bool {
    match expected {
        Ok(value) => result == Ok::<i32, ScriptError>(value),
        Err(e) => result matches Err(err) && err@ == e,
    }
}

/// An error that ended the evaluation of some statements ends that of any
/// more of them.
proof fn lemma_eval_all_stops(children: Seq<Ast>, k: nat, n: nat, session: Session, verbose: bool)
    requires
        k <= n <= children.len(),
        eval_all(children, k, session, verbose).result is Err,
    ensures
        eval_all(children, n, session, verbose) == eval_all(children, k, session, verbose),
    decreases n - k,
{
    if k < n {
        lemma_eval_all_stops(children, k, (n - 1) as nat, session, verbose);
    }
}

/// The operator that `text` names.
fn operator_of(text: &str) -> (op: Option<char>)
    ensures
        op == operator(text@),
{
    if text.unicode_len() != 1 {
        return None;
    }
    let c = text.get_char(0);
    if c == '+' || c == '-' || c == '*' || c == '/' {
        Some(c)
    } else {
        None
    }
}

/// A value that should fit in 32 bits, or the error that it does not.
fn fit(value: Option<i32>) -> (result: Result<i32, ScriptError>)
    ensures
        match value {
            Some(v) => result == Ok::<i32, ScriptError>(v),
            None => result matches Err(err) && err@ == overflow(),
        },
{
    match value {
        Some(v) => Ok(v),
        None => Err(
            ScriptError::new(ErrorKind::Overflow, String::from_str("arithmetic overflow")),
        ),
    }
}

/// Applies the operator `op` to `left` and `right`.
fn apply_operator(op: char, left: i32, right: i32) -> (result: Result<i32, ScriptError>)
    ensures
        agrees(result, apply(op, left, right)),
{
    if op == '+' {
        fit(left.checked_add(right))
    } else if op == '-' {
        fit(left.checked_sub(right))
    } else if op == '*' {
        fit(left.checked_mul(right))
    } else if right == 0 {
        Err(
            ScriptError::new(
                ErrorKind::DivisionByZero,
                String::from_str("attempt to divide by zero"),
            ),
        )
    } else if left == i32::MIN && right == -1 {
        fit(None)
    } else {
        Ok(divide(left, right))
    }
}

/// An interpreter session: the variables that have been defined, and what
/// has been reported.
pub struct SimpleScript {
    variables: StringHashMap<i32>,
    verbose: bool,
    trace: Vec<TraceEvent>,
}

impl View for SimpleScript {
    type V = Session;

    closed spec fn view(&self) -> Session {
        Session { variables: self.variables@, trace: trace_views(self.trace@) }
    }
}

impl SimpleScript {
    /// Whether the session reports each step of an evaluation.
    pub closed spec fn is_verbose(&self) -> bool {
        self.verbose
    }

    /// A session with no variables and no reports.
    pub fn new(verbose: bool) -> (script: Self)
        ensures
            script@ == Session::fresh(),
            script.is_verbose() == verbose,
    {
        let script = SimpleScript { variables: StringHashMap::new(), verbose, trace: Vec::new() };
        assert(trace_views(script.trace@) =~= Seq::empty());
        script
    }

    /// Whether the session reports each step of an evaluation.
    pub fn verbose(&self) -> (verbose: bool)
        ensures
            verbose == self.is_verbose(),
    {
        self.verbose
    }

    /// The value of the variable `name`, if it is defined.
    pub fn get(&self, name: &str) -> (value: Option<i32>)
        ensures
            value == if self@.variables.contains_key(name@) {
                Some(self@.variables[name@])
            } else {
                None
            },
    {
        match self.variables.get(name) {
            Some(value) => Some(*value),
            None => None,
        }
    }

    /// What has been reported since the session began or the reports were
    /// last cleared, first to last.
    pub fn trace(&self) -> (trace: &Vec<TraceEvent>)
        ensures
            trace_views(trace@) == self@.trace,
    {
        &self.trace
    }

    /// Forgets what has been reported. The variables stay.
    pub fn clear_trace(&mut self)
        ensures
            final(self)@ == (Session { variables: old(self)@.variables, trace: Seq::empty() }),
            final(self).is_verbose() == old(self).is_verbose(),
    {
        self.trace = Vec::new();
        assert(trace_views(self.trace@) =~= Seq::empty());
    }

    /// Adds `event` to the reports.
    fn report(&mut self, event: TraceEvent)
        ensures
            final(self)@ == old(self)@.report(event@),
            final(self).is_verbose() == old(self).is_verbose(),
    {
        self.trace.push(event);
        assert(trace_views(self.trace@) =~= trace_views(old(self).trace@).push(event@));
    }

    /// Evaluates the tree below `node` in this session.
    pub fn evaluate<T: ASTNode>(&mut self, node: &T) -> (result: Result<i32, ScriptError>)
        requires
            node@.well_formed(),
        ensures
            final(self).is_verbose() == old(self).is_verbose(),
            final(self)@ == eval(node@, old(self)@, old(self).is_verbose()).session,
            agrees(result, eval(node@, old(self)@, old(self).is_verbose()).result),
        decreases node@,
    {
        let ghost ast = node@;
        let ghost verbose = self.is_verbose();
        let kind = node.get_type();
        if self.verbose {
            self.report(TraceEvent::Calculating(kind));
        }
        let ghost entered = self@;
        let mut result: i32 = 0;
        match kind {
            ASTNodeType::Program => {
                let children = node.get_children();
                let mut i: usize = 0;
                while i < children.len()
                    invariant
                        i <= children.len(),
                        children@.len() == ast.children.len(),
                        forall|j: int|
                            0 <= j < children@.len() ==> (#[trigger] children@[j])@
                                == ast.children[j],
                        ast == node@,
                        ast.well_formed(),
                        ast.kind == ASTNodeType::Program,
                        self.is_verbose() == verbose,
                        verbose == old(self).is_verbose(),
                        entered == old(self)@.report_if(
                            verbose,
                            TraceView::Calculating(ast.kind),
                        ),
                        eval_all(ast.children, i as nat, entered, verbose) == (Outcome {
                            result: Ok(result),
                            session: self@,
                        }),
                    decreases children.len() - i,
                {
                    match self.evaluate(&children[i]) {
                        Ok(value) => {
                            result = value;
                        },
                        Err(err) => {
                            proof {
                                lemma_eval_all_stops(
                                    ast.children,
                                    (i + 1) as nat,
                                    ast.children.len(),
                                    entered,
                                    verbose,
                                );
                            }
                            return Err(err);
                        },
                    }
                    i += 1;
                }
            },
            ASTNodeType::Additive | ASTNodeType::Multiplicative => {
                let children = node.get_children();
                let num1 = self.evaluate(&children[0])?;
                let num2 = self.evaluate(&children[1])?;
                let text = node.get_text();
                match operator_of(text) {
                    Some(op) => {
                        result = apply_operator(op, num1, num2)?;
                    },
                    None => {
                        self.report(TraceEvent::UnsupportedOperator(String::from_str(text)));
                    },
                }
            },
            ASTNodeType::IntLiteral => {
                let text = node.get_text();
                match parse_int(text) {
                    Some(value) => {
                        result = value;
                    },
                    None => {
                        return Err(
                            ScriptError::new(
                                ErrorKind::InvalidLiteral,
                                String::from_str("invalid integer literal ").concat(text),
                            ),
                        );
                    },
                }
            },
            ASTNodeType::Identifier => {
                let var_name = node.get_text();
                match self.variables.get(var_name) {
                    Some(value) => {
                        result = *value;
                    },
                    None => {
                        self.report(TraceEvent::UnknownVariable(String::from_str(var_name)));
                    },
                }
            },
            ASTNodeType::AssignmentStmt | ASTNodeType::IntDeclaration => {
                let var_name = node.get_text();
                if kind == ASTNodeType::AssignmentStmt && !self.variables.contains_key(var_name) {
                    return Err(
                        ScriptError::new(
                            ErrorKind::UndefinedVariable,
                            String::from_str("you dont define variable ").concat(var_name),
                        ),
                    );
                }
                let children = node.get_children();
                if children.len() > 0 {
                    result = self.evaluate(&children[0])?;
                }
                self.variables.insert(String::from_str(var_name), result);
            },
            _ => {},
        }
        if self.verbose {
            self.report(TraceEvent::Result(result));
        }
        Ok(result)
    }

    /// Parses `code` and evaluates its tree in this session. Where `code` is
    /// no program, nothing is evaluated.
    pub fn run(&mut self, code: &str) -> (result: Result<i32, ScriptError>)
        ensures
            final(self).is_verbose() == old(self).is_verbose(),
            final(self)@ == run(code@, old(self)@, old(self).is_verbose()).session,
            agrees(result, run(code@, old(self)@, old(self).is_verbose()).result),
    {
        let parser = SimpleParser::new();
        match parser.parse(code) {
            Ok(root) => self.evaluate(&root),
            Err(err) => Err(err),
        }
    }
}

} // verus!
