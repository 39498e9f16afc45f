//! The KelpyShark abstract syntax tree (every node type that the parser
//! produces), and its mathematical model.
//!
//! Each executable node has a view of the same shape in which strings are
//! character sequences and vectors are sequences.
use vstd::prelude::*;
use crate::error::SourceLocation;

verus! {

/// The root node of a KelpyShark program.
#[derive(Debug)]
pub struct Program {
    pub statements: Vec<Statement>,
}

/// A statement of the language.
#[derive(Debug)]
pub enum Statement {
    /// Variable assignment: `x = expr`
    Assignment { name: String, value: Expr, location: SourceLocation },
    /// Compound assignment: `x += expr`, `x -= expr`, ...
    CompoundAssignment { name: String, op: CompoundOp, value: Expr, location: SourceLocation },
    /// Function definition: `def name(params) { body }`
    FunctionDef { name: String, params: Vec<String>, body: Vec<Statement>, location: SourceLocation },
    /// If statement: `if expr { body }` with optional `elif`/`else`; an
    /// `elif` (or `else if`) branch is an else body holding one `If`.
    If { condition: Expr, then_body: Vec<Statement>, else_body: Option<Vec<Statement>>, location: SourceLocation },
    /// While loop: `while expr { body }`
    While { condition: Expr, body: Vec<Statement>, location: SourceLocation },
    /// For loop: `for item in expr { body }`
    For { variable: String, iterable: Expr, body: Vec<Statement>, location: SourceLocation },
    /// Return statement: `return expr`
    Return { value: Option<Expr>, location: SourceLocation },
    /// `break`
    Break { location: SourceLocation },
    /// `continue`
    Continue { location: SourceLocation },
    /// `import module_name`
    Import { module: String, location: SourceLocation },
    /// `print expr`
    Print { value: Expr, location: SourceLocation },
    /// `try { body } catch (err) { handler }`
    TryCatch { try_body: Vec<Statement>, catch_var: String, catch_body: Vec<Statement>, location: SourceLocation },
    /// `throw expr`
    Throw { value: Expr, location: SourceLocation },
    /// `class Name { methods }`
    ClassDef { name: String, methods: Vec<Statement>, location: SourceLocation },
    /// An expression used as a statement.
    ExprStatement { expr: Expr, location: SourceLocation },
}

/// An expression of the language.
#[derive(Debug)]
pub enum Expr {
    /// Number literal, held as its decimal numeral: digits with at most one
    /// `.` between digits, as written in the source (`42`, `3.14`).
    NumberLiteral { value: String, location: SourceLocation },
    /// String literal: `"hello"`
    StringLiteral { value: String, location: SourceLocation },
    /// Boolean literal: `true`, `false`
    BooleanLiteral { value: bool, location: SourceLocation },
    /// Variable reference: `x`
    Identifier { name: String, location: SourceLocation },
    /// Binary operation: `a + b`
    BinaryOp { left: Box<Expr>, op: BinaryOperator, right: Box<Expr>, location: SourceLocation },
    /// Unary operation: `not x`, `-5`
    UnaryOp { op: UnaryOperator, operand: Box<Expr>, location: SourceLocation },
    /// Function call: `foo(a, b)`
    FunctionCall { callee: Box<Expr>, args: Vec<Expr>, location: SourceLocation },
    /// Index access: `list[0]`
    Index { object: Box<Expr>, index: Box<Expr>, location: SourceLocation },
    /// Member access: `obj.field`
    MemberAccess { object: Box<Expr>, member: String, location: SourceLocation },
    /// List literal: `[1, 2, 3]`
    ListLiteral { elements: Vec<Expr>, location: SourceLocation },
    /// Dictionary literal: `{"key": value}`
    DictLiteral { entries: Vec<(Expr, Expr)>, location: SourceLocation },
    /// `null`
    NullLiteral { location: SourceLocation },
    /// Method call: `obj.method(args)`
    MethodCall { object: Box<Expr>, method: String, args: Vec<Expr>, location: SourceLocation },
    /// Object instantiation: `new ClassName(args)`
    New { class_name: String, args: Vec<Expr>, location: SourceLocation },
    /// String interpolation: `"Hello {$name}!"`, as literal and expression parts.
    StringInterpolation { parts: Vec<StringPart>, location: SourceLocation },
}

/// Part of an interpolated string.
#[derive(Debug)]
pub enum StringPart {
    Literal(String),
    Expression(Expr),
}

/// Binary operators.
#[derive(Debug, Clone, Copy, PartialEq, Eq, Structural)]
pub enum BinaryOperator {
    Add,
    Subtract,
    Multiply,
    Divide,
    Modulo,
    Equal,
    NotEqual,
    LessThan,
    LessEqual,
    GreaterThan,
    GreaterEqual,
    And,
    Or,
}

/// Unary operators.
#[derive(Debug, Clone, Copy, PartialEq, Eq, Structural)]
pub enum UnaryOperator {
    Negate,
    Not,
}

/// Compound assignment operators.
#[derive(Debug, Clone, Copy, PartialEq, Eq, Structural)]
pub enum CompoundOp {
    Add,
    Subtract,
    Multiply,
    Divide,
}

/// The symbol of a binary operator, as written in source.
pub open spec fn binary_operator_text(op: BinaryOperator) -> Seq<char> {
    match op {
        BinaryOperator::Add => "+"@,
        BinaryOperator::Subtract => "-"@,
        BinaryOperator::Multiply => "*"@,
        BinaryOperator::Divide => "/"@,
        BinaryOperator::Modulo => "%"@,
        BinaryOperator::Equal => "=="@,
        BinaryOperator::NotEqual => "!="@,
        BinaryOperator::LessThan => "<"@,
        BinaryOperator::LessEqual => "<="@,
        BinaryOperator::GreaterThan => ">"@,
        BinaryOperator::GreaterEqual => ">="@,
        BinaryOperator::And => "and"@,
        BinaryOperator::Or => "or"@,
    }
}

impl BinaryOperator {
    /// The operator's symbol (`+`, `==`, `and`, ...).
    pub fn to_display_string(&self) -> (res: String)
        ensures
            res@ == binary_operator_text(*self),
    {
        match self {
            BinaryOperator::Add => String::from_str("+"),
            BinaryOperator::Subtract => String::from_str("-"),
            BinaryOperator::Multiply => String::from_str("*"),
            BinaryOperator::Divide => String::from_str("/"),
            BinaryOperator::Modulo => String::from_str("%"),
            BinaryOperator::Equal => String::from_str("=="),
            BinaryOperator::NotEqual => String::from_str("!="),
            BinaryOperator::LessThan => String::from_str("<"),
            BinaryOperator::LessEqual => String::from_str("<="),
            BinaryOperator::GreaterThan => String::from_str(">"),
            BinaryOperator::GreaterEqual => String::from_str(">="),
            BinaryOperator::And => String::from_str("and"),
            BinaryOperator::Or => String::from_str("or"),
        }
    }
}

/// The symbol of a unary operator, as written in source.
pub open spec fn unary_operator_text(op: UnaryOperator) -> Seq<char> {
    match op {
        UnaryOperator::Negate => "-"@,
        UnaryOperator::Not => "not"@,
    }
}

impl UnaryOperator {
    /// The operator's symbol (`-` or `not`).
    pub fn to_display_string(&self) -> (res: String)
        ensures
            res@ == unary_operator_text(*self),
    {
        match self {
            UnaryOperator::Negate => String::from_str("-"),
            UnaryOperator::Not => String::from_str("not"),
        }
    }
}

// ── The model ──

/// The model of an expression.
pub enum SExpr {
    Number { value: Seq<char>, location: SourceLocation },
    Str { value: Seq<char>, location: SourceLocation },
    Bool { value: bool, location: SourceLocation },
    Ident { name: Seq<char>, location: SourceLocation },
    Binary { left: Box<SExpr>, op: BinaryOperator, right: Box<SExpr>, location: SourceLocation },
    Unary { op: UnaryOperator, operand: Box<SExpr>, location: SourceLocation },
    Call { callee: Box<SExpr>, args: Seq<SExpr>, location: SourceLocation },
    Index { object: Box<SExpr>, index: Box<SExpr>, location: SourceLocation },
    Member { object: Box<SExpr>, member: Seq<char>, location: SourceLocation },
    List { elements: Seq<SExpr>, location: SourceLocation },
    Dict { entries: Seq<(SExpr, SExpr)>, location: SourceLocation },
    Null { location: SourceLocation },
    MethodCall { object: Box<SExpr>, method: Seq<char>, args: Seq<SExpr>, location: SourceLocation },
    New { class_name: Seq<char>, args: Seq<SExpr>, location: SourceLocation },
    Interp { parts: Seq<SPart>, location: SourceLocation },
}

/// The model of a part of an interpolated string.
pub enum SPart {
    Literal(Seq<char>),
    Expression(SExpr),
}

/// The model of a statement.
pub enum SStmt {
    Assign { name: Seq<char>, value: SExpr, location: SourceLocation },
    Compound { name: Seq<char>, op: CompoundOp, value: SExpr, location: SourceLocation },
    FunctionDef { name: Seq<char>, params: Seq<Seq<char>>, body: Seq<SStmt>, location: SourceLocation },
    If { condition: SExpr, then_body: Seq<SStmt>, else_body: Option<Seq<SStmt>>, location: SourceLocation },
    While { condition: SExpr, body: Seq<SStmt>, location: SourceLocation },
    For { variable: Seq<char>, iterable: SExpr, body: Seq<SStmt>, location: SourceLocation },
    Return { value: Option<SExpr>, location: SourceLocation },
    Break { location: SourceLocation },
    Continue { location: SourceLocation },
    Import { module: Seq<char>, location: SourceLocation },
    Print { value: SExpr, location: SourceLocation },
    TryCatch { try_body: Seq<SStmt>, catch_var: Seq<char>, catch_body: Seq<SStmt>, location: SourceLocation },
    Throw { value: SExpr, location: SourceLocation },
    ClassDef { name: Seq<char>, methods: Seq<SStmt>, location: SourceLocation },
    ExprStmt { expr: SExpr, location: SourceLocation },
}

/// The model of each expression of a vector.
pub open spec fn exprs_model(v: Vec<Expr>) -> Seq<SExpr>
    decreases v,
{
    Seq::new(v@.len(), |i: int|
        if 0 <= i < v@.len() {
            proof { assert(decreases_to!(v => v[i])); }
            expr_model(v[i])
        } else {
            SExpr::Null { location: SourceLocation { line: 0, column: 0 } }
        })
}

/// The model of an expression.
pub open spec fn expr_model(e: Expr) -> SExpr
    decreases e,
{
    match e {
        Expr::NumberLiteral { value, location } => SExpr::Number { value: value@, location },
        Expr::StringLiteral { value, location } => SExpr::Str { value: value@, location },
        Expr::BooleanLiteral { value, location } => SExpr::Bool { value, location },
        Expr::Identifier { name, location } => SExpr::Ident { name: name@, location },
        Expr::BinaryOp { left, op, right, location } =>
            SExpr::Binary { left: Box::new(expr_model(*left)), op, right: Box::new(expr_model(*right)), location },
        Expr::UnaryOp { op, operand, location } =>
            SExpr::Unary { op, operand: Box::new(expr_model(*operand)), location },
        Expr::FunctionCall { callee, args, location } =>
            SExpr::Call { callee: Box::new(expr_model(*callee)), args: exprs_model(args), location },
        Expr::Index { object, index, location } =>
            SExpr::Index { object: Box::new(expr_model(*object)), index: Box::new(expr_model(*index)), location },
        Expr::MemberAccess { object, member, location } =>
            SExpr::Member { object: Box::new(expr_model(*object)), member: member@, location },
        Expr::ListLiteral { elements, location } => SExpr::List { elements: exprs_model(elements), location },
        Expr::DictLiteral { entries, location } => SExpr::Dict {
            entries: Seq::new(entries@.len(), |i: int|
                if 0 <= i < entries@.len() {
                    proof { assert(decreases_to!(entries => entries[i])); }
                    (expr_model(entries[i].0), expr_model(entries[i].1))
                } else {
                    (SExpr::Null { location }, SExpr::Null { location })
                }),
            location,
        },
        Expr::NullLiteral { location } => SExpr::Null { location },
        Expr::MethodCall { object, method, args, location } =>
            SExpr::MethodCall { object: Box::new(expr_model(*object)), method: method@, args: exprs_model(args), location },
        Expr::New { class_name, args, location } =>
            SExpr::New { class_name: class_name@, args: exprs_model(args), location },
        Expr::StringInterpolation { parts, location } => SExpr::Interp {
            parts: Seq::new(parts@.len(), |i: int|
                if 0 <= i < parts@.len() {
                    proof { assert(decreases_to!(parts => parts[i])); }
                    match parts[i] {
                        StringPart::Literal(s) => SPart::Literal(s@),
                        StringPart::Expression(x) => SPart::Expression(expr_model(x)),
                    }
                } else {
                    SPart::Literal(Seq::empty())
                }),
            location,
        },
    }
}

/// The model of each statement of a vector.
pub open spec fn stmts_model(v: Vec<Statement>) -> Seq<SStmt>
    decreases v,
{
    Seq::new(v@.len(), |i: int|
        if 0 <= i < v@.len() {
            proof { assert(decreases_to!(v => v[i])); }
            stmt_model(v[i])
        } else {
            SStmt::Break { location: SourceLocation { line: 0, column: 0 } }
        })
}

/// The model of each string of a vector.
pub open spec fn strings_model(v: Vec<String>) -> Seq<Seq<char>> {
    Seq::new(v@.len(), |i: int| v@[i]@)
}

/// The model of a part of an interpolated string.
pub open spec fn part_model(p: StringPart) -> SPart {
    match p {
        StringPart::Literal(s) => SPart::Literal(s@),
        StringPart::Expression(x) => SPart::Expression(x@),
    }
}

/// The model of the entries of a dictionary literal.
pub open spec fn entries_model(v: Vec<(Expr, Expr)>) -> Seq<(SExpr, SExpr)> {
    Seq::new(v@.len(), |i: int| (v@[i].0@, v@[i].1@))
}

/// The model of the parts of an interpolated string.
pub open spec fn parts_model(v: Vec<StringPart>) -> Seq<SPart> {
    Seq::new(v@.len(), |i: int| part_model(v@[i]))
}

/// The model of a statement.
pub open spec fn stmt_model(s: Statement) -> SStmt
    decreases s,
{
    match s {
        Statement::Assignment { name, value, location } => SStmt::Assign { name: name@, value: expr_model(value), location },
        Statement::CompoundAssignment { name, op, value, location } =>
            SStmt::Compound { name: name@, op, value: expr_model(value), location },
        Statement::FunctionDef { name, params, body, location } =>
            SStmt::FunctionDef { name: name@, params: strings_model(params), body: stmts_model(body), location },
        Statement::If { condition, then_body, else_body, location } => SStmt::If {
            condition: expr_model(condition),
            then_body: stmts_model(then_body),
            else_body: match else_body { Some(b) => Some(stmts_model(b)), None => None },
            location,
        },
        Statement::While { condition, body, location } =>
            SStmt::While { condition: expr_model(condition), body: stmts_model(body), location },
        Statement::For { variable, iterable, body, location } =>
            SStmt::For { variable: variable@, iterable: expr_model(iterable), body: stmts_model(body), location },
        Statement::Return { value, location } =>
            SStmt::Return { value: match value { Some(v) => Some(expr_model(v)), None => None }, location },
        Statement::Break { location } => SStmt::Break { location },
        Statement::Continue { location } => SStmt::Continue { location },
        Statement::Import { module, location } => SStmt::Import { module: module@, location },
        Statement::Print { value, location } => SStmt::Print { value: expr_model(value), location },
        Statement::TryCatch { try_body, catch_var, catch_body, location } => SStmt::TryCatch {
            try_body: stmts_model(try_body),
            catch_var: catch_var@,
            catch_body: stmts_model(catch_body),
            location,
        },
        Statement::Throw { value, location } => SStmt::Throw { value: expr_model(value), location },
        Statement::ClassDef { name, methods, location } =>
            SStmt::ClassDef { name: name@, methods: stmts_model(methods), location },
        Statement::ExprStatement { expr, location } => SStmt::ExprStmt { expr: expr_model(expr), location },
    }
}

impl View for Expr {
    type V = SExpr;

    open spec fn view(&self) -> SExpr {
        expr_model(*self)
    }
}

impl View for Statement {
    type V = SStmt;

    open spec fn view(&self) -> SStmt {
        stmt_model(*self)
    }
}

impl View for Program {
    type V = Seq<SStmt>;

    open spec fn view(&self) -> Seq<SStmt> {
        stmts_model(self.statements)
    }
}

// ── Copies ──

/// A copy of an expression, node by node.
fn copy_expr(e: &Expr) -> (r: Expr)
    ensures
        r@ == e@,
    decreases e,
{
    match e {
        Expr::NumberLiteral { value, location } => Expr::NumberLiteral { value: value.clone(), location: *location },
        Expr::StringLiteral { value, location } => Expr::StringLiteral { value: value.clone(), location: *location },
        Expr::BooleanLiteral { value, location } => Expr::BooleanLiteral { value: *value, location: *location },
        Expr::Identifier { name, location } => Expr::Identifier { name: name.clone(), location: *location },
        Expr::BinaryOp { left, op, right, location } => Expr::BinaryOp {
            left: Box::new(copy_expr(left)),
            op: *op,
            right: Box::new(copy_expr(right)),
            location: *location,
        },
        Expr::UnaryOp { op, operand, location } =>
            Expr::UnaryOp { op: *op, operand: Box::new(copy_expr(operand)), location: *location },
        Expr::FunctionCall { callee, args, location } =>
            Expr::FunctionCall { callee: Box::new(copy_expr(callee)), args: copy_exprs(args), location: *location },
        Expr::Index { object, index, location } => Expr::Index {
            object: Box::new(copy_expr(object)),
            index: Box::new(copy_expr(index)),
            location: *location,
        },
        Expr::MemberAccess { object, member, location } =>
            Expr::MemberAccess { object: Box::new(copy_expr(object)), member: member.clone(), location: *location },
        Expr::ListLiteral { elements, location } => Expr::ListLiteral { elements: copy_exprs(elements), location: *location },
        Expr::DictLiteral { entries, location } => {
            let copied = copy_entries(entries);
            let r = Expr::DictLiteral { entries: copied, location: *location };
            proof {
                let m = r@;
                assert(m matches SExpr::Dict { entries: es, .. } && es =~= e@->Dict_entries);
            }
            r
        },
        Expr::NullLiteral { location } => Expr::NullLiteral { location: *location },
        Expr::MethodCall { object, method, args, location } => Expr::MethodCall {
            object: Box::new(copy_expr(object)),
            method: method.clone(),
            args: copy_exprs(args),
            location: *location,
        },
        Expr::New { class_name, args, location } =>
            Expr::New { class_name: class_name.clone(), args: copy_exprs(args), location: *location },
        Expr::StringInterpolation { parts, location } => {
            let copied = copy_parts(parts);
            let r = Expr::StringInterpolation { parts: copied, location: *location };
            proof {
                let m = r@;
                assert(m matches SExpr::Interp { parts: ps, .. } && ps =~= e@->Interp_parts);
            }
            r
        },
    }
}

/// A copy of each expression of `v`.
fn copy_exprs(v: &Vec<Expr>) -> (r: Vec<Expr>)
    ensures
        exprs_model(r) == exprs_model(*v),
    decreases v,
{
    let mut r: Vec<Expr> = Vec::new();
    let mut i: usize = 0;
    while i < v.len()
        invariant
            i <= v@.len(),
            r@.len() == i,
            forall|j: int| 0 <= j < i ==> (#[trigger] r@[j])@ == v@[j]@,
        decreases v@.len() - i,
    {
        r.push(copy_expr(&v[i]));
        i = i + 1;
    }
    assert(exprs_model(r) =~= exprs_model(*v));
    r
}

/// A copy of each entry of a dictionary literal.
fn copy_entries(v: &Vec<(Expr, Expr)>) -> (r: Vec<(Expr, Expr)>)
    ensures
        r@.len() == v@.len(),
        forall|j: int| 0 <= j < v@.len() ==> (#[trigger] r@[j]).0@ == v@[j].0@ && r@[j].1@ == v@[j].1@,
    decreases v,
{
    let mut r: Vec<(Expr, Expr)> = Vec::new();
    let mut i: usize = 0;
    while i < v.len()
        invariant
            i <= v@.len(),
            r@.len() == i,
            forall|j: int| 0 <= j < i ==> (#[trigger] r@[j]).0@ == v@[j].0@ && r@[j].1@ == v@[j].1@,
        decreases v@.len() - i,
    {
        proof { assert(decreases_to!(v => v@[i as int].0)); }
        let k = copy_expr(&v[i].0);
        proof { assert(decreases_to!(v => v@[i as int].1)); }
        let x = copy_expr(&v[i].1);
        r.push((k, x));
        i = i + 1;
    }
    r
}

/// A copy of each part of an interpolated string.
fn copy_parts(v: &Vec<StringPart>) -> (r: Vec<StringPart>)
    ensures
        r@.len() == v@.len(),
        forall|j: int| 0 <= j < v@.len() ==> part_model(#[trigger] r@[j]) == part_model(v@[j]),
    decreases v,
{
    let mut r: Vec<StringPart> = Vec::new();
    let mut i: usize = 0;
    while i < v.len()
        invariant
            i <= v@.len(),
            r@.len() == i,
            forall|j: int| 0 <= j < i ==> part_model(#[trigger] r@[j]) == part_model(v@[j]),
        decreases v@.len() - i,
    {
        let p = match &v[i] {
            StringPart::Literal(s) => StringPart::Literal(s.clone()),
            StringPart::Expression(x) => {
                proof { assert(decreases_to!(v => v@[i as int])); }
                StringPart::Expression(copy_expr(x))
            },
        };
        r.push(p);
        i = i + 1;
    }
    r
}

/// A copy of each string of `v`.
fn copy_names(v: &Vec<String>) -> (r: Vec<String>)
    ensures
        strings_model(r) == strings_model(*v),
{
    let mut r: Vec<String> = Vec::new();
    let mut i: usize = 0;
    while i < v.len()
        invariant
            i <= v@.len(),
            r@.len() == i,
            forall|j: int| 0 <= j < i ==> (#[trigger] r@[j])@ == v@[j]@,
        decreases v@.len() - i,
    {
        r.push(v[i].clone());
        i = i + 1;
    }
    assert(strings_model(r) =~= strings_model(*v));
    r
}

/// A copy of a statement, node by node.
fn copy_stmt(s: &Statement) -> (r: Statement)
    ensures
        r@ == s@,
    decreases s,
{
    match s {
        Statement::Assignment { name, value, location } =>
            Statement::Assignment { name: name.clone(), value: copy_expr(value), location: *location },
        Statement::CompoundAssignment { name, op, value, location } =>
            Statement::CompoundAssignment { name: name.clone(), op: *op, value: copy_expr(value), location: *location },
        Statement::FunctionDef { name, params, body, location } => Statement::FunctionDef {
            name: name.clone(),
            params: copy_names(params),
            body: copy_stmts(body),
            location: *location,
        },
        Statement::If { condition, then_body, else_body, location } => {
            let else_copy = match else_body {
                Some(b) => Some(copy_stmts(b)),
                None => None,
            };
            Statement::If { condition: copy_expr(condition), then_body: copy_stmts(then_body), else_body: else_copy, location: *location }
        },
        Statement::While { condition, body, location } =>
            Statement::While { condition: copy_expr(condition), body: copy_stmts(body), location: *location },
        Statement::For { variable, iterable, body, location } => Statement::For {
            variable: variable.clone(),
            iterable: copy_expr(iterable),
            body: copy_stmts(body),
            location: *location,
        },
        Statement::Return { value, location } => {
            let value_copy = match value {
                Some(v) => Some(copy_expr(v)),
                None => None,
            };
            Statement::Return { value: value_copy, location: *location }
        },
        Statement::Break { location } => Statement::Break { location: *location },
        Statement::Continue { location } => Statement::Continue { location: *location },
        Statement::Import { module, location } => Statement::Import { module: module.clone(), location: *location },
        Statement::Print { value, location } => Statement::Print { value: copy_expr(value), location: *location },
        Statement::TryCatch { try_body, catch_var, catch_body, location } => Statement::TryCatch {
            try_body: copy_stmts(try_body),
            catch_var: catch_var.clone(),
            catch_body: copy_stmts(catch_body),
            location: *location,
        },
        Statement::Throw { value, location } => Statement::Throw { value: copy_expr(value), location: *location },
        Statement::ClassDef { name, methods, location } =>
            Statement::ClassDef { name: name.clone(), methods: copy_stmts(methods), location: *location },
        Statement::ExprStatement { expr, location } => Statement::ExprStatement { expr: copy_expr(expr), location: *location },
    }
}

/// A copy of each statement of `v`.
fn copy_stmts(v: &Vec<Statement>) -> (r: Vec<Statement>)
    ensures
        stmts_model(r) == stmts_model(*v),
    decreases v,
{
    let mut r: Vec<Statement> = Vec::new();
    let mut i: usize = 0;
    while i < v.len()
        invariant
            i <= v@.len(),
            r@.len() == i,
            forall|j: int| 0 <= j < i ==> (#[trigger] r@[j])@ == v@[j]@,
        decreases v@.len() - i,
    {
        r.push(copy_stmt(&v[i]));
        i = i + 1;
    }
    assert(stmts_model(r) =~= stmts_model(*v));
    r
}

impl Clone for Expr {
    fn clone(&self) -> (r: Self)
        ensures
            r@ == self@,
    {
        copy_expr(self)
    }
}

impl Clone for StringPart {
    fn clone(&self) -> (r: Self)
        ensures
            part_model(r) == part_model(*self),
    {
        match self {
            StringPart::Literal(s) => StringPart::Literal(s.clone()),
            StringPart::Expression(x) => StringPart::Expression(copy_expr(x)),
        }
    }
}

impl Clone for Statement {
    fn clone(&self) -> (r: Self)
        ensures
            r@ == self@,
    {
        copy_stmt(self)
    }
}

impl Clone for Program {
    fn clone(&self) -> (r: Self)
        ensures
            r@ == self@,
    {
        Program { statements: copy_stmts(&self.statements) }
    }
}

} // verus!
