//! The KelpyShark semantic analyzer.
//!
//! Walks a program and collects diagnostics: undefined variables, calls of
//! known functions with the wrong number of arguments, functions defined
//! twice and `return` outside a function are errors; variables of the
//! global scope that are never read are warnings.
//!
//! The analyzer's state has a model, `AnalyzerView`.  The spec functions
//! below define the model after each step of the walk as a function of the
//! model before it and of the node's model; the executable walk is proved
//! to follow them.  A scope is a sequence of (name, read) pairs in the order
//! in which the names were first defined; no name occurs twice in a scope.
use vstd::prelude::*;
use crate::ast::{Expr, Program, SExpr, SPart, SStmt, Statement, StringPart, entries_model, exprs_model, parts_model, stmts_model, strings_model};
use crate::error::{ErrorView, KelpyError, KelpyResult, SourceLocation, location_text};
use crate::text::{decimal, push_decimal, text_is};

verus! {

/// Severity of a diagnostic.
#[derive(Debug, Clone, Copy, PartialEq, Eq, Structural)]
pub enum Severity {
    Error,
    Warning,
}

/// A diagnostic message from semantic analysis.
#[derive(Debug, Clone)]
pub struct Diagnostic {
    pub severity: Severity,
    pub message: String,
    pub location: Option<SourceLocation>,
}

/// The model of a diagnostic.
pub struct DiagnosticView {
    pub severity: Severity,
    pub message: Seq<char>,
    pub location: Option<SourceLocation>,
}

impl View for Diagnostic {
    type V = DiagnosticView;

    open spec fn view(&self) -> DiagnosticView {
        DiagnosticView { severity: self.severity, message: self.message@, location: self.location }
    }
}

/// The one-line rendering of a diagnostic.
pub open spec fn diagnostic_text(d: DiagnosticView) -> Seq<char> {
    let prefix = match d.severity {
        Severity::Error => "Error"@,
        Severity::Warning => "Warning"@,
    };
    match d.location {
        Some(loc) => "[Semantic "@ + prefix + " at "@ + location_text(loc) + "] "@ + d.message,
        None => "[Semantic "@ + prefix + "] "@ + d.message,
    }
}

impl Diagnostic {
    /// Renders the diagnostic as one line, e.g.
    /// `[Semantic Error at line 1, column 7] Undefined variable 'y'`.
    pub fn to_display_string(&self) -> (res: String)
        ensures
            res@ == diagnostic_text(self@),
    {
        let prefix = match self.severity {
            Severity::Error => "Error",
            Severity::Warning => "Warning",
        };
        let mut s = String::from_str("[Semantic ");
        s.append(prefix);
        match &self.location {
            Some(loc) => {
                s.append(" at ");
                let l = loc.to_display_string();
                s.append(l.as_str());
                s.append("] ");
            },
            None => {
                s.append("] ");
            },
        }
        s.append(self.message.as_str());
        s
    }
}

/// What the analyzer knows of a declared function.
#[derive(Debug, Clone)]
struct FunctionInfo {
    arity: usize,
    location: SourceLocation,
}

/// The model of a declared function.
pub struct FunctionView {
    pub name: Seq<char>,
    pub arity: nat,
    pub location: SourceLocation,
}

/// The model of the analyzer's state.
pub struct AnalyzerView {
    /// The scopes, outermost first; each lists (name, read) pairs.
    pub scopes: Seq<Seq<(Seq<char>, bool)>>,
    /// The declared functions, in the order of their declaration.
    pub functions: Seq<FunctionView>,
    /// Whether the walk is inside a function body.
    pub in_function: bool,
    /// The diagnostics collected so far.
    pub diagnostics: Seq<DiagnosticView>,
}

// ──────────────────────────────────────────────
//  Scopes and functions
// ──────────────────────────────────────────────

/// The model of a scope.
pub open spec fn scope_model(v: Vec<(String, bool)>) -> Seq<(Seq<char>, bool)> {
    Seq::new(v@.len(), |i: int| (v@[i].0@, v@[i].1))
}

/// The model of a stack of scopes.
pub open spec fn scopes_model(v: Vec<Vec<(String, bool)>>) -> Seq<Seq<(Seq<char>, bool)>> {
    Seq::new(v@.len(), |k: int| scope_model(v@[k]))
}

/// The first index at or after `i` at which `scope` holds `name`.
pub open spec fn find_name(scope: Seq<(Seq<char>, bool)>, name: Seq<char>, i: nat) -> Option<nat>
    decreases scope.len() - i,
{
    if i >= scope.len() {
        None
    } else if scope[i as int].0 == name {
        Some(i)
    } else {
        find_name(scope, name, i + 1)
    }
}

/// The first index at or after `i` at which `functions` declares `name`.
pub open spec fn find_function(functions: Seq<FunctionView>, name: Seq<char>, i: nat) -> Option<nat>
    decreases functions.len() - i,
{
    if i >= functions.len() {
        None
    } else if functions[i as int].name == name {
        Some(i)
    } else {
        find_function(functions, name, i + 1)
    }
}

/// No name occurs twice in `scope`.
pub open spec fn names_unique(scope: Seq<(Seq<char>, bool)>) -> bool {
    forall|i: int, j: int| 0 <= i < j < scope.len() ==> scope[i].0 != scope[j].0
}

/// The names that are always defined.
pub open spec fn builtin_names() -> Seq<Seq<char>> {
    seq!["len"@, "type"@, "str"@, "num"@, "push"@, "print"@]
}

/// Whether `name` is a built-in.
pub open spec fn is_builtin(name: Seq<char>) -> bool {
    builtin_names().contains(name)
}

/// `name` defined, not yet read, in the innermost scope: a name already
/// there is reset to not read, a new one is added at the end.
pub open spec fn define_spec(a: AnalyzerView, name: Seq<char>) -> AnalyzerView {
    if a.scopes.len() == 0 {
        a
    } else {
        let k = a.scopes.len() - 1;
        let scope = a.scopes[k];
        let scope2 = match find_name(scope, name, 0) {
            Some(i) => scope.update(i as int, (name, false)),
            None => scope.push((name, false)),
        };
        AnalyzerView { scopes: a.scopes.update(k, scope2), ..a }
    }
}

/// The scopes with `name` marked read in the innermost of the first `k`
/// scopes that holds it.
pub open spec fn mark_from(scopes: Seq<Seq<(Seq<char>, bool)>>, name: Seq<char>, k: nat) -> Seq<Seq<(Seq<char>, bool)>>
    decreases k,
{
    if k == 0 {
        scopes
    } else {
        let s = scopes[k - 1];
        match find_name(s, name, 0) {
            Some(i) => scopes.update(k - 1, s.update(i as int, (name, true))),
            None => mark_from(scopes, name, (k - 1) as nat),
        }
    }
}

/// `name` marked read in the innermost scope that holds it.
pub open spec fn mark_used_spec(a: AnalyzerView, name: Seq<char>) -> AnalyzerView {
    AnalyzerView { scopes: mark_from(a.scopes, name, a.scopes.len()), ..a }
}

/// Whether `name` is a built-in or held by some scope.
pub open spec fn is_defined_spec(a: AnalyzerView, name: Seq<char>) -> bool {
    is_builtin(name) || exists|k: int| 0 <= k < a.scopes.len() && (#[trigger] find_name(a.scopes[k], name, 0)) is Some
}

/// A new, empty innermost scope.
pub open spec fn push_scope_spec(a: AnalyzerView) -> AnalyzerView {
    AnalyzerView { scopes: a.scopes.push(Seq::empty()), ..a }
}

/// The innermost scope dropped.
pub open spec fn pop_scope_spec(a: AnalyzerView) -> AnalyzerView {
    if a.scopes.len() == 0 { a } else { AnalyzerView { scopes: a.scopes.drop_last(), ..a } }
}

pub proof fn lemma_find_name(scope: Seq<(Seq<char>, bool)>, name: Seq<char>, i: nat)
    ensures
        find_name(scope, name, i) matches Some(k) ==> i <= k < scope.len() && scope[k as int].0 == name,
        find_name(scope, name, i) is None ==> forall|j: int| i <= j < scope.len() ==> scope[j].0 != name,
    decreases scope.len() - i,
{
    if i < scope.len() && scope[i as int].0 != name {
        lemma_find_name(scope, name, i + 1);
    }
}

pub proof fn lemma_find_function(functions: Seq<FunctionView>, name: Seq<char>, i: nat)
    ensures
        find_function(functions, name, i) matches Some(k) ==> i <= k < functions.len() && functions[k as int].name == name,
        find_function(functions, name, i) is None ==> forall|j: int| i <= j < functions.len() ==> functions[j].name != name,
    decreases functions.len() - i,
{
    if i < functions.len() && functions[i as int].name != name {
        lemma_find_function(functions, name, i + 1);
    }
}

// ──────────────────────────────────────────────
//  The analysis
// ──────────────────────────────────────────────

/// A diagnostic added.
pub open spec fn diagnose(a: AnalyzerView, severity: Severity, message: Seq<char>, location: Option<SourceLocation>) -> AnalyzerView {
    AnalyzerView { diagnostics: a.diagnostics.push(DiagnosticView { severity, message, location }), ..a }
}

/// A function declared.
pub open spec fn declare_spec(a: AnalyzerView, name: Seq<char>, arity: nat, location: SourceLocation) -> AnalyzerView {
    AnalyzerView { functions: a.functions.push(FunctionView { name, arity, location }), ..a }
}

pub open spec fn undefined_message(name: Seq<char>) -> Seq<char> {
    "Undefined variable '"@ + name + "'"@
}

pub open spec fn arity_message(name: Seq<char>, expected: nat, given: nat) -> Seq<char> {
    "Function '"@ + name + "' expects "@ + decimal(expected) + " argument(s), but "@ + decimal(given) + " were given"@
}

pub open spec fn duplicate_message(name: Seq<char>) -> Seq<char> {
    "Function '"@ + name + "' is already defined"@
}

pub open spec fn unused_message(name: Seq<char>) -> Seq<char> {
    "Variable '"@ + name + "' is defined but never used"@
}

pub open spec fn return_message() -> Seq<char> {
    "'return' used outside of a function"@
}

/// A call of `callee` with `given` arguments: an error when the callee
/// names a declared function of another arity.
pub open spec fn arity_check(a: AnalyzerView, callee: SExpr, given: nat, location: SourceLocation) -> AnalyzerView {
    match callee {
        SExpr::Ident { name, .. } => match find_function(a.functions, name, 0) {
            Some(i) => if given != a.functions[i as int].arity {
                diagnose(a, Severity::Error, arity_message(name, a.functions[i as int].arity, given), Some(location))
            } else {
                a
            },
            None => a,
        },
        _ => a,
    }
}

/// The analysis of an expression: each identifier must be defined (and is
/// then marked read), each call of a declared function must pass as many
/// arguments as it has parameters; subexpressions are analyzed left to right.
pub open spec fn expr_effect(a: AnalyzerView, e: SExpr) -> AnalyzerView
    decreases e, 0nat,
{
    match e {
        SExpr::Ident { name, location } => if is_defined_spec(a, name) {
            mark_used_spec(a, name)
        } else {
            diagnose(a, Severity::Error, undefined_message(name), Some(location))
        },
        SExpr::Binary { left, right, .. } => expr_effect(expr_effect(a, *left), *right),
        SExpr::Unary { operand, .. } => expr_effect(a, *operand),
        SExpr::Call { callee, args, location } => {
            let a1 = expr_effect(a, *callee);
            exprs_effect(arity_check(a1, *callee, args.len(), location), args, 0)
        },
        SExpr::Index { object, index, .. } => expr_effect(expr_effect(a, *object), *index),
        SExpr::Member { object, .. } => expr_effect(a, *object),
        SExpr::List { elements, .. } => exprs_effect(a, elements, 0),
        SExpr::Dict { entries, .. } => entries_effect(a, entries, 0),
        SExpr::Interp { parts, .. } => parts_effect(a, parts, 0),
        SExpr::MethodCall { object, args, .. } => exprs_effect(expr_effect(a, *object), args, 0),
        SExpr::New { args, .. } => exprs_effect(a, args, 0),
        _ => a,
    }
}

/// The analysis of the expressions of `es` from index `i` on.
pub open spec fn exprs_effect(a: AnalyzerView, es: Seq<SExpr>, i: nat) -> AnalyzerView
    decreases es, es.len() - i,
{
    if i < es.len() {
        exprs_effect(expr_effect(a, es[i as int]), es, i + 1)
    } else {
        a
    }
}

/// The analysis of the entries of a dictionary from index `i` on: each
/// key, then its value.
pub open spec fn entries_effect(a: AnalyzerView, es: Seq<(SExpr, SExpr)>, i: nat) -> AnalyzerView
    decreases es, es.len() - i,
{
    if i < es.len() {
        proof { assert(decreases_to!(es => es[i as int])); }
        let (k, v) = es[i as int];
        entries_effect(expr_effect(expr_effect(a, k), v), es, i + 1)
    } else {
        a
    }
}

/// The analysis of the expression parts of an interpolated string from
/// index `i` on.
pub open spec fn parts_effect(a: AnalyzerView, ps: Seq<SPart>, i: nat) -> AnalyzerView
    decreases ps, ps.len() - i,
{
    if i < ps.len() {
        proof { assert(decreases_to!(ps => ps[i as int])); }
        match ps[i as int] {
            SPart::Expression(x) => parts_effect(expr_effect(a, x), ps, i + 1),
            SPart::Literal(_) => parts_effect(a, ps, i + 1),
        }
    } else {
        a
    }
}

/// The parameters of `ps` from index `i` on defined, and marked read, in
/// the innermost scope.
pub open spec fn params_effect(a: AnalyzerView, ps: Seq<Seq<char>>, i: nat) -> AnalyzerView
    decreases ps.len() - i,
{
    if i < ps.len() {
        params_effect(mark_used_spec(define_spec(a, ps[i as int]), ps[i as int]), ps, i + 1)
    } else {
        a
    }
}

/// The analysis of a statement.  Bodies are analyzed in a scope of their
/// own; a function body also with the in-function flag set.  A function
/// not declared yet (one nested in another statement) is declared and its
/// name defined first.
pub open spec fn stmt_effect(a: AnalyzerView, s: SStmt) -> AnalyzerView
    decreases s, 0nat,
{
    match s {
        SStmt::Assign { name, value, .. } => define_spec(expr_effect(a, value), name),
        SStmt::FunctionDef { name, params, body, location } => {
            let a1 = if find_function(a.functions, name, 0) is None {
                define_spec(declare_spec(a, name, params.len(), location), name)
            } else {
                a
            };
            let a2 = AnalyzerView { in_function: true, ..push_scope_spec(a1) };
            let a3 = stmts_effect(params_effect(a2, params, 0), body, 0);
            AnalyzerView { in_function: a1.in_function, ..pop_scope_spec(a3) }
        },
        SStmt::If { condition, then_body, else_body, .. } => {
            let a1 = pop_scope_spec(stmts_effect(push_scope_spec(expr_effect(a, condition)), then_body, 0));
            match else_body {
                Some(b) => {
                    proof { assert(decreases_to!(s => b)); }
                    pop_scope_spec(stmts_effect(push_scope_spec(a1), b, 0))
                },
                None => a1,
            }
        },
        SStmt::While { condition, body, .. } => pop_scope_spec(stmts_effect(push_scope_spec(expr_effect(a, condition)), body, 0)),
        SStmt::For { variable, iterable, body, .. } => {
            let a1 = define_spec(push_scope_spec(expr_effect(a, iterable)), variable);
            pop_scope_spec(stmts_effect(mark_used_spec(a1, variable), body, 0))
        },
        SStmt::Return { value, location } => {
            let a1 = if a.in_function { a } else { diagnose(a, Severity::Error, return_message(), Some(location)) };
            match value {
                Some(v) => expr_effect(a1, v),
                None => a1,
            }
        },
        SStmt::Print { value, .. } => expr_effect(a, value),
        SStmt::ExprStmt { expr, .. } => expr_effect(a, expr),
        SStmt::Compound { value, .. } => expr_effect(a, value),
        SStmt::Throw { value, .. } => expr_effect(a, value),
        SStmt::TryCatch { try_body, catch_body, .. } => stmts_effect(stmts_effect(a, try_body, 0), catch_body, 0),
        SStmt::ClassDef { methods, .. } => stmts_effect(a, methods, 0),
        _ => a,
    }
}

/// The analysis of the statements of `ss` from index `i` on.
pub open spec fn stmts_effect(a: AnalyzerView, ss: Seq<SStmt>, i: nat) -> AnalyzerView
    decreases ss, ss.len() - i,
{
    if i < ss.len() {
        stmts_effect(stmt_effect(a, ss[i as int]), ss, i + 1)
    } else {
        a
    }
}

/// The first pass over the top-level statements, from index `i` on: each
/// function definition is declared and its name defined, or reported when
/// a function of that name is already declared.
pub open spec fn declare_pass(a: AnalyzerView, ss: Seq<SStmt>, i: nat) -> AnalyzerView
    decreases ss.len() - i,
{
    if i < ss.len() {
        let a1 = match ss[i as int] {
            SStmt::FunctionDef { name, params, location, .. } => if find_function(a.functions, name, 0) is Some {
                diagnose(a, Severity::Error, duplicate_message(name), Some(location))
            } else {
                define_spec(declare_spec(a, name, params.len(), location), name)
            },
            _ => a,
        };
        declare_pass(a1, ss, i + 1)
    } else {
        a
    }
}

/// A warning for each name of `scope`, from index `i` on, that was never
/// read and does not name a function.
pub open spec fn unused_pass(a: AnalyzerView, scope: Seq<(Seq<char>, bool)>, i: nat) -> AnalyzerView
    decreases scope.len() - i,
{
    if i < scope.len() {
        let (name, used) = scope[i as int];
        let a1 = if !used && find_function(a.functions, name, 0) is None {
            diagnose(a, Severity::Warning, unused_message(name), None)
        } else {
            a
        };
        unused_pass(a1, scope, i + 1)
    } else {
        a
    }
}

/// The analysis of a program: the first pass, the analysis of each
/// statement, then the warnings for the global scope.
pub open spec fn analysis(a: AnalyzerView, program: Seq<SStmt>) -> AnalyzerView {
    let a2 = stmts_effect(declare_pass(a, program, 0), program, 0);
    if a2.scopes.len() > 0 { unused_pass(a2, a2.scopes.last(), 0) } else { a2 }
}

/// The state of a fresh analyzer: one empty global scope, no function, no
/// diagnostic.
pub open spec fn initial_view() -> AnalyzerView {
    AnalyzerView { scopes: seq![Seq::empty()], functions: Seq::empty(), in_function: false, diagnostics: Seq::empty() }
}

/// The diagnostics that a fresh analyzer collects from `program`.
pub open spec fn program_diagnostics(program: Seq<SStmt>) -> Seq<DiagnosticView> {
    analysis(initial_view(), program).diagnostics
}

/// The first error among the diagnostics of `ds` from index `i` on.
pub open spec fn first_error(ds: Seq<DiagnosticView>, i: nat) -> Option<DiagnosticView>
    decreases ds.len() - i,
{
    if i < ds.len() {
        if ds[i as int].severity == Severity::Error { Some(ds[i as int]) } else { first_error(ds, i + 1) }
    } else {
        None
    }
}

/// The model of a vector of diagnostics.
pub open spec fn diagnostics_view(v: Vec<Diagnostic>) -> Seq<DiagnosticView> {
    Seq::new(v@.len(), |i: int| v@[i]@)
}

// ──────────────────────────────────────────────
//  Laws
// ──────────────────────────────────────────────

/// `b` keeps what `a` had: as many scopes, the same in-function flag, the
/// functions and the diagnostics of `a` first; and each diagnostic added is
/// an error with a location.
pub open spec fn keeps(a: AnalyzerView, b: AnalyzerView) -> bool {
    &&& b.scopes.len() == a.scopes.len()
    &&& b.in_function == a.in_function
    &&& a.functions.len() <= b.functions.len()
    &&& b.functions.subrange(0, a.functions.len() as int) == a.functions
    &&& a.diagnostics.len() <= b.diagnostics.len()
    &&& b.diagnostics.subrange(0, a.diagnostics.len() as int) == a.diagnostics
    &&& forall|i: int| a.diagnostics.len() <= i < b.diagnostics.len()
        ==> (#[trigger] b.diagnostics[i]).severity == Severity::Error && b.diagnostics[i].location is Some
}

proof fn lemma_keeps_refl(a: AnalyzerView)
    ensures
        keeps(a, a),
{
    assert(a.functions.subrange(0, a.functions.len() as int) =~= a.functions);
    assert(a.diagnostics.subrange(0, a.diagnostics.len() as int) =~= a.diagnostics);
}

proof fn lemma_keeps_trans(a: AnalyzerView, b: AnalyzerView, c: AnalyzerView)
    requires
        keeps(a, b),
        keeps(b, c),
    ensures
        keeps(a, c),
{
    assert(c.functions.subrange(0, a.functions.len() as int) =~= c.functions.subrange(0, b.functions.len() as int).subrange(0, a.functions.len() as int));
    assert(c.diagnostics.subrange(0, a.diagnostics.len() as int) =~= c.diagnostics.subrange(0, b.diagnostics.len() as int).subrange(0, a.diagnostics.len() as int));
    assert forall|i: int| a.diagnostics.len() <= i < c.diagnostics.len()
        implies (#[trigger] c.diagnostics[i]).severity == Severity::Error && c.diagnostics[i].location is Some by {
        if i < b.diagnostics.len() {
            assert(c.diagnostics[i] == c.diagnostics.subrange(0, b.diagnostics.len() as int)[i]);
        }
    }
}

proof fn lemma_mark_from_len(scopes: Seq<Seq<(Seq<char>, bool)>>, name: Seq<char>, k: nat)
    requires
        k <= scopes.len(),
    ensures
        mark_from(scopes, name, k).len() == scopes.len(),
    decreases k,
{
    if k > 0 {
        lemma_mark_from_len(scopes, name, (k - 1) as nat);
    }
}

proof fn lemma_define_keeps(a: AnalyzerView, name: Seq<char>)
    ensures
        keeps(a, define_spec(a, name)),
        keeps(a, mark_used_spec(a, name)),
        define_spec(a, name).functions == a.functions,
        mark_used_spec(a, name).functions == a.functions,
{
    lemma_keeps_refl(a);
    lemma_mark_from_len(a.scopes, name, a.scopes.len());
}

proof fn lemma_error_keeps(a: AnalyzerView, message: Seq<char>, location: SourceLocation)
    ensures
        keeps(a, diagnose(a, Severity::Error, message, Some(location))),
{
    let b = diagnose(a, Severity::Error, message, Some(location));
    lemma_keeps_refl(a);
    assert(b.diagnostics.subrange(0, a.diagnostics.len() as int) =~= a.diagnostics);
}

/// Analyzing an expression keeps the state's frame and its functions.
pub proof fn lemma_expr_keeps(a: AnalyzerView, e: SExpr)
    ensures
        keeps(a, expr_effect(a, e)),
        expr_effect(a, e).functions == a.functions,
    decreases e, 0nat,
{
    lemma_keeps_refl(a);
    match e {
        SExpr::Ident { name, location } => {
            lemma_define_keeps(a, name);
            lemma_error_keeps(a, undefined_message(name), location);
        },
        SExpr::Binary { left, right, .. } => {
            lemma_expr_keeps(a, *left);
            lemma_expr_keeps(expr_effect(a, *left), *right);
            lemma_keeps_trans(a, expr_effect(a, *left), expr_effect(expr_effect(a, *left), *right));
        },
        SExpr::Unary { operand, .. } => {
            lemma_expr_keeps(a, *operand);
        },
        SExpr::Call { callee, args, location } => {
            let a1 = expr_effect(a, *callee);
            lemma_expr_keeps(a, *callee);
            let a2 = arity_check(a1, *callee, args.len(), location);
            lemma_keeps_refl(a1);
            match *callee {
                SExpr::Ident { name, .. } => match find_function(a1.functions, name, 0) {
                    Some(i) => {
                        lemma_error_keeps(a1, arity_message(name, a1.functions[i as int].arity, args.len()), location);
                    },
                    None => {},
                },
                _ => {},
            }
            lemma_keeps_trans(a, a1, a2);
            lemma_exprs_keeps(a2, args, 0);
            lemma_keeps_trans(a, a2, exprs_effect(a2, args, 0));
        },
        SExpr::Index { object, index, .. } => {
            lemma_expr_keeps(a, *object);
            lemma_expr_keeps(expr_effect(a, *object), *index);
            lemma_keeps_trans(a, expr_effect(a, *object), expr_effect(expr_effect(a, *object), *index));
        },
        SExpr::Member { object, .. } => {
            lemma_expr_keeps(a, *object);
        },
        SExpr::List { elements, .. } => {
            lemma_exprs_keeps(a, elements, 0);
        },
        SExpr::Dict { entries, .. } => {
            lemma_entries_keeps(a, entries, 0);
        },
        SExpr::Interp { parts, .. } => {
            lemma_parts_keeps(a, parts, 0);
        },
        SExpr::MethodCall { object, args, .. } => {
            lemma_expr_keeps(a, *object);
            lemma_exprs_keeps(expr_effect(a, *object), args, 0);
            lemma_keeps_trans(a, expr_effect(a, *object), exprs_effect(expr_effect(a, *object), args, 0));
        },
        SExpr::New { args, .. } => {
            lemma_exprs_keeps(a, args, 0);
        },
        _ => {},
    }
}

pub proof fn lemma_exprs_keeps(a: AnalyzerView, es: Seq<SExpr>, i: nat)
    ensures
        keeps(a, exprs_effect(a, es, i)),
        exprs_effect(a, es, i).functions == a.functions,
    decreases es, es.len() - i,
{
    if i < es.len() {
        let a1 = expr_effect(a, es[i as int]);
        lemma_expr_keeps(a, es[i as int]);
        lemma_exprs_keeps(a1, es, i + 1);
        lemma_keeps_trans(a, a1, exprs_effect(a1, es, i + 1));
    } else {
        lemma_keeps_refl(a);
    }
}

pub proof fn lemma_entries_keeps(a: AnalyzerView, es: Seq<(SExpr, SExpr)>, i: nat)
    ensures
        keeps(a, entries_effect(a, es, i)),
        entries_effect(a, es, i).functions == a.functions,
    decreases es, es.len() - i,
{
    if i < es.len() {
        assert(decreases_to!(es => es[i as int]));
        let (k, v) = es[i as int];
        let a1 = expr_effect(a, k);
        let a2 = expr_effect(a1, v);
        lemma_expr_keeps(a, k);
        lemma_expr_keeps(a1, v);
        lemma_keeps_trans(a, a1, a2);
        lemma_entries_keeps(a2, es, i + 1);
        lemma_keeps_trans(a, a2, entries_effect(a2, es, i + 1));
    } else {
        lemma_keeps_refl(a);
    }
}

pub proof fn lemma_parts_keeps(a: AnalyzerView, ps: Seq<SPart>, i: nat)
    ensures
        keeps(a, parts_effect(a, ps, i)),
        parts_effect(a, ps, i).functions == a.functions,
    decreases ps, ps.len() - i,
{
    if i < ps.len() {
        assert(decreases_to!(ps => ps[i as int]));
        match ps[i as int] {
            SPart::Expression(x) => {
                lemma_expr_keeps(a, x);
                lemma_parts_keeps(expr_effect(a, x), ps, i + 1);
                lemma_keeps_trans(a, expr_effect(a, x), parts_effect(expr_effect(a, x), ps, i + 1));
            },
            SPart::Literal(_) => {
                lemma_parts_keeps(a, ps, i + 1);
            },
        }
    } else {
        lemma_keeps_refl(a);
    }
}

proof fn lemma_params_keeps(a: AnalyzerView, ps: Seq<Seq<char>>, i: nat)
    ensures
        keeps(a, params_effect(a, ps, i)),
        params_effect(a, ps, i).functions == a.functions,
    decreases ps.len() - i,
{
    if i < ps.len() {
        let a1 = define_spec(a, ps[i as int]);
        let a2 = mark_used_spec(a1, ps[i as int]);
        lemma_define_keeps(a, ps[i as int]);
        lemma_define_keeps(a1, ps[i as int]);
        lemma_keeps_trans(a, a1, a2);
        lemma_params_keeps(a2, ps, i + 1);
        lemma_keeps_trans(a, a2, params_effect(a2, ps, i + 1));
    } else {
        lemma_keeps_refl(a);
    }
}

/// A body analyzed in a scope of its own: `b` is `a` with a new innermost
/// scope (and any in-function flag), `c` keeps `b`; dropping the scope
/// again, with `a`'s flag, keeps `a`.
proof fn lemma_scoped_keeps(a: AnalyzerView, b: AnalyzerView, c: AnalyzerView)
    requires
        b.scopes.len() == a.scopes.len() + 1,
        b.functions == a.functions,
        b.diagnostics == a.diagnostics,
        keeps(b, c),
    ensures
        keeps(a, AnalyzerView { in_function: a.in_function, ..pop_scope_spec(c) }),
{
}

/// Analyzing a statement leaves as many scopes as there were and the
/// in-function flag as it was, keeps the functions declared and the
/// diagnostics collected before it, and adds only errors, each with a
/// location.
pub proof fn lemma_stmt_keeps(a: AnalyzerView, s: SStmt)
    ensures
        keeps(a, stmt_effect(a, s)),
    decreases s, 0nat,
{
    lemma_keeps_refl(a);
    match s {
        SStmt::Assign { name, value, .. } => {
            lemma_expr_keeps(a, value);
            lemma_define_keeps(expr_effect(a, value), name);
            lemma_keeps_trans(a, expr_effect(a, value), define_spec(expr_effect(a, value), name));
        },
        SStmt::FunctionDef { name, params, body, location } => {
            let a1 = if find_function(a.functions, name, 0) is None {
                define_spec(declare_spec(a, name, params.len(), location), name)
            } else {
                a
            };
            if find_function(a.functions, name, 0) is None {
                let d = declare_spec(a, name, params.len(), location);
                assert(d.functions.subrange(0, a.functions.len() as int) =~= a.functions);
                assert(d.diagnostics.subrange(0, a.diagnostics.len() as int) =~= a.diagnostics);
                assert(keeps(a, d));
                lemma_define_keeps(d, name);
                lemma_keeps_trans(a, d, a1);
            }
            let a2 = AnalyzerView { in_function: true, ..push_scope_spec(a1) };
            let a3 = params_effect(a2, params, 0);
            let a4 = stmts_effect(a3, body, 0);
            lemma_params_keeps(a2, params, 0);
            lemma_stmts_keeps(a3, body, 0);
            lemma_keeps_trans(a2, a3, a4);
            lemma_scoped_keeps(a1, a2, a4);
            lemma_keeps_trans(a, a1, stmt_effect(a, s));
        },
        SStmt::If { condition, then_body, else_body, .. } => {
            let a0 = expr_effect(a, condition);
            lemma_expr_keeps(a, condition);
            let b0 = push_scope_spec(a0);
            lemma_stmts_keeps(b0, then_body, 0);
            lemma_scoped_keeps(a0, b0, stmts_effect(b0, then_body, 0));
            let a1 = pop_scope_spec(stmts_effect(b0, then_body, 0));
            assert(a1 == AnalyzerView { in_function: a0.in_function, ..pop_scope_spec(stmts_effect(b0, then_body, 0)) });
            lemma_keeps_trans(a, a0, a1);
            match else_body {
                Some(b) => {
                    assert(decreases_to!(s => b));
                    let b1 = push_scope_spec(a1);
                    lemma_stmts_keeps(b1, b, 0);
                    lemma_scoped_keeps(a1, b1, stmts_effect(b1, b, 0));
                    let a2 = pop_scope_spec(stmts_effect(b1, b, 0));
                    assert(a2 == AnalyzerView { in_function: a1.in_function, ..pop_scope_spec(stmts_effect(b1, b, 0)) });
                    lemma_keeps_trans(a, a1, a2);
                },
                None => {},
            }
        },
        SStmt::While { condition, body, .. } => {
            let a0 = expr_effect(a, condition);
            lemma_expr_keeps(a, condition);
            let b0 = push_scope_spec(a0);
            lemma_stmts_keeps(b0, body, 0);
            lemma_scoped_keeps(a0, b0, stmts_effect(b0, body, 0));
            let a1 = pop_scope_spec(stmts_effect(b0, body, 0));
            assert(a1 == AnalyzerView { in_function: a0.in_function, ..pop_scope_spec(stmts_effect(b0, body, 0)) });
            lemma_keeps_trans(a, a0, a1);
        },
        SStmt::For { variable, iterable, body, .. } => {
            let a0 = expr_effect(a, iterable);
            lemma_expr_keeps(a, iterable);
            let b0 = push_scope_spec(a0);
            let b1 = define_spec(b0, variable);
            let b2 = mark_used_spec(b1, variable);
            lemma_define_keeps(b0, variable);
            lemma_define_keeps(b1, variable);
            lemma_keeps_trans(b0, b1, b2);
            lemma_stmts_keeps(b2, body, 0);
            lemma_keeps_trans(b0, b2, stmts_effect(b2, body, 0));
            lemma_keeps_refl(b0);
            lemma_scoped_keeps(a0, b0, stmts_effect(b2, body, 0));
            let a1 = pop_scope_spec(stmts_effect(b2, body, 0));
            assert(a1 == AnalyzerView { in_function: a0.in_function, ..pop_scope_spec(stmts_effect(b2, body, 0)) });
            lemma_keeps_trans(a, a0, a1);
        },
        SStmt::Return { value, location } => {
            let a1 = if a.in_function { a } else { diagnose(a, Severity::Error, return_message(), Some(location)) };
            lemma_error_keeps(a, return_message(), location);
            match value {
                Some(v) => {
                    lemma_expr_keeps(a1, v);
                    lemma_keeps_trans(a, a1, expr_effect(a1, v));
                },
                None => {},
            }
        },
        SStmt::Print { value, .. } => {
            lemma_expr_keeps(a, value);
        },
        SStmt::ExprStmt { expr, .. } => {
            lemma_expr_keeps(a, expr);
        },
        SStmt::Compound { value, .. } => {
            lemma_expr_keeps(a, value);
        },
        SStmt::Throw { value, .. } => {
            lemma_expr_keeps(a, value);
        },
        SStmt::TryCatch { try_body, catch_body, .. } => {
            lemma_stmts_keeps(a, try_body, 0);
            lemma_stmts_keeps(stmts_effect(a, try_body, 0), catch_body, 0);
            lemma_keeps_trans(a, stmts_effect(a, try_body, 0), stmts_effect(stmts_effect(a, try_body, 0), catch_body, 0));
        },
        SStmt::ClassDef { methods, .. } => {
            lemma_stmts_keeps(a, methods, 0);
        },
        _ => {},
    }
}

/// Analyzing statements in turn keeps what each one keeps.
pub proof fn lemma_stmts_keeps(a: AnalyzerView, ss: Seq<SStmt>, i: nat)
    ensures
        keeps(a, stmts_effect(a, ss, i)),
    decreases ss, ss.len() - i,
{
    if i < ss.len() {
        let a1 = stmt_effect(a, ss[i as int]);
        lemma_stmt_keeps(a, ss[i as int]);
        lemma_stmts_keeps(a1, ss, i + 1);
        lemma_keeps_trans(a, a1, stmts_effect(a1, ss, i + 1));
    } else {
        lemma_keeps_refl(a);
    }
}

proof fn lemma_declare_pass_keeps(a: AnalyzerView, ss: Seq<SStmt>, i: nat)
    ensures
        keeps(a, declare_pass(a, ss, i)),
    decreases ss.len() - i,
{
    lemma_keeps_refl(a);
    if i < ss.len() {
        let a1 = match ss[i as int] {
            SStmt::FunctionDef { name, params, location, .. } => if find_function(a.functions, name, 0) is Some {
                diagnose(a, Severity::Error, duplicate_message(name), Some(location))
            } else {
                define_spec(declare_spec(a, name, params.len(), location), name)
            },
            _ => a,
        };
        match ss[i as int] {
            SStmt::FunctionDef { name, params, location, .. } => {
                lemma_error_keeps(a, duplicate_message(name), location);
                let d = declare_spec(a, name, params.len(), location);
                assert(d.functions.subrange(0, a.functions.len() as int) =~= a.functions);
                assert(d.diagnostics.subrange(0, a.diagnostics.len() as int) =~= a.diagnostics);
                assert(keeps(a, d));
                lemma_define_keeps(d, name);
                lemma_keeps_trans(a, d, define_spec(d, name));
            },
            _ => {},
        }
        lemma_declare_pass_keeps(a1, ss, i + 1);
        lemma_keeps_trans(a, a1, declare_pass(a1, ss, i + 1));
    }
}

/// Whether each diagnostic of `ds` from index `from` on is an error with a
/// location or a warning without one.
pub open spec fn well_located(ds: Seq<DiagnosticView>, from: int) -> bool {
    forall|i: int| from <= i < ds.len() ==> ((#[trigger] ds[i]).severity == Severity::Error) == (ds[i].location is Some)
}

proof fn lemma_unused_pass(a: AnalyzerView, scope: Seq<(Seq<char>, bool)>, i: nat)
    ensures
        a.diagnostics.len() <= unused_pass(a, scope, i).diagnostics.len(),
        unused_pass(a, scope, i).diagnostics.subrange(0, a.diagnostics.len() as int) == a.diagnostics,
        forall|j: int| a.diagnostics.len() <= j < unused_pass(a, scope, i).diagnostics.len()
            ==> (#[trigger] unused_pass(a, scope, i).diagnostics[j]).severity == Severity::Warning
                && unused_pass(a, scope, i).diagnostics[j].location is None,
    decreases scope.len() - i,
{
    if i < scope.len() {
        let (name, used) = scope[i as int];
        let a1 = if !used && find_function(a.functions, name, 0) is None {
            diagnose(a, Severity::Warning, unused_message(name), None)
        } else {
            a
        };
        lemma_unused_pass(a1, scope, i + 1);
        let r = unused_pass(a1, scope, i + 1);
        assert(r.diagnostics.subrange(0, a.diagnostics.len() as int) =~= r.diagnostics.subrange(0, a1.diagnostics.len() as int).subrange(0, a.diagnostics.len() as int));
        assert forall|j: int| a.diagnostics.len() <= j < r.diagnostics.len()
            implies (#[trigger] r.diagnostics[j]).severity == Severity::Warning && r.diagnostics[j].location is None by {
            if j < a1.diagnostics.len() {
                assert(r.diagnostics[j] == r.diagnostics.subrange(0, a1.diagnostics.len() as int)[j]);
            }
        }
    } else {
        assert(a.diagnostics.subrange(0, a.diagnostics.len() as int) =~= a.diagnostics);
    }
}

/// The diagnostics of `ds` from index `from` on are errors up to index `n`
/// and warnings from there.
pub open spec fn errors_then_warnings(ds: Seq<DiagnosticView>, from: int, n: int) -> bool {
    &&& from <= n <= ds.len()
    &&& forall|j: int| from <= j < n ==> (#[trigger] ds[j]).severity == Severity::Error
    &&& forall|j: int| n <= j < ds.len() ==> (#[trigger] ds[j]).severity == Severity::Warning
}

/// Analyzing a program keeps the diagnostics collected before; the ones it
/// adds are errors first, then warnings.  Each error has a location (an
/// undefined variable, a wrong argument count, a function defined twice, a
/// `return` outside a function), each warning none (a variable never read).
pub proof fn lemma_analysis_diagnostics(a: AnalyzerView, program: Seq<SStmt>)
    ensures
        a.diagnostics.len() <= analysis(a, program).diagnostics.len(),
        analysis(a, program).diagnostics.subrange(0, a.diagnostics.len() as int) == a.diagnostics,
        well_located(analysis(a, program).diagnostics, a.diagnostics.len() as int),
        exists|n: int| #[trigger] errors_then_warnings(analysis(a, program).diagnostics, a.diagnostics.len() as int, n),
{
    let a1 = declare_pass(a, program, 0);
    let a2 = stmts_effect(a1, program, 0);
    lemma_declare_pass_keeps(a, program, 0);
    lemma_stmts_keeps(a1, program, 0);
    lemma_keeps_trans(a, a1, a2);
    if a2.scopes.len() > 0 {
        let r = unused_pass(a2, a2.scopes.last(), 0);
        lemma_unused_pass(a2, a2.scopes.last(), 0);
        assert(r.diagnostics.subrange(0, a.diagnostics.len() as int) =~= r.diagnostics.subrange(0, a2.diagnostics.len() as int).subrange(0, a.diagnostics.len() as int));
        assert forall|j: int| a.diagnostics.len() <= j < r.diagnostics.len()
            implies ((#[trigger] r.diagnostics[j]).severity == Severity::Error) == (r.diagnostics[j].location is Some) by {
            if j < a2.diagnostics.len() {
                assert(r.diagnostics[j] == r.diagnostics.subrange(0, a2.diagnostics.len() as int)[j]);
            }
        }
        let n = a2.diagnostics.len() as int;
        assert forall|j: int| a.diagnostics.len() <= j < n
            implies (#[trigger] r.diagnostics[j]).severity == Severity::Error by {
            assert(r.diagnostics[j] == r.diagnostics.subrange(0, a2.diagnostics.len() as int)[j]);
        }
        assert(forall|j: int| n <= j < r.diagnostics.len() ==> (#[trigger] r.diagnostics[j]).severity == Severity::Warning);
        assert(errors_then_warnings(r.diagnostics, a.diagnostics.len() as int, n));
        assert(analysis(a, program) == r);
        assert(errors_then_warnings(analysis(a, program).diagnostics, a.diagnostics.len() as int, n));
    } else {
        let n = a2.diagnostics.len() as int;
        assert(forall|j: int| a.diagnostics.len() <= j < n ==> (#[trigger] a2.diagnostics[j]).severity == Severity::Error);
        assert(errors_then_warnings(a2.diagnostics, a.diagnostics.len() as int, n));
        assert(analysis(a, program) == a2);
        assert(errors_then_warnings(analysis(a, program).diagnostics, a.diagnostics.len() as int, n));
    }
}

/// `first_error` finds the first error: none when no diagnostic from `i`
/// on is an error, else an error that no earlier one precedes.
pub proof fn lemma_first_error(ds: Seq<DiagnosticView>, i: nat)
    ensures
        first_error(ds, i) is None <==> forall|j: int| i <= j < ds.len() ==> (#[trigger] ds[j]).severity != Severity::Error,
        first_error(ds, i) matches Some(d) ==> d.severity == Severity::Error
            && exists|k: int| i <= k < ds.len() && ds[k] == d
                && forall|j: int| i <= j < k ==> (#[trigger] ds[j]).severity != Severity::Error,
    decreases ds.len() - i,
{
    if i < ds.len() {
        lemma_first_error(ds, i + 1);
        if ds[i as int].severity == Severity::Error {
            assert(exists|k: int| i <= k < ds.len() && ds[k] == ds[i as int]
                && forall|j: int| i <= j < k ==> (#[trigger] ds[j]).severity != Severity::Error) by {
                assert(forall|j: int| i <= j < i ==> (#[trigger] ds[j]).severity != Severity::Error);
            }
        } else {
            match first_error(ds, i + 1) {
                Some(d) => {
                    let k = choose|k: int| i + 1 <= k < ds.len() && ds[k] == d
                        && forall|j: int| i + 1 <= j < k ==> (#[trigger] ds[j]).severity != Severity::Error;
                    assert(forall|j: int| i <= j < k ==> (#[trigger] ds[j]).severity != Severity::Error);
                },
                None => {},
            }
        }
    }
}

/// Whether scope `m` is the innermost of the first `k` scopes that holds
/// `name`.
pub open spec fn innermost_holder(scopes: Seq<Seq<(Seq<char>, bool)>>, name: Seq<char>, k: int, m: int) -> bool {
    &&& 0 <= m < k
    &&& find_name(scopes[m], name, 0) is Some
    &&& forall|m2: int| m < m2 < k ==> (#[trigger] find_name(scopes[m2], name, 0)) is None
}

proof fn lemma_mark_from_law(scopes: Seq<Seq<(Seq<char>, bool)>>, name: Seq<char>, k: nat)
    requires
        k <= scopes.len(),
    ensures
        mark_from(scopes, name, k).len() == scopes.len(),
        forall|m: int| 0 <= m < scopes.len() ==> #[trigger] mark_from(scopes, name, k)[m] == (
            if innermost_holder(scopes, name, k as int, m) {
                scopes[m].update(find_name(scopes[m], name, 0)->Some_0 as int, (name, true))
            } else {
                scopes[m]
            }),
    decreases k,
{
    if k > 0 {
        let s = scopes[k - 1];
        match find_name(s, name, 0) {
            Some(i) => {
                assert forall|m: int| 0 <= m < k - 1 implies !innermost_holder(scopes, name, k as int, m) by {
                    assert(find_name(scopes[k - 1], name, 0) is Some);
                }
            },
            None => {
                lemma_mark_from_law(scopes, name, (k - 1) as nat);
                assert forall|m: int| 0 <= m < scopes.len() implies
                    innermost_holder(scopes, name, k as int, m) == innermost_holder(scopes, name, k - 1, m) by {
                    if innermost_holder(scopes, name, k - 1, m) {
                        assert forall|m2: int| m < m2 < k implies (#[trigger] find_name(scopes[m2], name, 0)) is None by {
                            if m2 < k - 1 {
                            }
                        }
                    }
                }
            },
        }
    }
}

/// Reading a name marks it read in the innermost scope that holds it, and
/// only there: every other entry of every scope is left as it was (so an
/// outer binding shadowed by an inner one stays unread), no name is added,
/// and nothing changes when no scope holds the name.
pub proof fn lemma_mark_used_innermost(a: AnalyzerView, name: Seq<char>)
    ensures
        mark_used_spec(a, name).scopes.len() == a.scopes.len(),
        forall|m: int| 0 <= m < a.scopes.len() ==> #[trigger] mark_used_spec(a, name).scopes[m] == (
            if innermost_holder(a.scopes, name, a.scopes.len() as int, m) {
                a.scopes[m].update(find_name(a.scopes[m], name, 0)->Some_0 as int, (name, true))
            } else {
                a.scopes[m]
            }),
        mark_used_spec(a, name).functions == a.functions,
        mark_used_spec(a, name).in_function == a.in_function,
        mark_used_spec(a, name).diagnostics == a.diagnostics,
{
    lemma_mark_from_law(a.scopes, name, a.scopes.len());
}

/// The names of a scope, in order.
pub open spec fn names_of(scope: Seq<(Seq<char>, bool)>) -> Seq<Seq<char>> {
    scope.map_values(|p: (Seq<char>, bool)| p.0)
}

/// The first `n` scopes of `b` hold the names of those of `a`.
pub open spec fn same_names_below(a: AnalyzerView, b: AnalyzerView, n: int) -> bool {
    forall|k: int| 0 <= k < n ==> names_of(#[trigger] b.scopes[k]) == names_of(a.scopes[k])
}

proof fn lemma_same_names_trans(a: AnalyzerView, b: AnalyzerView, c: AnalyzerView, n: int)
    requires
        same_names_below(a, b, n),
        same_names_below(b, c, n),
    ensures
        same_names_below(a, c, n),
{
    assert forall|k: int| 0 <= k < n implies names_of(#[trigger] c.scopes[k]) == names_of(a.scopes[k]) by {
        assert(names_of(c.scopes[k]) == names_of(b.scopes[k]));
    }
}

proof fn lemma_mark_from_names(scopes: Seq<Seq<(Seq<char>, bool)>>, name: Seq<char>, k: nat)
    requires
        k <= scopes.len(),
    ensures
        mark_from(scopes, name, k).len() == scopes.len(),
        forall|m: int| 0 <= m < scopes.len() ==> names_of(#[trigger] mark_from(scopes, name, k)[m]) == names_of(scopes[m]),
    decreases k,
{
    if k > 0 {
        let s = scopes[k - 1];
        match find_name(s, name, 0) {
            Some(i) => {
                lemma_find_name(s, name, 0);
                assert(names_of(s.update(i as int, (name, true))) =~= names_of(s));
            },
            None => {
                lemma_mark_from_names(scopes, name, (k - 1) as nat);
            },
        }
    }
}

/// Reading a name changes the names of no scope.
proof fn lemma_mark_used_names(a: AnalyzerView, name: Seq<char>)
    ensures
        mark_used_spec(a, name).scopes.len() == a.scopes.len(),
        same_names_below(a, mark_used_spec(a, name), a.scopes.len() as int),
{
    lemma_mark_from_names(a.scopes, name, a.scopes.len());
}

/// Defining a name changes the names of the innermost scope only.
proof fn lemma_define_names(a: AnalyzerView, name: Seq<char>)
    ensures
        define_spec(a, name).scopes.len() == a.scopes.len(),
        same_names_below(a, define_spec(a, name), a.scopes.len() - 1),
{
}

/// Analyzing an expression changes the names of no scope.
pub proof fn lemma_expr_names(a: AnalyzerView, e: SExpr)
    ensures
        same_names_below(a, expr_effect(a, e), a.scopes.len() as int),
    decreases e, 0nat,
{
    let n = a.scopes.len() as int;
    match e {
        SExpr::Ident { name, .. } => {
            lemma_mark_used_names(a, name);
        },
        SExpr::Binary { left, right, .. } => {
            lemma_expr_names(a, *left);
            lemma_expr_keeps(a, *left);
            lemma_expr_names(expr_effect(a, *left), *right);
            lemma_same_names_trans(a, expr_effect(a, *left), expr_effect(expr_effect(a, *left), *right), n);
        },
        SExpr::Unary { operand, .. } => {
            lemma_expr_names(a, *operand);
        },
        SExpr::Call { callee, args, location } => {
            let a1 = expr_effect(a, *callee);
            lemma_expr_names(a, *callee);
            lemma_expr_keeps(a, *callee);
            let a2 = arity_check(a1, *callee, args.len(), location);
            assert(a2.scopes == a1.scopes);
            lemma_exprs_names(a2, args, 0);
            lemma_same_names_trans(a, a2, exprs_effect(a2, args, 0), n);
        },
        SExpr::Index { object, index, .. } => {
            lemma_expr_names(a, *object);
            lemma_expr_keeps(a, *object);
            lemma_expr_names(expr_effect(a, *object), *index);
            lemma_same_names_trans(a, expr_effect(a, *object), expr_effect(expr_effect(a, *object), *index), n);
        },
        SExpr::Member { object, .. } => {
            lemma_expr_names(a, *object);
        },
        SExpr::List { elements, .. } => {
            lemma_exprs_names(a, elements, 0);
        },
        SExpr::Dict { entries, .. } => {
            lemma_entries_names(a, entries, 0);
        },
        SExpr::Interp { parts, .. } => {
            lemma_parts_names(a, parts, 0);
        },
        SExpr::MethodCall { object, args, .. } => {
            lemma_expr_names(a, *object);
            lemma_expr_keeps(a, *object);
            lemma_exprs_names(expr_effect(a, *object), args, 0);
            lemma_same_names_trans(a, expr_effect(a, *object), exprs_effect(expr_effect(a, *object), args, 0), n);
        },
        SExpr::New { args, .. } => {
            lemma_exprs_names(a, args, 0);
        },
        _ => {},
    }
}

pub proof fn lemma_exprs_names(a: AnalyzerView, es: Seq<SExpr>, i: nat)
    ensures
        same_names_below(a, exprs_effect(a, es, i), a.scopes.len() as int),
    decreases es, es.len() - i,
{
    if i < es.len() {
        let a1 = expr_effect(a, es[i as int]);
        lemma_expr_names(a, es[i as int]);
        lemma_expr_keeps(a, es[i as int]);
        lemma_exprs_names(a1, es, i + 1);
        lemma_same_names_trans(a, a1, exprs_effect(a1, es, i + 1), a.scopes.len() as int);
    }
}

pub proof fn lemma_entries_names(a: AnalyzerView, es: Seq<(SExpr, SExpr)>, i: nat)
    ensures
        same_names_below(a, entries_effect(a, es, i), a.scopes.len() as int),
    decreases es, es.len() - i,
{
    if i < es.len() {
        assert(decreases_to!(es => es[i as int]));
        let (k, v) = es[i as int];
        let a1 = expr_effect(a, k);
        let a2 = expr_effect(a1, v);
        lemma_expr_names(a, k);
        lemma_expr_keeps(a, k);
        lemma_expr_names(a1, v);
        lemma_expr_keeps(a1, v);
        lemma_same_names_trans(a, a1, a2, a.scopes.len() as int);
        lemma_entries_names(a2, es, i + 1);
        lemma_same_names_trans(a, a2, entries_effect(a2, es, i + 1), a.scopes.len() as int);
    }
}

pub proof fn lemma_parts_names(a: AnalyzerView, ps: Seq<SPart>, i: nat)
    ensures
        same_names_below(a, parts_effect(a, ps, i), a.scopes.len() as int),
    decreases ps, ps.len() - i,
{
    if i < ps.len() {
        assert(decreases_to!(ps => ps[i as int]));
        match ps[i as int] {
            SPart::Expression(x) => {
                lemma_expr_names(a, x);
                lemma_expr_keeps(a, x);
                lemma_parts_names(expr_effect(a, x), ps, i + 1);
                lemma_same_names_trans(a, expr_effect(a, x), parts_effect(expr_effect(a, x), ps, i + 1), a.scopes.len() as int);
            },
            SPart::Literal(_) => {
                lemma_parts_names(a, ps, i + 1);
            },
        }
    }
}

proof fn lemma_params_names(a: AnalyzerView, ps: Seq<Seq<char>>, i: nat)
    ensures
        params_effect(a, ps, i).scopes.len() == a.scopes.len(),
        same_names_below(a, params_effect(a, ps, i), a.scopes.len() - 1),
    decreases ps.len() - i,
{
    if i < ps.len() {
        let a1 = define_spec(a, ps[i as int]);
        let a2 = mark_used_spec(a1, ps[i as int]);
        lemma_define_names(a, ps[i as int]);
        lemma_mark_used_names(a1, ps[i as int]);
        lemma_same_names_trans(a, a1, a2, a.scopes.len() - 1);
        lemma_params_names(a2, ps, i + 1);
        lemma_same_names_trans(a, a2, params_effect(a2, ps, i + 1), a.scopes.len() - 1);
    }
}

/// A body analyzed in a scope of its own changes the names of no
/// enclosing scope: `b` is `a` with a new innermost scope, and `c` keeps
/// the names of every scope of `b` but its innermost.
proof fn lemma_scoped_names(a: AnalyzerView, b: AnalyzerView, c: AnalyzerView)
    requires
        b.scopes == a.scopes.push(Seq::empty()),
        c.scopes.len() == b.scopes.len(),
        same_names_below(b, c, b.scopes.len() - 1),
    ensures
        same_names_below(a, pop_scope_spec(c), a.scopes.len() as int),
        pop_scope_spec(c).scopes.len() == a.scopes.len(),
{
    assert forall|k: int| 0 <= k < a.scopes.len() implies names_of(#[trigger] pop_scope_spec(c).scopes[k]) == names_of(a.scopes[k]) by {
        assert(pop_scope_spec(c).scopes[k] == c.scopes[k]);
        assert(b.scopes[k] == a.scopes[k]);
    }
}

/// The built-ins `len`, `type`, `str`, `num`, `push` and `print` are
/// defined in every state of the analyzer, whatever its scopes hold, so
/// reading one never reports an undefined variable.
pub proof fn lemma_builtins_defined(a: AnalyzerView, location: SourceLocation)
    ensures
        is_defined_spec(a, "len"@),
        is_defined_spec(a, "type"@),
        is_defined_spec(a, "str"@),
        is_defined_spec(a, "num"@),
        is_defined_spec(a, "push"@),
        is_defined_spec(a, "print"@),
        expr_effect(a, SExpr::Ident { name: "push"@, location }).diagnostics == a.diagnostics,
{
    assert(builtin_names()[0] == "len"@);
    assert(builtin_names()[1] == "type"@);
    assert(builtin_names()[2] == "str"@);
    assert(builtin_names()[3] == "num"@);
    assert(builtin_names()[4] == "push"@);
    assert(builtin_names()[5] == "print"@);
}

/// The names defined in `a`, as a predicate.
pub open spec fn defined_names(a: AnalyzerView) -> spec_fn(Seq<char>) -> bool {
    |n: Seq<char>| is_defined_spec(a, n)
}

/// The arity error of a call of `callee` with `given` arguments: one when
/// the callee names a declared function with another number of parameters.
pub open spec fn arity_reports(functions: Seq<FunctionView>, callee: SExpr, given: nat, location: SourceLocation) -> Seq<DiagnosticView> {
    match callee {
        SExpr::Ident { name, .. } => match find_function(functions, name, 0) {
            Some(i) => if given != functions[i as int].arity {
                seq![DiagnosticView {
                    severity: Severity::Error,
                    message: arity_message(name, functions[i as int].arity, given),
                    location: Some(location),
                }]
            } else {
                Seq::empty()
            },
            None => Seq::empty(),
        },
        _ => Seq::empty(),
    }
}

/// The diagnostics of an expression, given which names are defined and
/// which functions are declared: in left-to-right pre-order, an
/// `Undefined variable` error at each identifier that is not defined, and
/// after a call's callee its arity error.  Member, method and class names
/// are not identifiers and are never checked.
pub open spec fn expr_reports(defined: spec_fn(Seq<char>) -> bool, functions: Seq<FunctionView>, e: SExpr) -> Seq<DiagnosticView>
    decreases e, 0nat,
{
    match e {
        SExpr::Ident { name, location } => if defined(name) {
            Seq::empty()
        } else {
            seq![DiagnosticView { severity: Severity::Error, message: undefined_message(name), location: Some(location) }]
        },
        SExpr::Binary { left, right, .. } => expr_reports(defined, functions, *left) + expr_reports(defined, functions, *right),
        SExpr::Unary { operand, .. } => expr_reports(defined, functions, *operand),
        SExpr::Call { callee, args, location } =>
            expr_reports(defined, functions, *callee) + arity_reports(functions, *callee, args.len(), location)
                + exprs_reports(defined, functions, args, 0),
        SExpr::Index { object, index, .. } => expr_reports(defined, functions, *object) + expr_reports(defined, functions, *index),
        SExpr::Member { object, .. } => expr_reports(defined, functions, *object),
        SExpr::List { elements, .. } => exprs_reports(defined, functions, elements, 0),
        SExpr::Dict { entries, .. } => entries_reports(defined, functions, entries, 0),
        SExpr::Interp { parts, .. } => parts_reports(defined, functions, parts, 0),
        SExpr::MethodCall { object, args, .. } => expr_reports(defined, functions, *object) + exprs_reports(defined, functions, args, 0),
        SExpr::New { args, .. } => exprs_reports(defined, functions, args, 0),
        _ => Seq::empty(),
    }
}

pub open spec fn exprs_reports(defined: spec_fn(Seq<char>) -> bool, functions: Seq<FunctionView>, es: Seq<SExpr>, i: nat) -> Seq<DiagnosticView>
    decreases es, es.len() - i,
{
    if i < es.len() {
        expr_reports(defined, functions, es[i as int]) + exprs_reports(defined, functions, es, i + 1)
    } else {
        Seq::empty()
    }
}

pub open spec fn entries_reports(defined: spec_fn(Seq<char>) -> bool, functions: Seq<FunctionView>, es: Seq<(SExpr, SExpr)>, i: nat) -> Seq<DiagnosticView>
    decreases es, es.len() - i,
{
    if i < es.len() {
        proof { assert(decreases_to!(es => es[i as int])); }
        let (k, v) = es[i as int];
        expr_reports(defined, functions, k) + expr_reports(defined, functions, v) + entries_reports(defined, functions, es, i + 1)
    } else {
        Seq::empty()
    }
}

pub open spec fn parts_reports(defined: spec_fn(Seq<char>) -> bool, functions: Seq<FunctionView>, ps: Seq<SPart>, i: nat) -> Seq<DiagnosticView>
    decreases ps, ps.len() - i,
{
    if i < ps.len() {
        proof { assert(decreases_to!(ps => ps[i as int])); }
        match ps[i as int] {
            SPart::Expression(x) => expr_reports(defined, functions, x) + parts_reports(defined, functions, ps, i + 1),
            SPart::Literal(_) => parts_reports(defined, functions, ps, i + 1),
        }
    } else {
        Seq::empty()
    }
}

/// Analyzing an expression defines no name, declares no function and
/// adds to the diagnostics exactly `expr_reports` of the state before it.
proof fn lemma_expr_frame(a: AnalyzerView, e: SExpr)
    ensures
        defined_names(expr_effect(a, e)) == defined_names(a),
        expr_effect(a, e).functions == a.functions,
{
    lemma_expr_keeps(a, e);
    lemma_expr_names(a, e);
    lemma_defined_by_names(a, expr_effect(a, e));
    assert(defined_names(expr_effect(a, e)) =~= defined_names(a));
}

/// Analyzing an expression defines no name and declares no function, and
/// the diagnostics it adds are `expr_reports` of the names defined and the
/// functions declared before it: undefined identifiers in left-to-right
/// pre-order, each call's arity error after its callee's diagnostics and
/// before its arguments'.
pub proof fn lemma_expr_reports(a: AnalyzerView, e: SExpr)
    ensures
        defined_names(expr_effect(a, e)) == defined_names(a),
        expr_effect(a, e).functions == a.functions,
        expr_effect(a, e).diagnostics == a.diagnostics + expr_reports(defined_names(a), a.functions, e),
    decreases e, 0nat,
{
    lemma_expr_frame(a, e);
    let d = defined_names(a);
    let f = a.functions;
    match e {
        SExpr::Ident { name, location } => {
            assert(d(name) == is_defined_spec(a, name));
            if is_defined_spec(a, name) {
                assert(a.diagnostics + Seq::<DiagnosticView>::empty() =~= a.diagnostics);
            } else {
                assert(a.diagnostics + expr_reports(d, f, e) =~= a.diagnostics.push(DiagnosticView {
                    severity: Severity::Error, message: undefined_message(name), location: Some(location) }));
            }
        },
        SExpr::Binary { left, right, .. } => {
            let a1 = expr_effect(a, *left);
            lemma_expr_reports(a, *left);
            lemma_expr_reports(a1, *right);
            assert(expr_effect(a, e).diagnostics =~= a.diagnostics + expr_reports(d, f, e));
        },
        SExpr::Unary { operand, .. } => {
            lemma_expr_reports(a, *operand);
        },
        SExpr::Call { callee, args, location } => {
            let a1 = expr_effect(a, *callee);
            lemma_expr_reports(a, *callee);
            let a2 = arity_check(a1, *callee, args.len(), location);
            assert(a2.diagnostics =~= a1.diagnostics + arity_reports(f, *callee, args.len(), location));
            assert(defined_names(a2) =~= defined_names(a1));
            lemma_exprs_reports(a2, args, 0);
            assert(expr_effect(a, e).diagnostics =~= a.diagnostics + expr_reports(d, f, e));
        },
        SExpr::Index { object, index, .. } => {
            let a1 = expr_effect(a, *object);
            lemma_expr_reports(a, *object);
            lemma_expr_reports(a1, *index);
            assert(expr_effect(a, e).diagnostics =~= a.diagnostics + expr_reports(d, f, e));
        },
        SExpr::Member { object, .. } => {
            lemma_expr_reports(a, *object);
        },
        SExpr::List { elements, .. } => {
            lemma_exprs_reports(a, elements, 0);
        },
        SExpr::Dict { entries, .. } => {
            lemma_entries_reports(a, entries, 0);
        },
        SExpr::Interp { parts, .. } => {
            lemma_parts_reports(a, parts, 0);
        },
        SExpr::MethodCall { object, args, .. } => {
            let a1 = expr_effect(a, *object);
            lemma_expr_reports(a, *object);
            lemma_exprs_reports(a1, args, 0);
            assert(expr_effect(a, e).diagnostics =~= a.diagnostics + expr_reports(d, f, e));
        },
        SExpr::New { args, .. } => {
            lemma_exprs_reports(a, args, 0);
        },
        _ => {
            assert(a.diagnostics + Seq::<DiagnosticView>::empty() =~= a.diagnostics);
        },
    }
}

pub proof fn lemma_exprs_reports(a: AnalyzerView, es: Seq<SExpr>, i: nat)
    ensures
        defined_names(exprs_effect(a, es, i)) == defined_names(a),
        exprs_effect(a, es, i).functions == a.functions,
        exprs_effect(a, es, i).diagnostics == a.diagnostics + exprs_reports(defined_names(a), a.functions, es, i),
    decreases es, es.len() - i,
{
    if i < es.len() {
        let a1 = expr_effect(a, es[i as int]);
        lemma_expr_reports(a, es[i as int]);
        lemma_exprs_reports(a1, es, i + 1);
        assert(exprs_effect(a, es, i).diagnostics =~= a.diagnostics + exprs_reports(defined_names(a), a.functions, es, i));
    } else {
        assert(a.diagnostics + Seq::<DiagnosticView>::empty() =~= a.diagnostics);
    }
}

pub proof fn lemma_entries_reports(a: AnalyzerView, es: Seq<(SExpr, SExpr)>, i: nat)
    ensures
        defined_names(entries_effect(a, es, i)) == defined_names(a),
        entries_effect(a, es, i).functions == a.functions,
        entries_effect(a, es, i).diagnostics == a.diagnostics + entries_reports(defined_names(a), a.functions, es, i),
    decreases es, es.len() - i,
{
    if i < es.len() {
        assert(decreases_to!(es => es[i as int]));
        let (k, v) = es[i as int];
        let a1 = expr_effect(a, k);
        let a2 = expr_effect(a1, v);
        lemma_expr_reports(a, k);
        lemma_expr_reports(a1, v);
        lemma_entries_reports(a2, es, i + 1);
        assert(entries_effect(a, es, i).diagnostics =~= a.diagnostics + entries_reports(defined_names(a), a.functions, es, i));
    } else {
        assert(a.diagnostics + Seq::<DiagnosticView>::empty() =~= a.diagnostics);
    }
}

pub proof fn lemma_parts_reports(a: AnalyzerView, ps: Seq<SPart>, i: nat)
    ensures
        defined_names(parts_effect(a, ps, i)) == defined_names(a),
        parts_effect(a, ps, i).functions == a.functions,
        parts_effect(a, ps, i).diagnostics == a.diagnostics + parts_reports(defined_names(a), a.functions, ps, i),
    decreases ps, ps.len() - i,
{
    if i < ps.len() {
        assert(decreases_to!(ps => ps[i as int]));
        match ps[i as int] {
            SPart::Expression(x) => {
                lemma_expr_reports(a, x);
                lemma_parts_reports(expr_effect(a, x), ps, i + 1);
                assert(parts_effect(a, ps, i).diagnostics =~= a.diagnostics + parts_reports(defined_names(a), a.functions, ps, i));
            },
            SPart::Literal(_) => {
                lemma_parts_reports(a, ps, i + 1);
            },
        }
    } else {
        assert(a.diagnostics + Seq::<DiagnosticView>::empty() =~= a.diagnostics);
    }
}

/// The locations of the diagnostics of `ds` that report a `return`
/// outside a function, in order.
pub open spec fn return_reports(ds: Seq<DiagnosticView>) -> Seq<Option<SourceLocation>>
    decreases ds.len(),
{
    if ds.len() == 0 {
        Seq::empty()
    } else {
        let r = return_reports(ds.drop_last());
        if ds.last().message == return_message() { r.push(ds.last().location) } else { r }
    }
}

/// The locations of the `return` statements of `s` that lie in the body of
/// no function definition within `s`, in order.
pub open spec fn stray_returns(s: SStmt) -> Seq<Option<SourceLocation>>
    decreases s, 0nat,
{
    match s {
        SStmt::Return { location, .. } => seq![Some(location)],
        SStmt::If { then_body, else_body, .. } => stray_returns_in(then_body, 0) + match else_body {
            Some(b) => {
                proof { assert(decreases_to!(s => b)); }
                stray_returns_in(b, 0)
            },
            None => Seq::empty(),
        },
        SStmt::While { body, .. } => stray_returns_in(body, 0),
        SStmt::For { body, .. } => stray_returns_in(body, 0),
        SStmt::TryCatch { try_body, catch_body, .. } => stray_returns_in(try_body, 0) + stray_returns_in(catch_body, 0),
        SStmt::ClassDef { methods, .. } => stray_returns_in(methods, 0),
        _ => Seq::empty(),
    }
}

pub open spec fn stray_returns_in(ss: Seq<SStmt>, i: nat) -> Seq<Option<SourceLocation>>
    decreases ss, ss.len() - i,
{
    if i < ss.len() { stray_returns(ss[i as int]) + stray_returns_in(ss, i + 1) } else { Seq::empty() }
}

/// The stray returns of `x` when the walk is outside a function, else none.
pub open spec fn outside_function(in_function: bool, x: Seq<Option<SourceLocation>>) -> Seq<Option<SourceLocation>> {
    if in_function { Seq::empty() } else { x }
}

proof fn lemma_return_reports_append(ds: Seq<DiagnosticView>, xs: Seq<DiagnosticView>)
    ensures
        return_reports(ds + xs) == return_reports(ds) + return_reports(xs),
    decreases xs.len(),
{
    if xs.len() == 0 {
        assert(ds + xs =~= ds);
        assert(return_reports(ds) + return_reports(xs) =~= return_reports(ds));
    } else {
        lemma_return_reports_append(ds, xs.drop_last());
        assert((ds + xs).drop_last() =~= ds + xs.drop_last());
        assert((ds + xs).last() == xs.last());
        if xs.last().message == return_message() {
            assert(return_reports(ds + xs) =~= return_reports(ds) + return_reports(xs));
        } else {
            assert(return_reports(ds + xs) =~= return_reports(ds) + return_reports(xs));
        }
    }
}

/// No diagnostic of `ds` reports a `return`.
pub open spec fn no_return_report(ds: Seq<DiagnosticView>) -> bool {
    forall|i: int| 0 <= i < ds.len() ==> (#[trigger] ds[i]).message != return_message()
}

proof fn lemma_no_return_report(ds: Seq<DiagnosticView>)
    requires
        no_return_report(ds),
    ensures
        return_reports(ds) == Seq::<Option<SourceLocation>>::empty(),
    decreases ds.len(),
{
    if ds.len() > 0 {
        assert(ds.last() == ds[ds.len() - 1]);
        lemma_no_return_report(ds.drop_last());
    }
}

proof fn lemma_message_heads(name: Seq<char>, expected: nat, given: nat)
    ensures
        undefined_message(name) != return_message(),
        arity_message(name, expected, given) != return_message(),
{
    reveal_strlit("Undefined variable '");
    reveal_strlit("Function '");
    reveal_strlit("'return' used outside of a function");
    assert(undefined_message(name)[0] == 'U');
    assert(arity_message(name, expected, given)[0] == 'F');
    assert(return_message()[0] == '\'');
}

proof fn lemma_concat_no_return(x: Seq<DiagnosticView>, y: Seq<DiagnosticView>)
    requires
        no_return_report(x),
        no_return_report(y),
    ensures
        no_return_report(x + y),
{
    assert forall|i: int| 0 <= i < (x + y).len() implies (#[trigger] (x + y)[i]).message != return_message() by {
        if i < x.len() {
            assert((x + y)[i] == x[i]);
        } else {
            assert((x + y)[i] == y[i - x.len()]);
        }
    }
}

/// No diagnostic of an expression reports a `return`.
proof fn lemma_expr_no_return(d: spec_fn(Seq<char>) -> bool, f: Seq<FunctionView>, e: SExpr)
    ensures
        no_return_report(expr_reports(d, f, e)),
    decreases e, 0nat,
{
    match e {
        SExpr::Ident { name, .. } => {
            lemma_message_heads(name, 0, 0);
        },
        SExpr::Binary { left, right, .. } => {
            lemma_expr_no_return(d, f, *left);
            lemma_expr_no_return(d, f, *right);
            lemma_concat_no_return(expr_reports(d, f, *left), expr_reports(d, f, *right));
        },
        SExpr::Unary { operand, .. } => {
            lemma_expr_no_return(d, f, *operand);
        },
        SExpr::Call { callee, args, location } => {
            lemma_expr_no_return(d, f, *callee);
            match *callee {
                SExpr::Ident { name, .. } => match find_function(f, name, 0) {
                    Some(i) => {
                        lemma_message_heads(name, f[i as int].arity, args.len());
                    },
                    None => {},
                },
                _ => {},
            }
            lemma_exprs_no_return(d, f, args, 0);
            lemma_concat_no_return(expr_reports(d, f, *callee), arity_reports(f, *callee, args.len(), location));
            lemma_concat_no_return(expr_reports(d, f, *callee) + arity_reports(f, *callee, args.len(), location), exprs_reports(d, f, args, 0));
        },
        SExpr::Index { object, index, .. } => {
            lemma_expr_no_return(d, f, *object);
            lemma_expr_no_return(d, f, *index);
            lemma_concat_no_return(expr_reports(d, f, *object), expr_reports(d, f, *index));
        },
        SExpr::Member { object, .. } => {
            lemma_expr_no_return(d, f, *object);
        },
        SExpr::List { elements, .. } => {
            lemma_exprs_no_return(d, f, elements, 0);
        },
        SExpr::Dict { entries, .. } => {
            lemma_entries_no_return(d, f, entries, 0);
        },
        SExpr::Interp { parts, .. } => {
            lemma_parts_no_return(d, f, parts, 0);
        },
        SExpr::MethodCall { object, args, .. } => {
            lemma_expr_no_return(d, f, *object);
            lemma_exprs_no_return(d, f, args, 0);
            lemma_concat_no_return(expr_reports(d, f, *object), exprs_reports(d, f, args, 0));
        },
        SExpr::New { args, .. } => {
            lemma_exprs_no_return(d, f, args, 0);
        },
        _ => {},
    }
}

proof fn lemma_exprs_no_return(d: spec_fn(Seq<char>) -> bool, f: Seq<FunctionView>, es: Seq<SExpr>, i: nat)
    ensures
        no_return_report(exprs_reports(d, f, es, i)),
    decreases es, es.len() - i,
{
    if i < es.len() {
        lemma_expr_no_return(d, f, es[i as int]);
        lemma_exprs_no_return(d, f, es, i + 1);
        lemma_concat_no_return(expr_reports(d, f, es[i as int]), exprs_reports(d, f, es, i + 1));
    }
}

proof fn lemma_entries_no_return(d: spec_fn(Seq<char>) -> bool, f: Seq<FunctionView>, es: Seq<(SExpr, SExpr)>, i: nat)
    ensures
        no_return_report(entries_reports(d, f, es, i)),
    decreases es, es.len() - i,
{
    if i < es.len() {
        assert(decreases_to!(es => es[i as int]));
        let (k, v) = es[i as int];
        lemma_expr_no_return(d, f, k);
        lemma_expr_no_return(d, f, v);
        lemma_entries_no_return(d, f, es, i + 1);
        lemma_concat_no_return(expr_reports(d, f, k), expr_reports(d, f, v));
        lemma_concat_no_return(expr_reports(d, f, k) + expr_reports(d, f, v), entries_reports(d, f, es, i + 1));
    }
}

proof fn lemma_parts_no_return(d: spec_fn(Seq<char>) -> bool, f: Seq<FunctionView>, ps: Seq<SPart>, i: nat)
    ensures
        no_return_report(parts_reports(d, f, ps, i)),
    decreases ps, ps.len() - i,
{
    if i < ps.len() {
        assert(decreases_to!(ps => ps[i as int]));
        match ps[i as int] {
            SPart::Expression(x) => {
                lemma_expr_no_return(d, f, x);
                lemma_parts_no_return(d, f, ps, i + 1);
                lemma_concat_no_return(expr_reports(d, f, x), parts_reports(d, f, ps, i + 1));
            },
            SPart::Literal(_) => {
                lemma_parts_no_return(d, f, ps, i + 1);
            },
        }
    }
}

/// Analyzing an expression reports no `return`, and keeps the in-function
/// flag.
proof fn lemma_expr_returns(a: AnalyzerView, e: SExpr)
    ensures
        return_reports(expr_effect(a, e).diagnostics) == return_reports(a.diagnostics),
        expr_effect(a, e).in_function == a.in_function,
{
    lemma_expr_reports(a, e);
    lemma_expr_keeps(a, e);
    lemma_expr_no_return(defined_names(a), a.functions, e);
    lemma_no_return_report(expr_reports(defined_names(a), a.functions, e));
    lemma_return_reports_append(a.diagnostics, expr_reports(defined_names(a), a.functions, e));
    assert(return_reports(a.diagnostics) + Seq::<Option<SourceLocation>>::empty() =~= return_reports(a.diagnostics));
}

proof fn lemma_params_diagnostics(a: AnalyzerView, ps: Seq<Seq<char>>, i: nat)
    ensures
        params_effect(a, ps, i).diagnostics == a.diagnostics,
        params_effect(a, ps, i).in_function == a.in_function,
    decreases ps.len() - i,
{
    if i < ps.len() {
        lemma_params_diagnostics(mark_used_spec(define_spec(a, ps[i as int]), ps[i as int]), ps, i + 1);
    }
}

/// `return` outside a function: analyzing a statement keeps the
/// in-function flag, and it reports a `return` outside a function exactly
/// at the `return` statements of the statement that lie in the body of no
/// function definition within it, in order, and only when the walk is
/// outside every function.
pub proof fn lemma_stmt_returns(a: AnalyzerView, s: SStmt)
    ensures
        stmt_effect(a, s).in_function == a.in_function,
        return_reports(stmt_effect(a, s).diagnostics)
            == return_reports(a.diagnostics) + outside_function(a.in_function, stray_returns(s)),
    decreases s, 0nat,
{
    lemma_stmt_keeps(a, s);
    let r0 = return_reports(a.diagnostics);
    assert(r0 + Seq::<Option<SourceLocation>>::empty() =~= r0);
    match s {
        SStmt::Assign { name, value, .. } => {
            lemma_expr_returns(a, value);
        },
        SStmt::FunctionDef { name, params, body, location } => {
            let a1 = registered(a, s);
            let a2 = AnalyzerView { in_function: true, ..push_scope_spec(a1) };
            let a3 = params_effect(a2, params, 0);
            lemma_params_diagnostics(a2, params, 0);
            lemma_stmts_returns(a3, body, 0);
        },
        SStmt::If { condition, then_body, else_body, .. } => {
            let a0 = expr_effect(a, condition);
            lemma_expr_returns(a, condition);
            let b0 = push_scope_spec(a0);
            lemma_stmts_returns(b0, then_body, 0);
            let a1 = pop_scope_spec(stmts_effect(b0, then_body, 0));
            match else_body {
                Some(b) => {
                    assert(decreases_to!(s => b));
                    let b1 = push_scope_spec(a1);
                    lemma_stmts_returns(b1, b, 0);
                    assert(outside_function(a.in_function, stray_returns(s)) =~=
                        outside_function(a.in_function, stray_returns_in(then_body, 0)) + outside_function(a.in_function, stray_returns_in(b, 0)));
                },
                None => {
                    assert(stray_returns(s) =~= stray_returns_in(then_body, 0));
                },
            }
        },
        SStmt::While { condition, body, .. } => {
            lemma_expr_returns(a, condition);
            lemma_stmts_returns(push_scope_spec(expr_effect(a, condition)), body, 0);
        },
        SStmt::For { variable, iterable, body, .. } => {
            let a0 = expr_effect(a, iterable);
            lemma_expr_returns(a, iterable);
            let b2 = mark_used_spec(define_spec(push_scope_spec(a0), variable), variable);
            lemma_stmts_returns(b2, body, 0);
        },
        SStmt::Return { value, location } => {
            let a1 = if a.in_function { a } else { diagnose(a, Severity::Error, return_message(), Some(location)) };
            if !a.in_function {
                assert(a1.diagnostics.drop_last() =~= a.diagnostics);
                assert(return_reports(a1.diagnostics) =~= r0 + seq![Some(location)]);
            }
            match value {
                Some(v) => {
                    lemma_expr_returns(a1, v);
                },
                None => {},
            }
        },
        SStmt::Print { value, .. } => {
            lemma_expr_returns(a, value);
        },
        SStmt::ExprStmt { expr, .. } => {
            lemma_expr_returns(a, expr);
        },
        SStmt::Compound { value, .. } => {
            lemma_expr_returns(a, value);
        },
        SStmt::Throw { value, .. } => {
            lemma_expr_returns(a, value);
        },
        SStmt::TryCatch { try_body, catch_body, .. } => {
            lemma_stmts_returns(a, try_body, 0);
            lemma_stmts_returns(stmts_effect(a, try_body, 0), catch_body, 0);
            assert(outside_function(a.in_function, stray_returns(s)) =~=
                outside_function(a.in_function, stray_returns_in(try_body, 0)) + outside_function(a.in_function, stray_returns_in(catch_body, 0)));
        },
        SStmt::ClassDef { methods, .. } => {
            lemma_stmts_returns(a, methods, 0);
        },
        _ => {},
    }
}

/// Statements analyzed in turn report the stray returns of each, in order.
pub proof fn lemma_stmts_returns(a: AnalyzerView, ss: Seq<SStmt>, i: nat)
    ensures
        stmts_effect(a, ss, i).in_function == a.in_function,
        return_reports(stmts_effect(a, ss, i).diagnostics)
            == return_reports(a.diagnostics) + outside_function(a.in_function, stray_returns_in(ss, i)),
    decreases ss, ss.len() - i,
{
    let r0 = return_reports(a.diagnostics);
    if i < ss.len() {
        let a1 = stmt_effect(a, ss[i as int]);
        lemma_stmt_returns(a, ss[i as int]);
        lemma_stmts_returns(a1, ss, i + 1);
        assert(outside_function(a.in_function, stray_returns_in(ss, i)) =~=
            outside_function(a.in_function, stray_returns(ss[i as int])) + outside_function(a.in_function, stray_returns_in(ss, i + 1)));
    } else {
        assert(r0 + Seq::<Option<SourceLocation>>::empty() =~= r0);
    }
}

/// Whether one of the first `i` statements of `p` defines a function named
/// `name`.
pub open spec fn defined_before(p: Seq<SStmt>, name: Seq<char>, i: int) -> bool {
    exists|j: int| 0 <= j < i && (#[trigger] p[j]) is FunctionDef && p[j]->FunctionDef_name == name
}

/// The duplicate-definition errors of the top-level statements of `p`
/// from index `i` on: one at each function definition whose name an
/// earlier top-level definition already took.
pub open spec fn duplicate_reports(p: Seq<SStmt>, i: nat) -> Seq<DiagnosticView>
    decreases p.len() - i,
{
    if i < p.len() {
        let here = match p[i as int] {
            SStmt::FunctionDef { name, location, .. } => if defined_before(p, name, i as int) {
                seq![DiagnosticView { severity: Severity::Error, message: duplicate_message(name), location: Some(location) }]
            } else {
                Seq::empty()
            },
            _ => Seq::empty(),
        };
        here + duplicate_reports(p, i + 1)
    } else {
        Seq::empty()
    }
}

/// The unused-variable warnings for the entries of `scope` from index `i`
/// on: one, without location, for each name not read since it was last
/// defined that names no declared function.
pub open spec fn unused_reports(scope: Seq<(Seq<char>, bool)>, functions: Seq<FunctionView>, i: nat) -> Seq<DiagnosticView>
    decreases scope.len() - i,
{
    if i < scope.len() {
        let (name, used) = scope[i as int];
        let here = if !used && find_function(functions, name, 0) is None {
            seq![DiagnosticView { severity: Severity::Warning, message: unused_message(name), location: None }]
        } else {
            Seq::empty()
        };
        here + unused_reports(scope, functions, i + 1)
    } else {
        Seq::empty()
    }
}

/// The state of a fresh analyzer after the first pass over `p`.
pub open spec fn declared(p: Seq<SStmt>) -> AnalyzerView {
    declare_pass(initial_view(), p, 0)
}

/// The state of a fresh analyzer after both passes over `p`.
pub open spec fn walked(p: Seq<SStmt>) -> AnalyzerView {
    stmts_effect(declared(p), p, 0)
}

proof fn lemma_find_function_push(fs: Seq<FunctionView>, fv: FunctionView, n: Seq<char>)
    ensures
        (find_function(fs.push(fv), n, 0) is Some) == (find_function(fs, n, 0) is Some || fv.name == n),
{
    lemma_find_function(fs, n, 0);
    lemma_find_function(fs.push(fv), n, 0);
    if find_function(fs, n, 0) is Some {
        let k = find_function(fs, n, 0)->Some_0;
        assert(fs.push(fv)[k as int] == fs[k as int]);
    }
    if fv.name == n {
        assert(fs.push(fv)[fs.len() as int] == fv);
    }
    if find_function(fs.push(fv), n, 0) is Some {
        let k = find_function(fs.push(fv), n, 0)->Some_0;
        if k < fs.len() {
            assert(fs.push(fv)[k as int] == fs[k as int]);
        }
    }
}

proof fn lemma_declare_pass_reports(a: AnalyzerView, p: Seq<SStmt>, i: nat)
    requires
        i <= p.len(),
        forall|n: Seq<char>| (#[trigger] find_function(a.functions, n, 0) is Some) == defined_before(p, n, i as int),
    ensures
        declare_pass(a, p, i).diagnostics == a.diagnostics + duplicate_reports(p, i),
    decreases p.len() - i,
{
    if i < p.len() {
        let a1 = match p[i as int] {
            SStmt::FunctionDef { name, params, location, .. } => if find_function(a.functions, name, 0) is Some {
                diagnose(a, Severity::Error, duplicate_message(name), Some(location))
            } else {
                define_spec(declare_spec(a, name, params.len(), location), name)
            },
            _ => a,
        };
        assert forall|n: Seq<char>| (#[trigger] find_function(a1.functions, n, 0) is Some) == defined_before(p, n, i + 1 as int) by {
            if defined_before(p, n, i as int) {
                let j = choose|j: int| 0 <= j < i && (#[trigger] p[j]) is FunctionDef && p[j]->FunctionDef_name == n;
                assert(0 <= j < i + 1 && p[j] is FunctionDef && p[j]->FunctionDef_name == n);
            }
            if defined_before(p, n, i + 1 as int) {
                let j = choose|j: int| 0 <= j < i + 1 && (#[trigger] p[j]) is FunctionDef && p[j]->FunctionDef_name == n;
                if j < i {
                    assert(defined_before(p, n, i as int));
                }
            }
            match p[i as int] {
                SStmt::FunctionDef { name, params, location, .. } => {
                    if find_function(a.functions, name, 0) is None {
                        lemma_find_function_push(a.functions, FunctionView { name, arity: params.len(), location }, n);
                    }
                    if n == name {
                        assert(p[i as int] is FunctionDef && p[i as int]->FunctionDef_name == n);
                    }
                },
                _ => {},
            }
        }
        lemma_declare_pass_reports(a1, p, i + 1);
        match p[i as int] {
            SStmt::FunctionDef { name, .. } => {
                assert(find_function(a.functions, name, 0) is Some == defined_before(p, name, i as int));
            },
            _ => {},
        }
        assert(declare_pass(a, p, i).diagnostics =~= a.diagnostics + duplicate_reports(p, i));
    } else {
        assert(a.diagnostics + Seq::<DiagnosticView>::empty() =~= a.diagnostics);
    }
}

proof fn lemma_unused_pass_reports(a: AnalyzerView, scope: Seq<(Seq<char>, bool)>, i: nat)
    ensures
        unused_pass(a, scope, i).diagnostics == a.diagnostics + unused_reports(scope, a.functions, i),
    decreases scope.len() - i,
{
    if i < scope.len() {
        let (name, used) = scope[i as int];
        let a1 = if !used && find_function(a.functions, name, 0) is None {
            diagnose(a, Severity::Warning, unused_message(name), None)
        } else {
            a
        };
        lemma_unused_pass_reports(a1, scope, i + 1);
        assert(unused_pass(a, scope, i).diagnostics =~= a.diagnostics + unused_reports(scope, a.functions, i));
    } else {
        assert(a.diagnostics + Seq::<DiagnosticView>::empty() =~= a.diagnostics);
    }
}

/// What a fresh analysis of `p` reports, in order: first the
/// duplicate-definition errors of the first pass, then what the statements
/// report in program order (errors only, each with a location), then one
/// warning without location for each name of the global scope that was not
/// read since its last definition and names no function, in the order in
/// which the names were first defined.
pub proof fn lemma_program_diagnostics(p: Seq<SStmt>)
    ensures
        declared(p).diagnostics == duplicate_reports(p, 0),
        walked(p).scopes.len() == 1,
        walked(p).diagnostics.subrange(0, declared(p).diagnostics.len() as int) == declared(p).diagnostics,
        forall|j: int| declared(p).diagnostics.len() <= j < walked(p).diagnostics.len()
            ==> (#[trigger] walked(p).diagnostics[j]).severity == Severity::Error && walked(p).diagnostics[j].location is Some,
        program_diagnostics(p) == walked(p).diagnostics + unused_reports(walked(p).scopes[0], walked(p).functions, 0),
{
    let a = initial_view();
    assert forall|n: Seq<char>| (#[trigger] find_function(a.functions, n, 0) is Some) == defined_before(p, n, 0) by {}
    lemma_declare_pass_reports(a, p, 0);
    assert(declared(p).diagnostics =~= duplicate_reports(p, 0));
    lemma_declare_pass_keeps(a, p, 0);
    lemma_stmts_keeps(declared(p), p, 0);
    lemma_unused_pass_reports(walked(p), walked(p).scopes.last(), 0);
}

proof fn lemma_find_name_new(scope: Seq<(Seq<char>, bool)>, name: Seq<char>, i: nat)
    requires
        i <= scope.len(),
        forall|j: int| i <= j < scope.len() ==> scope[j].0 != name,
    ensures
        find_name(scope.push((name, false)), name, i) == Some(scope.len()),
    decreases scope.len() - i,
{
    if i < scope.len() {
        assert(scope.push((name, false))[i as int] == scope[i as int]);
        lemma_find_name_new(scope, name, i + 1);
    } else {
        assert(scope.push((name, false))[scope.len() as int] == (name, false));
    }
}

/// An assignment `name = value` analyzes its value before it binds its
/// name: the diagnostics it adds are those of `value` in the state before
/// the statement, so a read of `name` in `value` is reported as undefined
/// when `name` was not defined before; afterwards `name` is held, not yet
/// read, by the innermost scope.
pub proof fn lemma_assignment(a: AnalyzerView, name: Seq<char>, value: SExpr, location: SourceLocation)
    requires
        a.scopes.len() > 0,
    ensures
        stmt_effect(a, SStmt::Assign { name, value, location }).diagnostics
            == a.diagnostics + expr_reports(defined_names(a), a.functions, value),
        find_name(stmt_effect(a, SStmt::Assign { name, value, location }).scopes.last(), name, 0) matches Some(i)
            && stmt_effect(a, SStmt::Assign { name, value, location }).scopes.last()[i as int] == (name, false),
        is_defined_spec(stmt_effect(a, SStmt::Assign { name, value, location }), name),
        forall|l: SourceLocation| !is_defined_spec(a, name) && value == (SExpr::Ident { name, location: l }) ==>
            stmt_effect(a, SStmt::Assign { name, value, location }).diagnostics == a.diagnostics.push(
                DiagnosticView { severity: Severity::Error, message: "Undefined variable '"@ + name + "'"@, location: Some(l) }),
{
    let a1 = expr_effect(a, value);
    lemma_expr_reports(a, value);
    lemma_expr_keeps(a, value);
    let r = define_spec(a1, name);
    let k = a1.scopes.len() - 1;
    let scope = a1.scopes[k];
    lemma_find_name(scope, name, 0);
    match find_name(scope, name, 0) {
        Some(i) => {
            let s2 = scope.update(i as int, (name, false));
            assert(names_of(s2) =~= names_of(scope));
            lemma_find_name_by_names(s2, scope, name, 0);
            assert(r.scopes.last() == s2);
        },
        None => {
            lemma_find_name_new(scope, name, 0);
            assert(r.scopes.last() == scope.push((name, false)));
        },
    }
    assert(find_name(r.scopes[k], name, 0) is Some);
    assert forall|l: SourceLocation| !is_defined_spec(a, name) && value == (SExpr::Ident { name, location: l }) implies
        r.diagnostics == a.diagnostics.push(
            DiagnosticView { severity: Severity::Error, message: "Undefined variable '"@ + name + "'"@, location: Some(l) }) by {
        assert(defined_names(a)(name) == is_defined_spec(a, name));
        assert(a.diagnostics + expr_reports(defined_names(a), a.functions, value) =~= a.diagnostics.push(
            DiagnosticView { severity: Severity::Error, message: undefined_message(name), location: Some(l) }));
    }
}

/// The state after the function that `s` defines, if it is one, is
/// registered: declared, and its name defined, unless a function of that
/// name is already declared.
pub open spec fn registered(a: AnalyzerView, s: SStmt) -> AnalyzerView {
    match s {
        SStmt::FunctionDef { name, params, location, .. } => if find_function(a.functions, name, 0) is None {
            define_spec(declare_spec(a, name, params.len(), location), name)
        } else {
            a
        },
        _ => a,
    }
}

proof fn lemma_find_name_by_names(s1: Seq<(Seq<char>, bool)>, s2: Seq<(Seq<char>, bool)>, name: Seq<char>, i: nat)
    requires
        names_of(s1) == names_of(s2),
    ensures
        find_name(s1, name, i) == find_name(s2, name, i),
    decreases s1.len() - i,
{
    assert(s1.len() == names_of(s1).len() && s2.len() == names_of(s2).len());
    if i < s1.len() {
        assert(s1[i as int].0 == names_of(s1)[i as int]);
        assert(s2[i as int].0 == names_of(s2)[i as int]);
        lemma_find_name_by_names(s1, s2, name, i + 1);
    }
}

/// Which names are defined depends on the names of the scopes alone.
pub proof fn lemma_defined_by_names(a: AnalyzerView, b: AnalyzerView)
    requires
        a.scopes.len() == b.scopes.len(),
        same_names_below(a, b, a.scopes.len() as int),
    ensures
        forall|n: Seq<char>| #[trigger] is_defined_spec(b, n) == is_defined_spec(a, n),
{
    assert forall|n: Seq<char>| #[trigger] is_defined_spec(b, n) == is_defined_spec(a, n) by {
        assert forall|k: int| 0 <= k < a.scopes.len() implies
            #[trigger] find_name(b.scopes[k], n, 0) == find_name(a.scopes[k], n, 0) by {
            assert(names_of(b.scopes[k]) == names_of(a.scopes[k]));
            lemma_find_name_by_names(b.scopes[k], a.scopes[k], n, 0);
        }
        if exists|k: int| 0 <= k < a.scopes.len() && (#[trigger] find_name(a.scopes[k], n, 0)) is Some {
            let k = choose|k: int| 0 <= k < a.scopes.len() && (#[trigger] find_name(a.scopes[k], n, 0)) is Some;
            assert(find_name(b.scopes[k], n, 0) is Some);
        }
        if exists|k: int| 0 <= k < b.scopes.len() && (#[trigger] find_name(b.scopes[k], n, 0)) is Some {
            let k = choose|k: int| 0 <= k < b.scopes.len() && (#[trigger] find_name(b.scopes[k], n, 0)) is Some;
            assert(find_name(a.scopes[k], n, 0) is Some);
        }
    }
}

/// Names bound inside a body do not outlive it: after an `if`, `while` or
/// `for` statement the same names are defined as before it (its loop
/// variable and the names its bodies assign are gone), and after a
/// function definition the same names are defined as once the function is
/// registered (its parameters and the names its body assigns are gone).
pub proof fn lemma_body_names_do_not_leak(a: AnalyzerView, s: SStmt)
    ensures
        (s is If || s is While || s is For) ==>
            forall|n: Seq<char>| #[trigger] is_defined_spec(stmt_effect(a, s), n) == is_defined_spec(a, n),
        s is FunctionDef ==>
            forall|n: Seq<char>| #[trigger] is_defined_spec(stmt_effect(a, s), n) == is_defined_spec(registered(a, s), n),
{
    lemma_stmt_names(a, s);
    if s is If || s is While || s is For {
        lemma_defined_by_names(a, stmt_effect(a, s));
    }
    if s is FunctionDef {
        lemma_define_names(declare_spec(a, s->FunctionDef_name, s->FunctionDef_params.len(), s->FunctionDef_location), s->FunctionDef_name);
        lemma_defined_by_names(registered(a, s), stmt_effect(a, s));
    }
}

/// Block scoping: analyzing a statement changes the names of no scope but
/// the innermost one (into which an assignment defines its name, and a
/// function not declared before its own); an `if`, `while` or `for`
/// statement changes the names of no scope at all, so the names it
/// defines do not outlive it.
pub proof fn lemma_stmt_names(a: AnalyzerView, s: SStmt)
    ensures
        stmt_effect(a, s).scopes.len() == a.scopes.len(),
        same_names_below(a, stmt_effect(a, s), a.scopes.len() - 1),
        (s is If || s is While || s is For) ==> same_names_below(a, stmt_effect(a, s), a.scopes.len() as int),
        s is FunctionDef ==> same_names_below(registered(a, s), stmt_effect(a, s), a.scopes.len() as int),
    decreases s, 0nat,
{
    lemma_stmt_keeps(a, s);
    let n = a.scopes.len() as int;
    match s {
        SStmt::Assign { name, value, .. } => {
            lemma_expr_names(a, value);
            lemma_expr_keeps(a, value);
            lemma_define_names(expr_effect(a, value), name);
            lemma_same_names_trans(a, expr_effect(a, value), define_spec(expr_effect(a, value), name), n - 1);
        },
        SStmt::FunctionDef { name, params, body, location } => {
            let a1 = if find_function(a.functions, name, 0) is None {
                define_spec(declare_spec(a, name, params.len(), location), name)
            } else {
                a
            };
            lemma_define_names(declare_spec(a, name, params.len(), location), name);
            assert(same_names_below(a, a1, n - 1));
            let a2 = AnalyzerView { in_function: true, ..push_scope_spec(a1) };
            let a3 = params_effect(a2, params, 0);
            let a4 = stmts_effect(a3, body, 0);
            lemma_params_names(a2, params, 0);
            lemma_stmts_names(a3, body, 0);
            lemma_same_names_trans(a2, a3, a4, n);
            lemma_scoped_names(a1, a2, a4);
            lemma_same_names_trans(a, a1, pop_scope_spec(a4), n - 1);
        },
        SStmt::If { condition, then_body, else_body, .. } => {
            let a0 = expr_effect(a, condition);
            lemma_expr_names(a, condition);
            lemma_expr_keeps(a, condition);
            let b0 = push_scope_spec(a0);
            lemma_stmts_names(b0, then_body, 0);
            lemma_scoped_names(a0, b0, stmts_effect(b0, then_body, 0));
            let a1 = pop_scope_spec(stmts_effect(b0, then_body, 0));
            lemma_same_names_trans(a, a0, a1, n);
            match else_body {
                Some(b) => {
                    assert(decreases_to!(s => b));
                    let b1 = push_scope_spec(a1);
                    lemma_stmts_names(b1, b, 0);
                    lemma_scoped_names(a1, b1, stmts_effect(b1, b, 0));
                    lemma_same_names_trans(a, a1, pop_scope_spec(stmts_effect(b1, b, 0)), n);
                },
                None => {},
            }
        },
        SStmt::While { condition, body, .. } => {
            let a0 = expr_effect(a, condition);
            lemma_expr_names(a, condition);
            lemma_expr_keeps(a, condition);
            let b0 = push_scope_spec(a0);
            lemma_stmts_names(b0, body, 0);
            lemma_scoped_names(a0, b0, stmts_effect(b0, body, 0));
            lemma_same_names_trans(a, a0, pop_scope_spec(stmts_effect(b0, body, 0)), n);
        },
        SStmt::For { variable, iterable, body, .. } => {
            let a0 = expr_effect(a, iterable);
            lemma_expr_names(a, iterable);
            lemma_expr_keeps(a, iterable);
            let b0 = push_scope_spec(a0);
            let b1 = define_spec(b0, variable);
            let b2 = mark_used_spec(b1, variable);
            lemma_define_names(b0, variable);
            lemma_mark_used_names(b1, variable);
            lemma_same_names_trans(b0, b1, b2, n);
            lemma_stmts_names(b2, body, 0);
            lemma_same_names_trans(b0, b2, stmts_effect(b2, body, 0), n);
            lemma_scoped_names(a0, b0, stmts_effect(b2, body, 0));
            lemma_same_names_trans(a, a0, pop_scope_spec(stmts_effect(b2, body, 0)), n);
        },
        SStmt::Return { value, location } => {
            let a1 = if a.in_function { a } else { diagnose(a, Severity::Error, return_message(), Some(location)) };
            match value {
                Some(v) => {
                    lemma_expr_names(a1, v);
                },
                None => {},
            }
        },
        SStmt::Print { value, .. } => {
            lemma_expr_names(a, value);
        },
        SStmt::ExprStmt { expr, .. } => {
            lemma_expr_names(a, expr);
        },
        SStmt::Compound { value, .. } => {
            lemma_expr_names(a, value);
        },
        SStmt::Throw { value, .. } => {
            lemma_expr_names(a, value);
        },
        SStmt::TryCatch { try_body, catch_body, .. } => {
            lemma_stmts_names(a, try_body, 0);
            lemma_stmts_keeps(a, try_body, 0);
            lemma_stmts_names(stmts_effect(a, try_body, 0), catch_body, 0);
            lemma_same_names_trans(a, stmts_effect(a, try_body, 0), stmts_effect(stmts_effect(a, try_body, 0), catch_body, 0), n - 1);
        },
        SStmt::ClassDef { methods, .. } => {
            lemma_stmts_names(a, methods, 0);
        },
        _ => {},
    }
}

/// Statements analyzed in turn change the names of no scope but the
/// innermost one.
pub proof fn lemma_stmts_names(a: AnalyzerView, ss: Seq<SStmt>, i: nat)
    ensures
        stmts_effect(a, ss, i).scopes.len() == a.scopes.len(),
        same_names_below(a, stmts_effect(a, ss, i), a.scopes.len() - 1),
    decreases ss, ss.len() - i,
{
    if i < ss.len() {
        let a1 = stmt_effect(a, ss[i as int]);
        lemma_stmt_names(a, ss[i as int]);
        lemma_stmts_names(a1, ss, i + 1);
        lemma_same_names_trans(a, a1, stmts_effect(a1, ss, i + 1), a.scopes.len() - 1);
    }
}

/// The position of `name` in `scope`, if it is there.
fn position_in(scope: &Vec<(String, bool)>, name: &str) -> (r: Option<usize>)
    ensures
        match r {
            Some(i) => find_name(scope_model(*scope), name@, 0) == Some(i as nat),
            None => find_name(scope_model(*scope), name@, 0) is None,
        },
{
    let mut i: usize = 0;
    while i < scope.len()
        invariant
            i <= scope@.len(),
            find_name(scope_model(*scope), name@, 0) == find_name(scope_model(*scope), name@, i as nat),
        decreases scope@.len() - i,
    {
        if text_is(scope[i].0.as_str(), name) {
            return Some(i);
        }
        i = i + 1;
    }
    None
}

/// Whether `names` holds `name`.
fn contains_name(names: &Vec<String>, name: &str) -> (r: bool)
    ensures
        r == strings_model(*names).contains(name@),
{
    let mut i: usize = 0;
    while i < names.len()
        invariant
            i <= names@.len(),
            forall|j: int| 0 <= j < i ==> names@[j]@ != name@,
        decreases names@.len() - i,
    {
        if text_is(names[i].as_str(), name) {
            assert(strings_model(*names)[i as int] == name@);
            return true;
        }
        i = i + 1;
    }
    assert forall|j: int| 0 <= j < strings_model(*names).len() implies strings_model(*names)[j] != name@ by {}
    false
}

/// The semantic analyzer walks the AST and collects diagnostics.
pub struct SemanticAnalyzer {
    /// Stack of scopes; each lists variable names and whether they have been read.
    scopes: Vec<Vec<(String, bool)>>,
    /// Known function definitions: name, parameter count and location.
    functions: Vec<(String, FunctionInfo)>,
    /// Whether we're currently inside a function body.
    in_function: bool,
    /// Collected diagnostics.
    diagnostics: Vec<Diagnostic>,
    /// Built-in names that are always defined.
    builtins: Vec<String>,
}

impl View for SemanticAnalyzer {
    type V = AnalyzerView;

    closed spec fn view(&self) -> AnalyzerView {
        AnalyzerView {
            scopes: scopes_model(self.scopes),
            functions: Seq::new(self.functions@.len(), |i: int| FunctionView {
                name: self.functions@[i].0@,
                arity: self.functions@[i].1.arity as nat,
                location: self.functions@[i].1.location,
            }),
            in_function: self.in_function,
            diagnostics: Seq::new(self.diagnostics@.len(), |i: int| self.diagnostics@[i]@),
        }
    }
}

impl SemanticAnalyzer {
    /// The built-ins are those of the language, and no scope holds a name
    /// twice.
    pub closed spec fn wf(&self) -> bool {
        &&& strings_model(self.builtins) == builtin_names()
        &&& forall|k: int| 0 <= k < self@.scopes.len() ==> names_unique(#[trigger] self@.scopes[k])
    }

    /// A fresh analyzer: one empty global scope, no function, no diagnostic.
    pub fn new() -> (a: SemanticAnalyzer)
        ensures
            a.wf(),
            a@ == initial_view(),
    {
        let mut builtins: Vec<String> = Vec::new();
        builtins.push(String::from_str("len"));
        builtins.push(String::from_str("type"));
        builtins.push(String::from_str("str"));
        builtins.push(String::from_str("num"));
        builtins.push(String::from_str("push"));
        builtins.push(String::from_str("print"));
        let mut scopes: Vec<Vec<(String, bool)>> = Vec::new();
        scopes.push(Vec::new());
        let a = SemanticAnalyzer {
            scopes,
            functions: Vec::new(),
            in_function: false,
            diagnostics: Vec::new(),
            builtins,
        };
        assert(strings_model(a.builtins) =~= builtin_names());
        assert(a@.scopes[0] =~= Seq::<(Seq<char>, bool)>::empty());
        assert(a@.scopes =~= seq![Seq::<(Seq<char>, bool)>::empty()]);
        assert(a@.functions =~= Seq::<FunctionView>::empty());
        assert(a@.diagnostics =~= Seq::<DiagnosticView>::empty());
        a
    }

    /// Analyzes an entire program and returns all diagnostics collected
    /// so far: errors in the order of the walk, then a warning for each
    /// variable of the global scope that is never read, in the order of
    /// definition.
    pub fn analyze(&mut self, program: &Program) -> (diagnostics: Vec<Diagnostic>)
        requires
            old(self).wf(),
        ensures
            final(self).wf(),
            final(self)@ == analysis(old(self)@, program@),
            diagnostics_view(diagnostics) == final(self)@.diagnostics,
    {
        let ghost ss = program@;
        // First pass: collect all top-level function declarations
        let mut i: usize = 0;
        while i < program.statements.len()
            invariant
                self.wf(),
                i <= program.statements@.len(),
                ss == stmts_model(program.statements),
                declare_pass(self@, ss, i as nat) == declare_pass(old(self)@, ss, 0),
            decreases program.statements@.len() - i,
        {
            match &program.statements[i] {
                Statement::FunctionDef { name, params, location, .. } => {
                    if self.function_index(name.as_str()).is_some() {
                        let mut message = String::from_str("Function '");
                        message.append(name.as_str());
                        message.append("' is already defined");
                        self.report(Severity::Error, message, Some(*location));
                    } else {
                        self.declare_function(name, params.len(), *location);
                        self.define(name.as_str());
                    }
                },
                _ => {},
            }
            i = i + 1;
        }

        // Second pass: analyze all statements
        self.analyze_body(&program.statements);

        // Unused variables of the global scope
        let ghost a2 = self@;
        let n = self.scopes.len();
        if n > 0 {
            let k = n - 1;
            let ghost scope = a2.scopes[k as int];
            let mut j: usize = 0;
            while j < self.scopes[k].len()
                invariant
                    self.wf(),
                    n == self.scopes@.len(),
                    n == a2.scopes.len(),
                    k == n - 1,
                    self@.scopes == a2.scopes,
                    self@.functions == a2.functions,
                    scope == a2.scopes[k as int],
                    j <= scope.len(),
                    unused_pass(self@, scope, j as nat) == unused_pass(a2, scope, 0),
                decreases scope.len() - j,
            {
                let used = self.scopes[k][j].1;
                if !used && self.function_index(self.scopes[k][j].0.as_str()).is_none() {
                    let mut message = String::from_str("Variable '");
                    message.append(self.scopes[k][j].0.as_str());
                    message.append("' is defined but never used");
                    self.report(Severity::Warning, message, None);
                }
                j = j + 1;
            }
        }

        self.copy_diagnostics()
    }

    /// Analyzes `program` with a fresh analyzer: `Ok` when no error is
    /// found, else the first error as a semantic error.
    pub fn check(program: &Program) -> (res: KelpyResult<()>)
        ensures
            match first_error(program_diagnostics(program@), 0) {
                Some(d) => res matches Err(e) && e@ == (ErrorView::Semantic { message: d.message, location: d.location }),
                None => res is Ok,
            },
            res is Ok <==> forall|i: int| 0 <= i < program_diagnostics(program@).len()
                ==> (#[trigger] program_diagnostics(program@)[i]).severity != Severity::Error,
    {
        proof { lemma_first_error(program_diagnostics(program@), 0); }
        let mut analyzer = SemanticAnalyzer::new();
        let diagnostics = analyzer.analyze(program);
        let ghost ds = diagnostics_view(diagnostics);
        let mut i: usize = 0;
        while i < diagnostics.len()
            invariant
                i <= diagnostics@.len(),
                ds == diagnostics_view(diagnostics),
                ds == program_diagnostics(program@),
                first_error(ds, 0) == first_error(ds, i as nat),
            decreases diagnostics@.len() - i,
        {
            let d = &diagnostics[i];
            if d.severity == Severity::Error {
                return Err(KelpyError::SemanticError { message: d.message.clone(), location: d.location });
            }
            i = i + 1;
        }
        Ok(())
    }

    /// A copy of the diagnostics collected so far.
    fn copy_diagnostics(&self) -> (copy: Vec<Diagnostic>)
        ensures
            diagnostics_view(copy) == self@.diagnostics,
    {
        let mut copy: Vec<Diagnostic> = Vec::new();
        let mut i: usize = 0;
        while i < self.diagnostics.len()
            invariant
                i <= self.diagnostics@.len(),
                copy@.len() == i,
                forall|j: int| 0 <= j < i ==> #[trigger] copy@[j]@ == self.diagnostics@[j]@,
            decreases self.diagnostics@.len() - i,
        {
            let d = &self.diagnostics[i];
            copy.push(Diagnostic { severity: d.severity, message: d.message.clone(), location: d.location });
            i = i + 1;
        }
        assert(diagnostics_view(copy) =~= self@.diagnostics);
        copy
    }

    // ── Scope helpers ──

    fn push_scope(&mut self)
        requires
            old(self).wf(),
        ensures
            final(self).wf(),
            final(self)@ == push_scope_spec(old(self)@),
    {
        self.scopes.push(Vec::new());
        assert(self@.scopes.last() =~= Seq::<(Seq<char>, bool)>::empty());
        assert(self@.scopes =~= old(self)@.scopes.push(Seq::empty()));
        assert(self@.functions =~= old(self)@.functions);
        assert(self@.diagnostics =~= old(self)@.diagnostics);
    }

    fn pop_scope(&mut self) -> (scope: Vec<(String, bool)>)
        requires
            old(self).wf(),
        ensures
            final(self).wf(),
            final(self)@ == pop_scope_spec(old(self)@),
            old(self)@.scopes.len() > 0 ==> scope_model(scope) == old(self)@.scopes.last(),
            old(self)@.scopes.len() == 0 ==> scope@.len() == 0,
    {
        let scope = match self.scopes.pop() {
            Some(s) => s,
            None => Vec::new(),
        };
        assert(self@.scopes =~= pop_scope_spec(old(self)@).scopes);
        assert(self@.functions =~= old(self)@.functions);
        assert(self@.diagnostics =~= old(self)@.diagnostics);
        scope
    }

    fn define(&mut self, name: &str)
        requires
            old(self).wf(),
        ensures
            final(self).wf(),
            final(self)@ == define_spec(old(self)@, name@),
    {
        let n = self.scopes.len();
        if n > 0 {
            let ghost scope = old(self)@.scopes[n - 1];
            proof { lemma_find_name(scope, name@, 0); }
            match position_in(&self.scopes[n - 1], name) {
                Some(i) => {
                    self.scopes[n - 1][i].1 = false;
                    assert(self@.scopes[n - 1] =~= scope.update(i as int, (name@, false)));
                },
                None => {
                    self.scopes[n - 1].push((String::from_str(name), false));
                    assert(self@.scopes[n - 1] =~= scope.push((name@, false)));
                },
            }
            let ghost want = define_spec(old(self)@, name@);
            assert(self@.scopes[n - 1] =~= want.scopes[n - 1]);
            assert(self@.scopes =~= want.scopes);
            assert(self@.functions =~= old(self)@.functions);
            assert(self@.diagnostics =~= old(self)@.diagnostics);
        }
    }

    fn mark_used(&mut self, name: &str)
        requires
            old(self).wf(),
        ensures
            final(self).wf(),
            final(self)@ == mark_used_spec(old(self)@, name@),
    {
        // Walk scopes from innermost to outermost
        let mut k = self.scopes.len();
        while k > 0
            invariant
                *self == *old(self),
                self.wf(),
                k <= self.scopes@.len(),
                mark_from(self@.scopes, name@, self@.scopes.len()) == mark_from(self@.scopes, name@, k as nat),
            decreases k,
        {
            k = k - 1;
            match position_in(&self.scopes[k], name) {
                Some(i) => {
                    proof { lemma_find_name(self@.scopes[k as int], name@, 0); }
                    self.scopes[k][i].1 = true;
                    assert(self@.scopes[k as int] =~= old(self)@.scopes[k as int].update(i as int, (name@, true)));
                    let ghost want = mark_used_spec(old(self)@, name@);
                    assert(self@.scopes[k as int] =~= want.scopes[k as int]);
                    assert(self@.scopes =~= want.scopes);
                    assert(names_unique(self@.scopes[k as int])) by {
                        assert(forall|j: int| 0 <= j < self@.scopes[k as int].len()
                            ==> self@.scopes[k as int][j].0 == old(self)@.scopes[k as int][j].0);
                    }
                    assert(self@.functions =~= old(self)@.functions);
                    assert(self@.diagnostics =~= old(self)@.diagnostics);
                    return;
                },
                None => {},
            }
        }
    }

    fn is_defined(&self, name: &str) -> (r: bool)
        requires
            self.wf(),
        ensures
            r == is_defined_spec(self@, name@),
    {
        if contains_name(&self.builtins, name) {
            return true;
        }
        let mut k = self.scopes.len();
        while k > 0
            invariant
                k <= self.scopes@.len(),
                self.wf(),
                forall|m: int| k <= m < self@.scopes.len() ==> (#[trigger] find_name(self@.scopes[m], name@, 0)) is None,
            decreases k,
        {
            k = k - 1;
            if position_in(&self.scopes[k], name).is_some() {
                assert(find_name(self@.scopes[k as int], name@, 0) is Some);
                return true;
            }
        }
        false
    }

    /// The index of the declaration of `name`, if there is one.
    fn function_index(&self, name: &str) -> (r: Option<usize>)
        ensures
            match r {
                Some(i) => find_function(self@.functions, name@, 0) == Some(i as nat),
                None => find_function(self@.functions, name@, 0) is None,
            },
    {
        let mut i: usize = 0;
        while i < self.functions.len()
            invariant
                i <= self.functions@.len(),
                find_function(self@.functions, name@, 0) == find_function(self@.functions, name@, i as nat),
            decreases self.functions@.len() - i,
        {
            if text_is(self.functions[i].0.as_str(), name) {
                return Some(i);
            }
            i = i + 1;
        }
        None
    }

    /// Records `name` as a function of `arity` parameters declared at `location`.
    fn declare_function(&mut self, name: &String, arity: usize, location: SourceLocation)
        requires
            old(self).wf(),
        ensures
            final(self).wf(),
            final(self)@ == declare_spec(old(self)@, name@, arity as nat, location),
    {
        self.functions.push((name.clone(), FunctionInfo { arity, location }));
        assert(self@.functions =~= declare_spec(old(self)@, name@, arity as nat, location).functions);
    }

    /// Adds a diagnostic.
    fn report(&mut self, severity: Severity, message: String, location: Option<SourceLocation>)
        requires
            old(self).wf(),
        ensures
            final(self).wf(),
            final(self)@ == diagnose(old(self)@, severity, message@, location),
    {
        let ghost m = message@;
        self.diagnostics.push(Diagnostic { severity, message, location });
        assert(self@.diagnostics =~= diagnose(old(self)@, severity, m, location).diagnostics);
    }

    // ── Expression analysis ──

    fn analyze_expr(&mut self, expr: &Expr)
        requires
            old(self).wf(),
        ensures
            final(self).wf(),
            final(self)@ == expr_effect(old(self)@, expr@),
        decreases expr,
    {
        match expr {
            Expr::NumberLiteral { .. } | Expr::StringLiteral { .. } | Expr::BooleanLiteral { .. } => {},
            Expr::Identifier { name, location } => {
                if !self.is_defined(name.as_str()) {
                    let mut message = String::from_str("Undefined variable '");
                    message.append(name.as_str());
                    message.append("'");
                    self.report(Severity::Error, message, Some(*location));
                } else {
                    self.mark_used(name.as_str());
                }
            },
            Expr::BinaryOp { left, right, .. } => {
                self.analyze_expr(left);
                self.analyze_expr(right);
            },
            Expr::UnaryOp { operand, .. } => {
                self.analyze_expr(operand);
            },
            Expr::FunctionCall { callee, args, location } => {
                // Check callee
                self.analyze_expr(callee);

                // Check the argument count if the callee is a known function
                match &**callee {
                    Expr::Identifier { name, .. } => {
                        match self.function_index(name.as_str()) {
                            Some(f) => {
                                proof { lemma_find_function(self@.functions, name@, 0); }
                                let arity = self.functions[f].1.arity;
                                if args.len() != arity {
                                    let mut message = String::from_str("Function '");
                                    message.append(name.as_str());
                                    message.append("' expects ");
                                    push_decimal(&mut message, arity);
                                    message.append(" argument(s), but ");
                                    push_decimal(&mut message, args.len());
                                    message.append(" were given");
                                    self.report(Severity::Error, message, Some(*location));
                                }
                            },
                            None => {},
                        }
                    },
                    _ => {},
                }

                // Analyze each argument
                self.analyze_exprs(args);
            },
            Expr::Index { object, index, .. } => {
                self.analyze_expr(object);
                self.analyze_expr(index);
            },
            Expr::MemberAccess { object, .. } => {
                self.analyze_expr(object);
            },
            Expr::ListLiteral { elements, .. } => {
                self.analyze_exprs(elements);
            },
            Expr::DictLiteral { entries, .. } => {
                assert(expr@ matches SExpr::Dict { entries: es, .. } && es =~= entries_model(*entries));
                self.analyze_entries(entries);
            },
            Expr::StringInterpolation { parts, .. } => {
                assert(expr@ matches SExpr::Interp { parts: ps, .. } && ps =~= parts_model(*parts));
                self.analyze_parts(parts);
            },
            Expr::NullLiteral { .. } => {},
            Expr::MethodCall { object, args, .. } => {
                self.analyze_expr(object);
                self.analyze_exprs(args);
            },
            Expr::New { args, .. } => {
                self.analyze_exprs(args);
            },
        }
    }

    /// Analyzes each expression of `exprs` in order.
    fn analyze_exprs(&mut self, exprs: &Vec<Expr>)
        requires
            old(self).wf(),
        ensures
            final(self).wf(),
            final(self)@ == exprs_effect(old(self)@, exprs_model(*exprs), 0),
        decreases exprs,
    {
        let ghost es = exprs_model(*exprs);
        let mut i: usize = 0;
        while i < exprs.len()
            invariant
                self.wf(),
                i <= exprs@.len(),
                es == exprs_model(*exprs),
                exprs_effect(self@, es, i as nat) == exprs_effect(old(self)@, es, 0),
            decreases exprs@.len() - i,
        {
            self.analyze_expr(&exprs[i]);
            i = i + 1;
        }
    }

    /// Analyzes each entry of a dictionary literal: its key, then its value.
    fn analyze_entries(&mut self, entries: &Vec<(Expr, Expr)>)
        requires
            old(self).wf(),
        ensures
            final(self).wf(),
            final(self)@ == entries_effect(old(self)@, entries_model(*entries), 0),
        decreases entries,
    {
        let ghost es = entries_model(*entries);
        let mut i: usize = 0;
        while i < entries.len()
            invariant
                self.wf(),
                i <= entries@.len(),
                es == entries_model(*entries),
                entries_effect(self@, es, i as nat) == entries_effect(old(self)@, es, 0),
            decreases entries@.len() - i,
        {
            proof { assert(decreases_to!(entries => entries@[i as int].0)); }
            self.analyze_expr(&entries[i].0);
            proof { assert(decreases_to!(entries => entries@[i as int].1)); }
            self.analyze_expr(&entries[i].1);
            i = i + 1;
        }
    }

    /// Analyzes the expression parts of an interpolated string.
    fn analyze_parts(&mut self, parts: &Vec<StringPart>)
        requires
            old(self).wf(),
        ensures
            final(self).wf(),
            final(self)@ == parts_effect(old(self)@, parts_model(*parts), 0),
        decreases parts,
    {
        let ghost ps = parts_model(*parts);
        let mut i: usize = 0;
        while i < parts.len()
            invariant
                self.wf(),
                i <= parts@.len(),
                ps == parts_model(*parts),
                parts_effect(self@, ps, i as nat) == parts_effect(old(self)@, ps, 0),
            decreases parts@.len() - i,
        {
            match &parts[i] {
                StringPart::Expression(x) => {
                    proof { assert(decreases_to!(parts => parts@[i as int])); }
                    self.analyze_expr(x);
                },
                StringPart::Literal(_) => {},
            }
            i = i + 1;
        }
    }

    // ── Statement analysis ──

    fn analyze_statement(&mut self, stmt: &Statement)
        requires
            old(self).wf(),
        ensures
            final(self).wf(),
            final(self)@ == stmt_effect(old(self)@, stmt@),
        decreases stmt,
    {
        match stmt {
            Statement::Assignment { name, value, .. } => {
                self.analyze_expr(value);
                self.define(name.as_str());
            },
            Statement::FunctionDef { name, params, body, location } => {
                // The name was registered in the first pass (top level);
                // a nested function is registered now
                if self.function_index(name.as_str()).is_none() {
                    self.declare_function(name, params.len(), *location);
                    self.define(name.as_str());
                }
                let ghost a1 = self@;

                self.push_scope();
                let prev_in_func = self.in_function;
                self.in_function = true;
                assert(self@ == (AnalyzerView { in_function: true, ..push_scope_spec(a1) }));

                // Parameters are defined in the function scope, and count
                // as read (they are inputs)
                self.define_params(params);

                self.analyze_body(body);

                let _func_scope = self.pop_scope();
                self.in_function = prev_in_func;
            },
            Statement::If { condition, then_body, else_body, .. } => {
                self.analyze_expr(condition);

                self.push_scope();
                self.analyze_body(then_body);
                self.pop_scope();

                match else_body {
                    Some(else_stmts) => {
                        self.push_scope();
                        self.analyze_body(else_stmts);
                        self.pop_scope();
                    },
                    None => {},
                }
            },
            Statement::While { condition, body, .. } => {
                self.analyze_expr(condition);
                self.push_scope();
                self.analyze_body(body);
                self.pop_scope();
            },
            Statement::For { variable, iterable, body, .. } => {
                self.analyze_expr(iterable);
                self.push_scope();
                self.define(variable.as_str());
                self.mark_used(variable.as_str()); // the loop variable counts as read
                self.analyze_body(body);
                self.pop_scope();
            },
            Statement::Return { value, location } => {
                if !self.in_function {
                    self.report(Severity::Error, String::from_str("'return' used outside of a function"), Some(*location));
                }
                match value {
                    Some(expr) => {
                        self.analyze_expr(expr);
                    },
                    None => {},
                }
            },
            Statement::Import { .. } => {
                // Imports are valid anywhere; modules are not resolved here.
            },
            Statement::Print { value, .. } => {
                self.analyze_expr(value);
            },
            Statement::ExprStatement { expr, .. } => {
                self.analyze_expr(expr);
            },
            Statement::CompoundAssignment { value, .. } => {
                self.analyze_expr(value);
            },
            Statement::Break { .. } | Statement::Continue { .. } => {},
            Statement::Throw { value, .. } => {
                self.analyze_expr(value);
            },
            Statement::TryCatch { try_body, catch_body, .. } => {
                self.analyze_body(try_body);
                self.analyze_body(catch_body);
            },
            Statement::ClassDef { methods, .. } => {
                self.analyze_body(methods);
            },
        }
    }

    /// Analyzes each statement of `body` in order.
    fn analyze_body(&mut self, body: &Vec<Statement>)
        requires
            old(self).wf(),
        ensures
            final(self).wf(),
            final(self)@ == stmts_effect(old(self)@, stmts_model(*body), 0),
        decreases body,
    {
        let ghost ss = stmts_model(*body);
        let mut i: usize = 0;
        while i < body.len()
            invariant
                self.wf(),
                i <= body@.len(),
                ss == stmts_model(*body),
                stmts_effect(self@, ss, i as nat) == stmts_effect(old(self)@, ss, 0),
            decreases body@.len() - i,
        {
            self.analyze_statement(&body[i]);
            i = i + 1;
        }
    }

    /// Defines each parameter in the innermost scope and marks it read.
    fn define_params(&mut self, params: &Vec<String>)
        requires
            old(self).wf(),
        ensures
            final(self).wf(),
            final(self)@ == params_effect(old(self)@, strings_model(*params), 0),
    {
        let ghost ps = strings_model(*params);
        let mut i: usize = 0;
        while i < params.len()
            invariant
                self.wf(),
                i <= params@.len(),
                ps == strings_model(*params),
                params_effect(self@, ps, i as nat) == params_effect(old(self)@, ps, 0),
            decreases params@.len() - i,
        {
            self.define(params[i].as_str());
            self.mark_used(params[i].as_str());
            i = i + 1;
        }
    }
}

} // verus!
