//! The KelpyShark parser: a Pratt parser for expressions and recursive
//! descent for statements.
//!
//! The spec functions below define, over the models of the tokens, what
//! parsing from a position yields: a node and the position after it, or the
//! first error.  `Parser::parse` is proved to produce it.
use vstd::prelude::*;
use crate::ast::{BinaryOperator, CompoundOp, Expr, Program, SExpr, SPart, SStmt, Statement, StringPart, UnaryOperator, entries_model, exprs_model, parts_model, stmts_model, strings_model};
use crate::error::{KelpyError, KelpyResult, SourceLocation};
use crate::lexer::{KindView, LexOutcome, Token, TokenKind, TokenView, kind_text, kinds_equal, lemma_lex_stream, lex_from, tokens_match};
use crate::text::push_char;

verus! {

// ──────────────────────────────────────────────
//  The token stream
// ──────────────────────────────────────────────

/// The kind at position `i`; past the end the stream reads as end of input.
pub open spec fn kind_at(toks: Seq<TokenView>, i: nat) -> KindView {
    if i < toks.len() { toks[i as int].kind } else { KindView::Plain(TokenKind::Eof) }
}

/// The location at position `i`; past the end it is line 0, column 0.
pub open spec fn loc_at(toks: Seq<TokenView>, i: nat) -> SourceLocation {
    if i < toks.len() { toks[i as int].location } else { SourceLocation { line: 0, column: 0 } }
}

pub open spec fn is_kind(toks: Seq<TokenView>, i: nat, k: TokenKind) -> bool {
    kind_at(toks, i) == KindView::Plain(k)
}

/// The first position at or after `i` that holds the end of input, or the
/// length of the stream when none does.
pub open spec fn eof_from(toks: Seq<TokenView>, i: nat) -> nat
    decreases toks.len() - i,
{
    if i >= toks.len() {
        toks.len()
    } else if toks[i as int].kind == KindView::Plain(TokenKind::Eof) {
        i
    } else {
        eof_from(toks, i + 1)
    }
}

/// Parsing terminates on a stream that is empty or holds an end of input.
pub open spec fn stream_ok(toks: Seq<TokenView>) -> bool {
    toks.len() == 0 || eof_from(toks, 0) < toks.len()
}

/// The model of a vector of tokens.
pub open spec fn tokens_model(v: Seq<Token>) -> Seq<TokenView> {
    Seq::new(v.len(), |i: int| v[i]@)
}

/// A parse error: its message and location, and where the parser stopped.
pub struct ParseFail {
    pub message: Seq<char>,
    pub location: SourceLocation,
    /// The position at which the parser stopped.
    pub at: nat,
}

pub open spec fn fail(message: Seq<char>, location: SourceLocation, at: nat) -> ParseFail {
    ParseFail { message, location, at }
}

/// The outcome of a step that does not move forward; no step yields it
/// (each consumes a token before it recurses), but the definitions below
/// name it to show that they terminate.
pub open spec fn stalled(toks: Seq<TokenView>, i: nat) -> ParseFail {
    fail(Seq::empty(), loc_at(toks, i), i)
}

/// Whether `j` is a later position within the stream than `i`.
pub open spec fn forward(toks: Seq<TokenView>, i: nat, j: nat) -> bool {
    i < j && j <= toks.len()
}

// ──────────────────────────────────────────────
//  Precedence
// ──────────────────────────────────────────────

/// Precedence levels: 0 none, 1 `or`, 2 `and`, 3 equality, 4 comparison,
/// 5 `+ -`, 6 `* / %`, 7 unary, 8 call, index and member access.
pub open spec fn precedence(k: KindView) -> nat {
    match k {
        KindView::Plain(t) => match t {
            TokenKind::Or => 1,
            TokenKind::And => 2,
            TokenKind::EqualEqual | TokenKind::NotEqual => 3,
            TokenKind::LessThan | TokenKind::LessEqual | TokenKind::GreaterThan | TokenKind::GreaterEqual => 4,
            TokenKind::Plus | TokenKind::Minus => 5,
            TokenKind::Star | TokenKind::Slash | TokenKind::Percent => 6,
            TokenKind::LParen | TokenKind::LBracket | TokenKind::Dot => 8,
            _ => 0,
        },
        _ => 0,
    }
}

/// The binary operator a token kind stands for.
pub open spec fn binary_op_of(k: KindView) -> Option<BinaryOperator> {
    match k {
        KindView::Plain(t) => match t {
            TokenKind::Plus => Some(BinaryOperator::Add),
            TokenKind::Minus => Some(BinaryOperator::Subtract),
            TokenKind::Star => Some(BinaryOperator::Multiply),
            TokenKind::Slash => Some(BinaryOperator::Divide),
            TokenKind::Percent => Some(BinaryOperator::Modulo),
            TokenKind::EqualEqual => Some(BinaryOperator::Equal),
            TokenKind::NotEqual => Some(BinaryOperator::NotEqual),
            TokenKind::LessThan => Some(BinaryOperator::LessThan),
            TokenKind::LessEqual => Some(BinaryOperator::LessEqual),
            TokenKind::GreaterThan => Some(BinaryOperator::GreaterThan),
            TokenKind::GreaterEqual => Some(BinaryOperator::GreaterEqual),
            TokenKind::And => Some(BinaryOperator::And),
            TokenKind::Or => Some(BinaryOperator::Or),
            _ => None,
        },
        _ => None,
    }
}

// ──────────────────────────────────────────────
//  Small steps
// ──────────────────────────────────────────────

/// The first position at or after `i` that is not a newline.
pub open spec fn skip_newlines(toks: Seq<TokenView>, i: nat) -> nat
    decreases toks.len() - i,
{
    if i < toks.len() && is_kind(toks, i, TokenKind::Newline) { skip_newlines(toks, i + 1) } else { i }
}

pub proof fn lemma_skip_newlines(toks: Seq<TokenView>, i: nat)
    ensures
        i <= skip_newlines(toks, i),
        skip_newlines(toks, i) == i || skip_newlines(toks, i) <= toks.len(),
        !is_kind(toks, skip_newlines(toks, i), TokenKind::Newline),
    decreases toks.len() - i,
{
    if i < toks.len() && is_kind(toks, i, TokenKind::Newline) {
        lemma_skip_newlines(toks, i + 1);
    }
}

/// Consumes a token of kind `k`, or fails with `Expected k, found ...`.
pub open spec fn expect(toks: Seq<TokenView>, i: nat, k: TokenKind) -> Result<nat, ParseFail> {
    if kind_at(toks, i) == KindView::Plain(k) {
        Ok(i + 1)
    } else {
        Err(fail("Expected "@ + kind_text(KindView::Plain(k)) + ", found "@ + kind_text(kind_at(toks, i)), loc_at(toks, i), i))
    }
}

/// The name a token stands for where a parameter or a variable is read:
/// an identifier's text, or `self` for the `self` keyword.
pub open spec fn name_of(k: KindView) -> Option<Seq<char>> {
    match k {
        KindView::Identifier(name) => Some(name),
        KindView::Plain(TokenKind::Self_) => Some("self"@),
        _ => None,
    }
}

/// The parameter names of a list that continues at `i`, after `acc`.
pub open spec fn param_list_from(toks: Seq<TokenView>, i: nat, acc: Seq<Seq<char>>) -> Result<(Seq<Seq<char>>, nat), ParseFail>
    decreases toks.len() - i,
{
    match name_of(kind_at(toks, i)) {
        Some(name) => {
            let acc2 = acc.push(name);
            if is_kind(toks, i + 1, TokenKind::Comma) {
                param_list_from(toks, i + 2, acc2)
            } else {
                Ok((acc2, i + 1))
            }
        },
        None => Err(fail("Expected parameter name"@, loc_at(toks, i), i)),
    }
}

/// The parameter names of a function definition: empty before `)`.
pub open spec fn param_list(toks: Seq<TokenView>, i: nat) -> Result<(Seq<Seq<char>>, nat), ParseFail> {
    if is_kind(toks, i, TokenKind::RParen) { Ok((Seq::empty(), i)) } else { param_list_from(toks, i, Seq::empty()) }
}

/// A dotted module path that continues at `i` after `module`.
pub open spec fn import_path(toks: Seq<TokenView>, i: nat, module: Seq<char>) -> Result<(Seq<char>, nat), ParseFail>
    decreases toks.len() - i,
{
    if is_kind(toks, i, TokenKind::Dot) {
        match kind_at(toks, i + 1) {
            KindView::Identifier(part) => import_path(toks, i + 2, module + "."@ + part),
            _ => Err(fail("Expected module name after '.'"@, loc_at(toks, i + 1), i + 1)),
        }
    } else {
        Ok((module, i))
    }
}

/// `import a.b.c` at `i`.
pub open spec fn import_stmt(toks: Seq<TokenView>, i: nat) -> Result<(SStmt, nat), ParseFail> {
    let location = loc_at(toks, i);
    match kind_at(toks, i + 1) {
        KindView::Identifier(name) => match import_path(toks, i + 2, name) {
            Ok((module, j)) => Ok((SStmt::Import { module, location }, j)),
            Err(f) => Err(f),
        },
        _ => Err(fail("Expected module name after 'import'"@, loc_at(toks, i + 1), i + 1)),
    }
}

// ──────────────────────────────────────────────
//  String interpolation
// ──────────────────────────────────────────────

/// Whether `{$` starts at index `i` of `s`.
pub open spec fn placeholder_at(s: Seq<char>, i: int) -> bool {
    0 <= i && i + 1 < s.len() && s[i] == '{' && s[i + 1] == '$'
}

/// Whether `s` holds `{$`.
pub open spec fn has_placeholder(s: Seq<char>) -> bool {
    exists|i: int| placeholder_at(s, i)
}

/// The first index at or after `i` that holds `}`, or the end.
pub open spec fn close_brace(s: Seq<char>, i: nat) -> nat
    decreases s.len() - i,
{
    if i < s.len() && s[i as int] != '}' { close_brace(s, i + 1) } else { i }
}

pub proof fn lemma_close_brace(s: Seq<char>, i: nat)
    requires
        i <= s.len(),
    ensures
        i <= close_brace(s, i) <= s.len(),
        close_brace(s, i) < s.len() ==> s[close_brace(s, i) as int] == '}',
        forall|j: int| i <= j < close_brace(s, i) ==> s[j] != '}',
    decreases s.len() - i,
{
    if i < s.len() && s[i as int] != '}' {
        lemma_close_brace(s, i + 1);
    }
}

/// The parts of the interpolated string `s` from index `i` on, after
/// `parts` and the pending literal text `cur`: each `{$name}` becomes an
/// identifier expression, the text between them literal parts.
pub open spec fn interpolation_parts(s: Seq<char>, i: nat, cur: Seq<char>, parts: Seq<SPart>, location: SourceLocation) -> Seq<SPart>
    decreases s.len() - i,
{
    if i >= s.len() {
        if cur.len() > 0 { parts.push(SPart::Literal(cur)) } else { parts }
    } else if s[i as int] == '{' && i + 1 < s.len() && s[i + 1 as int] == '$' {
        let flushed = if cur.len() > 0 { parts.push(SPart::Literal(cur)) } else { parts };
        let e = close_brace(s, i + 2);
        let name = s.subrange(i + 2 as int, e as int);
        let next = if e < s.len() { e + 1 } else { e };
        let part = SPart::Expression(SExpr::Ident { name, location });
        proof { lemma_close_brace(s, i + 2); }
        interpolation_parts(s, next, Seq::empty(), flushed.push(part), location)
    } else {
        interpolation_parts(s, i + 1, cur.push(s[i as int]), parts, location)
    }
}

/// The interpolated-string expression of `s`.
pub open spec fn interpolation(s: Seq<char>, location: SourceLocation) -> SExpr {
    SExpr::Interp { parts: interpolation_parts(s, 0, Seq::empty(), Seq::empty(), location), location }
}


// ──────────────────────────────────────────────
//  The grammar
// ──────────────────────────────────────────────

/// A statement at `i` (after newlines).
pub open spec fn statement(toks: Seq<TokenView>, i: nat) -> Result<(SStmt, nat), ParseFail>
    decreases toks.len() - i, 9nat,
{
    let j = skip_newlines(toks, i);
    proof { lemma_skip_newlines(toks, i); }
    if is_kind(toks, j, TokenKind::Def) {
        function_def(toks, j)
    } else if is_kind(toks, j, TokenKind::If) {
        if_stmt(toks, j)
    } else if is_kind(toks, j, TokenKind::While) {
        while_stmt(toks, j)
    } else if is_kind(toks, j, TokenKind::For) {
        for_stmt(toks, j)
    } else if is_kind(toks, j, TokenKind::Return) {
        return_stmt(toks, j)
    } else if is_kind(toks, j, TokenKind::Import) {
        import_stmt(toks, j)
    } else if is_kind(toks, j, TokenKind::Print) {
        print_stmt(toks, j)
    } else if is_kind(toks, j, TokenKind::Break) {
        Ok((SStmt::Break { location: loc_at(toks, j) }, j + 1))
    } else if is_kind(toks, j, TokenKind::Continue) {
        Ok((SStmt::Continue { location: loc_at(toks, j) }, j + 1))
    } else if is_kind(toks, j, TokenKind::Throw) {
        throw_stmt(toks, j)
    } else if is_kind(toks, j, TokenKind::Try) {
        try_stmt(toks, j)
    } else if is_kind(toks, j, TokenKind::Class) {
        class_def(toks, j)
    } else {
        assignment_or_expr(toks, j)
    }
}

/// `def name(params) { body }` at `i`.
pub open spec fn function_def(toks: Seq<TokenView>, i: nat) -> Result<(SStmt, nat), ParseFail>
    decreases toks.len() - i, 8nat,
{
    let location = loc_at(toks, i);
    match kind_at(toks, i + 1) {
        KindView::Identifier(name) => match expect(toks, i + 2, TokenKind::LParen) {
            Err(f) => Err(f),
            Ok(m) => match param_list(toks, m) {
                Err(f) => Err(f),
                Ok((params, m2)) => match expect(toks, m2, TokenKind::RParen) {
                    Err(f) => Err(f),
                    Ok(m3) => if forward(toks, i, m3) {
                        match block(toks, m3) {
                            Err(f) => Err(f),
                            Ok((body, m4)) => Ok((SStmt::FunctionDef { name, params, body, location }, m4)),
                        }
                    } else {
                        Err(stalled(toks, m3))
                    },
                },
            },
        },
        _ => Err(fail("Expected function name after 'def'"@, loc_at(toks, i + 1), i + 1)),
    }
}

/// A block `{ statements }` at `i` (after newlines).
pub open spec fn block(toks: Seq<TokenView>, i: nat) -> Result<(Seq<SStmt>, nat), ParseFail>
    decreases toks.len() - i, 1nat,
{
    let j = skip_newlines(toks, i);
    proof { lemma_skip_newlines(toks, i); }
    match expect(toks, j, TokenKind::LBrace) {
        Err(f) => Err(f),
        Ok(k) => {
            proof { lemma_skip_newlines(toks, k); }
            block_body(toks, skip_newlines(toks, k), Seq::empty())
        },
    }
}

/// The statements of a block from `i` on, after `acc`, and its `}`.
pub open spec fn block_body(toks: Seq<TokenView>, i: nat, acc: Seq<SStmt>) -> Result<(Seq<SStmt>, nat), ParseFail>
    decreases toks.len() - i, 10nat,
{
    if is_kind(toks, i, TokenKind::RBrace) || is_kind(toks, i, TokenKind::Eof) {
        match expect(toks, i, TokenKind::RBrace) {
            Err(f) => Err(f),
            Ok(j) => Ok((acc, j)),
        }
    } else {
        match statement(toks, i) {
            Err(f) => Err(f),
            Ok((s, j)) => if forward(toks, i, j) {
                proof { lemma_skip_newlines(toks, j); }
                block_body(toks, skip_newlines(toks, j), acc.push(s))
            } else {
                Err(stalled(toks, j))
            },
        }
    }
}

/// `if cond { ... }` (or `elif cond { ... }`) at `i`, with an optional
/// `else { ... }`, `else if ...` or `elif ...`.
pub open spec fn if_stmt(toks: Seq<TokenView>, i: nat) -> Result<(SStmt, nat), ParseFail>
    decreases toks.len() - i, 8nat,
{
    let location = loc_at(toks, i);
    if i >= toks.len() {
        Err(stalled(toks, i))
    } else {
        match expression(toks, i + 1, 0) {
            Err(f) => Err(f),
            Ok((condition, j)) => if forward(toks, i, j) {
                match block(toks, j) {
                    Err(f) => Err(f),
                    Ok((then_body, k)) => {
                        let k2 = skip_newlines(toks, k);
                        if is_kind(toks, k2, TokenKind::Else) {
                            let k3 = k2 + 1;
                            if !forward(toks, i, k3) {
                                Err(stalled(toks, k3))
                            } else if is_kind(toks, k3, TokenKind::If) {
                                match if_stmt(toks, k3) {
                                    Err(f) => Err(f),
                                    Ok((elif, m)) => Ok((SStmt::If { condition, then_body, else_body: Some(seq![elif]), location }, m)),
                                }
                            } else {
                                match block(toks, k3) {
                                    Err(f) => Err(f),
                                    Ok((else_body, m)) => Ok((SStmt::If { condition, then_body, else_body: Some(else_body), location }, m)),
                                }
                            }
                        } else if is_kind(toks, k2, TokenKind::Elif) {
                            // `elif cond { ... }`: an else branch holding an `if`
                            if !forward(toks, i, k2) {
                                Err(stalled(toks, k2))
                            } else {
                                match if_stmt(toks, k2) {
                                    Err(f) => Err(f),
                                    Ok((elif, m)) => Ok((SStmt::If { condition, then_body, else_body: Some(seq![elif]), location }, m)),
                                }
                            }
                        } else {
                            Ok((SStmt::If { condition, then_body, else_body: None, location }, k2))
                        }
                    },
                }
            } else {
                Err(stalled(toks, j))
            },
        }
    }
}

/// `while cond { ... }` at `i`.
pub open spec fn while_stmt(toks: Seq<TokenView>, i: nat) -> Result<(SStmt, nat), ParseFail>
    decreases toks.len() - i, 8nat,
{
    let location = loc_at(toks, i);
    if i >= toks.len() {
        Err(stalled(toks, i))
    } else {
        match expression(toks, i + 1, 0) {
            Err(f) => Err(f),
            Ok((condition, j)) => if forward(toks, i, j) {
                match block(toks, j) {
                    Err(f) => Err(f),
                    Ok((body, k)) => Ok((SStmt::While { condition, body, location }, k)),
                }
            } else {
                Err(stalled(toks, j))
            },
        }
    }
}

/// `for name in expr { ... }` at `i`.
pub open spec fn for_stmt(toks: Seq<TokenView>, i: nat) -> Result<(SStmt, nat), ParseFail>
    decreases toks.len() - i, 8nat,
{
    let location = loc_at(toks, i);
    match kind_at(toks, i + 1) {
        KindView::Identifier(variable) => match expect(toks, i + 2, TokenKind::In) {
            Err(f) => Err(f),
            Ok(m) => match expression(toks, m, 0) {
                Err(f) => Err(f),
                Ok((iterable, j)) => if forward(toks, i, j) {
                    match block(toks, j) {
                        Err(f) => Err(f),
                        Ok((body, k)) => Ok((SStmt::For { variable, iterable, body, location }, k)),
                    }
                } else {
                    Err(stalled(toks, j))
                },
            },
        },
        _ => Err(fail("Expected variable name after 'for'"@, loc_at(toks, i + 1), i + 1)),
    }
}

/// `return` with an optional value, at `i`.
pub open spec fn return_stmt(toks: Seq<TokenView>, i: nat) -> Result<(SStmt, nat), ParseFail>
    decreases toks.len() - i, 8nat,
{
    let location = loc_at(toks, i);
    let k = i + 1;
    if is_kind(toks, k, TokenKind::Newline) || is_kind(toks, k, TokenKind::RBrace) || is_kind(toks, k, TokenKind::Eof) {
        Ok((SStmt::Return { value: None, location }, k))
    } else if i >= toks.len() {
        Err(stalled(toks, i))
    } else {
        match expression(toks, k, 0) {
            Err(f) => Err(f),
            Ok((value, j)) => Ok((SStmt::Return { value: Some(value), location }, j)),
        }
    }
}

/// `throw expr` at `i`.
pub open spec fn throw_stmt(toks: Seq<TokenView>, i: nat) -> Result<(SStmt, nat), ParseFail>
    decreases toks.len() - i, 8nat,
{
    let location = loc_at(toks, i);
    if i >= toks.len() {
        Err(stalled(toks, i))
    } else {
        match expression(toks, i + 1, 0) {
            Err(f) => Err(f),
            Ok((value, j)) => Ok((SStmt::Throw { value, location }, j)),
        }
    }
}

/// `try { ... } catch (name) { ... }` at `i`.
pub open spec fn try_stmt(toks: Seq<TokenView>, i: nat) -> Result<(SStmt, nat), ParseFail>
    decreases toks.len() - i, 8nat,
{
    let location = loc_at(toks, i);
    if i >= toks.len() {
        Err(stalled(toks, i))
    } else {
        match block(toks, i + 1) {
            Err(f) => Err(f),
            Ok((try_body, k)) => match expect(toks, skip_newlines(toks, k), TokenKind::Catch) {
                Err(f) => Err(f),
                Ok(m) => match expect(toks, m, TokenKind::LParen) {
                    Err(f) => Err(f),
                    Ok(m2) => match kind_at(toks, m2) {
                        KindView::Identifier(catch_var) => match expect(toks, m2 + 1, TokenKind::RParen) {
                            Err(f) => Err(f),
                            Ok(m3) => if forward(toks, i, m3) {
                                match block(toks, m3) {
                                    Err(f) => Err(f),
                                    Ok((catch_body, m4)) => Ok((SStmt::TryCatch { try_body, catch_var, catch_body, location }, m4)),
                                }
                            } else {
                                Err(stalled(toks, m3))
                            },
                        },
                        _ => Err(fail("Expected variable name after 'catch ('"@, loc_at(toks, m2), m2)),
                    },
                },
            },
        }
    }
}

/// `class Name { ... }` at `i`.
pub open spec fn class_def(toks: Seq<TokenView>, i: nat) -> Result<(SStmt, nat), ParseFail>
    decreases toks.len() - i, 8nat,
{
    let location = loc_at(toks, i);
    match kind_at(toks, i + 1) {
        KindView::Identifier(name) => if forward(toks, i, i + 2) {
            match block(toks, i + 2) {
                Err(f) => Err(f),
                Ok((methods, k)) => Ok((SStmt::ClassDef { name, methods, location }, k)),
            }
        } else {
            Err(stalled(toks, i + 2))
        },
        _ => Err(fail("Expected class name after 'class'"@, loc_at(toks, i + 1), i + 1)),
    }
}

/// `print expr` at `i`.
pub open spec fn print_stmt(toks: Seq<TokenView>, i: nat) -> Result<(SStmt, nat), ParseFail>
    decreases toks.len() - i, 8nat,
{
    let location = loc_at(toks, i);
    if i >= toks.len() {
        Err(stalled(toks, i))
    } else {
        match expression(toks, i + 1, 0) {
            Err(f) => Err(f),
            Ok((value, j)) => Ok((SStmt::Print { value, location }, j)),
        }
    }
}

/// The compound assignment operator a token kind stands for.
pub open spec fn compound_op_of(k: KindView) -> Option<CompoundOp> {
    match k {
        KindView::Plain(t) => match t {
            TokenKind::PlusEquals => Some(CompoundOp::Add),
            TokenKind::MinusEquals => Some(CompoundOp::Subtract),
            TokenKind::StarEquals => Some(CompoundOp::Multiply),
            TokenKind::SlashEquals => Some(CompoundOp::Divide),
            _ => None,
        },
        _ => None,
    }
}

/// `name = expr`, `name op= expr` (`+=`, `-=`, `*=`, `/=`), or an
/// expression statement, at `i`.
pub open spec fn assignment_or_expr(toks: Seq<TokenView>, i: nat) -> Result<(SStmt, nat), ParseFail>
    decreases toks.len() - i, 8nat,
{
    let location = loc_at(toks, i);
    match expression(toks, i, 0) {
        Err(f) => Err(f),
        Ok((e, j)) => if is_kind(toks, j, TokenKind::Equals) {
            match e {
                SExpr::Ident { name, .. } => if forward(toks, i, j + 1) {
                    match expression(toks, j + 1, 0) {
                        Err(f) => Err(f),
                        Ok((value, k)) => Ok((SStmt::Assign { name, value, location }, k)),
                    }
                } else {
                    Err(stalled(toks, j))
                },
                _ => Err(fail("Invalid assignment target"@, location, j + 1)),
            }
        } else if compound_op_of(kind_at(toks, j)) is Some {
            let op = compound_op_of(kind_at(toks, j))->Some_0;
            match e {
                SExpr::Ident { name, .. } => if forward(toks, i, j + 1) {
                    match expression(toks, j + 1, 0) {
                        Err(f) => Err(f),
                        Ok((value, k)) => Ok((SStmt::Compound { name, op, value, location }, k)),
                    }
                } else {
                    Err(stalled(toks, j))
                },
                _ => Err(fail("Invalid assignment target"@, location, j + 1)),
            }
        } else {
            Ok((SStmt::ExprStmt { expr: e, location }, j))
        },
    }
}

/// An expression at `i` whose operators bind tighter than level `min`.
pub open spec fn expression(toks: Seq<TokenView>, i: nat, min: nat) -> Result<(SExpr, nat), ParseFail>
    decreases toks.len() - i, 7nat,
{
    match prefix(toks, i) {
        Err(f) => Err(f),
        Ok((left, j)) => if forward(toks, i, j) {
            infix_chain(toks, left, j, min)
        } else {
            Err(stalled(toks, j))
        },
    }
}

/// The operators that follow `left` at `j` and bind tighter than `min`.
pub open spec fn infix_chain(toks: Seq<TokenView>, left: SExpr, j: nat, min: nat) -> Result<(SExpr, nat), ParseFail>
    decreases toks.len() - j, 4nat,
{
    let k = kind_at(toks, j);
    if k == KindView::Plain(TokenKind::Eof) || precedence(k) <= min {
        Ok((left, j))
    } else {
        match infix(toks, left, j, precedence(k)) {
            Err(f) => Err(f),
            Ok((e, m)) => if forward(toks, j, m) {
                infix_chain(toks, e, m, min)
            } else {
                Err(stalled(toks, m))
            },
        }
    }
}

/// A prefix expression at `i`: a literal (`null` among them), an
/// identifier or `self`, a unary operation, a parenthesised expression, a
/// list, a dictionary, or `new Name(args)`.
pub open spec fn prefix(toks: Seq<TokenView>, i: nat) -> Result<(SExpr, nat), ParseFail>
    decreases toks.len() - i, 6nat,
{
    let location = loc_at(toks, i);
    match kind_at(toks, i) {
        KindView::NumberLiteral(n) => Ok((SExpr::Number { value: n, location }, i + 1)),
        KindView::StringLiteral(s) => Ok((
            if has_placeholder(s) { interpolation(s, location) } else { SExpr::Str { value: s, location } },
            i + 1,
        )),
        KindView::Identifier(name) => Ok((SExpr::Ident { name, location }, i + 1)),
        KindView::Plain(t) => match t {
            TokenKind::True => Ok((SExpr::Bool { value: true, location }, i + 1)),
            TokenKind::Self_ => Ok((SExpr::Ident { name: "self"@, location }, i + 1)),
            TokenKind::False => Ok((SExpr::Bool { value: false, location }, i + 1)),
            TokenKind::Minus => match expression(toks, i + 1, 7) {
                Err(f) => Err(f),
                Ok((operand, j)) => Ok((SExpr::Unary { op: UnaryOperator::Negate, operand: Box::new(operand), location }, j)),
            },
            TokenKind::Not => match expression(toks, i + 1, 7) {
                Err(f) => Err(f),
                Ok((operand, j)) => Ok((SExpr::Unary { op: UnaryOperator::Not, operand: Box::new(operand), location }, j)),
            },
            TokenKind::LParen => match expression(toks, i + 1, 0) {
                Err(f) => Err(f),
                Ok((e, j)) => match expect(toks, j, TokenKind::RParen) {
                    Err(f) => Err(f),
                    Ok(k) => Ok((e, k)),
                },
            },
            TokenKind::LBracket => list_literal(toks, i),
            TokenKind::LBrace => dict_literal(toks, i),
            TokenKind::Null => Ok((SExpr::Null { location }, i + 1)),
            TokenKind::New => match kind_at(toks, i + 1) {
                KindView::Identifier(class_name) => if is_kind(toks, i + 2, TokenKind::LParen) {
                    match arg_list(toks, i + 3) {
                        Err(f) => Err(f),
                        Ok((args, j)) => match expect(toks, j, TokenKind::RParen) {
                            Err(f) => Err(f),
                            Ok(m) => Ok((SExpr::New { class_name, args, location }, m)),
                        },
                    }
                } else {
                    Err(fail("Expected "@ + kind_text(KindView::Plain(TokenKind::LParen)) + ", found "@ + kind_text(kind_at(toks, i + 2)), loc_at(toks, i + 2), i + 2))
                },
                _ => Err(fail("Expected class name after 'new'"@, loc_at(toks, i + 1), i + 1)),
            },
            _ => Err(fail("Unexpected token in expression: "@ + kind_text(kind_at(toks, i)), location, i)),
        },
    }
}

/// The operator or postfix at `i` applied to `left`; `prec` is its level.
pub open spec fn infix(toks: Seq<TokenView>, left: SExpr, i: nat, prec: nat) -> Result<(SExpr, nat), ParseFail>
    decreases toks.len() - i, 3nat,
{
    let location = loc_at(toks, i);
    let k = kind_at(toks, i);
    match binary_op_of(k) {
        Some(op) => match expression(toks, i + 1, prec) {
            Err(f) => Err(f),
            Ok((right, j)) => Ok((SExpr::Binary { left: Box::new(left), op, right: Box::new(right), location }, j)),
        },
        None => if k == KindView::Plain(TokenKind::LParen) {
            match arg_list(toks, i + 1) {
                Err(f) => Err(f),
                Ok((args, j)) => match expect(toks, j, TokenKind::RParen) {
                    Err(f) => Err(f),
                    Ok(m) => Ok((SExpr::Call { callee: Box::new(left), args, location }, m)),
                },
            }
        } else if k == KindView::Plain(TokenKind::LBracket) {
            match expression(toks, i + 1, 0) {
                Err(f) => Err(f),
                Ok((index, j)) => match expect(toks, j, TokenKind::RBracket) {
                    Err(f) => Err(f),
                    Ok(m) => Ok((SExpr::Index { object: Box::new(left), index: Box::new(index), location }, m)),
                },
            }
        } else if k == KindView::Plain(TokenKind::Dot) {
            match kind_at(toks, i + 1) {
                KindView::Identifier(member) => if is_kind(toks, i + 2, TokenKind::LParen) {
                    // A method call: `object.member(args)`
                    match arg_list(toks, i + 3) {
                        Err(f) => Err(f),
                        Ok((args, j)) => match expect(toks, j, TokenKind::RParen) {
                            Err(f) => Err(f),
                            Ok(m) => Ok((SExpr::MethodCall { object: Box::new(left), method: member, args, location }, m)),
                        },
                    }
                } else {
                    Ok((SExpr::Member { object: Box::new(left), member, location }, i + 2))
                },
                _ => Err(fail("Expected member name after '.'"@, loc_at(toks, i + 1), i + 1)),
            }
        } else {
            Err(fail("Unexpected infix token: "@ + kind_text(k), location, i))
        },
    }
}

/// The arguments of a call at `i`: empty before `)`.
pub open spec fn arg_list(toks: Seq<TokenView>, i: nat) -> Result<(Seq<SExpr>, nat), ParseFail>
    decreases toks.len() - i, 9nat,
{
    if is_kind(toks, i, TokenKind::RParen) { Ok((Seq::empty(), i)) } else { args_from(toks, i, Seq::empty()) }
}

/// Comma-separated expressions from `i` on, after `acc`; newlines around
/// each are skipped.
pub open spec fn args_from(toks: Seq<TokenView>, i: nat, acc: Seq<SExpr>) -> Result<(Seq<SExpr>, nat), ParseFail>
    decreases toks.len() - i, 8nat,
{
    let j = skip_newlines(toks, i);
    proof { lemma_skip_newlines(toks, i); }
    match expression(toks, j, 0) {
        Err(f) => Err(f),
        Ok((a, k)) => {
            let k2 = skip_newlines(toks, k);
            if is_kind(toks, k2, TokenKind::Comma) {
                if forward(toks, i, k2 + 1) { args_from(toks, k2 + 1, acc.push(a)) } else { Err(stalled(toks, k2)) }
            } else {
                Ok((acc.push(a), k2))
            }
        },
    }
}

/// A list literal `[a, b, ...]` at `i`.
pub open spec fn list_literal(toks: Seq<TokenView>, i: nat) -> Result<(SExpr, nat), ParseFail>
    decreases toks.len() - i, 5nat,
{
    let location = loc_at(toks, i);
    if i >= toks.len() {
        Err(stalled(toks, i))
    } else {
        let j = skip_newlines(toks, i + 1);
        proof { lemma_skip_newlines(toks, i + 1); }
        let elems = if is_kind(toks, j, TokenKind::RBracket) { Ok((Seq::empty(), j)) } else { elements_from(toks, j, Seq::empty()) };
        match elems {
            Err(f) => Err(f),
            Ok((elements, k)) => match expect(toks, skip_newlines(toks, k), TokenKind::RBracket) {
                Err(f) => Err(f),
                Ok(m) => Ok((SExpr::List { elements, location }, m)),
            },
        }
    }
}

/// The elements of a list from `i` on, after `acc`.
pub open spec fn elements_from(toks: Seq<TokenView>, i: nat, acc: Seq<SExpr>) -> Result<(Seq<SExpr>, nat), ParseFail>
    decreases toks.len() - i, 8nat,
{
    let j = skip_newlines(toks, i);
    proof { lemma_skip_newlines(toks, i); }
    match expression(toks, j, 0) {
        Err(f) => Err(f),
        Ok((e, k)) => {
            let k2 = skip_newlines(toks, k);
            if is_kind(toks, k2, TokenKind::Comma) {
                if forward(toks, i, k2 + 1) { elements_from(toks, k2 + 1, acc.push(e)) } else { Err(stalled(toks, k2)) }
            } else {
                Ok((acc.push(e), k2))
            }
        },
    }
}

/// A dictionary literal `{k: v, ...}` at `i`.
pub open spec fn dict_literal(toks: Seq<TokenView>, i: nat) -> Result<(SExpr, nat), ParseFail>
    decreases toks.len() - i, 5nat,
{
    let location = loc_at(toks, i);
    if i >= toks.len() {
        Err(stalled(toks, i))
    } else {
        let j = skip_newlines(toks, i + 1);
        proof { lemma_skip_newlines(toks, i + 1); }
        let ents = if is_kind(toks, j, TokenKind::RBrace) { Ok((Seq::empty(), j)) } else { entries_from(toks, j, Seq::empty()) };
        match ents {
            Err(f) => Err(f),
            Ok((entries, k)) => match expect(toks, skip_newlines(toks, k), TokenKind::RBrace) {
                Err(f) => Err(f),
                Ok(m) => Ok((SExpr::Dict { entries, location }, m)),
            },
        }
    }
}

/// The entries of a dictionary from `i` on, after `acc`.
pub open spec fn entries_from(toks: Seq<TokenView>, i: nat, acc: Seq<(SExpr, SExpr)>) -> Result<(Seq<(SExpr, SExpr)>, nat), ParseFail>
    decreases toks.len() - i, 8nat,
{
    let j = skip_newlines(toks, i);
    proof { lemma_skip_newlines(toks, i); }
    match expression(toks, j, 0) {
        Err(f) => Err(f),
        Ok((key, k)) => match expect(toks, k, TokenKind::Colon) {
            Err(f) => Err(f),
            Ok(k2) => {
                let k3 = skip_newlines(toks, k2);
                proof { lemma_skip_newlines(toks, k2); }
                if forward(toks, i, k3) {
                    match expression(toks, k3, 0) {
                        Err(f) => Err(f),
                        Ok((value, m)) => {
                            let m2 = skip_newlines(toks, m);
                            if is_kind(toks, m2, TokenKind::Comma) {
                                if forward(toks, i, m2 + 1) {
                                    entries_from(toks, m2 + 1, acc.push((key, value)))
                                } else {
                                    Err(stalled(toks, m2))
                                }
                            } else {
                                Ok((acc.push((key, value)), m2))
                            }
                        },
                    }
                } else {
                    Err(stalled(toks, k3))
                }
            },
        },
    }
}

/// The statements of a program from `i` on, after `acc`, up to the end of
/// input.
pub open spec fn program_from(toks: Seq<TokenView>, i: nat, acc: Seq<SStmt>) -> Result<(Seq<SStmt>, nat), ParseFail>
    decreases toks.len() - i,
{
    if is_kind(toks, i, TokenKind::Eof) {
        Ok((acc, i))
    } else {
        match statement(toks, i) {
            Err(f) => Err(f),
            Ok((s, j)) => if forward(toks, i, j) {
                proof { lemma_skip_newlines(toks, j); }
                program_from(toks, skip_newlines(toks, j), acc.push(s))
            } else {
                Err(stalled(toks, j))
            },
        }
    }
}

/// The program that the tokens from `i` on spell.
pub open spec fn program(toks: Seq<TokenView>, i: nat) -> Result<(Seq<SStmt>, nat), ParseFail> {
    program_from(toks, skip_newlines(toks, i), Seq::empty())
}


// ──────────────────────────────────────────────
//  Results
// ──────────────────────────────────────────────

/// Whether `e` is the parse error `f`.
pub open spec fn parse_error_is(e: KelpyError, f: ParseFail) -> bool {
    match e {
        KelpyError::ParseError { message, location } => message@ == f.message && location == f.location,
        _ => false,
    }
}

/// Whether `res`, with the parser left at `pos`, is the outcome `r`.
pub open spec fn gives_expr(res: KelpyResult<Expr>, r: Result<(SExpr, nat), ParseFail>, pos: nat) -> bool {
    match r {
        Ok((v, j)) => res matches Ok(e) && e@ == v && pos == j,
        Err(f) => res matches Err(e) && parse_error_is(e, f) && pos == f.at,
    }
}

pub open spec fn gives_stmt(res: KelpyResult<Statement>, r: Result<(SStmt, nat), ParseFail>, pos: nat) -> bool {
    match r {
        Ok((v, j)) => res matches Ok(s) && s@ == v && pos == j,
        Err(f) => res matches Err(e) && parse_error_is(e, f) && pos == f.at,
    }
}

pub open spec fn gives_stmts(res: KelpyResult<Vec<Statement>>, r: Result<(Seq<SStmt>, nat), ParseFail>, pos: nat) -> bool {
    match r {
        Ok((v, j)) => res matches Ok(s) && stmts_model(s) == v && pos == j,
        Err(f) => res matches Err(e) && parse_error_is(e, f) && pos == f.at,
    }
}

pub open spec fn gives_exprs(res: KelpyResult<Vec<Expr>>, r: Result<(Seq<SExpr>, nat), ParseFail>, pos: nat) -> bool {
    match r {
        Ok((v, j)) => res matches Ok(s) && exprs_model(s) == v && pos == j,
        Err(f) => res matches Err(e) && parse_error_is(e, f) && pos == f.at,
    }
}

pub open spec fn gives_names(res: KelpyResult<Vec<String>>, r: Result<(Seq<Seq<char>>, nat), ParseFail>, pos: nat) -> bool {
    match r {
        Ok((v, j)) => res matches Ok(s) && strings_model(s) == v && pos == j,
        Err(f) => res matches Err(e) && parse_error_is(e, f) && pos == f.at,
    }
}

pub open spec fn gives_pos(res: KelpyResult<()>, r: Result<nat, ParseFail>, pos: nat) -> bool {
    match r {
        Ok(j) => res is Ok && pos == j,
        Err(f) => res matches Err(e) && parse_error_is(e, f) && pos == f.at,
    }
}

pub proof fn lemma_eof_from(toks: Seq<TokenView>, i: nat)
    requires
        i <= toks.len(),
    ensures
        i <= eof_from(toks, i) <= toks.len(),
        forall|j: nat| i <= j < eof_from(toks, i) ==> !is_kind(toks, j, TokenKind::Eof),
        eof_from(toks, i) < toks.len() ==> is_kind(toks, eof_from(toks, i), TokenKind::Eof),
    decreases toks.len() - i,
{
    if i < toks.len() && toks[i as int].kind != KindView::Plain(TokenKind::Eof) {
        lemma_eof_from(toks, i + 1);
    }
}

/// A token that is not the end of input is followed by another token.
pub proof fn lemma_step(toks: Seq<TokenView>, pos: nat)
    requires
        stream_ok(toks),
        pos <= eof_from(toks, 0),
        !is_kind(toks, pos, TokenKind::Eof),
    ensures
        pos + 1 <= eof_from(toks, 0),
        pos + 1 < toks.len(),
{
    lemma_eof_from(toks, 0);
}

// ──────────────────────────────────────────────
//  Laws
// ──────────────────────────────────────────────

/// The tokens of a source that lexes without error form a stream that the
/// parser accepts: a parser made from them satisfies `wf`.
pub proof fn lemma_lexed_stream_ok(src: Seq<char>, toks: Seq<Token>)
    requires
        lex_from(src, 0) matches LexOutcome::Tokens { tokens, .. } && tokens_match(toks, tokens, src),
    ensures
        stream_ok(tokens_model(toks)),
{
    lemma_lex_stream(src, 0);
    let t = tokens_model(toks);
    lemma_eof_from(t, 0);
    if t.len() > 0 && eof_from(t, 0) == t.len() {
        let last = (t.len() - 1) as nat;
        assert(is_kind(t, last, TokenKind::Eof));
    }
}

/// A successful parse reads the tokens up to the end of input: the
/// position it stops at holds `Eof`.
pub proof fn lemma_parse_reaches_eof(toks: Seq<TokenView>, i: nat, acc: Seq<SStmt>)
    ensures
        program_from(toks, i, acc) matches Ok((_, j)) ==> is_kind(toks, j, TokenKind::Eof),
    decreases toks.len() - i,
{
    if !is_kind(toks, i, TokenKind::Eof) {
        match statement(toks, i) {
            Ok((s, j)) => {
                if forward(toks, i, j) {
                    lemma_skip_newlines(toks, j);
                    lemma_parse_reaches_eof(toks, skip_newlines(toks, j), acc.push(s));
                }
            },
            Err(_) => {},
        }
    }
}

/// The identifier expression that the identifier token at `i` stands for.
pub open spec fn ident_at(toks: Seq<TokenView>, i: nat) -> SExpr {
    SExpr::Ident { name: kind_at(toks, i)->Identifier_0, location: loc_at(toks, i) }
}

/// The binary operation of `left` and `right` by the operator token at `i`.
pub open spec fn binary_at(toks: Seq<TokenView>, left: SExpr, i: nat, right: SExpr) -> SExpr {
    SExpr::Binary { left: Box::new(left), op: binary_op_of(kind_at(toks, i))->Some_0, right: Box::new(right), location: loc_at(toks, i) }
}

/// Operator precedence and associativity: in `a op1 b op2 c` (three
/// identifiers and two binary operators, followed by a token that is no
/// operator), `op2` takes `b` when it binds tighter than `op1`; otherwise,
/// and in particular for two operators of one level, the operation on the
/// left is grouped first.
pub proof fn lemma_binary_grouping(toks: Seq<TokenView>)
    requires
        kind_at(toks, 0) is Identifier,
        binary_op_of(kind_at(toks, 1)) is Some,
        kind_at(toks, 2) is Identifier,
        binary_op_of(kind_at(toks, 3)) is Some,
        kind_at(toks, 4) is Identifier,
        precedence(kind_at(toks, 5)) == 0,
        toks.len() >= 6,
    ensures
        precedence(kind_at(toks, 3)) > precedence(kind_at(toks, 1)) ==> expression(toks, 0, 0) == Ok::<(SExpr, nat), ParseFail>((
            binary_at(toks, ident_at(toks, 0), 1, binary_at(toks, ident_at(toks, 2), 3, ident_at(toks, 4))), 5)),
        precedence(kind_at(toks, 3)) <= precedence(kind_at(toks, 1)) ==> expression(toks, 0, 0) == Ok::<(SExpr, nat), ParseFail>((
            binary_at(toks, binary_at(toks, ident_at(toks, 0), 1, ident_at(toks, 2)), 3, ident_at(toks, 4)), 5)),
{
    let p1 = precedence(kind_at(toks, 1));
    let p2 = precedence(kind_at(toks, 3));
    let a = ident_at(toks, 0);
    let b = ident_at(toks, 2);
    let c = ident_at(toks, 4);
    assert(p1 > 0 && p2 > 0);
    assert(prefix(toks, 0) == Ok::<(SExpr, nat), ParseFail>((a, 1)));
    assert(prefix(toks, 2) == Ok::<(SExpr, nat), ParseFail>((b, 3)));
    assert(prefix(toks, 4) == Ok::<(SExpr, nat), ParseFail>((c, 5)));
    // `c` ends every chain: the token after it is no operator.
    assert(infix_chain(toks, c, 5, p2) == Ok::<(SExpr, nat), ParseFail>((c, 5)));
    assert(expression(toks, 4, p2) == Ok::<(SExpr, nat), ParseFail>((c, 5)));
    let bc = binary_at(toks, b, 3, c);
    assert(infix(toks, b, 3, p2) == Ok::<(SExpr, nat), ParseFail>((bc, 5)));
    if p2 > p1 {
        assert(infix_chain(toks, bc, 5, p1) == Ok::<(SExpr, nat), ParseFail>((bc, 5)));
        assert(infix_chain(toks, b, 3, p1) == Ok::<(SExpr, nat), ParseFail>((bc, 5)));
        assert(expression(toks, 2, p1) == Ok::<(SExpr, nat), ParseFail>((bc, 5)));
        let abc = binary_at(toks, a, 1, bc);
        assert(infix(toks, a, 1, p1) == Ok::<(SExpr, nat), ParseFail>((abc, 5)));
        assert(infix_chain(toks, abc, 5, 0) == Ok::<(SExpr, nat), ParseFail>((abc, 5)));
        assert(infix_chain(toks, a, 1, 0) == Ok::<(SExpr, nat), ParseFail>((abc, 5)));
    } else {
        assert(infix_chain(toks, b, 3, p1) == Ok::<(SExpr, nat), ParseFail>((b, 3)));
        assert(expression(toks, 2, p1) == Ok::<(SExpr, nat), ParseFail>((b, 3)));
        let ab = binary_at(toks, a, 1, b);
        assert(infix(toks, a, 1, p1) == Ok::<(SExpr, nat), ParseFail>((ab, 3)));
        assert(infix_chain(toks, c, 5, p2) == Ok::<(SExpr, nat), ParseFail>((c, 5)));
        let abc = binary_at(toks, ab, 3, c);
        assert(infix(toks, ab, 3, p2) == Ok::<(SExpr, nat), ParseFail>((abc, 5)));
        assert(infix_chain(toks, abc, 5, 0) == Ok::<(SExpr, nat), ParseFail>((abc, 5)));
        assert(infix_chain(toks, ab, 3, 0) == Ok::<(SExpr, nat), ParseFail>((abc, 5)));
        assert(infix_chain(toks, a, 1, 0) == Ok::<(SExpr, nat), ParseFail>((abc, 5)));
    }
}

/// The operator table: the level at which each binary operator binds and
/// the operation it stands for.  `or` 1, `and` 2, `==` `!=` 3, `<` `<=` `>`
/// `>=` 4, `+` `-` 5, `*` `/` `%` 6; calls, indexing and member access 8;
/// every other token 0 (it ends an expression).
pub proof fn lemma_operator_table()
    ensures
        precedence(KindView::Plain(TokenKind::Or)) == 1,
        precedence(KindView::Plain(TokenKind::And)) == 2,
        precedence(KindView::Plain(TokenKind::EqualEqual)) == 3,
        precedence(KindView::Plain(TokenKind::NotEqual)) == 3,
        precedence(KindView::Plain(TokenKind::LessThan)) == 4,
        precedence(KindView::Plain(TokenKind::LessEqual)) == 4,
        precedence(KindView::Plain(TokenKind::GreaterThan)) == 4,
        precedence(KindView::Plain(TokenKind::GreaterEqual)) == 4,
        precedence(KindView::Plain(TokenKind::Plus)) == 5,
        precedence(KindView::Plain(TokenKind::Minus)) == 5,
        precedence(KindView::Plain(TokenKind::Star)) == 6,
        precedence(KindView::Plain(TokenKind::Slash)) == 6,
        precedence(KindView::Plain(TokenKind::Percent)) == 6,
        precedence(KindView::Plain(TokenKind::LParen)) == 8,
        precedence(KindView::Plain(TokenKind::LBracket)) == 8,
        precedence(KindView::Plain(TokenKind::Dot)) == 8,
        precedence(KindView::Plain(TokenKind::Equals)) == 0,
        precedence(KindView::Plain(TokenKind::Newline)) == 0,
        precedence(KindView::Plain(TokenKind::Eof)) == 0,
        binary_op_of(KindView::Plain(TokenKind::Or)) == Some(BinaryOperator::Or),
        binary_op_of(KindView::Plain(TokenKind::And)) == Some(BinaryOperator::And),
        binary_op_of(KindView::Plain(TokenKind::EqualEqual)) == Some(BinaryOperator::Equal),
        binary_op_of(KindView::Plain(TokenKind::NotEqual)) == Some(BinaryOperator::NotEqual),
        binary_op_of(KindView::Plain(TokenKind::LessThan)) == Some(BinaryOperator::LessThan),
        binary_op_of(KindView::Plain(TokenKind::LessEqual)) == Some(BinaryOperator::LessEqual),
        binary_op_of(KindView::Plain(TokenKind::GreaterThan)) == Some(BinaryOperator::GreaterThan),
        binary_op_of(KindView::Plain(TokenKind::GreaterEqual)) == Some(BinaryOperator::GreaterEqual),
        binary_op_of(KindView::Plain(TokenKind::Plus)) == Some(BinaryOperator::Add),
        binary_op_of(KindView::Plain(TokenKind::Minus)) == Some(BinaryOperator::Subtract),
        binary_op_of(KindView::Plain(TokenKind::Star)) == Some(BinaryOperator::Multiply),
        binary_op_of(KindView::Plain(TokenKind::Slash)) == Some(BinaryOperator::Divide),
        binary_op_of(KindView::Plain(TokenKind::Percent)) == Some(BinaryOperator::Modulo),
{
}

/// A factor operator (`*`, `/`, `%`) binds tighter than a term operator
/// (`+`, `-`): for any identifiers `a`, `b`, `c`, `a + b % c` (and each
/// such pair of operators) parses as `a + (b % c)`, and `a % b + c` as
/// `(a % b) + c`.
pub proof fn lemma_factor_binds_tighter_than_term(toks: Seq<TokenView>)
    requires
        kind_at(toks, 0) is Identifier,
        kind_at(toks, 2) is Identifier,
        kind_at(toks, 4) is Identifier,
        precedence(kind_at(toks, 5)) == 0,
        toks.len() >= 6,
    ensures
        (kind_at(toks, 1) == KindView::Plain(TokenKind::Plus) || kind_at(toks, 1) == KindView::Plain(TokenKind::Minus))
            && (kind_at(toks, 3) == KindView::Plain(TokenKind::Star) || kind_at(toks, 3) == KindView::Plain(TokenKind::Slash)
                || kind_at(toks, 3) == KindView::Plain(TokenKind::Percent))
            ==> expression(toks, 0, 0) == Ok::<(SExpr, nat), ParseFail>((
                binary_at(toks, ident_at(toks, 0), 1, binary_at(toks, ident_at(toks, 2), 3, ident_at(toks, 4))), 5)),
        (kind_at(toks, 1) == KindView::Plain(TokenKind::Star) || kind_at(toks, 1) == KindView::Plain(TokenKind::Slash)
                || kind_at(toks, 1) == KindView::Plain(TokenKind::Percent))
            && (kind_at(toks, 3) == KindView::Plain(TokenKind::Plus) || kind_at(toks, 3) == KindView::Plain(TokenKind::Minus))
            ==> expression(toks, 0, 0) == Ok::<(SExpr, nat), ParseFail>((
                binary_at(toks, binary_at(toks, ident_at(toks, 0), 1, ident_at(toks, 2)), 3, ident_at(toks, 4)), 5)),
{
    lemma_operator_table();
    if binary_op_of(kind_at(toks, 1)) is Some && binary_op_of(kind_at(toks, 3)) is Some {
        lemma_binary_grouping(toks);
    }
}

/// The text that a part of an interpolated string stands for: a literal's
/// own text, or `{$name}` for the identifier it reads.
pub open spec fn part_text(p: SPart) -> Seq<char> {
    match p {
        SPart::Literal(t) => t,
        SPart::Expression(SExpr::Ident { name, .. }) => "{$"@ + name + "}"@,
        SPart::Expression(_) => Seq::empty(),
    }
}

/// The text of a sequence of parts, in order.
pub open spec fn parts_text(ps: Seq<SPart>) -> Seq<char>
    decreases ps.len(),
{
    if ps.len() == 0 { Seq::empty() } else { parts_text(ps.drop_last()) + part_text(ps.last()) }
}

/// Every `{$` in `s` is closed by a `}` somewhere after it.
pub open spec fn placeholders_closed(s: Seq<char>) -> bool {
    forall|k: int| #[trigger] placeholder_at(s, k) ==> exists|j: int| k + 2 <= j < s.len() && s[j] == '}'
}

proof fn lemma_parts_text_push(ps: Seq<SPart>, p: SPart)
    ensures
        parts_text(ps.push(p)) == parts_text(ps) + part_text(p),
{
    assert(ps.push(p).drop_last() =~= ps);
}

proof fn lemma_interpolation_text(s: Seq<char>, i: nat, cur: Seq<char>, parts: Seq<SPart>, location: SourceLocation)
    requires
        i <= s.len(),
        placeholders_closed(s),
    ensures
        parts_text(interpolation_parts(s, i, cur, parts, location)) == parts_text(parts) + cur + s.skip(i as int),
    decreases s.len() - i,
{
    if i >= s.len() {
        assert(s.skip(i as int) =~= Seq::<char>::empty());
        if cur.len() > 0 {
            lemma_parts_text_push(parts, SPart::Literal(cur));
        }
        assert(parts_text(parts) + cur + s.skip(i as int) =~= parts_text(parts) + cur);
        assert(parts_text(parts) + Seq::<char>::empty() =~= parts_text(parts));
    } else if s[i as int] == '{' && i + 1 < s.len() && s[i + 1 as int] == '$' {
        assert(placeholder_at(s, i as int));
        lemma_close_brace(s, i + 2);
        let e = close_brace(s, i + 2);
        let j = choose|j: int| i + 2 <= j < s.len() && s[j] == '}';
        assert(e < s.len());
        let flushed = if cur.len() > 0 { parts.push(SPart::Literal(cur)) } else { parts };
        let name = s.subrange(i + 2 as int, e as int);
        let part = SPart::Expression(SExpr::Ident { name, location });
        if cur.len() > 0 {
            lemma_parts_text_push(parts, SPart::Literal(cur));
        } else {
            assert(parts_text(parts) + cur =~= parts_text(parts));
        }
        lemma_parts_text_push(flushed, part);
        lemma_interpolation_text(s, e + 1, Seq::empty(), flushed.push(part), location);
        reveal_strlit("{$");
        reveal_strlit("}");
        assert(s.skip(i as int) =~= "{$"@ + name + "}"@ + s.skip(e + 1 as int));
        assert(parts_text(flushed.push(part)) + Seq::<char>::empty() + s.skip(e + 1 as int)
            =~= parts_text(parts) + cur + s.skip(i as int));
    } else {
        lemma_interpolation_text(s, i + 1, cur.push(s[i as int]), parts, location);
        assert(parts_text(parts) + cur.push(s[i as int]) + s.skip(i + 1 as int) =~= parts_text(parts) + cur + s.skip(i as int));
    }
}

/// Interpolation loses no text: when every `{$` of `s` is closed, the
/// literal parts and `{$name}` for each identifier part, in order, spell
/// `s` again; so every run of text before, between or after the
/// placeholders is a literal part.
pub proof fn lemma_interpolation_keeps_text(s: Seq<char>, location: SourceLocation)
    requires
        placeholders_closed(s),
    ensures
        interpolation(s, location) matches SExpr::Interp { parts, .. } && parts_text(parts) == s,
{
    lemma_interpolation_text(s, 0, Seq::empty(), Seq::empty(), location);
    assert(parts_text(Seq::<SPart>::empty()) + Seq::<char>::empty() + s.skip(0) =~= s);
}

// ──────────────────────────────────────────────
//  Precedence levels
// ──────────────────────────────────────────────

/// Precedence levels for Pratt parsing.
#[derive(Debug, Clone, Copy, PartialEq, Eq, Structural)]
enum Precedence {
    Lowest,
    Or,
    And,
    Equality,
    Comparison,
    Term,
    Factor,
    Unary,
    Call,
}

spec fn level_of(p: Precedence) -> nat {
    match p {
        Precedence::Lowest => 0,
        Precedence::Or => 1,
        Precedence::And => 2,
        Precedence::Equality => 3,
        Precedence::Comparison => 4,
        Precedence::Term => 5,
        Precedence::Factor => 6,
        Precedence::Unary => 7,
        Precedence::Call => 8,
    }
}

impl Precedence {
    fn level(&self) -> (l: u8)
        ensures
            l == level_of(*self),
    {
        match self {
            Precedence::Lowest => 0,
            Precedence::Or => 1,
            Precedence::And => 2,
            Precedence::Equality => 3,
            Precedence::Comparison => 4,
            Precedence::Term => 5,
            Precedence::Factor => 6,
            Precedence::Unary => 7,
            Precedence::Call => 8,
        }
    }
}

/// The precedence of the operator a token kind stands for.
fn token_precedence(kind: &TokenKind) -> (p: Precedence)
    ensures
        level_of(p) == precedence(kind@),
{
    match kind {
        TokenKind::Or => Precedence::Or,
        TokenKind::And => Precedence::And,
        TokenKind::EqualEqual | TokenKind::NotEqual => Precedence::Equality,
        TokenKind::LessThan | TokenKind::LessEqual | TokenKind::GreaterThan | TokenKind::GreaterEqual => Precedence::Comparison,
        TokenKind::Plus | TokenKind::Minus => Precedence::Term,
        TokenKind::Star | TokenKind::Slash | TokenKind::Percent => Precedence::Factor,
        TokenKind::LParen | TokenKind::LBracket | TokenKind::Dot => Precedence::Call,
        _ => Precedence::Lowest,
    }
}

/// The compound assignment operator a token kind stands for.
fn compound_op(kind: &TokenKind) -> (r: Option<CompoundOp>)
    ensures
        r == compound_op_of(kind@),
{
    match kind {
        TokenKind::PlusEquals => Some(CompoundOp::Add),
        TokenKind::MinusEquals => Some(CompoundOp::Subtract),
        TokenKind::StarEquals => Some(CompoundOp::Multiply),
        TokenKind::SlashEquals => Some(CompoundOp::Divide),
        _ => None,
    }
}

/// Whether `{$` occurs in `s`.
fn contains_placeholder(s: &str) -> (r: bool)
    ensures
        r == has_placeholder(s@),
{
    let n = s.unicode_len();
    let mut i: usize = 0;
    while i + 1 < n
        invariant
            n == s@.len(),
            i == 0 || i < n,
            forall|j: int| 0 <= j < i ==> !placeholder_at(s@, j),
        decreases n - i,
    {
        if s.get_char(i) == '{' && s.get_char(i + 1) == '$' {
            assert(placeholder_at(s@, i as int));
            return true;
        }
        i = i + 1;
    }
    assert forall|j: int| !placeholder_at(s@, j) by {
        if 0 <= j < i {
        }
    }
    false
}

// ──────────────────────────────────────────────
//  Parser
// ──────────────────────────────────────────────

/// The parser: the tokens and the position of the next one.
pub struct Parser {
    tokens: Vec<Token>,
    pos: usize,
}

impl Parser {
    /// The models of the tokens.
    pub closed spec fn toks(&self) -> Seq<TokenView> {
        tokens_model(self.tokens@)
    }

    /// The position of the next token.
    pub closed spec fn cursor(&self) -> nat {
        self.pos as nat
    }

    /// The stream is empty or holds an end of input, and the cursor has not
    /// passed the first one.
    pub closed spec fn wf(&self) -> bool {
        &&& stream_ok(self.toks())
        &&& self.pos <= eof_from(self.toks(), 0)
    }

    /// A parser at the start of `tokens`.  Parsing a stream that holds no
    /// end of input (`Eof`) and is not empty does not end, so `parse` asks
    /// for `wf`, which holds exactly on the other streams.
    pub fn new(tokens: Vec<Token>) -> (p: Parser)
        ensures
            p.toks() == tokens_model(tokens@),
            p.cursor() == 0,
            p.wf() == stream_ok(tokens_model(tokens@)),
    {
        Parser { tokens, pos: 0 }
    }

    /// Parses the tokens from the cursor into a program.
    pub fn parse(&mut self) -> (res: KelpyResult<Program>)
        requires
            old(self).wf(),
        ensures
            final(self).wf(),
            final(self).toks() == old(self).toks(),
            match program(old(self).toks(), old(self).cursor()) {
                Ok((stmts, j)) => res matches Ok(p) && p@ == stmts && final(self).cursor() == j,
                Err(f) => res matches Err(e) && parse_error_is(e, f) && final(self).cursor() == f.at,
            },
    {
        let ghost toks = self.toks();
        let mut statements: Vec<Statement> = Vec::new();
        self.skip_newlines();
        let ghost j0 = self.pos as nat;
        assert(stmts_model(statements) =~= Seq::<SStmt>::empty());
        while !self.is_at_end()
            invariant
                self.wf(),
                self.tokens@ == old(self).tokens@,
                toks == self.toks(),
                j0 == skip_newlines(toks, old(self).pos as nat),
                program_from(toks, j0, Seq::empty()) == program_from(toks, self.pos as nat, stmts_model(statements)),
            decreases self.tokens@.len() - self.pos,
        {
            let ghost before = stmts_model(statements);
            let stmt = match self.parse_statement() {
                Ok(s) => s,
                Err(e) => {
                    return Err(e);
                },
            };
            proof { lemma_eof_from(toks, 0); }
            statements.push(stmt);
            assert(stmts_model(statements) =~= before.push(stmt@));
            self.skip_newlines();
        }
        Ok(Program { statements })
    }

    // ── Token helpers ──

    /// The kind of the next token; end of input past the last one.
    fn peek(&self) -> (k: &TokenKind)
        ensures
            k@ == kind_at(self.toks(), self.pos as nat),
    {
        if self.pos < self.tokens.len() {
            &self.tokens[self.pos].kind
        } else {
            &TokenKind::Eof
        }
    }

    /// The location of the next token; line 0, column 0 past the last one.
    fn current_location(&self) -> (l: SourceLocation)
        ensures
            l == loc_at(self.toks(), self.pos as nat),
    {
        if self.pos < self.tokens.len() {
            self.tokens[self.pos].location
        } else {
            SourceLocation { line: 0, column: 0 }
        }
    }

    /// Moves past the next token, which is not the end of input.
    fn advance(&mut self)
        requires
            old(self).wf(),
            !is_kind(old(self).toks(), old(self).pos as nat, TokenKind::Eof),
        ensures
            final(self).wf(),
            final(self).tokens@ == old(self).tokens@,
            final(self).pos == old(self).pos + 1,
    {
        proof { lemma_step(self.toks(), self.pos as nat); }
        if self.pos < self.tokens.len() - 1 {
            self.pos = self.pos + 1;
        }
    }

    fn is_at_end(&self) -> (r: bool)
        ensures
            r == is_kind(self.toks(), self.pos as nat, TokenKind::Eof),
    {
        matches!(self.peek(), TokenKind::Eof)
    }

    fn skip_newlines(&mut self)
        requires
            old(self).wf(),
        ensures
            final(self).wf(),
            final(self).tokens@ == old(self).tokens@,
            final(self).pos == skip_newlines(old(self).toks(), old(self).pos as nat),
            old(self).pos <= final(self).pos,
    {
        while matches!(self.peek(), TokenKind::Newline)
            invariant
                self.wf(),
                self.tokens@ == old(self).tokens@,
                old(self).pos <= self.pos,
                skip_newlines(self.toks(), self.pos as nat) == skip_newlines(old(self).toks(), old(self).pos as nat),
            decreases self.tokens@.len() - self.pos,
        {
            proof { lemma_step(self.toks(), self.pos as nat); }
            self.advance();
        }
    }

    /// Consumes a token of kind `expected`, or fails.
    fn expect(&mut self, expected: TokenKind) -> (res: KelpyResult<()>)
        requires
            old(self).wf(),
            expected@ == KindView::Plain(expected),
            expected != TokenKind::Eof,
        ensures
            final(self).wf(),
            final(self).tokens@ == old(self).tokens@,
            old(self).pos <= final(self).pos,
            gives_pos(res, expect(old(self).toks(), old(self).pos as nat, expected), final(self).pos as nat),
    {
        if kinds_equal(self.peek(), &expected) {
            self.advance();
            Ok(())
        } else {
            let mut message = String::from_str("Expected ");
            let e = expected.to_display_string();
            message.append(e.as_str());
            message.append(", found ");
            let f = self.peek().to_display_string();
            message.append(f.as_str());
            Err(KelpyError::ParseError { message, location: self.current_location() })
        }
    }

    /// A parse error with `message` at the next token.
    fn error(&self, message: String) -> (e: KelpyError)
        ensures
            e == (KelpyError::ParseError { message, location: loc_at(self.toks(), self.pos as nat) }),
    {
        KelpyError::ParseError { message, location: self.current_location() }
    }

    // ── Statement parsing ──

    /// A statement, after any newlines.
    fn parse_statement(&mut self) -> (res: KelpyResult<Statement>)
        requires
            old(self).wf(),
        ensures
            final(self).wf(),
            final(self).tokens@ == old(self).tokens@,
            old(self).pos <= final(self).pos,
            res is Ok ==> old(self).pos < final(self).pos,
            gives_stmt(res, statement(old(self).toks(), old(self).pos as nat), final(self).pos as nat),
        decreases old(self).tokens@.len() - old(self).pos, 9nat,
    {
        self.skip_newlines();
        match self.peek() {
            TokenKind::Def => self.parse_function_def(),
            TokenKind::If => self.parse_if(),
            TokenKind::While => self.parse_while(),
            TokenKind::For => self.parse_for(),
            TokenKind::Return => self.parse_return(),
            TokenKind::Import => self.parse_import(),
            TokenKind::Print => self.parse_print(),
            TokenKind::Break => {
                let location = self.current_location();
                self.advance();
                Ok(Statement::Break { location })
            },
            TokenKind::Continue => {
                let location = self.current_location();
                self.advance();
                Ok(Statement::Continue { location })
            },
            TokenKind::Throw => self.parse_throw(),
            TokenKind::Try => self.parse_try(),
            TokenKind::Class => self.parse_class(),
            _ => self.parse_assignment_or_expr(),
        }
    }

    /// `def name(params) { body }`; the next token is `def`.
    fn parse_function_def(&mut self) -> (res: KelpyResult<Statement>)
        requires
            old(self).wf(),
            is_kind(old(self).toks(), old(self).pos as nat, TokenKind::Def),
        ensures
            final(self).wf(),
            final(self).tokens@ == old(self).tokens@,
            old(self).pos <= final(self).pos,
            res is Ok ==> old(self).pos < final(self).pos,
            gives_stmt(res, function_def(old(self).toks(), old(self).pos as nat), final(self).pos as nat),
        decreases old(self).tokens@.len() - old(self).pos, 8nat,
    {
        let ghost toks = self.toks();
        let location = self.current_location();
        self.advance(); // consume `def`

        let name = match self.peek() {
            TokenKind::Identifier(n) => {
                let n = n.clone();
                self.advance();
                n
            },
            _ => return Err(self.error(String::from_str("Expected function name after 'def'"))),
        };

        match self.expect(TokenKind::LParen) {
            Ok(()) => {},
            Err(e) => return Err(e),
        }
        let params = match self.parse_param_list() {
            Ok(p) => p,
            Err(e) => return Err(e),
        };
        match self.expect(TokenKind::RParen) {
            Ok(()) => {},
            Err(e) => return Err(e),
        }
        proof { lemma_eof_from(toks, 0); }
        let body = match self.parse_block() {
            Ok(b) => b,
            Err(e) => return Err(e),
        };

        Ok(Statement::FunctionDef { name, params, body, location })
    }

    /// The parameter names of a definition, up to (not including) `)`.
    fn parse_param_list(&mut self) -> (res: KelpyResult<Vec<String>>)
        requires
            old(self).wf(),
        ensures
            final(self).wf(),
            final(self).tokens@ == old(self).tokens@,
            old(self).pos <= final(self).pos,
            gives_names(res, param_list(old(self).toks(), old(self).pos as nat), final(self).pos as nat),
    {
        let ghost toks = self.toks();
        let ghost i0 = self.pos as nat;
        let mut params: Vec<String> = Vec::new();
        if matches!(self.peek(), TokenKind::RParen) {
            assert(strings_model(params) =~= Seq::<Seq<char>>::empty());
            return Ok(params);
        }
        assert(strings_model(params) =~= Seq::<Seq<char>>::empty());

        loop
            invariant_except_break
                param_list(toks, i0) == param_list_from(toks, self.pos as nat, strings_model(params)),
            invariant
                self.wf(),
                self.tokens@ == old(self).tokens@,
                toks == self.toks(),
                i0 == old(self).pos,
                i0 <= self.pos,
            ensures
                param_list(toks, i0) == Ok::<(Seq<Seq<char>>, nat), ParseFail>((strings_model(params), self.pos as nat)),
            decreases self.tokens@.len() - self.pos,
        {
            let ghost before = strings_model(params);
            match self.peek() {
                TokenKind::Identifier(name) => {
                    let name = name.clone();
                    self.advance();
                    params.push(name);
                },
                TokenKind::Self_ => {
                    self.advance();
                    params.push(String::from_str("self"));
                },
                _ => return Err(self.error(String::from_str("Expected parameter name"))),
            }
            assert(strings_model(params) =~= before.push(params@[params@.len() - 1]@));

            if matches!(self.peek(), TokenKind::Comma) {
                self.advance();
            } else {
                break;
            }
        }

        Ok(params)
    }

    /// A block `{ statements }`, after any newlines.
    fn parse_block(&mut self) -> (res: KelpyResult<Vec<Statement>>)
        requires
            old(self).wf(),
        ensures
            final(self).wf(),
            final(self).tokens@ == old(self).tokens@,
            old(self).pos <= final(self).pos,
            res is Ok ==> old(self).pos < final(self).pos,
            gives_stmts(res, block(old(self).toks(), old(self).pos as nat), final(self).pos as nat),
        decreases old(self).tokens@.len() - old(self).pos, 1nat,
    {
        let ghost toks = self.toks();
        self.skip_newlines();
        match self.expect(TokenKind::LBrace) {
            Ok(()) => {},
            Err(e) => return Err(e),
        }
        self.skip_newlines();

        let mut stmts: Vec<Statement> = Vec::new();
        assert(stmts_model(stmts) =~= Seq::<SStmt>::empty());
        while !matches!(self.peek(), TokenKind::RBrace | TokenKind::Eof)
            invariant
                self.wf(),
                self.tokens@ == old(self).tokens@,
                toks == self.toks(),
                old(self).pos < self.pos,
                block(toks, old(self).pos as nat) == block_body(toks, self.pos as nat, stmts_model(stmts)),
            decreases self.tokens@.len() - self.pos,
        {
            let ghost before = stmts_model(stmts);
            let stmt = match self.parse_statement() {
                Ok(s) => s,
                Err(e) => return Err(e),
            };
            proof { lemma_eof_from(toks, 0); }
            stmts.push(stmt);
            assert(stmts_model(stmts) =~= before.push(stmt@));
            self.skip_newlines();
        }

        match self.expect(TokenKind::RBrace) {
            Ok(()) => {},
            Err(e) => return Err(e),
        }
        Ok(stmts)
    }

    /// `if cond { ... }` with an optional `else` or `elif`; the next token
    /// is `if` (or the `elif` of an enclosing `if`).
    fn parse_if(&mut self) -> (res: KelpyResult<Statement>)
        requires
            old(self).wf(),
            is_kind(old(self).toks(), old(self).pos as nat, TokenKind::If)
                || is_kind(old(self).toks(), old(self).pos as nat, TokenKind::Elif),
        ensures
            final(self).wf(),
            final(self).tokens@ == old(self).tokens@,
            old(self).pos <= final(self).pos,
            res is Ok ==> old(self).pos < final(self).pos,
            gives_stmt(res, if_stmt(old(self).toks(), old(self).pos as nat), final(self).pos as nat),
        decreases old(self).tokens@.len() - old(self).pos, 8nat,
    {
        let ghost toks = self.toks();
        proof { lemma_eof_from(toks, 0); }
        let location = self.current_location();
        self.advance(); // consume `if`

        let condition = match self.parse_expression(Precedence::Lowest) {
            Ok(c) => c,
            Err(e) => return Err(e),
        };
        let then_body = match self.parse_block() {
            Ok(b) => b,
            Err(e) => return Err(e),
        };

        self.skip_newlines();
        let else_body = if matches!(self.peek(), TokenKind::Else) {
            self.advance();
            if matches!(self.peek(), TokenKind::If) {
                // else if ...
                let elif = match self.parse_if() {
                    Ok(s) => s,
                    Err(e) => return Err(e),
                };
                let mut v: Vec<Statement> = Vec::new();
                v.push(elif);
                assert(stmts_model(v) =~= seq![elif@]);
                Some(v)
            } else {
                match self.parse_block() {
                    Ok(b) => Some(b),
                    Err(e) => return Err(e),
                }
            }
        } else if matches!(self.peek(), TokenKind::Elif) {
            // elif ...: an else branch holding an if
            let elif = match self.parse_if() {
                Ok(s) => s,
                Err(e) => return Err(e),
            };
            let mut v: Vec<Statement> = Vec::new();
            v.push(elif);
            assert(stmts_model(v) =~= seq![elif@]);
            Some(v)
        } else {
            None
        };

        Ok(Statement::If { condition, then_body, else_body, location })
    }

    /// `while cond { ... }`; the next token is `while`.
    fn parse_while(&mut self) -> (res: KelpyResult<Statement>)
        requires
            old(self).wf(),
            is_kind(old(self).toks(), old(self).pos as nat, TokenKind::While),
        ensures
            final(self).wf(),
            final(self).tokens@ == old(self).tokens@,
            old(self).pos <= final(self).pos,
            res is Ok ==> old(self).pos < final(self).pos,
            gives_stmt(res, while_stmt(old(self).toks(), old(self).pos as nat), final(self).pos as nat),
        decreases old(self).tokens@.len() - old(self).pos, 8nat,
    {
        let ghost toks = self.toks();
        proof { lemma_eof_from(toks, 0); }
        let location = self.current_location();
        self.advance(); // consume `while`

        let condition = match self.parse_expression(Precedence::Lowest) {
            Ok(c) => c,
            Err(e) => return Err(e),
        };
        let body = match self.parse_block() {
            Ok(b) => b,
            Err(e) => return Err(e),
        };

        Ok(Statement::While { condition, body, location })
    }

    /// `for name in expr { ... }`; the next token is `for`.
    fn parse_for(&mut self) -> (res: KelpyResult<Statement>)
        requires
            old(self).wf(),
            is_kind(old(self).toks(), old(self).pos as nat, TokenKind::For),
        ensures
            final(self).wf(),
            final(self).tokens@ == old(self).tokens@,
            old(self).pos <= final(self).pos,
            res is Ok ==> old(self).pos < final(self).pos,
            gives_stmt(res, for_stmt(old(self).toks(), old(self).pos as nat), final(self).pos as nat),
        decreases old(self).tokens@.len() - old(self).pos, 8nat,
    {
        let ghost toks = self.toks();
        proof { lemma_eof_from(toks, 0); }
        let location = self.current_location();
        self.advance(); // consume `for`

        let variable = match self.peek() {
            TokenKind::Identifier(name) => {
                let name = name.clone();
                self.advance();
                name
            },
            _ => return Err(self.error(String::from_str("Expected variable name after 'for'"))),
        };

        match self.expect(TokenKind::In) {
            Ok(()) => {},
            Err(e) => return Err(e),
        }
        let iterable = match self.parse_expression(Precedence::Lowest) {
            Ok(x) => x,
            Err(e) => return Err(e),
        };
        let body = match self.parse_block() {
            Ok(b) => b,
            Err(e) => return Err(e),
        };

        Ok(Statement::For { variable, iterable, body, location })
    }

    /// `return` with an optional value; the next token is `return`.
    fn parse_return(&mut self) -> (res: KelpyResult<Statement>)
        requires
            old(self).wf(),
            is_kind(old(self).toks(), old(self).pos as nat, TokenKind::Return),
        ensures
            final(self).wf(),
            final(self).tokens@ == old(self).tokens@,
            old(self).pos <= final(self).pos,
            res is Ok ==> old(self).pos < final(self).pos,
            gives_stmt(res, return_stmt(old(self).toks(), old(self).pos as nat), final(self).pos as nat),
        decreases old(self).tokens@.len() - old(self).pos, 8nat,
    {
        let ghost toks = self.toks();
        proof { lemma_eof_from(toks, 0); }
        let location = self.current_location();
        self.advance(); // consume `return`

        let value = if matches!(self.peek(), TokenKind::Newline | TokenKind::RBrace | TokenKind::Eof) {
            None
        } else {
            match self.parse_expression(Precedence::Lowest) {
                Ok(v) => Some(v),
                Err(e) => return Err(e),
            }
        };

        Ok(Statement::Return { value, location })
    }

    /// `import a.b.c`; the next token is `import`.
    fn parse_import(&mut self) -> (res: KelpyResult<Statement>)
        requires
            old(self).wf(),
            is_kind(old(self).toks(), old(self).pos as nat, TokenKind::Import),
        ensures
            final(self).wf(),
            final(self).tokens@ == old(self).tokens@,
            old(self).pos <= final(self).pos,
            res is Ok ==> old(self).pos < final(self).pos,
            gives_stmt(res, import_stmt(old(self).toks(), old(self).pos as nat), final(self).pos as nat),
    {
        let ghost toks = self.toks();
        let ghost i = self.pos as nat;
        proof { lemma_eof_from(toks, 0); }
        let location = self.current_location();
        self.advance(); // consume `import`

        let mut module = match self.peek() {
            TokenKind::Identifier(name) => {
                let name = name.clone();
                self.advance();
                name
            },
            _ => return Err(self.error(String::from_str("Expected module name after 'import'"))),
        };

        // Dotted imports: import http.server
        while matches!(self.peek(), TokenKind::Dot)
            invariant
                self.wf(),
                self.tokens@ == old(self).tokens@,
                toks == self.toks(),
                i == old(self).pos,
                i < self.pos,
                location == loc_at(toks, i),
                import_stmt(toks, i) == (match import_path(toks, self.pos as nat, module@) {
                    Ok((m, j)) => Ok((SStmt::Import { module: m, location }, j)),
                    Err(f) => Err(f),
                }),
            decreases self.tokens@.len() - self.pos,
        {
            proof { lemma_step(toks, self.pos as nat); }
            self.advance();
            match self.peek() {
                TokenKind::Identifier(part) => {
                    let part = part.clone();
                    self.advance();
                    let ghost before = module@;
                    push_char(&mut module, '.');
                    module.append(part.as_str());
                    proof {
                        reveal_strlit(".");
                        assert(module@ =~= before + "."@ + part@);
                    }
                },
                _ => return Err(self.error(String::from_str("Expected module name after '.'"))),
            }
        }

        Ok(Statement::Import { module, location })
    }

    /// `throw expr`; the next token is `throw`.
    fn parse_throw(&mut self) -> (res: KelpyResult<Statement>)
        requires
            old(self).wf(),
            is_kind(old(self).toks(), old(self).pos as nat, TokenKind::Throw),
        ensures
            final(self).wf(),
            final(self).tokens@ == old(self).tokens@,
            old(self).pos <= final(self).pos,
            res is Ok ==> old(self).pos < final(self).pos,
            gives_stmt(res, throw_stmt(old(self).toks(), old(self).pos as nat), final(self).pos as nat),
        decreases old(self).tokens@.len() - old(self).pos, 8nat,
    {
        let ghost toks = self.toks();
        proof { lemma_eof_from(toks, 0); }
        let location = self.current_location();
        self.advance(); // consume `throw`

        let value = match self.parse_expression(Precedence::Lowest) {
            Ok(v) => v,
            Err(e) => return Err(e),
        };

        Ok(Statement::Throw { value, location })
    }

    /// `try { ... } catch (name) { ... }`; the next token is `try`.
    fn parse_try(&mut self) -> (res: KelpyResult<Statement>)
        requires
            old(self).wf(),
            is_kind(old(self).toks(), old(self).pos as nat, TokenKind::Try),
        ensures
            final(self).wf(),
            final(self).tokens@ == old(self).tokens@,
            old(self).pos <= final(self).pos,
            res is Ok ==> old(self).pos < final(self).pos,
            gives_stmt(res, try_stmt(old(self).toks(), old(self).pos as nat), final(self).pos as nat),
        decreases old(self).tokens@.len() - old(self).pos, 8nat,
    {
        let ghost toks = self.toks();
        proof { lemma_eof_from(toks, 0); }
        let location = self.current_location();
        self.advance(); // consume `try`

        let try_body = match self.parse_block() {
            Ok(b) => b,
            Err(e) => return Err(e),
        };
        self.skip_newlines();
        match self.expect(TokenKind::Catch) {
            Ok(()) => {},
            Err(e) => return Err(e),
        }
        match self.expect(TokenKind::LParen) {
            Ok(()) => {},
            Err(e) => return Err(e),
        }
        let catch_var = match self.peek() {
            TokenKind::Identifier(name) => {
                let name = name.clone();
                self.advance();
                name
            },
            _ => return Err(self.error(String::from_str("Expected variable name after 'catch ('"))),
        };
        match self.expect(TokenKind::RParen) {
            Ok(()) => {},
            Err(e) => return Err(e),
        }
        proof { lemma_eof_from(toks, 0); }
        let catch_body = match self.parse_block() {
            Ok(b) => b,
            Err(e) => return Err(e),
        };

        Ok(Statement::TryCatch { try_body, catch_var, catch_body, location })
    }

    /// `class Name { ... }`; the next token is `class`.
    fn parse_class(&mut self) -> (res: KelpyResult<Statement>)
        requires
            old(self).wf(),
            is_kind(old(self).toks(), old(self).pos as nat, TokenKind::Class),
        ensures
            final(self).wf(),
            final(self).tokens@ == old(self).tokens@,
            old(self).pos <= final(self).pos,
            res is Ok ==> old(self).pos < final(self).pos,
            gives_stmt(res, class_def(old(self).toks(), old(self).pos as nat), final(self).pos as nat),
        decreases old(self).tokens@.len() - old(self).pos, 8nat,
    {
        let ghost toks = self.toks();
        proof { lemma_eof_from(toks, 0); }
        let location = self.current_location();
        self.advance(); // consume `class`

        let name = match self.peek() {
            TokenKind::Identifier(n) => {
                let n = n.clone();
                self.advance();
                n
            },
            _ => return Err(self.error(String::from_str("Expected class name after 'class'"))),
        };
        proof { lemma_eof_from(toks, 0); }
        let methods = match self.parse_block() {
            Ok(b) => b,
            Err(e) => return Err(e),
        };

        Ok(Statement::ClassDef { name, methods, location })
    }

    /// `print expr`; the next token is `print`.
    fn parse_print(&mut self) -> (res: KelpyResult<Statement>)
        requires
            old(self).wf(),
            is_kind(old(self).toks(), old(self).pos as nat, TokenKind::Print),
        ensures
            final(self).wf(),
            final(self).tokens@ == old(self).tokens@,
            old(self).pos <= final(self).pos,
            res is Ok ==> old(self).pos < final(self).pos,
            gives_stmt(res, print_stmt(old(self).toks(), old(self).pos as nat), final(self).pos as nat),
        decreases old(self).tokens@.len() - old(self).pos, 8nat,
    {
        let ghost toks = self.toks();
        proof { lemma_eof_from(toks, 0); }
        let location = self.current_location();
        self.advance(); // consume `print`

        let value = match self.parse_expression(Precedence::Lowest) {
            Ok(v) => v,
            Err(e) => return Err(e),
        };

        Ok(Statement::Print { value, location })
    }

    /// `name = expr`, or an expression statement.
    fn parse_assignment_or_expr(&mut self) -> (res: KelpyResult<Statement>)
        requires
            old(self).wf(),
        ensures
            final(self).wf(),
            final(self).tokens@ == old(self).tokens@,
            old(self).pos <= final(self).pos,
            res is Ok ==> old(self).pos < final(self).pos,
            gives_stmt(res, assignment_or_expr(old(self).toks(), old(self).pos as nat), final(self).pos as nat),
        decreases old(self).tokens@.len() - old(self).pos, 8nat,
    {
        let ghost toks = self.toks();
        proof { lemma_eof_from(toks, 0); }
        let location = self.current_location();
        let expr = match self.parse_expression(Precedence::Lowest) {
            Ok(x) => x,
            Err(e) => return Err(e),
        };

        // A compound assignment: `name op= expr`
        match compound_op(self.peek()) {
            Some(op) => {
                self.advance(); // consume the operator
                match expr {
                    Expr::Identifier { name, .. } => {
                        let value = match self.parse_expression(Precedence::Lowest) {
                            Ok(v) => v,
                            Err(e) => return Err(e),
                        };
                        return Ok(Statement::CompoundAssignment { name, op, value, location });
                    },
                    _ => {
                        return Err(KelpyError::ParseError {
                            message: String::from_str("Invalid assignment target"),
                            location,
                        });
                    },
                }
            },
            None => {},
        }

        // An assignment: `name = expr`
        if matches!(self.peek(), TokenKind::Equals) {
            self.advance(); // consume `=`
            match expr {
                Expr::Identifier { name, .. } => {
                    let value = match self.parse_expression(Precedence::Lowest) {
                        Ok(v) => v,
                        Err(e) => return Err(e),
                    };
                    return Ok(Statement::Assignment { name, value, location });
                },
                _ => {
                    return Err(KelpyError::ParseError {
                        message: String::from_str("Invalid assignment target"),
                        location,
                    });
                },
            }
        }

        Ok(Statement::ExprStatement { expr, location })
    }

    // ── Expression parsing (Pratt) ──

    /// An expression whose operators bind tighter than `min_prec`.
    fn parse_expression(&mut self, min_prec: Precedence) -> (res: KelpyResult<Expr>)
        requires
            old(self).wf(),
        ensures
            final(self).wf(),
            final(self).tokens@ == old(self).tokens@,
            old(self).pos <= final(self).pos,
            res is Ok ==> old(self).pos < final(self).pos,
            gives_expr(res, expression(old(self).toks(), old(self).pos as nat, level_of(min_prec)), final(self).pos as nat),
        decreases old(self).tokens@.len() - old(self).pos, 7nat,
    {
        let ghost toks = self.toks();
        let ghost i = self.pos as nat;
        let ghost min = level_of(min_prec);
        let mut left = match self.parse_prefix() {
            Ok(e) => e,
            Err(e) => return Err(e),
        };
        proof { lemma_eof_from(toks, 0); }

        while !self.is_at_end()
            invariant
                self.wf(),
                self.tokens@ == old(self).tokens@,
                toks == self.toks(),
                i == old(self).pos,
                i < self.pos,
                min == level_of(min_prec),
                expression(toks, i, min) == infix_chain(toks, left@, self.pos as nat, min),
            ensures
                expression(toks, i, min) == Ok::<(SExpr, nat), ParseFail>((left@, self.pos as nat)),
            decreases self.tokens@.len() - self.pos,
        {
            let prec = token_precedence(self.peek());
            if prec.level() <= min_prec.level() {
                break;
            }
            left = match self.parse_infix(left, prec) {
                Ok(e) => e,
                Err(e) => return Err(e),
            };
            proof { lemma_eof_from(toks, 0); }
        }

        Ok(left)
    }

    /// A prefix expression: a literal, an identifier, a unary operation, a
    /// parenthesised expression, a list or a dictionary.
    fn parse_prefix(&mut self) -> (res: KelpyResult<Expr>)
        requires
            old(self).wf(),
        ensures
            final(self).wf(),
            final(self).tokens@ == old(self).tokens@,
            old(self).pos <= final(self).pos,
            res is Ok ==> old(self).pos < final(self).pos,
            gives_expr(res, prefix(old(self).toks(), old(self).pos as nat), final(self).pos as nat),
        decreases old(self).tokens@.len() - old(self).pos, 6nat,
    {
        let ghost toks = self.toks();
        proof { lemma_eof_from(toks, 0); }
        match self.peek() {
            TokenKind::NumberLiteral(n) => {
                let value = n.clone();
                let loc = self.current_location();
                self.advance();
                Ok(Expr::NumberLiteral { value, location: loc })
            },
            TokenKind::StringLiteral(s) => {
                let s = s.clone();
                let loc = self.current_location();
                self.advance();
                // String interpolation: {$var}
                if contains_placeholder(s.as_str()) {
                    self.parse_string_interpolation(s.as_str(), loc)
                } else {
                    Ok(Expr::StringLiteral { value: s, location: loc })
                }
            },
            TokenKind::True => {
                let loc = self.current_location();
                self.advance();
                Ok(Expr::BooleanLiteral { value: true, location: loc })
            },
            TokenKind::False => {
                let loc = self.current_location();
                self.advance();
                Ok(Expr::BooleanLiteral { value: false, location: loc })
            },
            TokenKind::Identifier(name) => {
                let name = name.clone();
                let loc = self.current_location();
                self.advance();
                Ok(Expr::Identifier { name, location: loc })
            },
            TokenKind::Self_ => {
                let loc = self.current_location();
                self.advance();
                Ok(Expr::Identifier { name: String::from_str("self"), location: loc })
            },
            TokenKind::Minus => {
                let loc = self.current_location();
                self.advance();
                let operand = match self.parse_expression(Precedence::Unary) {
                    Ok(x) => x,
                    Err(e) => return Err(e),
                };
                Ok(Expr::UnaryOp { op: UnaryOperator::Negate, operand: Box::new(operand), location: loc })
            },
            TokenKind::Not => {
                let loc = self.current_location();
                self.advance();
                let operand = match self.parse_expression(Precedence::Unary) {
                    Ok(x) => x,
                    Err(e) => return Err(e),
                };
                Ok(Expr::UnaryOp { op: UnaryOperator::Not, operand: Box::new(operand), location: loc })
            },
            TokenKind::LParen => {
                self.advance(); // consume (
                let expr = match self.parse_expression(Precedence::Lowest) {
                    Ok(x) => x,
                    Err(e) => return Err(e),
                };
                match self.expect(TokenKind::RParen) {
                    Ok(()) => {},
                    Err(e) => return Err(e),
                }
                Ok(expr)
            },
            TokenKind::LBracket => self.parse_list_literal(),
            TokenKind::LBrace => self.parse_dict_literal(),
            TokenKind::Null => {
                let loc = self.current_location();
                self.advance();
                Ok(Expr::NullLiteral { location: loc })
            },
            TokenKind::New => {
                let loc = self.current_location();
                self.advance(); // consume `new`
                let class_name = match self.peek() {
                    TokenKind::Identifier(name) => {
                        let name = name.clone();
                        self.advance();
                        name
                    },
                    _ => return Err(self.error(String::from_str("Expected class name after 'new'"))),
                };
                match self.expect(TokenKind::LParen) {
                    Ok(()) => {},
                    Err(e) => return Err(e),
                }
                let args = match self.parse_arg_list() {
                    Ok(a) => a,
                    Err(e) => return Err(e),
                };
                match self.expect(TokenKind::RParen) {
                    Ok(()) => {},
                    Err(e) => return Err(e),
                }
                Ok(Expr::New { class_name, args, location: loc })
            },
            _ => {
                let mut message = String::from_str("Unexpected token in expression: ");
                let k = self.peek().to_display_string();
                message.append(k.as_str());
                Err(self.error(message))
            },
        }
    }

    /// The operator or postfix at the cursor applied to `left`: a binary
    /// operation, a call, an index or a member access; `prec` is its level.
    fn parse_infix(&mut self, left: Expr, prec: Precedence) -> (res: KelpyResult<Expr>)
        requires
            old(self).wf(),
        ensures
            final(self).wf(),
            final(self).tokens@ == old(self).tokens@,
            old(self).pos <= final(self).pos,
            res is Ok ==> old(self).pos < final(self).pos,
            gives_expr(res, infix(old(self).toks(), left@, old(self).pos as nat, level_of(prec)), final(self).pos as nat),
        decreases old(self).tokens@.len() - old(self).pos, 3nat,
    {
        let ghost toks = self.toks();
        proof { lemma_eof_from(toks, 0); }
        match self.peek() {
            // Binary operators
            TokenKind::Plus | TokenKind::Minus | TokenKind::Star | TokenKind::Slash | TokenKind::Percent
            | TokenKind::EqualEqual | TokenKind::NotEqual | TokenKind::LessThan | TokenKind::LessEqual
            | TokenKind::GreaterThan | TokenKind::GreaterEqual | TokenKind::And | TokenKind::Or => {
                let loc = self.current_location();
                let op = match self.parse_binary_op() {
                    Ok(op) => op,
                    Err(e) => return Err(e),
                };
                let right = match self.parse_expression(prec) {
                    Ok(x) => x,
                    Err(e) => return Err(e),
                };
                Ok(Expr::BinaryOp { left: Box::new(left), op, right: Box::new(right), location: loc })
            },
            // Function call
            TokenKind::LParen => {
                let loc = self.current_location();
                self.advance(); // consume (
                let args = match self.parse_arg_list() {
                    Ok(a) => a,
                    Err(e) => return Err(e),
                };
                match self.expect(TokenKind::RParen) {
                    Ok(()) => {},
                    Err(e) => return Err(e),
                }
                Ok(Expr::FunctionCall { callee: Box::new(left), args, location: loc })
            },
            // Index access
            TokenKind::LBracket => {
                let loc = self.current_location();
                self.advance(); // consume [
                let index = match self.parse_expression(Precedence::Lowest) {
                    Ok(x) => x,
                    Err(e) => return Err(e),
                };
                match self.expect(TokenKind::RBracket) {
                    Ok(()) => {},
                    Err(e) => return Err(e),
                }
                Ok(Expr::Index { object: Box::new(left), index: Box::new(index), location: loc })
            },
            // Member access
            TokenKind::Dot => {
                let loc = self.current_location();
                self.advance(); // consume .
                match self.peek() {
                    TokenKind::Identifier(member) => {
                        let member = member.clone();
                        self.advance();
                        if matches!(self.peek(), TokenKind::LParen) {
                            // A method call: `object.member(args)`
                            self.advance(); // consume (
                            let args = match self.parse_arg_list() {
                                Ok(a) => a,
                                Err(e) => return Err(e),
                            };
                            match self.expect(TokenKind::RParen) {
                                Ok(()) => {},
                                Err(e) => return Err(e),
                            }
                            Ok(Expr::MethodCall { object: Box::new(left), method: member, args, location: loc })
                        } else {
                            Ok(Expr::MemberAccess { object: Box::new(left), member, location: loc })
                        }
                    },
                    _ => Err(self.error(String::from_str("Expected member name after '.'"))),
                }
            },
            _ => {
                let mut message = String::from_str("Unexpected infix token: ");
                let k = self.peek().to_display_string();
                message.append(k.as_str());
                Err(self.error(message))
            },
        }
    }

    /// The binary operator at the cursor.
    fn parse_binary_op(&mut self) -> (res: KelpyResult<BinaryOperator>)
        requires
            old(self).wf(),
        ensures
            final(self).wf(),
            final(self).tokens@ == old(self).tokens@,
            match binary_op_of(kind_at(old(self).toks(), old(self).pos as nat)) {
                Some(op) => res == Ok::<BinaryOperator, KelpyError>(op) && final(self).pos == old(self).pos + 1,
                None => res matches Err(e) && parse_error_is(e, fail("Expected binary operator"@, loc_at(old(self).toks(), old(self).pos as nat), old(self).pos as nat))
                    && final(self).pos == old(self).pos,
            },
    {
        let op = match self.peek() {
            TokenKind::Plus => BinaryOperator::Add,
            TokenKind::Minus => BinaryOperator::Subtract,
            TokenKind::Star => BinaryOperator::Multiply,
            TokenKind::Slash => BinaryOperator::Divide,
            TokenKind::Percent => BinaryOperator::Modulo,
            TokenKind::EqualEqual => BinaryOperator::Equal,
            TokenKind::NotEqual => BinaryOperator::NotEqual,
            TokenKind::LessThan => BinaryOperator::LessThan,
            TokenKind::LessEqual => BinaryOperator::LessEqual,
            TokenKind::GreaterThan => BinaryOperator::GreaterThan,
            TokenKind::GreaterEqual => BinaryOperator::GreaterEqual,
            TokenKind::And => BinaryOperator::And,
            TokenKind::Or => BinaryOperator::Or,
            _ => return Err(self.error(String::from_str("Expected binary operator"))),
        };
        self.advance();
        Ok(op)
    }

    /// The arguments of a call, up to (not including) `)`.
    fn parse_arg_list(&mut self) -> (res: KelpyResult<Vec<Expr>>)
        requires
            old(self).wf(),
        ensures
            final(self).wf(),
            final(self).tokens@ == old(self).tokens@,
            old(self).pos <= final(self).pos,
            gives_exprs(res, arg_list(old(self).toks(), old(self).pos as nat), final(self).pos as nat),
        decreases old(self).tokens@.len() - old(self).pos, 9nat,
    {
        let ghost toks = self.toks();
        let ghost i0 = self.pos as nat;
        let mut args: Vec<Expr> = Vec::new();
        assert(exprs_model(args) =~= Seq::<SExpr>::empty());
        if matches!(self.peek(), TokenKind::RParen) {
            return Ok(args);
        }

        loop
            invariant_except_break
                arg_list(toks, i0) == args_from(toks, self.pos as nat, exprs_model(args)),
            invariant
                self.wf(),
                self.tokens@ == old(self).tokens@,
                toks == self.toks(),
                i0 == old(self).pos,
                i0 <= self.pos,
            ensures
                arg_list(toks, i0) == Ok::<(Seq<SExpr>, nat), ParseFail>((exprs_model(args), self.pos as nat)),
            decreases self.tokens@.len() - self.pos,
        {
            let ghost before = exprs_model(args);
            self.skip_newlines();
            let arg = match self.parse_expression(Precedence::Lowest) {
                Ok(x) => x,
                Err(e) => return Err(e),
            };
            proof { lemma_eof_from(toks, 0); }
            args.push(arg);
            assert(exprs_model(args) =~= before.push(arg@));

            self.skip_newlines();
            if matches!(self.peek(), TokenKind::Comma) {
                self.advance();
            } else {
                break;
            }
        }

        Ok(args)
    }

    /// A list literal `[a, b, ...]`; the next token is `[`.
    fn parse_list_literal(&mut self) -> (res: KelpyResult<Expr>)
        requires
            old(self).wf(),
            is_kind(old(self).toks(), old(self).pos as nat, TokenKind::LBracket),
        ensures
            final(self).wf(),
            final(self).tokens@ == old(self).tokens@,
            old(self).pos <= final(self).pos,
            res is Ok ==> old(self).pos < final(self).pos,
            gives_expr(res, list_literal(old(self).toks(), old(self).pos as nat), final(self).pos as nat),
        decreases old(self).tokens@.len() - old(self).pos, 5nat,
    {
        let ghost toks = self.toks();
        proof { lemma_eof_from(toks, 0); }
        let loc = self.current_location();
        self.advance(); // consume [

        let mut elements: Vec<Expr> = Vec::new();
        assert(exprs_model(elements) =~= Seq::<SExpr>::empty());
        self.skip_newlines();
        let ghost j = self.pos as nat;

        if !matches!(self.peek(), TokenKind::RBracket) {
            loop
                invariant_except_break
                    elements_from(toks, j, Seq::empty()) == elements_from(toks, self.pos as nat, exprs_model(elements)),
                invariant
                    self.wf(),
                    self.tokens@ == old(self).tokens@,
                    toks == self.toks(),
                    old(self).pos < j <= self.pos,
                    is_kind(toks, old(self).pos as nat, TokenKind::LBracket),
                    j == skip_newlines(toks, (old(self).pos + 1) as nat),
                    !is_kind(toks, j, TokenKind::RBracket),
                ensures
                    elements_from(toks, j, Seq::empty()) == Ok::<(Seq<SExpr>, nat), ParseFail>((exprs_model(elements), self.pos as nat)),
                decreases self.tokens@.len() - self.pos,
            {
                let ghost before = exprs_model(elements);
                self.skip_newlines();
                let elem = match self.parse_expression(Precedence::Lowest) {
                    Ok(x) => x,
                    Err(e) => return Err(e),
                };
                proof { lemma_eof_from(toks, 0); }
                elements.push(elem);
                assert(exprs_model(elements) =~= before.push(elem@));
                self.skip_newlines();

                if matches!(self.peek(), TokenKind::Comma) {
                    self.advance();
                } else {
                    break;
                }
            }
        }

        self.skip_newlines();
        match self.expect(TokenKind::RBracket) {
            Ok(()) => {},
            Err(e) => return Err(e),
        }

        Ok(Expr::ListLiteral { elements, location: loc })
    }

    /// A dictionary literal `{k: v, ...}`; the next token is `{`.
    fn parse_dict_literal(&mut self) -> (res: KelpyResult<Expr>)
        requires
            old(self).wf(),
            is_kind(old(self).toks(), old(self).pos as nat, TokenKind::LBrace),
        ensures
            final(self).wf(),
            final(self).tokens@ == old(self).tokens@,
            old(self).pos <= final(self).pos,
            res is Ok ==> old(self).pos < final(self).pos,
            gives_expr(res, dict_literal(old(self).toks(), old(self).pos as nat), final(self).pos as nat),
        decreases old(self).tokens@.len() - old(self).pos, 5nat,
    {
        let ghost toks = self.toks();
        proof { lemma_eof_from(toks, 0); }
        let loc = self.current_location();
        self.advance(); // consume {

        let mut entries: Vec<(Expr, Expr)> = Vec::new();
        assert(entries_model(entries) =~= Seq::<(SExpr, SExpr)>::empty());
        self.skip_newlines();
        let ghost j = self.pos as nat;

        if !matches!(self.peek(), TokenKind::RBrace) {
            loop
                invariant_except_break
                    entries_from(toks, j, Seq::empty()) == entries_from(toks, self.pos as nat, entries_model(entries)),
                invariant
                    self.wf(),
                    self.tokens@ == old(self).tokens@,
                    toks == self.toks(),
                    old(self).pos < j <= self.pos,
                    is_kind(toks, old(self).pos as nat, TokenKind::LBrace),
                    j == skip_newlines(toks, (old(self).pos + 1) as nat),
                    !is_kind(toks, j, TokenKind::RBrace),
                ensures
                    entries_from(toks, j, Seq::empty()) == Ok::<(Seq<(SExpr, SExpr)>, nat), ParseFail>((entries_model(entries), self.pos as nat)),
                decreases self.tokens@.len() - self.pos,
            {
                let ghost before = entries_model(entries);
                self.skip_newlines();
                let key = match self.parse_expression(Precedence::Lowest) {
                    Ok(x) => x,
                    Err(e) => return Err(e),
                };
                match self.expect(TokenKind::Colon) {
                    Ok(()) => {},
                    Err(e) => return Err(e),
                }
                self.skip_newlines();
                proof { lemma_eof_from(toks, 0); }
                let value = match self.parse_expression(Precedence::Lowest) {
                    Ok(x) => x,
                    Err(e) => return Err(e),
                };
                proof { lemma_eof_from(toks, 0); }
                let ghost pair = (key@, value@);
                entries.push((key, value));
                assert(entries_model(entries) =~= before.push(pair));
                self.skip_newlines();

                if matches!(self.peek(), TokenKind::Comma) {
                    self.advance();
                } else {
                    break;
                }
            }
        }

        self.skip_newlines();
        match self.expect(TokenKind::RBrace) {
            Ok(()) => {},
            Err(e) => return Err(e),
        }

        let ghost ev = entries;
        let e = Expr::DictLiteral { entries, location: loc };
        proof {
            let m = e@;
            assert(m matches SExpr::Dict { entries: es, location: l } && es =~= entries_model(ev) && l == loc);
        }
        Ok(e)
    }

    /// Splits the text of an interpolated string (`"You have {$n} items"`)
    /// into literal parts and the identifiers named by each `{$name}`.
    fn parse_string_interpolation(&self, raw: &str, location: SourceLocation) -> (res: KelpyResult<Expr>)
        ensures
            res matches Ok(e) && e@ == interpolation(raw@, location),
    {
        let ghost s = raw@;
        let mut parts: Vec<StringPart> = Vec::new();
        let mut current = String::new();
        let n = raw.unicode_len();
        let mut i: usize = 0;
        assert(parts_model(parts) =~= Seq::<SPart>::empty());

        while i < n
            invariant
                n == s.len(),
                s == raw@,
                i <= n,
                interpolation_parts(s, i as nat, current@, parts_model(parts), location)
                    == interpolation_parts(s, 0, Seq::empty(), Seq::empty(), location),
            decreases n - i,
        {
            if raw.get_char(i) == '{' && i + 1 < n && raw.get_char(i + 1) == '$' {
                let ghost before = parts_model(parts);
                // Flush the literal part
                if !current.as_str().is_empty() {
                    let lit = current.clone();
                    parts.push(StringPart::Literal(lit));
                    assert(parts_model(parts) =~= before.push(SPart::Literal(current@)));
                    current = String::new();
                }
                let ghost flushed = parts_model(parts);
                // Skip {$
                i = i + 2;
                let ghost start = i as nat;
                proof { lemma_close_brace(s, start); }
                let mut var_name = String::new();
                while i < n && raw.get_char(i) != '}'
                    invariant
                        n == s.len(),
                        s == raw@,
                        start <= i <= n,
                        close_brace(s, start) == close_brace(s, i as nat),
                        var_name@ == s.subrange(start as int, i as int),
                    decreases n - i,
                {
                    let c = raw.get_char(i);
                    push_char(&mut var_name, c);
                    i = i + 1;
                    assert(var_name@ =~= s.subrange(start as int, i as int));
                }
                if i < n {
                    i = i + 1; // skip }
                }
                let ghost part = SPart::Expression(SExpr::Ident { name: var_name@, location });
                parts.push(StringPart::Expression(Expr::Identifier { name: var_name, location }));
                assert(parts_model(parts) =~= flushed.push(part));
                assert(current@ =~= Seq::<char>::empty());
            } else {
                let c = raw.get_char(i);
                push_char(&mut current, c);
                i = i + 1;
            }
        }

        if !current.as_str().is_empty() {
            let ghost before = parts_model(parts);
            let ghost lit = current@;
            parts.push(StringPart::Literal(current));
            assert(parts_model(parts) =~= before.push(SPart::Literal(lit)));
        }

        let ghost pv = parts;
        let e = Expr::StringInterpolation { parts, location };
        proof {
            let m = e@;
            assert(m matches SExpr::Interp { parts: ps, location: l } && ps =~= parts_model(pv) && l == location);
        }
        Ok(e)
    }
}

} // verus!
