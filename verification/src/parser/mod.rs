//! The parser: from located tokens to a program.
use vstd::prelude::*;

mod ast;
pub use ast::{Expr, ExprV, Program, Statement, StatementV, Type, expr_view, statement_views};

use crate::errors::{
    CompileError, CompileErrorV, CompileResult, Span, hinted, unexpected_eof_error,
    unexpected_token_error, suggested_keyword, suggest_keyword,
};
use crate::lexer::{SpannedToken, Token, TokenV, token_description, token_views, keyword_token};

verus! {

// --- Specification of the grammar ---
//
// program   ::= statement* Eof
// statement ::= `afficher` `(` expr `)` `;`
//             | `declarer` ident `:` type `;`
//             | ident `<-` expr `;`
// expr      ::= `-` expr | literal | ident

/// Label shown when a primitive type is expected.
pub open spec fn type_expected() -> Seq<char> {
    "un type primitif (`entier`, `entier_naturel`, `reel`, `booleen`, `caractere` ou `string`)"@
}

/// Label shown when an expression is expected.
pub open spec fn expr_expected() -> Seq<char> {
    "une expression"@
}

/// Hint shown when an expression is expected.
pub open spec fn expr_hint() -> Seq<char> {
    "exemples d'expressions : `42`, `3.14`, `\"texte\"`, `'c'`, `vrai`, `faux` ou le nom d'une variable"@
}

/// The token read past the end of the list.
pub open spec fn eof_token() -> (TokenV, Span) {
    (TokenV::Eof, Span { line: 1, column: 1, length: 1 })
}

/// The token at index `p`, or `Eof` past the end.
pub open spec fn tok_at(ts: Seq<(TokenV, Span)>, p: int) -> (TokenV, Span) {
    if 0 <= p < ts.len() {
        ts[p]
    } else {
        eof_token()
    }
}

/// A number per token variant, whatever the variant holds.
pub open spec fn kind_number(t: TokenV) -> nat {
    match t {
        TokenV::Afficher => 0,
        TokenV::Declarer => 1,
        TokenV::TyEntier => 2,
        TokenV::TyEntierNaturel => 3,
        TokenV::TyReel => 4,
        TokenV::TyBooleen => 5,
        TokenV::TyCaractere => 6,
        TokenV::TyChaine => 7,
        TokenV::Vrai => 8,
        TokenV::Faux => 9,
        TokenV::Ident(_) => 10,
        TokenV::IntLit(_) => 11,
        TokenV::FloatLit(_) => 12,
        TokenV::StringLit(_) => 13,
        TokenV::CharLit(_) => 14,
        TokenV::Assign => 15,
        TokenV::Colon => 16,
        TokenV::LParen => 17,
        TokenV::RParen => 18,
        TokenV::Minus => 19,
        TokenV::Semicolon => 20,
        TokenV::Eof => 21,
    }
}

/// The error raised when `expected` was wanted and `cur` was found.
pub open spec fn expected_error(expected: Seq<char>, cur: (TokenV, Span)) -> CompileErrorV {
    if cur.0 is Eof {
        hinted(
            unexpected_eof_error(expected, cur.1),
            "instruction incomplète — il manque "@ + expected,
        )
    } else {
        unexpected_token_error(token_description(cur.0), expected, cur.1)
    }
}

/// Consuming a token of the same variant as `kind` at `p`.
pub open spec fn expect_at(ts: Seq<(TokenV, Span)>, p: int, kind: TokenV, expected: Seq<char>) -> Result<int, CompileErrorV> {
    if kind_number(tok_at(ts, p).0) == kind_number(kind) {
        Ok(p + 1)
    } else {
        Err(expected_error(expected, tok_at(ts, p)))
    }
}

/// Consuming an identifier at `p`.
pub open spec fn ident_at(ts: Seq<(TokenV, Span)>, p: int, expected: Seq<char>) -> Result<(Seq<char>, int), CompileErrorV> {
    match tok_at(ts, p).0 {
        TokenV::Ident(name) => Ok((name, p + 1)),
        _ => Err(expected_error(expected, tok_at(ts, p))),
    }
}

/// Parsing a primitive type at `p`.
pub open spec fn type_at(ts: Seq<(TokenV, Span)>, p: int) -> Result<(Type, int), CompileErrorV> {
    let cur = tok_at(ts, p);
    match cur.0 {
        TokenV::TyEntier => Ok((Type::Entier, p + 1)),
        TokenV::TyEntierNaturel => Ok((Type::EntierNaturel, p + 1)),
        TokenV::TyReel => Ok((Type::Reel, p + 1)),
        TokenV::TyBooleen => Ok((Type::Booleen, p + 1)),
        TokenV::TyCaractere => Ok((Type::Caractere, p + 1)),
        TokenV::TyChaine => Ok((Type::Chaine, p + 1)),
        TokenV::Eof => Err(
            hinted(
                unexpected_eof_error(type_expected(), cur.1),
                "déclaration incomplète — il manque le type de la variable"@,
            ),
        ),
        _ => Err(
            hinted(
                unexpected_token_error(token_description(cur.0), type_expected(), cur.1),
                "exemple : declarer unEntier : entier ;"@,
            ),
        ),
    }
}

/// Parsing a literal or a variable at `p`.
pub open spec fn primary_at(ts: Seq<(TokenV, Span)>, p: int) -> Result<(ExprV, int), CompileErrorV> {
    let cur = tok_at(ts, p);
    match cur.0 {
        TokenV::IntLit(n) => Ok((ExprV::Entier(n), p + 1)),
        TokenV::FloatLit(t) => Ok((ExprV::Reel(t), p + 1)),
        TokenV::StringLit(s) => Ok((ExprV::Chaine(s), p + 1)),
        TokenV::CharLit(c) => Ok((ExprV::Caractere(c), p + 1)),
        TokenV::Vrai => Ok((ExprV::Booleen(true), p + 1)),
        TokenV::Faux => Ok((ExprV::Booleen(false), p + 1)),
        TokenV::Ident(name) => Ok((ExprV::Ident(name), p + 1)),
        TokenV::Eof => Err(
            hinted(
                unexpected_eof_error(expr_expected(), cur.1),
                "expression incomplète — il manque "@ + expr_expected(),
            ),
        ),
        _ => Err(
            hinted(
                unexpected_token_error(token_description(cur.0), expr_expected(), cur.1),
                expr_hint(),
            ),
        ),
    }
}

/// Parsing an expression at `p`: any number of `-` before a literal or a variable.
pub open spec fn expr_at(ts: Seq<(TokenV, Span)>, p: int) -> Result<(ExprV, int), CompileErrorV>
    decreases ts.len() - p,
{
    if tok_at(ts, p).0 is Minus && 0 <= p < ts.len() {
        match expr_at(ts, p + 1) {
            Ok((e, q)) => Ok((ExprV::Neg(Box::new(e)), q)),
            Err(err) => Err(err),
        }
    } else {
        primary_at(ts, p)
    }
}

/// `afficher ( expr ) ;`, the keyword being at `p`.
pub open spec fn afficher_at(ts: Seq<(TokenV, Span)>, p: int) -> Result<(StatementV, int), CompileErrorV> {
    match expect_at(ts, p + 1, TokenV::LParen, "`(` après `afficher`"@) {
        Err(e) => Err(e),
        Ok(q1) => match expr_at(ts, q1) {
            Err(e) => Err(e),
            Ok((value, q2)) => match expect_at(ts, q2, TokenV::RParen, "`)` pour fermer l'appel"@) {
                Err(e) => Err(e),
                Ok(q3) => match expect_at(ts, q3, TokenV::Semicolon, "`;` en fin d'instruction"@) {
                    Err(e) => Err(e),
                    Ok(q4) => Ok((StatementV::Afficher(value), q4)),
                },
            },
        },
    }
}

/// `declarer nom : type ;`, the keyword being at `p`.
pub open spec fn declarer_at(ts: Seq<(TokenV, Span)>, p: int) -> Result<(StatementV, int), CompileErrorV> {
    match ident_at(ts, p + 1, "le nom d'une variable"@) {
        Err(e) => Err(e),
        Ok((name, q1)) => match expect_at(ts, q1, TokenV::Colon, "`:` après le nom de la variable"@) {
            Err(e) => Err(e),
            Ok(q2) => match type_at(ts, q2) {
                Err(e) => Err(e),
                Ok((ty, q3)) => match expect_at(ts, q3, TokenV::Semicolon, "`;` en fin de déclaration"@) {
                    Err(e) => Err(e),
                    Ok(q4) => Ok((StatementV::Declarer { name, ty }, q4)),
                },
            },
        },
    }
}

/// The hint given when an identifier that starts a statement is not followed by `<-`.
pub open spec fn assignment_hint(name: Seq<char>) -> Seq<char> {
    match suggested_keyword(name) {
        Some(kw) => "vouliez-vous dire `"@ + kw + "` ?"@,
        None => "une affectation a la forme `nom <- valeur ;`"@,
    }
}

/// `nom <- expr ;`, the identifier `name` being at `p` with the span `span`.
///
/// When the source ends right after the identifier, the statement is
/// incomplete (`E102`); when anything else than `<-` follows, the identifier
/// is reported (`E101`), with a keyword it may be a misspelling of.
pub open spec fn affectation_at(ts: Seq<(TokenV, Span)>, p: int, name: Seq<char>, span: Span) -> Result<(StatementV, int), CompileErrorV> {
    if tok_at(ts, p + 1).0 is Eof {
        Err(expected_error("le symbole `<-` après un identifiant"@, tok_at(ts, p + 1)))
    } else if !(tok_at(ts, p + 1).0 is Assign) {
        Err(
            hinted(
                unexpected_token_error(
                    "l'identifiant `"@ + name + "`"@,
                    "le symbole `<-` après un identifiant"@,
                    span,
                ),
                assignment_hint(name),
            ),
        )
    } else {
        match expr_at(ts, p + 2) {
            Err(e) => Err(e),
            Ok((value, q1)) => match expect_at(ts, q1, TokenV::Semicolon, "`;` en fin d'instruction"@) {
                Err(e) => Err(e),
                Ok(q2) => Ok((StatementV::Affecter { name, value }, q2)),
            },
        }
    }
}

/// Parsing a statement at `p`.
pub open spec fn statement_at(ts: Seq<(TokenV, Span)>, p: int) -> Result<(StatementV, int), CompileErrorV> {
    let cur = tok_at(ts, p);
    match cur.0 {
        TokenV::Afficher => afficher_at(ts, p),
        TokenV::Declarer => declarer_at(ts, p),
        TokenV::Ident(name) => affectation_at(ts, p, name, cur.1),
        _ => Err(
            hinted(
                unexpected_token_error(
                    token_description(cur.0),
                    "le mot-clé `afficher`, le mot-clé `declarer` ou une affectation (`nom <- valeur ;`)"@,
                    cur.1,
                ),
                "chaque instruction commence par `afficher(...)`, `declarer nom : type ;` ou `nom <- valeur ;`"@,
            ),
        ),
    }
}

/// A successful expectation consumes one token of the list.
pub proof fn lemma_expect_progress(ts: Seq<(TokenV, Span)>, p: int, kind: TokenV, expected: Seq<char>)
    requires
        !(kind is Eof),
    ensures
        expect_at(ts, p, kind, expected) matches Ok(q) ==> 0 <= p < ts.len() && q == p + 1,
{
}

/// A successful expression consumes at least one token of the list.
pub proof fn lemma_expr_progress(ts: Seq<(TokenV, Span)>, p: int)
    ensures
        expr_at(ts, p) matches Ok((_, q)) ==> 0 <= p < q <= ts.len(),
    decreases ts.len() - p,
{
    if tok_at(ts, p).0 is Minus && 0 <= p < ts.len() {
        lemma_expr_progress(ts, p + 1);
    }
}

/// A successful statement consumes at least one token of the list.
pub proof fn lemma_statement_progress(ts: Seq<(TokenV, Span)>, p: int)
    ensures
        statement_at(ts, p) matches Ok((_, q)) ==> 0 <= p < q <= ts.len(),
{
    let cur = tok_at(ts, p);
    match cur.0 {
        TokenV::Afficher => {
            lemma_expect_progress(ts, p + 1, TokenV::LParen, "`(` après `afficher`"@);
            if let Ok(q1) = expect_at(ts, p + 1, TokenV::LParen, "`(` après `afficher`"@) {
                lemma_expr_progress(ts, q1);
                if let Ok((_, q2)) = expr_at(ts, q1) {
                    lemma_expect_progress(ts, q2, TokenV::RParen, "`)` pour fermer l'appel"@);
                    if let Ok(q3) = expect_at(ts, q2, TokenV::RParen, "`)` pour fermer l'appel"@) {
                        lemma_expect_progress(ts, q3, TokenV::Semicolon, "`;` en fin d'instruction"@);
                    }
                }
            }
        },
        TokenV::Declarer => {
            if let Ok((_, q1)) = ident_at(ts, p + 1, "le nom d'une variable"@) {
                lemma_expect_progress(ts, q1, TokenV::Colon, "`:` après le nom de la variable"@);
                if let Ok(q2) = expect_at(ts, q1, TokenV::Colon, "`:` après le nom de la variable"@) {
                    if let Ok((_, q3)) = type_at(ts, q2) {
                        lemma_expect_progress(ts, q3, TokenV::Semicolon, "`;` en fin de déclaration"@);
                    }
                }
            }
        },
        TokenV::Ident(name) => {
            lemma_expr_progress(ts, p + 2);
            if let Ok((_, q1)) = expr_at(ts, p + 2) {
                lemma_expect_progress(ts, q1, TokenV::Semicolon, "`;` en fin d'instruction"@);
            }
        },
        _ => {},
    }
}

/// The statements from index `p` up to the first `Eof`, or the first error.
pub open spec fn statements_from(ts: Seq<(TokenV, Span)>, p: int) -> Result<Seq<StatementV>, CompileErrorV>
    decreases ts.len() - p,
{
    if tok_at(ts, p).0 is Eof {
        Ok(Seq::<StatementV>::empty())
    } else {
        proof {
            lemma_statement_progress(ts, p);
        }
        match statement_at(ts, p) {
            Err(e) => Err(e),
            Ok((st, q)) => match statements_from(ts, q) {
                Err(e) => Err(e),
                Ok(rest) => Ok(seq![st] + rest),
            },
        }
    }
}

/// The program that a list of tokens spells, or the first syntax error.
pub open spec fn parsed(ts: Seq<(TokenV, Span)>) -> Result<Seq<StatementV>, CompileErrorV> {
    statements_from(ts, 0)
}

// --- Laws ---

/// A syntax failure: located, and either an unexpected token (`E101`) or a
/// premature end of file (`E102`).
pub open spec fn syntax_failure(e: CompileErrorV) -> bool {
    &&& e.span is Some
    &&& (e.kind is UnexpectedToken || e.kind is UnexpectedEof)
}

proof fn lemma_expr_errors(ts: Seq<(TokenV, Span)>, p: int)
    ensures
        expr_at(ts, p) matches Err(e) ==> syntax_failure(e),
    decreases ts.len() - p,
{
    if tok_at(ts, p).0 is Minus && 0 <= p < ts.len() {
        lemma_expr_errors(ts, p + 1);
    }
}

proof fn lemma_statements_errors(ts: Seq<(TokenV, Span)>, p: int)
    ensures
        statements_from(ts, p) matches Err(e) ==> syntax_failure(e),
    decreases ts.len() - p,
{
    assert forall|q: int| #[trigger] expr_at(ts, q) is Err implies syntax_failure(
        expr_at(ts, q)->Err_0,
    ) by {
        lemma_expr_errors(ts, q);
    }
    if !(tok_at(ts, p).0 is Eof) {
        lemma_statement_progress(ts, p);
        if let Ok((_, q)) = statement_at(ts, p) {
            lemma_statements_errors(ts, q);
        }
    }
}

/// Two token lists that agree up to index `i`, where the first has `Eof`.
pub open spec fn agree_up_to(t1: Seq<(TokenV, Span)>, t2: Seq<(TokenV, Span)>, i: int) -> bool {
    &&& 0 <= i
    &&& tok_at(t1, i).0 is Eof
    &&& forall|k: int| 0 <= k <= i ==> #[trigger] tok_at(t1, k) == tok_at(t2, k)
}

proof fn lemma_expr_agree(t1: Seq<(TokenV, Span)>, t2: Seq<(TokenV, Span)>, i: int, p: int)
    requires
        agree_up_to(t1, t2, i),
        0 <= p <= i,
    ensures
        expr_at(t1, p) == expr_at(t2, p),
        expr_at(t1, p) matches Ok((_, q)) ==> q <= i,
    decreases i - p,
{
    assert(tok_at(t1, p) == tok_at(t2, p));
    if tok_at(t1, p).0 is Minus {
        assert(p < i);
        assert(0 <= p < t1.len());
        assert(0 <= p < t2.len());
        lemma_expr_agree(t1, t2, i, p + 1);
    }
}

proof fn lemma_statement_agree(t1: Seq<(TokenV, Span)>, t2: Seq<(TokenV, Span)>, i: int, p: int)
    requires
        agree_up_to(t1, t2, i),
        0 <= p <= i,
    ensures
        statement_at(t1, p) == statement_at(t2, p),
        statement_at(t1, p) matches Ok((_, q)) ==> q <= i,
{
    assert forall|q: int| 0 <= q <= i implies #[trigger] expr_at(t1, q) == expr_at(t2, q) && (
    expr_at(t1, q) matches Ok((_, r)) ==> r <= i) by {
        lemma_expr_agree(t1, t2, i, q);
    }
    let cur = tok_at(t1, p);
    assert(cur == tok_at(t2, p));
    if !(cur.0 is Eof) {
        assert(p < i);
        assert(tok_at(t1, p + 1) == tok_at(t2, p + 1));
        if p + 2 <= i {
            assert(tok_at(t1, p + 2) == tok_at(t2, p + 2));
        }
    }
    match cur.0 {
        TokenV::Afficher => {
            if let Ok(q1) = expect_at(t1, p + 1, TokenV::LParen, "`(` après `afficher`"@) {
                if let Ok((_, q2)) = expr_at(t1, q1) {
                    assert(tok_at(t1, q2) == tok_at(t2, q2));
                    if let Ok(q3) = expect_at(t1, q2, TokenV::RParen, "`)` pour fermer l'appel"@) {
                        assert(tok_at(t1, q3) == tok_at(t2, q3));
                    }
                }
            }
        },
        TokenV::Declarer => {
            if let Ok((_, q1)) = ident_at(t1, p + 1, "le nom d'une variable"@) {
                assert(tok_at(t1, q1) == tok_at(t2, q1));
                if let Ok(q2) = expect_at(t1, q1, TokenV::Colon, "`:` après le nom de la variable"@) {
                    assert(tok_at(t1, q2) == tok_at(t2, q2));
                    if let Ok((_, q3)) = type_at(t1, q2) {
                        assert(tok_at(t1, q3) == tok_at(t2, q3));
                    }
                }
            }
        },
        TokenV::Ident(name) => {
            if tok_at(t1, p + 1).0 is Assign {
                if let Ok((_, q1)) = expr_at(t1, p + 2) {
                    assert(tok_at(t1, q1) == tok_at(t2, q1));
                }
            }
        },
        _ => {},
    }
}

proof fn lemma_statements_agree(t1: Seq<(TokenV, Span)>, t2: Seq<(TokenV, Span)>, i: int, p: int)
    requires
        agree_up_to(t1, t2, i),
        0 <= p <= i,
    ensures
        statements_from(t1, p) == statements_from(t2, p),
    decreases i - p,
{
    assert(tok_at(t1, p) == tok_at(t2, p));
    if !(tok_at(t1, p).0 is Eof) {
        lemma_statement_agree(t1, t2, i, p);
        lemma_statement_progress(t1, p);
        if let Ok((_, q)) = statement_at(t1, p) {
            lemma_statements_agree(t1, t2, i, q);
        }
    }
}

/// The parser never panics on any list of tokens (possibly empty, possibly
/// without `Eof`): an empty list is an empty program, every failure is a
/// located `E101` or `E102`, and whatever follows an `Eof` token is ignored.
pub proof fn law_parse_outcomes(ts: Seq<(TokenV, Span)>, i: int)
    ensures
        parsed(Seq::<(TokenV, Span)>::empty()) == Ok::<_, CompileErrorV>(Seq::<StatementV>::empty()),
        parsed(ts) matches Err(e) ==> syntax_failure(e),
        0 <= i < ts.len() && ts[i].0 is Eof ==> parsed(ts) == parsed(ts.take(i + 1)),
{
    lemma_statements_errors(ts, 0);
    if 0 <= i < ts.len() && ts[i].0 is Eof {
        let t2 = ts.take(i + 1);
        assert forall|k: int| 0 <= k <= i implies #[trigger] tok_at(ts, k) == tok_at(t2, k) by {}
        lemma_statements_agree(ts, t2, i, 0);
    }
}

/// A token that ends an expression: `)` or `;`.
pub open spec fn ends_expression(t: TokenV) -> bool {
    t is RParen || t is Semicolon
}

/// Tokens that can stand inside an expression: no `)`, no `;`, no end of file.
pub open spec fn expression_tokens(e: Seq<(TokenV, Span)>) -> bool {
    forall|k: int| 0 <= k < e.len() ==> !ends_expression(#[trigger] e[k].0) && !(e[k].0 is Eof)
}

/// An expression stops at or before the first `)` or `;`: read at `p1` in
/// `t1` and at `p2` in `t2`, where the `n` tokens from there are the same, it
/// gives the same value and reads as many tokens.
proof fn lemma_expr_before_end(t1: Seq<(TokenV, Span)>, t2: Seq<(TokenV, Span)>, p1: int, p2: int, n: int)
    requires
        0 <= p1,
        0 <= p2,
        0 <= n,
        forall|k: int| p1 <= k < p1 + n ==> #[trigger] tok_at(t1, k) == tok_at(t2, k - p1 + p2),
        ends_expression(tok_at(t1, p1 + n).0),
        ends_expression(tok_at(t2, p2 + n).0),
    ensures
        expr_at(t1, p1) is Ok <==> expr_at(t2, p2) is Ok,
        expr_at(t1, p1) is Ok ==> {
            &&& expr_at(t1, p1)->Ok_0.0 == expr_at(t2, p2)->Ok_0.0
            &&& expr_at(t1, p1)->Ok_0.1 - p1 == expr_at(t2, p2)->Ok_0.1 - p2
            &&& expr_at(t1, p1)->Ok_0.1 <= p1 + n
        },
    decreases n,
{
    if n > 0 {
        assert(tok_at(t1, p1) == tok_at(t2, p1 - p1 + p2));
        if tok_at(t1, p1).0 is Minus {
            assert forall|k: int| p1 + 1 <= k < p1 + 1 + (n - 1) implies #[trigger] tok_at(t1, k)
                == tok_at(t2, k - (p1 + 1) + (p2 + 1)) by {
                assert(tok_at(t1, k) == tok_at(t2, k - p1 + p2));
            }
            lemma_expr_before_end(t1, t2, p1 + 1, p2 + 1, n - 1);
        }
    }
}

/// The tokens of `name <- e ;`, then the end of the file.
pub open spec fn assignment_tokens(name: Seq<char>, e: Seq<(TokenV, Span)>, a: Span, b: Span, c: Span, d: Span) -> Seq<(TokenV, Span)> {
    seq![(TokenV::Ident(name), a), (TokenV::Assign, b)] + e + seq![(TokenV::Semicolon, c), (TokenV::Eof, d)]
}

/// The tokens of `afficher ( e ) ;`, then the end of the file.
pub open spec fn afficher_tokens(e: Seq<(TokenV, Span)>, a: Span, b: Span, f: Span, c: Span, d: Span) -> Seq<(TokenV, Span)> {
    seq![(TokenV::Afficher, a), (TokenV::LParen, b)] + e + seq![(TokenV::RParen, f), (TokenV::Semicolon, c), (TokenV::Eof, d)]
}

/// `afficher ( e ) ;` displays exactly what `name <- e ;` assigns: the
/// argument of `afficher` follows the same expression grammar as the right
/// side of an assignment (an expression that starts with `-` included), and
/// the one program parses to a single statement with value `v` if and only
/// if the other does.
pub proof fn law_afficher_takes_any_expression(
    name: Seq<char>,
    e: Seq<(TokenV, Span)>,
    v: ExprV,
    a: Span,
    b: Span,
    c: Span,
    d: Span,
    f: Span,
)
    requires
        expression_tokens(e),
    ensures
        parsed(assignment_tokens(name, e, a, b, c, d)) == Ok::<_, CompileErrorV>(
            seq![StatementV::Affecter { name, value: v }],
        ) <==> parsed(afficher_tokens(e, a, b, f, c, d)) == Ok::<_, CompileErrorV>(
            seq![StatementV::Afficher(v)],
        ),
{
    let t1 = assignment_tokens(name, e, a, b, c, d);
    let t2 = afficher_tokens(e, a, b, f, c, d);
    let i: int = e.len() as int + 2;
    assert forall|k: int| 2 <= k < 2 + e.len() implies #[trigger] tok_at(t1, k) == tok_at(t2, k - 2 + 2) by {
        assert(t1[k] == e[k - 2]);
        assert(t2[k] == e[k - 2]);
    }
    assert(tok_at(t1, i).0 is Semicolon);
    assert(tok_at(t2, i).0 is RParen);
    assert(tok_at(t1, 0).0 is Ident);
    assert(tok_at(t1, 1).0 is Assign);
    assert(tok_at(t2, 0).0 is Afficher);
    assert(tok_at(t2, 1).0 is LParen);
    lemma_expr_before_end(t1, t2, 2, 2, e.len() as int);
    if let Ok((w, q)) = expr_at(t1, 2) {
        lemma_expr_progress(t1, 2);
        if q < i {
            assert(t1[q] == e[q - 2]);
            assert(t2[q] == e[q - 2]);
            assert(!ends_expression(e[q - 2].0));
            assert(statement_at(t1, 0) is Err);
            assert(statement_at(t2, 0) is Err);
            assert(parsed(t1) is Err);
            assert(parsed(t2) is Err);
        } else {
            assert(q == i);
            assert(tok_at(t1, i + 1).0 is Eof);
            assert(tok_at(t2, i + 1).0 is Semicolon);
            assert(tok_at(t2, i + 2).0 is Eof);
            assert(statement_at(t1, 0) == Ok::<_, CompileErrorV>((StatementV::Affecter { name, value: w }, i + 1)));
            assert(statement_at(t2, 0) == Ok::<_, CompileErrorV>((StatementV::Afficher(w), i + 2)));
            assert(statements_from(t1, i + 1) == Ok::<_, CompileErrorV>(Seq::<StatementV>::empty()));
            assert(statements_from(t2, i + 2) == Ok::<_, CompileErrorV>(Seq::<StatementV>::empty()));
            assert(parsed(t1) == Ok::<_, CompileErrorV>(seq![StatementV::Affecter { name, value: w }]));
            assert(parsed(t2) == Ok::<_, CompileErrorV>(seq![StatementV::Afficher(w)]));
            assert(seq![StatementV::Affecter { name, value: w }][0] == StatementV::Affecter { name, value: w });
            assert(seq![StatementV::Affecter { name, value: v }][0] == StatementV::Affecter { name, value: v });
            assert(seq![StatementV::Afficher(w)][0] == StatementV::Afficher(w));
            assert(seq![StatementV::Afficher(v)][0] == StatementV::Afficher(v));
        }
    } else {
        assert(statement_at(t1, 0) is Err);
        assert(statement_at(t2, 0) is Err);
        assert(parsed(t1) is Err);
        assert(parsed(t2) is Err);
    }
}

/// A `-` in front of an expression negates it: `name <- - e ;` assigns the
/// negation of what `name <- e ;` assigns, and the one parses to a single
/// statement if and only if the other does.
pub proof fn law_minus_negates(
    name: Seq<char>,
    e: Seq<(TokenV, Span)>,
    v: ExprV,
    m: Span,
    a: Span,
    b: Span,
    c: Span,
    d: Span,
)
    requires
        expression_tokens(e),
    ensures
        parsed(assignment_tokens(name, seq![(TokenV::Minus, m)] + e, a, b, c, d)) == Ok::<
            _,
            CompileErrorV,
        >(seq![StatementV::Affecter { name, value: ExprV::Neg(Box::new(v)) }])
            <==> parsed(assignment_tokens(name, e, a, b, c, d)) == Ok::<_, CompileErrorV>(
            seq![StatementV::Affecter { name, value: v }],
        ),
{
    let me = seq![(TokenV::Minus, m)] + e;
    let t1 = assignment_tokens(name, me, a, b, c, d);
    let t2 = assignment_tokens(name, e, a, b, c, d);
    let i: int = e.len() as int + 2;
    assert forall|k: int| 3 <= k < 3 + e.len() implies #[trigger] tok_at(t1, k) == tok_at(t2, k - 3 + 2) by {
        assert(t1[k] == me[k - 2]);
        assert(me[k - 2] == e[k - 3]);
        assert(t2[k - 1] == e[k - 3]);
    }
    assert(tok_at(t1, i + 1).0 is Semicolon);
    assert(tok_at(t2, i).0 is Semicolon);
    assert(tok_at(t1, 0).0 is Ident);
    assert(tok_at(t1, 1).0 is Assign);
    assert(tok_at(t1, 2).0 is Minus);
    assert(tok_at(t2, 0).0 is Ident);
    assert(tok_at(t2, 1).0 is Assign);
    lemma_expr_before_end(t1, t2, 3, 2, e.len() as int);
    if let Ok((w, q)) = expr_at(t2, 2) {
        lemma_expr_progress(t2, 2);
        assert(expr_at(t1, 2) == Ok::<_, CompileErrorV>((ExprV::Neg(Box::new(w)), q + 1)));
        if q < i {
            assert(t2[q] == e[q - 2]);
            assert(t1[q + 1] == me[q - 1]);
            assert(me[q - 1] == e[q - 2]);
            assert(!ends_expression(e[q - 2].0));
            assert(statement_at(t1, 0) is Err);
            assert(statement_at(t2, 0) is Err);
            assert(parsed(t1) is Err);
            assert(parsed(t2) is Err);
        } else {
            assert(q == i);
            assert(tok_at(t1, i + 2).0 is Eof);
            assert(tok_at(t2, i + 1).0 is Eof);
            assert(statement_at(t1, 0) == Ok::<_, CompileErrorV>(
                (StatementV::Affecter { name, value: ExprV::Neg(Box::new(w)) }, i + 2),
            ));
            assert(statement_at(t2, 0) == Ok::<_, CompileErrorV>((StatementV::Affecter { name, value: w }, i + 1)));
            assert(statements_from(t1, i + 2) == Ok::<_, CompileErrorV>(Seq::<StatementV>::empty()));
            assert(statements_from(t2, i + 1) == Ok::<_, CompileErrorV>(Seq::<StatementV>::empty()));
            let s1 = seq![StatementV::Affecter { name, value: ExprV::Neg(Box::new(w)) }];
            let s2 = seq![StatementV::Affecter { name, value: w }];
            assert(parsed(t1) == Ok::<_, CompileErrorV>(s1));
            assert(parsed(t2) == Ok::<_, CompileErrorV>(s2));
            assert(s1[0] == StatementV::Affecter { name, value: ExprV::Neg(Box::new(w)) });
            assert(s2[0] == StatementV::Affecter { name, value: w });
            assert(seq![StatementV::Affecter { name, value: ExprV::Neg(Box::new(v)) }][0]
                == StatementV::Affecter { name, value: ExprV::Neg(Box::new(v)) });
            assert(seq![StatementV::Affecter { name, value: v }][0] == StatementV::Affecter { name, value: v });
        }
    } else {
        assert(expr_at(t1, 2) is Err);
        assert(statement_at(t1, 0) is Err);
        assert(statement_at(t2, 0) is Err);
        assert(parsed(t1) is Err);
        assert(parsed(t2) is Err);
    }
}

/// What `name <- tok ;` parses to, every token with the span `sp`.
pub open spec fn assigned_from(name: Seq<char>, tok: TokenV, sp: Span) -> Result<Seq<StatementV>, CompileErrorV> {
    parsed(assignment_tokens(name, seq![(tok, sp)], sp, sp, sp, sp))
}

proof fn lemma_assigned_from(name: Seq<char>, tok: TokenV, sp: Span)
    ensures
        primary_at(assignment_tokens(name, seq![(tok, sp)], sp, sp, sp, sp), 2) matches Ok((v, _))
            ==> assigned_from(name, tok, sp) == Ok::<_, CompileErrorV>(
            seq![StatementV::Affecter { name, value: v }],
        ),
{
    let t = assignment_tokens(name, seq![(tok, sp)], sp, sp, sp, sp);
    if let Ok((v, q)) = primary_at(t, 2) {
        assert(tok_at(t, 0).0 == TokenV::Ident(name));
        assert(tok_at(t, 1).0 is Assign);
        assert(tok_at(t, 2).0 == tok);
        assert(tok_at(t, 3).0 is Semicolon);
        assert(tok_at(t, 4).0 is Eof);
        assert(q == 3);
        assert(expr_at(t, 2) == primary_at(t, 2));
        assert(statement_at(t, 0) == Ok::<_, CompileErrorV>((StatementV::Affecter { name, value: v }, 4int)));
        assert(statements_from(t, 4) == Ok::<_, CompileErrorV>(Seq::<StatementV>::empty()));
        assert(seq![StatementV::Affecter { name, value: v }] + Seq::<StatementV>::empty() =~= seq![
            StatementV::Affecter { name, value: v },
        ]);
    }
}

/// Each literal stands for its own value and a variable for itself:
/// `name <- 42 ;` assigns the integer 42, a real literal keeps its text, a
/// string or a character its content, `vrai` and `faux` the booleans true
/// and false, and another name the variable of that name.
pub proof fn law_literal_values(name: Seq<char>, n: i64, t: Seq<char>, text: Seq<char>, ch: char, other: Seq<char>, sp: Span)
    ensures
        assigned_from(name, TokenV::IntLit(n), sp) == Ok::<_, CompileErrorV>(
            seq![StatementV::Affecter { name, value: ExprV::Entier(n) }],
        ),
        assigned_from(name, TokenV::FloatLit(t), sp) == Ok::<_, CompileErrorV>(
            seq![StatementV::Affecter { name, value: ExprV::Reel(t) }],
        ),
        assigned_from(name, TokenV::StringLit(text), sp) == Ok::<_, CompileErrorV>(
            seq![StatementV::Affecter { name, value: ExprV::Chaine(text) }],
        ),
        assigned_from(name, TokenV::CharLit(ch), sp) == Ok::<_, CompileErrorV>(
            seq![StatementV::Affecter { name, value: ExprV::Caractere(ch) }],
        ),
        assigned_from(name, TokenV::Vrai, sp) == Ok::<_, CompileErrorV>(
            seq![StatementV::Affecter { name, value: ExprV::Booleen(true) }],
        ),
        assigned_from(name, TokenV::Faux, sp) == Ok::<_, CompileErrorV>(
            seq![StatementV::Affecter { name, value: ExprV::Booleen(false) }],
        ),
        assigned_from(name, TokenV::Ident(other), sp) == Ok::<_, CompileErrorV>(
            seq![StatementV::Affecter { name, value: ExprV::Ident(other) }],
        ),
{
    lemma_assigned_from(name, TokenV::IntLit(n), sp);
    lemma_assigned_from(name, TokenV::FloatLit(t), sp);
    lemma_assigned_from(name, TokenV::StringLit(text), sp);
    lemma_assigned_from(name, TokenV::CharLit(ch), sp);
    lemma_assigned_from(name, TokenV::Vrai, sp);
    lemma_assigned_from(name, TokenV::Faux, sp);
    lemma_assigned_from(name, TokenV::Ident(other), sp);
}

/// The tokens of `declarer name : kw ;`, then the end of the file.
pub open spec fn declaration_tokens(
    name: Seq<char>,
    kw: TokenV,
    sp: Span,
) -> Seq<(TokenV, Span)> {
    seq![
        (TokenV::Declarer, sp),
        (TokenV::Ident(name), sp),
        (TokenV::Colon, sp),
        (kw, sp),
        (TokenV::Semicolon, sp),
        (TokenV::Eof, sp),
    ]
}

/// What `declarer name : word ;` parses to, `word` being the lowercase
/// spelling of a keyword.
pub open spec fn declared_with(name: Seq<char>, word: Seq<char>, sp: Span) -> Result<Seq<StatementV>, CompileErrorV> {
    parsed(declaration_tokens(name, keyword_token(word)->Some_0, sp))
}

proof fn lemma_type_words()
    ensures
        keyword_token("entier"@) == Some(TokenV::TyEntier),
        keyword_token("entier_naturel"@) == Some(TokenV::TyEntierNaturel),
        keyword_token("reel"@) == Some(TokenV::TyReel),
        keyword_token("booleen"@) == Some(TokenV::TyBooleen),
        keyword_token("caractere"@) == Some(TokenV::TyCaractere),
        keyword_token("string"@) == Some(TokenV::TyChaine),
{
    reveal_strlit("afficher");
    reveal_strlit("declarer");
    reveal_strlit("entier");
    reveal_strlit("entier_naturel");
    reveal_strlit("reel");
    reveal_strlit("booleen");
    reveal_strlit("caractere");
    reveal_strlit("string");
    assert("entier"@.len() != "afficher"@.len() || "entier"@[0] != "afficher"@[0]);
    assert("entier"@.len() != "declarer"@.len() || "entier"@[0] != "declarer"@[0]);
    assert("entier_naturel"@.len() != "afficher"@.len() || "entier_naturel"@[0] != "afficher"@[0]);
    assert("entier_naturel"@.len() != "declarer"@.len() || "entier_naturel"@[0] != "declarer"@[0]);
    assert("entier_naturel"@.len() != "entier"@.len() || "entier_naturel"@[0] != "entier"@[0]);
    assert("reel"@.len() != "afficher"@.len() || "reel"@[0] != "afficher"@[0]);
    assert("reel"@.len() != "declarer"@.len() || "reel"@[0] != "declarer"@[0]);
    assert("reel"@.len() != "entier"@.len() || "reel"@[0] != "entier"@[0]);
    assert("reel"@.len() != "entier_naturel"@.len() || "reel"@[0] != "entier_naturel"@[0]);
    assert("booleen"@.len() != "afficher"@.len() || "booleen"@[0] != "afficher"@[0]);
    assert("booleen"@.len() != "declarer"@.len() || "booleen"@[0] != "declarer"@[0]);
    assert("booleen"@.len() != "entier"@.len() || "booleen"@[0] != "entier"@[0]);
    assert("booleen"@.len() != "entier_naturel"@.len() || "booleen"@[0] != "entier_naturel"@[0]);
    assert("booleen"@.len() != "reel"@.len() || "booleen"@[0] != "reel"@[0]);
    assert("caractere"@.len() != "afficher"@.len() || "caractere"@[0] != "afficher"@[0]);
    assert("caractere"@.len() != "declarer"@.len() || "caractere"@[0] != "declarer"@[0]);
    assert("caractere"@.len() != "entier"@.len() || "caractere"@[0] != "entier"@[0]);
    assert("caractere"@.len() != "entier_naturel"@.len() || "caractere"@[0] != "entier_naturel"@[0]);
    assert("caractere"@.len() != "reel"@.len() || "caractere"@[0] != "reel"@[0]);
    assert("caractere"@.len() != "booleen"@.len() || "caractere"@[0] != "booleen"@[0]);
    assert("string"@.len() != "afficher"@.len() || "string"@[0] != "afficher"@[0]);
    assert("string"@.len() != "declarer"@.len() || "string"@[0] != "declarer"@[0]);
    assert("string"@.len() != "entier"@.len() || "string"@[0] != "entier"@[0]);
    assert("string"@.len() != "entier_naturel"@.len() || "string"@[0] != "entier_naturel"@[0]);
    assert("string"@.len() != "reel"@.len() || "string"@[0] != "reel"@[0]);
    assert("string"@.len() != "booleen"@.len() || "string"@[0] != "booleen"@[0]);
    assert("string"@.len() != "caractere"@.len() || "string"@[0] != "caractere"@[0]);
}

proof fn lemma_declaration(name: Seq<char>, kw: TokenV, sp: Span)
    ensures
        type_at(declaration_tokens(name, kw, sp), 3) matches Ok((ty, _)) ==> parsed(
            declaration_tokens(name, kw, sp),
        ) == Ok::<_, CompileErrorV>(seq![StatementV::Declarer { name, ty }]),
{
    let t = declaration_tokens(name, kw, sp);
    if let Ok((ty, q)) = type_at(t, 3) {
        assert(tok_at(t, 0).0 is Declarer);
        assert(tok_at(t, 1).0 == TokenV::Ident(name));
        assert(tok_at(t, 2).0 is Colon);
        assert(tok_at(t, 4).0 is Semicolon);
        assert(tok_at(t, 5).0 is Eof);
        assert(q == 4);
        assert(statement_at(t, 0) == Ok::<_, CompileErrorV>((StatementV::Declarer { name, ty }, 5int)));
        assert(statements_from(t, 5) == Ok::<_, CompileErrorV>(Seq::<StatementV>::empty()));
        assert(seq![StatementV::Declarer { name, ty }] + Seq::<StatementV>::empty() =~= seq![
            StatementV::Declarer { name, ty },
        ]);
    }
}

/// Each of the six type keywords declares a variable of its own type:
/// `declarer name : entier ;` gives `Entier`, `entier_naturel` gives
/// `EntierNaturel`, `reel` gives `Reel`, `booleen` gives `Booleen`,
/// `caractere` gives `Caractere` and `string` gives `Chaine`, whatever the
/// variable's name and wherever the tokens stand.
pub proof fn law_type_keywords(name: Seq<char>, sp: Span)
    ensures
        declared_with(name, "entier"@, sp) == Ok::<_, CompileErrorV>(
            seq![StatementV::Declarer { name, ty: Type::Entier }],
        ),
        declared_with(name, "entier_naturel"@, sp) == Ok::<_, CompileErrorV>(
            seq![StatementV::Declarer { name, ty: Type::EntierNaturel }],
        ),
        declared_with(name, "reel"@, sp) == Ok::<_, CompileErrorV>(
            seq![StatementV::Declarer { name, ty: Type::Reel }],
        ),
        declared_with(name, "booleen"@, sp) == Ok::<_, CompileErrorV>(
            seq![StatementV::Declarer { name, ty: Type::Booleen }],
        ),
        declared_with(name, "caractere"@, sp) == Ok::<_, CompileErrorV>(
            seq![StatementV::Declarer { name, ty: Type::Caractere }],
        ),
        declared_with(name, "string"@, sp) == Ok::<_, CompileErrorV>(
            seq![StatementV::Declarer { name, ty: Type::Chaine }],
        ),
{
    lemma_type_words();
    lemma_declaration(name, TokenV::TyEntier, sp);
    lemma_declaration(name, TokenV::TyEntierNaturel, sp);
    lemma_declaration(name, TokenV::TyReel, sp);
    lemma_declaration(name, TokenV::TyBooleen, sp);
    lemma_declaration(name, TokenV::TyCaractere, sp);
    lemma_declaration(name, TokenV::TyChaine, sp);
}

// --- Executable parser ---

/// Parses a list of located tokens into a [`Program`].
pub fn parse(tokens: &[SpannedToken]) -> (r: CompileResult<Program>)
    ensures
        match r {
            Ok(program) => parsed(token_views(tokens@)) == Ok::<_, CompileErrorV>(program@),
            Err(e) => parsed(token_views(tokens@)) == Err::<Seq<StatementV>, _>(e@),
        },
{
    Parser::new(tokens).parse_program()
}

/// A number per token variant, whatever the variant holds.
fn kind_of(t: &Token) -> (n: u8)
    ensures
        n == kind_number(t@),
{
    match t {
        Token::Afficher => 0,
        Token::Declarer => 1,
        Token::TyEntier => 2,
        Token::TyEntierNaturel => 3,
        Token::TyReel => 4,
        Token::TyBooleen => 5,
        Token::TyCaractere => 6,
        Token::TyChaine => 7,
        Token::Vrai => 8,
        Token::Faux => 9,
        Token::Ident(_) => 10,
        Token::IntLit(_) => 11,
        Token::FloatLit(_) => 12,
        Token::StringLit(_) => 13,
        Token::CharLit(_) => 14,
        Token::Assign => 15,
        Token::Colon => 16,
        Token::LParen => 17,
        Token::RParen => 18,
        Token::Minus => 19,
        Token::Semicolon => 20,
        Token::Eof => 21,
    }
}

/// Recursive-descent parser over a list of located tokens.
///
/// It never panics: every anomaly becomes a located [`CompileError`]
/// (`E101` unexpected token, `E102` premature end).
struct Parser<'a> {
    tokens: &'a [SpannedToken],
    pos: usize,
    /// Synthetic `Eof` token read past the end of the list.
    eof: SpannedToken,
}

impl<'a> Parser<'a> {
    spec fn ts(&self) -> Seq<(TokenV, Span)> {
        token_views(self.tokens@)
    }

    spec fn wf(&self) -> bool {
        &&& self.pos <= self.tokens@.len()
        &&& self.eof@ == eof_token()
    }

    fn new(tokens: &'a [SpannedToken]) -> (p: Self)
        ensures
            p.wf(),
            p.pos == 0,
            p.tokens@ == tokens@,
    {
        Parser { tokens, pos: 0, eof: SpannedToken::new(Token::Eof, Span::new(1, 1, 1)) }
    }

    fn current(&self) -> (t: &SpannedToken)
        requires
            self.wf(),
        ensures
            t@ == tok_at(self.ts(), self.pos as int),
    {
        if self.pos < self.tokens.len() {
            &self.tokens[self.pos]
        } else {
            &self.eof
        }
    }

    /// Moves to the next token.
    fn advance(&mut self)
        requires
            old(self).wf(),
            old(self).pos < old(self).tokens@.len(),
        ensures
            final(self).wf(),
            final(self).tokens@ == old(self).tokens@,
            final(self).pos == old(self).pos + 1,
    {
        let n = self.tokens.len();
        assert(self.pos < n);
        self.pos += 1;
    }

    /// The error raised when `expected` was wanted at the current token.
    fn expected_here(&self, expected: &str) -> (e: CompileError)
        requires
            self.wf(),
        ensures
            e@ == expected_error(expected@, tok_at(self.ts(), self.pos as int)),
    {
        let current = self.current();
        let span = current.span;
        if matches!(current.token, Token::Eof) {
            let mut hint = "instruction incomplète — il manque ".to_string();
            hint.append(expected);
            return CompileError::unexpected_eof(expected, span).with_hint(hint.as_str());
        }
        let found = current.token.describe();
        CompileError::unexpected_token(found.as_str(), expected, span)
    }

    /// Consumes the current token if it is of the same variant as `kind`,
    /// else returns `E101` (or `E102` at the end of the file).
    fn expect(&mut self, kind: Token, expected: &str) -> (r: CompileResult<()>)
        requires
            old(self).wf(),
            !(kind@ is Eof),
        ensures
            final(self).wf(),
            final(self).tokens@ == old(self).tokens@,
            match expect_at(old(self).ts(), old(self).pos as int, kind@, expected@) {
                Ok(q) => r is Ok && final(self).pos == q,
                Err(e) => r matches Err(x) && x@ == e,
            },
    {
        if kind_of(&self.current().token) == kind_of(&kind) {
            self.advance();
            return Ok(());
        }
        Err(self.expected_here(expected))
    }

    /// Consumes an identifier (the name of a variable).
    fn expect_ident(&mut self, expected: &str) -> (r: CompileResult<String>)
        requires
            old(self).wf(),
        ensures
            final(self).wf(),
            final(self).tokens@ == old(self).tokens@,
            match ident_at(old(self).ts(), old(self).pos as int, expected@) {
                Ok((name, q)) => r matches Ok(n) && n@ == name && final(self).pos == q,
                Err(e) => r matches Err(x) && x@ == e,
            },
    {
        let name = match &self.current().token {
            Token::Ident(name) => name.clone(),
            _ => {
                return Err(self.expected_here(expected));
            },
        };
        self.advance();
        Ok(name)
    }

    fn parse_program(self) -> (r: CompileResult<Program>)
        requires
            self.wf(),
            self.pos == 0,
        ensures
            match r {
                Ok(program) => parsed(self.ts()) == Ok::<_, CompileErrorV>(program@),
                Err(e) => parsed(self.ts()) == Err::<Seq<StatementV>, _>(e@),
            },
    {
        let mut ps = self;
        let ghost ts = ps.ts();
        let mut statements: Vec<Statement> = Vec::new();
        assert(statement_views(statements@) =~= Seq::<StatementV>::empty());
        assert(prepend_statements(statement_views(statements@), statements_from(ts, 0)) =~= statements_from(ts, 0)) by {
            match statements_from(ts, 0) {
                Ok(v) => {
                    assert(Seq::<StatementV>::empty() + v =~= v);
                },
                Err(_) => {},
            }
        }
        while !matches!(ps.current().token, Token::Eof)
            invariant
                ps.wf(),
                ps.ts() == ts,
                self.ts() == ts,
                parsed(ts) == prepend_statements(statement_views(statements@), statements_from(ts, ps.pos as int)),
            decreases ts.len() - ps.pos,
        {
            let ghost p = ps.pos as int;
            let ghost pre = statement_views(statements@);
            proof {
                lemma_statement_progress(ts, p);
            }
            let st = match ps.parse_statement() {
                Ok(st) => st,
                Err(e) => {
                    return Err(e);
                },
            };
            statements.push(st);
            proof {
                if let Ok((sv, q)) = statement_at(ts, p) {
                    assert(statement_views(statements@) =~= pre.push(sv));
                    match statements_from(ts, q) {
                        Ok(rest) => {
                            assert(pre + (seq![sv] + rest) =~= pre.push(sv) + rest);
                        },
                        Err(_) => {},
                    }
                }
            }
        }
        assert(statements_from(ts, ps.pos as int) == Ok::<_, CompileErrorV>(Seq::<StatementV>::empty()));
        assert(statement_views(statements@) + Seq::<StatementV>::empty() =~= statement_views(statements@));
        Ok(Program { statements })
    }

    fn parse_statement(&mut self) -> (r: CompileResult<Statement>)
        requires
            old(self).wf(),
        ensures
            final(self).wf(),
            final(self).tokens@ == old(self).tokens@,
            match statement_at(old(self).ts(), old(self).pos as int) {
                Ok((st, q)) => r matches Ok(x) && x@ == st && final(self).pos == q,
                Err(e) => r matches Err(x) && x@ == e,
            },
    {
        if matches!(self.current().token, Token::Afficher) {
            return self.parse_afficher();
        }
        if matches!(self.current().token, Token::Declarer) {
            return self.parse_declarer();
        }
        // A statement may also be an assignment: `nom <- valeur ;`.
        let ident = match &self.current().token {
            Token::Ident(name) => Some(name.clone()),
            _ => None,
        };
        if let Some(name) = ident {
            let span = self.current().span;
            return self.parse_affectation(name.as_str(), span);
        }
        let current = self.current();
        Err(
            CompileError::unexpected_token(
                current.token.describe().as_str(),
                "le mot-clé `afficher`, le mot-clé `declarer` ou une affectation (`nom <- valeur ;`)",
                current.span,
            ).with_hint(
                "chaque instruction commence par `afficher(...)`, `declarer nom : type ;` ou `nom <- valeur ;`",
            ),
        )
    }

    /// `afficher ( expr ) ;`
    fn parse_afficher(&mut self) -> (r: CompileResult<Statement>)
        requires
            old(self).wf(),
            tok_at(old(self).ts(), old(self).pos as int).0 is Afficher,
        ensures
            final(self).wf(),
            final(self).tokens@ == old(self).tokens@,
            match afficher_at(old(self).ts(), old(self).pos as int) {
                Ok((st, q)) => r matches Ok(x) && x@ == st && final(self).pos == q,
                Err(e) => r matches Err(x) && x@ == e,
            },
    {
        self.advance();
        self.expect(Token::LParen, "`(` après `afficher`")?;
        let value = self.parse_expr()?;
        self.expect(Token::RParen, "`)` pour fermer l'appel")?;
        self.expect(Token::Semicolon, "`;` en fin d'instruction")?;
        Ok(Statement::Afficher(value))
    }

    /// `declarer nom : type ;`
    fn parse_declarer(&mut self) -> (r: CompileResult<Statement>)
        requires
            old(self).wf(),
            tok_at(old(self).ts(), old(self).pos as int).0 is Declarer,
        ensures
            final(self).wf(),
            final(self).tokens@ == old(self).tokens@,
            match declarer_at(old(self).ts(), old(self).pos as int) {
                Ok((st, q)) => r matches Ok(x) && x@ == st && final(self).pos == q,
                Err(e) => r matches Err(x) && x@ == e,
            },
    {
        self.advance();
        let name = self.expect_ident("le nom d'une variable")?;
        self.expect(Token::Colon, "`:` après le nom de la variable")?;
        let ty = self.parse_type()?;
        self.expect(Token::Semicolon, "`;` en fin de déclaration")?;
        Ok(Statement::Declarer { name, ty })
    }

    /// `nom <- expr ;`
    ///
    /// `name` and `span` are those of the identifier that starts the statement.
    fn parse_affectation(&mut self, name: &str, span: Span) -> (r: CompileResult<Statement>)
        requires
            old(self).wf(),
            tok_at(old(self).ts(), old(self).pos as int).0 == TokenV::Ident(name@),
            tok_at(old(self).ts(), old(self).pos as int).1 == span,
        ensures
            final(self).wf(),
            final(self).tokens@ == old(self).tokens@,
            match affectation_at(old(self).ts(), old(self).pos as int, name@, span) {
                Ok((st, q)) => r matches Ok(x) && x@ == st && final(self).pos == q,
                Err(e) => r matches Err(x) && x@ == e,
            },
    {
        self.advance();
        if matches!(self.current().token, Token::Eof) {
            return Err(self.expected_here("le symbole `<-` après un identifiant"));
        }
        if !matches!(self.current().token, Token::Assign) {
            // The identifier starts the statement but is not followed by
            // `<-`: either the assignment is missing, or a keyword was
            // misspelt (`affichr(...)`).
            let mut found = "l'identifiant `".to_string();
            found.append(name);
            found.append("`");
            let err = CompileError::unexpected_token(
                found.as_str(),
                "le symbole `<-` après un identifiant",
                span,
            );
            return Err(
                match suggest_keyword(name) {
                    Some(keyword) => {
                        let mut hint = "vouliez-vous dire `".to_string();
                        hint.append(keyword);
                        hint.append("` ?");
                        err.with_hint(hint.as_str())
                    },
                    None => err.with_hint("une affectation a la forme `nom <- valeur ;`"),
                },
            );
        }
        self.advance();
        let value = self.parse_expr()?;
        self.expect(Token::Semicolon, "`;` en fin d'instruction")?;
        Ok(Statement::Affecter { name: name.to_string(), value })
    }

    fn parse_type(&mut self) -> (r: CompileResult<Type>)
        requires
            old(self).wf(),
        ensures
            final(self).wf(),
            final(self).tokens@ == old(self).tokens@,
            match type_at(old(self).ts(), old(self).pos as int) {
                Ok((ty, q)) => r matches Ok(x) && x == ty && final(self).pos == q,
                Err(e) => r matches Err(x) && x@ == e,
            },
    {
        let current = self.current();
        let ty = match &current.token {
            Token::TyEntier => Type::Entier,
            Token::TyEntierNaturel => Type::EntierNaturel,
            Token::TyReel => Type::Reel,
            Token::TyBooleen => Type::Booleen,
            Token::TyCaractere => Type::Caractere,
            Token::TyChaine => Type::Chaine,
            Token::Eof => {
                return Err(
                    CompileError::unexpected_eof(
                        "un type primitif (`entier`, `entier_naturel`, `reel`, `booleen`, `caractere` ou `string`)",
                        current.span,
                    ).with_hint("déclaration incomplète — il manque le type de la variable"),
                );
            },
            other => {
                return Err(
                    CompileError::unexpected_token(
                        other.describe().as_str(),
                        "un type primitif (`entier`, `entier_naturel`, `reel`, `booleen`, `caractere` ou `string`)",
                        current.span,
                    ).with_hint("exemple : declarer unEntier : entier ;"),
                );
            },
        };
        self.advance();
        Ok(ty)
    }

    /// Expression: for now only a unary term (literal, variable or `-` negation).
    fn parse_expr(&mut self) -> (r: CompileResult<Expr>)
        requires
            old(self).wf(),
        ensures
            final(self).wf(),
            final(self).tokens@ == old(self).tokens@,
            match expr_at(old(self).ts(), old(self).pos as int) {
                Ok((e, q)) => r matches Ok(x) && x@ == e && final(self).pos == q,
                Err(e) => r matches Err(x) && x@ == e,
            },
        decreases old(self).tokens@.len() - old(self).pos,
    {
        if matches!(self.current().token, Token::Minus) {
            self.advance();
            let operand = self.parse_expr()?;
            return Ok(Expr::Neg(Box::new(operand)));
        }
        self.parse_primary()
    }

    fn parse_primary(&mut self) -> (r: CompileResult<Expr>)
        requires
            old(self).wf(),
        ensures
            final(self).wf(),
            final(self).tokens@ == old(self).tokens@,
            match primary_at(old(self).ts(), old(self).pos as int) {
                Ok((e, q)) => r matches Ok(x) && x@ == e && final(self).pos == q,
                Err(e) => r matches Err(x) && x@ == e,
            },
    {
        let current = self.current();
        let expr = match &current.token {
            Token::IntLit(n) => Expr::Entier(*n),
            Token::FloatLit(t) => Expr::Reel(t.clone()),
            Token::StringLit(s) => Expr::Chaine(s.clone()),
            Token::CharLit(c) => Expr::Caractere(*c),
            Token::Vrai => Expr::Booleen(true),
            Token::Faux => Expr::Booleen(false),
            Token::Ident(name) => Expr::Ident(name.clone()),
            Token::Eof => {
                let mut hint = "expression incomplète — il manque ".to_string();
                hint.append("une expression");
                return Err(
                    CompileError::unexpected_eof("une expression", current.span).with_hint(
                        hint.as_str(),
                    ),
                );
            },
            other => {
                return Err(
                    CompileError::unexpected_token(
                        other.describe().as_str(),
                        "une expression",
                        current.span,
                    ).with_hint(
                        "exemples d'expressions : `42`, `3.14`, `\"texte\"`, `'c'`, `vrai`, `faux` ou le nom d'une variable",
                    ),
                );
            },
        };
        let ghost p = self.pos as int;
        assert(primary_at(self.ts(), p) == Ok::<_, CompileErrorV>((expr@, p + 1)));
        self.advance();
        Ok(expr)
    }
}

/// `pre` followed by the statements of `r`, or the error of `r`.
pub open spec fn prepend_statements(
    pre: Seq<StatementV>,
    r: Result<Seq<StatementV>, CompileErrorV>,
) -> Result<Seq<StatementV>, CompileErrorV> {
    match r {
        Ok(v) => Ok(pre + v),
        Err(e) => Err(e),
    }
}

} // verus!
