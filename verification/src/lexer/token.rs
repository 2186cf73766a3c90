//! The tokens that the lexer recognises.
use vstd::prelude::*;
use crate::errors::{Span, str_debug_text, debug_str};
use crate::text::{signed_decimal, i64_to_decimal, chars_of};

verus! {

/// All the tokens that the lexer recognises.
///
/// Keywords (primitive types included) are recognised whatever their case:
/// `DECLARER`, `Declarer` and `declarer` give the same token. Identifiers
/// keep their case.
///
/// A real literal keeps the text it was written with (digits, `.`, digits):
/// turning it into a floating-point value is left to the caller.
#[derive(Debug, Clone, PartialEq)]
pub enum Token {
    // --- Keywords ---
    Afficher,
    Declarer,
    TyEntier,
    TyEntierNaturel,
    TyReel,
    TyBooleen,
    TyCaractere,
    TyChaine,
    Vrai,
    Faux,
    // --- Identifiers and literals ---
    Ident(String),
    IntLit(i64),
    FloatLit(String),
    StringLit(String),
    CharLit(char),
    // --- Punctuation ---
    Assign,
    Colon,
    LParen,
    RParen,
    Minus,
    Semicolon,
    Eof,
}

/// The mathematical content of a [`Token`].
pub enum TokenV {
    Afficher,
    Declarer,
    TyEntier,
    TyEntierNaturel,
    TyReel,
    TyBooleen,
    TyCaractere,
    TyChaine,
    Vrai,
    Faux,
    Ident(Seq<char>),
    IntLit(i64),
    FloatLit(Seq<char>),
    StringLit(Seq<char>),
    CharLit(char),
    Assign,
    Colon,
    LParen,
    RParen,
    Minus,
    Semicolon,
    Eof,
}

impl View for Token {
    type V = TokenV;

    open spec fn view(&self) -> TokenV {
        match self {
            Token::Afficher => TokenV::Afficher,
            Token::Declarer => TokenV::Declarer,
            Token::TyEntier => TokenV::TyEntier,
            Token::TyEntierNaturel => TokenV::TyEntierNaturel,
            Token::TyReel => TokenV::TyReel,
            Token::TyBooleen => TokenV::TyBooleen,
            Token::TyCaractere => TokenV::TyCaractere,
            Token::TyChaine => TokenV::TyChaine,
            Token::Vrai => TokenV::Vrai,
            Token::Faux => TokenV::Faux,
            Token::Ident(n) => TokenV::Ident(n@),
            Token::IntLit(v) => TokenV::IntLit(*v),
            Token::FloatLit(t) => TokenV::FloatLit(t@),
            Token::StringLit(s) => TokenV::StringLit(s@),
            Token::CharLit(c) => TokenV::CharLit(*c),
            Token::Assign => TokenV::Assign,
            Token::Colon => TokenV::Colon,
            Token::LParen => TokenV::LParen,
            Token::RParen => TokenV::RParen,
            Token::Minus => TokenV::Minus,
            Token::Semicolon => TokenV::Semicolon,
            Token::Eof => TokenV::Eof,
        }
    }
}

/// Short description of a token, for error messages.
pub open spec fn token_description(t: TokenV) -> Seq<char> {
    match t {
        TokenV::Afficher => "le mot-clé `afficher`"@,
        TokenV::Declarer => "le mot-clé `declarer`"@,
        TokenV::TyEntier => "le type `entier`"@,
        TokenV::TyEntierNaturel => "le type `entier_naturel`"@,
        TokenV::TyReel => "le type `reel`"@,
        TokenV::TyBooleen => "le type `booleen`"@,
        TokenV::TyCaractere => "le type `caractere`"@,
        TokenV::TyChaine => "le type `string`"@,
        TokenV::Vrai => "le littéral `vrai`"@,
        TokenV::Faux => "le littéral `faux`"@,
        TokenV::Ident(n) => "l'identifiant `"@ + n + "`"@,
        TokenV::IntLit(v) => "le nombre `"@ + signed_decimal(v as int) + "`"@,
        TokenV::FloatLit(t) => "le nombre `"@ + real_display(t) + "`"@,
        TokenV::StringLit(s) => "la chaîne "@ + str_debug_text(s),
        TokenV::CharLit(c) => "le caractère `"@ + seq![c] + "`"@,
        TokenV::Assign => "`<-`"@,
        TokenV::Colon => "`:`"@,
        TokenV::LParen => "`(`"@,
        TokenV::RParen => "`)`"@,
        TokenV::Minus => "`-`"@,
        TokenV::Semicolon => "`;`"@,
        TokenV::Eof => "la fin du fichier"@,
    }
}

/// `t` without its leading zeros, one zero being kept in front of a `.` or
/// at the end.
pub open spec fn skip_leading_zeros(t: Seq<char>) -> Seq<char>
    decreases t.len(),
{
    if t.len() >= 2 && t[0] == '0' && t[1] != '.' {
        skip_leading_zeros(t.drop_first())
    } else {
        t
    }
}

/// `t` without its trailing zeros, and without the `.` they leave last.
pub open spec fn drop_trailing_zeros(t: Seq<char>) -> Seq<char>
    decreases t.len(),
{
    if t.len() == 0 {
        t
    } else if t.last() == '0' {
        drop_trailing_zeros(t.drop_last())
    } else if t.last() == '.' {
        t.drop_last()
    } else {
        t
    }
}

/// How a real literal is written back: its digits without the zeros that do
/// not change its value (the leading zeros of the whole part, the trailing
/// zeros of the fractional part, and the `.` when no digit is left after it).
/// `5.10` is written `5.1`, `5.0` is written `5`, `010.50` is written `10.5`.
/// For a literal of at most fifteen significant digits whose value lies in
/// the range of normal `f64` values, this is the text that the display of the
/// `f64` read from the literal gives.
pub open spec fn real_display(t: Seq<char>) -> Seq<char> {
    if t.contains('.') {
        drop_trailing_zeros(skip_leading_zeros(t))
    } else {
        skip_leading_zeros(t)
    }
}

/// The text of a real literal as [`real_display`] writes it back.
pub fn real_display_text(t: &str) -> (r: String)
    ensures
        r@ == real_display(t@),
{
    let v = chars_of(t);
    let n = v.len();
    let mut has_dot = false;
    let mut i: usize = 0;
    while i < n
        invariant
            i <= n,
            n == v.len(),
            has_dot <==> exists|j: int| 0 <= j < i && v@[j] == '.',
        decreases n - i,
    {
        if v[i] == '.' {
            has_dot = true;
        }
        i += 1;
    }
    assert(has_dot <==> v@.contains('.'));
    let mut a: usize = 0;
    assert(v@.subrange(0, n as int) =~= v@);
    while a < n && a + 1 < n && v[a] == '0' && v[a + 1] != '.'
        invariant
            a <= n,
            n == v.len(),
            skip_leading_zeros(v@) == skip_leading_zeros(v@.subrange(a as int, n as int)),
        decreases n - a,
    {
        let ghost w = v@.subrange(a as int, n as int);
        assert(w.drop_first() =~= v@.subrange(a + 1, n as int));
        a += 1;
    }
    let ghost w = v@.subrange(a as int, n as int);
    assert(skip_leading_zeros(w) == w);
    let mut b: usize = n;
    if has_dot {
        while b > a && v[b - 1] == '0'
            invariant
                a <= b <= n,
                n == v.len(),
                drop_trailing_zeros(w) == drop_trailing_zeros(v@.subrange(a as int, b as int)),
                w == v@.subrange(a as int, n as int),
            decreases b,
        {
            let ghost u = v@.subrange(a as int, b as int);
            assert(u.drop_last() =~= v@.subrange(a as int, b - 1));
            b -= 1;
        }
        let ghost u = v@.subrange(a as int, b as int);
        if b > a && v[b - 1] == '.' {
            assert(u.drop_last() =~= v@.subrange(a as int, b - 1));
            b -= 1;
        }
    }
    let mut r = String::new();
    let mut k: usize = a;
    while k < b
        invariant
            a <= k <= b,
            b <= n,
            n == v.len(),
            r@ == v@.subrange(a as int, k as int),
        decreases b - k,
    {
        r.push(v[k]);
        assert(v@.subrange(a as int, k + 1) =~= v@.subrange(a as int, k as int).push(v@[k as int]));
        k += 1;
    }
    r
}

impl Token {
    /// Short description for error messages; a real literal is described as
    /// [`real_display`] writes it back.
    pub fn describe(&self) -> (r: String)
        ensures
            r@ == token_description(self@),
    {
        match self {
            Token::Afficher => "le mot-clé `afficher`".to_string(),
            Token::Declarer => "le mot-clé `declarer`".to_string(),
            Token::TyEntier => "le type `entier`".to_string(),
            Token::TyEntierNaturel => "le type `entier_naturel`".to_string(),
            Token::TyReel => "le type `reel`".to_string(),
            Token::TyBooleen => "le type `booleen`".to_string(),
            Token::TyCaractere => "le type `caractere`".to_string(),
            Token::TyChaine => "le type `string`".to_string(),
            Token::Vrai => "le littéral `vrai`".to_string(),
            Token::Faux => "le littéral `faux`".to_string(),
            Token::Ident(name) => {
                let mut s = "l'identifiant `".to_string();
                s.append(name.as_str());
                s.append("`");
                s
            },
            Token::IntLit(n) => {
                let mut s = "le nombre `".to_string();
                s.append(i64_to_decimal(*n).as_str());
                s.append("`");
                s
            },
            Token::FloatLit(t) => {
                let mut s = "le nombre `".to_string();
                s.append(real_display_text(t.as_str()).as_str());
                s.append("`");
                s
            },
            Token::StringLit(text) => {
                let mut s = "la chaîne ".to_string();
                s.append(debug_str(text.as_str()).as_str());
                s
            },
            Token::CharLit(c) => {
                let mut s = "le caractère `".to_string();
                s.push(*c);
                s.append("`");
                assert(s@ =~= token_description(self@));
                s
            },
            Token::Assign => "`<-`".to_string(),
            Token::Colon => "`:`".to_string(),
            Token::LParen => "`(`".to_string(),
            Token::RParen => "`)`".to_string(),
            Token::Minus => "`-`".to_string(),
            Token::Semicolon => "`;`".to_string(),
            Token::Eof => "la fin du fichier".to_string(),
        }
    }
}

/// A located token: the raw token and its position in the source.
#[derive(Debug, Clone, PartialEq)]
pub struct SpannedToken {
    pub token: Token,
    pub span: Span,
}

impl View for SpannedToken {
    type V = (TokenV, Span);

    open spec fn view(&self) -> (TokenV, Span) {
        (self.token@, self.span)
    }
}

/// The views of a sequence of located tokens.
pub open spec fn token_views(ts: Seq<SpannedToken>) -> Seq<(TokenV, Span)> {
    ts.map_values(|t: SpannedToken| t@)
}

impl SpannedToken {
    pub fn new(token: Token, span: Span) -> (t: Self)
        ensures
            t@ == (token@, span),
    {
        SpannedToken { token, span }
    }
}

} // verus!
