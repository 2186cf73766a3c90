//! Compiler errors: what went wrong, where, and how to fix it.
//!
//! The lexer and the parser never panic: every anomaly becomes a
//! [`CompileError`] with a stable code, a position in the source and, when
//! one is known, a hint. [`CompileError::render`] shows the faulty line with a
//! `^^^` cursor under it.
use vstd::prelude::*;
use crate::text::{
    chars_of, decimal, lines_of, split_lines, string_from_chars, usize_to_decimal, char_views,
};

verus! {

/// Position of a token or of an error in the source.
///
/// `line` and `column` count from 1; `length` counts characters, not bytes.
#[derive(Debug, Clone, Copy, PartialEq, Eq, Structural)]
pub struct Span {
    pub line: usize,
    pub column: usize,
    pub length: usize,
}

/// `n`, raised to 1 when it is 0.
pub open spec fn at_least_one(n: usize) -> usize {
    if n < 1 {
        1
    } else {
        n
    }
}

/// The span that `Span::new` builds: each field raised to at least 1.
pub open spec fn span_of(line: usize, column: usize, length: usize) -> Span {
    Span { line: at_least_one(line), column: at_least_one(column), length: at_least_one(length) }
}

/// The end-of-file position of `source`: on its last line (line 1 when it
/// has none), one column after that line's last character.
pub open spec fn eof_span(source: Seq<char>) -> Span {
    let ls = lines_of(source);
    span_of(
        ls.len() as usize,
        if ls.len() == 0 {
            1usize
        } else {
            (ls.last().len() + 1) as usize
        },
        1,
    )
}

impl Span {
    pub fn new(line: usize, column: usize, length: usize) -> (s: Self)
        ensures
            s == span_of(line, column, length),
    {
        Span {
            line: if line < 1 { 1 } else { line },
            column: if column < 1 { 1 } else { column },
            length: if length < 1 { 1 } else { length },
        }
    }

    /// End-of-file position (the span of the `Eof` token).
    pub fn eof(source: &str) -> (s: Self)
        requires
            source@.len() < usize::MAX,
        ensures
            s == eof_span(source@),
    {
        let chars = chars_of(source);
        Self::eof_of_chars(&chars)
    }

    /// End-of-file position of a text given as characters.
    pub fn eof_of_chars(chars: &Vec<char>) -> (s: Self)
        requires
            chars@.len() < usize::MAX,
        ensures
            s == eof_span(chars@),
    {
        let lines = split_lines(chars);
        proof {
            crate::text::lemma_lines_bounded(chars@);
        }
        let n = lines.len();
        let line = if n < 1 { 1 } else { n };
        let column = if n == 0 {
            1
        } else {
            assert(lines@[n - 1]@ == char_views(lines@)[n - 1]);
            lines[n - 1].len() + 1
        };
        Self::new(line, column, 1)
    }
}

/// Kind of error. Each variant has a stable code `E0xx` (lexical) or `E1xx`
/// (syntax); `E201` is an input/output failure.
#[derive(Debug, Clone, PartialEq, Eq)]
pub enum ErrorKind {
    /// A character that the lexer does not recognise, e.g. `@`, `#`, `&`.
    UnknownCharacter(char),
    /// A word that is neither a keyword nor a valid identifier here, e.g. `affichr`.
    UnknownWord(String),
    /// A string opened with `"` and never closed.
    UnterminatedString,
    /// A character literal opened with `'` and never closed.
    UnterminatedChar,
    /// The text between single quotes is not exactly one character.
    InvalidChar(String),
    /// An integer literal too large for a signed 64-bit integer.
    NumberTooLarge(String),
    /// A token that the parser did not expect here.
    UnexpectedToken { found: String, expected: String },
    /// The end of the file came too early: something was missing.
    UnexpectedEof { expected: String },
    /// Input/output failure (reading the source file).
    Io(String),
}

/// The mathematical content of an [`ErrorKind`].
pub enum ErrorKindV {
    UnknownCharacter(char),
    UnknownWord(Seq<char>),
    UnterminatedString,
    UnterminatedChar,
    InvalidChar(Seq<char>),
    NumberTooLarge(Seq<char>),
    UnexpectedToken { found: Seq<char>, expected: Seq<char> },
    UnexpectedEof { expected: Seq<char> },
    Io(Seq<char>),
}

impl View for ErrorKind {
    type V = ErrorKindV;

    open spec fn view(&self) -> ErrorKindV {
        match self {
            ErrorKind::UnknownCharacter(c) => ErrorKindV::UnknownCharacter(*c),
            ErrorKind::UnknownWord(w) => ErrorKindV::UnknownWord(w@),
            ErrorKind::UnterminatedString => ErrorKindV::UnterminatedString,
            ErrorKind::UnterminatedChar => ErrorKindV::UnterminatedChar,
            ErrorKind::InvalidChar(r) => ErrorKindV::InvalidChar(r@),
            ErrorKind::NumberTooLarge(t) => ErrorKindV::NumberTooLarge(t@),
            ErrorKind::UnexpectedToken { found, expected } => ErrorKindV::UnexpectedToken {
                found: found@,
                expected: expected@,
            },
            ErrorKind::UnexpectedEof { expected } => ErrorKindV::UnexpectedEof {
                expected: expected@,
            },
            ErrorKind::Io(m) => ErrorKindV::Io(m@),
        }
    }
}

/// The stable code of an error kind.
pub open spec fn kind_code(k: ErrorKindV) -> Seq<char> {
    match k {
        ErrorKindV::UnknownCharacter(_) => "E001"@,
        ErrorKindV::UnknownWord(_) => "E002"@,
        ErrorKindV::UnterminatedString => "E003"@,
        ErrorKindV::UnterminatedChar => "E004"@,
        ErrorKindV::InvalidChar(_) => "E005"@,
        ErrorKindV::NumberTooLarge(_) => "E006"@,
        ErrorKindV::UnexpectedToken { .. } => "E101"@,
        ErrorKindV::UnexpectedEof { .. } => "E102"@,
        ErrorKindV::Io(_) => "E201"@,
    }
}

/// Whether an error kind belongs to the lexical phase.
pub open spec fn is_lexical(k: ErrorKindV) -> bool {
    match k {
        ErrorKindV::UnknownCharacter(_) | ErrorKindV::UnknownWord(_)
        | ErrorKindV::UnterminatedString | ErrorKindV::UnterminatedChar
        | ErrorKindV::InvalidChar(_) | ErrorKindV::NumberTooLarge(_) => true,
        _ => false,
    }
}

/// The compilation phase that an error kind belongs to.
pub open spec fn kind_phase(k: ErrorKindV) -> Seq<char> {
    if is_lexical(k) {
        "lexique"@
    } else {
        match k {
            ErrorKindV::Io(_) => "entrée/sortie"@,
            _ => "syntaxe"@,
        }
    }
}

/// What `{:?}` writes for a character (quotes and escapes included).
pub uninterp spec fn char_debug_text(c: char) -> Seq<char>;

/// What `{:?}` writes for a string (quotes and escapes included).
pub uninterp spec fn str_debug_text(s: Seq<char>) -> Seq<char>;

/// Calls `<char as Debug>::fmt` through `format!`. The contract names the
/// result (`char_debug_text`) and says nothing more of it.
#[verifier::external_body]
pub(crate) fn debug_char(c: char) -> (r: String)
    ensures
        r@ == char_debug_text(c),
{
    format!("{c:?}")
}

/// Calls `<str as Debug>::fmt` through `format!`. The contract names the
/// result (`str_debug_text`) and says nothing more of it.
#[verifier::external_body]
pub(crate) fn debug_str(s: &str) -> (r: String)
    ensures
        r@ == str_debug_text(s@),
{
    format!("{s:?}")
}

/// The main message of an error kind (no position, no hint).
pub open spec fn kind_message(k: ErrorKindV) -> Seq<char> {
    match k {
        ErrorKindV::UnknownCharacter(c) => "caractère inconnu "@ + char_debug_text(c),
        ErrorKindV::UnknownWord(w) => "mot inconnu "@ + str_debug_text(w),
        ErrorKindV::UnterminatedString => "chaîne de caractères non fermée (guillemet `\"` manquant)"@,
        ErrorKindV::UnterminatedChar => "caractère non fermé (guillemet simple `'` manquant)"@,
        ErrorKindV::InvalidChar(r) => "caractère invalide "@ + str_debug_text(r)
            + " : un seul caractère est attendu entre guillemets simples"@,
        ErrorKindV::NumberTooLarge(t) => "nombre entier trop grand `"@ + t + "`"@,
        ErrorKindV::UnexpectedToken { found, expected } => "token inattendu "@ + found
            + ", attendu "@ + expected,
        ErrorKindV::UnexpectedEof { expected } => "fin de fichier inattendue, attendu "@
            + expected,
        ErrorKindV::Io(m) => m,
    }
}

impl ErrorKind {
    /// Stable code, for the documentation and the tests.
    pub fn code(&self) -> (r: &'static str)
        ensures
            r@ == kind_code(self@),
    {
        match self {
            ErrorKind::UnknownCharacter(_) => "E001",
            ErrorKind::UnknownWord(_) => "E002",
            ErrorKind::UnterminatedString => "E003",
            ErrorKind::UnterminatedChar => "E004",
            ErrorKind::InvalidChar(_) => "E005",
            ErrorKind::NumberTooLarge(_) => "E006",
            ErrorKind::UnexpectedToken { .. } => "E101",
            ErrorKind::UnexpectedEof { .. } => "E102",
            ErrorKind::Io(_) => "E201",
        }
    }

    /// Compilation phase concerned.
    pub fn phase(&self) -> (r: &'static str)
        ensures
            r@ == kind_phase(self@),
    {
        match self {
            ErrorKind::UnknownCharacter(_)
            | ErrorKind::UnknownWord(_)
            | ErrorKind::UnterminatedString
            | ErrorKind::UnterminatedChar
            | ErrorKind::InvalidChar(_)
            | ErrorKind::NumberTooLarge(_) => "lexique",
            ErrorKind::UnexpectedToken { .. } | ErrorKind::UnexpectedEof { .. } => "syntaxe",
            ErrorKind::Io(_) => "entrée/sortie",
        }
    }

    /// Main message (without position or hint).
    pub fn message(&self) -> (r: String)
        ensures
            r@ == kind_message(self@),
    {
        match self {
            ErrorKind::UnknownCharacter(c) => {
                let mut s = "caractère inconnu ".to_string();
                s.append(debug_char(*c).as_str());
                s
            },
            ErrorKind::UnknownWord(w) => {
                let mut s = "mot inconnu ".to_string();
                s.append(debug_str(w.as_str()).as_str());
                s
            },
            ErrorKind::UnterminatedString => {
                "chaîne de caractères non fermée (guillemet `\"` manquant)".to_string()
            },
            ErrorKind::UnterminatedChar => {
                "caractère non fermé (guillemet simple `'` manquant)".to_string()
            },
            ErrorKind::InvalidChar(r) => {
                let mut s = "caractère invalide ".to_string();
                s.append(debug_str(r.as_str()).as_str());
                s.append(" : un seul caractère est attendu entre guillemets simples");
                s
            },
            ErrorKind::NumberTooLarge(t) => {
                let mut s = "nombre entier trop grand `".to_string();
                s.append(t.as_str());
                s.append("`");
                s
            },
            ErrorKind::UnexpectedToken { found, expected } => {
                let mut s = "token inattendu ".to_string();
                s.append(found.as_str());
                s.append(", attendu ");
                s.append(expected.as_str());
                s
            },
            ErrorKind::UnexpectedEof { expected } => {
                let mut s = "fin de fichier inattendue, attendu ".to_string();
                s.append(expected.as_str());
                s
            },
            ErrorKind::Io(m) => m.clone(),
        }
    }
}

/// A complete compilation error: kind, position and optional hint.
#[derive(Debug, Clone, PartialEq, Eq)]
pub struct CompileError {
    pub kind: ErrorKind,
    pub span: Option<Span>,
    pub hint: Option<String>,
}

/// Result type of the compiler's functions.
pub type CompileResult<T> = Result<T, CompileError>;

/// The mathematical content of a [`CompileError`].
pub struct CompileErrorV {
    pub kind: ErrorKindV,
    pub span: Option<Span>,
    pub hint: Option<Seq<char>>,
}

impl View for CompileError {
    type V = CompileErrorV;

    open spec fn view(&self) -> CompileErrorV {
        CompileErrorV {
            kind: self.kind@,
            span: self.span,
            hint: match self.hint {
                Some(h) => Some(h@),
                None => None,
            },
        }
    }
}

/// An error of the given kind, with no position and no hint.
pub open spec fn error_of(kind: ErrorKindV) -> CompileErrorV {
    CompileErrorV { kind, span: None, hint: None }
}

/// `e` located at `span`.
pub open spec fn located(e: CompileErrorV, span: Span) -> CompileErrorV {
    CompileErrorV { kind: e.kind, span: Some(span), hint: e.hint }
}

/// `e` with the hint `h`; an empty hint leaves `e` as it is.
pub open spec fn hinted(e: CompileErrorV, h: Seq<char>) -> CompileErrorV {
    if h.len() > 0 {
        CompileErrorV { kind: e.kind, span: e.span, hint: Some(h) }
    } else {
        e
    }
}

pub open spec fn unknown_character_error(c: char, span: Span) -> CompileErrorV {
    hinted(
        located(error_of(ErrorKindV::UnknownCharacter(c)), span),
        "caractères attendus ici : `(`, `)`, `;`, `\"...\"` ou le mot-clé `afficher`"@,
    )
}

pub open spec fn unknown_word_error(word: Seq<char>, span: Span) -> CompileErrorV {
    let e = located(error_of(ErrorKindV::UnknownWord(word)), span);
    match suggested_keyword(word) {
        Some(kw) => hinted(e, "vouliez-vous dire `"@ + kw + "` ?"@),
        None => hinted(e, "seul le mot-clé `afficher` est supporté pour le moment"@),
    }
}

pub open spec fn unterminated_string_error(span: Span) -> CompileErrorV {
    hinted(
        located(error_of(ErrorKindV::UnterminatedString), span),
        "fermez la chaîne avec un guillemet `\"` sur la même ligne"@,
    )
}

pub open spec fn unterminated_char_error(span: Span) -> CompileErrorV {
    hinted(
        located(error_of(ErrorKindV::UnterminatedChar), span),
        "fermez le caractère avec un guillemet simple `'` sur la même ligne"@,
    )
}

pub open spec fn invalid_char_error(raw: Seq<char>, span: Span) -> CompileErrorV {
    hinted(
        located(error_of(ErrorKindV::InvalidChar(raw)), span),
        "un caractère s'écrit entre guillemets simples, par exemple `'a'` ou `'\\n'`"@,
    )
}

pub open spec fn number_too_large_error(text: Seq<char>, span: Span) -> CompileErrorV {
    hinted(
        located(error_of(ErrorKindV::NumberTooLarge(text)), span),
        "un entier doit tenir sur 64 bits signés"@,
    )
}

pub open spec fn unexpected_token_error(found: Seq<char>, expected: Seq<char>, span: Span) -> CompileErrorV {
    located(error_of(ErrorKindV::UnexpectedToken { found, expected }), span)
}

pub open spec fn unexpected_eof_error(expected: Seq<char>, span: Span) -> CompileErrorV {
    located(error_of(ErrorKindV::UnexpectedEof { expected }), span)
}

impl CompileError {
    pub fn new(kind: ErrorKind) -> (e: Self)
        ensures
            e@ == error_of(kind@),
    {
        CompileError { kind, span: None, hint: None }
    }

    pub fn with_span(self, span: Span) -> (e: Self)
        ensures
            e@ == located(self@, span),
    {
        CompileError { kind: self.kind, span: Some(span), hint: self.hint }
    }

    /// Adds a hint; an empty hint is ignored.
    pub fn with_hint(self, hint: &str) -> (e: Self)
        ensures
            e@ == hinted(self@, hint@),
    {
        if !hint.is_empty() {
            CompileError { kind: self.kind, span: self.span, hint: Some(hint.to_string()) }
        } else {
            self
        }
    }

    pub fn unknown_character(c: char, span: Span) -> (e: Self)
        ensures
            e@ == unknown_character_error(c, span),
    {
        Self::new(ErrorKind::UnknownCharacter(c)).with_span(span).with_hint(
            "caractères attendus ici : `(`, `)`, `;`, `\"...\"` ou le mot-clé `afficher`",
        )
    }

    pub fn unknown_word(word: &str, span: Span) -> (e: Self)
        ensures
            e@ == unknown_word_error(word@, span),
    {
        let err = Self::new(ErrorKind::UnknownWord(word.to_string())).with_span(span);
        match suggest_keyword(word) {
            Some(suggestion) => {
                let mut h = "vouliez-vous dire `".to_string();
                h.append(suggestion);
                h.append("` ?");
                err.with_hint(h.as_str())
            },
            None => err.with_hint("seul le mot-clé `afficher` est supporté pour le moment"),
        }
    }

    pub fn unterminated_string(span: Span) -> (e: Self)
        ensures
            e@ == unterminated_string_error(span),
    {
        Self::new(ErrorKind::UnterminatedString).with_span(span).with_hint(
            "fermez la chaîne avec un guillemet `\"` sur la même ligne",
        )
    }

    pub fn unterminated_char(span: Span) -> (e: Self)
        ensures
            e@ == unterminated_char_error(span),
    {
        Self::new(ErrorKind::UnterminatedChar).with_span(span).with_hint(
            "fermez le caractère avec un guillemet simple `'` sur la même ligne",
        )
    }

    pub fn invalid_char(raw: &str, span: Span) -> (e: Self)
        ensures
            e@ == invalid_char_error(raw@, span),
    {
        Self::new(ErrorKind::InvalidChar(raw.to_string())).with_span(span).with_hint(
            "un caractère s'écrit entre guillemets simples, par exemple `'a'` ou `'\\n'`",
        )
    }

    pub fn number_too_large(text: &str, span: Span) -> (e: Self)
        ensures
            e@ == number_too_large_error(text@, span),
    {
        Self::new(ErrorKind::NumberTooLarge(text.to_string())).with_span(span).with_hint(
            "un entier doit tenir sur 64 bits signés",
        )
    }

    pub fn unexpected_token(found: &str, expected: &str, span: Span) -> (e: Self)
        ensures
            e@ == unexpected_token_error(found@, expected@, span),
    {
        Self::new(
            ErrorKind::UnexpectedToken { found: found.to_string(), expected: expected.to_string() },
        ).with_span(span)
    }

    pub fn unexpected_eof(expected: &str, span: Span) -> (e: Self)
        ensures
            e@ == unexpected_eof_error(expected@, span),
    {
        Self::new(ErrorKind::UnexpectedEof { expected: expected.to_string() }).with_span(span)
    }

    pub fn io(message: &str) -> (e: Self)
        ensures
            e@ == error_of(ErrorKindV::Io(message@)),
    {
        Self::new(ErrorKind::Io(message.to_string()))
    }

    pub fn code(&self) -> (r: &'static str)
        ensures
            r@ == kind_code(self@.kind),
    {
        self.kind.code()
    }
}

// --- Keyword suggestions ---

/// Edit distance (insertions, deletions and substitutions of one character
/// each cost 1) between two character sequences.
pub open spec fn edit_distance(a: Seq<char>, b: Seq<char>) -> nat
    decreases a.len() + b.len(),
{
    if a.len() == 0 {
        b.len()
    } else if b.len() == 0 {
        a.len()
    } else {
        let sub = edit_distance(a.drop_last(), b.drop_last()) + if a.last() == b.last() {
            0nat
        } else {
            1nat
        };
        let del = edit_distance(a.drop_last(), b) + 1;
        let ins = edit_distance(a, b.drop_last()) + 1;
        if sub <= del && sub <= ins {
            sub
        } else if del <= ins {
            del
        } else {
            ins
        }
    }
}

/// The keywords that a misspelt word may be taken for.
pub open spec fn suggestion_keywords() -> Seq<Seq<char>> {
    seq!["afficher"@]
}

/// How far a word may be from a keyword of `kw_len` characters and still be
/// taken for it: 2 edits, or a third of the keyword for longer keywords.
pub open spec fn suggestion_threshold(kw_len: nat) -> nat {
    if kw_len / 3 > 2 {
        kw_len / 3
    } else {
        2
    }
}

/// Among `kws`, the index and distance of the first keyword nearest to
/// `word` whose distance is within its threshold.
pub open spec fn best_suggestion(word: Seq<char>, kws: Seq<Seq<char>>) -> Option<(int, nat)>
    decreases kws.len(),
{
    if kws.len() == 0 {
        None
    } else {
        let prev = best_suggestion(word, kws.drop_last());
        let d = edit_distance(word, kws.last());
        if d <= suggestion_threshold(kws.last().len()) && match prev {
            Some((_, b)) => d < b,
            None => true,
        } {
            Some(((kws.len() - 1) as int, d))
        } else {
            prev
        }
    }
}

/// The keyword suggested for `word`, if any.
pub open spec fn suggested_keyword(word: Seq<char>) -> Option<Seq<char>> {
    match best_suggestion(word, suggestion_keywords()) {
        Some((i, _)) => Some(suggestion_keywords()[i]),
        None => None,
    }
}

/// The edit distance is at least the difference of the lengths and at most
/// the greater length.
pub proof fn lemma_edit_distance_bounds(a: Seq<char>, b: Seq<char>)
    ensures
        edit_distance(a, b) >= a.len() - b.len(),
        edit_distance(a, b) <= if a.len() >= b.len() { a.len() } else { b.len() },
    decreases a.len() + b.len(),
{
    if a.len() > 0 && b.len() > 0 {
        lemma_edit_distance_bounds(a.drop_last(), b.drop_last());
        lemma_edit_distance_bounds(a.drop_last(), b);
        lemma_edit_distance_bounds(a, b.drop_last());
    }
}

/// Returns the nearest keyword if the edit distance is small.
pub fn suggest_keyword(word: &str) -> (r: Option<&'static str>)
    ensures
        match r {
            Some(kw) => suggested_keyword(word@) == Some(kw@),
            None => suggested_keyword(word@) is None,
        },
{
    let keywords: [&'static str; 1] = ["afficher"];
    proof {
        reveal_strlit("afficher");
        assert(keywords@ =~= seq!["afficher"]);
        assert(suggestion_keywords()[0].len() == 8);
    }
    let ghost kws = suggestion_keywords();
    let w = chars_of(word);
    let mut best: Option<(&'static str, usize)> = None;
    let mut k: usize = 0;
    assert(kws.take(0) =~= Seq::<Seq<char>>::empty());
    while k < 1
        invariant
            k <= 1,
            kws == suggestion_keywords(),
            kws.len() == 1,
            kws[0].len() == 8,
            w@ == word@,
            keywords@ == seq!["afficher"],
            match (best, best_suggestion(word@, kws.take(k as int))) {
                (Some((s, d)), Some((i, bd))) => 0 <= i < k && s@ == kws[i] && d == bd,
                (None, None) => true,
                _ => false,
            },
        decreases 1 - k,
    {
        let kw = keywords[k];
        assert(kws.take(k + 1).drop_last() =~= kws.take(k as int));
        assert(kws.take(k + 1).last() == kws[k as int]);
        assert(kw@ == kws[k as int]);
        let kwc = chars_of(kw);
        let threshold: usize = if kwc.len() / 3 > 2 { kwc.len() / 3 } else { 2 };
        proof {
            lemma_edit_distance_bounds(word@, kw@);
        }
        if w.len() <= kwc.len() + threshold {
            let d = levenshtein(&w, &kwc);
            let better = match best {
                Some((_, b)) => d < b,
                None => true,
            };
            if d <= threshold && better {
                best = Some((kw, d));
            }
        }
        k += 1;
    }
    assert(kws.take(1) =~= kws);
    match best {
        Some((kw, _)) => Some(kw),
        None => None,
    }
}

/// Levenshtein distance over characters (enough for short keywords).
fn levenshtein(a: &Vec<char>, b: &Vec<char>) -> (d: usize)
    requires
        a@.len() < usize::MAX,
        b@.len() < usize::MAX,
    ensures
        d == edit_distance(a@, b@),
{
    let mut prev: Vec<usize> = Vec::new();
    let mut j: usize = 0;
    while j <= b.len()
        invariant
            j <= b@.len() + 1,
            b@.len() < usize::MAX,
            prev@.len() == j,
            forall|k: int| 0 <= k < j ==> prev@[k] == edit_distance(
                a@.take(0),
                #[trigger] b@.take(k),
            ),
        decreases b@.len() + 1 - j,
    {
        assert(a@.take(0).len() == 0);
        prev.push(j);
        j += 1;
    }
    let mut i: usize = 0;
    while i < a.len()
        invariant
            i <= a@.len(),
            a@.len() < usize::MAX,
            b@.len() < usize::MAX,
            prev@.len() == b@.len() + 1,
            forall|k: int| 0 <= k <= b@.len() ==> prev@[k] == edit_distance(
                a@.take(i as int),
                #[trigger] b@.take(k),
            ),
        decreases a@.len() - i,
    {
        let ca = a[i];
        let ghost ai = a@.take(i as int);
        let ghost an = a@.take(i + 1);
        assert(an.drop_last() =~= ai);
        assert(an.last() == ca);
        let mut cur: Vec<usize> = Vec::new();
        assert(b@.take(0).len() == 0);
        cur.push(i + 1);
        let mut j: usize = 0;
        while j < b.len()
            invariant
                i < a@.len(),
                a@.len() < usize::MAX,
                b@.len() < usize::MAX,
                ai == a@.take(i as int),
                an == a@.take(i + 1),
                an.drop_last() == ai,
                an.len() == i + 1,
                an.last() == ca,
                j <= b@.len(),
                prev@.len() == b@.len() + 1,
                cur@.len() == j + 1,
                forall|k: int| 0 <= k <= b@.len() ==> prev@[k] == edit_distance(
                    ai,
                    #[trigger] b@.take(k),
                ),
                forall|k: int| 0 <= k <= j ==> cur@[k] == edit_distance(an, #[trigger] b@.take(k)),
            decreases b@.len() - j,
        {
            let cb = b[j];
            let ghost bj = b@.take(j as int);
            let ghost bn = b@.take(j + 1);
            assert(bn.drop_last() =~= bj);
            assert(bn.last() == cb);
            proof {
                lemma_edit_distance_bounds(ai, bj);
                lemma_edit_distance_bounds(an, bj);
                lemma_edit_distance_bounds(ai, bn);
            }
            let cost: usize = if ca != cb { 1 } else { 0 };
            let sub = prev[j] + cost;
            let ins = cur[j] + 1;
            let del = prev[j + 1] + 1;
            let m = if sub <= del && sub <= ins {
                sub
            } else if del <= ins {
                del
            } else {
                ins
            };
            assert(m == edit_distance(an, bn));
            cur.push(m);
            j += 1;
        }
        prev = cur;
        i += 1;
    }
    assert(a@.take(a@.len() as int) =~= a@);
    assert(b@.take(b@.len() as int) =~= b@);
    prev[b.len()]
}

// --- Rendering ---

/// `n` copies of `c`.
pub open spec fn repeated(c: char, n: nat) -> Seq<char> {
    Seq::new(n, |i: int| c)
}

/// The contents of an optional string slice.
pub open spec fn opt_text(o: Option<&str>) -> Option<Seq<char>> {
    match o {
        Some(s) => Some(s@),
        None => None,
    }
}

/// `line:column` of a span.
pub open spec fn location_text(s: Span) -> Seq<char> {
    decimal(s.line as nat) + ":"@ + decimal(s.column as nat)
}

/// The one-line rendering of an error (no source excerpt).
pub open spec fn short_text(e: CompileErrorV, file: Option<Seq<char>>) -> Seq<char> {
    let f = match file {
        Some(f) => f,
        None => "<source>"@,
    };
    let hint_part = match e.hint {
        Some(h) => " — aide : "@ + h,
        None => Seq::<char>::empty(),
    };
    match e.span {
        Some(s) => "["@ + kind_code(e.kind) + "] erreur de "@ + kind_phase(e.kind) + " à "@ + f
            + ":"@ + location_text(s) + " : "@ + kind_message(e.kind) + hint_part,
        None => "["@ + kind_code(e.kind) + "] erreur de "@ + kind_phase(e.kind) + " : "@
            + kind_message(e.kind) + hint_part,
    }
}

/// The first line of the full rendering: code, position and message.
pub open spec fn render_head(e: CompileErrorV, file: Option<Seq<char>>) -> Seq<char> {
    let f = match file {
        Some(f) => f,
        None => "<source>"@,
    };
    match e.span {
        Some(s) => "Erreur "@ + kind_code(e.kind) + " à "@ + f + ":"@ + location_text(s) + " : "@
            + kind_message(e.kind),
        None => "Erreur "@ + kind_code(e.kind) + " : "@ + kind_message(e.kind),
    }
}

/// The hint as the one-line form writes it after the message.
pub open spec fn hint_tail(e: CompileErrorV) -> Seq<char> {
    match e.hint {
        Some(h) => " — aide : "@ + h,
        None => Seq::<char>::empty(),
    }
}

/// The full rendering of an error: its code, position and message and, when
/// the error is located on an existing line of `source`, that line with a
/// `^^^` cursor under the span and the hint after the cursor. When no line
/// can be shown, the hint follows the message as in the one-line form.
pub open spec fn render_text(e: CompileErrorV, source: Seq<char>, file: Option<Seq<char>>) -> Seq<char> {
    let head = render_head(e, file);
    let alone = head + hint_tail(e);
    match e.span {
        None => alone,
        Some(span) => {
            let idx: int = if span.line >= 1 { span.line - 1 } else { 0 };
            let ls = lines_of(source);
            if idx >= ls.len() {
                alone
            } else {
                let line_text = ls[idx];
                let number = decimal(span.line as nat);
                let gutter = repeated(' ', number.len());
                let col: int = if span.column >= 1 { span.column - 1 } else { 0 };
                let start: int = if col <= line_text.len() { col } else { line_text.len() as int };
                let hint = match e.hint {
                    Some(h) => " "@ + h,
                    None => Seq::<char>::empty(),
                };
                head + "\n"@ + gutter + " |\n"@ + number + " | "@ + line_text + "\n"@ + gutter
                    + " | "@ + repeated(' ', start as nat) + repeated(
                    '^',
                    at_least_one(span.length) as nat,
                ) + hint
            }
        },
    }
}

fn push_repeated(out: &mut String, c: char, n: usize)
    ensures
        final(out)@ == old(out)@ + repeated(c, n as nat),
{
    let mut i: usize = 0;
    while i < n
        invariant
            i <= n,
            out@ == old(out)@ + repeated(c, i as nat),
        decreases n - i,
    {
        out.push(c);
        i += 1;
        assert(out@ =~= old(out)@ + repeated(c, i as nat));
    }
}

impl CompileError {
    /// Short location `line:column`, or `None` when the error has no span.
    pub fn location(&self) -> (r: Option<String>)
        ensures
            match r {
                Some(t) => self.span matches Some(s) && t@ == location_text(s),
                None => self.span is None,
            },
    {
        match self.span {
            Some(s) => {
                let mut t = usize_to_decimal(s.line);
                t.append(":");
                t.append(usize_to_decimal(s.column).as_str());
                Some(t)
            },
            None => None,
        }
    }

    /// One-line rendering, without a source excerpt (for logs).
    pub fn short(&self, filename: Option<&str>) -> (r: String)
        ensures
            r@ == short_text(self@, opt_text(filename)),
    {
        let file = match filename {
            Some(f) => f,
            None => "<source>",
        };
        let mut out = "[".to_string();
        out.append(self.code());
        out.append("] erreur de ");
        out.append(self.kind.phase());
        match self.span {
            Some(s) => {
                out.append(" à ");
                out.append(file);
                out.append(":");
                out.append(usize_to_decimal(s.line).as_str());
                out.append(":");
                out.append(usize_to_decimal(s.column).as_str());
            },
            None => {},
        }
        out.append(" : ");
        out.append(self.kind.message().as_str());
        match &self.hint {
            Some(h) => {
                out.append(" — aide : ");
                out.append(h.as_str());
            },
            None => {},
        }
        assert(out@ =~= short_text(self@, opt_text(filename)));
        out
    }

    /// Full rendering with the faulty line and a `^^^` cursor.
    ///
    /// Example:
    /// ```text
    /// Erreur E002 à hello.algo:1:1 : mot inconnu "affichr"
    ///   |
    /// 1 | affichr("salut");
    ///   | ^^^^^^^ vouliez-vous dire `afficher` ?
    /// ```
    pub fn render(&self, source: &str, filename: Option<&str>) -> (r: String)
        ensures
            r@ == render_text(self@, source@, opt_text(filename)),
    {
        let file = match filename {
            Some(f) => f,
            None => "<source>",
        };
        let mut out = "Erreur ".to_string();
        out.append(self.code());
        match self.span {
            Some(s) => {
                out.append(" à ");
                out.append(file);
                out.append(":");
                out.append(usize_to_decimal(s.line).as_str());
                out.append(":");
                out.append(usize_to_decimal(s.column).as_str());
            },
            None => {},
        }
        out.append(" : ");
        out.append(self.kind.message().as_str());
        let mut alone = out.clone();
        match &self.hint {
            Some(h) => {
                alone.append(" — aide : ");
                alone.append(h.as_str());
            },
            None => {},
        }
        assert(out@ =~= render_head(self@, opt_text(filename)));
        assert(alone@ =~= render_head(self@, opt_text(filename)) + hint_tail(self@));
        let span = match self.span {
            Some(s) => s,
            None => {
                return alone;
            },
        };
        let idx = if span.line >= 1 { span.line - 1 } else { 0 };
        let chars = chars_of(source);
        let lines = split_lines(&chars);
        if idx >= lines.len() {
            return alone;
        }
        assert(lines@[idx as int]@ == char_views(lines@)[idx as int]);
        let line_text = string_from_chars(&lines[idx]);
        let number = usize_to_decimal(span.line);
        let gutter = chars_of(number.as_str()).len();
        out.append("\n");
        push_repeated(&mut out, ' ', gutter);
        out.append(" |\n");
        out.append(number.as_str());
        out.append(" | ");
        out.append(line_text.as_str());
        out.append("\n");
        push_repeated(&mut out, ' ', gutter);
        out.append(" | ");
        let col = if span.column >= 1 { span.column - 1 } else { 0 };
        let width = lines[idx].len();
        let start = if col <= width { col } else { width };
        push_repeated(&mut out, ' ', start);
        let carets = if span.length < 1 { 1 } else { span.length };
        push_repeated(&mut out, '^', carets);
        match &self.hint {
            Some(h) => {
                out.append(" ");
                out.append(h.as_str());
            },
            None => {},
        }
        assert(out@ =~= render_text(self@, source@, opt_text(filename)));
        out
    }
}

// --- Laws ---

/// A number per error-kind variant, whatever the variant holds.
pub open spec fn kind_variant(k: ErrorKindV) -> nat {
    match k {
        ErrorKindV::UnknownCharacter(_) => 0,
        ErrorKindV::UnknownWord(_) => 1,
        ErrorKindV::UnterminatedString => 2,
        ErrorKindV::UnterminatedChar => 3,
        ErrorKindV::InvalidChar(_) => 4,
        ErrorKindV::NumberTooLarge(_) => 5,
        ErrorKindV::UnexpectedToken { .. } => 6,
        ErrorKindV::UnexpectedEof { .. } => 7,
        ErrorKindV::Io(_) => 8,
    }
}

/// Each kind of error has a code of its own, of the form `E` and three
/// digits: `E0xx` for the lexical errors, `E1xx` for the syntax errors.
pub proof fn law_codes_identify_kinds(k1: ErrorKindV, k2: ErrorKindV)
    ensures
        (kind_code(k1) == kind_code(k2)) == (kind_variant(k1) == kind_variant(k2)),
        kind_code(k1).len() == 4,
        kind_code(k1)[0] == 'E',
        is_lexical(k1) <==> kind_code(k1)[1] == '0',
        (k1 is UnexpectedToken || k1 is UnexpectedEof) <==> kind_code(k1)[1] == '1',
{
    reveal_strlit("E001");
    reveal_strlit("E002");
    reveal_strlit("E003");
    reveal_strlit("E004");
    reveal_strlit("E005");
    reveal_strlit("E006");
    reveal_strlit("E101");
    reveal_strlit("E102");
    reveal_strlit("E201");
    if kind_code(k1) == kind_code(k2) {
        assert(kind_code(k1)[1] == kind_code(k2)[1]);
        assert(kind_code(k1)[3] == kind_code(k2)[3]);
    }
}

/// Every text is at edit distance 0 from itself.
proof fn lemma_edit_distance_to_itself(a: Seq<char>)
    ensures
        edit_distance(a, a) == 0,
    decreases a.len(),
{
    if a.len() > 0 {
        lemma_edit_distance_to_itself(a.drop_last());
    }
}

/// The edit distance is symmetric, is 0 from a text to itself, and from a
/// text to the empty one is that text's length.
pub proof fn law_edit_distance(a: Seq<char>, b: Seq<char>)
    ensures
        edit_distance(a, b) == edit_distance(b, a),
        edit_distance(a, a) == 0,
        edit_distance(a, Seq::<char>::empty()) == a.len(),
    decreases a.len() + b.len(),
{
    lemma_edit_distance_to_itself(a);
    if a.len() > 0 && b.len() > 0 {
        law_edit_distance(a.drop_last(), b.drop_last());
        law_edit_distance(a.drop_last(), b);
        law_edit_distance(a, b.drop_last());
    }
}

/// A keyword spelt right is suggested for itself.
pub proof fn law_keyword_suggests_itself()
    ensures
        suggested_keyword("afficher"@) == Some("afficher"@),
{
    lemma_edit_distance_to_itself("afficher"@);
    let kws = suggestion_keywords();
    assert(kws.drop_last() =~= Seq::<Seq<char>>::empty());
    assert(best_suggestion("afficher"@, kws.drop_last()) is None);
    assert(kws.last() == "afficher"@);
    assert(best_suggestion("afficher"@, kws) == Some((0int, 0nat)));
}

/// The full rendering of an error starts with `Erreur `, the error's code,
/// its position and its message.
pub proof fn law_render_starts_with_header(e: CompileErrorV, source: Seq<char>, file: Option<Seq<char>>)
    ensures
        render_text(e, source, file).subrange(0, render_head(e, file).len() as int) == render_head(
            e,
            file,
        ),
        render_head(e, file).subrange(0, 7 + kind_code(e.kind).len() as int) == "Erreur "@ + kind_code(
            e.kind,
        ),
{
    reveal_strlit("Erreur ");
    let head = render_head(e, file);
    let r = render_text(e, source, file);
    assert(r.subrange(0, head.len() as int) =~= head);
    assert(head.subrange(0, 7 + kind_code(e.kind).len() as int) =~= "Erreur "@ + kind_code(e.kind));
}

} // verus!
