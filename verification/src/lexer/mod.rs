//! The lexer: from source text to located tokens.
use vstd::prelude::*;

mod token;
pub use token::{SpannedToken, Token, TokenV, token_description, token_views, real_display, real_display_text, skip_leading_zeros, drop_trailing_zeros};

use crate::text::{chars_of, string_from_chars, lines_of, pieces, strip_cr};
use crate::errors::{
    CompileError, CompileErrorV, CompileResult, ErrorKindV, Span, span_of, eof_span, unknown_character_error,
    unterminated_string_error, unterminated_char_error, invalid_char_error,
    number_too_large_error,
};

verus! {

// --- Character classes ---

/// Whether `c` has the Unicode `White_Space` property, as `char::is_whitespace`
/// says: tab, line feed, vertical tab, form feed, carriage return, space, next
/// line, no-break space, ogham space mark, the spaces from en quad to hair
/// space, line and paragraph separators, narrow no-break space, medium
/// mathematical space and ideographic space.
pub open spec fn white_space(c: char) -> bool {
    let n = c as u32;
    ||| 0x09 <= n <= 0x0D
    ||| n == 0x20
    ||| n == 0x85
    ||| n == 0xA0
    ||| n == 0x1680
    ||| 0x2000 <= n <= 0x200A
    ||| n == 0x2028
    ||| n == 0x2029
    ||| n == 0x202F
    ||| n == 0x205F
    ||| n == 0x3000
}

/// An ASCII letter.
pub open spec fn ascii_letter(c: char) -> bool {
    ('a' <= c && c <= 'z') || ('A' <= c && c <= 'Z')
}

/// Whether a character outside ASCII has the Unicode `Alphabetic` property
/// (`char::is_alphabetic`).
pub uninterp spec fn unicode_alphabetic(c: char) -> bool;

/// Whether a character outside ASCII is alphabetic or numeric in Unicode
/// (`char::is_alphanumeric`).
pub uninterp spec fn unicode_alphanumeric(c: char) -> bool;

/// The Unicode lowercase form of a text that is not all ASCII (`str::to_lowercase`).
pub uninterp spec fn unicode_lowercase(s: Seq<char>) -> Seq<char>;

/// Whether `c` is alphabetic: in ASCII, exactly the letters.
pub open spec fn alphabetic(c: char) -> bool {
    if (c as u32) < 128 {
        ascii_letter(c)
    } else {
        unicode_alphabetic(c)
    }
}

/// Whether `c` is alphanumeric: in ASCII, exactly the letters and the digits.
pub open spec fn alphanumeric(c: char) -> bool {
    if (c as u32) < 128 {
        ascii_letter(c) || is_digit(c)
    } else {
        unicode_alphanumeric(c)
    }
}

/// A text made of ASCII characters only.
pub open spec fn ascii_text(s: Seq<char>) -> bool {
    forall|i: int| 0 <= i < s.len() ==> (#[trigger] s[i] as u32) < 128
}

/// The lowercase form of an ASCII character.
pub open spec fn ascii_lower(c: char) -> char {
    if 'A' <= c && c <= 'Z' {
        ((c as u32) + 32) as char
    } else {
        c
    }
}

/// The lowercase form of a text: letter by letter in ASCII.
pub open spec fn lowercase(s: Seq<char>) -> Seq<char> {
    if ascii_text(s) {
        s.map_values(|c: char| ascii_lower(c))
    } else {
        unicode_lowercase(s)
    }
}

/// Whether `c` is a blank: the Unicode `White_Space` set, the same set that
/// `char::is_whitespace` tests.
fn is_whitespace(c: char) -> (r: bool)
    ensures
        r == white_space(c),
{
    let n = c as u32;
    (0x09 <= n && n <= 0x0D) || n == 0x20 || n == 0x85 || n == 0xA0 || n == 0x1680
        || (0x2000 <= n && n <= 0x200A) || n == 0x2028 || n == 0x2029 || n == 0x202F
        || n == 0x205F || n == 0x3000
}

/// Calls `char::is_alphabetic`. The contract states the ASCII case (the
/// letters, and nothing else) and names the result for other characters.
#[verifier::external_body]
fn is_alphabetic(c: char) -> (r: bool)
    ensures
        r == (if (c as u32) < 128 {
            ascii_letter(c)
        } else {
            unicode_alphabetic(c)
        }),
{
    c.is_alphabetic()
}

/// Calls `char::is_alphanumeric`. The contract states the ASCII case (letters
/// and digits), names the result for other characters, and states what the
/// documentation says of it: an alphabetic character is alphanumeric.
#[verifier::external_body]
fn is_alphanumeric(c: char) -> (r: bool)
    ensures
        r == (if (c as u32) < 128 {
            ascii_letter(c) || is_digit(c)
        } else {
            unicode_alphanumeric(c)
        }),
        alphabetic(c) ==> r,
{
    c.is_alphanumeric()
}

/// Calls `str::to_lowercase`. The contract states the ASCII case (each
/// uppercase letter replaced by its lowercase one) and names the result for
/// other texts.
#[verifier::external_body]
fn to_lowercase(s: &str) -> (r: String)
    ensures
        r@ == (if ascii_text(s@) {
            s@.map_values(|c: char| ascii_lower(c))
        } else {
            unicode_lowercase(s@)
        }),
{
    s.to_lowercase()
}

/// An ASCII decimal digit.
pub open spec fn is_digit(c: char) -> bool {
    '0' <= c && c <= '9'
}

fn is_ascii_digit(c: char) -> (r: bool)
    ensures
        r == is_digit(c),
{
    '0' <= c && c <= '9'
}

/// A character that may continue a word.
pub open spec fn is_word_char(c: char) -> bool {
    alphanumeric(c) || c == '_'
}

// --- Positions ---

/// Line (from 1) of the character at index `p`.
pub open spec fn line_at(s: Seq<char>, p: int) -> int
    decreases p,
{
    if p <= 0 {
        1
    } else {
        line_at(s, p - 1) + if s[p - 1] == '\n' {
            1int
        } else {
            0int
        }
    }
}

/// Column (from 1, in characters) of the character at index `p`.
pub open spec fn column_at(s: Seq<char>, p: int) -> int
    decreases p,
{
    if p <= 0 {
        1
    } else if s[p - 1] == '\n' {
        1
    } else {
        column_at(s, p - 1) + 1
    }
}

/// The span of `len` characters starting at index `p`.
pub open spec fn span_at(s: Seq<char>, p: int, len: int) -> Span {
    span_of(line_at(s, p) as usize, column_at(s, p) as usize, len as usize)
}

pub proof fn lemma_position_bounds(s: Seq<char>, p: int)
    requires
        0 <= p <= s.len(),
    ensures
        1 <= line_at(s, p) <= p + 1,
        1 <= column_at(s, p) <= p + 1,
    decreases p,
{
    if p > 0 {
        lemma_position_bounds(s, p - 1);
    }
}

/// Between `a` and `b` there is no line feed: same line, columns apart by `b - a`.
pub proof fn lemma_same_line(s: Seq<char>, a: int, b: int)
    requires
        0 <= a <= b <= s.len(),
        forall|i: int| a <= i < b ==> s[i] != '\n',
    ensures
        line_at(s, b) == line_at(s, a),
        column_at(s, b) == column_at(s, a) + (b - a),
    decreases b - a,
{
    if a < b {
        lemma_same_line(s, a, b - 1);
    }
}

// --- Scanning ---

/// The first index at or after `i` whose character does not satisfy `f`
/// (or the length of `s`).
pub open spec fn run_end(s: Seq<char>, i: int, f: spec_fn(char) -> bool) -> int
    decreases s.len() - i,
{
    if 0 <= i < s.len() && f(s[i]) {
        run_end(s, i + 1, f)
    } else {
        i
    }
}

pub proof fn lemma_run_end(s: Seq<char>, i: int, f: spec_fn(char) -> bool)
    requires
        0 <= i <= s.len(),
    ensures
        i <= run_end(s, i, f) <= s.len(),
        forall|k: int| i <= k < run_end(s, i, f) ==> f(#[trigger] s[k]),
        run_end(s, i, f) < s.len() ==> !f(s[run_end(s, i, f)]),
    decreases s.len() - i,
{
    if i < s.len() && f(s[i]) {
        lemma_run_end(s, i + 1, f);
    }
}

/// A run found by scanning is the one that `run_end` describes.
pub proof fn lemma_run_end_is(s: Seq<char>, i: int, j: int, f: spec_fn(char) -> bool)
    requires
        0 <= i <= j <= s.len(),
        forall|k: int| i <= k < j ==> f(#[trigger] s[k]),
        j == s.len() || !f(s[j]),
    ensures
        run_end(s, i, f) == j,
    decreases j - i,
{
    if i < j {
        lemma_run_end_is(s, i + 1, j, f);
    }
}

pub open spec fn digit_class() -> spec_fn(char) -> bool {
    |c: char| is_digit(c)
}

pub open spec fn word_class() -> spec_fn(char) -> bool {
    |c: char| is_word_char(c)
}

pub open spec fn comment_class() -> spec_fn(char) -> bool {
    |c: char| c != '\n'
}

pub open spec fn string_class() -> spec_fn(char) -> bool {
    |c: char| c != '"' && c != '\n'
}

/// Where the text between single quotes that starts at `i` ends: at the
/// first `'` or line feed, or at the end of `s`. A backslash takes the next
/// character with it (unless that is a line feed), so that `\'` does not
/// close the literal.
pub open spec fn char_end(s: Seq<char>, i: int) -> int
    decreases s.len() - i,
{
    if 0 <= i < s.len() && s[i] != '\'' && s[i] != '\n' {
        if s[i] == '\\' && i + 1 < s.len() && s[i + 1] != '\n' {
            char_end(s, i + 2)
        } else {
            char_end(s, i + 1)
        }
    } else {
        i
    }
}

pub proof fn lemma_char_end(s: Seq<char>, i: int)
    requires
        0 <= i <= s.len(),
    ensures
        i <= char_end(s, i) <= s.len(),
        char_end(s, i) < s.len() ==> s[char_end(s, i)] == '\'' || s[char_end(s, i)] == '\n',
        forall|k: int| i <= k < char_end(s, i) ==> #[trigger] s[k] != '\n',
    decreases s.len() - i,
{
    if 0 <= i < s.len() && s[i] != '\'' && s[i] != '\n' {
        if s[i] == '\\' && i + 1 < s.len() && s[i + 1] != '\n' {
            lemma_char_end(s, i + 2);
        } else {
            lemma_char_end(s, i + 1);
        }
    }
}

/// Value of a sequence of decimal digits.
pub open spec fn digits_value(t: Seq<char>) -> nat
    decreases t.len(),
{
    if t.len() == 0 {
        0
    } else {
        digits_value(t.drop_last()) * 10 + ((t.last() as nat) - 48) as nat
    }
}

/// What an escape `\e` inside single quotes stands for.
pub open spec fn escape_text(e: char) -> Seq<char> {
    if e == 'n' {
        seq!['\n']
    } else if e == 't' {
        seq!['\t']
    } else if e == 'r' {
        seq!['\r']
    } else if e == '\\' {
        seq!['\\']
    } else if e == '\'' {
        seq!['\'']
    } else if e == '"' {
        seq!['"']
    } else {
        seq!['\\', e]
    }
}

/// The text between single quotes with its escapes decoded; an unknown
/// escape is kept as it is, a final lone `\` too.
pub open spec fn decoded(raw: Seq<char>) -> Seq<char>
    decreases raw.len(),
{
    if raw.len() == 0 {
        Seq::<char>::empty()
    } else if raw[0] != '\\' {
        seq![raw[0]] + decoded(raw.drop_first())
    } else if raw.len() == 1 {
        seq!['\\']
    } else {
        escape_text(raw[1]) + decoded(raw.subrange(2, raw.len() as int))
    }
}

/// The keyword whose lowercase spelling is `lowered`, if any.
pub open spec fn keyword_token(lowered: Seq<char>) -> Option<TokenV> {
    if lowered == "afficher"@ {
        Some(TokenV::Afficher)
    } else if lowered == "declarer"@ {
        Some(TokenV::Declarer)
    } else if lowered == "entier"@ {
        Some(TokenV::TyEntier)
    } else if lowered == "entier_naturel"@ {
        Some(TokenV::TyEntierNaturel)
    } else if lowered == "reel"@ {
        Some(TokenV::TyReel)
    } else if lowered == "booleen"@ {
        Some(TokenV::TyBooleen)
    } else if lowered == "caractere"@ {
        Some(TokenV::TyCaractere)
    } else if lowered == "string"@ {
        Some(TokenV::TyChaine)
    } else if lowered == "vrai"@ {
        Some(TokenV::Vrai)
    } else if lowered == "faux"@ {
        Some(TokenV::Faux)
    } else {
        None
    }
}

/// The token of a word whose lowercase form is `lowered`: a keyword, or an
/// identifier that keeps the word as written.
pub open spec fn word_token(word: Seq<char>, lowered: Seq<char>) -> TokenV {
    match keyword_token(lowered) {
        Some(t) => t,
        None => TokenV::Ident(word),
    }
}

/// What one step of the lexer does at index `p`.
pub enum Step {
    /// Nothing to emit; go on at the given index.
    Skip(int),
    /// Emit a token with its span; go on at the given index.
    Emit(TokenV, Span, int),
    /// Stop with an error.
    Fail(CompileErrorV),
}

/// The step at index `p` once blanks and comments are ruled out: the token
/// that starts with `s[p]`, or the error it raises.
pub open spec fn token_step(s: Seq<char>, p: int) -> Step {
    let c = s[p];
    if c == '(' {
        Step::Emit(TokenV::LParen, span_at(s, p, 1), p + 1)
    } else if c == ')' {
        Step::Emit(TokenV::RParen, span_at(s, p, 1), p + 1)
    } else if c == ';' {
        Step::Emit(TokenV::Semicolon, span_at(s, p, 1), p + 1)
    } else if c == ':' {
        Step::Emit(TokenV::Colon, span_at(s, p, 1), p + 1)
    } else if c == '-' {
        Step::Emit(TokenV::Minus, span_at(s, p, 1), p + 1)
    } else if c == '<' {
        if p + 1 < s.len() && s[p + 1] == '-' {
            Step::Emit(TokenV::Assign, span_at(s, p, 2), p + 2)
        } else {
            Step::Fail(unknown_character_error('<', span_at(s, p, 1)))
        }
    } else if c == '"' {
        let q = run_end(s, p + 1, string_class());
        if q < s.len() && s[q] == '"' {
            Step::Emit(TokenV::StringLit(s.subrange(p + 1, q)), span_at(s, p, q - p + 1), q + 1)
        } else {
            Step::Fail(unterminated_string_error(span_at(s, p, q - p + 1)))
        }
    } else if c == '\'' {
        let q = char_end(s, p + 1);
        if q >= s.len() || s[q] == '\n' {
            Step::Fail(unterminated_char_error(span_at(s, p, q - p + 1)))
        } else {
            let raw = s.subrange(p + 1, q);
            let span = span_at(s, p, q - p + 1);
            if decoded(raw).len() == 1 {
                Step::Emit(TokenV::CharLit(decoded(raw)[0]), span, q + 1)
            } else {
                Step::Fail(invalid_char_error(raw, span))
            }
        }
    } else if is_digit(c) {
        let j = run_end(s, p, digit_class());
        if j + 1 < s.len() && s[j] == '.' && is_digit(s[j + 1]) {
            let k = run_end(s, j + 1, digit_class());
            Step::Emit(TokenV::FloatLit(s.subrange(p, k)), span_at(s, p, k - p), k)
        } else {
            let text = s.subrange(p, j);
            if digits_value(text) <= i64::MAX {
                Step::Emit(TokenV::IntLit(digits_value(text) as i64), span_at(s, p, j - p), j)
            } else {
                Step::Fail(number_too_large_error(text, span_at(s, p, j - p)))
            }
        }
    } else if alphabetic(c) {
        // `c` itself is alphanumeric: the word goes on from the next character.
        let w = run_end(s, p + 1, word_class());
        let word = s.subrange(p, w);
        Step::Emit(word_token(word, lowercase(word)), span_at(s, p, w - p), w)
    } else {
        Step::Fail(unknown_character_error(c, span_at(s, p, 1)))
    }
}

/// The step at index `p < s.len()`: blanks are skipped, a `//` comment is
/// skipped up to the end of its line, anything else is a token.
pub open spec fn lex_step(s: Seq<char>, p: int) -> Step {
    if white_space(s[p]) {
        Step::Skip(p + 1)
    } else if s[p] == '/' && p + 1 < s.len() && s[p + 1] == '/' {
        Step::Skip(run_end(s, p, comment_class()))
    } else {
        token_step(s, p)
    }
}

/// Every step moves forward.
pub proof fn lemma_step_progress(s: Seq<char>, p: int)
    requires
        0 <= p < s.len(),
    ensures
        match lex_step(s, p) {
            Step::Skip(q) => p < q <= s.len(),
            Step::Emit(_, _, q) => p < q <= s.len(),
            Step::Fail(_) => true,
        },
{
    lemma_run_end(s, p, comment_class());
    lemma_run_end(s, p + 1, string_class());
    lemma_char_end(s, p + 1);
    lemma_run_end(s, p, digit_class());
    lemma_run_end(s, p + 1, word_class());
    let j = run_end(s, p, digit_class());
    if j + 1 < s.len() {
        lemma_run_end(s, j + 1, digit_class());
    }
}

/// The tokens of `s` from index `p` on, ending with `Eof`, or the first error.
pub open spec fn lex_from(s: Seq<char>, p: int) -> Result<Seq<(TokenV, Span)>, CompileErrorV>
    decreases s.len() - p,
{
    if p < 0 || p >= s.len() {
        Ok(seq![(TokenV::Eof, eof_span(s))])
    } else {
        proof {
            lemma_step_progress(s, p);
        }
        match lex_step(s, p) {
            Step::Skip(q) => lex_from(s, q),
            Step::Emit(t, span, q) => match lex_from(s, q) {
                Ok(rest) => Ok(seq![(t, span)] + rest),
                Err(e) => Err(e),
            },
            Step::Fail(e) => Err(e),
        }
    }
}

/// The tokens of a whole source text (or the first lexical error).
pub open spec fn lexed(s: Seq<char>) -> Result<Seq<(TokenV, Span)>, CompileErrorV> {
    lex_from(s, 0)
}

// --- Executable lexer ---

/// `pre` followed by the tokens of `r`, or the error of `r`.
pub open spec fn prepend(
    pre: Seq<(TokenV, Span)>,
    r: Result<Seq<(TokenV, Span)>, CompileErrorV>,
) -> Result<Seq<(TokenV, Span)>, CompileErrorV> {
    match r {
        Ok(v) => Ok(pre + v),
        Err(e) => Err(e),
    }
}

/// Splits the source into located tokens.
///
/// Returns an error instead of panicking:
/// - `E001` unknown character,
/// - `E003` unterminated string (double quotes),
/// - `E004` unterminated character (single quotes),
/// - `E005` text between single quotes that is not one character,
/// - `E006` integer too large.
///
/// Lines and columns count characters, from 1.
pub fn tokenize(source: &str) -> (r: CompileResult<Vec<SpannedToken>>)
    requires
        source@.len() < usize::MAX,
    ensures
        match r {
            Ok(ts) => lexed(source@) == Ok::<_, CompileErrorV>(token_views(ts@)),
            Err(e) => lexed(source@) == Err::<Seq<(TokenV, Span)>, _>(e@),
        },
{
    Lexer::new(source).run()
}

/// The lexer's state as it moves through the source.
struct Lexer {
    chars: Vec<char>,
    /// Index of the next character to read (in characters, not bytes).
    pos: usize,
    line: usize,
    column: usize,
    tokens: Vec<SpannedToken>,
}

/// What a lexer method did, given the step that the specification takes.
spec fn follows(old: Lexer, new: Lexer, st: Step, r: CompileResult<()>) -> bool {
    match st {
        Step::Skip(q) => {
            &&& r is Ok
            &&& new.wf()
            &&& new.chars@ == old.chars@
            &&& new.pos == q
            &&& new.tokens@ == old.tokens@
        },
        Step::Emit(t, span, q) => {
            &&& r is Ok
            &&& new.wf()
            &&& new.chars@ == old.chars@
            &&& new.pos == q
            &&& token_views(new.tokens@) == token_views(old.tokens@).push((t, span))
        },
        Step::Fail(e) => r matches Err(err) && err@ == e,
    }
}

impl Lexer {
    spec fn wf(&self) -> bool {
        &&& self.chars@.len() < usize::MAX
        &&& self.pos <= self.chars@.len()
        &&& self.line == line_at(self.chars@, self.pos as int)
        &&& self.column == column_at(self.chars@, self.pos as int)
    }

    fn new(source: &str) -> (l: Self)
        requires
            source@.len() < usize::MAX,
        ensures
            l.wf(),
            l.chars@ == source@,
            l.pos == 0,
            l.tokens@.len() == 0,
    {
        Lexer { chars: chars_of(source), pos: 0, line: 1, column: 1, tokens: Vec::new() }
    }

    fn peek(&self) -> (r: Option<char>)
        ensures
            r == if self.pos < self.chars@.len() {
                Some(self.chars@[self.pos as int])
            } else {
                None
            },
    {
        if self.pos < self.chars.len() {
            Some(self.chars[self.pos])
        } else {
            None
        }
    }

    /// The character `offset` places after the current one (for two-character tokens).
    fn peek_at(&self, offset: usize) -> (r: Option<char>)
        requires
            self.pos + offset <= usize::MAX,
        ensures
            r == if self.pos + offset < self.chars@.len() {
                Some(self.chars@[self.pos + offset])
            } else {
                None
            },
    {
        if self.pos + offset < self.chars.len() {
            Some(self.chars[self.pos + offset])
        } else {
            None
        }
    }

    /// Consumes the current character, keeping line and column up to date.
    fn bump(&mut self) -> (r: Option<char>)
        requires
            old(self).wf(),
        ensures
            final(self).wf(),
            final(self).chars@ == old(self).chars@,
            final(self).tokens@ == old(self).tokens@,
            old(self).pos < old(self).chars@.len() ==> r == Some(old(self).chars@[old(self).pos as int])
                && final(self).pos == old(self).pos + 1,
            old(self).pos >= old(self).chars@.len() ==> r is None && final(self).pos == old(self).pos,
    {
        if self.pos >= self.chars.len() {
            return None;
        }
        let c = self.chars[self.pos];
        proof {
            lemma_position_bounds(self.chars@, self.pos as int);
        }
        if c == '\n' {
            self.line += 1;
            self.column = 1;
        } else {
            self.column += 1;
        }
        self.pos += 1;
        Some(c)
    }

    /// Pushes a one-character token (`(`, `;`, `:` ...).
    fn push_simple(&mut self, token: Token)
        requires
            old(self).wf(),
            old(self).pos < old(self).chars@.len(),
        ensures
            final(self).wf(),
            final(self).chars@ == old(self).chars@,
            final(self).pos == old(self).pos + 1,
            token_views(final(self).tokens@) == token_views(old(self).tokens@).push(
                (token@, span_at(old(self).chars@, old(self).pos as int, 1)),
            ),
    {
        let span = Span::new(self.line, self.column, 1);
        self.bump();
        let t = SpannedToken::new(token, span);
        let ghost before = self.tokens@;
        self.tokens.push(t);
        assert(token_views(self.tokens@) =~= token_views(before).push(t@));
    }

    fn run(self) -> (r: CompileResult<Vec<SpannedToken>>)
        requires
            self.wf(),
            self.pos == 0,
            self.tokens@.len() == 0,
        ensures
            match r {
                Ok(ts) => lexed(self.chars@) == Ok::<_, CompileErrorV>(token_views(ts@)),
                Err(e) => lexed(self.chars@) == Err::<Seq<(TokenV, Span)>, _>(e@),
            },
    {
        let mut lx = self;
        let ghost s = lx.chars@;
        assert(token_views(lx.tokens@) =~= Seq::<(TokenV, Span)>::empty());
        assert(prepend(token_views(lx.tokens@), lex_from(s, 0)) =~= lex_from(s, 0)) by {
            match lex_from(s, 0) {
                Ok(v) => {
                    assert(Seq::<(TokenV, Span)>::empty() + v =~= v);
                },
                Err(_) => {},
            }
        }
        loop
            invariant
                lx.wf(),
                lx.chars@ == s,
                self.chars@ == s,
                lexed(s) == prepend(token_views(lx.tokens@), lex_from(s, lx.pos as int)),
            ensures
                lx.wf(),
                lx.chars@ == s,
                lx.pos == s.len(),
                lexed(s) == prepend(token_views(lx.tokens@), lex_from(s, lx.pos as int)),
            decreases s.len() - lx.pos,
        {
            let c = match lx.peek() {
                Some(c) => c,
                None => {
                    break;
                },
            };
            let ghost p = lx.pos as int;
            let ghost pre = token_views(lx.tokens@);
            proof {
                lemma_step_progress(s, p);
            }
            if is_whitespace(c) {
                lx.bump();
                continue;
            }
            let next_is_slash = match lx.peek_at(1) {
                Some(d) => d == '/',
                None => false,
            };
            if c == '/' && next_is_slash {
                lx.skip_comment();
                continue;
            }
            let ghost st = token_step(s, p);
            assert(lex_step(s, p) == st);
            let res: CompileResult<()> = if c == '(' {
                lx.push_simple(Token::LParen);
                Ok(())
            } else if c == ')' {
                lx.push_simple(Token::RParen);
                Ok(())
            } else if c == ';' {
                lx.push_simple(Token::Semicolon);
                Ok(())
            } else if c == ':' {
                lx.push_simple(Token::Colon);
                Ok(())
            } else if c == '-' {
                lx.push_simple(Token::Minus);
                Ok(())
            } else if c == '<' {
                lx.scan_assign()
            } else if c == '"' {
                lx.scan_string()
            } else if c == '\'' {
                lx.scan_char()
            } else if is_ascii_digit(c) {
                lx.scan_number()
            } else if is_alphabetic(c) {
                lx.scan_word();
                Ok(())
            } else {
                Err(CompileError::unknown_character(c, Span::new(lx.line, lx.column, 1)))
            };
            match res {
                Ok(()) => {},
                Err(e) => {
                    return Err(e);
                },
            }
            proof {
                match st {
                    Step::Emit(t, span, q) => {
                        match lex_from(s, q) {
                            Ok(rest) => {
                                assert(pre + (seq![(t, span)] + rest) =~= pre.push((t, span)) + rest);
                            },
                            Err(_) => {},
                        }
                    },
                    _ => {},
                }
            }
        }
        let eof = Span::eof_of_chars(&lx.chars);
        let ghost before = lx.tokens@;
        lx.tokens.push(SpannedToken::new(Token::Eof, eof));
        assert(token_views(lx.tokens@) =~= token_views(before).push((TokenV::Eof, eof)));
        assert(token_views(before) + seq![(TokenV::Eof, eof)] =~= token_views(lx.tokens@));
        Ok(lx.tokens)
    }

    /// Skips the rest of a line after `//` (the line feed itself is left to
    /// the blank handling, so that the counting stays right).
    fn skip_comment(&mut self)
        requires
            old(self).wf(),
            old(self).pos < old(self).chars@.len(),
            old(self).chars@[old(self).pos as int] == '/',
        ensures
            follows(*old(self), *final(self), Step::Skip(run_end(old(self).chars@, old(self).pos as int, comment_class())), Ok(())),
    {
        let ghost s = self.chars@;
        let ghost start = self.pos as int;
        loop
            invariant
                self.wf(),
                self.chars@ == s,
                self.tokens@ == old(self).tokens@,
                start <= self.pos <= s.len(),
                start == old(self).pos,
                forall|k: int| start <= k < self.pos ==> comment_class()(#[trigger] s[k]),
            ensures
                self.wf(),
                self.chars@ == s,
                self.tokens@ == old(self).tokens@,
                start <= self.pos <= s.len(),
                forall|k: int| start <= k < self.pos ==> comment_class()(#[trigger] s[k]),
                self.pos == s.len() || s[self.pos as int] == '\n',
            decreases s.len() - self.pos,
        {
            match self.peek() {
                Some(c) => {
                    if c == '\n' {
                        break;
                    }
                    self.bump();
                },
                None => {
                    break;
                },
            }
        }
        proof {
            lemma_run_end_is(s, start, self.pos as int, comment_class());
        }
    }

    /// `<-`: assignment. A `<` followed by anything else is an error.
    fn scan_assign(&mut self) -> (r: CompileResult<()>)
        requires
            old(self).wf(),
            old(self).pos < old(self).chars@.len(),
            old(self).chars@[old(self).pos as int] == '<',
        ensures
            follows(*old(self), *final(self), token_step(old(self).chars@, old(self).pos as int), r),
    {
        let line = self.line;
        let column = self.column;
        let next_is_dash = match self.peek_at(1) {
            Some(d) => d == '-',
            None => false,
        };
        if !next_is_dash {
            return Err(CompileError::unknown_character('<', Span::new(line, column, 1)));
        }
        self.bump();
        self.bump();
        let t = SpannedToken::new(Token::Assign, Span::new(line, column, 2));
        let ghost before = self.tokens@;
        self.tokens.push(t);
        assert(token_views(self.tokens@) =~= token_views(before).push(t@));
        Ok(())
    }

    /// A string between double quotes, closed on the same line.
    fn scan_string(&mut self) -> (r: CompileResult<()>)
        requires
            old(self).wf(),
            old(self).pos < old(self).chars@.len(),
            old(self).chars@[old(self).pos as int] == '"',
        ensures
            follows(*old(self), *final(self), token_step(old(self).chars@, old(self).pos as int), r),
    {
        let ghost s = self.chars@;
        let ghost p = self.pos as int;
        let start_line = self.line;
        let start_col = self.column;
        self.bump();
        let mut content: Vec<char> = Vec::new();
        loop
            invariant
                self.wf(),
                self.chars@ == s,
                self.tokens@ == old(self).tokens@,
                old(self).pos == p,
                old(self).chars@ == s,
                0 <= p < s.len(),
                s[p] == '"',
                p + 1 <= self.pos <= s.len(),
                content@ == s.subrange(p + 1, self.pos as int),
                forall|k: int| p + 1 <= k < self.pos ==> string_class()(#[trigger] s[k]),
                start_line == line_at(s, p),
                start_col == column_at(s, p),
            decreases s.len() - self.pos,
        {
            let c = self.peek();
            let closed = match c {
                Some(c) => c == '"',
                None => false,
            };
            let stops = match c {
                Some(c) => c == '\n',
                None => true,
            };
            if stops {
                proof {
                    lemma_run_end_is(s, p + 1, self.pos as int, string_class());
                    assert forall|i: int| p <= i < self.pos implies s[i] != '\n' by {
                        if i > p {
                            assert(string_class()(s[i]));
                        }
                    }
                    lemma_same_line(s, p, self.pos as int);
                }
                let length = self.column - start_col + 1;
                return Err(CompileError::unterminated_string(Span::new(start_line, start_col, length)));
            }
            if closed {
                proof {
                    lemma_run_end_is(s, p + 1, self.pos as int, string_class());
                }
                self.bump();
                let length = content.len() + 2;
                let t = SpannedToken::new(
                    Token::StringLit(string_from_chars(&content)),
                    Span::new(start_line, start_col, length),
                );
                let ghost before = self.tokens@;
                self.tokens.push(t);
                assert(token_views(self.tokens@) =~= token_views(before).push(t@));
                return Ok(());
            }
            let ch = self.bump();
            match ch {
                Some(ch) => {
                    content.push(ch);
                },
                None => {},
            }
            assert(content@ =~= s.subrange(p + 1, self.pos as int));
        }
    }

    /// A character between single quotes, closed on the same line.
    ///
    /// A backslash and the character after it are read together, so `'\''`
    /// is a quote. The basic escapes are decoded: `\n`, `\t`, `\r`, `\\`, `\'`, `\"`.
    fn scan_char(&mut self) -> (r: CompileResult<()>)
        requires
            old(self).wf(),
            old(self).pos < old(self).chars@.len(),
            old(self).chars@[old(self).pos as int] == '\'',
        ensures
            follows(*old(self), *final(self), token_step(old(self).chars@, old(self).pos as int), r),
    {
        let ghost s = self.chars@;
        let ghost p = self.pos as int;
        let start_line = self.line;
        let start_col = self.column;
        self.bump();
        let mut raw: Vec<char> = Vec::new();
        proof {
            lemma_char_end(s, p + 1);
        }
        loop
            invariant
                self.wf(),
                self.chars@ == s,
                self.tokens@ == old(self).tokens@,
                old(self).pos == p,
                old(self).chars@ == s,
                0 <= p < s.len(),
                s[p] == '\'',
                p + 1 <= self.pos <= s.len(),
                raw@ == s.subrange(p + 1, self.pos as int),
                char_end(s, self.pos as int) == char_end(s, p + 1),
                forall|k: int| p <= k < self.pos ==> #[trigger] s[k] != '\n',
                start_line == line_at(s, p),
                start_col == column_at(s, p),
            ensures
                self.wf(),
                self.chars@ == s,
                self.tokens@ == old(self).tokens@,
                p + 1 <= self.pos < s.len(),
                s[self.pos as int] == '\'',
                raw@ == s.subrange(p + 1, self.pos as int),
                char_end(s, p + 1) == self.pos,
            decreases s.len() - self.pos,
        {
            let c = self.peek();
            let closed = match c {
                Some(c) => c == '\'',
                None => false,
            };
            let stops = match c {
                Some(c) => c == '\n',
                None => true,
            };
            if stops {
                proof {
                    lemma_same_line(s, p, self.pos as int);
                }
                let length = self.column - start_col + 1;
                return Err(CompileError::unterminated_char(Span::new(start_line, start_col, length)));
            }
            if closed {
                break;
            }
            let escape = match c {
                Some(c) => c == '\\',
                None => false,
            };
            let next_ok = match self.peek_at(1) {
                Some(d) => d != '\n',
                None => false,
            };
            let ch = self.bump();
            match ch {
                Some(ch) => {
                    raw.push(ch);
                },
                None => {},
            }
            if escape && next_ok {
                let ch2 = self.bump();
                match ch2 {
                    Some(ch2) => {
                        raw.push(ch2);
                    },
                    None => {},
                }
            }
            assert(raw@ =~= s.subrange(p + 1, self.pos as int));
        }
        self.bump();
        let length = raw.len() + 2;
        let span = Span::new(start_line, start_col, length);
        let decoded_chars = decode_chars(&raw);
        if decoded_chars.len() == 1 {
            let t = SpannedToken::new(Token::CharLit(decoded_chars[0]), span);
            let ghost before = self.tokens@;
            self.tokens.push(t);
            assert(token_views(self.tokens@) =~= token_views(before).push(t@));
            Ok(())
        } else {
            let raw_text = string_from_chars(&raw);
            Err(CompileError::invalid_char(raw_text.as_str(), span))
        }
    }

    /// An integer, or a real with at least one digit after the `.`.
    fn scan_number(&mut self) -> (r: CompileResult<()>)
        requires
            old(self).wf(),
            old(self).pos < old(self).chars@.len(),
            is_digit(old(self).chars@[old(self).pos as int]),
        ensures
            follows(*old(self), *final(self), token_step(old(self).chars@, old(self).pos as int), r),
    {
        let ghost s = self.chars@;
        let ghost p = self.pos as int;
        let start_line = self.line;
        let start_col = self.column;
        let mut text: Vec<char> = Vec::new();
        self.eat_digits(&mut text);
        let ghost j = self.pos as int;
        proof {
            lemma_run_end(s, p, digit_class());
            assert(text@ =~= s.subrange(p, j));
        }
        let dot = match self.peek() {
            Some(d) => d == '.',
            None => false,
        };
        let digit_after = match self.peek_at(1) {
            Some(d) => is_ascii_digit(d),
            None => false,
        };
        let is_float = dot && digit_after;
        if is_float {
            text.push('.');
            self.bump();
            self.eat_digits(&mut text);
            proof {
                lemma_run_end(s, j + 1, digit_class());
                assert(text@ =~= s.subrange(p, self.pos as int));
            }
        }
        let span = Span::new(start_line, start_col, text.len());
        let token = if is_float {
            Token::FloatLit(string_from_chars(&text))
        } else {
            match parse_digits(&text) {
                Some(value) => Token::IntLit(value),
                None => {
                    let t = string_from_chars(&text);
                    return Err(CompileError::number_too_large(t.as_str(), span));
                },
            }
        };
        let t = SpannedToken::new(token, span);
        let ghost before = self.tokens@;
        self.tokens.push(t);
        assert(token_views(self.tokens@) =~= token_views(before).push(t@));
        Ok(())
    }

    fn eat_digits(&mut self, text: &mut Vec<char>)
        requires
            old(self).wf(),
        ensures
            final(self).wf(),
            final(self).chars@ == old(self).chars@,
            final(self).tokens@ == old(self).tokens@,
            final(self).pos == run_end(old(self).chars@, old(self).pos as int, digit_class()),
            final(text)@ == old(text)@ + old(self).chars@.subrange(
                old(self).pos as int,
                final(self).pos as int,
            ),
    {
        let ghost s = self.chars@;
        let ghost p = self.pos as int;
        loop
            invariant
                self.wf(),
                self.chars@ == s,
                self.tokens@ == old(self).tokens@,
                old(self).pos == p,
                p <= self.pos <= s.len(),
                text@ == old(text)@ + s.subrange(p, self.pos as int),
                forall|k: int| p <= k < self.pos ==> digit_class()(#[trigger] s[k]),
            ensures
                self.wf(),
                self.chars@ == s,
                self.tokens@ == old(self).tokens@,
                p <= self.pos <= s.len(),
                text@ == old(text)@ + s.subrange(p, self.pos as int),
                forall|k: int| p <= k < self.pos ==> digit_class()(#[trigger] s[k]),
                self.pos == s.len() || !is_digit(s[self.pos as int]),
            decreases s.len() - self.pos,
        {
            let c = match self.peek() {
                Some(c) => c,
                None => {
                    break;
                },
            };
            if !is_ascii_digit(c) {
                break;
            }
            text.push(c);
            self.bump();
            assert(text@ =~= old(text)@ + s.subrange(p, self.pos as int));
        }
        proof {
            lemma_run_end_is(s, p, self.pos as int, digit_class());
        }
    }

    /// A keyword or an identifier (keywords whatever their case).
    fn scan_word(&mut self)
        requires
            old(self).wf(),
            old(self).pos < old(self).chars@.len(),
            alphabetic(old(self).chars@[old(self).pos as int]),
        ensures
            follows(
                *old(self),
                *final(self),
                Step::Emit(
                    word_token(
                        old(self).chars@.subrange(
                            old(self).pos as int,
                            run_end(old(self).chars@, old(self).pos + 1, word_class()),
                        ),
                        lowercase(
                            old(self).chars@.subrange(
                                old(self).pos as int,
                                run_end(old(self).chars@, old(self).pos + 1, word_class()),
                            ),
                        ),
                    ),
                    span_at(
                        old(self).chars@,
                        old(self).pos as int,
                        run_end(old(self).chars@, old(self).pos + 1, word_class()) - old(self).pos,
                    ),
                    run_end(old(self).chars@, old(self).pos + 1, word_class()),
                ),
                Ok(()),
            ),
    {
        let ghost s = self.chars@;
        let ghost p = self.pos as int;
        let start_line = self.line;
        let start_col = self.column;
        let mut word: Vec<char> = Vec::new();
        loop
            invariant
                self.wf(),
                self.chars@ == s,
                self.tokens@ == old(self).tokens@,
                old(self).pos == p,
                0 <= p < s.len(),
                alphabetic(s[p]),
                p <= self.pos <= s.len(),
                word@ == s.subrange(p, self.pos as int),
                forall|k: int| p <= k < self.pos ==> word_class()(#[trigger] s[k]),
            ensures
                self.wf(),
                self.chars@ == s,
                self.tokens@ == old(self).tokens@,
                p < self.pos <= s.len(),
                word@ == s.subrange(p, self.pos as int),
                forall|k: int| p <= k < self.pos ==> word_class()(#[trigger] s[k]),
                self.pos == s.len() || !is_word_char(s[self.pos as int]),
            decreases s.len() - self.pos,
        {
            let c = match self.peek() {
                Some(c) => c,
                None => {
                    break;
                },
            };
            if !(is_alphanumeric(c) || c == '_') {
                break;
            }
            word.push(c);
            self.bump();
            assert(word@ =~= s.subrange(p, self.pos as int));
        }
        proof {
            lemma_run_end_is(s, p + 1, self.pos as int, word_class());
        }
        let span = Span::new(start_line, start_col, word.len());
        let text = string_from_chars(&word);
        let lowered = to_lowercase(text.as_str());
        let token = classify_word(text, lowered.as_str());
        let t = SpannedToken::new(token, span);
        let ghost before = self.tokens@;
        self.tokens.push(t);
        assert(token_views(self.tokens@) =~= token_views(before).push(t@));
    }
}

/// The token of a word, given the word's lowercase form `lowered` (as
/// `str::to_lowercase` gives it): a keyword, or an identifier that keeps
/// the word as written.
pub fn classify_word(word: String, lowered: &str) -> (t: Token)
    ensures
        t@ == word_token(word@, lowered@),
{
    let l = chars_of(lowered);
    if same_text(&l, "afficher") {
        Token::Afficher
    } else if same_text(&l, "declarer") {
        Token::Declarer
    } else if same_text(&l, "entier") {
        Token::TyEntier
    } else if same_text(&l, "entier_naturel") {
        Token::TyEntierNaturel
    } else if same_text(&l, "reel") {
        Token::TyReel
    } else if same_text(&l, "booleen") {
        Token::TyBooleen
    } else if same_text(&l, "caractere") {
        Token::TyCaractere
    } else if same_text(&l, "string") {
        Token::TyChaine
    } else if same_text(&l, "vrai") {
        Token::Vrai
    } else if same_text(&l, "faux") {
        Token::Faux
    } else {
        Token::Ident(word)
    }
}

/// Whether the characters `a` spell the text `b`.
fn same_text(a: &Vec<char>, b: &str) -> (r: bool)
    ensures
        r == (a@ == b@),
{
    let bc = chars_of(b);
    if a.len() != bc.len() {
        return false;
    }
    let mut i: usize = 0;
    while i < a.len()
        invariant
            i <= a@.len(),
            a@.len() == bc@.len(),
            bc@ == b@,
            forall|k: int| 0 <= k < i ==> a@[k] == bc@[k],
        decreases a@.len() - i,
    {
        if a[i] != bc[i] {
            return false;
        }
        i += 1;
    }
    assert(a@ =~= bc@);
    true
}

/// Value of a run of decimal digits, or `None` when it does not fit in an `i64`.
fn parse_digits(t: &Vec<char>) -> (r: Option<i64>)
    requires
        forall|k: int| 0 <= k < t@.len() ==> is_digit(#[trigger] t@[k]),
    ensures
        match r {
            Some(v) => digits_value(t@) <= i64::MAX && v == digits_value(t@),
            None => digits_value(t@) > i64::MAX,
        },
{
    let mut value: i64 = 0;
    let mut too_large = false;
    let mut i: usize = 0;
    assert(t@.subrange(0, 0) =~= Seq::<char>::empty());
    while i < t.len()
        invariant
            i <= t@.len(),
            forall|k: int| 0 <= k < t@.len() ==> is_digit(#[trigger] t@[k]),
            too_large ==> digits_value(t@.subrange(0, i as int)) > i64::MAX,
            !too_large ==> value == digits_value(t@.subrange(0, i as int)),
            value >= 0,
        decreases t@.len() - i,
    {
        let ghost pre = t@.subrange(0, i as int);
        let ghost next = t@.subrange(0, i + 1);
        assert(next.drop_last() =~= pre);
        assert(next.last() == t@[i as int]);
        let d = ((t[i] as u32) - 48) as i64;
        assert(is_digit(t@[i as int]));
        assert(0 <= d <= 9);
        if !too_large {
            if value > (i64::MAX - d) / 10 {
                too_large = true;
                assert(value * 10 + d > i64::MAX) by (nonlinear_arith)
                    requires
                        value > (i64::MAX - d) / 10,
                        0 <= d <= 9,
                ;
            } else {
                assert(value * 10 + d <= i64::MAX) by (nonlinear_arith)
                    requires
                        value <= (i64::MAX - d) / 10,
                        0 <= d <= 9,
                        value >= 0,
                ;
                value = value * 10 + d;
            }
        } else {
            assert(digits_value(next) >= digits_value(pre)) by (nonlinear_arith)
                requires
                    digits_value(next) == digits_value(pre) * 10 + d,
                    d >= 0,
            ;
        }
        i += 1;
    }
    assert(t@.subrange(0, t@.len() as int) =~= t@);
    if too_large {
        None
    } else {
        Some(value)
    }
}

/// Decodes the simple escapes of a character literal.
///
/// An unknown escape is kept as it is (it is then refused by the
/// "exactly one character" check of the lexer).
pub fn decode_escapes(raw: &str) -> (r: String)
    ensures
        r@ == decoded(raw@),
{
    let cs = chars_of(raw);
    let d = decode_chars(&cs);
    string_from_chars(&d)
}

fn decode_chars(raw: &Vec<char>) -> (out: Vec<char>)
    ensures
        out@ == decoded(raw@),
{
    let n = raw.len();
    let mut out: Vec<char> = Vec::new();
    let mut i: usize = 0;
    assert(raw@.subrange(0, n as int) =~= raw@);
    while i < n
        invariant
            n == raw@.len(),
            i <= n,
            out@ + decoded(raw@.subrange(i as int, n as int)) == decoded(raw@),
        decreases n - i,
    {
        let ghost rest = raw@.subrange(i as int, n as int);
        let ghost before = out@;
        let c = raw[i];
        assert(rest[0] == c);
        if c != '\\' {
            out.push(c);
            assert(rest.drop_first() =~= raw@.subrange(i + 1, n as int));
            assert(out@ + decoded(raw@.subrange(i + 1, n as int)) =~= before + decoded(rest));
            i += 1;
        } else if i + 1 < n {
            let e = raw[i + 1];
            assert(rest[1] == e);
            if e == 'n' {
                out.push('\n');
            } else if e == 't' {
                out.push('\t');
            } else if e == 'r' {
                out.push('\r');
            } else if e == '\\' {
                out.push('\\');
            } else if e == '\'' {
                out.push('\'');
            } else if e == '"' {
                out.push('"');
            } else {
                out.push('\\');
                out.push(e);
            }
            assert(out@ =~= before + escape_text(e));
            assert(rest.subrange(2, rest.len() as int) =~= raw@.subrange(i + 2, n as int));
            assert(out@ + decoded(raw@.subrange(i + 2, n as int)) =~= before + decoded(rest));
            i += 2;
        } else {
            out.push('\\');
            assert(rest.len() == 1);
            assert(raw@.subrange(i + 1, n as int) =~= Seq::<char>::empty());
            assert(out@ + decoded(raw@.subrange(i + 1, n as int)) =~= before + decoded(rest));
            i += 1;
        }
    }
    assert(raw@.subrange(n as int, n as int) =~= Seq::<char>::empty());
    assert(out@ + Seq::<char>::empty() =~= out@);
    out
}


// --- Laws ---

/// Keywords are recognised whatever their case, and identifiers keep their
/// case: two ASCII words that differ only in the case of their letters have
/// the same lowercase form, hence give the same keyword; and a word whose
/// lowercase form is no keyword is an identifier spelt as written.
pub proof fn law_keywords_ignore_case(w1: Seq<char>, w2: Seq<char>)
    requires
        ascii_text(w1),
        ascii_text(w2),
        w1.len() == w2.len(),
        forall|i: int| 0 <= i < w1.len() ==> ascii_lower(#[trigger] w1[i]) == ascii_lower(w2[i]),
    ensures
        lowercase(w1) == lowercase(w2),
        keyword_token(lowercase(w1)) is Some ==> word_token(w1, lowercase(w1)) == word_token(
            w2,
            lowercase(w2),
        ),
        keyword_token(lowercase(w1)) is None ==> word_token(w1, lowercase(w1)) == TokenV::Ident(w1),
{
    assert(lowercase(w1) =~= lowercase(w2));
}

/// No step of the lexer emits `Eof`, and every span it emits is at least 1
/// everywhere.
proof fn lemma_step_emits_no_eof(s: Seq<char>, p: int)
    requires
        0 <= p < s.len(),
    ensures
        lex_step(s, p) matches Step::Emit(t, span, _) ==> !(t is Eof) && span.line >= 1
            && span.column >= 1 && span.length >= 1,
{
}

proof fn lemma_tokens_from(s: Seq<char>, p: int)
    ensures
        lex_from(s, p) matches Ok(ts) ==> {
            &&& ts.len() >= 1
            &&& ts.last() == (TokenV::Eof, eof_span(s))
            &&& forall|i: int| 0 <= i < ts.len() - 1 ==> !(#[trigger] ts[i].0 is Eof)
            &&& forall|i: int|
                0 <= i < ts.len() ==> (#[trigger] ts[i]).1.line >= 1 && ts[i].1.column >= 1
                    && ts[i].1.length >= 1
        },
    decreases s.len() - p,
{
    if 0 <= p < s.len() {
        lemma_step_progress(s, p);
        lemma_step_emits_no_eof(s, p);
        match lex_step(s, p) {
            Step::Skip(q) => {
                lemma_tokens_from(s, q);
            },
            Step::Emit(t, span, q) => {
                lemma_tokens_from(s, q);
                if let Ok(rest) = lex_from(s, q) {
                    let ts = seq![(t, span)] + rest;
                    assert(ts.last() == rest.last());
                    assert forall|i: int| 0 <= i < ts.len() - 1 implies !(#[trigger] ts[i].0 is Eof) by {
                        if i > 0 {
                            assert(ts[i] == rest[i - 1]);
                        }
                    }
                    assert forall|i: int| 0 <= i < ts.len() implies (#[trigger] ts[i]).1.line >= 1
                        && ts[i].1.column >= 1 && ts[i].1.length >= 1 by {
                        if i > 0 {
                            assert(ts[i] == rest[i - 1]);
                        }
                    }
                }
            },
            Step::Fail(_) => {},
        }
    }
}

/// A successful tokenization ends with exactly one `Eof` token, located at
/// the end of the source (`Span::eof`), and every span starts at line 1 or
/// later, column 1 or later, and covers at least one character.
pub proof fn law_tokens_end_with_eof(s: Seq<char>)
    ensures
        lexed(s) matches Ok(ts) ==> {
            &&& ts.len() >= 1
            &&& ts.last() == (TokenV::Eof, eof_span(s))
            &&& forall|i: int| 0 <= i < ts.len() - 1 ==> !(#[trigger] ts[i].0 is Eof)
            &&& forall|i: int|
                0 <= i < ts.len() ==> (#[trigger] ts[i]).1.line >= 1 && ts[i].1.column >= 1
                    && ts[i].1.length >= 1
        },
{
    lemma_tokens_from(s, 0);
}

/// Span `a` starts before span `b`: on an earlier line, or earlier on the same line.
pub open spec fn precedes(a: Span, b: Span) -> bool {
    a.line < b.line || (a.line == b.line && a.column < b.column)
}

/// The span `sp` does not start before index `q` of `s`.
pub open spec fn not_before(s: Seq<char>, q: int, sp: Span) -> bool {
    line_at(s, q) < sp.line || (line_at(s, q) == sp.line && column_at(s, q) <= sp.column)
}

/// Positions grow with the index: a later index is on a later line, or
/// further on the same line.
pub proof fn lemma_positions_increase(s: Seq<char>, a: int, b: int)
    requires
        0 <= a < b <= s.len(),
    ensures
        line_at(s, a) < line_at(s, b) || (line_at(s, a) == line_at(s, b) && column_at(s, a)
            < column_at(s, b)),
    decreases b - a,
{
    if a + 1 < b {
        lemma_positions_increase(s, a, b - 1);
    }
}

/// Line and column at `p` depend only on the characters before `p`.
proof fn lemma_position_prefix(s1: Seq<char>, s2: Seq<char>, p: int)
    requires
        0 <= p <= s1.len(),
        p <= s2.len(),
        forall|k: int| 0 <= k < p ==> s1[k] == s2[k],
    ensures
        line_at(s1, p) == line_at(s2, p),
        column_at(s1, p) == column_at(s2, p),
    decreases p,
{
    if p > 0 {
        lemma_position_prefix(s1, s2, p - 1);
    }
}

/// The position after the last character is on the last piece, one column
/// after its end.
proof fn lemma_pieces_position(s: Seq<char>)
    ensures
        pieces(s).len() == line_at(s, s.len() as int),
        pieces(s).last().len() + 1 == column_at(s, s.len() as int),
    decreases s.len(),
{
    if s.len() > 0 {
        let t = s.drop_last();
        lemma_pieces_position(t);
        crate::text::lemma_pieces_len(t);
        lemma_position_prefix(s, t, t.len() as int);
    }
}

/// A character that starts a token comes before the end-of-file position.
proof fn lemma_token_before_eof(s: Seq<char>, p: int)
    requires
        s.len() < usize::MAX,
        0 <= p < s.len(),
        !white_space(s[p]),
    ensures
        precedes(span_at(s, p, 1), eof_span(s)),
{
    lemma_position_bounds(s, p);
    crate::text::lemma_lines_bounded(s);
    lemma_pieces_position(s);
    crate::text::lemma_pieces_len(s);
    let n = s.len() as int;
    let raw = pieces(s);
    let ls = lines_of(s);
    if s.last() != '\n' {
        lemma_positions_increase(s, p, n);
        assert(ls.len() == raw.len());
        assert(ls.last() == raw.last());
        assert(ls[ls.len() - 1].len() <= s.len());
        assert(eof_span(s).line == line_at(s, n));
        assert(eof_span(s).column == column_at(s, n));
    } else {
        let t = s.drop_last();
        lemma_pieces_position(t);
        crate::text::lemma_pieces_len(t);
        lemma_position_prefix(s, t, n - 1);
        assert(raw == pieces(t).push(Seq::<char>::empty()));
        assert(raw.drop_last() =~= pieces(t));
        assert(ls.len() == pieces(t).len());
        assert(ls[ls.len() - 1].len() <= s.len());
        assert(ls.last() == strip_cr(pieces(t).last()));
        assert(p < n - 1) by {
            assert(white_space('\n'));
        }
        lemma_positions_increase(s, p, n - 1);
        if t.len() > 0 {
            let u = t.drop_last();
            crate::text::lemma_pieces_len(u);
            if t.last() == '\n' {
                assert(pieces(t) == pieces(u).push(Seq::<char>::empty()));
            } else {
                assert(pieces(t) == pieces(u).update(pieces(u).len() - 1, pieces(u).last().push(t.last())));
                assert(pieces(t).last() == pieces(u).last().push(t.last()));
            }
        }
        assert(eof_span(s).line == line_at(s, n - 1));
        let last = pieces(t).last();
        if last.len() > 0 && last.last() == '\r' {
            assert(t.last() == '\r');
            assert(s[n - 2] == '\r');
            assert(eof_span(s).column == column_at(s, n - 1) - 1);
            if line_at(s, p) == line_at(s, n - 1) {
                assert(white_space('\r'));
                assert(p < n - 2);
                lemma_positions_increase(s, p, n - 2);
                assert(column_at(s, n - 1) == column_at(s, n - 2) + 1);
            }
        } else {
            assert(eof_span(s).column == column_at(s, n - 1));
        }
    }
}

proof fn lemma_order_from(s: Seq<char>, q: int)
    requires
        s.len() < usize::MAX,
        0 <= q <= s.len(),
    ensures
        lex_from(s, q) matches Ok(ts) ==> {
            &&& forall|i: int, j: int|
                0 <= i < j < ts.len() ==> precedes(#[trigger] ts[i].1, #[trigger] ts[j].1)
            &&& forall|i: int|
                0 <= i < ts.len() - 1 ==> not_before(s, q, #[trigger] ts[i].1) && precedes(
                    ts[i].1,
                    eof_span(s),
                )
        },
    decreases s.len() - q,
{
    lemma_tokens_from(s, q);
    if q < s.len() {
        lemma_step_progress(s, q);
        match lex_step(s, q) {
            Step::Skip(r) => {
                lemma_order_from(s, r);
                lemma_positions_increase(s, q, r);
            },
            Step::Emit(t, sp, r) => {
                lemma_order_from(s, r);
                lemma_tokens_from(s, r);
                lemma_positions_increase(s, q, r);
                lemma_position_bounds(s, q);
                assert(!white_space(s[q]));
                lemma_token_before_eof(s, q);
                if let Ok(rest) = lex_from(s, r) {
                    let ts = seq![(t, sp)] + rest;
                    assert(sp.line == line_at(s, q) && sp.column == column_at(s, q));
                    assert forall|i: int, j: int| 0 <= i < j < ts.len() implies precedes(
                        #[trigger] ts[i].1,
                        #[trigger] ts[j].1,
                    ) by {
                        if i > 0 {
                            assert(ts[i] == rest[i - 1]);
                            assert(ts[j] == rest[j - 1]);
                        } else {
                            assert(ts[j] == rest[j - 1]);
                            if j < ts.len() - 1 {
                                assert(not_before(s, r, rest[j - 1].1));
                            } else {
                                assert(rest[j - 1] == rest.last());
                            }
                        }
                    }
                    assert forall|i: int| 0 <= i < ts.len() - 1 implies not_before(
                        s,
                        q,
                        #[trigger] ts[i].1,
                    ) && precedes(ts[i].1, eof_span(s)) by {
                        if i > 0 {
                            assert(ts[i] == rest[i - 1]);
                            assert(not_before(s, r, rest[i - 1].1));
                        }
                    }
                }
            },
            Step::Fail(_) => {},
        }
    }
}

/// Token positions strictly increase through a successful tokenization,
/// the end-of-file token included: each token starts on a later line than
/// the one before it, or further on the same line.
pub proof fn law_positions_increase(s: Seq<char>)
    requires
        s.len() < usize::MAX,
    ensures
        lexed(s) matches Ok(ts) ==> forall|i: int, j: int|
            0 <= i < j < ts.len() ==> precedes(#[trigger] ts[i].1, #[trigger] ts[j].1),
{
    lemma_order_from(s, 0);
}

/// A lexical failure: located, and of one of the kinds the lexer raises
/// (`E001`, `E003`, `E004`, `E005` or `E006`).
pub open spec fn lexical_failure(e: CompileErrorV) -> bool {
    &&& e.span is Some
    &&& match e.kind {
        ErrorKindV::UnknownCharacter(_) | ErrorKindV::UnterminatedString
        | ErrorKindV::UnterminatedChar | ErrorKindV::InvalidChar(_)
        | ErrorKindV::NumberTooLarge(_) => true,
        _ => false,
    }
}

proof fn lemma_errors_from(s: Seq<char>, p: int)
    ensures
        lex_from(s, p) matches Err(e) ==> lexical_failure(e),
    decreases s.len() - p,
{
    if 0 <= p < s.len() {
        lemma_step_progress(s, p);
        match lex_step(s, p) {
            Step::Skip(q) => {
                lemma_errors_from(s, q);
            },
            Step::Emit(_, _, q) => {
                lemma_errors_from(s, q);
            },
            Step::Fail(_) => {},
        }
    }
}

/// The lexer fails only with a located error of one of its own kinds:
/// unknown character (`E001`), unterminated string (`E003`) or character
/// (`E004`), invalid character literal (`E005`), integer too large (`E006`).
pub proof fn law_lexical_errors(s: Seq<char>)
    ensures
        lexed(s) matches Err(e) ==> lexical_failure(e),
{
    lemma_errors_from(s, 0);
}

/// A string literal runs from a `"` to the next `"` on the same line. Every
/// character in between, a single quote or a backslash included, belongs to
/// its content, kept as written; its span covers both quotes; and the tokens
/// after it are those of the rest of the source, from the character after the
/// closing quote on.
pub proof fn law_string_literal(s: Seq<char>, p: int, q: int)
    requires
        0 <= p < q < s.len(),
        s[p] == '"',
        s[q] == '"',
        forall|k: int| p < k < q ==> s[k] != '"' && s[k] != '\n',
    ensures
        lex_from(s, p) == prepend(
            seq![(TokenV::StringLit(s.subrange(p + 1, q)), span_at(s, p, q - p + 1))],
            lex_from(s, q + 1),
        ),
        q - p + 1 <= usize::MAX ==> span_at(s, p, q - p + 1).length == q - p + 1,
{
    assert forall|k: int| p + 1 <= k < q implies (#[trigger] string_class()(s[k])) by {}
    lemma_run_end_is(s, p + 1, q, string_class());
    assert(!white_space('"'));
    lemma_step_progress(s, p);
    assert(lex_step(s, p) == Step::Emit(
        TokenV::StringLit(s.subrange(p + 1, q)),
        span_at(s, p, q - p + 1),
        q + 1,
    ));
}

/// A `"` with no other `"` after it on its line opens a string that is never
/// closed: lexing fails there with `E003`, located from the opening quote to
/// the end of the line (or of the source), whatever comes after.
pub proof fn law_unterminated_string(s: Seq<char>, p: int, r: int)
    requires
        0 <= p < r <= s.len(),
        s[p] == '"',
        forall|k: int| p < k < r ==> s[k] != '"' && s[k] != '\n',
        r == s.len() || s[r] == '\n',
    ensures
        lex_from(s, p) matches Err(e) && e.kind is UnterminatedString && e.span == Some(
            span_at(s, p, r - p + 1),
        ),
{
    assert forall|k: int| p + 1 <= k < r implies (#[trigger] string_class()(s[k])) by {}
    lemma_run_end_is(s, p + 1, r, string_class());
    assert(!white_space('"'));
    assert(lex_step(s, p) == Step::Fail(unterminated_string_error(span_at(s, p, r - p + 1))));
}

/// Text between single quotes that holds no backslash stands for itself.
pub proof fn law_decoding_without_escapes(raw: Seq<char>)
    requires
        forall|i: int| 0 <= i < raw.len() ==> raw[i] != '\\',
    ensures
        decoded(raw) == raw,
    decreases raw.len(),
{
    if raw.len() > 0 {
        law_decoding_without_escapes(raw.drop_first());
        assert(seq![raw[0]] + raw.drop_first() =~= raw);
    }
}

} // verus!
