//! Python code generation.
use vstd::prelude::*;
use crate::parser::{Expr, ExprV, Program, Statement, StatementV, statement_views};
use crate::text::{signed_decimal, i64_to_decimal};
use crate::lexer::decoded;

verus! {

/// The Python escape of one character inside a double-quoted literal.
pub open spec fn char_escape(c: char) -> Seq<char> {
    if c == '\\' {
        seq!['\\', '\\']
    } else if c == '"' {
        seq!['\\', '"']
    } else if c == '\n' {
        seq!['\\', 'n']
    } else if c == '\r' {
        seq!['\\', 'r']
    } else if c == '\t' {
        seq!['\\', 't']
    } else {
        seq![c]
    }
}

/// The characters of `s`, each escaped for a double-quoted Python literal.
pub open spec fn escaped(s: Seq<char>) -> Seq<char>
    decreases s.len(),
{
    if s.len() == 0 {
        Seq::<char>::empty()
    } else {
        escaped(s.drop_last()) + char_escape(s.last())
    }
}

/// The double-quoted Python literal of `s`.
pub open spec fn python_literal(s: Seq<char>) -> Seq<char> {
    seq!['"'] + escaped(s) + seq!['"']
}

/// The Python text of a real literal: the text that `table` gives for it
/// (the first entry with that literal), or the literal itself.
pub open spec fn real_python(t: Seq<char>, table: Seq<(Seq<char>, Seq<char>)>) -> Seq<char>
    decreases table.len(),
{
    if table.len() == 0 {
        t
    } else if table[0].0 == t {
        table[0].1
    } else {
        real_python(t, table.drop_first())
    }
}

/// The Python translation of an expression.
pub open spec fn expr_python(e: ExprV, table: Seq<(Seq<char>, Seq<char>)>) -> Seq<char>
    decreases e,
{
    match e {
        ExprV::Entier(n) => signed_decimal(n as int),
        ExprV::Reel(t) => real_python(t, table),
        ExprV::Chaine(s) => python_literal(s),
        ExprV::Caractere(c) => python_literal(seq![c]),
        ExprV::Booleen(b) => if b {
            "True"@
        } else {
            "False"@
        },
        ExprV::Ident(name) => name,
        ExprV::Neg(inner) => "-"@ + expr_python(*inner, table),
    }
}

/// The Python translation of a statement: a declaration gives nothing.
pub open spec fn statement_python(st: StatementV, table: Seq<(Seq<char>, Seq<char>)>) -> Seq<char> {
    match st {
        StatementV::Afficher(value) => "print("@ + expr_python(value, table) + ")\n"@,
        StatementV::Declarer { .. } => Seq::<char>::empty(),
        StatementV::Affecter { name, value } => name + " = "@ + expr_python(value, table) + "\n"@,
    }
}

/// The Python translation of a program: its statements' translations in order.
pub open spec fn program_python(ss: Seq<StatementV>, table: Seq<(Seq<char>, Seq<char>)>) -> Seq<char>
    decreases ss.len(),
{
    if ss.len() == 0 {
        Seq::<char>::empty()
    } else {
        program_python(ss.drop_last(), table) + statement_python(ss.last(), table)
    }
}

/// The contents of a table of texts.
pub open spec fn table_view(t: Seq<(String, String)>) -> Seq<(Seq<char>, Seq<char>)> {
    t.map_values(|e: (String, String)| (e.0@, e.1@))
}

/// The real literals of an expression.
pub open spec fn expr_reals(e: ExprV) -> Seq<Seq<char>>
    decreases e,
{
    match e {
        ExprV::Reel(t) => seq![t],
        ExprV::Neg(inner) => expr_reals(*inner),
        _ => Seq::<Seq<char>>::empty(),
    }
}

/// The real literals of a statement.
pub open spec fn statement_reals(st: StatementV) -> Seq<Seq<char>> {
    match st {
        StatementV::Afficher(value) => expr_reals(value),
        StatementV::Declarer { .. } => Seq::<Seq<char>>::empty(),
        StatementV::Affecter { value, .. } => expr_reals(value),
    }
}

/// The real literals of a program, in order.
pub open spec fn program_reals(ss: Seq<StatementV>) -> Seq<Seq<char>>
    decreases ss.len(),
{
    if ss.len() == 0 {
        Seq::<Seq<char>>::empty()
    } else {
        program_reals(ss.drop_last()) + statement_reals(ss.last())
    }
}

/// Generates the Python code of a program.
///
/// Declarations (`declarer`) produce nothing: Python creates a variable at
/// its first assignment (no type is checked for now). A real literal is
/// written as `real_texts` says (its first entry for that literal, as
/// written in the source), or as written in the source when it has no entry.
pub fn generate_python(program: &Program, real_texts: &Vec<(String, String)>) -> (out: String)
    ensures
        out@ == program_python(program@, table_view(real_texts@)),
{
    let ghost table = table_view(real_texts@);
    let mut output = String::new();
    let mut i: usize = 0;
    while i < program.statements.len()
        invariant
            i <= program.statements@.len(),
            table == table_view(real_texts@),
            output@ == program_python(program@.take(i as int), table),
        decreases program.statements@.len() - i,
    {
        let ghost before = output@;
        assert(program@.take(i + 1).drop_last() =~= program@.take(i as int));
        assert(program@.take(i + 1).last() == program.statements@[i as int]@);
        match &program.statements[i] {
            Statement::Afficher(value) => {
                output.append("print(");
                output.append(python_expr(value, real_texts).as_str());
                output.append(")\n");
            },
            Statement::Declarer { .. } => {},
            Statement::Affecter { name, value } => {
                output.append(name.as_str());
                output.append(" = ");
                output.append(python_expr(value, real_texts).as_str());
                output.append("\n");
            },
        }
        assert(output@ =~= before + statement_python(program.statements@[i as int]@, table));
        i += 1;
    }
    assert(program@.take(program.statements@.len() as int) =~= program@);
    output
}

/// The real literals of a program, in order (as written in the source).
pub fn real_literals(program: &Program) -> (r: Vec<String>)
    ensures
        r@.map_values(|t: String| t@) == program_reals(program@),
{
    let mut out: Vec<String> = Vec::new();
    let mut i: usize = 0;
    while i < program.statements.len()
        invariant
            i <= program.statements@.len(),
            out@.map_values(|t: String| t@) == program_reals(program@.take(i as int)),
        decreases program.statements@.len() - i,
    {
        assert(program@.take(i + 1).drop_last() =~= program@.take(i as int));
        assert(program@.take(i + 1).last() == program.statements@[i as int]@);
        let ghost before = out@.map_values(|t: String| t@);
        match &program.statements[i] {
            Statement::Afficher(value) => {
                push_reals(value, &mut out);
            },
            Statement::Declarer { .. } => {},
            Statement::Affecter { value, .. } => {
                push_reals(value, &mut out);
            },
        }
        assert(out@.map_values(|t: String| t@) =~= before + statement_reals(program.statements@[i as int]@));
        i += 1;
    }
    assert(program@.take(program.statements@.len() as int) =~= program@);
    out
}

fn push_reals(e: &Expr, out: &mut Vec<String>)
    ensures
        final(out)@.map_values(|t: String| t@) == old(out)@.map_values(|t: String| t@) + expr_reals(e@),
    decreases e,
{
    match e {
        Expr::Reel(t) => {
            let ghost before = out@;
            out.push(t.clone());
            assert(out@.map_values(|t: String| t@) =~= before.map_values(|t: String| t@) + expr_reals(e@));
        },
        Expr::Neg(inner) => {
            push_reals(inner, out);
        },
        _ => {
            assert(out@.map_values(|t: String| t@) =~= old(out)@.map_values(|t: String| t@) + expr_reals(e@));
        },
    }
}

/// The Python text given for a real literal.
fn real_text(t: &String, real_texts: &Vec<(String, String)>) -> (r: String)
    ensures
        r@ == real_python(t@, table_view(real_texts@)),
{
    let mut i: usize = 0;
    assert(table_view(real_texts@).subrange(0, real_texts@.len() as int) =~= table_view(real_texts@));
    while i < real_texts.len()
        invariant
            i <= real_texts@.len(),
            real_python(t@, table_view(real_texts@)) == real_python(
                t@,
                table_view(real_texts@).subrange(i as int, real_texts@.len() as int),
            ),
        decreases real_texts@.len() - i,
    {
        let ghost rest = table_view(real_texts@).subrange(i as int, real_texts@.len() as int);
        assert(rest.drop_first() =~= table_view(real_texts@).subrange(i + 1, real_texts@.len() as int));
        if real_texts[i].0 == *t {
            return real_texts[i].1.clone();
        }
        i += 1;
    }
    t.clone()
}

/// Translates an algorithmic expression into a Python expression.
fn python_expr(expr: &Expr, real_texts: &Vec<(String, String)>) -> (r: String)
    ensures
        r@ == expr_python(expr@, table_view(real_texts@)),
    decreases expr,
{
    match expr {
        Expr::Entier(n) => i64_to_decimal(*n),
        Expr::Reel(t) => real_text(t, real_texts),
        Expr::Chaine(s) => python_string(s.as_str()),
        Expr::Caractere(c) => {
            let mut one = String::new();
            one.push(*c);
            assert(one@ =~= seq![*c]);
            python_string(one.as_str())
        },
        Expr::Booleen(b) => if *b {
            "True".to_string()
        } else {
            "False".to_string()
        },
        Expr::Ident(name) => name.clone(),
        Expr::Neg(inner) => {
            let mut s = "-".to_string();
            s.append(python_expr(inner, real_texts).as_str());
            s
        },
    }
}

/// A double-quoted Python literal, with escapes.
pub fn python_string(value: &str) -> (r: String)
    ensures
        r@ == python_literal(value@),
{
    let chars = crate::text::chars_of(value);
    let mut out = String::new();
    out.push('"');
    let mut i: usize = 0;
    while i < chars.len()
        invariant
            i <= chars@.len(),
            chars@ == value@,
            out@ == seq!['"'] + escaped(chars@.take(i as int)),
        decreases chars@.len() - i,
    {
        let ghost before = out@;
        let c = chars[i];
        if c == '\\' {
            out.push('\\');
            out.push('\\');
        } else if c == '"' {
            out.push('\\');
            out.push('"');
        } else if c == '\n' {
            out.push('\\');
            out.push('n');
        } else if c == '\r' {
            out.push('\\');
            out.push('r');
        } else if c == '\t' {
            out.push('\\');
            out.push('t');
        } else {
            out.push(c);
        }
        assert(chars@.take(i + 1).drop_last() =~= chars@.take(i as int));
        assert(out@ =~= before + char_escape(c));
        i += 1;
    }
    out.push('"');
    assert(chars@.take(chars@.len() as int) =~= chars@);
    assert(out@ =~= python_literal(value@));
    out
}


// --- Laws ---

/// Generation goes statement by statement: the code of two programs put
/// one after the other is the code of the first followed by that of the second.
pub proof fn law_generation_concatenates(
    a: Seq<StatementV>,
    b: Seq<StatementV>,
    table: Seq<(Seq<char>, Seq<char>)>,
)
    ensures
        program_python(a + b, table) == program_python(a, table) + program_python(b, table),
    decreases b.len(),
{
    if b.len() == 0 {
        assert(a + b =~= a);
        assert(program_python(a, table) + Seq::<char>::empty() =~= program_python(a, table));
    } else {
        law_generation_concatenates(a, b.drop_last(), table);
        assert((a + b).drop_last() =~= a + b.drop_last());
        assert((a + b).last() == b.last());
        assert(program_python(a, table) + program_python(b.drop_last(), table) + statement_python(
            b.last(),
            table,
        ) =~= program_python(a, table) + (program_python(b.drop_last(), table) + statement_python(
            b.last(),
            table,
        )));
    }
}

/// Declarations produce nothing: removing one from a program leaves its
/// Python code unchanged.
pub proof fn law_declarations_generate_nothing(
    a: Seq<StatementV>,
    b: Seq<StatementV>,
    name: Seq<char>,
    ty: crate::parser::Type,
    table: Seq<(Seq<char>, Seq<char>)>,
)
    ensures
        program_python(a + seq![StatementV::Declarer { name, ty }] + b, table)
            == program_python(a + b, table),
{
    let d = seq![StatementV::Declarer { name, ty }];
    law_generation_concatenates(a + d, b, table);
    law_generation_concatenates(a, d, table);
    law_generation_concatenates(a, b, table);
    assert(d.drop_last() =~= Seq::<StatementV>::empty());
    assert(program_python(d.drop_last(), table) =~= Seq::<char>::empty());
    assert(statement_python(d.last(), table) =~= Seq::<char>::empty());
    assert(program_python(d, table) =~= Seq::<char>::empty());
    assert(program_python(a, table) + Seq::<char>::empty() =~= program_python(a, table));
}

/// The code of a one-statement program is the code of that statement.
proof fn lemma_single_statement(st: StatementV, table: Seq<(Seq<char>, Seq<char>)>)
    ensures
        program_python(seq![st], table) == statement_python(st, table),
{
    assert(seq![st].drop_last() =~= Seq::<StatementV>::empty());
    assert(seq![st].last() == st);
    assert(program_python(Seq::<StatementV>::empty(), table) == Seq::<char>::empty());
    assert(Seq::<char>::empty() + statement_python(st, table) =~= statement_python(st, table));
}

/// A negation is written as `-` followed by the code of what it negates,
/// whatever kind of expression that is (a number, a real, a string, a
/// character, a boolean, a variable or another negation): in an assignment
/// `name = ...` or in a `print(...)`, the code for `-e` is the code for `e`
/// with a `-` put in front of the expression.
pub proof fn law_negation_python(name: Seq<char>, e: ExprV, table: Seq<(Seq<char>, Seq<char>)>)
    ensures
        program_python(seq![StatementV::Affecter { name, value: e }], table).take(name.len() as int + 3)
            == name + " = "@,
        program_python(seq![StatementV::Affecter { name, value: ExprV::Neg(Box::new(e)) }], table)
            == name + " = -"@ + program_python(
            seq![StatementV::Affecter { name, value: e }],
            table,
        ).skip(name.len() as int + 3),
        program_python(seq![StatementV::Afficher(e)], table).take(6) == "print("@,
        program_python(seq![StatementV::Afficher(ExprV::Neg(Box::new(e)))], table) == "print(-"@
            + program_python(seq![StatementV::Afficher(e)], table).skip(6),
{
    reveal_strlit(" = ");
    reveal_strlit(" = -");
    reveal_strlit("print(");
    reveal_strlit("print(-");
    reveal_strlit("-");
    let n = ExprV::Neg(Box::new(e));
    let x = expr_python(e, table);
    assert(expr_python(n, table) == "-"@ + x);
    lemma_single_statement(StatementV::Affecter { name, value: e }, table);
    lemma_single_statement(StatementV::Affecter { name, value: n }, table);
    lemma_single_statement(StatementV::Afficher(e), table);
    lemma_single_statement(StatementV::Afficher(n), table);
    let a = name + " = "@ + x + "\n"@;
    assert(a.take(name.len() as int + 3) =~= name + " = "@);
    assert(name + " = "@ + ("-"@ + x) + "\n"@ =~= name + " = -"@ + a.skip(name.len() as int + 3));
    let b = "print("@ + x + ")\n"@;
    assert(b.take(6) =~= "print("@);
    assert("print("@ + ("-"@ + x) + ")\n"@ =~= "print(-"@ + b.skip(6));
}

/// `afficher` becomes a Python `print` of the value: a variable is printed by
/// its name, `vrai` as `True`, `faux` as `False`, an integer by its decimal
/// digits (with a `-` when negative), and a string by its double-quoted
/// Python literal.
pub proof fn law_print_values(name: Seq<char>, n: i64, text: Seq<char>, table: Seq<(Seq<char>, Seq<char>)>)
    ensures
        program_python(seq![StatementV::Afficher(ExprV::Ident(name))], table) == "print("@ + name + ")\n"@,
        program_python(seq![StatementV::Afficher(ExprV::Booleen(true))], table) == "print(True)\n"@,
        program_python(seq![StatementV::Afficher(ExprV::Booleen(false))], table) == "print(False)\n"@,
        program_python(seq![StatementV::Afficher(ExprV::Entier(n))], table) == "print("@ + signed_decimal(n as int) + ")\n"@,
        program_python(seq![StatementV::Afficher(ExprV::Chaine(text))], table) == "print("@ + python_literal(text) + ")\n"@,
{
    reveal_strlit("print(");
    reveal_strlit(")\n");
    reveal_strlit("True");
    reveal_strlit("False");
    reveal_strlit("print(True)\n");
    reveal_strlit("print(False)\n");
    lemma_single_statement(StatementV::Afficher(ExprV::Ident(name)), table);
    lemma_single_statement(StatementV::Afficher(ExprV::Booleen(true)), table);
    lemma_single_statement(StatementV::Afficher(ExprV::Booleen(false)), table);
    lemma_single_statement(StatementV::Afficher(ExprV::Entier(n)), table);
    lemma_single_statement(StatementV::Afficher(ExprV::Chaine(text)), table);
    assert("print("@ + "True"@ + ")\n"@ =~= "print(True)\n"@);
    assert("print("@ + "False"@ + ")\n"@ =~= "print(False)\n"@);
}

/// What a Python escape `\x` inside a double-quoted literal stands for.
pub open spec fn unescape_char(x: char) -> char {
    if x == 'n' {
        '\n'
    } else if x == 'r' {
        '\r'
    } else if x == 't' {
        '\t'
    } else {
        x
    }
}

/// How Python reads the inside of a double-quoted literal that uses only the
/// escapes `\\`, `\"`, `\n`, `\r` and `\t`.
pub open spec fn python_unescaped(s: Seq<char>) -> Seq<char>
    decreases s.len(),
{
    if s.len() == 0 {
        Seq::<char>::empty()
    } else if s[0] == '\\' && s.len() >= 2 {
        seq![unescape_char(s[1])] + python_unescaped(s.subrange(2, s.len() as int))
    } else {
        seq![s[0]] + python_unescaped(s.drop_first())
    }
}

proof fn lemma_escaped_concat(a: Seq<char>, b: Seq<char>)
    ensures
        escaped(a + b) == escaped(a) + escaped(b),
    decreases b.len(),
{
    if b.len() == 0 {
        assert(a + b =~= a);
        assert(escaped(a) + Seq::<char>::empty() =~= escaped(a));
    } else {
        lemma_escaped_concat(a, b.drop_last());
        assert((a + b).drop_last() =~= a + b.drop_last());
        assert(escaped(a) + escaped(b.drop_last()) + char_escape(b.last()) =~= escaped(a) + (
        escaped(b.drop_last()) + char_escape(b.last())));
    }
}

/// The literal reads back as the value it was made from, and holds no raw
/// line break.
pub proof fn law_python_literal_reads_back(s: Seq<char>)
    ensures
        python_unescaped(escaped(s)) == s,
        python_literal(s)[0] == '"',
        python_literal(s).last() == '"',
        forall|i: int|
            0 <= i < python_literal(s).len() ==> #[trigger] python_literal(s)[i] != '\n'
                && python_literal(s)[i] != '\r',
    decreases s.len(),
{
    if s.len() > 0 {
        let c = s[0];
        let rest = s.drop_first();
        law_python_literal_reads_back(rest);
        assert(seq![c] + rest =~= s);
        lemma_escaped_concat(seq![c], rest);
        assert(seq![c].drop_last() =~= Seq::<char>::empty());
        assert(escaped(seq![c].drop_last()) =~= Seq::<char>::empty());
        assert(escaped(seq![c]) =~= char_escape(c));
        let e = char_escape(c) + escaped(rest);
        if char_escape(c).len() == 2 {
            assert(e.subrange(2, e.len() as int) =~= escaped(rest));
        } else {
            assert(e.drop_first() =~= escaped(rest));
        }
        assert(seq![c] + rest =~= s);
    }
    lemma_escaped_no_break(s);
}

/// Decoding the escapes of a character literal undoes the escaping of a
/// Python literal: `decode_escapes` gives back what `python_string` quoted.
pub proof fn law_decoding_undoes_escaping(s: Seq<char>)
    ensures
        decoded(escaped(s)) == s,
    decreases s.len(),
{
    if s.len() > 0 {
        let c = s[0];
        let rest = s.drop_first();
        law_decoding_undoes_escaping(rest);
        assert(seq![c] + rest =~= s);
        lemma_escaped_concat(seq![c], rest);
        assert(seq![c].drop_last() =~= Seq::<char>::empty());
        assert(escaped(seq![c].drop_last()) =~= Seq::<char>::empty());
        assert(escaped(seq![c]) =~= char_escape(c));
        let e = char_escape(c) + escaped(rest);
        if char_escape(c).len() == 2 {
            assert(e.subrange(2, e.len() as int) =~= escaped(rest));
        } else {
            assert(e.drop_first() =~= escaped(rest));
        }
    }
}

proof fn lemma_escaped_no_break(s: Seq<char>)
    ensures
        forall|i: int| 0 <= i < escaped(s).len() ==> #[trigger] escaped(s)[i] != '\n' && escaped(s)[i]
            != '\r',
    decreases s.len(),
{
    if s.len() > 0 {
        lemma_escaped_no_break(s.drop_last());
        let a = escaped(s.drop_last());
        let e = char_escape(s.last());
        assert forall|i: int| 0 <= i < escaped(s).len() implies #[trigger] escaped(s)[i] != '\n'
            && escaped(s)[i] != '\r' by {
            if i >= a.len() {
                assert(escaped(s)[i] == e[i - a.len()]);
            } else {
                assert(escaped(s)[i] == a[i]);
            }
        }
    }
}

} // verus!
