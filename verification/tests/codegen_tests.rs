use betteralgo::codegen::{generate_python, python_string, real_literals};
use betteralgo::lexer::tokenize;
use betteralgo::parser::{parse, Expr, Program, Statement, Type};

/// Writes a real as Python reads it back as a float (`5.0`, not `5`).
fn format_reel(value: f64) -> String {
    let text = value.to_string();
    if text.contains('.') || text.contains('e') || text.contains("inf") || text.contains("nan") {
        text
    } else {
        format!("{text}.0")
    }
}

fn real_table(program: &Program) -> Vec<(String, String)> {
    real_literals(program)
        .into_iter()
        .map(|t| {
            let value: f64 = t.parse().expect("réel valide");
            let python = format_reel(value);
            (t, python)
        })
        .collect()
}

fn python(source: &str) -> String {
    let tokens = tokenize(source).expect("lexing valide");
    let program = parse(&tokens).expect("parse valide");
    let table = real_table(&program);
    generate_python(&program, &table)
}

#[test]
fn afficher_une_chaine() {
    assert_eq!(python(r#"afficher("salut");"#), "print(\"salut\")\n");
}

#[test]
fn afficher_une_variable() {
    assert_eq!(python("afficher(unEntier);"), "print(unEntier)\n");
}

#[test]
fn declarer_ne_genere_rien() {
    assert_eq!(python("declarer x : entier;"), "");
}

#[test]
fn affectation_entier() {
    assert_eq!(python("x <- 42;"), "x = 42\n");
}

#[test]
fn affectation_negative() {
    assert_eq!(python("x <- -5;"), "x = -5\n");
}

#[test]
fn affectation_booleen() {
    assert_eq!(python("x <- faux;"), "x = False\n");
    assert_eq!(python("y <- vrai;"), "y = True\n");
}

#[test]
fn affectation_reel_reste_un_float() {
    assert_eq!(python("x <- 5.61;"), "x = 5.61\n");
    assert_eq!(python("x <- 5.0;"), "x = 5.0\n");
}

#[test]
fn affectation_caractere_devient_une_chaine() {
    assert_eq!(python(r#"c <- 'e';"#), "c = \"e\"\n");
    assert_eq!(python(r#"c <- '\"';"#), "c = \"\\\"\"\n");
}

#[test]
fn python_string_echappe() {
    assert_eq!(python_string("a\"b"), "\"a\\\"b\"");
    assert_eq!(python_string("a\\b"), "\"a\\\\b\"");
    assert_eq!(python_string("a\nb"), "\"a\\nb\"");
}

#[test]
fn programme_complet() {
    let source = "declarer x : entier;\nx <- 42;\nafficher(\"valeur :\");\nafficher(x);\n";
    assert_eq!(python(source), "x = 42\nprint(\"valeur :\")\nprint(x)\n");
}

// --- Further cases ---

#[test]
fn readme_example() {
    let source = "declarer unEntier : entier;\nunEntier <- 42;\nafficher(\"Bonjour, monde !\");\nafficher(unEntier);\n";
    assert_eq!(
        python(source),
        "unEntier = 42\nprint(\"Bonjour, monde !\")\nprint(unEntier)\n"
    );
}

#[test]
fn reals_follow_the_table_or_stay_as_written() {
    assert_eq!(python("x <- 5.610;"), "x = 5.61\n");
    assert_eq!(python("x <- -0.50;"), "x = -0.5\n");
    let program = Program {
        statements: vec![
            Statement::Affecter { name: "a".to_string(), value: Expr::Reel("1.50".to_string()) },
            Statement::Afficher(Expr::Reel("2.0".to_string())),
        ],
    };
    assert_eq!(real_literals(&program), vec!["1.50".to_string(), "2.0".to_string()]);
    let table = vec![("1.50".to_string(), "1.5".to_string())];
    assert_eq!(generate_python(&program, &table), "a = 1.5\nprint(2.0)\n");
    assert_eq!(generate_python(&program, &vec![]), "a = 1.50\nprint(2.0)\n");
}

#[test]
fn declarations_anywhere_produce_nothing() {
    let with = python("declarer a : reel; a <- 1; declarer b : booleen; afficher(a);");
    let without = python("a <- 1; afficher(a);");
    assert_eq!(with, without);
    assert_eq!(with, "a = 1\nprint(a)\n");
}

#[test]
fn generation_concatenates() {
    let a = python("x <- 1;");
    let b = python("afficher(\"t\\\\u\");");
    assert_eq!(python("x <- 1; afficher(\"t\\\\u\");"), format!("{a}{b}"));
}

#[test]
fn strings_and_characters_are_escaped() {
    assert_eq!(python_string(""), "\"\"");
    assert_eq!(python_string("\t\r"), "\"\\t\\r\"");
    assert_eq!(python_string("é'"), "\"é'\"");
    assert!(!python_string("a\nb\rc").contains('\n'));
    assert!(!python_string("a\nb\rc").contains('\r'));
    assert_eq!(python(r#"c <- '\\';"#), "c = \"\\\\\"\n");
    let program = Program {
        statements: vec![Statement::Declarer { name: "z".to_string(), ty: Type::Chaine }],
    };
    assert_eq!(generate_python(&program, &vec![]), "");
}
