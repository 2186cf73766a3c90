use betteralgo::errors::{CompileResult, ErrorKind};
use betteralgo::lexer::tokenize;
use betteralgo::parser::{parse, Expr, Program, Statement, Type};

fn parse_source(source: &str) -> CompileResult<Program> {
    let tokens = tokenize(source)?;
    parse(&tokens)
}

#[test]
fn test_parse_afficher_chaine() {
    let program = parse_source(r#"afficher("salut");"#).unwrap();
    assert_eq!(
        program.statements,
        vec![Statement::Afficher(Expr::Chaine("salut".to_string()))]
    );
}

#[test]
fn test_parse_afficher_variable() {
    let program = parse_source("afficher(unEntier);").unwrap();
    assert_eq!(
        program.statements,
        vec![Statement::Afficher(Expr::Ident("unEntier".to_string()))]
    );
}

#[test]
fn test_parse_declarer() {
    let program = parse_source("declarer unEntier : entier;").unwrap();
    assert_eq!(
        program.statements,
        vec![Statement::Declarer {
            name: "unEntier".to_string(),
            ty: Type::Entier,
        }]
    );
}

#[test]
fn test_parse_declarer_tous_les_types() {
    for decl in [
        "declarer a : entier;",
        "declarer b : entier_naturel;",
        "declarer c : reel;",
        "declarer d : booleen;",
        "declarer e : caractere;",
        "declarer f : string;",
    ] {
        let program = parse_source(decl).unwrap();
        assert!(
            matches!(program.statements.as_slice(), [Statement::Declarer { .. }]),
            "{decl}"
        );
    }
}

#[test]
fn test_parse_affectation() {
    let program = parse_source("x <- 42;").unwrap();
    assert_eq!(
        program.statements,
        vec![Statement::Affecter {
            name: "x".to_string(),
            value: Expr::Entier(42),
        }]
    );
}

#[test]
fn test_parse_affectation_negative() {
    let program = parse_source("x <- -5;").unwrap();
    assert_eq!(
        program.statements,
        vec![Statement::Affecter {
            name: "x".to_string(),
            value: Expr::Neg(Box::new(Expr::Entier(5))),
        }]
    );
}

#[test]
fn test_programme_complet() {
    let program = parse_source("declarer x : reel;\nx <- 3.14;\nafficher(x);\n").unwrap();
    assert_eq!(program.statements.len(), 3);
    assert_eq!(
        program.statements[2],
        Statement::Afficher(Expr::Ident("x".to_string()))
    );
}

#[test]
fn test_point_virgule_manquant() {
    let err = parse_source("afficher(\"salut\")").unwrap_err();
    assert_eq!(err.code(), "E102"); // Eof reached where `;` was expected
    assert!(err.render("afficher(\"salut\")", None).contains(";"));
}

#[test]
fn test_parenthese_manquante() {
    let err = parse_source("afficher\"salut\");").unwrap_err();
    assert_eq!(err.code(), "E101");
}

#[test]
fn test_token_inattendu() {
    let tokens = tokenize("afficher(\"a\");").unwrap();
    // A spare `;` in front simulates an unexpected token.
    let mut bad = vec![tokens[4].clone()];
    bad.extend_from_slice(&tokens);
    let err = parse(&bad).unwrap_err();
    assert_eq!(err.code(), "E101");
    assert!(err.hint.is_some());
}

#[test]
fn test_expression_manquante() {
    let err = parse_source("afficher();").unwrap_err();
    assert_eq!(err.code(), "E101");
    assert!(err.kind.message().contains("expression"));
}

#[test]
fn test_type_manquant() {
    let err = parse_source("declarer x : ;").unwrap_err();
    assert_eq!(err.code(), "E101");
    assert!(err.kind.message().contains("type primitif"));
}

#[test]
fn test_affectation_sans_valeur() {
    let err = parse_source("x <- ;").unwrap_err();
    assert_eq!(err.code(), "E101");
}

#[test]
fn test_mot_cle_inconnu_suggestion() {
    // `affichr` is a valid identifier, but followed by `(` the user almost
    // surely meant `afficher`.
    let err = parse_source(r#"affichr("x");"#).unwrap_err();
    assert_eq!(err.code(), "E101");
    assert!(
        err.hint
            .as_ref()
            .is_some_and(|h| h.contains("vouliez-vous dire `afficher`")),
        "{:?}",
        err.hint
    );
}

// --- Further cases ---

#[test]
fn empty_program() {
    assert_eq!(parse_source("").unwrap().statements, vec![]);
    assert_eq!(parse(&[]).unwrap().statements, vec![]);
}

#[test]
fn nested_negations_and_all_literals() {
    let program =
        parse_source("a <- --1; b <- 2.5; c <- 'z'; d <- vrai; e <- faux; f <- \"t\"; g <- a;")
            .unwrap();
    let values: Vec<Expr> = program
        .statements
        .iter()
        .map(|s| match s {
            Statement::Affecter { value, .. } => value.clone(),
            _ => panic!("affectation attendue"),
        })
        .collect();
    assert_eq!(
        values,
        vec![
            Expr::Neg(Box::new(Expr::Neg(Box::new(Expr::Entier(1))))),
            Expr::Reel("2.5".to_string()),
            Expr::Caractere('z'),
            Expr::Booleen(true),
            Expr::Booleen(false),
            Expr::Chaine("t".to_string()),
            Expr::Ident("a".to_string()),
        ]
    );
}

#[test]
fn tokens_after_eof_are_ignored() {
    let mut tokens = tokenize("x <- 1;").unwrap();
    let extra = tokenize("y <- 2;").unwrap();
    tokens.extend_from_slice(&extra);
    let program = parse(&tokens).unwrap();
    assert_eq!(program.statements.len(), 1);
}

#[test]
fn missing_end_of_file_token_reads_as_end() {
    let tokens = tokenize("x <- 1;").unwrap();
    let program = parse(&tokens[..4]).unwrap();
    assert_eq!(program.statements.len(), 1);
    let err = parse(&tokens[..3]).unwrap_err();
    assert_eq!(err.code(), "E102");
    assert_eq!(err.span, Some(betteralgo::errors::Span::new(1, 1, 1)));
}

#[test]
fn premature_end_messages_and_hints() {
    let err = parse_source("afficher(").unwrap_err();
    assert_eq!(err.code(), "E102");
    assert_eq!(
        err.kind,
        ErrorKind::UnexpectedEof { expected: "une expression".to_string() }
    );
    assert_eq!(err.hint.as_deref(), Some("expression incomplète — il manque une expression"));
    let err = parse_source("declarer x :").unwrap_err();
    assert_eq!(err.code(), "E102");
    assert_eq!(
        err.hint.as_deref(),
        Some("déclaration incomplète — il manque le type de la variable")
    );
    let err = parse_source("declarer").unwrap_err();
    assert_eq!(err.code(), "E102");
    assert_eq!(err.hint.as_deref(), Some("instruction incomplète — il manque le nom d'une variable"));
}

#[test]
fn unexpected_token_messages() {
    let err = parse_source("x <- 1 2;").unwrap_err();
    assert_eq!(
        err.kind,
        ErrorKind::UnexpectedToken {
            found: "le nombre `2`".to_string(),
            expected: "`;` en fin d'instruction".to_string()
        }
    );
    assert_eq!(err.span, Some(betteralgo::errors::Span::new(1, 8, 1)));
    let err = parse_source("declarer x : 3;").unwrap_err();
    assert_eq!(err.hint.as_deref(), Some("exemple : declarer unEntier : entier ;"));
    let err = parse_source(";").unwrap_err();
    assert_eq!(
        err.hint.as_deref(),
        Some("chaque instruction commence par `afficher(...)`, `declarer nom : type ;` ou `nom <- valeur ;`")
    );
    let err = parse_source("xyz 1;").unwrap_err();
    assert_eq!(err.hint.as_deref(), Some("une affectation a la forme `nom <- valeur ;`"));
    assert_eq!(
        err.kind,
        ErrorKind::UnexpectedToken {
            found: "l'identifiant `xyz`".to_string(),
            expected: "le symbole `<-` après un identifiant".to_string()
        }
    );
}

#[test]
fn end_of_file_after_an_identifier() {
    let err = parse_source("x").unwrap_err();
    assert_eq!(err.code(), "E102");
    assert_eq!(
        err.hint.as_deref(),
        Some("instruction incomplète — il manque le symbole `<-` après un identifiant")
    );
    assert_eq!(err.span, Some(betteralgo::errors::Span::new(1, 2, 1)));
    let err = parse_source("affichr").unwrap_err();
    assert_eq!(err.code(), "E102");
}
