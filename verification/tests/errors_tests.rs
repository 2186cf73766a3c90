use betteralgo::errors::{suggest_keyword, CompileError, ErrorKind, Span};

#[test]
fn short_contient_code_et_position() {
    let err = CompileError::unknown_character('@', Span::new(2, 5, 1));
    let s = err.short(Some("test.algo"));
    assert!(s.contains("E001"), "{s}");
    assert!(s.contains("2:5"), "{s}");
}

#[test]
fn render_affiche_extrait_et_curseur() {
    let source = "afficher(\"ok\");\naffichr(\"ko\");\n";
    let err = CompileError::unknown_word("affichr", Span::new(2, 1, 7));
    let rendered = err.render(source, Some("test.algo"));
    assert!(rendered.contains("2 | affichr"), "{rendered}");
    assert!(rendered.contains("^^^^^^^"), "{rendered}");
    assert!(rendered.contains("afficher"), "{rendered}");
}

#[test]
fn render_sans_span_ne_panique_pas() {
    let err = CompileError::io("fichier introuvable");
    assert!(err.render("vide", None).contains("E201"));
}

#[test]
fn suggestion_proche() {
    assert_eq!(suggest_keyword("affichr"), Some("afficher"));
    assert_eq!(suggest_keyword("xyz"), None);
}

#[test]
fn eof_span_est_coherent() {
    let span = Span::eof("a\nb");
    assert_eq!((span.line, span.column), (2, 2));
}

// --- Further cases ---

#[test]
fn span_new_raises_zero_to_one() {
    assert_eq!(Span::new(0, 0, 0), Span { line: 1, column: 1, length: 1 });
    assert_eq!(Span::new(3, 4, 5), Span { line: 3, column: 4, length: 5 });
}

#[test]
fn eof_span_cases() {
    assert_eq!(Span::eof(""), Span::new(1, 1, 1));
    assert_eq!(Span::eof("ab"), Span::new(1, 3, 1));
    assert_eq!(Span::eof("ab\n"), Span::new(1, 3, 1));
    assert_eq!(Span::eof("ab\r\ncd\r\n"), Span::new(2, 3, 1));
    assert_eq!(Span::eof("a\n\n"), Span::new(2, 1, 1));
    assert_eq!(Span::eof("éé"), Span::new(1, 3, 1));
}

#[test]
fn codes_and_phases() {
    let kinds = vec![
        (ErrorKind::UnknownCharacter('@'), "E001", "lexique"),
        (ErrorKind::UnknownWord("x".to_string()), "E002", "lexique"),
        (ErrorKind::UnterminatedString, "E003", "lexique"),
        (ErrorKind::UnterminatedChar, "E004", "lexique"),
        (ErrorKind::InvalidChar("ab".to_string()), "E005", "lexique"),
        (ErrorKind::NumberTooLarge("9".to_string()), "E006", "lexique"),
        (
            ErrorKind::UnexpectedToken { found: "a".to_string(), expected: "b".to_string() },
            "E101",
            "syntaxe",
        ),
        (ErrorKind::UnexpectedEof { expected: "b".to_string() }, "E102", "syntaxe"),
        (ErrorKind::Io("m".to_string()), "E201", "entrée/sortie"),
    ];
    for (kind, code, phase) in kinds {
        assert_eq!(kind.code(), code);
        assert_eq!(kind.phase(), phase);
    }
}

#[test]
fn messages() {
    assert_eq!(ErrorKind::UnknownCharacter('@').message(), "caractère inconnu '@'");
    assert_eq!(ErrorKind::UnknownCharacter('\n').message(), "caractère inconnu '\\n'");
    assert_eq!(ErrorKind::UnknownWord("a\"b".to_string()).message(), "mot inconnu \"a\\\"b\"");
    assert_eq!(
        ErrorKind::UnexpectedToken { found: "x".to_string(), expected: "y".to_string() }.message(),
        "token inattendu x, attendu y"
    );
    assert_eq!(
        ErrorKind::UnexpectedEof { expected: "y".to_string() }.message(),
        "fin de fichier inattendue, attendu y"
    );
    assert_eq!(ErrorKind::Io("oups".to_string()).message(), "oups");
    assert_eq!(
        ErrorKind::NumberTooLarge("99".to_string()).message(),
        "nombre entier trop grand `99`"
    );
    assert!(ErrorKind::UnterminatedString.message().contains("non fermée"));
    assert!(ErrorKind::UnterminatedChar.message().contains("non fermé"));
    assert!(ErrorKind::InvalidChar("ab".to_string()).message().contains("\"ab\""));
}

#[test]
fn hints_and_builders() {
    let e = CompileError::io("m").with_hint("");
    assert_eq!(e.hint, None);
    let e = e.with_hint("aide");
    assert_eq!(e.hint.as_deref(), Some("aide"));
    let e = e.with_span(Span::new(1, 2, 3));
    assert_eq!(e.span, Some(Span::new(1, 2, 3)));
    assert_eq!(CompileError::new(ErrorKind::UnterminatedString).span, None);
    assert_eq!(
        CompileError::unknown_word("xyz", Span::new(1, 1, 3)).hint.as_deref(),
        Some("seul le mot-clé `afficher` est supporté pour le moment")
    );
    assert_eq!(
        CompileError::unknown_word("afichr", Span::new(1, 1, 6)).hint.as_deref(),
        Some("vouliez-vous dire `afficher` ?")
    );
}

#[test]
fn location_and_short_forms() {
    let e = CompileError::unterminated_string(Span::new(12, 3, 4));
    assert_eq!(e.location(), Some("12:3".to_string()));
    assert_eq!(CompileError::io("m").location(), None);
    assert_eq!(
        e.short(None),
        "[E003] erreur de lexique à <source>:12:3 : chaîne de caractères non fermée (guillemet `\"` manquant) — aide : fermez la chaîne avec un guillemet `\"` sur la même ligne"
    );
    assert_eq!(CompileError::io("m").short(None), "[E201] erreur de entrée/sortie : m");
}

#[test]
fn render_layout() {
    let e = CompileError::unexpected_token("x", "y", Span::new(10, 3, 2)).with_hint("h");
    let mut source = String::new();
    for i in 1..=10 {
        source.push_str(&format!("ligne{i}\n"));
    }
    assert_eq!(
        e.render(&source, Some("f.algo")),
        "Erreur E101 à f.algo:10:3 : token inattendu x, attendu y\n   |\n10 | ligne10\n   |   ^^ h"
    );
    let full = e.render(&source, Some("f.algo"));
    assert!(full.starts_with(&format!("Erreur {} à f.algo:10:3 : ", e.code())));
    let past_end = CompileError::unexpected_token("x", "y", Span::new(11, 1, 1));
    assert!(!past_end.render(&source, None).contains('\n'));
    let wide = CompileError::unexpected_token("x", "y", Span { line: 1, column: 50, length: 0 });
    assert!(wide.render("ab", None).ends_with("\n1 | ab\n  |   ^"));
}

#[test]
fn suggestions_by_distance() {
    assert_eq!(suggest_keyword("afficher"), Some("afficher"));
    assert_eq!(suggest_keyword("Afficher"), Some("afficher"));
    assert_eq!(suggest_keyword("afficherzz"), Some("afficher"));
    assert_eq!(suggest_keyword("afficherzzz"), None);
    assert_eq!(suggest_keyword(""), None);
    assert_eq!(suggest_keyword("aff"), None);
}

#[test]
fn render_documented_example() {
    let err = CompileError::unknown_word("affichr", Span::new(1, 1, 7));
    assert_eq!(
        err.render("affichr(\"salut\");", Some("hello.algo")),
        "Erreur E002 à hello.algo:1:1 : mot inconnu \"affichr\"\n  |\n1 | affichr(\"salut\");\n  | ^^^^^^^ vouliez-vous dire `afficher` ?"
    );
}

#[test]
fn render_without_excerpt_keeps_the_hint() {
    assert_eq!(CompileError::io("fichier introuvable").render("x", None), "Erreur E201 : fichier introuvable");
    let e = CompileError::unterminated_string(Span::new(5, 1, 2));
    assert_eq!(
        e.render("x", Some("f")),
        "Erreur E003 à f:5:1 : chaîne de caractères non fermée (guillemet `\"` manquant) — aide : fermez la chaîne avec un guillemet `\"` sur la même ligne"
    );
}

#[test]
fn final_carriage_return_is_kept() {
    assert_eq!(Span::eof("a\r"), Span::new(1, 3, 1));
    assert_eq!(Span::eof("a\r\nb\r"), Span::new(2, 3, 1));
    let e = CompileError::unexpected_token("x", "y", Span::new(1, 3, 1));
    assert!(e.render("a\r", None).ends_with("\n1 | a\r\n  |   ^"));
}

#[test]
fn edit_distance_cases() {
    assert_eq!(suggest_keyword("afficherr"), Some("afficher"));
    assert_eq!(suggest_keyword("fficher"), Some("afficher"));
    assert_eq!(suggest_keyword("afiche"), Some("afficher"));
    assert_eq!(suggest_keyword("afi"), None);
}
