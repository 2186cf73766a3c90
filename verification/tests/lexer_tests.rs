use betteralgo::lexer::{classify_word, decode_escapes, real_display_text, tokenize, SpannedToken, Token};

fn kinds(tokens: &[SpannedToken]) -> Vec<Token> {
    tokens.iter().map(|t| t.token.clone()).collect()
}

#[test]
fn test_afficher_simple() {
    let tokens = tokenize(r#"afficher("salut");"#).expect("devrait lexer sans erreur");
    assert_eq!(
        kinds(&tokens),
        vec![
            Token::Afficher,
            Token::LParen,
            Token::StringLit("salut".to_string()),
            Token::RParen,
            Token::Semicolon,
            Token::Eof,
        ]
    );
    // The first token is at 1:1.
    assert_eq!(tokens[0].span.line, 1);
    assert_eq!(tokens[0].span.column, 1);
}

#[test]
fn test_positions_multilignes() {
    let tokens = tokenize("afficher(\"a\");\nafficher(\"b\");\n").unwrap();
    // The second `afficher` is at line 2, column 1.
    assert_eq!(tokens[5].token, Token::Afficher);
    assert_eq!((tokens[5].span.line, tokens[5].span.column), (2, 1));
}

#[test]
fn test_declarer_et_affectation() {
    let tokens = tokenize("declarer x : entier; x <- -5;").unwrap();
    assert_eq!(
        kinds(&tokens),
        vec![
            Token::Declarer,
            Token::Ident("x".to_string()),
            Token::Colon,
            Token::TyEntier,
            Token::Semicolon,
            Token::Ident("x".to_string()),
            Token::Assign,
            Token::Minus,
            Token::IntLit(5),
            Token::Semicolon,
            Token::Eof,
        ]
    );
}

#[test]
fn test_mots_cles_insensibles_a_la_casse() {
    let tokens = tokenize("DECLARER x : Entier_Naturel;").unwrap();
    assert_eq!(kinds(&tokens)[0], Token::Declarer);
    assert_eq!(kinds(&tokens)[3], Token::TyEntierNaturel);
    // The identifier keeps its case.
    assert_eq!(kinds(&tokens)[1], Token::Ident("x".to_string()));
}

#[test]
fn test_litteraux_scalaires() {
    let tokens = tokenize(r#"b <- vrai; f <- faux; r <- 5.61; c <- 'e';"#).unwrap();
    assert!(kinds(&tokens).contains(&Token::Vrai));
    assert!(kinds(&tokens).contains(&Token::Faux));
    assert!(kinds(&tokens).contains(&Token::FloatLit("5.61".to_string())));
    assert!(kinds(&tokens).contains(&Token::CharLit('e')));
}

#[test]
fn test_commentaire_ignore() {
    let tokens = tokenize("// un commentaire\nafficher(\"a\");").unwrap();
    assert_eq!(tokens[0].token, Token::Afficher);
    assert_eq!((tokens[0].span.line, tokens[0].span.column), (2, 1));
}

#[test]
fn test_caractere_inconnu() {
    let err = tokenize("afficher(\"x\"); @").unwrap_err();
    assert_eq!(err.code(), "E001");
    assert_eq!(err.span.unwrap().line, 1);
}

#[test]
fn test_chaine_non_fermee() {
    let err = tokenize("afficher(\"oups);").unwrap_err();
    assert_eq!(err.code(), "E003");
}

#[test]
fn test_guillemet_simple_non_ferme() {
    let err = tokenize("x <- 'a;").unwrap_err();
    assert_eq!(err.code(), "E004");
}

#[test]
fn test_plusieurs_caracteres_entre_guillemets() {
    let err = tokenize("x <- 'ab';").unwrap_err();
    assert_eq!(err.code(), "E005");
}

#[test]
fn test_caractere_vide() {
    let err = tokenize("x <- '';").unwrap_err();
    assert_eq!(err.code(), "E005");
}

#[test]
fn test_caractere_avec_echappement() {
    let tokens = tokenize(r#"c <- '\n';"#).unwrap();
    assert!(kinds(&tokens).contains(&Token::CharLit('\n')));
}

#[test]
fn test_entier_trop_grand() {
    let err = tokenize("x <- 99999999999999999999;").unwrap_err();
    assert_eq!(err.code(), "E006");
}

// --- Further cases ---

#[test]
fn eof_is_last_and_placed_after_the_source() {
    let tokens = tokenize("x <- 1;\ny <- 2;").unwrap();
    assert_eq!(tokens.len(), 9);
    assert_eq!(tokens[8].token, Token::Eof);
    assert_eq!((tokens[8].span.line, tokens[8].span.column, tokens[8].span.length), (2, 8, 1));
    assert!(tokens[..8].iter().all(|t| t.token != Token::Eof));
    let empty = tokenize("").unwrap();
    assert_eq!(kinds(&empty), vec![Token::Eof]);
    assert_eq!((empty[0].span.line, empty[0].span.column), (1, 1));
}

#[test]
fn spans_count_characters() {
    let tokens = tokenize("été <- \"àé\";").unwrap();
    assert_eq!(tokens[0].token, Token::Ident("été".to_string()));
    assert_eq!((tokens[0].span.column, tokens[0].span.length), (1, 3));
    assert_eq!((tokens[1].span.column, tokens[1].span.length), (5, 2));
    assert_eq!((tokens[2].span.column, tokens[2].span.length), (8, 4));
    assert_eq!(tokens[3].span.column, 12);
}

#[test]
fn blanks_and_tabs_are_skipped() {
    let tokens = tokenize("\t  x\t<-\r\n 1 ;").unwrap();
    assert_eq!(
        kinds(&tokens),
        vec![
            Token::Ident("x".to_string()),
            Token::Assign,
            Token::IntLit(1),
            Token::Semicolon,
            Token::Eof
        ]
    );
    assert_eq!((tokens[0].span.line, tokens[0].span.column), (1, 4));
    assert_eq!((tokens[2].span.line, tokens[2].span.column), (2, 2));
}

#[test]
fn words_with_digits_and_underscores() {
    let tokens = tokenize("mon_x2 <- x_;").unwrap();
    assert_eq!(tokens[0].token, Token::Ident("mon_x2".to_string()));
    assert_eq!(tokens[2].token, Token::Ident("x_".to_string()));
}

#[test]
fn every_keyword_whatever_its_case() {
    let tokens =
        tokenize("AFFICHER Declarer ENTIER entier_NATUREL Reel BOOLEEN Caractere STRING Vrai FAUX")
            .unwrap();
    assert_eq!(
        kinds(&tokens),
        vec![
            Token::Afficher,
            Token::Declarer,
            Token::TyEntier,
            Token::TyEntierNaturel,
            Token::TyReel,
            Token::TyBooleen,
            Token::TyCaractere,
            Token::TyChaine,
            Token::Vrai,
            Token::Faux,
            Token::Eof
        ]
    );
}

#[test]
fn classify_word_uses_the_lowered_form() {
    assert_eq!(classify_word("VRAI".to_string(), "vrai"), Token::Vrai);
    assert_eq!(classify_word("Abc".to_string(), "abc"), Token::Ident("Abc".to_string()));
}

#[test]
fn numbers_integers_and_reals() {
    let tokens = tokenize("0 42 9223372036854775807 3.14 010.50").unwrap();
    assert_eq!(
        kinds(&tokens),
        vec![
            Token::IntLit(0),
            Token::IntLit(42),
            Token::IntLit(9223372036854775807),
            Token::FloatLit("3.14".to_string()),
            Token::FloatLit("010.50".to_string()),
            Token::Eof
        ]
    );
    assert_eq!(tokens[4].span.length, 6);
    let err = tokenize("9223372036854775808").unwrap_err();
    assert_eq!(err.code(), "E006");
    assert_eq!(err.span.unwrap().length, 19);
}

#[test]
fn a_dot_without_digit_after_is_unknown() {
    let err = tokenize("x <- 7.;").unwrap_err();
    assert_eq!(err.code(), "E001");
    assert_eq!(err.span.unwrap().column, 7);
    let tokens = tokenize("1.5").unwrap();
    assert_eq!(kinds(&tokens), vec![Token::FloatLit("1.5".to_string()), Token::Eof]);
}

#[test]
fn lone_less_than_and_slash_are_unknown() {
    let err = tokenize("x < 1;").unwrap_err();
    assert_eq!(err.code(), "E001");
    assert_eq!(err.kind.message(), "caractère inconnu '<'");
    let err = tokenize("x / 1;").unwrap_err();
    assert_eq!(err.code(), "E001");
    assert_eq!((err.span.unwrap().line, err.span.unwrap().column), (1, 3));
}

#[test]
fn unterminated_literals_report_their_extent() {
    let err = tokenize("x <- \"abc\ny").unwrap_err();
    assert_eq!(err.code(), "E003");
    assert_eq!(err.span.unwrap(), betteralgo::errors::Span::new(1, 6, 5));
    let err = tokenize("x <- 'a").unwrap_err();
    assert_eq!(err.code(), "E004");
    assert_eq!(err.span.unwrap(), betteralgo::errors::Span::new(1, 6, 3));
}

#[test]
fn invalid_character_literal_keeps_its_raw_text() {
    let err = tokenize("c <- '\\q';").unwrap_err();
    assert_eq!(err.code(), "E005");
    assert_eq!(err.kind, betteralgo::errors::ErrorKind::InvalidChar("\\q".to_string()));
    assert_eq!(err.span.unwrap().length, 4);
}

#[test]
fn character_escapes() {
    let tokens = tokenize(r#"'\t' '\\' '\"' 'é'"#).unwrap();
    assert_eq!(
        kinds(&tokens),
        vec![
            Token::CharLit('\t'),
            Token::CharLit('\\'),
            Token::CharLit('"'),
            Token::CharLit('é'),
            Token::Eof
        ]
    );
}

#[test]
fn decode_escapes_cases() {
    assert_eq!(decode_escapes("abc"), "abc");
    assert_eq!(decode_escapes("\\n\\t\\r"), "\n\t\r");
    assert_eq!(decode_escapes("\\'\\\"\\\\"), "'\"\\");
    assert_eq!(decode_escapes("\\x"), "\\x");
    assert_eq!(decode_escapes("a\\"), "a\\");
}

#[test]
fn describe_tokens() {
    assert_eq!(Token::Afficher.describe(), "le mot-clé `afficher`");
    assert_eq!(Token::TyChaine.describe(), "le type `string`");
    assert_eq!(Token::Ident("x".to_string()).describe(), "l'identifiant `x`");
    assert_eq!(Token::IntLit(-42).describe(), "le nombre `-42`");
    assert_eq!(Token::FloatLit("3.14".to_string()).describe(), "le nombre `3.14`");
    assert_eq!(Token::StringLit("a\"b".to_string()).describe(), "la chaîne \"a\\\"b\"");
    assert_eq!(Token::CharLit('c').describe(), "le caractère `c`");
    assert_eq!(Token::Eof.describe(), "la fin du fichier");
    assert_eq!(Token::IntLit(i64::MIN).describe(), "le nombre `-9223372036854775808`");
}

#[test]
fn comments_run_to_the_end_of_their_line() {
    let tokens = tokenize("x <- 1; // fin \"non fermée\n// encore\ny <- 2; //").unwrap();
    assert_eq!(
        kinds(&tokens),
        vec![
            Token::Ident("x".to_string()),
            Token::Assign,
            Token::IntLit(1),
            Token::Semicolon,
            Token::Ident("y".to_string()),
            Token::Assign,
            Token::IntLit(2),
            Token::Semicolon,
            Token::Eof
        ]
    );
    assert_eq!((tokens[4].span.line, tokens[4].span.column), (3, 1));
}

#[test]
fn escaped_quote_inside_character_literal() {
    let tokens = tokenize(r"c <- '\''; d <- '\\';").unwrap();
    assert_eq!(tokens[2].token, Token::CharLit('\''));
    assert_eq!(tokens[2].span.length, 4);
    assert_eq!(tokens[6].token, Token::CharLit('\\'));
    let err = tokenize("c <- '\\\n';").unwrap_err();
    assert_eq!(err.code(), "E004");
    assert_eq!(err.span.unwrap().length, 3);
    let err = tokenize(r"c <- '\'").unwrap_err();
    assert_eq!(err.code(), "E004");
}

#[test]
fn unicode_blanks_and_letters() {
    let tokens = tokenize("x\u{a0}<-\u{3000}1;").unwrap();
    assert_eq!(kinds(&tokens).len(), 5);
    let tokens = tokenize("Ωmega <- vrai;").unwrap();
    assert_eq!(tokens[0].token, Token::Ident("Ωmega".to_string()));
}

#[test]
fn describe_reals_by_their_value() {
    assert_eq!(Token::FloatLit("5.10".to_string()).describe(), "le nombre `5.1`");
    assert_eq!(Token::FloatLit("5.0".to_string()).describe(), "le nombre `5`");
    assert_eq!(Token::FloatLit("010.50".to_string()).describe(), "le nombre `10.5`");
    assert_eq!(Token::FloatLit("0.05".to_string()).describe(), "le nombre `0.05`");
    assert_eq!(Token::FloatLit("00.000".to_string()).describe(), "le nombre `0`");
    for text in ["5.10", "5.0", "010.50", "0.05", "00.000", "3.14", "100.001", "12345678901234.5"] {
        let value: f64 = text.parse().unwrap();
        assert_eq!(real_display_text(text), value.to_string());
    }
}

#[test]
fn every_unicode_blank_separates_tokens() {
    for code in 0u32..=0x10FFFF {
        if let Some(c) = char::from_u32(code) {
            if c.is_whitespace() {
                let source = format!("x{c}y");
                let tokens = tokenize(&source).unwrap();
                assert_eq!(
                    kinds(&tokens),
                    vec![Token::Ident("x".to_string()), Token::Ident("y".to_string()), Token::Eof]
                );
            }
        }
    }
    assert!(tokenize("x\u{200B}y").is_err());
}
