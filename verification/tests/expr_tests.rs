use april::errors::AprilError;
use april::version_expr::{
    check_version_compatibility, evaluate_version_expr, parse_version_expr,
    tokenize_version_expr, VersionToken,
};

#[test]
fn test_lexer() {
    let input = "1.2.3+4-5";
    let tokens = tokenize_version_expr(input.as_bytes()).unwrap();
    assert_eq!(tokens.len(), 1);
    assert_eq!(tokens[0], VersionToken::VersionNumber(b"1.2.3+4-5".to_vec()));

    let input = "sha256sum(012345abc)";
    let tokens = tokenize_version_expr(input.as_bytes()).unwrap();
    assert_eq!(tokens, vec![VersionToken::Sha256Sum(b"012345abc".to_vec())]);
}

#[test]
fn test_parser_simple() {
    let input_expr = "(=1.2.3 || =4.5.6) && <7.8.9 && sha256sum(012345abc)";
    let tokens = parse_version_expr(input_expr).unwrap();
    assert_eq!(
        tokens,
        vec![
            VersionToken::Placeholder,
            VersionToken::VersionNumber(b"1.2.3".to_vec()),
            VersionToken::Eq,
            VersionToken::Placeholder,
            VersionToken::VersionNumber(b"4.5.6".to_vec()),
            VersionToken::Eq,
            VersionToken::Or,
            VersionToken::Placeholder,
            VersionToken::VersionNumber(b"7.8.9".to_vec()),
            VersionToken::Lt,
            VersionToken::And,
            VersionToken::Sha256Sum(b"012345abc".to_vec()),
            VersionToken::And,
        ]
    );
}

#[test]
fn parser_rejects_unmatched_paren() {
    let err = parse_version_expr("(=1.2.3").unwrap_err();
    assert_eq!(err, AprilError::UnmatchedParen);
    assert_eq!(err.message(), "Unmatched '(' in version expression");
}

#[test]
fn parser_rejects_raw_hex_literal() {
    let err = parse_version_expr("abc123").unwrap_err();
    assert!(matches!(err, AprilError::InvalidExpression(_)));
}

#[test]
fn parser_rejects_misplaced_operand() {
    let err = parse_version_expr("1.2.3").unwrap_err();
    assert!(matches!(err, AprilError::UnexpectedOperand(_)));
}

#[test]
fn lexer_rejects_unknown_bytes() {
    let err = parse_version_expr("=1.0 ? =2.0").unwrap_err();
    assert!(matches!(err, AprilError::InvalidExpression(_)));
}

#[test]
fn token_classes() {
    assert!(VersionToken::And.is_op());
    assert!(!VersionToken::And.is_cmp_op());
    assert!(VersionToken::GtEq.is_op());
    assert!(VersionToken::GtEq.is_cmp_op());
    assert!(!VersionToken::LParen.is_op());
    assert_eq!(VersionToken::Lt.precedence(), 10);
    assert_eq!(VersionToken::EqEq.precedence(), 10);
    assert_eq!(VersionToken::Sha256Sum(b"ff".to_vec()).precedence(), 10);
    assert_eq!(VersionToken::Or.precedence(), 1);
    assert_eq!(VersionToken::RParen.precedence(), 0);
}

#[test]
fn check_simple_ranges() {
    assert_eq!(check_version_compatibility(">=1.0 && <2.0", "1.5"), Ok(true));
    assert_eq!(check_version_compatibility(">=1.0 && <2.0", "2.0"), Ok(false));
    assert_eq!(check_version_compatibility("=1.2.3 || =4.5.6", "4.5.6"), Ok(true));
    assert_eq!(check_version_compatibility("!=1.0", "1.00"), Ok(false));
    assert_eq!(check_version_compatibility("<=1:0.5", "2:0.1"), Ok(false));
}

#[test]
fn double_equals_binds_like_equals() {
    // `==` is the same operator as `=` and binds tighter than `&&`/`||`.
    assert_eq!(check_version_compatibility("=1.0 && ==1.00", "1.0"), Ok(true));
    assert_eq!(check_version_compatibility("=1.0 && ==2.0", "1.0"), Ok(false));
    assert_eq!(check_version_compatibility("==3.0 || =1.0", "3.0"), Ok(true));
}

#[test]
fn check_left_associativity() {
    // With left-to-right grouping this reads ((a && b) || c).
    assert_eq!(check_version_compatibility("=1.0 && =2.0 || =3.0", "3.0"), Ok(true));
    assert_eq!(check_version_compatibility("=1.0 && =2.0 || =3.0", "1.0"), Ok(false));
}

#[test]
fn check_without_digest_rejects_hash_predicate() {
    let err = check_version_compatibility("=1.0 && sha256sum(ff)", "1.0").unwrap_err();
    assert_eq!(err, AprilError::MissingDigest);
}

#[test]
fn evaluate_with_digest() {
    let tokens = parse_version_expr("=1.0 && sha256sum(00FF12)").unwrap();
    assert_eq!(
        evaluate_version_expr(&tokens, b"1.0", Some(b"00ff12")),
        Ok(true)
    );
    assert_eq!(
        evaluate_version_expr(&tokens, b"1.0", Some(b"00ff13")),
        Ok(false)
    );
    assert_eq!(
        evaluate_version_expr(&tokens, b"1.0", None),
        Err(AprilError::MissingDigest)
    );
}

#[test]
fn evaluate_rejects_malformed_sequences() {
    let tokens = vec![VersionToken::And];
    assert_eq!(
        evaluate_version_expr(&tokens, b"1.0", None),
        Err(AprilError::MalformedExpression)
    );
    let tokens = vec![
        VersionToken::Placeholder,
        VersionToken::VersionNumber(b"1.0".to_vec()),
    ];
    assert_eq!(
        evaluate_version_expr(&tokens, b"1.0", None),
        Err(AprilError::MalformedExpression)
    );
}

#[test]
fn evaluate_rejects_unparseable_version() {
    let tokens = parse_version_expr("=1.0").unwrap();
    assert_eq!(
        evaluate_version_expr(&tokens, b":bad", None),
        Err(AprilError::InvalidVersionOperand)
    );
}
