use oneroll::DiceError;
use oneroll::DiceModifier;
use oneroll::DiceParser;
use oneroll::DiceRoll;
use oneroll::Expression;
use oneroll::IntField;

fn roll(count: i32, sides: i32, modifiers: Vec<DiceModifier>) -> Expression {
    Expression::DiceRoll(DiceRoll { count, sides, modifiers })
}

#[test]
fn single_roll_is_not_a_sequence() {
    let e = DiceParser::parse_expression("1d20").unwrap();
    assert_eq!(e, roll(1, 20, vec![]));
    assert!(!matches!(e, Expression::Sequence(_)));
}

#[test]
fn single_arithmetic_is_not_a_sequence() {
    let e = DiceParser::parse_expression("3d6+2").unwrap();
    assert_eq!(
        e,
        Expression::Add(
            Box::new(roll(3, 6, vec![])),
            Box::new(Expression::Number(2))
        )
    );
}

#[test]
fn two_instructions_become_a_sequence_in_order() {
    let e = DiceParser::parse_expression("1d20;2d4").unwrap();
    assert_eq!(
        e,
        Expression::Sequence(vec![roll(1, 20, vec![]), roll(2, 4, vec![])])
    );
}

#[test]
fn three_instructions_with_spaces() {
    let e = DiceParser::parse_expression(" 1d20 ; 2d4 ; 7 ").unwrap();
    assert_eq!(
        e,
        Expression::Sequence(vec![
            roll(1, 20, vec![]),
            roll(2, 4, vec![]),
            Expression::Number(7)
        ])
    );
}

#[test]
fn keep_high_and_keep_alias_stay_distinct() {
    let k = DiceParser::parse_expression("4d6k3").unwrap();
    assert_eq!(k, roll(4, 6, vec![DiceModifier::KeepHigh(3)]));
    let kh = DiceParser::parse_expression("4d6kh3").unwrap();
    assert_eq!(kh, roll(4, 6, vec![DiceModifier::KeepAlias(3)]));
    assert_ne!(k, kh);
}

#[test]
fn arithmetic_folds_left_to_right() {
    let e = DiceParser::parse_expression("1+2-3").unwrap();
    assert_eq!(
        e,
        Expression::Subtract(
            Box::new(Expression::Add(
                Box::new(Expression::Number(1)),
                Box::new(Expression::Number(2))
            )),
            Box::new(Expression::Number(3))
        )
    );
}

#[test]
fn parentheses_are_preserved() {
    let e = DiceParser::parse_expression("(1+2)*3").unwrap();
    assert_eq!(
        e,
        Expression::Multiply(
            Box::new(Expression::Paren(Box::new(Expression::Add(
                Box::new(Expression::Number(1)),
                Box::new(Expression::Number(2))
            )))),
            Box::new(Expression::Number(3))
        )
    );
}

#[test]
fn comment_is_attached_trimmed() {
    let e = DiceParser::parse_expression("1d20 # hit").unwrap();
    assert_eq!(
        e,
        Expression::WithComment(Box::new(roll(1, 20, vec![])), Some("hit".to_string()))
    );
}

#[test]
fn empty_comment_leaves_expression_bare() {
    let e = DiceParser::parse_expression("1d20 #").unwrap();
    assert_eq!(e, roll(1, 20, vec![]));
    let e2 = DiceParser::parse_expression("1d20 #   ").unwrap();
    assert_eq!(e2, roll(1, 20, vec![]));
}

#[test]
fn comment_stops_at_separator() {
    let e = DiceParser::parse_expression("1d20 # hit;2d4").unwrap();
    assert_eq!(
        e,
        Expression::Sequence(vec![
            Expression::WithComment(Box::new(roll(1, 20, vec![])), Some("hit".to_string())),
            roll(2, 4, vec![])
        ])
    );
}

#[test]
fn variable_reference_alone() {
    let e = DiceParser::parse_expression("$1").unwrap();
    assert_eq!(e, Expression::VariableRefWithModifiers(1, vec![]));
}

#[test]
fn variable_reference_zero_fails() {
    let e = DiceParser::parse_expression("$0");
    assert_eq!(e, Err(DiceError::NonPositiveVariableRef));
}

#[test]
fn variable_reference_negative_fails() {
    let e = DiceParser::parse_expression("$-2");
    assert_eq!(e, Err(DiceError::NonPositiveVariableRef));
}

#[test]
fn variable_reference_with_modifiers() {
    let e = DiceParser::parse_expression("$1k2").unwrap();
    assert_eq!(
        e,
        Expression::VariableRefWithModifiers(1, vec![DiceModifier::KeepHigh(2)])
    );
    let e2 = DiceParser::parse_expression("$1kh2").unwrap();
    assert_eq!(
        e2,
        Expression::VariableRefWithModifiers(1, vec![DiceModifier::KeepAlias(2)])
    );
}

#[test]
fn group_marker_sets_show_structure() {
    let plain = DiceParser::parse_expression("3d6g2").unwrap();
    assert_eq!(
        plain,
        roll(3, 6, vec![DiceModifier::Group { threshold: 2, show_structure: false }])
    );
    let shown = DiceParser::parse_expression("3d6gs2").unwrap();
    assert_eq!(
        shown,
        roll(3, 6, vec![DiceModifier::Group { threshold: 2, show_structure: true }])
    );
}

#[test]
fn sides_overflow_is_field_specific() {
    let e = DiceParser::parse_expression("1d99999999999");
    assert_eq!(e, Err(DiceError::InvalidInteger(IntField::DiceSides)));
}

#[test]
fn count_overflow_is_field_specific() {
    let e = DiceParser::parse_expression("99999999999d6");
    assert_eq!(e, Err(DiceError::InvalidInteger(IntField::DiceCount)));
}

#[test]
fn number_literal_overflow_is_field_specific() {
    let e = DiceParser::parse_expression("99999999999");
    assert_eq!(e, Err(DiceError::InvalidInteger(IntField::NumberLiteral)));
}

#[test]
fn variable_index_overflow_is_field_specific() {
    let e = DiceParser::parse_expression("$99999999999");
    assert_eq!(e, Err(DiceError::InvalidInteger(IntField::VariableIndex)));
}

#[test]
fn modifier_operand_overflow_is_field_specific() {
    let e = DiceParser::parse_expression("3d6k99999999999");
    assert_eq!(e, Err(DiceError::InvalidInteger(IntField::KeepHigh)));
}

#[test]
fn parsing_twice_yields_equal_trees() {
    let a = DiceParser::parse_expression("3d6k2");
    let b = DiceParser::parse_expression("3d6k2");
    assert_eq!(a, b);
    let c = DiceParser::parse_expression("1d20 # hit;$1e");
    let d = DiceParser::parse_expression("1d20 # hit;$1e");
    assert_eq!(c, d);
}

#[test]
fn all_five_operators() {
    assert_eq!(
        DiceParser::parse_expression("2*3").unwrap(),
        Expression::Multiply(
            Box::new(Expression::Number(2)),
            Box::new(Expression::Number(3))
        )
    );
    assert_eq!(
        DiceParser::parse_expression("8/2").unwrap(),
        Expression::Divide(
            Box::new(Expression::Number(8)),
            Box::new(Expression::Number(2))
        )
    );
    assert_eq!(
        DiceParser::parse_expression("2^3").unwrap(),
        Expression::Power(
            Box::new(Expression::Number(2)),
            Box::new(Expression::Number(3))
        )
    );
}

#[test]
fn modifier_vocabulary() {
    assert_eq!(
        DiceParser::parse_expression("3d6!").unwrap(),
        roll(3, 6, vec![DiceModifier::Explode])
    );
    assert_eq!(
        DiceParser::parse_expression("3d6e").unwrap(),
        roll(3, 6, vec![DiceModifier::ExplodeAlias])
    );
    assert_eq!(
        DiceParser::parse_expression("3d6!k2").unwrap(),
        roll(3, 6, vec![DiceModifier::ExplodeKeepHigh(2)])
    );
    assert_eq!(
        DiceParser::parse_expression("3d6r1").unwrap(),
        roll(3, 6, vec![DiceModifier::Reroll(1)])
    );
    assert_eq!(
        DiceParser::parse_expression("3d6ro1").unwrap(),
        roll(3, 6, vec![DiceModifier::RerollOnce(1)])
    );
    assert_eq!(
        DiceParser::parse_expression("3d6ru1").unwrap(),
        roll(3, 6, vec![DiceModifier::RerollUntil(1)])
    );
    assert_eq!(
        DiceParser::parse_expression("3d6ra1").unwrap(),
        roll(3, 6, vec![DiceModifier::RerollAndAdd(1)])
    );
    assert_eq!(
        DiceParser::parse_expression("3d6kl2").unwrap(),
        roll(3, 6, vec![DiceModifier::KeepLow(2)])
    );
    assert_eq!(
        DiceParser::parse_expression("3d6dh1").unwrap(),
        roll(3, 6, vec![DiceModifier::DropHigh(1)])
    );
    assert_eq!(
        DiceParser::parse_expression("3d6dl1").unwrap(),
        roll(3, 6, vec![DiceModifier::DropLow(1)])
    );
    assert_eq!(
        DiceParser::parse_expression("3d6u").unwrap(),
        roll(3, 6, vec![DiceModifier::Unique])
    );
    assert_eq!(
        DiceParser::parse_expression("3d6s").unwrap(),
        roll(3, 6, vec![DiceModifier::Sort])
    );
    assert_eq!(
        DiceParser::parse_expression("3d6m").unwrap(),
        roll(3, 6, vec![DiceModifier::Merge])
    );
    assert_eq!(
        DiceParser::parse_expression("3d6c4").unwrap(),
        roll(3, 6, vec![DiceModifier::Count(4)])
    );
}

#[test]
fn modifier_chain_keeps_order() {
    let e = DiceParser::parse_expression("4d6!k3s").unwrap();
    assert_eq!(
        e,
        roll(
            4,
            6,
            vec![DiceModifier::ExplodeKeepHigh(3), DiceModifier::Sort]
        )
    );
    let e2 = DiceParser::parse_expression("4d6sk3").unwrap();
    assert_eq!(
        e2,
        roll(4, 6, vec![DiceModifier::Sort, DiceModifier::KeepHigh(3)])
    );
}

#[test]
fn negative_numbers_are_syntactically_accepted() {
    assert_eq!(
        DiceParser::parse_expression("-5").unwrap(),
        Expression::Number(-5)
    );
    assert_eq!(
        DiceParser::parse_expression("3d-6").unwrap(),
        roll(3, -6, vec![])
    );
}

#[test]
fn syntax_failures_are_reported() {
    assert!(matches!(
        DiceParser::parse_expression(""),
        Err(DiceError::Syntax(_))
    ));
    assert!(matches!(
        DiceParser::parse_expression("xyz"),
        Err(DiceError::Syntax(_))
    ));
    assert!(matches!(
        DiceParser::parse_expression("1+"),
        Err(DiceError::Syntax(_))
    ));
    assert!(matches!(
        DiceParser::parse_expression("(1+2"),
        Err(DiceError::Syntax(_))
    ));
    assert!(matches!(
        DiceParser::parse_expression("1d20;"),
        Err(DiceError::Syntax(_))
    ));
}

#[test]
fn sequence_with_variable_reference() {
    let e = DiceParser::parse_expression("2d6;$1!").unwrap();
    assert_eq!(
        e,
        Expression::Sequence(vec![
            roll(2, 6, vec![]),
            Expression::VariableRefWithModifiers(1, vec![DiceModifier::Explode])
        ])
    );
}

#[test]
fn comment_text_may_hold_non_ascii() {
    let e = DiceParser::parse_expression("1d20 # 命中判定").unwrap();
    assert_eq!(
        e,
        Expression::WithComment(
            Box::new(roll(1, 20, vec![])),
            Some("命中判定".to_string())
        )
    );
}

#[test]
fn comment_trimming_covers_unicode_whitespace() {
    let e = DiceParser::parse_expression("1d20 #\u{A0}hit\u{2003}").unwrap();
    assert_eq!(
        e,
        Expression::WithComment(Box::new(roll(1, 20, vec![])), Some("hit".to_string()))
    );
    let blank = DiceParser::parse_expression("1d20 #\u{A0}\u{3000}").unwrap();
    assert_eq!(blank, roll(1, 20, vec![]));
}

#[test]
fn syntax_diagnostic_names_the_position() {
    let e = DiceParser::parse_expression("1d20 ?");
    assert_eq!(
        e,
        Err(DiceError::Syntax(
            "the input does not match the dice grammar at character 5".to_string()
        ))
    );
    let e2 = DiceParser::parse_expression("  xyz");
    assert_eq!(
        e2,
        Err(DiceError::Syntax(
            "the input does not match the dice grammar at character 2".to_string()
        ))
    );
}

#[test]
fn folding_follows_encounter_order_not_precedence() {
    // The parse-tree shape alone decides grouping: sibling operator and
    // term pairs are folded in encounter order.
    let e = DiceParser::parse_expression("1+2*3").unwrap();
    assert_eq!(
        e,
        Expression::Multiply(
            Box::new(Expression::Add(
                Box::new(Expression::Number(1)),
                Box::new(Expression::Number(2))
            )),
            Box::new(Expression::Number(3))
        )
    );
}

#[test]
fn nested_parentheses() {
    let e = DiceParser::parse_expression("((2))").unwrap();
    assert_eq!(
        e,
        Expression::Paren(Box::new(Expression::Paren(Box::new(Expression::Number(
            2
        )))))
    );
}
