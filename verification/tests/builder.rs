use oneroll::DiceError;
use oneroll::DiceModifier;
use oneroll::DiceParser;
use oneroll::Expression;
use oneroll::IntField;
use oneroll::ParseNode;
use oneroll::RuleTag;

fn leaf(tag: RuleTag, text: &str) -> ParseNode {
    ParseNode {
        tag,
        text: text.to_string(),
        children: vec![],
    }
}

fn node(tag: RuleTag, text: &str, children: Vec<ParseNode>) -> ParseNode {
    ParseNode {
        tag,
        text: text.to_string(),
        children,
    }
}

#[test]
fn comment_node_trims_and_strips() {
    let c = leaf(RuleTag::Comment, "#  well met  ");
    assert_eq!(DiceParser::parse_comment(&c), Ok(Some("well met".to_string())));
}

#[test]
fn comment_node_strips_repeated_markers() {
    let c = leaf(RuleTag::Comment, "##twice");
    assert_eq!(DiceParser::parse_comment(&c), Ok(Some("twice".to_string())));
}

#[test]
fn blank_comment_node_is_none() {
    let c = leaf(RuleTag::Comment, "#   ");
    assert_eq!(DiceParser::parse_comment(&c), Ok(None));
    let other = leaf(RuleTag::Op, "#x");
    assert_eq!(DiceParser::parse_comment(&other), Ok(None));
}

#[test]
fn unknown_modifier_tag_is_rejected() {
    let m = node(RuleTag::Modifier, "", vec![leaf(RuleTag::Op, "+")]);
    assert_eq!(DiceParser::parse_modifier(&m), Err(DiceError::UnknownModifier));
}

#[test]
fn modifier_with_bad_operand_names_its_field() {
    let m = node(
        RuleTag::Modifier,
        "",
        vec![node(RuleTag::DropLow, "dlx", vec![leaf(RuleTag::Number, "x")])],
    );
    assert_eq!(
        DiceParser::parse_modifier(&m),
        Err(DiceError::InvalidInteger(IntField::DropLow))
    );
}

#[test]
fn group_threshold_is_last_child_despite_leading_tokens() {
    let g = node(
        RuleTag::Modifier,
        "",
        vec![node(
            RuleTag::Group,
            "gs7",
            vec![leaf(RuleTag::Op, "gs"), leaf(RuleTag::Number, "7")],
        )],
    );
    assert_eq!(
        DiceParser::parse_modifier(&g),
        Ok(DiceModifier::Group { threshold: 7, show_structure: true })
    );
}

#[test]
fn group_without_marker_text_is_plain() {
    let g = node(
        RuleTag::Modifier,
        "",
        vec![node(RuleTag::Group, "g7", vec![leaf(RuleTag::Number, "7")])],
    );
    assert_eq!(
        DiceParser::parse_modifier(&g),
        Ok(DiceModifier::Group { threshold: 7, show_structure: false })
    );
}

#[test]
fn invalid_dice_term_child_is_rejected() {
    let t = node(RuleTag::DiceTerm, "", vec![leaf(RuleTag::Op, "+")]);
    assert_eq!(DiceParser::parse_dice_term(&t), Err(DiceError::InvalidDiceTerm));
}

#[test]
fn unexpected_node_is_the_structural_fallback() {
    let n = leaf(RuleTag::Number, "3");
    assert_eq!(DiceParser::parse_dice_expr(&n), Err(DiceError::UnexpectedNode));
}

#[test]
fn unknown_operator_text_is_carried() {
    let e = node(
        RuleTag::DiceExpr,
        "",
        vec![
            node(RuleTag::DiceTerm, "", vec![leaf(RuleTag::Number, "1")]),
            leaf(RuleTag::Op, "%"),
            node(RuleTag::DiceTerm, "", vec![leaf(RuleTag::Number, "2")]),
        ],
    );
    assert_eq!(
        DiceParser::parse_dice_expr(&e),
        Err(DiceError::UnknownOperator("%".to_string()))
    );
}

#[test]
fn unrelated_siblings_are_ignored_in_dice_expr() {
    let e = node(
        RuleTag::DiceExpr,
        "",
        vec![
            node(RuleTag::DiceTerm, "", vec![leaf(RuleTag::Number, "9")]),
            leaf(RuleTag::ModifierList, ""),
        ],
    );
    assert_eq!(DiceParser::parse_dice_expr(&e), Ok(Expression::Number(9)));
}

#[test]
fn var_ref_text_keeps_leading_marker() {
    let v = node(RuleTag::VarRef, "", vec![leaf(RuleTag::Number, "$3")]);
    assert_eq!(
        DiceParser::parse_var_ref(&v),
        Ok(Expression::VariableRefWithModifiers(3, vec![]))
    );
}

#[test]
fn var_ref_non_integer_index_names_its_field() {
    let v = node(RuleTag::VarRef, "", vec![leaf(RuleTag::Number, "$x")]);
    assert_eq!(
        DiceParser::parse_var_ref(&v),
        Err(DiceError::InvalidInteger(IntField::VariableIndex))
    );
}

#[test]
fn dice_roll_reads_count_then_sides() {
    let r = node(
        RuleTag::DiceRoll,
        "",
        vec![leaf(RuleTag::Number, "2"), leaf(RuleTag::Number, "10")],
    );
    assert_eq!(
        DiceParser::parse_dice_roll(&r),
        Ok(Expression::DiceRoll(oneroll::DiceRoll {
            count: 2,
            sides: 10,
            modifiers: vec![]
        }))
    );
}

#[test]
fn dice_roll_bad_count_names_its_field() {
    let r = node(
        RuleTag::DiceRoll,
        "",
        vec![leaf(RuleTag::Number, "two"), leaf(RuleTag::Number, "10")],
    );
    assert_eq!(
        DiceParser::parse_dice_roll(&r),
        Err(DiceError::InvalidInteger(IntField::DiceCount))
    );
}

#[test]
fn instruction_list_singleton_is_unwrapped() {
    let il = node(
        RuleTag::InstructionList,
        "",
        vec![node(
            RuleTag::Instruction,
            "",
            vec![node(
                RuleTag::DiceExpr,
                "",
                vec![node(RuleTag::DiceTerm, "", vec![leaf(RuleTag::Number, "4")])],
            )],
        )],
    );
    assert_eq!(DiceParser::parse_instruction_list(&il), Ok(Expression::Number(4)));
}

#[test]
fn instruction_list_ignores_non_instruction_children() {
    let mk_instr = |v: &str| {
        node(
            RuleTag::Instruction,
            "",
            vec![node(
                RuleTag::DiceExpr,
                "",
                vec![node(RuleTag::DiceTerm, "", vec![leaf(RuleTag::Number, v)])],
            )],
        )
    };
    let il = node(
        RuleTag::InstructionList,
        "",
        vec![mk_instr("1"), leaf(RuleTag::Op, ";"), mk_instr("2")],
    );
    assert_eq!(
        DiceParser::parse_instruction_list(&il),
        Ok(Expression::Sequence(vec![
            Expression::Number(1),
            Expression::Number(2)
        ]))
    );
}

#[test]
fn integer_parser_edges() {
    assert_eq!(oneroll::num::parse_i32("2147483647"), Some(2147483647));
    assert_eq!(oneroll::num::parse_i32("2147483648"), None);
    assert_eq!(oneroll::num::parse_i32("-2147483648"), Some(-2147483648));
    assert_eq!(oneroll::num::parse_i32("-2147483649"), None);
    assert_eq!(oneroll::num::parse_i32("+17"), Some(17));
    assert_eq!(oneroll::num::parse_i32(""), None);
    assert_eq!(oneroll::num::parse_i32("-"), None);
    assert_eq!(oneroll::num::parse_i32("1x2"), None);
    assert_eq!(oneroll::num::parse_i32("007"), Some(7));
}

#[test]
fn recognizer_builds_a_main_node() {
    let t = oneroll::recognize("1d4").unwrap();
    assert_eq!(t.tag, RuleTag::Main);
    assert_eq!(t.children.len(), 1);
    assert_eq!(t.children[0].tag, RuleTag::InstructionList);
    assert_eq!(t.children[0].children.len(), 1);
}
