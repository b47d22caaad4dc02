//! The AST builder: walks a typed parse tree and assembles the
//! `Expression` tree, resolving modifiers, numeric literals and comments.
//!
//! Every builder function is pinned exactly by a spec-level mirror of its
//! logic: `parse_dice_expr` returns precisely `spec_expr` of the node's
//! view, and so on. The first error encountered aborts the walk; no
//! partial tree is ever returned.

use vstd::prelude::*;

use crate::ast::DiceError;
use crate::ast::DiceModifier;
use crate::ast::DiceRoll;
use crate::ast::DiceRollV;
use crate::ast::ErrorV;
use crate::ast::ExprV;
use crate::ast::Expression;
use crate::ast::IntField;
use crate::ast::expr_view;
use crate::ast::exprs_view;
use crate::lexer::count_semis;
use crate::lexer::spec_recognize;
use crate::num::spec_parse_i32;
use crate::num::parse_i32;
use crate::text::strip_leading;
use crate::text::strip_leading_char;
use crate::text::trim_spaces;
use crate::text::trim_str;
use crate::tree::NodeV;
use crate::tree::ParseNode;
use crate::tree::RuleTag;
use crate::tree::lemma_nodes_view;
use crate::tree::node_view;

verus! {

broadcast use vstd::seq::axiom_seq_index_decreases;

/// The comment text a comment node yields: marker stripped, whitespace
/// trimmed, an empty remainder collapsed to `None`.
pub open spec fn spec_comment_text(text: Seq<char>) -> Option<Seq<char>> {
    let t = trim_spaces(strip_leading(text, '#'));
    if t.len() == 0 {
        None
    } else {
        Some(t)
    }
}

/// What `parse_comment` yields on a node: comment text for comment nodes,
/// `None` for everything else. It never fails.
pub open spec fn spec_comment(n: NodeV) -> Option<Seq<char>> {
    if n.tag == RuleTag::Comment {
        spec_comment_text(n.text)
    } else {
        None
    }
}

/// Combines two operands under an operator's literal text; any text other
/// than the five known operators is an unknown-operator error.
pub open spec fn spec_combine(op: Seq<char>, l: ExprV, r: ExprV) -> Result<ExprV, ErrorV> {
    if op == seq!['+'] {
        Ok(ExprV::Add(Box::new(l), Box::new(r)))
    } else if op == seq!['-'] {
        Ok(ExprV::Subtract(Box::new(l), Box::new(r)))
    } else if op == seq!['*'] {
        Ok(ExprV::Multiply(Box::new(l), Box::new(r)))
    } else if op == seq!['/'] {
        Ok(ExprV::Divide(Box::new(l), Box::new(r)))
    } else if op == seq!['^'] {
        Ok(ExprV::Power(Box::new(l), Box::new(r)))
    } else {
        Err(ErrorV::UnknownOperator(op))
    }
}

/// The integer operand of a parameterized modifier: the first child's
/// text, with a field-specific error when it is not an `i32`.
pub open spec fn spec_mod_operand(inner: NodeV, f: IntField) -> Result<i32, ErrorV> {
    if inner.children.len() == 0 {
        Err(ErrorV::UnexpectedNode)
    } else {
        match spec_parse_i32(inner.children[0].text) {
            Some(v) => Ok(v),
            None => Err(ErrorV::InvalidInteger(f)),
        }
    }
}

/// The group modifier: `show_structure` iff the matched text begins with
/// the two-character marker `gs`; the threshold is the last child's text,
/// read as an integer.
pub open spec fn spec_group(inner: NodeV) -> Result<DiceModifier, ErrorV> {
    let show = inner.text.len() >= 2 && inner.text[0] == 'g' && inner.text[1] == 's';
    if inner.children.len() == 0 {
        Err(ErrorV::UnexpectedNode)
    } else {
        match spec_parse_i32(inner.children.last().text) {
            Some(v) => Ok(DiceModifier::Group { threshold: v, show_structure: show }),
            None => Err(ErrorV::InvalidInteger(IntField::GroupThreshold)),
        }
    }
}

/// What `parse_modifier` yields: one `DiceModifier` per modifier node,
/// dispatching on the node's single child.
pub open spec fn spec_modifier(n: NodeV) -> Result<DiceModifier, ErrorV> {
    if n.tag != RuleTag::Modifier {
        Err(ErrorV::UnexpectedNode)
    } else if n.children.len() == 0 {
        Err(ErrorV::UnexpectedNode)
    } else {
        let inner = n.children[0];
        match inner.tag {
            RuleTag::Explode => Ok(DiceModifier::Explode),
            RuleTag::ExplodeAlias => Ok(DiceModifier::ExplodeAlias),
            RuleTag::ExplodeKeepHigh => match spec_mod_operand(inner, IntField::ExplodeKeepHigh) {
                Ok(v) => Ok(DiceModifier::ExplodeKeepHigh(v)),
                Err(e) => Err(e),
            },
            RuleTag::Reroll => match spec_mod_operand(inner, IntField::Reroll) {
                Ok(v) => Ok(DiceModifier::Reroll(v)),
                Err(e) => Err(e),
            },
            RuleTag::RerollOnce => match spec_mod_operand(inner, IntField::RerollOnce) {
                Ok(v) => Ok(DiceModifier::RerollOnce(v)),
                Err(e) => Err(e),
            },
            RuleTag::RerollUntil => match spec_mod_operand(inner, IntField::RerollUntil) {
                Ok(v) => Ok(DiceModifier::RerollUntil(v)),
                Err(e) => Err(e),
            },
            RuleTag::RerollAdd => match spec_mod_operand(inner, IntField::RerollAndAdd) {
                Ok(v) => Ok(DiceModifier::RerollAndAdd(v)),
                Err(e) => Err(e),
            },
            RuleTag::KeepAlias => match spec_mod_operand(inner, IntField::KeepAlias) {
                Ok(v) => Ok(DiceModifier::KeepAlias(v)),
                Err(e) => Err(e),
            },
            RuleTag::KeepHigh => match spec_mod_operand(inner, IntField::KeepHigh) {
                Ok(v) => Ok(DiceModifier::KeepHigh(v)),
                Err(e) => Err(e),
            },
            RuleTag::KeepLow => match spec_mod_operand(inner, IntField::KeepLow) {
                Ok(v) => Ok(DiceModifier::KeepLow(v)),
                Err(e) => Err(e),
            },
            RuleTag::DropHigh => match spec_mod_operand(inner, IntField::DropHigh) {
                Ok(v) => Ok(DiceModifier::DropHigh(v)),
                Err(e) => Err(e),
            },
            RuleTag::DropLow => match spec_mod_operand(inner, IntField::DropLow) {
                Ok(v) => Ok(DiceModifier::DropLow(v)),
                Err(e) => Err(e),
            },
            RuleTag::Unique => Ok(DiceModifier::Unique),
            RuleTag::Sort => Ok(DiceModifier::Sort),
            RuleTag::Count => match spec_mod_operand(inner, IntField::Count) {
                Ok(v) => Ok(DiceModifier::Count(v)),
                Err(e) => Err(e),
            },
            RuleTag::Merge => Ok(DiceModifier::Merge),
            RuleTag::Group => spec_group(inner),
            _ => Err(ErrorV::UnknownModifier),
        }
    }
}

/// Resolves a whole modifier list in order; the first failing modifier
/// aborts the list.
pub open spec fn spec_modifiers(ch: Seq<NodeV>) -> Result<Seq<DiceModifier>, ErrorV>
    decreases ch,
{
    if ch.len() == 0 {
        Ok(Seq::empty())
    } else {
        match spec_modifier(ch[0]) {
            Err(e) => Err(e),
            Ok(m) => match spec_modifiers(ch.drop_first()) {
                Err(e) => Err(e),
                Ok(ms) => Ok(seq![m] + ms),
            },
        }
    }
}

/// What `parse_dice_roll` yields: count, then sides, each read from a
/// leading child with its own field error, then an optional modifier list.
pub open spec fn spec_roll(n: NodeV) -> Result<ExprV, ErrorV> {
    if n.children.len() < 2 {
        Err(ErrorV::UnexpectedNode)
    } else {
        match spec_parse_i32(n.children[0].text) {
            None => Err(ErrorV::InvalidInteger(IntField::DiceCount)),
            Some(count) => match spec_parse_i32(n.children[1].text) {
                None => Err(ErrorV::InvalidInteger(IntField::DiceSides)),
                Some(sides) => {
                    let mods = if n.children.len() >= 3 {
                        spec_modifiers(n.children[2].children)
                    } else {
                        Ok(Seq::empty())
                    };
                    match mods {
                        Err(e) => Err(e),
                        Ok(ms) => Ok(
                            ExprV::DiceRoll(DiceRollV { count, sides, modifiers: ms }),
                        ),
                    }
                },
            },
        }
    }
}

/// A variable reference: the index is the first child's text with leading
/// `$` markers stripped; it must be an integer and at least 1. An optional
/// second child holds the reference's own modifier list.
pub open spec fn spec_var_ref(inner: NodeV) -> Result<ExprV, ErrorV> {
    if inner.children.len() == 0 {
        Err(ErrorV::UnexpectedNode)
    } else {
        match spec_parse_i32(strip_leading(inner.children[0].text, '$')) {
            None => Err(ErrorV::InvalidInteger(IntField::VariableIndex)),
            Some(v) => if v <= 0 {
                Err(ErrorV::NonPositiveVariableRef)
            } else {
                let mods = if inner.children.len() >= 2 {
                    spec_modifiers(inner.children[1].children)
                } else {
                    Ok(Seq::empty())
                };
                match mods {
                    Err(e) => Err(e),
                    Ok(ms) => Ok(ExprV::VariableRefWithModifiers(v as usize, ms)),
                }
            },
        }
    }
}

/// What `parse_dice_term` yields: a dice roll, a parenthesized expression
/// kept under a `Paren` node, or a bare number; anything else is an
/// invalid dice term.
pub open spec fn spec_term(n: NodeV) -> Result<ExprV, ErrorV>
    decreases n, 0int, 0int,
{
    if n.tag != RuleTag::DiceTerm {
        Err(ErrorV::UnexpectedNode)
    } else if n.children.len() == 0 {
        Err(ErrorV::UnexpectedNode)
    } else {
        let inner = n.children[0];
        match inner.tag {
            RuleTag::DiceRoll => spec_roll(inner),
            RuleTag::ParenExpr => if inner.children.len() == 0 {
                Err(ErrorV::UnexpectedNode)
            } else {
                match spec_expr(inner.children[0]) {
                    Err(e) => Err(e),
                    Ok(e) => Ok(ExprV::Paren(Box::new(e))),
                }
            },
            RuleTag::Number => match spec_parse_i32(inner.text) {
                Some(v) => Ok(ExprV::Number(v)),
                None => Err(ErrorV::InvalidInteger(IntField::NumberLiteral)),
            },
            _ => Err(ErrorV::InvalidDiceTerm),
        }
    }
}

/// Left-to-right folding of a dice expression's remaining children from
/// position `i`: an operator consumes the following term, a comment wraps
/// the accumulated expression when its text is non-empty, and any other
/// sibling is ignored.
pub open spec fn spec_fold(ch: Seq<NodeV>, i: int, acc: ExprV) -> Result<ExprV, ErrorV>
    decreases ch, 0int, ch.len() - i,
{
    if i < 0 || i >= ch.len() {
        Ok(acc)
    } else {
        let p = ch[i];
        if p.tag == RuleTag::Op {
            if i + 1 >= ch.len() {
                Err(ErrorV::UnexpectedNode)
            } else {
                match spec_term(ch[i + 1]) {
                    Err(e) => Err(e),
                    Ok(right) => match spec_combine(p.text, acc, right) {
                        Err(e) => Err(e),
                        Ok(combined) => spec_fold(ch, i + 2, combined),
                    },
                }
            }
        } else if p.tag == RuleTag::Comment {
            match spec_comment_text(p.text) {
                Some(c) => spec_fold(ch, i + 1, ExprV::WithComment(Box::new(acc), Some(c))),
                None => spec_fold(ch, i + 1, acc),
            }
        } else {
            spec_fold(ch, i + 1, acc)
        }
    }
}

/// What `parse_dice_expr` yields, dispatching on the node's tag.
pub open spec fn spec_expr(n: NodeV) -> Result<ExprV, ErrorV>
    decreases n, (if n.tag == RuleTag::InstructionList { 2int } else { 0int }), 0int,
{
    match n.tag {
        RuleTag::Main => if n.children.len() == 0 {
            Err(ErrorV::UnexpectedNode)
        } else {
            spec_list(n.children[0])
        },
        RuleTag::InstructionList => spec_list(n),
        RuleTag::Instruction => if n.children.len() == 0 {
            Err(ErrorV::UnexpectedNode)
        } else {
            let inner = n.children[0];
            if inner.tag == RuleTag::VarRef {
                spec_var_ref(inner)
            } else {
                spec_expr(inner)
            }
        },
        RuleTag::DiceExpr => if n.children.len() == 0 {
            Err(ErrorV::UnexpectedNode)
        } else {
            match spec_term(n.children[0]) {
                Err(e) => Err(e),
                Ok(first) => spec_fold(n.children, 1, first),
            }
        },
        _ => Err(ErrorV::UnexpectedNode),
    }
}

/// Builds one expression per instruction-tagged child, in encounter
/// order; the first failing instruction aborts the list.
pub open spec fn spec_instrs(ch: Seq<NodeV>) -> Result<Seq<ExprV>, ErrorV>
    decreases ch, 0int, 0int,
{
    if ch.len() == 0 {
        Ok(Seq::empty())
    } else {
        let rest = spec_instrs(ch.drop_first());
        if ch[0].tag == RuleTag::Instruction {
            match spec_expr(ch[0]) {
                Err(e) => Err(e),
                Ok(e) => match rest {
                    Err(e2) => Err(e2),
                    Ok(es) => Ok(seq![e] + es),
                },
            }
        } else {
            rest
        }
    }
}

/// What `parse_instruction_list` yields: the single built instruction
/// when there is exactly one, else a `Sequence` preserving order; any
/// other node is re-dispatched to `spec_expr`.
pub open spec fn spec_list(n: NodeV) -> Result<ExprV, ErrorV>
    decreases n, 1int, 0int,
{
    if n.tag == RuleTag::InstructionList {
        match spec_instrs(n.children) {
            Err(e) => Err(e),
            Ok(es) => if es.len() == 1 {
                Ok(es[0])
            } else {
                Ok(ExprV::Sequence(es))
            },
        }
    } else {
        spec_expr(n)
    }
}

/// View of an expression-or-error result.
pub open spec fn expr_result_view(r: Result<Expression, DiceError>) -> Result<ExprV, ErrorV> {
    match r {
        Ok(e) => Ok(expr_view(e)),
        Err(e) => Err(e@),
    }
}

/// View of a modifier-or-error result.
pub open spec fn mod_result_view(r: Result<DiceModifier, DiceError>) -> Result<
    DiceModifier,
    ErrorV,
> {
    match r {
        Ok(m) => Ok(m),
        Err(e) => Err(e@),
    }
}

/// View of an integer-or-error result.
pub open spec fn int_result_view(r: Result<i32, DiceError>) -> Result<i32, ErrorV> {
    match r {
        Ok(v) => Ok(v),
        Err(e) => Err(e@),
    }
}

/// View of an optional comment text.
pub open spec fn opt_text_view(c: Option<String>) -> Option<Seq<char>> {
    match c {
        Some(s) => Some(s@),
        None => None,
    }
}

/// A resolved prefix of a modifier list together with the yet-unresolved
/// rest: the shape a left-to-right walk maintains.
pub open spec fn spec_modifiers_with(prefix: Seq<DiceModifier>, rest: Seq<NodeV>) -> Result<
    Seq<DiceModifier>,
    ErrorV,
> {
    match spec_modifiers(rest) {
        Ok(ms) => Ok(prefix + ms),
        Err(e) => Err(e),
    }
}

/// A built prefix of an instruction list together with the yet-unbuilt
/// rest: the shape a left-to-right walk maintains.
pub open spec fn spec_instrs_with(prefix: Seq<ExprV>, rest: Seq<NodeV>) -> Result<
    Seq<ExprV>,
    ErrorV,
> {
    match spec_instrs(rest) {
        Ok(es) => Ok(prefix + es),
        Err(e) => Err(e),
    }
}

/// The dice-notation parser: one parse call per input, no state.
pub struct DiceParser;

impl DiceParser {
    /// Extracts the text of a comment node: the leading markers are
    /// stripped, whitespace is trimmed, and an empty remainder collapses
    /// to `None`. Never fails.
    pub fn parse_comment(pair: &ParseNode) -> (r: Result<Option<String>, DiceError>)
        ensures
            r is Ok,
            opt_text_view(r->Ok_0) == spec_comment(pair@),
    {
        if pair.tag == RuleTag::Comment {
            let stripped = strip_leading_char(pair.text.as_str(), '#');
            let trimmed = trim_str(stripped);
            if trimmed.unicode_len() == 0 {
                Ok(None)
            } else {
                Ok(Some(String::from_str(trimmed)))
            }
        } else {
            Ok(None)
        }
    }

    /// Reads the integer operand of a parameterized modifier from its
    /// first child, with a field-specific error.
    fn modifier_operand(inner: &ParseNode, f: IntField) -> (r: Result<i32, DiceError>)
        ensures
            int_result_view(r) == spec_mod_operand(inner@, f),
    {
        if inner.children.len() == 0 {
            return Err(DiceError::UnexpectedNode);
        }
        proof {
            lemma_nodes_view(inner.children@);
        }
        match parse_i32(inner.children[0].text.as_str()) {
            Some(v) => Ok(v),
            None => Err(DiceError::InvalidInteger(f)),
        }
    }

    /// Resolves a group modifier: the show-structure flag from the
    /// matched text, the threshold from the last child.
    fn group_modifier(inner: &ParseNode) -> (r: Result<DiceModifier, DiceError>)
        ensures
            mod_result_view(r) == spec_group(inner@),
    {
        let t = inner.text.as_str();
        let tlen = t.unicode_len();
        let show = if tlen >= 2 {
            t.get_char(0) == 'g' && t.get_char(1) == 's'
        } else {
            false
        };
        if inner.children.len() == 0 {
            return Err(DiceError::UnexpectedNode);
        }
        proof {
            lemma_nodes_view(inner.children@);
        }
        let last = &inner.children[inner.children.len() - 1];
        match parse_i32(last.text.as_str()) {
            Some(v) => Ok(DiceModifier::Group { threshold: v, show_structure: show }),
            None => Err(DiceError::InvalidInteger(IntField::GroupThreshold)),
        }
    }

    /// Resolves one modifier node to its `DiceModifier`, dispatching on
    /// the node's single child; unknown tags fail, parameterized
    /// modifiers read exactly one integer child.
    pub fn parse_modifier(pair: &ParseNode) -> (r: Result<DiceModifier, DiceError>)
        ensures
            mod_result_view(r) == spec_modifier(pair@),
    {
        if !(pair.tag == RuleTag::Modifier) {
            return Err(DiceError::UnexpectedNode);
        }
        if pair.children.len() == 0 {
            return Err(DiceError::UnexpectedNode);
        }
        proof {
            lemma_nodes_view(pair.children@);
        }
        let inner = &pair.children[0];
        match inner.tag {
            RuleTag::Explode => Ok(DiceModifier::Explode),
            RuleTag::ExplodeAlias => Ok(DiceModifier::ExplodeAlias),
            RuleTag::ExplodeKeepHigh => Ok(
                DiceModifier::ExplodeKeepHigh(
                    Self::modifier_operand(inner, IntField::ExplodeKeepHigh)?,
                ),
            ),
            RuleTag::Reroll => Ok(DiceModifier::Reroll(Self::modifier_operand(inner, IntField::Reroll)?)),
            RuleTag::RerollOnce => Ok(
                DiceModifier::RerollOnce(Self::modifier_operand(inner, IntField::RerollOnce)?),
            ),
            RuleTag::RerollUntil => Ok(
                DiceModifier::RerollUntil(Self::modifier_operand(inner, IntField::RerollUntil)?),
            ),
            RuleTag::RerollAdd => Ok(
                DiceModifier::RerollAndAdd(Self::modifier_operand(inner, IntField::RerollAndAdd)?),
            ),
            RuleTag::KeepAlias => Ok(
                DiceModifier::KeepAlias(Self::modifier_operand(inner, IntField::KeepAlias)?),
            ),
            RuleTag::KeepHigh => Ok(
                DiceModifier::KeepHigh(Self::modifier_operand(inner, IntField::KeepHigh)?),
            ),
            RuleTag::KeepLow => Ok(
                DiceModifier::KeepLow(Self::modifier_operand(inner, IntField::KeepLow)?),
            ),
            RuleTag::DropHigh => Ok(
                DiceModifier::DropHigh(Self::modifier_operand(inner, IntField::DropHigh)?),
            ),
            RuleTag::DropLow => Ok(
                DiceModifier::DropLow(Self::modifier_operand(inner, IntField::DropLow)?),
            ),
            RuleTag::Unique => Ok(DiceModifier::Unique),
            RuleTag::Sort => Ok(DiceModifier::Sort),
            RuleTag::Count => Ok(
                DiceModifier::Count(Self::modifier_operand(inner, IntField::Count)?),
            ),
            RuleTag::Merge => Ok(DiceModifier::Merge),
            RuleTag::Group => Self::group_modifier(inner),
            _ => Err(DiceError::UnknownModifier),
        }
    }

    /// Resolves every child of a modifier-list node, in order; the first
    /// failure aborts the list.
    pub fn parse_modifier_list(pair: &ParseNode) -> (r: Result<Vec<DiceModifier>, DiceError>)
        ensures
            match r {
                Ok(ms) => spec_modifiers(pair@.children) == Ok::<Seq<DiceModifier>, ErrorV>(ms@),
                Err(e) => spec_modifiers(pair@.children) == Err::<Seq<DiceModifier>, ErrorV>(e@),
            },
    {
        proof {
            lemma_nodes_view(pair.children@);
        }
        let ghost chv = pair@.children;
        let n = pair.children.len();
        let mut ms: Vec<DiceModifier> = Vec::new();
        let mut i: usize = 0;
        proof {
            assert(chv.subrange(0, n as int) =~= chv);
            assert(ms@ + spec_modifiers(chv)->Ok_0 =~= spec_modifiers(chv)->Ok_0);
        }
        while i < n
            invariant
                i <= n,
                n == pair.children.len(),
                chv == pair@.children,
                chv.len() == n,
                forall|k: int| 0 <= k < n ==> chv[k] == node_view(#[trigger] pair.children@[k]),
                spec_modifiers(chv) == spec_modifiers_with(ms@, chv.subrange(i as int, n as int)),
            decreases n - i,
        {
            let ghost rem = chv.subrange(i as int, n as int);
            proof {
                assert(rem[0] == chv[i as int]);
                assert(rem.drop_first() =~= chv.subrange(i + 1, n as int));
            }
            let m = match Self::parse_modifier(&pair.children[i]) {
                Ok(m) => m,
                Err(e) => {
                    return Err(e);
                },
            };
            let ghost old_ms = ms@;
            ms.push(m);
            i = i + 1;
            proof {
                if spec_modifiers(chv.subrange(i as int, n as int)) is Ok {
                    let rest = spec_modifiers(chv.subrange(i as int, n as int))->Ok_0;
                    assert(old_ms + (seq![m] + rest) =~= ms@ + rest);
                }
            }
        }
        proof {
            assert(chv.subrange(n as int, n as int) =~= Seq::<NodeV>::empty());
            assert(ms@ + Seq::<DiceModifier>::empty() =~= ms@);
        }
        Ok(ms)
    }

    /// Builds a dice-roll node: count then sides from the two leading
    /// children, each with its own field error, then an optional trailing
    /// modifier list.
    pub fn parse_dice_roll(pair: &ParseNode) -> (r: Result<Expression, DiceError>)
        ensures
            expr_result_view(r) == spec_roll(pair@),
    {
        proof {
            lemma_nodes_view(pair.children@);
        }
        if pair.children.len() < 2 {
            return Err(DiceError::UnexpectedNode);
        }
        let count = match parse_i32(pair.children[0].text.as_str()) {
            Some(v) => v,
            None => {
                return Err(DiceError::InvalidInteger(IntField::DiceCount));
            },
        };
        let sides = match parse_i32(pair.children[1].text.as_str()) {
            Some(v) => v,
            None => {
                return Err(DiceError::InvalidInteger(IntField::DiceSides));
            },
        };
        let mut modifiers: Vec<DiceModifier> = Vec::new();
        if pair.children.len() >= 3 {
            modifiers = Self::parse_modifier_list(&pair.children[2])?;
        }
        Ok(Expression::DiceRoll(DiceRoll { count, sides, modifiers }))
    }

    /// Builds a variable reference: the index follows the leading marker
    /// and must be a positive integer; an optional second child holds the
    /// reference's own modifiers.
    pub fn parse_var_ref(inner: &ParseNode) -> (r: Result<Expression, DiceError>)
        ensures
            expr_result_view(r) == spec_var_ref(inner@),
    {
        if inner.children.len() == 0 {
            return Err(DiceError::UnexpectedNode);
        }
        proof {
            lemma_nodes_view(inner.children@);
        }
        let stripped = strip_leading_char(inner.children[0].text.as_str(), '$');
        let v = match parse_i32(stripped) {
            Some(v) => v,
            None => {
                return Err(DiceError::InvalidInteger(IntField::VariableIndex));
            },
        };
        if v <= 0 {
            return Err(DiceError::NonPositiveVariableRef);
        }
        let mut modifiers: Vec<DiceModifier> = Vec::new();
        if inner.children.len() >= 2 {
            modifiers = Self::parse_modifier_list(&inner.children[1])?;
        }
        Ok(Expression::VariableRefWithModifiers(v as usize, modifiers))
    }

    /// Combines two built operands under an operator node's literal text;
    /// any text other than the five operators is an unknown-operator
    /// error carrying that text.
    fn combine_op(p: &ParseNode, l: Expression, right: Expression) -> (res: Result<
        Expression,
        DiceError,
    >)
        ensures
            expr_result_view(res) == spec_combine(p@.text, expr_view(l), expr_view(right)),
    {
        let t = p.text.as_str();
        if t.unicode_len() == 1 {
            let c = t.get_char(0);
            if c == '+' {
                proof {
                    assert(p@.text =~= seq!['+']);
                }
                return Ok(Expression::Add(Box::new(l), Box::new(right)));
            }
            if c == '-' {
                proof {
                    assert(p@.text =~= seq!['-']);
                }
                return Ok(Expression::Subtract(Box::new(l), Box::new(right)));
            }
            if c == '*' {
                proof {
                    assert(p@.text =~= seq!['*']);
                }
                return Ok(Expression::Multiply(Box::new(l), Box::new(right)));
            }
            if c == '/' {
                proof {
                    assert(p@.text =~= seq!['/']);
                }
                return Ok(Expression::Divide(Box::new(l), Box::new(right)));
            }
            if c == '^' {
                proof {
                    assert(p@.text =~= seq!['^']);
                }
                return Ok(Expression::Power(Box::new(l), Box::new(right)));
            }
        }
        Err(DiceError::UnknownOperator(p.text.clone()))
    }

    /// Builds a dice-term node: a dice roll, a parenthesized expression
    /// wrapped in `Paren`, or a number literal; any other child tag is an
    /// invalid dice term.
    pub fn parse_dice_term(pair: &ParseNode) -> (r: Result<Expression, DiceError>)
        ensures
            expr_result_view(r) == spec_term(pair@),
        decreases pair, 0int, 0int,
    {
        if !(pair.tag == RuleTag::DiceTerm) {
            return Err(DiceError::UnexpectedNode);
        }
        if pair.children.len() == 0 {
            return Err(DiceError::UnexpectedNode);
        }
        proof {
            lemma_nodes_view(pair.children@);
        }
        let inner = &pair.children[0];
        match inner.tag {
            RuleTag::DiceRoll => Self::parse_dice_roll(inner),
            RuleTag::ParenExpr => {
                if inner.children.len() == 0 {
                    return Err(DiceError::UnexpectedNode);
                }
                proof {
                    lemma_nodes_view(inner.children@);
                }
                let e = match Self::parse_dice_expr(&inner.children[0]) {
                    Ok(e) => e,
                    Err(err) => {
                        return Err(err);
                    },
                };
                Ok(Expression::Paren(Box::new(e)))
            },
            RuleTag::Number => match parse_i32(inner.text.as_str()) {
                Some(v) => Ok(Expression::Number(v)),
                None => Err(DiceError::InvalidInteger(IntField::NumberLiteral)),
            },
            _ => Err(DiceError::InvalidDiceTerm),
        }
    }

    /// Builds an expression from any node the walk can meet, dispatching
    /// on its tag; a dice-expression node is folded left-to-right over
    /// its operator, term and comment children.
    pub fn parse_dice_expr(pair: &ParseNode) -> (r: Result<Expression, DiceError>)
        ensures
            expr_result_view(r) == spec_expr(pair@),
        decreases pair, (if pair.tag == RuleTag::InstructionList { 2int } else { 0int }), 0int,
    {
        match pair.tag {
            RuleTag::Main => {
                if pair.children.len() == 0 {
                    return Err(DiceError::UnexpectedNode);
                }
                proof {
                    lemma_nodes_view(pair.children@);
                }
                Self::parse_instruction_list(&pair.children[0])
            },
            RuleTag::InstructionList => Self::parse_instruction_list(pair),
            RuleTag::Instruction => {
                if pair.children.len() == 0 {
                    return Err(DiceError::UnexpectedNode);
                }
                proof {
                    lemma_nodes_view(pair.children@);
                }
                let inner = &pair.children[0];
                if inner.tag == RuleTag::VarRef {
                    Self::parse_var_ref(inner)
                } else {
                    Self::parse_dice_expr(inner)
                }
            },
            RuleTag::DiceExpr => {
                if pair.children.len() == 0 {
                    return Err(DiceError::UnexpectedNode);
                }
                proof {
                    lemma_nodes_view(pair.children@);
                }
                let ghost chv = pair@.children;
                let mut expr = match Self::parse_dice_term(&pair.children[0]) {
                    Ok(e) => e,
                    Err(err) => {
                        return Err(err);
                    },
                };
                let n = pair.children.len();
                let mut i: usize = 1;
                while i < n
                    invariant
                        1 <= i <= n,
                        n == pair.children.len(),
                        chv == pair@.children,
                        chv.len() == n,
                        pair.tag == RuleTag::DiceExpr,
                        forall|k: int|
                            0 <= k < n ==> chv[k] == node_view(#[trigger] pair.children@[k]),
                        spec_expr(pair@) == spec_fold(chv, i as int, expr_view(expr)),
                    decreases n - i,
                {
                    let p = &pair.children[i];
                    if p.tag == RuleTag::Op {
                        if i + 1 >= n {
                            return Err(DiceError::UnexpectedNode);
                        }
                        let right = match Self::parse_dice_term(&pair.children[i + 1]) {
                            Ok(e) => e,
                            Err(err) => {
                                return Err(err);
                            },
                        };
                        let combined = match Self::combine_op(p, expr, right) {
                            Ok(e) => e,
                            Err(err) => {
                                return Err(err);
                            },
                        };
                        expr = combined;
                        i = i + 2;
                    } else if p.tag == RuleTag::Comment {
                        let copt = match Self::parse_comment(p) {
                            Ok(c) => c,
                            Err(err) => {
                                return Err(err);
                            },
                        };
                        match copt {
                            Some(text) => {
                                expr = Expression::WithComment(Box::new(expr), Some(text));
                            },
                            None => {},
                        }
                        i = i + 1;
                    } else {
                        i = i + 1;
                    }
                }
                Ok(expr)
            },
            _ => Err(DiceError::UnexpectedNode),
        }
    }

    /// Builds one expression per instruction child of an instruction-list
    /// node, in source order: a single instruction is returned bare, two
    /// or more become a `Sequence`. Any other node is re-dispatched.
    pub fn parse_instruction_list(pair: &ParseNode) -> (r: Result<Expression, DiceError>)
        ensures
            expr_result_view(r) == spec_list(pair@),
        decreases pair, 1int, 0int,
    {
        if !(pair.tag == RuleTag::InstructionList) {
            return Self::parse_dice_expr(pair);
        }
        proof {
            lemma_nodes_view(pair.children@);
        }
        let ghost chv = pair@.children;
        let n = pair.children.len();
        let mut exprs: Vec<Expression> = Vec::new();
        let mut i: usize = 0;
        proof {
            assert(chv.subrange(0, n as int) =~= chv);
            crate::ast::lemma_exprs_view(exprs@);
            assert(exprs_view(exprs@) + spec_instrs(chv)->Ok_0 =~= spec_instrs(chv)->Ok_0);
        }
        while i < n
            invariant
                i <= n,
                n == pair.children.len(),
                chv == pair@.children,
                chv.len() == n,
                pair.tag == RuleTag::InstructionList,
                forall|k: int| 0 <= k < n ==> chv[k] == node_view(#[trigger] pair.children@[k]),
                spec_instrs(chv) == spec_instrs_with(
                    exprs_view(exprs@),
                    chv.subrange(i as int, n as int),
                ),
            decreases n - i,
        {
            let ghost rem = chv.subrange(i as int, n as int);
            proof {
                assert(rem[0] == chv[i as int]);
                assert(rem.drop_first() =~= chv.subrange(i + 1, n as int));
            }
            let p = &pair.children[i];
            if p.tag == RuleTag::Instruction {
                let e = match Self::parse_dice_expr(p) {
                    Ok(e) => e,
                    Err(err) => {
                        return Err(err);
                    },
                };
                let ghost old_exprs = exprs@;
                exprs.push(e);
                proof {
                    crate::ast::lemma_exprs_view(old_exprs);
                    crate::ast::lemma_exprs_view(exprs@);
                    assert forall|k: int| 0 <= k < exprs@.len() implies exprs_view(exprs@)[k] == (
                    exprs_view(old_exprs) + seq![expr_view(e)])[k] by {
                        assert(exprs_view(exprs@)[k] == expr_view(exprs@[k]));
                        if k < old_exprs.len() {
                            assert(exprs@[k] == old_exprs[k]);
                            assert(exprs_view(old_exprs)[k] == expr_view(old_exprs[k]));
                        } else {
                            assert(exprs@[k] == e);
                        }
                    }
                    assert(exprs_view(exprs@) =~= exprs_view(old_exprs) + seq![expr_view(e)]);
                    if spec_instrs(chv.subrange(i + 1, n as int)) is Ok {
                        let rest = spec_instrs(chv.subrange(i + 1, n as int))->Ok_0;
                        assert(exprs_view(old_exprs) + (seq![expr_view(e)] + rest)
                            =~= exprs_view(exprs@) + rest);
                    }
                }
            }
            i = i + 1;
        }
        proof {
            assert(chv.subrange(n as int, n as int) =~= Seq::<NodeV>::empty());
            assert(exprs_view(exprs@) + Seq::<ExprV>::empty() =~= exprs_view(exprs@));
            crate::ast::lemma_exprs_view(exprs@);
        }
        if exprs.len() == 1 {
            let e = exprs.remove(0);
            Ok(e)
        } else {
            Ok(Expression::Sequence(exprs))
        }
    }

    /// Parses a whole input string: the recognizer matches the grammar,
    /// then the builder assembles the tree. The result is pinned in both
    /// directions: on input the grammar matches, it is exactly the build
    /// of the (unique) parse tree; on input it does not, it is a syntax
    /// error. An input without the `;` separator never yields a
    /// `Sequence`, and an input with separators yields a `Sequence`
    /// holding one expression per instruction, in source order.
    pub fn parse_expression(input: &str) -> (r: Result<Expression, DiceError>)
        ensures
            spec_recognize(input@) is Some ==> expr_result_view(r) == spec_list(
                spec_recognize(input@)->Some_0,
            ),
            spec_recognize(input@) is None ==> r is Err && r->Err_0@ is Syntax,
            match r {
                Ok(e) => {
                    &&& count_semis(input@) == 0 ==> !(expr_view(e) is Sequence)
                    &&& count_semis(input@) > 0 ==> expr_view(e) is Sequence && expr_view(
                        e,
                    )->Sequence_0.len() == count_semis(input@) + 1
                },
                Err(_) => true,
            },
    {
        let t = match crate::lexer::recognize(input) {
            Ok(t) => t,
            Err(e) => {
                return Err(e);
            },
        };
        let r = Self::parse_instruction_list(&t);
        proof {
            let tv = t@;
            let il = tv.children[0];
            lemma_instruction_order(il.children);
            assert(spec_list(tv) == spec_expr(tv));
            assert(spec_expr(tv) == spec_list(il));
            match spec_instrs(il.children) {
                Ok(es) => {
                    assert(es.len() == count_semis(input@) + 1);
                    if es.len() == 1 {
                        assert(spec_list(il) == Ok::<ExprV, ErrorV>(es[0]));
                        assert(!(es[0] is Sequence));
                    } else {
                        assert(spec_list(il) == Ok::<ExprV, ErrorV>(ExprV::Sequence(es)));
                    }
                },
                Err(_) => {
                    assert(spec_list(il) is Err);
                },
            }
        }
        r
    }
}

/// An operator text the builder knows how to combine under.
pub open spec fn is_known_op(t: Seq<char>) -> bool {
    t == seq!['+'] || t == seq!['-'] || t == seq!['*'] || t == seq!['/'] || t == seq!['^']
}

/// A successful dice term is never a `Sequence` (it is a dice roll, a
/// parenthesized expression, or a number).
proof fn lemma_term_not_sequence(n: NodeV)
    ensures
        spec_term(n) is Ok ==> !(spec_term(n)->Ok_0 is Sequence),
{
}

/// Folding operators and comments onto an accumulated expression that is
/// not a `Sequence` never produces a `Sequence`.
proof fn lemma_fold_not_sequence(ch: Seq<NodeV>, i: int, acc: ExprV)
    requires
        !(acc is Sequence),
    ensures
        spec_fold(ch, i, acc) is Ok ==> !(spec_fold(ch, i, acc)->Ok_0 is Sequence),
    decreases ch, 0int, ch.len() - i,
{
    if 0 <= i < ch.len() {
        let p = ch[i];
        if p.tag == RuleTag::Op {
            if i + 1 < ch.len() {
                match spec_term(ch[i + 1]) {
                    Ok(right) => {
                        match spec_combine(p.text, acc, right) {
                            Ok(combined) => {
                                lemma_fold_not_sequence(ch, i + 2, combined);
                            },
                            Err(_) => {},
                        }
                    },
                    Err(_) => {},
                }
            }
        } else if p.tag == RuleTag::Comment {
            match spec_comment_text(p.text) {
                Some(c) => {
                    lemma_fold_not_sequence(
                        ch,
                        i + 1,
                        ExprV::WithComment(Box::new(acc), Some(c)),
                    );
                },
                None => {
                    lemma_fold_not_sequence(ch, i + 1, acc);
                },
            }
        } else {
            lemma_fold_not_sequence(ch, i + 1, acc);
        }
    }
}

/// A single successfully built instruction is never a `Sequence`: it is a
/// variable reference or a dice expression, and dice expressions fold
/// into arithmetic, roll, paren, number or comment-wrapped nodes only.
pub proof fn lemma_instruction_not_sequence(p: NodeV)
    requires
        crate::lexer::instr_shaped(p),
    ensures
        spec_expr(p) is Ok ==> !(spec_expr(p)->Ok_0 is Sequence),
{
    let inner = p.children[0];
    assert(spec_expr(p) == (if inner.tag == RuleTag::VarRef {
        spec_var_ref(inner)
    } else {
        spec_expr(inner)
    }));
    if inner.tag == RuleTag::VarRef {
        if inner.children.len() > 0 {
            match spec_parse_i32(strip_leading(inner.children[0].text, '$')) {
                Some(v) => {
                    assert(spec_var_ref(inner) is Ok ==> !(spec_var_ref(inner)->Ok_0
                        is Sequence));
                },
                None => {},
            }
        }
    } else {
        assert(inner.tag == RuleTag::DiceExpr);
        if inner.children.len() > 0 {
            match spec_term(inner.children[0]) {
                Ok(first) => {
                    lemma_term_not_sequence(inner.children[0]);
                    lemma_fold_not_sequence(inner.children, 1, first);
                    assert(spec_expr(inner) == spec_fold(inner.children, 1, first));
                },
                Err(_) => {},
            }
        }
    }
}

/// Instruction-list assembly preserves count and source order: when every
/// child is an instruction as the grammar shapes it, a successful build
/// yields exactly one expression per child, and the i-th expression is
/// the build of the i-th instruction.
pub proof fn lemma_instruction_order(ch: Seq<NodeV>)
    requires
        forall|i: int| 0 <= i < ch.len() ==> crate::lexer::instr_shaped(#[trigger] ch[i]),
    ensures
        spec_instrs(ch) is Ok ==> {
            let es = spec_instrs(ch)->Ok_0;
            &&& es.len() == ch.len()
            &&& (forall|i: int|
                0 <= i < ch.len() ==> spec_expr(#[trigger] ch[i]) is Ok && es[i] == spec_expr(
                    ch[i],
                )->Ok_0)
            &&& (forall|i: int| 0 <= i < es.len() ==> !(#[trigger] es[i] is Sequence))
        },
    decreases ch, 0int, 0int,
{
    if ch.len() > 0 {
        assert(forall|i: int|
            0 <= i < ch.drop_first().len() ==> #[trigger] ch.drop_first()[i] == ch[i + 1]);
        lemma_instruction_order(ch.drop_first());
        lemma_instruction_not_sequence(ch[0]);
        if spec_instrs(ch) is Ok {
            let es = spec_instrs(ch)->Ok_0;
            let rest = spec_instrs(ch.drop_first())->Ok_0;
            assert(es == seq![spec_expr(ch[0])->Ok_0] + rest);
            assert forall|i: int|
                0 <= i < ch.len() implies spec_expr(#[trigger] ch[i]) is Ok && es[i] == spec_expr(
                ch[i],
            )->Ok_0 by {
                if i > 0 {
                    assert(ch.drop_first()[i - 1] == ch[i]);
                    assert(es[i] == rest[i - 1]);
                }
            }
            assert forall|i: int| 0 <= i < es.len() implies !(#[trigger] es[i] is Sequence) by {
                lemma_instruction_not_sequence(ch[i]);
            }
        }
    }
}

/// Arithmetic folding is left-to-right: with terms `a op1 b op2 c` the
/// result nests the first combination inside the second, never the other
/// way around.
pub proof fn lemma_fold_left_to_right(n: NodeV)
    requires
        n.tag == RuleTag::DiceExpr,
        n.children.len() == 5,
        n.children[1].tag == RuleTag::Op,
        n.children[3].tag == RuleTag::Op,
        is_known_op(n.children[1].text),
        is_known_op(n.children[3].text),
        spec_term(n.children[0]) is Ok,
        spec_term(n.children[2]) is Ok,
        spec_term(n.children[4]) is Ok,
        n.children[2].tag == RuleTag::DiceTerm,
        n.children[4].tag == RuleTag::DiceTerm,
    ensures
        spec_expr(n) == Ok::<ExprV, ErrorV>(
            spec_combine(
                n.children[3].text,
                spec_combine(
                    n.children[1].text,
                    spec_term(n.children[0])->Ok_0,
                    spec_term(n.children[2])->Ok_0,
                )->Ok_0,
                spec_term(n.children[4])->Ok_0,
            )->Ok_0,
        ),
{
    let ch = n.children;
    let a = spec_term(ch[0])->Ok_0;
    let b = spec_term(ch[2])->Ok_0;
    let c = spec_term(ch[4])->Ok_0;
    assert(spec_combine(ch[1].text, a, b) is Ok);
    let ab = spec_combine(ch[1].text, a, b)->Ok_0;
    assert(spec_combine(ch[3].text, ab, c) is Ok);
    let abc = spec_combine(ch[3].text, ab, c)->Ok_0;
    assert(spec_fold(ch, 5, abc) == Ok::<ExprV, ErrorV>(abc));
    assert(spec_fold(ch, 3, ab) == spec_fold(ch, 5, abc));
    assert(spec_fold(ch, 1, a) == spec_fold(ch, 3, ab));
    assert(spec_expr(n) == spec_fold(ch, 1, a));
}

/// Parenthesization is preserved: a term holding a parenthesized
/// expression builds to a `Paren` node around the inner expression; the
/// wrapper is never collapsed.
pub proof fn lemma_paren_preserved(n: NodeV)
    requires
        n.tag == RuleTag::DiceTerm,
        n.children.len() >= 1,
        n.children[0].tag == RuleTag::ParenExpr,
        n.children[0].children.len() >= 1,
        spec_expr(n.children[0].children[0]) is Ok,
    ensures
        spec_term(n) == Ok::<ExprV, ErrorV>(
            ExprV::Paren(Box::new(spec_expr(n.children[0].children[0])->Ok_0)),
        ),
{
}

/// A comment whose text trims to nothing is a no-op: the accumulated
/// expression is left unwrapped. A non-empty comment wraps it in
/// `WithComment` carrying the trimmed text.
pub proof fn lemma_comment_attachment(ch: Seq<NodeV>, i: int, acc: ExprV)
    requires
        0 <= i < ch.len(),
        ch[i].tag == RuleTag::Comment,
    ensures
        spec_comment_text(ch[i].text) is None ==> spec_fold(ch, i, acc) == spec_fold(
            ch,
            i + 1,
            acc,
        ),
        spec_comment_text(ch[i].text) is Some ==> spec_fold(ch, i, acc) == spec_fold(
            ch,
            i + 1,
            ExprV::WithComment(Box::new(acc), Some(spec_comment_text(ch[i].text)->Some_0)),
        ),
{
}

/// A variable reference whose index reads as an integer at most zero
/// fails with the non-positive-index error, whatever follows it.
pub proof fn lemma_var_ref_nonpositive(inner: NodeV)
    requires
        inner.children.len() >= 1,
        spec_parse_i32(strip_leading(inner.children[0].text, '$')) is Some,
        spec_parse_i32(strip_leading(inner.children[0].text, '$'))->Some_0 <= 0,
    ensures
        spec_var_ref(inner) == Err::<ExprV, ErrorV>(ErrorV::NonPositiveVariableRef),
{
}

/// The group modifier reads its flag from the matched text alone — set
/// exactly when the text begins with the two-character `gs` marker — and
/// its threshold from the last child alone, regardless of how many other
/// children precede it.
pub proof fn lemma_group_threshold(inner: NodeV)
    requires
        inner.children.len() >= 1,
        spec_parse_i32(inner.children.last().text) is Some,
    ensures
        spec_group(inner) == Ok::<DiceModifier, ErrorV>(
            DiceModifier::Group {
                threshold: spec_parse_i32(inner.children.last().text)->Some_0,
                show_structure: inner.text.len() >= 2 && inner.text[0] == 'g' && inner.text[1]
                    == 's',
            },
        ),
{
}

/// An invalid integer in the dice-sides field fails with the
/// sides-specific error, not a generic one: field-specific integer
/// errors are part of each builder's exact contract.
pub proof fn lemma_invalid_sides_field_error(n: NodeV)
    requires
        n.children.len() >= 2,
        spec_parse_i32(n.children[0].text) is Some,
        spec_parse_i32(n.children[1].text) is None,
    ensures
        spec_roll(n) == Err::<ExprV, ErrorV>(ErrorV::InvalidInteger(IntField::DiceSides)),
{
}

} // verus!
