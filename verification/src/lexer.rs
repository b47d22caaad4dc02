//! The grammar recognizer: matches dice notation and produces the typed
//! parse tree that the AST builder consumes.
//!
//! The grammar, in PEG style (ordered choice, no backtracking across
//! instructions):
//!
//! ```text
//! main             = ws instruction_list ws end-of-input
//! instruction_list = instruction (ws ";" ws instruction)*
//! instruction      = var_ref / dice_expr
//! var_ref          = "$" number modifier_list?
//! dice_expr        = dice_term (ws op ws dice_term)* (ws comment)?
//! op               = "+" / "-" / "*" / "/" / "^"
//! dice_term        = dice_roll / paren_expr / number
//! dice_roll        = number "d" number modifier_list?
//! paren_expr       = "(" ws dice_expr ws ")"
//! number           = "-"? digit+
//! comment          = "#" (any character but ";")*
//! modifier_list    = modifier+
//! modifier         = "!k" number / "!" / "e" / "ro" number / "ru" number
//!                  / "ra" number / "r" number / "kh" number / "kl" number
//!                  / "k" number / "dh" number / "dl" number / "u" / "s"
//!                  / "c" number / "m" / "gs" number / "g" number
//! ```
//!
//! A `;` can only ever be an instruction separator: comments stop at it
//! and no other rule admits it. On success the recognizer therefore
//! returns an instruction list with exactly one instruction more than the
//! input has semicolons.
//!
//! The whole match is pinned by a spec-level mirror: `recognize` returns
//! `Ok(t)` with `spec_recognize(input@) == Some(t@)`, and `Err` exactly
//! when `spec_recognize(input@)` is `None`, with a diagnostic naming the
//! character position where matching stopped.

use vstd::prelude::*;

use crate::ast::DiceError;
use crate::num::is_digit;
use crate::text::is_space;
use crate::tree::NodeV;
use crate::tree::ParseNode;
use crate::tree::RuleTag;
use crate::tree::lemma_nodes_view;
use crate::tree::node_view;
use crate::tree::nodes_view;

verus! {

/// No character of `s` in `[a, b)` is a semicolon.
pub open spec fn no_semi(s: Seq<char>, a: int, b: int) -> bool {
    forall|k: int| a <= k < b ==> s[k] != ';'
}

/// The number of semicolons in `s`.
pub open spec fn count_semis(s: Seq<char>) -> int
    decreases s,
{
    if s.len() == 0 {
        0
    } else {
        count_semis(s.drop_last()) + if s.last() == ';' {
            1int
        } else {
            0int
        }
    }
}

/// Counting semicolons splits over adjacent ranges.
proof fn lemma_count_split(s: Seq<char>, a: int, b: int, c: int)
    requires
        0 <= a <= b <= c <= s.len(),
    ensures
        count_semis(s.subrange(a, c)) == count_semis(s.subrange(a, b)) + count_semis(
            s.subrange(b, c),
        ),
    decreases c - b,
{
    if b == c {
        assert(s.subrange(b, c) =~= Seq::<char>::empty());
        assert(s.subrange(a, b) =~= s.subrange(a, c));
    } else {
        lemma_count_split(s, a, b, c - 1);
        assert(s.subrange(a, c).drop_last() =~= s.subrange(a, c - 1));
        assert(s.subrange(b, c).drop_last() =~= s.subrange(b, c - 1));
        assert(s.subrange(a, c).last() == s[c - 1]);
        assert(s.subrange(b, c).last() == s[c - 1]);
    }
}

/// A range without semicolons counts zero.
proof fn lemma_count_none(s: Seq<char>, a: int, b: int)
    requires
        0 <= a <= b <= s.len(),
        no_semi(s, a, b),
    ensures
        count_semis(s.subrange(a, b)) == 0,
    decreases b - a,
{
    if a < b {
        lemma_count_none(s, a, b - 1);
        assert(s.subrange(a, b).drop_last() =~= s.subrange(a, b - 1));
        assert(s.subrange(a, b).last() == s[b - 1]);
    } else {
        assert(s.subrange(a, b) =~= Seq::<char>::empty());
    }
}

/// The shape every instruction node out of the recognizer has.
pub open spec fn instr_shaped(p: NodeV) -> bool {
    &&& p.tag == RuleTag::Instruction
    &&& p.children.len() == 1
    &&& (p.children[0].tag == RuleTag::DiceExpr || p.children[0].tag == RuleTag::VarRef)
}

/// What the recognizer guarantees of a tree built from `input`: a `main`
/// node over one instruction list whose instructions are all shaped as
/// the grammar produces them, one instruction more than the input has
/// semicolons.
pub open spec fn rec_wf(input: Seq<char>, t: NodeV) -> bool {
    &&& t.tag == RuleTag::Main
    &&& t.children.len() == 1
    &&& t.children[0].tag == RuleTag::InstructionList
    &&& t.children[0].children.len() == count_semis(input) + 1
    &&& (forall|i: int|
        0 <= i < t.children[0].children.len() ==> instr_shaped(#[trigger] t.children[0].children[i]))
}

/// The first position at or after `i` holding a non-whitespace
/// character, or the end of input.
pub open spec fn ws_end(s: Seq<char>, i: int) -> int
    decreases s.len() - i,
{
    if 0 <= i && i < s.len() && is_space(s[i]) {
        ws_end(s, i + 1)
    } else {
        i
    }
}

/// The first position at or after `i` holding a non-digit, or the end of
/// input.
pub open spec fn digits_end(s: Seq<char>, i: int) -> int
    decreases s.len() - i,
{
    if 0 <= i && i < s.len() && is_digit(s[i]) {
        digits_end(s, i + 1)
    } else {
        i
    }
}

/// The first position at or after `i` holding a semicolon, or the end of
/// input.
pub open spec fn semi_end(s: Seq<char>, i: int) -> int
    decreases s.len() - i,
{
    if 0 <= i && i < s.len() && s[i] != ';' {
        semi_end(s, i + 1)
    } else {
        i
    }
}

/// An operator character.
pub open spec fn is_op_char(c: char) -> bool {
    c == '+' || c == '-' || c == '*' || c == '/' || c == '^'
}

/// View of a recognizer result: the node's view and the next position.
pub open spec fn opt_node_view(r: Option<(ParseNode, usize)>) -> Option<(NodeV, int)> {
    match r {
        Some((n, p)) => Some((node_view(n), p as int)),
        None => None,
    }
}

/// A leaf node of the mirror.
pub open spec fn leaf_v(tag: RuleTag, text: Seq<char>) -> NodeV {
    NodeV { tag, text, children: Seq::empty() }
}

/// What matching `number` at `pos` yields: an optional minus sign, then
/// at least one digit, as a number leaf holding the matched text.
pub open spec fn spec_number_tok(s: Seq<char>, pos: int) -> Option<(NodeV, int)> {
    let start = if 0 <= pos && pos < s.len() && s[pos] == '-' {
        pos + 1
    } else {
        pos
    };
    let e = digits_end(s, start);
    if e == start {
        None
    } else {
        Some((leaf_v(RuleTag::Number, s.subrange(pos, e)), e))
    }
}

/// What one parameterized modifier yields: the number at `num_at` as the
/// single child of a node of the given tag, under a modifier node.
pub open spec fn spec_mod_num_tok(s: Seq<char>, pos: int, num_at: int, tag: RuleTag) -> Option<
    (NodeV, int),
> {
    match spec_number_tok(s, num_at) {
        None => None,
        Some((num, p)) => Some(
            (
                NodeV {
                    tag: RuleTag::Modifier,
                    text: Seq::empty(),
                    children: seq![
                        NodeV { tag, text: s.subrange(pos, p), children: seq![num] },
                    ],
                },
                p,
            ),
        ),
    }
}

/// A parameterless modifier spanning `[pos, p)`.
pub open spec fn spec_flat_mod(s: Seq<char>, pos: int, p: int, tag: RuleTag) -> NodeV {
    NodeV {
        tag: RuleTag::Modifier,
        text: Seq::empty(),
        children: seq![leaf_v(tag, s.subrange(pos, p))],
    }
}

/// What matching one `modifier` at `pos` yields, dispatching on its
/// leading characters exactly as the recognizer does.
pub open spec fn spec_modifier_tok(s: Seq<char>, pos: int) -> Option<(NodeV, int)> {
    if !(0 <= pos && pos < s.len()) {
        None
    } else {
        let c = s[pos];
        if c == '!' {
            if pos + 1 < s.len() && s[pos + 1] == 'k' {
                spec_mod_num_tok(s, pos, pos + 2, RuleTag::ExplodeKeepHigh)
            } else {
                Some((spec_flat_mod(s, pos, pos + 1, RuleTag::Explode), pos + 1))
            }
        } else if c == 'e' {
            Some((spec_flat_mod(s, pos, pos + 1, RuleTag::ExplodeAlias), pos + 1))
        } else if c == 'r' {
            if pos + 1 < s.len() && s[pos + 1] == 'o' {
                spec_mod_num_tok(s, pos, pos + 2, RuleTag::RerollOnce)
            } else if pos + 1 < s.len() && s[pos + 1] == 'u' {
                spec_mod_num_tok(s, pos, pos + 2, RuleTag::RerollUntil)
            } else if pos + 1 < s.len() && s[pos + 1] == 'a' {
                spec_mod_num_tok(s, pos, pos + 2, RuleTag::RerollAdd)
            } else {
                spec_mod_num_tok(s, pos, pos + 1, RuleTag::Reroll)
            }
        } else if c == 'k' {
            if pos + 1 < s.len() && s[pos + 1] == 'h' {
                spec_mod_num_tok(s, pos, pos + 2, RuleTag::KeepAlias)
            } else if pos + 1 < s.len() && s[pos + 1] == 'l' {
                spec_mod_num_tok(s, pos, pos + 2, RuleTag::KeepLow)
            } else {
                spec_mod_num_tok(s, pos, pos + 1, RuleTag::KeepHigh)
            }
        } else if c == 'd' {
            if pos + 1 < s.len() && s[pos + 1] == 'h' {
                spec_mod_num_tok(s, pos, pos + 2, RuleTag::DropHigh)
            } else if pos + 1 < s.len() && s[pos + 1] == 'l' {
                spec_mod_num_tok(s, pos, pos + 2, RuleTag::DropLow)
            } else {
                None
            }
        } else if c == 'u' {
            Some((spec_flat_mod(s, pos, pos + 1, RuleTag::Unique), pos + 1))
        } else if c == 's' {
            Some((spec_flat_mod(s, pos, pos + 1, RuleTag::Sort), pos + 1))
        } else if c == 'm' {
            Some((spec_flat_mod(s, pos, pos + 1, RuleTag::Merge), pos + 1))
        } else if c == 'c' {
            spec_mod_num_tok(s, pos, pos + 1, RuleTag::Count)
        } else if c == 'g' {
            if pos + 1 < s.len() && s[pos + 1] == 's' {
                spec_mod_num_tok(s, pos, pos + 2, RuleTag::Group)
            } else {
                spec_mod_num_tok(s, pos, pos + 1, RuleTag::Group)
            }
        } else {
            None
        }
    }
}

/// The modifier nodes matched greedily from `pos`, with the position
/// after the last one. The position guard mirrors that every matched
/// modifier consumes at least one character.
pub open spec fn spec_mods_from(s: Seq<char>, pos: int) -> (Seq<NodeV>, int)
    decreases s.len() - pos,
{
    match spec_modifier_tok(s, pos) {
        None => (Seq::empty(), pos),
        Some((m, p2)) => if pos < p2 && p2 <= s.len() {
            let rest = spec_mods_from(s, p2);
            (seq![m] + rest.0, rest.1)
        } else {
            (Seq::empty(), pos)
        },
    }
}

/// What matching `modifier+` at `pos` yields: no node at all when no
/// modifier starts there, else a modifier-list node over the matches.
pub open spec fn spec_modifier_list_tok(s: Seq<char>, pos: int) -> (Option<NodeV>, int) {
    let r = spec_mods_from(s, pos);
    if r.0.len() == 0 {
        (None, pos)
    } else {
        (Some(NodeV { tag: RuleTag::ModifierList, text: Seq::empty(), children: r.0 }), r.1)
    }
}

/// What matching `var_ref` at `pos` yields: the `$` marker, the index
/// (kept with its marker in the child's text), an optional modifier list.
pub open spec fn spec_var_ref_tok(s: Seq<char>, pos: int) -> Option<(NodeV, int)> {
    if !(0 <= pos && pos < s.len() && s[pos] == '$') {
        None
    } else {
        match spec_number_tok(s, pos + 1) {
            None => None,
            Some((_num, p)) => {
                let tok = leaf_v(RuleTag::Number, s.subrange(pos, p));
                let ml = spec_modifier_list_tok(s, p);
                let children = match ml.0 {
                    Some(m) => seq![tok, m],
                    None => seq![tok],
                };
                Some((NodeV { tag: RuleTag::VarRef, text: Seq::empty(), children }, ml.1))
            },
        }
    }
}

/// What matching `dice_term` at `pos` yields: a parenthesized expression,
/// or a number that a `d` turns into a dice roll. The position guards
/// mirror that every match consumes at least one character.
pub open spec fn spec_term_tok(s: Seq<char>, pos: int) -> Option<(NodeV, int)>
    decreases s.len() - pos, 1int,
{
    if !(0 <= pos && pos < s.len()) {
        None
    } else if s[pos] == '(' {
        let q = ws_end(s, pos + 1);
        if !(pos + 1 <= q && q <= s.len()) {
            None
        } else {
            match spec_expr_tok(s, q) {
                None => None,
                Some((inner, p)) => {
                    let q2 = ws_end(s, p);
                    if 0 <= q2 && q2 < s.len() && s[q2] == ')' {
                        Some(
                            (
                                NodeV {
                                    tag: RuleTag::DiceTerm,
                                    text: Seq::empty(),
                                    children: seq![
                                        NodeV {
                                            tag: RuleTag::ParenExpr,
                                            text: Seq::empty(),
                                            children: seq![inner],
                                        },
                                    ],
                                },
                                q2 + 1,
                            ),
                        )
                    } else {
                        None
                    }
                },
            }
        }
    } else {
        match spec_number_tok(s, pos) {
            None => None,
            Some((count, p)) => if p < s.len() && s[p] == 'd' {
                match spec_number_tok(s, p + 1) {
                    None => None,
                    Some((sides, p2)) => {
                        let ml = spec_modifier_list_tok(s, p2);
                        let roll_children = match ml.0 {
                            Some(m) => seq![count, sides, m],
                            None => seq![count, sides],
                        };
                        Some(
                            (
                                NodeV {
                                    tag: RuleTag::DiceTerm,
                                    text: Seq::empty(),
                                    children: seq![
                                        NodeV {
                                            tag: RuleTag::DiceRoll,
                                            text: Seq::empty(),
                                            children: roll_children,
                                        },
                                    ],
                                },
                                ml.1,
                            ),
                        )
                    },
                }
            } else {
                Some(
                    (
                        NodeV {
                            tag: RuleTag::DiceTerm,
                            text: Seq::empty(),
                            children: seq![count],
                        },
                        p,
                    ),
                )
            },
        }
    }
}

/// The operator-and-term pairs and optional trailing comment matched
/// after a first term, as further children of the dice expression, with
/// the position after them.
pub open spec fn spec_expr_tail(s: Seq<char>, pos: int) -> Option<(Seq<NodeV>, int)>
    decreases s.len() - pos, 0int,
{
    if !(0 <= pos && pos <= s.len()) {
        None
    } else {
        let q = ws_end(s, pos);
        if !(pos <= q && q <= s.len()) {
            None
        } else if q < s.len() && is_op_char(s[q]) {
            let op = leaf_v(RuleTag::Op, s.subrange(q, q + 1));
            let q2 = ws_end(s, q + 1);
            if !(q + 1 <= q2 && q2 <= s.len()) {
                None
            } else {
                match spec_term_tok(s, q2) {
                    None => None,
                    Some((t, p2)) => if q2 < p2 && p2 <= s.len() {
                        match spec_expr_tail(s, p2) {
                            None => None,
                            Some((rest, e)) => Some((seq![op, t] + rest, e)),
                        }
                    } else {
                        None
                    },
                }
            }
        } else if q < s.len() && s[q] == '#' {
            let k = semi_end(s, q + 1);
            Some((seq![leaf_v(RuleTag::Comment, s.subrange(q, k))], k))
        } else if q >= s.len() {
            Some((Seq::empty(), q))
        } else {
            Some((Seq::empty(), pos))
        }
    }
}

/// What matching `dice_expr` at `pos` yields: a first term, then its
/// tail of operator, term and comment children.
pub open spec fn spec_expr_tok(s: Seq<char>, pos: int) -> Option<(NodeV, int)>
    decreases s.len() - pos, 2int,
{
    match spec_term_tok(s, pos) {
        None => None,
        Some((first, p1)) => if pos < p1 && p1 <= s.len() {
            match spec_expr_tail(s, p1) {
                None => None,
                Some((rest, e)) => Some(
                    (
                        NodeV {
                            tag: RuleTag::DiceExpr,
                            text: Seq::empty(),
                            children: seq![first] + rest,
                        },
                        e,
                    ),
                ),
            }
        } else {
            None
        },
    }
}

/// What matching `instruction` at `pos` yields: a variable reference
/// where the marker starts the input, else a dice expression, wrapped in
/// an instruction node.
pub open spec fn spec_instruction_tok(s: Seq<char>, pos: int) -> Option<(NodeV, int)>
    decreases s.len() - pos, 3int,
{
    let inner = if 0 <= pos && pos < s.len() && s[pos] == '$' {
        spec_var_ref_tok(s, pos)
    } else {
        spec_expr_tok(s, pos)
    };
    match inner {
        None => None,
        Some((n, p)) => Some(
            (
                NodeV { tag: RuleTag::Instruction, text: Seq::empty(), children: seq![n] },
                p,
            ),
        ),
    }
}

/// The further instructions matched after the first: each preceded by
/// optional whitespace and a `;`; the match must end at the end of input.
pub open spec fn spec_instrs_from(s: Seq<char>, pos: int) -> Option<Seq<NodeV>>
    decreases s.len() - pos,
{
    if !(0 <= pos && pos <= s.len()) {
        None
    } else {
        let q = ws_end(s, pos);
        if !(pos <= q && q <= s.len()) {
            None
        } else if q < s.len() && s[q] == ';' {
            let q2 = ws_end(s, q + 1);
            if !(q + 1 <= q2 && q2 <= s.len()) {
                None
            } else {
                match spec_instruction_tok(s, q2) {
                    None => None,
                    Some((inst, p2)) => if q2 < p2 && p2 <= s.len() {
                        match spec_instrs_from(s, p2) {
                            None => None,
                            Some(rest) => Some(seq![inst] + rest),
                        }
                    } else {
                        None
                    },
                }
            }
        } else if q >= s.len() {
            Some(Seq::empty())
        } else {
            None
        }
    }
}

/// A `main` node over one instruction list holding `instrs`, for `input`.
pub open spec fn mk_main(input: Seq<char>, instrs: Seq<NodeV>) -> NodeV {
    NodeV {
        tag: RuleTag::Main,
        text: input,
        children: seq![
            NodeV { tag: RuleTag::InstructionList, text: Seq::empty(), children: instrs },
        ],
    }
}

/// What recognizing a whole input yields: `None` exactly when the input
/// does not match the grammar, else the parse tree, pinned node by node.
pub open spec fn spec_recognize(input: Seq<char>) -> Option<NodeV> {
    let p0 = ws_end(input, 0);
    if !(0 <= p0 && p0 <= input.len()) {
        None
    } else {
        match spec_instruction_tok(input, p0) {
            None => None,
            Some((inst, p)) => if p0 < p && p <= input.len() {
                match spec_instrs_from(input, p) {
                    None => None,
                    Some(rest) => Some(mk_main(input, seq![inst] + rest)),
                }
            } else {
                None
            },
        }
    }
}

/// The first position at or after `pos` holding a non-whitespace
/// character, or the end of input.
fn skip_ws(s: &str, pos: usize) -> (p: usize)
    requires
        pos <= s@.len(),
    ensures
        pos <= p <= s@.len(),
        forall|k: int| pos <= k < p ==> is_space(#[trigger] s@[k]),
        p < s@.len() ==> !is_space(s@[p as int]),
        no_semi(s@, pos as int, p as int),
        p == ws_end(s@, pos as int),
{
    let n = s.unicode_len();
    let mut p = pos;
    while p < n
        invariant
            pos <= p <= n,
            n == s@.len(),
            forall|k: int| pos <= k < p ==> is_space(#[trigger] s@[k]),
            ws_end(s@, pos as int) == ws_end(s@, p as int),
        decreases n - p,
    {
        let c = s.get_char(p);
        if !crate::text::is_space_char(c) {
            return p;
        }
        p = p + 1;
    }
    p
}

/// Matches `number`: an optional leading minus sign, then at least one
/// digit; yields a number leaf holding exactly the matched text.
fn rec_number(s: &str, pos: usize) -> (r: Option<(ParseNode, usize)>)
    requires
        pos <= s@.len(),
    ensures
        match r {
            Some((node, p)) => {
                &&& pos < p <= s@.len()
                &&& node@.tag == RuleTag::Number
                &&& no_semi(s@, pos as int, p as int)
            },
            None => true,
        },
        opt_node_view(r) == spec_number_tok(s@, pos as int),
{
    let n = s.unicode_len();
    let mut p = pos;
    if p < n && s.get_char(p) == '-' {
        p = p + 1;
    }
    let digits_start = p;
    let e = scan_digits(s, digits_start);
    if e == digits_start {
        return None;
    }
    proof {
        assert(forall|k: int|
            digits_start <= k < e ==> is_digit(#[trigger] s@[k]) && s@[k] != ';');
    }
    let text = String::from_str(s.substring_char(pos, e));
    Some((ParseNode::leaf(RuleTag::Number, text), e))
}

/// The end of the digit run beginning at `i`.
fn scan_digits(s: &str, i: usize) -> (e: usize)
    requires
        i <= s@.len(),
    ensures
        i <= e <= s@.len(),
        e == digits_end(s@, i as int),
        forall|k: int| i <= k < e ==> is_digit(#[trigger] s@[k]),
{
    let n = s.unicode_len();
    let mut p = i;
    while p < n
        invariant
            i <= p <= n,
            n == s@.len(),
            forall|k: int| i <= k < p ==> is_digit(#[trigger] s@[k]),
            digits_end(s@, i as int) == digits_end(s@, p as int),
        decreases n - p,
    {
        let c = s.get_char(p);
        let code = c as u32;
        if code < 48 || code > 57 {
            return p;
        }
        p = p + 1;
    }
    p
}

/// Matches one parameterized modifier body: a number child under a node
/// of the given tag, wrapped in a modifier node.
fn rec_mod_num(s: &str, pos: usize, num_at: usize, tag: RuleTag) -> (r: Option<(ParseNode, usize)>)
    requires
        pos <= num_at <= s@.len(),
        no_semi(s@, pos as int, num_at as int),
    ensures
        match r {
            Some((node, p)) => {
                &&& num_at < p <= s@.len()
                &&& pos < p
                &&& node@.tag == RuleTag::Modifier
                &&& no_semi(s@, pos as int, p as int)
            },
            None => true,
        },
        opt_node_view(r) == spec_mod_num_tok(s@, pos as int, num_at as int, tag),
{
    let (num, p) = match rec_number(s, num_at) {
        Some(x) => x,
        None => {
            return None;
        },
    };
    let ghost numv = num@;
    let text = String::from_str(s.substring_char(pos, p));
    let mut inner_children: Vec<ParseNode> = Vec::new();
    inner_children.push(num);
    let inner = ParseNode { tag, text, children: inner_children };
    proof {
        lemma_nodes_view(inner.children@);
        assert(inner@.children =~= seq![numv]);
    }
    let ghost innerv = inner@;
    let mut mod_children: Vec<ParseNode> = Vec::new();
    mod_children.push(inner);
    let node = ParseNode { tag: RuleTag::Modifier, text: String::new(), children: mod_children };
    proof {
        lemma_nodes_view(node.children@);
        assert(node@.children =~= seq![innerv]);
    }
    Some((node, p))
}

/// Wraps one parameterless modifier tag in a modifier node.
fn mk_flat_mod(s: &str, pos: usize, p: usize, tag: RuleTag) -> (node: ParseNode)
    requires
        pos <= p <= s@.len(),
    ensures
        node@.tag == RuleTag::Modifier,
        node@ == spec_flat_mod(s@, pos as int, p as int, tag),
{
    let text = String::from_str(s.substring_char(pos, p));
    let inner = ParseNode::leaf(tag, text);
    let ghost innerv = inner@;
    let mut mod_children: Vec<ParseNode> = Vec::new();
    mod_children.push(inner);
    let node = ParseNode { tag: RuleTag::Modifier, text: String::new(), children: mod_children };
    proof {
        lemma_nodes_view(node.children@);
        assert(node@.children =~= seq![innerv]);
    }
    node
}

/// Matches one `modifier`, dispatching on its leading characters.
fn rec_modifier(s: &str, pos: usize) -> (r: Option<(ParseNode, usize)>)
    requires
        pos <= s@.len(),
    ensures
        match r {
            Some((node, p)) => {
                &&& pos < p <= s@.len()
                &&& node@.tag == RuleTag::Modifier
                &&& no_semi(s@, pos as int, p as int)
            },
            None => true,
        },
        opt_node_view(r) == spec_modifier_tok(s@, pos as int),
{
    let n = s.unicode_len();
    if pos >= n {
        return None;
    }
    let c = s.get_char(pos);
    if c == '!' {
        if pos + 1 < n && s.get_char(pos + 1) == 'k' {
            rec_mod_num(s, pos, pos + 2, RuleTag::ExplodeKeepHigh)
        } else {
            Some((mk_flat_mod(s, pos, pos + 1, RuleTag::Explode), pos + 1))
        }
    } else if c == 'e' {
        Some((mk_flat_mod(s, pos, pos + 1, RuleTag::ExplodeAlias), pos + 1))
    } else if c == 'r' {
        if pos + 1 < n && s.get_char(pos + 1) == 'o' {
            rec_mod_num(s, pos, pos + 2, RuleTag::RerollOnce)
        } else if pos + 1 < n && s.get_char(pos + 1) == 'u' {
            rec_mod_num(s, pos, pos + 2, RuleTag::RerollUntil)
        } else if pos + 1 < n && s.get_char(pos + 1) == 'a' {
            rec_mod_num(s, pos, pos + 2, RuleTag::RerollAdd)
        } else {
            rec_mod_num(s, pos, pos + 1, RuleTag::Reroll)
        }
    } else if c == 'k' {
        if pos + 1 < n && s.get_char(pos + 1) == 'h' {
            rec_mod_num(s, pos, pos + 2, RuleTag::KeepAlias)
        } else if pos + 1 < n && s.get_char(pos + 1) == 'l' {
            rec_mod_num(s, pos, pos + 2, RuleTag::KeepLow)
        } else {
            rec_mod_num(s, pos, pos + 1, RuleTag::KeepHigh)
        }
    } else if c == 'd' {
        if pos + 1 < n && s.get_char(pos + 1) == 'h' {
            rec_mod_num(s, pos, pos + 2, RuleTag::DropHigh)
        } else if pos + 1 < n && s.get_char(pos + 1) == 'l' {
            rec_mod_num(s, pos, pos + 2, RuleTag::DropLow)
        } else {
            None
        }
    } else if c == 'u' {
        Some((mk_flat_mod(s, pos, pos + 1, RuleTag::Unique), pos + 1))
    } else if c == 's' {
        Some((mk_flat_mod(s, pos, pos + 1, RuleTag::Sort), pos + 1))
    } else if c == 'm' {
        Some((mk_flat_mod(s, pos, pos + 1, RuleTag::Merge), pos + 1))
    } else if c == 'c' {
        rec_mod_num(s, pos, pos + 1, RuleTag::Count)
    } else if c == 'g' {
        if pos + 1 < n && s.get_char(pos + 1) == 's' {
            rec_mod_num(s, pos, pos + 2, RuleTag::Group)
        } else {
            rec_mod_num(s, pos, pos + 1, RuleTag::Group)
        }
    } else {
        None
    }
}

/// View of a modifier-list match: the optional node's view and the next
/// position.
pub open spec fn opt_mlist_view(r: (Option<ParseNode>, usize)) -> (Option<NodeV>, int) {
    (
        match r.0 {
            Some(node) => Some(node_view(node)),
            None => None,
        },
        r.1 as int,
    )
}

/// Matches `modifier+` greedily; yields no node at all when no modifier
/// starts at `pos`.
fn rec_modifier_list(s: &str, pos: usize) -> (r: (Option<ParseNode>, usize))
    requires
        pos <= s@.len(),
    ensures
        pos <= r.1 <= s@.len(),
        no_semi(s@, pos as int, r.1 as int),
        match r.0 {
            Some(node) => node@.tag == RuleTag::ModifierList && pos < r.1,
            None => r.1 == pos,
        },
        opt_mlist_view(r) == spec_modifier_list_tok(s@, pos as int),
{
    let mut mods: Vec<ParseNode> = Vec::new();
    let mut p = pos;
    loop
        invariant
            pos <= p <= s@.len(),
            no_semi(s@, pos as int, p as int),
            mods@.len() > 0 ==> pos < p,
            mods@.len() == 0 ==> p == pos,
            spec_mods_from(s@, pos as int).0 == nodes_view(mods@) + spec_mods_from(
                s@,
                p as int,
            ).0,
            spec_mods_from(s@, pos as int).1 == spec_mods_from(s@, p as int).1,
        decreases s@.len() - p,
    {
        match rec_modifier(s, p) {
            Some((m, p2)) => {
                let ghost old_mods = mods@;
                let ghost mv = m@;
                mods.push(m);
                proof {
                    lemma_nodes_view(old_mods);
                    lemma_nodes_view(mods@);
                    assert forall|k: int|
                        0 <= k < mods@.len() implies nodes_view(mods@)[k] == (nodes_view(old_mods)
                        + seq![mv])[k] by {
                        assert(nodes_view(mods@)[k] == node_view(mods@[k]));
                        if k < old_mods.len() {
                            assert(mods@[k] == old_mods[k]);
                            assert(nodes_view(old_mods)[k] == node_view(old_mods[k]));
                        }
                    }
                    assert(nodes_view(mods@) =~= nodes_view(old_mods) + seq![mv]);
                    assert(spec_mods_from(s@, p as int).0 =~= seq![mv] + spec_mods_from(
                        s@,
                        p2 as int,
                    ).0);
                    assert((nodes_view(old_mods) + seq![mv]) + spec_mods_from(s@, p2 as int).0
                        =~= nodes_view(old_mods) + (seq![mv] + spec_mods_from(s@, p2 as int).0));
                }
                p = p2;
            },
            None => {
                proof {
                    assert(spec_mods_from(s@, p as int).0 =~= Seq::<NodeV>::empty());
                    assert(nodes_view(mods@) + Seq::<NodeV>::empty() =~= nodes_view(mods@));
                    lemma_nodes_view(mods@);
                }
                if mods.len() == 0 {
                    return (None, p);
                }
                let node = ParseNode {
                    tag: RuleTag::ModifierList,
                    text: String::new(),
                    children: mods,
                };
                proof {
                    lemma_nodes_view(node.children@);
                }
                return (Some(node), p);
            },
        }
    }
}

/// Matches `var_ref`: the `$` marker, the referenced index (kept with its
/// marker in the child's text), and an optional modifier list.
fn rec_var_ref(s: &str, pos: usize) -> (r: Option<(ParseNode, usize)>)
    requires
        pos <= s@.len(),
    ensures
        match r {
            Some((node, p)) => {
                &&& pos < p <= s@.len()
                &&& node@.tag == RuleTag::VarRef
                &&& no_semi(s@, pos as int, p as int)
            },
            None => true,
        },
        opt_node_view(r) == spec_var_ref_tok(s@, pos as int),
{
    let n = s.unicode_len();
    if pos >= n || !(s.get_char(pos) == '$') {
        return None;
    }
    let (_, p) = match rec_number(s, pos + 1) {
        Some(x) => x,
        None => {
            return None;
        },
    };
    let index_token = ParseNode::leaf(RuleTag::Number, String::from_str(s.substring_char(pos, p)));
    let ghost tokv = index_token@;
    let (mlist, p2) = rec_modifier_list(s, p);
    let ghost mlv = opt_mlist_view((mlist, p2));
    let mut children: Vec<ParseNode> = Vec::new();
    children.push(index_token);
    match mlist {
        Some(ml) => children.push(ml),
        None => {},
    }
    let node = ParseNode { tag: RuleTag::VarRef, text: String::new(), children };
    proof {
        lemma_nodes_view(node.children@);
        assert(node@.children[0] == node_view(node.children@[0]));
        match mlv.0 {
            Some(m) => {
                assert(node@.children[1] == node_view(node.children@[1]));
                assert(node@.children =~= seq![tokv, m]);
            },
            None => {
                assert(node@.children =~= seq![tokv]);
            },
        }
    }
    Some((node, p2))
}

/// Matches `dice_term`: a parenthesized expression, or a number that a
/// `d` turns into a dice roll.
fn rec_dice_term(s: &str, pos: usize) -> (r: Option<(ParseNode, usize)>)
    requires
        pos <= s@.len(),
    ensures
        match r {
            Some((node, p)) => {
                &&& pos < p <= s@.len()
                &&& node@.tag == RuleTag::DiceTerm
                &&& no_semi(s@, pos as int, p as int)
            },
            None => true,
        },
        opt_node_view(r) == spec_term_tok(s@, pos as int),
    decreases s@.len() - pos, 1int,
{
    let n = s.unicode_len();
    if pos >= n {
        return None;
    }
    if s.get_char(pos) == '(' {
        let q = skip_ws(s, pos + 1);
        let (inner, p) = match rec_dice_expr(s, q) {
            Some(x) => x,
            None => {
                return None;
            },
        };
        let q2 = skip_ws(s, p);
        if q2 >= n || !(s.get_char(q2) == ')') {
            return None;
        }
        let ghost innerv = inner@;
        let mut paren_children: Vec<ParseNode> = Vec::new();
        paren_children.push(inner);
        let paren = ParseNode {
            tag: RuleTag::ParenExpr,
            text: String::new(),
            children: paren_children,
        };
        proof {
            lemma_nodes_view(paren.children@);
            assert(paren@.children =~= seq![innerv]);
        }
        let ghost parenv = paren@;
        let mut term_children: Vec<ParseNode> = Vec::new();
        term_children.push(paren);
        let node = ParseNode { tag: RuleTag::DiceTerm, text: String::new(), children: term_children };
        proof {
            lemma_nodes_view(node.children@);
            assert(node@.children =~= seq![parenv]);
        }
        return Some((node, q2 + 1));
    }
    let (count, p) = match rec_number(s, pos) {
        Some(x) => x,
        None => {
            return None;
        },
    };
    if p < n && s.get_char(p) == 'd' {
        let (sides, p2) = match rec_number(s, p + 1) {
            Some(x) => x,
            None => {
                return None;
            },
        };
        let ghost countv = count@;
        let ghost sidesv = sides@;
        let (mlist, p3) = rec_modifier_list(s, p2);
        let ghost mlv = opt_mlist_view((mlist, p3));
        let mut roll_children: Vec<ParseNode> = Vec::new();
        roll_children.push(count);
        roll_children.push(sides);
        match mlist {
            Some(ml) => roll_children.push(ml),
            None => {},
        }
        let roll = ParseNode { tag: RuleTag::DiceRoll, text: String::new(), children: roll_children };
        proof {
            lemma_nodes_view(roll.children@);
            assert(roll@.children[0] == node_view(roll.children@[0]));
            assert(roll@.children[1] == node_view(roll.children@[1]));
            match mlv.0 {
                Some(m) => {
                    assert(roll@.children[2] == node_view(roll.children@[2]));
                    assert(roll@.children =~= seq![countv, sidesv, m]);
                },
                None => {
                    assert(roll@.children =~= seq![countv, sidesv]);
                },
            }
        }
        let ghost rollv = roll@;
        let mut term_children: Vec<ParseNode> = Vec::new();
        term_children.push(roll);
        let node = ParseNode { tag: RuleTag::DiceTerm, text: String::new(), children: term_children };
        proof {
            lemma_nodes_view(node.children@);
            assert(node@.children =~= seq![rollv]);
        }
        Some((node, p3))
    } else {
        let ghost countv = count@;
        let mut term_children: Vec<ParseNode> = Vec::new();
        term_children.push(count);
        let node = ParseNode { tag: RuleTag::DiceTerm, text: String::new(), children: term_children };
        proof {
            lemma_nodes_view(node.children@);
            assert(node@.children =~= seq![countv]);
        }
        Some((node, p))
    }
}

/// Matches `dice_expr`: a first term, then operator-and-term pairs, then
/// an optional comment running to the end of the instruction.
fn rec_dice_expr(s: &str, pos: usize) -> (r: Option<(ParseNode, usize)>)
    requires
        pos <= s@.len(),
    ensures
        match r {
            Some((node, p)) => {
                &&& pos < p <= s@.len()
                &&& node@.tag == RuleTag::DiceExpr
                &&& no_semi(s@, pos as int, p as int)
            },
            None => true,
        },
        opt_node_view(r) == spec_expr_tok(s@, pos as int),
    decreases s@.len() - pos, 2int,
{
    let n = s.unicode_len();
    let (first, first_end) = match rec_dice_term(s, pos) {
        Some(x) => x,
        None => {
            return None;
        },
    };
    let ghost firstv = first@;
    let mut children: Vec<ParseNode> = Vec::new();
    children.push(first);
    proof {
        lemma_nodes_view(children@);
        assert(nodes_view(children@) =~= seq![firstv]);
        match spec_expr_tail(s@, first_end as int) {
            Some((rest, e)) => {
                assert(seq![firstv] + rest =~= nodes_view(children@) + rest);
            },
            None => {},
        }
    }
    let mut p = first_end;
    loop
        invariant
            pos < p <= n,
            n == s@.len(),
            no_semi(s@, pos as int, p as int),
            children@.len() >= 1,
            spec_expr_tok(s@, pos as int) == (match spec_expr_tail(s@, p as int) {
                None => None::<(NodeV, int)>,
                Some((rest, e)) => Some(
                    (
                        NodeV {
                            tag: RuleTag::DiceExpr,
                            text: Seq::empty(),
                            children: nodes_view(children@) + rest,
                        },
                        e,
                    ),
                ),
            }),
        decreases n - p,
    {
        let q = skip_ws(s, p);
        if q < n {
            let c = s.get_char(q);
            if c == '+' || c == '-' || c == '*' || c == '/' || c == '^' {
                let op = ParseNode::leaf(RuleTag::Op, String::from_str(s.substring_char(q, q + 1)));
                let ghost opv = op@;
                let q2 = skip_ws(s, q + 1);
                let (t, p2) = match rec_dice_term(s, q2) {
                    Some(x) => x,
                    None => {
                        return None;
                    },
                };
                let ghost tv = t@;
                let ghost old_children = children@;
                children.push(op);
                children.push(t);
                proof {
                    lemma_nodes_view(old_children);
                    lemma_nodes_view(children@);
                    assert forall|k: int|
                        0 <= k < children@.len() implies nodes_view(children@)[k] == (nodes_view(
                        old_children,
                    ) + seq![opv, tv])[k] by {
                        assert(nodes_view(children@)[k] == node_view(children@[k]));
                        if k < old_children.len() {
                            assert(children@[k] == old_children[k]);
                            assert(nodes_view(old_children)[k] == node_view(old_children[k]));
                        }
                    }
                    assert(nodes_view(children@) =~= nodes_view(old_children) + seq![opv, tv]);
                    match spec_expr_tail(s@, p2 as int) {
                        Some((rest, e)) => {
                            assert(nodes_view(old_children) + (seq![opv, tv] + rest)
                                =~= nodes_view(children@) + rest);
                        },
                        None => {},
                    }
                }
                p = p2;
            } else if c == '#' {
                let k = scan_to_semi(s, q + 1);
                let comment = ParseNode::leaf(
                    RuleTag::Comment,
                    String::from_str(s.substring_char(q, k)),
                );
                let ghost commentv = comment@;
                let ghost old_children = children@;
                children.push(comment);
                let node = ParseNode { tag: RuleTag::DiceExpr, text: String::new(), children };
                proof {
                    lemma_nodes_view(old_children);
                    lemma_nodes_view(node.children@);
                    assert forall|j: int|
                        0 <= j < node.children@.len() implies nodes_view(node.children@)[j] == (
                        nodes_view(old_children) + seq![commentv])[j] by {
                        assert(nodes_view(node.children@)[j] == node_view(node.children@[j]));
                        if j < old_children.len() {
                            assert(node.children@[j] == old_children[j]);
                            assert(nodes_view(old_children)[j] == node_view(old_children[j]));
                        }
                    }
                    assert(nodes_view(node.children@) =~= nodes_view(old_children) + seq![
                        commentv,
                    ]);
                }
                return Some((node, k));
            } else {
                let node = ParseNode { tag: RuleTag::DiceExpr, text: String::new(), children };
                proof {
                    lemma_nodes_view(node.children@);
                    assert(nodes_view(node.children@) + Seq::<NodeV>::empty() =~= nodes_view(
                        node.children@,
                    ));
                }
                return Some((node, p));
            }
        } else {
            let node = ParseNode { tag: RuleTag::DiceExpr, text: String::new(), children };
            proof {
                lemma_nodes_view(node.children@);
                assert(nodes_view(node.children@) + Seq::<NodeV>::empty() =~= nodes_view(
                    node.children@,
                ));
            }
            return Some((node, q));
        }
    }
}

/// The first semicolon at or after `i`, or the end of input.
fn scan_to_semi(s: &str, i: usize) -> (k: usize)
    requires
        i <= s@.len(),
    ensures
        i <= k <= s@.len(),
        k == semi_end(s@, i as int),
        no_semi(s@, i as int, k as int),
{
    let n = s.unicode_len();
    let mut p = i;
    while p < n
        invariant
            i <= p <= n,
            n == s@.len(),
            no_semi(s@, i as int, p as int),
            semi_end(s@, i as int) == semi_end(s@, p as int),
        decreases n - p,
    {
        if s.get_char(p) == ';' {
            return p;
        }
        p = p + 1;
    }
    p
}

/// Matches `instruction`: a variable reference where the input starts
/// with its marker, else a dice expression.
fn rec_instruction(s: &str, pos: usize) -> (r: Option<(ParseNode, usize)>)
    requires
        pos <= s@.len(),
    ensures
        match r {
            Some((node, p)) => {
                &&& pos < p <= s@.len()
                &&& instr_shaped(node@)
                &&& no_semi(s@, pos as int, p as int)
            },
            None => true,
        },
        opt_node_view(r) == spec_instruction_tok(s@, pos as int),
    decreases s@.len() - pos, 3int,
{
    let n = s.unicode_len();
    let inner = if pos < n && s.get_char(pos) == '$' {
        rec_var_ref(s, pos)
    } else {
        rec_dice_expr(s, pos)
    };
    match inner {
        Some((node, p)) => {
            let ghost innerv = node@;
            let mut children: Vec<ParseNode> = Vec::new();
            children.push(node);
            let wrap = ParseNode { tag: RuleTag::Instruction, text: String::new(), children };
            proof {
                lemma_nodes_view(wrap.children@);
                assert(wrap@.children =~= seq![innerv]);
            }
            Some((wrap, p))
        },
        None => None,
    }
}

/// The character for one decimal digit.
pub open spec fn digit_char(d: int) -> char {
    if d == 0 {
        '0'
    } else if d == 1 {
        '1'
    } else if d == 2 {
        '2'
    } else if d == 3 {
        '3'
    } else if d == 4 {
        '4'
    } else if d == 5 {
        '5'
    } else if d == 6 {
        '6'
    } else if d == 7 {
        '7'
    } else if d == 8 {
        '8'
    } else {
        '9'
    }
}

/// The decimal numeral of `n`, most significant digit first.
pub open spec fn dec_digits(n: nat) -> Seq<char>
    decreases n,
{
    if n < 10 {
        seq![digit_char(n as int)]
    } else {
        dec_digits(n / 10) + seq![digit_char((n % 10) as int)]
    }
}

/// The decimal numeral of `n` as a string.
fn dec_string(n: usize) -> (r: String)
    ensures
        r@ == dec_digits(n as nat),
    decreases n,
{
    let table = "0123456789";
    proof {
        reveal_strlit("0123456789");
    }
    if n < 10 {
        let r = String::from_str(table.substring_char(n, n + 1));
        proof {
            assert(r@ =~= seq![digit_char(n as int)]);
        }
        r
    } else {
        let mut r = dec_string(n / 10);
        let d = n % 10;
        r.append(table.substring_char(d, d + 1));
        proof {
            assert(r@ =~= dec_digits(n as nat));
        }
        r
    }
}

/// A syntax diagnostic naming the character position where matching
/// stopped.
fn syntax_error(pos: usize) -> (e: DiceError)
    ensures
        e@ is Syntax,
{
    let mut msg = String::from_str("the input does not match the dice grammar at character ");
    msg.append(dec_string(pos).as_str());
    DiceError::Syntax(msg)
}

/// Recognizes a whole input: leading whitespace, instructions separated
/// by `;`, trailing whitespace, end of input. On success the returned
/// tree satisfies `rec_wf`; on failure the diagnostic says the input did
/// not match the grammar.
#[verifier::rlimit(50)]
pub fn recognize(input: &str) -> (r: Result<ParseNode, DiceError>)
    ensures
        match r {
            Ok(t) => rec_wf(input@, t@) && spec_recognize(input@) == Some(t@),
            Err(e) => e@ is Syntax && spec_recognize(input@) is None,
        },
{
    let n = input.unicode_len();
    let p0 = skip_ws(input, 0);
    let (inst, mut p) = match rec_instruction(input, p0) {
        Some(x) => x,
        None => {
            return Err(syntax_error(p0));
        },
    };
    let ghost instv = inst@;
    let mut instrs: Vec<ParseNode> = Vec::new();
    instrs.push(inst);
    proof {
        lemma_count_none(input@, 0, p0 as int);
        lemma_count_none(input@, p0 as int, p as int);
        lemma_count_split(input@, 0, p0 as int, p as int);
        lemma_nodes_view(instrs@);
        assert(nodes_view(instrs@) =~= seq![instv]);
        match spec_instrs_from(input@, p as int) {
            Some(rest) => {
                assert(seq![instv] + rest =~= nodes_view(instrs@) + rest);
            },
            None => {},
        }
    }
    loop
        invariant
            p <= n,
            n == input@.len(),
            instrs@.len() >= 1,
            count_semis(input@.subrange(0, p as int)) == instrs@.len() - 1,
            forall|i: int| 0 <= i < instrs@.len() ==> instr_shaped(node_view(#[trigger] instrs@[i])),
            match spec_instrs_from(input@, p as int) {
                None => spec_recognize(input@) is None,
                Some(rest) => spec_recognize(input@) == Some(
                    mk_main(input@, nodes_view(instrs@) + rest),
                ),
            },
        decreases n - p,
    {
        let q = skip_ws(input, p);
        if q < n && input.get_char(q) == ';' {
            let q2 = skip_ws(input, q + 1);
            let (inst2, p2) = match rec_instruction(input, q2) {
                Some(x) => x,
                None => {
                    return Err(syntax_error(q2));
                },
            };
            let ghost inst2v = inst2@;
            let ghost old_instrs = instrs@;
            instrs.push(inst2);
            proof {
                lemma_nodes_view(old_instrs);
                lemma_nodes_view(instrs@);
                assert forall|k: int|
                    0 <= k < instrs@.len() implies nodes_view(instrs@)[k] == (nodes_view(
                    old_instrs,
                ) + seq![inst2v])[k] by {
                    assert(nodes_view(instrs@)[k] == node_view(instrs@[k]));
                    if k < old_instrs.len() {
                        assert(instrs@[k] == old_instrs[k]);
                        assert(nodes_view(old_instrs)[k] == node_view(old_instrs[k]));
                    }
                }
                assert(nodes_view(instrs@) =~= nodes_view(old_instrs) + seq![inst2v]);
                match spec_instrs_from(input@, p2 as int) {
                    Some(rest) => {
                        assert(nodes_view(old_instrs) + (seq![inst2v] + rest) =~= nodes_view(
                            instrs@,
                        ) + rest);
                    },
                    None => {},
                }
            }
            proof {
                lemma_count_none(input@, p as int, q as int);
                lemma_count_none(input@, q + 1, q2 as int);
                lemma_count_none(input@, q2 as int, p2 as int);
                assert(input@.subrange(q as int, q + 1).last() == ';');
                assert(input@.subrange(q as int, q + 1).drop_last() =~= Seq::<char>::empty());
                assert(count_semis(Seq::<char>::empty()) == 0);
                assert(count_semis(input@.subrange(q as int, q + 1)) == 1);
                lemma_count_split(input@, 0, p as int, q as int);
                lemma_count_split(input@, 0, q as int, q + 1);
                lemma_count_split(input@, 0, q + 1, q2 as int);
                lemma_count_split(input@, 0, q2 as int, p2 as int);
            }
            p = p2;
        } else if q >= n {
            proof {
                lemma_count_none(input@, p as int, q as int);
                lemma_count_split(input@, 0, p as int, q as int);
                assert(input@.subrange(0, n as int) =~= input@);
                assert(nodes_view(instrs@) + Seq::<NodeV>::empty() =~= nodes_view(instrs@));
            }
            let il = ParseNode {
                tag: RuleTag::InstructionList,
                text: String::new(),
                children: instrs,
            };
            proof {
                lemma_nodes_view(il.children@);
                assert(il@.children.len() == instrs@.len());
                assert forall|i: int|
                    0 <= i < il@.children.len() implies instr_shaped(
                    #[trigger] il@.children[i],
                ) by {
                    assert(il@.children[i] == node_view(instrs@[i]));
                }
            }
            let ghost ilv = il@;
            let mut main_children: Vec<ParseNode> = Vec::new();
            main_children.push(il);
            let t = ParseNode {
                tag: RuleTag::Main,
                text: String::from_str(input),
                children: main_children,
            };
            proof {
                lemma_nodes_view(t.children@);
                assert(t@.children.len() == 1);
                assert(t@.children[0] == ilv);
                assert(t@.children =~= mk_main(input@, nodes_view(instrs@)).children);
            }
            return Ok(t);
        } else {
            return Err(syntax_error(q));
        }
    }
}

} // verus!
