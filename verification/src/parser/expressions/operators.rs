use vstd::prelude::*;

use crate::lexer::TokenType;

verus! {

/// A group of binary operations that share one precedence, from the one that binds tightest
/// (exponentiation) to the loosest (assignment).
#[derive(Debug, Clone, Copy, PartialEq, Eq, Structural)]
pub enum BinaryOperation {
    /// `^`.
    Exponentiation,
    /// `*` and `/`.
    Multiplicative,
    /// `+` and `-`.
    Additive,
    /// `==`, `<` and `>`.
    Comparison,
    /// `=`.
    Assignment,
}

/// The operator tokens of each group.
pub open spec fn spec_token_types(operation: BinaryOperation) -> Seq<TokenType> {
    match operation {
        BinaryOperation::Exponentiation => seq![TokenType::Caret],
        BinaryOperation::Multiplicative => seq![TokenType::Asterisk, TokenType::ForwardSlash],
        BinaryOperation::Additive => seq![TokenType::Plus, TokenType::Minus],
        BinaryOperation::Comparison => seq![TokenType::DoubleEquals, TokenType::LessThan, TokenType::GreaterThan],
        BinaryOperation::Assignment => seq![TokenType::Equal],
    }
}

/// The group that binds next tighter, parsed for the operands of this one.
pub open spec fn spec_precedent(operation: BinaryOperation) -> Option<BinaryOperation> {
    match operation {
        BinaryOperation::Exponentiation => None,
        BinaryOperation::Multiplicative => Some(BinaryOperation::Exponentiation),
        BinaryOperation::Additive => Some(BinaryOperation::Multiplicative),
        BinaryOperation::Comparison => Some(BinaryOperation::Additive),
        BinaryOperation::Assignment => Some(BinaryOperation::Comparison),
    }
}

/// How tightly a group binds: 0 for the tightest.
pub open spec fn rank(operation: BinaryOperation) -> nat {
    match operation {
        BinaryOperation::Exponentiation => 0,
        BinaryOperation::Multiplicative => 1,
        BinaryOperation::Additive => 2,
        BinaryOperation::Comparison => 3,
        BinaryOperation::Assignment => 4,
    }
}

impl BinaryOperation {
    /// The group that binds next tighter, or `None` for the tightest, whose operands are
    /// function calls.
    pub fn precedent(&self) -> (res: Option<BinaryOperation>)
        ensures
            res == spec_precedent(*self),
    {
        match self {
            BinaryOperation::Exponentiation => None,
            BinaryOperation::Multiplicative => Some(BinaryOperation::Exponentiation),
            BinaryOperation::Additive => Some(BinaryOperation::Multiplicative),
            BinaryOperation::Comparison => Some(BinaryOperation::Additive),
            BinaryOperation::Assignment => Some(BinaryOperation::Comparison),
        }
    }

    /// The operator tokens of this group.
    pub fn token_types(&self) -> (res: Vec<TokenType>)
        ensures
            res@ == spec_token_types(*self),
    {
        let res = match self {
            BinaryOperation::Exponentiation => vec![TokenType::Caret],
            BinaryOperation::Multiplicative => vec![TokenType::Asterisk, TokenType::ForwardSlash],
            BinaryOperation::Additive => vec![TokenType::Plus, TokenType::Minus],
            BinaryOperation::Comparison => vec![TokenType::DoubleEquals, TokenType::LessThan, TokenType::GreaterThan],
            BinaryOperation::Assignment => vec![TokenType::Equal],
        };
        proof {
            assert(res@ =~= spec_token_types(*self));
        }
        res
    }
}

/// The groups form one chain: each precedent binds exactly one step tighter, so parsing an
/// expression descends through every group once down to function calls.
pub proof fn law_precedence_descends(operation: BinaryOperation)
    ensures
        match spec_precedent(operation) {
            Some(next) => rank(next) + 1 == rank(operation),
            None => rank(operation) == 0,
        },
{
}

/// No operator token belongs to two groups.
pub proof fn law_operators_belong_to_one_group(a: BinaryOperation, b: BinaryOperation, t: TokenType)
    requires
        spec_token_types(a).contains(t),
        spec_token_types(b).contains(t),
    ensures
        a == b,
{
    let ka = choose|k: int| 0 <= k < spec_token_types(a).len() && spec_token_types(a)[k] == t;
    let kb = choose|k: int| 0 <= k < spec_token_types(b).len() && spec_token_types(b)[k] == t;
    assert(spec_token_types(a)[ka] == t);
    assert(spec_token_types(b)[kb] == t);
}

/// Each operator token belongs to its own group: `^` to exponentiation, `*` and `/` to the
/// multiplicative group, `+` and `-` to the additive group, `==`, `<` and `>` to comparison, and
/// `=` to assignment; no group holds any other token. So `/` binds as tightly as `*`, and
/// `a + b / c` is `a + (b / c)`.
pub proof fn law_each_operator_has_its_group(t: TokenType)
    ensures
        spec_token_types(BinaryOperation::Exponentiation).contains(t) <==> t == TokenType::Caret,
        spec_token_types(BinaryOperation::Multiplicative).contains(t) <==> (t == TokenType::Asterisk || t
            == TokenType::ForwardSlash),
        spec_token_types(BinaryOperation::Additive).contains(t) <==> (t == TokenType::Plus || t == TokenType::Minus),
        spec_token_types(BinaryOperation::Comparison).contains(t) <==> (t == TokenType::DoubleEquals || t
            == TokenType::LessThan || t == TokenType::GreaterThan),
        spec_token_types(BinaryOperation::Assignment).contains(t) <==> t == TokenType::Equal,
{
    let e = spec_token_types(BinaryOperation::Exponentiation);
    let m = spec_token_types(BinaryOperation::Multiplicative);
    let a = spec_token_types(BinaryOperation::Additive);
    let c = spec_token_types(BinaryOperation::Comparison);
    let q = spec_token_types(BinaryOperation::Assignment);
    assert(e[0] == TokenType::Caret);
    assert(m[0] == TokenType::Asterisk && m[1] == TokenType::ForwardSlash);
    assert(a[0] == TokenType::Plus && a[1] == TokenType::Minus);
    assert(c[0] == TokenType::DoubleEquals && c[1] == TokenType::LessThan && c[2] == TokenType::GreaterThan);
    assert(q[0] == TokenType::Equal);
}

/// Parsing descends from the loosest group to the tightest in this order: assignment,
/// comparison, additive, multiplicative, exponentiation; so `*` binds tighter than `+`, and `+`
/// tighter than `==`.
pub proof fn law_precedence_order()
    ensures
        spec_precedent(BinaryOperation::Assignment) == Some(BinaryOperation::Comparison),
        spec_precedent(BinaryOperation::Comparison) == Some(BinaryOperation::Additive),
        spec_precedent(BinaryOperation::Additive) == Some(BinaryOperation::Multiplicative),
        spec_precedent(BinaryOperation::Multiplicative) == Some(BinaryOperation::Exponentiation),
        spec_precedent(BinaryOperation::Exponentiation) is None,
{
}

} // verus!
