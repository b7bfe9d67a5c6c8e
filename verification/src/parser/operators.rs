//! How operators bind: their precedence and associativity.

use vstd::prelude::*;

use crate::common::{Operator, SpecialCharacter};
use crate::lexer::{SpecTokenValue, TokenValue};

verus! {

/// How an operator binds.
#[derive(Debug, Clone, Copy, PartialEq, Eq, Structural)]
pub struct OperatorMetadata {
    pub is_unary: bool,
    pub precedence: u16,
    pub is_right_associative: bool,
}

/// The precedence with which a unary operator binds its operand.
pub const UNARY_PRECEDENCE: u16 = 500;

pub open spec fn metadata(is_unary: bool, precedence: u16, is_right_associative: bool) -> OperatorMetadata {
    OperatorMetadata { is_unary, precedence, is_right_associative }
}

/// The binding of each operator. From loosest to tightest: assignment (to
/// the right), `??` (to the right), `or`, `and`, `|`, `^`, `&`, equality,
/// comparison, `|>`, shifts, additive operators and `..`, multiplicative
/// operators, the unary operators, and indexing.
pub open spec fn spec_operator_metadata(operator: Operator) -> OperatorMetadata {
    match operator {
        Operator::Assignment => metadata(false, 0, true),
        Operator::OptionalCoalesce => metadata(false, 10, true),
        Operator::Or => metadata(false, 20, false),
        Operator::And => metadata(false, 21, false),
        Operator::BitwiseOr => metadata(false, 30, false),
        Operator::BitwiseXor => metadata(false, 31, false),
        Operator::BitwiseAnd => metadata(false, 32, false),
        Operator::Equals | Operator::NotEquals => metadata(false, 40, false),
        Operator::LessThan
        | Operator::GreaterThan
        | Operator::LessThanOrEqual
        | Operator::GreaterThanOrEqual => metadata(false, 50, false),
        Operator::Pipe => metadata(false, 60, false),
        Operator::LeftShift | Operator::RightShift => metadata(false, 70, false),
        Operator::Add | Operator::Subtract | Operator::Concat => metadata(false, 80, false),
        Operator::Multiply | Operator::Divide | Operator::Modulo => metadata(false, 81, false),
        Operator::Not | Operator::BitwiseNot | Operator::Length => metadata(true, 500, false),
        Operator::Index | Operator::OptionalIndex => metadata(false, 1000, false),
    }
}

/// The binding levels of the language, numbered from the loosest: `=`;
/// `??`; `or`; `and`; `|`; `^`; `&`; `==` and `~=`; `<`, `>`, `<=` and
/// `>=`; `|>`; `<<` and `>>`; `+`, `-` and `..`; `*`, `/` and `%`; the
/// unary `not`, `~` and `#`; and indexing with `.` and `?.`.
pub open spec fn binding_level(o: Operator) -> int {
    match o {
        Operator::Assignment => 0,
        Operator::OptionalCoalesce => 1,
        Operator::Or => 2,
        Operator::And => 3,
        Operator::BitwiseOr => 4,
        Operator::BitwiseXor => 5,
        Operator::BitwiseAnd => 6,
        Operator::Equals => 7,
        Operator::NotEquals => 7,
        Operator::LessThan => 8,
        Operator::GreaterThan => 8,
        Operator::LessThanOrEqual => 8,
        Operator::GreaterThanOrEqual => 8,
        Operator::Pipe => 9,
        Operator::LeftShift => 10,
        Operator::RightShift => 10,
        Operator::Add => 11,
        Operator::Subtract => 11,
        Operator::Concat => 11,
        Operator::Multiply => 12,
        Operator::Divide => 12,
        Operator::Modulo => 12,
        Operator::Not => 13,
        Operator::BitwiseNot => 13,
        Operator::Length => 13,
        Operator::Index => 14,
        Operator::OptionalIndex => 14,
    }
}

/// Operator levels: operators of one level bind alike, an operator of a
/// higher level binds strictly tighter, only `=` and `??` group to the
/// right, and only `not`, `~` and `#` are unary.
pub proof fn lemma_operator_levels(o1: Operator, o2: Operator)
    ensures
        binding_level(o1) == binding_level(o2) ==> spec_operator_metadata(o1)
            == spec_operator_metadata(o2),
        binding_level(o1) < binding_level(o2) ==> spec_operator_metadata(o1).precedence
            < spec_operator_metadata(o2).precedence,
        spec_operator_metadata(o1).is_right_associative <==> (o1 == Operator::Assignment || o1
            == Operator::OptionalCoalesce),
        spec_operator_metadata(o1).is_unary <==> binding_level(o1) == 13,
{
}

pub fn get_operator_metadata(operator: Operator) -> (m: OperatorMetadata)
    ensures
        m == spec_operator_metadata(operator),
{
    match operator {
        Operator::Assignment => OperatorMetadata {
            is_unary: false,
            precedence: 0,
            is_right_associative: true,
        },
        Operator::OptionalCoalesce => OperatorMetadata {
            is_unary: false,
            precedence: 10,
            is_right_associative: true,
        },
        Operator::Or => OperatorMetadata {
            is_unary: false,
            precedence: 20,
            is_right_associative: false,
        },
        Operator::And => OperatorMetadata {
            is_unary: false,
            precedence: 21,
            is_right_associative: false,
        },
        Operator::BitwiseOr => OperatorMetadata {
            is_unary: false,
            precedence: 30,
            is_right_associative: false,
        },
        Operator::BitwiseXor => OperatorMetadata {
            is_unary: false,
            precedence: 31,
            is_right_associative: false,
        },
        Operator::BitwiseAnd => OperatorMetadata {
            is_unary: false,
            precedence: 32,
            is_right_associative: false,
        },
        Operator::Equals | Operator::NotEquals => OperatorMetadata {
            is_unary: false,
            precedence: 40,
            is_right_associative: false,
        },
        Operator::LessThan
        | Operator::GreaterThan
        | Operator::LessThanOrEqual
        | Operator::GreaterThanOrEqual => OperatorMetadata {
            is_unary: false,
            precedence: 50,
            is_right_associative: false,
        },
        Operator::Pipe => OperatorMetadata {
            is_unary: false,
            precedence: 60,
            is_right_associative: false,
        },
        Operator::LeftShift | Operator::RightShift => OperatorMetadata {
            is_unary: false,
            precedence: 70,
            is_right_associative: false,
        },
        Operator::Add | Operator::Subtract | Operator::Concat => OperatorMetadata {
            is_unary: false,
            precedence: 80,
            is_right_associative: false,
        },
        Operator::Multiply | Operator::Divide | Operator::Modulo => OperatorMetadata {
            is_unary: false,
            precedence: 81,
            is_right_associative: false,
        },
        Operator::Not | Operator::BitwiseNot | Operator::Length => OperatorMetadata {
            is_unary: true,
            precedence: 500,
            is_right_associative: false,
        },
        Operator::Index | Operator::OptionalIndex => OperatorMetadata {
            is_unary: false,
            precedence: 1000,
            is_right_associative: false,
        },
    }
}

/// How a token binds when it follows an operand: an operator binds as the
/// operator does; an opening round or square bracket (a call or an index)
/// binds as indexing does. Other tokens do not follow operands.
pub open spec fn spec_token_metadata(value: SpecTokenValue) -> Option<OperatorMetadata> {
    match value {
        SpecTokenValue::Operator(op) => Some(spec_operator_metadata(op)),
        SpecTokenValue::SpecialCharacter(SpecialCharacter::OpenBracket)
        | SpecTokenValue::SpecialCharacter(SpecialCharacter::OpenSquareBracket) => Some(
            spec_operator_metadata(Operator::Index),
        ),
        _ => None,
    }
}

pub fn get_token_metadata(value: &TokenValue) -> (m: Option<OperatorMetadata>)
    ensures
        m == spec_token_metadata(value@),
{
    match value {
        TokenValue::Operator(op) => Some(get_operator_metadata(*op)),
        TokenValue::SpecialCharacter(SpecialCharacter::OpenBracket)
        | TokenValue::SpecialCharacter(SpecialCharacter::OpenSquareBracket) => Some(
            get_operator_metadata(Operator::Index),
        ),
        _ => None,
    }
}

/// Whether an operator that follows the right-hand operand of an operator of
/// precedence `previous_precedence` takes that operand as its own left-hand side.
pub open spec fn spec_is_right_hand_side_chained_operator(
    metadata: OperatorMetadata,
    previous_precedence: u16,
) -> bool {
    if metadata.is_unary {
        false
    } else if metadata.is_right_associative {
        metadata.precedence >= previous_precedence
    } else {
        metadata.precedence > previous_precedence
    }
}

pub fn is_right_hand_side_chained_operator(
    metadata: &OperatorMetadata,
    previous_precedence: u16,
) -> (b: bool)
    ensures
        b == spec_is_right_hand_side_chained_operator(*metadata, previous_precedence),
{
    if metadata.is_unary {
        return false;
    }
    if metadata.is_right_associative {
        metadata.precedence >= previous_precedence
    } else {
        metadata.precedence > previous_precedence
    }
}

/// Whether a token is a binary operator (or a call or index) that binds at
/// least as tightly as `min_precedence`.
pub open spec fn spec_is_binary_operator_with_greater_or_equal_precedence(
    value: SpecTokenValue,
    min_precedence: u16,
) -> bool {
    match spec_token_metadata(value) {
        Some(m) => !m.is_unary && m.precedence >= min_precedence,
        None => false,
    }
}

pub fn is_binary_operator_with_greater_or_equal_precedence(
    value: &TokenValue,
    min_precedence: u16,
) -> (b: bool)
    ensures
        b == spec_is_binary_operator_with_greater_or_equal_precedence(value@, min_precedence),
{
    match get_token_metadata(value) {
        Some(m) => !m.is_unary && m.precedence >= min_precedence,
        None => false,
    }
}

} // verus!
