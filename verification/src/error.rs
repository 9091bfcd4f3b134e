use crate::types::Operator;
use vstd::prelude::*;
use vstd::string::StringExecFns;

verus! {

/// Why a path expression could not be parsed.
#[derive(Debug, Clone, PartialEq, Eq)]
pub enum ParseError {
    /// The expression does not begin with `$` or `.`.
    MissingRoot,
    /// A segment does not begin with `.` or `[`.
    ExpectedSegment,
    /// What follows `[` is no `*`, no `?` and no digit.
    InvalidSelector,
    /// A property name has no characters.
    ExpectedIdentifier,
    /// An index does not fit the machine's word.
    InvalidNumber,
    /// A comparison has no operator.
    ExpectedOperator,
    /// A comparison has an operator that the language does not know; the
    /// variant holds what was written.
    UnsupportedOperator(String),
    /// A comparison has a logical operator where a relation must stand.
    UnexpectedOperator(Operator),
    /// A quoted string has no closing quote.
    UnterminatedString,
    /// A literal begins with `t` and is not `true`.
    ExpectedTrue,
    /// A literal begins with `f` and is not `false`.
    ExpectedFalse,
    /// A literal begins with `n` and is not `null`.
    ExpectedNull,
    /// A number with a `.` is no decimal fraction.
    InvalidFloat,
    /// A number without a `.` has no digits or does not fit 64 bits.
    InvalidInteger,
    /// A comparison has no literal.
    ExpectedValue,
    /// A given character had to come; `found` is what came instead, `None`
    /// at the end of the input.
    UnexpectedChar { expected: char, found: Option<char> },
    /// `&` or `|` stands alone; `found` is what follows it, `None` at the
    /// end of the input.
    IncompleteConnective { symbol: char, found: Option<char> },
    /// The text goes on after the last segment of the path; `found` is the
    /// first character that no segment takes.
    ExpectedEnd { found: char },
}

/// The mathematical form of a [`ParseError`].
pub enum ParseErrorModel {
    MissingRoot,
    ExpectedSegment,
    InvalidSelector,
    ExpectedIdentifier,
    InvalidNumber,
    ExpectedOperator,
    UnsupportedOperator(Seq<char>),
    UnexpectedOperator(Operator),
    UnterminatedString,
    ExpectedTrue,
    ExpectedFalse,
    ExpectedNull,
    InvalidFloat,
    InvalidInteger,
    ExpectedValue,
    UnexpectedChar { expected: char, found: Option<char> },
    IncompleteConnective { symbol: char, found: Option<char> },
    ExpectedEnd { found: char },
}

impl View for ParseError {
    type V = ParseErrorModel;

    open spec fn view(&self) -> ParseErrorModel {
        match self {
            ParseError::MissingRoot => ParseErrorModel::MissingRoot,
            ParseError::ExpectedSegment => ParseErrorModel::ExpectedSegment,
            ParseError::InvalidSelector => ParseErrorModel::InvalidSelector,
            ParseError::ExpectedIdentifier => ParseErrorModel::ExpectedIdentifier,
            ParseError::InvalidNumber => ParseErrorModel::InvalidNumber,
            ParseError::ExpectedOperator => ParseErrorModel::ExpectedOperator,
            ParseError::UnsupportedOperator(text) => ParseErrorModel::UnsupportedOperator(text@),
            ParseError::UnexpectedOperator(op) => ParseErrorModel::UnexpectedOperator(*op),
            ParseError::UnterminatedString => ParseErrorModel::UnterminatedString,
            ParseError::ExpectedTrue => ParseErrorModel::ExpectedTrue,
            ParseError::ExpectedFalse => ParseErrorModel::ExpectedFalse,
            ParseError::ExpectedNull => ParseErrorModel::ExpectedNull,
            ParseError::InvalidFloat => ParseErrorModel::InvalidFloat,
            ParseError::InvalidInteger => ParseErrorModel::InvalidInteger,
            ParseError::ExpectedValue => ParseErrorModel::ExpectedValue,
            ParseError::UnexpectedChar { expected, found } => ParseErrorModel::UnexpectedChar {
                expected: *expected,
                found: *found,
            },
            ParseError::IncompleteConnective { symbol, found } => {
                ParseErrorModel::IncompleteConnective { symbol: *symbol, found: *found }
            },
            ParseError::ExpectedEnd { found } => ParseErrorModel::ExpectedEnd { found: *found },
        }
    }
}

/// The name of an operator, as a message shows it.
pub open spec fn operator_name(op: Operator) -> Seq<char> {
    match op {
        Operator::Equals => "Equals"@,
        Operator::NotEquals => "NotEquals"@,
        Operator::GreaterThan => "GreaterThan"@,
        Operator::LessThan => "LessThan"@,
        Operator::And => "And"@,
        Operator::Or => "Or"@,
    }
}

/// The text of the message that describes an error.
pub open spec fn message_text(error: ParseErrorModel) -> Seq<char> {
    match error {
        ParseErrorModel::MissingRoot => "Path must start with '$' or '.'"@,
        ParseErrorModel::ExpectedSegment => "Expected '.' or '['"@,
        ParseErrorModel::InvalidSelector => "Invalid array index or filter"@,
        ParseErrorModel::ExpectedIdentifier => "Expected identifier"@,
        ParseErrorModel::InvalidNumber => "Invalid number"@,
        ParseErrorModel::ExpectedOperator => "Expected operator"@,
        ParseErrorModel::UnsupportedOperator(text) => "Unsupported operator: "@ + text,
        ParseErrorModel::UnexpectedOperator(op) => "Unexpected operator in filter term: "@
            + operator_name(op),
        ParseErrorModel::UnterminatedString => "Unterminated string"@,
        ParseErrorModel::ExpectedTrue => "Expected 'true'"@,
        ParseErrorModel::ExpectedFalse => "Expected 'false'"@,
        ParseErrorModel::ExpectedNull => "Expected 'null'"@,
        ParseErrorModel::InvalidFloat => "Invalid float"@,
        ParseErrorModel::InvalidInteger => "Invalid integer"@,
        ParseErrorModel::ExpectedValue => "Expected value"@,
        ParseErrorModel::UnexpectedChar { expected, found } => match found {
            Some(c) => "Expected '"@.push(expected) + "', got '"@.push(c) + "'"@,
            None => "Expected '"@.push(expected) + "', got end of input"@,
        },
        ParseErrorModel::IncompleteConnective { symbol, found } => "Expected '"@.push(symbol).push(
            symbol,
        ) + "', got '"@.push(symbol).push(
            match found {
                Some(c) => c,
                None => ' ',
            },
        ) + "'"@,
        ParseErrorModel::ExpectedEnd { found } => "Expected end of input, got '"@.push(found)
            + "'"@,
    }
}

impl Operator {
    /// The operator's name.
    pub fn name(&self) -> (name: &'static str)
        ensures
            name@ == operator_name(*self),
    {
        match self {
            Operator::Equals => "Equals",
            Operator::NotEquals => "NotEquals",
            Operator::GreaterThan => "GreaterThan",
            Operator::LessThan => "LessThan",
            Operator::And => "And",
            Operator::Or => "Or",
        }
    }
}

impl ParseError {
    /// The message that describes the error.
    pub fn message(&self) -> (text: String)
        ensures
            text@ == message_text(self@),
    {
        match self {
            ParseError::MissingRoot => String::from_str("Path must start with '$' or '.'"),
            ParseError::ExpectedSegment => String::from_str("Expected '.' or '['"),
            ParseError::InvalidSelector => String::from_str("Invalid array index or filter"),
            ParseError::ExpectedIdentifier => String::from_str("Expected identifier"),
            ParseError::InvalidNumber => String::from_str("Invalid number"),
            ParseError::ExpectedOperator => String::from_str("Expected operator"),
            ParseError::UnsupportedOperator(text) => {
                let mut message = String::from_str("Unsupported operator: ");
                message.append(text.as_str());
                message
            },
            ParseError::UnexpectedOperator(op) => {
                let mut message = String::from_str("Unexpected operator in filter term: ");
                message.append(op.name());
                message
            },
            ParseError::UnterminatedString => String::from_str("Unterminated string"),
            ParseError::ExpectedTrue => String::from_str("Expected 'true'"),
            ParseError::ExpectedFalse => String::from_str("Expected 'false'"),
            ParseError::ExpectedNull => String::from_str("Expected 'null'"),
            ParseError::InvalidFloat => String::from_str("Invalid float"),
            ParseError::InvalidInteger => String::from_str("Invalid integer"),
            ParseError::ExpectedValue => String::from_str("Expected value"),
            ParseError::UnexpectedChar { expected, found } => {
                let mut message = String::from_str("Expected '");
                message.push(*expected);
                match found {
                    Some(c) => {
                        message.append("', got '");
                        message.push(*c);
                        message.append("'");
                    },
                    None => {
                        message.append("', got end of input");
                    },
                }
                message
            },
            ParseError::IncompleteConnective { symbol, found } => {
                let mut message = String::from_str("Expected '");
                message.push(*symbol);
                message.push(*symbol);
                message.append("', got '");
                message.push(*symbol);
                message.push(
                    match found {
                        Some(c) => *c,
                        None => ' ',
                    },
                );
                message.append("'");
                message
            },
            ParseError::ExpectedEnd { found } => {
                let mut message = String::from_str("Expected end of input, got '");
                message.push(*found);
                message.append("'");
                message
            },
        }
    }
}

} // verus!
