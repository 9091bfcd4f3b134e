use crate::error::{ParseError, ParseErrorModel};
use crate::grammar::{
    after_whitespace, chained_at, expected_char, filter_at, filter_term_at, identifier_at,
    number_at, numeral_at, operator_at, path_of, segment_at, value_at, Parsed,
};
use crate::text::{
    chars_of, check_fraction, lemma_run_end, peek_at, read_decimal, scan_run, CharClass,
};
use crate::types::{
    lemma_view_of_steps, operator_from_chars, path_models, FilterExpr, Operator, PathExpr,
    PathModel,
};
use crate::value::Value;
use vstd::prelude::*;
use vstd::slice::slice_subrange;

verus! {

/// What the result of reading a construct stands for: the form of the
/// construct and the position after it, or the form of the error.
pub open spec fn parsed<T: View>(r: Result<(T, usize), ParseError>) -> Parsed<T::V> {
    match r {
        Ok((value, next)) => Ok((value@, next as int)),
        Err(e) => Err(e@),
    }
}

/// Whether reading a construct at `pos` ended, if it succeeded, after
/// `pos` and inside the input.
pub open spec fn advanced<T>(r: Result<(T, usize), ParseError>, pos: usize, len: usize) -> bool {
    r matches Ok((_, next)) ==> pos < next <= len
}

/// The character at `pos`, if `pos` is inside the input.
pub fn peek(input: &[char], pos: usize) -> (c: Option<char>)
    ensures
        c == peek_at(input@, pos as int),
{
    if pos < input.len() {
        Some(input[pos])
    } else {
        None
    }
}

/// The characters of `input` between `from` and `to`, as a string.
pub fn string_of(input: &[char], from: usize, to: usize) -> (text: String)
    requires
        from <= to <= input.len(),
    ensures
        text@ == input@.subrange(from as int, to as int),
{
    let mut text = String::new();
    let mut i: usize = from;
    while i < to
        invariant
            from <= i <= to <= input.len(),
            text@ == input@.subrange(from as int, i as int),
        decreases to - i,
    {
        text.push(input[i]);
        i += 1;
    }
    text
}

/// Expects the character `expected` at `pos` and steps over it.
pub fn expect_char(input: &[char], pos: usize, expected: char) -> (r: Result<usize, ParseError>)
    ensures
        match r {
            Ok(next) => expected_char(input@, pos as int, expected) == Ok::<int, ParseErrorModel>(
                next as int,
            ),
            Err(e) => expected_char(input@, pos as int, expected) == Err::<int, ParseErrorModel>(
                e@,
            ),
        },
        r is Ok ==> pos < input.len(),
{
    if pos < input.len() {
        let c = input[pos];
        if c == expected {
            Ok(pos + 1)
        } else {
            Err(ParseError::UnexpectedChar { expected, found: Some(c) })
        }
    } else {
        Err(ParseError::UnexpectedChar { expected, found: None })
    }
}

/// Steps over white space: the position of the first character from `pos`
/// on that is none.
pub fn skip_whitespace(input: &[char], pos: usize) -> (next: usize)
    ensures
        next == after_whitespace(input@, pos as int),
        pos <= next,
        pos <= input.len() ==> next <= input.len(),
{
    scan_run(input, pos, CharClass::Space)
}

/// Reads a property name at `pos`.
pub fn parse_identifier(input: &[char], pos: usize) -> (r: Result<(String, usize), ParseError>)
    ensures
        parsed(r) == identifier_at(input@, pos as int),
        advanced(r, pos, input.len()),
{
    let end = scan_run(input, pos, CharClass::Word);
    if end == pos {
        Err(ParseError::ExpectedIdentifier)
    } else {
        Ok((string_of(input, pos, end), end))
    }
}

/// Reads a sequence index at `pos`.
pub fn parse_number(input: &[char], pos: usize) -> (r: Result<(usize, usize), ParseError>)
    ensures
        parsed(r) == number_at(input@, pos as int),
        advanced(r, pos, input.len()),
{
    let end = scan_run(input, pos, CharClass::Digit);
    if end == pos {
        return Err(ParseError::InvalidNumber);
    }
    proof {
        lemma_run_end(input@, pos as int, CharClass::Digit);
    }
    match read_decimal(input, pos, end, usize::MAX as u64) {
        Some(value) => Ok((value as usize, end)),
        None => Err(ParseError::InvalidNumber),
    }
}

/// Reads an operator at `pos`, with the white space around it.
pub fn parse_operator(input: &[char], pos: usize) -> (r: Result<(Operator, usize), ParseError>)
    ensures
        parsed(r) == operator_at(input@, pos as int),
        advanced(r, pos, input.len()),
{
    let start = skip_whitespace(input, pos);
    let end = scan_run(input, start, CharClass::Sign);
    if end == start {
        return Err(ParseError::ExpectedOperator);
    }
    match operator_from_chars(slice_subrange(input, start, end)) {
        Some(op) => Ok((op, skip_whitespace(input, end))),
        None => Err(ParseError::UnsupportedOperator(string_of(input, start, end))),
    }
}

/// Reads a number literal at `pos`.
pub fn parse_numeral(input: &[char], pos: usize) -> (r: Result<(Value, usize), ParseError>)
    ensures
        parsed(r) == numeral_at(input@, pos as int),
        advanced(r, pos, input.len()),
{
    if pos >= input.len() {
        return Err(ParseError::InvalidInteger);
    }
    let negative = input[pos] == '-';
    let start = if negative {
        pos + 1
    } else {
        pos
    };
    let end = scan_run(input, start, CharClass::Numeral);
    let digits_end = scan_run(input, start, CharClass::Digit);
    let ghost body = input@.subrange(start as int, end as int);
    proof {
        lemma_run_end(input@, start as int, CharClass::Numeral);
        lemma_run_end(input@, start as int, CharClass::Digit);
        if digits_end < end {
            assert(body[digits_end - start] == '.');
        }
    }
    if end == start {
        Err(ParseError::InvalidInteger)
    } else if digits_end < end {
        if check_fraction(input, start, end) {
            Ok((Value::Float(string_of(input, pos, end)), end))
        } else {
            Err(ParseError::InvalidFloat)
        }
    } else {
        let limit: u64 = if negative {
            0x8000_0000_0000_0000
        } else {
            0x7fff_ffff_ffff_ffff
        };
        match read_decimal(input, start, end, limit) {
            Some(magnitude) => {
                let value: i64 = if !negative {
                    magnitude as i64
                } else if magnitude == 0x8000_0000_0000_0000 {
                    i64::MIN
                } else {
                    -(magnitude as i64)
                };
                Ok((Value::Int(value), end))
            },
            None => Err(ParseError::InvalidInteger),
        }
    }
}

/// Reads a literal at `pos`, after white space.
pub fn parse_value(input: &[char], pos: usize) -> (r: Result<(Value, usize), ParseError>)
    ensures
        parsed(r) == value_at(input@, pos as int),
        advanced(r, pos, input.len()),
{
    let start = skip_whitespace(input, pos);
    match peek(input, start) {
        Some(c) => if c == '"' {
            let end = scan_run(input, start + 1, CharClass::Unquoted);
            if end >= input.len() {
                Err(ParseError::UnterminatedString)
            } else {
                Ok((Value::String(string_of(input, start + 1, end)), end + 1))
            }
        } else if c == 't' {
            if peek(input, start + 1) == Some('r') && peek(input, start + 2) == Some('u') && peek(
                input,
                start + 3,
            ) == Some('e') {
                assert(input@.subrange(start as int, start + 4) =~= seq!['t', 'r', 'u', 'e']);
                Ok((Value::Bool(true), start + 4))
            } else {
                Err(ParseError::ExpectedTrue)
            }
        } else if c == 'f' {
            if peek(input, start + 1) == Some('a') && peek(input, start + 2) == Some('l') && peek(
                input,
                start + 3,
            ) == Some('s') && peek(input, start + 4) == Some('e') {
                assert(input@.subrange(start as int, start + 5) =~= seq![
                    'f',
                    'a',
                    'l',
                    's',
                    'e',
                ]);
                Ok((Value::Bool(false), start + 5))
            } else {
                Err(ParseError::ExpectedFalse)
            }
        } else if c == 'n' {
            if peek(input, start + 1) == Some('u') && peek(input, start + 2) == Some('l') && peek(
                input,
                start + 3,
            ) == Some('l') {
                assert(input@.subrange(start as int, start + 4) =~= seq!['n', 'u', 'l', 'l']);
                Ok((Value::Null, start + 4))
            } else {
                Err(ParseError::ExpectedNull)
            }
        } else if ('0' <= c && c <= '9') || c == '-' {
            parse_numeral(input, start)
        } else {
            Err(ParseError::ExpectedValue)
        },
        None => Err(ParseError::ExpectedValue),
    }
}

/// Chains two path expressions: the first is applied, then the second to
/// all that the first selects.
pub fn chain(first: PathExpr, second: PathExpr) -> (path: PathExpr)
    ensures
        path@ == PathModel::Sequence(seq![first@, second@]),
{
    let mut steps: Vec<PathExpr> = Vec::new();
    steps.push(first);
    steps.push(second);
    let path = PathExpr::Sequence(steps);
    proof {
        lemma_view_of_steps(path);
        assert(path_models(steps@) =~= seq![first@, second@]);
    }
    path
}

/// Reads a segment at `pos`, with the segments that follow it.
pub fn parse_path_segment(input: &[char], pos: usize) -> (r: Result<(PathExpr, usize), ParseError>)
    ensures
        parsed(r) == segment_at(input@, pos as int),
        advanced(r, pos, input.len()),
    decreases input.len() - pos, 0nat,
{
    match peek(input, pos) {
        Some('.') => {
            match peek(input, pos + 1) {
                Some('.') => {
                    let (name, end) = parse_identifier(input, pos + 2)?;
                    Ok((chain(PathExpr::RecursiveDescent, PathExpr::Property(name)), end))
                },
                Some('*') => parse_chained(input, pos + 2, PathExpr::Wildcard),
                _ => {
                    let (name, end) = parse_identifier(input, pos + 1)?;
                    parse_chained(input, end, PathExpr::Property(name))
                },
            }
        },
        Some('[') => {
            match peek(input, pos + 1) {
                Some('*') => {
                    let end = expect_char(input, pos + 2, ']')?;
                    parse_chained(input, end, PathExpr::Wildcard)
                },
                Some('?') => {
                    let start = expect_char(input, pos + 2, '(')?;
                    let (filter, inner) = parse_filter_expression(input, start)?;
                    let outer = expect_char(input, inner, ')')?;
                    let end = expect_char(input, outer, ']')?;
                    parse_chained(input, end, PathExpr::Filter(Box::new(filter)))
                },
                Some(c) => {
                    if '0' <= c && c <= '9' {
                        let (index, digits_end) = parse_number(input, pos + 1)?;
                        let end = expect_char(input, digits_end, ']')?;
                        parse_chained(input, end, PathExpr::Index(index))
                    } else {
                        Err(ParseError::InvalidSelector)
                    }
                },
                None => Err(ParseError::InvalidSelector),
            }
        },
        _ => Err(ParseError::ExpectedSegment),
    }
}

/// Chains the segment `head`, which ends at `pos`, with the segment that
/// begins at `pos`, if one does.
pub fn parse_chained(input: &[char], pos: usize, head: PathExpr) -> (r: Result<
    (PathExpr, usize),
    ParseError,
>)
    ensures
        parsed(r) == chained_at(input@, pos as int, head@),
        r matches Ok((_, next)) ==> pos <= next && (pos <= input.len() ==> next <= input.len()),
    decreases input.len() - pos, 1nat,
{
    let c = peek(input, pos);
    if c == Some('.') || c == Some('[') {
        let (rest, end) = parse_path_segment(input, pos)?;
        Ok((chain(head, rest), end))
    } else {
        Ok((head, pos))
    }
}

/// Reads a comparison at `pos`.
pub fn parse_filter_term(input: &[char], pos: usize) -> (r: Result<(FilterExpr, usize), ParseError>)
    ensures
        parsed(r) == filter_term_at(input@, pos as int),
        advanced(r, pos, input.len()),
    decreases input.len() - pos, 1nat,
{
    let start = skip_whitespace(input, pos);
    let path_start = expect_char(input, start, '@')?;
    let (path, path_end) = parse_path_segment(input, path_start)?;
    let (op, op_end) = parse_operator(input, path_end)?;
    let (literal, end) = parse_value(input, op_end)?;
    match op {
        Operator::Equals => Ok((FilterExpr::Equals(Box::new(path), literal), end)),
        Operator::NotEquals => Ok((FilterExpr::NotEquals(Box::new(path), literal), end)),
        Operator::GreaterThan => Ok((FilterExpr::GreaterThan(Box::new(path), literal), end)),
        Operator::LessThan => Ok((FilterExpr::LessThan(Box::new(path), literal), end)),
        _ => Err(ParseError::UnexpectedOperator(op)),
    }
}

/// Reads a filter at `pos`.
pub fn parse_filter_expression(input: &[char], pos: usize) -> (r: Result<
    (FilterExpr, usize),
    ParseError,
>)
    ensures
        parsed(r) == filter_at(input@, pos as int),
        advanced(r, pos, input.len()),
    decreases input.len() - pos, 2nat,
{
    let (left, left_end) = parse_filter_term(input, pos)?;
    let at = skip_whitespace(input, left_end);
    match peek(input, at) {
        Some(c) => {
            if c == '&' || c == '|' {
                let found = peek(input, at + 1);
                if found != Some(c) {
                    return Err(ParseError::IncompleteConnective { symbol: c, found });
                }
                let right_start = skip_whitespace(input, at + 2);
                let (right, end) = parse_filter_expression(input, right_start)?;
                if c == '&' {
                    Ok((FilterExpr::And(Box::new(left), Box::new(right)), end))
                } else {
                    Ok((FilterExpr::Or(Box::new(left), Box::new(right)), end))
                }
            } else {
                Ok((left, at))
            }
        },
        None => Ok((left, at)),
    }
}

/// Parses a path expression.
///
/// The text begins with `$` or with the `.` of its first segment, and ends
/// with its last segment; the result is the root followed by the segments.
/// A text that goes on after its last segment is an error.
pub fn parse_path(path: &str) -> (r: Result<PathExpr, ParseError>)
    ensures
        match r {
            Ok(expr) => path_of(path@) == Ok::<PathModel, ParseErrorModel>(expr@),
            Err(error) => path_of(path@) == Err::<PathModel, ParseErrorModel>(error@),
        },
{
    let chars = chars_of(path);
    let input = chars.as_slice();
    let start: usize = match peek(input, 0) {
        Some('$') => 1,
        Some('.') => 0,
        _ => {
            return Err(ParseError::MissingRoot);
        },
    };
    let (rest, end) = parse_path_segment(input, start)?;
    match peek(input, end) {
        Some(found) => Err(ParseError::ExpectedEnd { found }),
        None => Ok(chain(PathExpr::Root, rest)),
    }
}

} // verus!
