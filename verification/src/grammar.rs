use crate::error::ParseErrorModel;
use crate::text::{
    decimal_value, is_digit, is_fraction, lemma_run_end, peek_at, run_end, CharClass,
};
use crate::types::{operator_of, FilterModel, Operator, PathModel};
use crate::value::ValueModel;
use vstd::prelude::*;

verus! {

/// What the parser of a construct makes of a text at a position: the
/// construct that it reads and the position after it, or the error that
/// ends the parse.
pub type Parsed<T> = Result<(T, int), ParseErrorModel>;

/// The character `expected` at `pos`: the position after it.
pub open spec fn expected_char(s: Seq<char>, pos: int, expected: char) -> Result<
    int,
    ParseErrorModel,
> {
    match peek_at(s, pos) {
        Some(c) => if c == expected {
            Ok(pos + 1)
        } else {
            Err(ParseErrorModel::UnexpectedChar { expected, found: Some(c) })
        },
        None => Err(ParseErrorModel::UnexpectedChar { expected, found: None }),
    }
}

/// The position of the first character from `pos` on that is no white
/// space.
pub open spec fn after_whitespace(s: Seq<char>, pos: int) -> int {
    run_end(s, pos, CharClass::Space)
}

/// A property name at `pos`: the longest run of name characters, which
/// must not be empty.
pub open spec fn identifier_at(s: Seq<char>, pos: int) -> Parsed<Seq<char>> {
    let end = run_end(s, pos, CharClass::Word);
    if end == pos {
        Err(ParseErrorModel::ExpectedIdentifier)
    } else {
        Ok((s.subrange(pos, end), end))
    }
}

/// A sequence index at `pos`: the longest run of digits, which must not be
/// empty and must spell a number that a machine word holds.
pub open spec fn number_at(s: Seq<char>, pos: int) -> Parsed<usize> {
    let end = run_end(s, pos, CharClass::Digit);
    let value = decimal_value(s.subrange(pos, end));
    if end == pos || value > usize::MAX {
        Err(ParseErrorModel::InvalidNumber)
    } else {
        Ok((value as usize, end))
    }
}

/// An operator at `pos`, with white space before and after it: the
/// longest run of operator characters, which must spell an operator of the
/// language.
pub open spec fn operator_at(s: Seq<char>, pos: int) -> Parsed<Operator> {
    let start = after_whitespace(s, pos);
    let end = run_end(s, start, CharClass::Sign);
    let text = s.subrange(start, end);
    if end == start {
        Err(ParseErrorModel::ExpectedOperator)
    } else {
        match operator_of(text) {
            Some(op) => Ok((op, after_whitespace(s, end))),
            None => Err(ParseErrorModel::UnsupportedOperator(text)),
        }
    }
}

/// Whether `word` stands in `s` at `pos`.
pub open spec fn word_at(s: Seq<char>, pos: int, word: Seq<char>) -> bool {
    0 <= pos && pos + word.len() <= s.len() && s.subrange(pos, pos + word.len()) == word
}

/// A number literal at `pos`: an optional `-`, then the longest run of
/// digits and `.`, which must not be empty.
///
/// With a `.` in it the run must be a decimal fraction, digits, one `.` and
/// digits, with a digit on each side of the `.`; the literal is then a float
/// that keeps the text as written. A run that begins or ends with `.`, or
/// has more than one, is an error. Without a `.` the run must spell, with its
/// sign, a number of 64 bits.
pub open spec fn numeral_at(s: Seq<char>, pos: int) -> Parsed<ValueModel> {
    let negative = peek_at(s, pos) == Some('-');
    let start = if negative {
        pos + 1
    } else {
        pos
    };
    let end = run_end(s, start, CharClass::Numeral);
    let body = s.subrange(start, end);
    if end == start {
        Err(ParseErrorModel::InvalidInteger)
    } else if body.contains('.') {
        if is_fraction(body) {
            Ok((ValueModel::Float(s.subrange(pos, end)), end))
        } else {
            Err(ParseErrorModel::InvalidFloat)
        }
    } else {
        let magnitude = decimal_value(body);
        let value: int = if negative {
            -magnitude
        } else {
            magnitude as int
        };
        if value < i64::MIN || value > i64::MAX {
            Err(ParseErrorModel::InvalidInteger)
        } else {
            Ok((ValueModel::Int(value), end))
        }
    }
}

/// A literal at `pos`, after white space: a string between double quotes,
/// which runs to the next double quote; `true`, `false` or `null`; or a
/// number.
pub open spec fn value_at(s: Seq<char>, pos: int) -> Parsed<ValueModel> {
    let start = after_whitespace(s, pos);
    match peek_at(s, start) {
        Some(c) => if c == '"' {
            let end = run_end(s, start + 1, CharClass::Unquoted);
            if end >= s.len() {
                Err(ParseErrorModel::UnterminatedString)
            } else {
                Ok((ValueModel::String(s.subrange(start + 1, end)), end + 1))
            }
        } else if c == 't' {
            if word_at(s, start, seq!['t', 'r', 'u', 'e']) {
                Ok((ValueModel::Bool(true), start + 4))
            } else {
                Err(ParseErrorModel::ExpectedTrue)
            }
        } else if c == 'f' {
            if word_at(s, start, seq!['f', 'a', 'l', 's', 'e']) {
                Ok((ValueModel::Bool(false), start + 5))
            } else {
                Err(ParseErrorModel::ExpectedFalse)
            }
        } else if c == 'n' {
            if word_at(s, start, seq!['n', 'u', 'l', 'l']) {
                Ok((ValueModel::Null, start + 4))
            } else {
                Err(ParseErrorModel::ExpectedNull)
            }
        } else if is_digit(c) || c == '-' {
            numeral_at(s, start)
        } else {
            Err(ParseErrorModel::ExpectedValue)
        },
        None => Err(ParseErrorModel::ExpectedValue),
    }
}

/// The comparison that an operator makes of a path and a literal; a
/// logical operator makes none.
pub open spec fn comparison(op: Operator, path: PathModel, literal: ValueModel) -> Result<
    FilterModel,
    ParseErrorModel,
> {
    match op {
        Operator::Equals => Ok(FilterModel::Equals(Box::new(path), literal)),
        Operator::NotEquals => Ok(FilterModel::NotEquals(Box::new(path), literal)),
        Operator::GreaterThan => Ok(FilterModel::GreaterThan(Box::new(path), literal)),
        Operator::LessThan => Ok(FilterModel::LessThan(Box::new(path), literal)),
        _ => Err(ParseErrorModel::UnexpectedOperator(op)),
    }
}

/// Whether a segment begins with `c`.
pub open spec fn starts_segment(c: Option<char>) -> bool {
    c == Some('.') || c == Some('[')
}

/// A segment at `pos`, with the segments that follow it.
///
/// After `.` stands `.` and a name (everything below, then the property),
/// `*` (every child) or a name (the property). After `[` stands `*]`,
/// `?(`, a filter and `)]`, or an index and `]`. But for the first form,
/// a segment that is followed at once by `.` or `[` is chained with the
/// segment that begins there.
pub open spec fn segment_at(s: Seq<char>, pos: int) -> Parsed<PathModel>
    decreases s.len() - pos, 0nat,
{
    if peek_at(s, pos) == Some('.') {
        if peek_at(s, pos + 1) == Some('.') {
            match identifier_at(s, pos + 2) {
                Ok((name, end)) => Ok(
                    (
                        PathModel::Sequence(
                            seq![PathModel::RecursiveDescent, PathModel::Property(name)],
                        ),
                        end,
                    ),
                ),
                Err(e) => Err(e),
            }
        } else if peek_at(s, pos + 1) == Some('*') {
            chained_at(s, pos + 2, PathModel::Wildcard)
        } else {
            match identifier_at(s, pos + 1) {
                Ok((name, end)) => {
                    proof {
                        lemma_run_end(s, pos + 1, CharClass::Word);
                    }
                    chained_at(s, end, PathModel::Property(name))
                },
                Err(e) => Err(e),
            }
        }
    } else if peek_at(s, pos) == Some('[') {
        if peek_at(s, pos + 1) == Some('*') {
            match expected_char(s, pos + 2, ']') {
                Ok(end) => chained_at(s, end, PathModel::Wildcard),
                Err(e) => Err(e),
            }
        } else if peek_at(s, pos + 1) == Some('?') {
            match expected_char(s, pos + 2, '(') {
                Ok(start) => match filter_at(s, start) {
                    Ok((filter, inner)) => match expected_char(s, inner, ')') {
                        Ok(outer) => match expected_char(s, outer, ']') {
                            // A filter ends after the place where it begins; the test
                            // serves the argument that this definition terminates.
                            Ok(end) => if end > pos {
                                chained_at(s, end, PathModel::Filter(Box::new(filter)))
                            } else {
                                Err(ParseErrorModel::InvalidSelector)
                            },
                            Err(e) => Err(e),
                        },
                        Err(e) => Err(e),
                    },
                    Err(e) => Err(e),
                },
                Err(e) => Err(e),
            }
        } else if peek_at(s, pos + 1) is Some && is_digit(peek_at(s, pos + 1)->0) {
            match number_at(s, pos + 1) {
                Ok((index, digits_end)) => match expected_char(s, digits_end, ']') {
                    Ok(end) => chained_at(s, end, PathModel::Index(index as nat)),
                    Err(e) => Err(e),
                },
                Err(e) => Err(e),
            }
        } else {
            Err(ParseErrorModel::InvalidSelector)
        }
    } else {
        Err(ParseErrorModel::ExpectedSegment)
    }
}

/// The segment `head`, which ends at `pos`, chained with the segment that
/// begins at `pos` if `.` or `[` stands there.
pub open spec fn chained_at(s: Seq<char>, pos: int, head: PathModel) -> Parsed<PathModel>
    decreases s.len() - pos, 1nat,
{
    if starts_segment(peek_at(s, pos)) {
        match segment_at(s, pos) {
            Ok((rest, end)) => Ok((PathModel::Sequence(seq![head, rest]), end)),
            Err(e) => Err(e),
        }
    } else {
        Ok((head, pos))
    }
}

/// A comparison at `pos`: `@`, a segment, an operator and a literal, with
/// white space allowed before `@` and around the operator.
pub open spec fn filter_term_at(s: Seq<char>, pos: int) -> Parsed<FilterModel>
    decreases s.len() - pos, 1nat,
{
    let start = after_whitespace(s, pos);
    match expected_char(s, start, '@') {
        Ok(path_start) => match segment_at(s, path_start) {
            Ok((path, path_end)) => match operator_at(s, path_end) {
                Ok((op, op_end)) => match value_at(s, op_end) {
                    Ok((literal, end)) => match comparison(op, path, literal) {
                        Ok(filter) => Ok((filter, end)),
                        Err(e) => Err(e),
                    },
                    Err(e) => Err(e),
                },
                Err(e) => Err(e),
            },
            Err(e) => Err(e),
        },
        Err(e) => Err(e),
    }
}

/// A filter at `pos`: a comparison, or a comparison, `&&` or `||` and a
/// filter, with white space allowed around the connective. A connective
/// binds what stands to its right first. The white space after the last
/// comparison belongs to the filter.
pub open spec fn filter_at(s: Seq<char>, pos: int) -> Parsed<FilterModel>
    decreases s.len() - pos, 2nat,
{
    match filter_term_at(s, pos) {
        Ok((left, left_end)) => {
            let at = after_whitespace(s, left_end);
            match peek_at(s, at) {
                Some(c) => if c == '&' || c == '|' {
                    if peek_at(s, at + 1) != Some(c) {
                        Err(
                            ParseErrorModel::IncompleteConnective {
                                symbol: c,
                                found: peek_at(s, at + 1),
                            },
                        )
                    } else {
                        let right_start = after_whitespace(s, at + 2);
                        proof {
                            lemma_run_end(s, at + 2, CharClass::Space);
                        }
                        // The right side begins after the place where the left
                        // side does; the test serves the argument that this
                        // definition terminates.
                        if right_start > pos {
                            match filter_at(s, right_start) {
                                Ok((right, end)) => Ok(
                                    (
                                        if c == '&' {
                                            FilterModel::And(Box::new(left), Box::new(right))
                                        } else {
                                            FilterModel::Or(Box::new(left), Box::new(right))
                                        },
                                        end,
                                    ),
                                ),
                                Err(e) => Err(e),
                            }
                        } else {
                            Err(ParseErrorModel::ExpectedValue)
                        }
                    }
                } else {
                    Ok((left, at))
                },
                None => Ok((left, at)),
            }
        },
        Err(e) => Err(e),
    }
}

/// A path expression: `$` and a segment, or a segment that begins with
/// `.`, and then the end of the text. The result is the root followed by the
/// segment. A character that stands after the segment is an error: so is a
/// `]` or `)` that closes nothing, and whatever follows `..` and its name.
pub open spec fn path_of(s: Seq<char>) -> Result<PathModel, ParseErrorModel> {
    let start = if peek_at(s, 0) == Some('$') {
        1int
    } else {
        0int
    };
    if peek_at(s, 0) == Some('$') || peek_at(s, 0) == Some('.') {
        match segment_at(s, start) {
            Ok((rest, end)) => match peek_at(s, end) {
                Some(found) => Err(ParseErrorModel::ExpectedEnd { found }),
                None => Ok(PathModel::Sequence(seq![PathModel::Root, rest])),
            },
            Err(e) => Err(e),
        }
    } else {
        Err(ParseErrorModel::MissingRoot)
    }
}

/// Whether the grammar reads the whole of `s` as a path: from the first
/// character to the last, with nothing left over.
pub open spec fn reads_whole(s: Seq<char>) -> bool {
    let start = if peek_at(s, 0) == Some('$') {
        1int
    } else {
        0int
    };
    &&& peek_at(s, 0) == Some('$') || peek_at(s, 0) == Some('.')
    &&& segment_at(s, start) matches Ok((_, end)) && end == s.len()
}

/// What a literal, an operator, a name or an index reads ends after the
/// place where it begins, inside the text.
pub proof fn lemma_tokens_advance(s: Seq<char>, pos: int)
    requires
        0 <= pos,
    ensures
        identifier_at(s, pos) matches Ok((_, end)) ==> pos < end <= s.len(),
        number_at(s, pos) matches Ok((_, end)) ==> pos < end <= s.len(),
        operator_at(s, pos) matches Ok((_, end)) ==> pos < end <= s.len(),
        value_at(s, pos) matches Ok((_, end)) ==> pos < end <= s.len(),
        pos <= s.len() ==> pos <= after_whitespace(s, pos) <= s.len(),
{
    if pos <= s.len() {
        lemma_run_end(s, pos, CharClass::Word);
        lemma_run_end(s, pos, CharClass::Digit);
        lemma_run_end(s, pos, CharClass::Space);
        let start = after_whitespace(s, pos);
        lemma_run_end(s, start, CharClass::Sign);
        lemma_run_end(s, run_end(s, start, CharClass::Sign), CharClass::Space);
        if start < s.len() {
            lemma_run_end(s, start + 1, CharClass::Unquoted);
            lemma_numeral_advances(s, start);
        }
    }
}

/// A number literal ends after the place where it begins, inside the
/// text.
pub proof fn lemma_numeral_advances(s: Seq<char>, pos: int)
    requires
        0 <= pos <= s.len(),
    ensures
        numeral_at(s, pos) matches Ok((_, end)) ==> pos < end <= s.len(),
{
    let start = if peek_at(s, pos) == Some('-') {
        pos + 1
    } else {
        pos
    };
    lemma_run_end(s, start, CharClass::Numeral);
}

/// A segment ends after the place where it begins, inside the text.
pub proof fn lemma_segment_advances(s: Seq<char>, pos: int)
    ensures
        segment_at(s, pos) matches Ok((_, end)) ==> pos < end <= s.len(),
    decreases s.len() - pos, 0nat,
{
    if peek_at(s, pos) == Some('.') {
        if peek_at(s, pos + 1) == Some('.') {
            lemma_tokens_advance(s, pos + 2);
        } else if peek_at(s, pos + 1) == Some('*') {
            lemma_chained_advances(s, pos + 2, PathModel::Wildcard);
        } else {
            lemma_tokens_advance(s, pos + 1);
            match identifier_at(s, pos + 1) {
                Ok((name, end)) => {
                    lemma_chained_advances(s, end, PathModel::Property(name));
                },
                Err(_) => {},
            }
        }
    } else if peek_at(s, pos) == Some('[') {
        if peek_at(s, pos + 1) == Some('*') {
            match expected_char(s, pos + 2, ']') {
                Ok(end) => {
                    lemma_chained_advances(s, end, PathModel::Wildcard);
                },
                Err(_) => {},
            }
        } else if peek_at(s, pos + 1) == Some('?') {
            match expected_char(s, pos + 2, '(') {
                Ok(start) => {
                    lemma_filter_advances(s, start);
                    match filter_at(s, start) {
                        Ok((filter, inner)) => match expected_char(s, inner, ')') {
                            Ok(outer) => match expected_char(s, outer, ']') {
                                Ok(end) => {
                                    lemma_chained_advances(
                                        s,
                                        end,
                                        PathModel::Filter(Box::new(filter)),
                                    );
                                },
                                Err(_) => {},
                            },
                            Err(_) => {},
                        },
                        Err(_) => {},
                    }
                },
                Err(_) => {},
            }
        } else if peek_at(s, pos + 1) is Some && is_digit(peek_at(s, pos + 1)->0) {
            lemma_tokens_advance(s, pos + 1);
            match number_at(s, pos + 1) {
                Ok((index, digits_end)) => match expected_char(s, digits_end, ']') {
                    Ok(end) => {
                        lemma_chained_advances(s, end, PathModel::Index(index as nat));
                    },
                    Err(_) => {},
                },
                Err(_) => {},
            }
        }
    }
}

/// A chain of segments ends inside the text, not before the place where
/// it begins.
pub proof fn lemma_chained_advances(s: Seq<char>, pos: int, head: PathModel)
    requires
        0 <= pos <= s.len(),
    ensures
        chained_at(s, pos, head) matches Ok((_, end)) ==> pos <= end <= s.len(),
    decreases s.len() - pos, 1nat,
{
    if starts_segment(peek_at(s, pos)) {
        lemma_segment_advances(s, pos);
    }
}

/// A comparison ends after the place where it begins, inside the text.
pub proof fn lemma_filter_term_advances(s: Seq<char>, pos: int)
    requires
        0 <= pos <= s.len(),
    ensures
        filter_term_at(s, pos) matches Ok((_, end)) ==> pos < end <= s.len(),
    decreases s.len() - pos, 1nat,
{
    lemma_tokens_advance(s, pos);
    let start = after_whitespace(s, pos);
    match expected_char(s, start, '@') {
        Ok(path_start) => {
            lemma_segment_advances(s, path_start);
            match segment_at(s, path_start) {
                Ok((path, path_end)) => {
                    lemma_tokens_advance(s, path_end);
                    match operator_at(s, path_end) {
                        Ok((op, op_end)) => {
                            lemma_tokens_advance(s, op_end);
                        },
                        Err(_) => {},
                    }
                },
                Err(_) => {},
            }
        },
        Err(_) => {},
    }
}

/// A filter ends after the place where it begins, inside the text. So
/// the two tests on positions in [`segment_at`] and [`filter_at`] never
/// fail.
pub proof fn lemma_filter_advances(s: Seq<char>, pos: int)
    requires
        0 <= pos <= s.len(),
    ensures
        filter_at(s, pos) matches Ok((_, end)) ==> pos < end <= s.len(),
    decreases s.len() - pos, 2nat,
{
    lemma_filter_term_advances(s, pos);
    match filter_term_at(s, pos) {
        Ok((left, left_end)) => {
            lemma_tokens_advance(s, left_end);
            let at = after_whitespace(s, left_end);
            match peek_at(s, at) {
                Some(c) => {
                    if (c == '&' || c == '|') && peek_at(s, at + 1) == Some(c) {
                        lemma_tokens_advance(s, at + 2);
                        lemma_filter_advances(s, after_whitespace(s, at + 2));
                    }
                },
                None => {},
            }
        },
        Err(_) => {},
    }
}

/// A text is a path if and only if the grammar reads the whole of it:
/// the segments begin after the root and end where the text ends.
pub proof fn law_path_takes_whole_text(s: Seq<char>)
    ensures
        path_of(s) is Ok <==> reads_whole(s),
{
    if peek_at(s, 0) == Some('$') {
        lemma_segment_advances(s, 1);
    } else {
        lemma_segment_advances(s, 0);
    }
}

} // verus!
