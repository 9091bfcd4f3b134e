use crate::error::ParseErrorModel;
use crate::grammar::{
    after_whitespace, chained_at, filter_at, filter_term_at, numeral_at, operator_at, path_of,
    segment_at, starts_segment, value_at,
};
use crate::json::{int_text, nat_text};
use crate::text::{
    all_digits, decimal_value, digit_value, is_digit, is_fraction, is_sign, is_space, is_word,
    lemma_run_end_unique, peek_at, run_end, CharClass,
};
use crate::types::{operator_of, FilterModel, Operator, PathModel};
use crate::value::ValueModel;
use vstd::prelude::*;

verus! {

/// Whether `text` stands in `s` at `pos`.
pub open spec fn occurs_at(s: Seq<char>, pos: int, text: Seq<char>) -> bool {
    &&& 0 <= pos
    &&& pos + text.len() <= s.len()
    &&& forall|i: int| 0 <= i < text.len() ==> s[pos + i] == #[trigger] text[i]
}

/// Where a text of two parts stands, its parts stand one after the other.
pub proof fn lemma_occurs_in_parts(s: Seq<char>, pos: int, a: Seq<char>, b: Seq<char>)
    requires
        occurs_at(s, pos, a + b),
    ensures
        occurs_at(s, pos, a),
        occurs_at(s, pos + a.len(), b),
{
    assert forall|i: int| 0 <= i < a.len() implies s[pos + i] == #[trigger] a[i] by {
        assert((a + b)[i] == a[i]);
    }
    assert forall|i: int| 0 <= i < b.len() implies s[pos + a.len() + i] == #[trigger] b[i] by {
        assert((a + b)[a.len() + i] == b[i]);
    }
}

/// Where a text stands, the characters from its place on are the text.
pub proof fn lemma_occurs_is_subrange(s: Seq<char>, pos: int, text: Seq<char>)
    requires
        occurs_at(s, pos, text),
    ensures
        s.subrange(pos, pos + text.len()) == text,
{
    assert(s.subrange(pos, pos + text.len()) =~= text);
}

/// Whether every character of `text` is of `class`.
pub open spec fn all_of(text: Seq<char>, class: CharClass) -> bool {
    forall|i: int| 0 <= i < text.len() ==> class.holds(#[trigger] text[i])
}

/// Where a text of one class stands and no character of the class
/// follows it, the run that begins there is the text.
pub proof fn lemma_run_over(s: Seq<char>, pos: int, text: Seq<char>, class: CharClass)
    requires
        occurs_at(s, pos, text),
        all_of(text, class),
        match peek_at(s, pos + text.len()) {
            Some(c) => !class.holds(c),
            None => true,
        },
    ensures
        run_end(s, pos, class) == pos + text.len(),
{
    assert forall|i: int| pos <= i < pos + text.len() implies class.holds(s[i]) by {
        assert(s[pos + (i - pos)] == text[i - pos]);
    }
    lemma_run_end_unique(s, pos, class, pos + text.len());
}

/// The digits of a number are digits, at least one, and spell the
/// number.
pub proof fn lemma_nat_text(n: nat)
    ensures
        nat_text(n).len() >= 1,
        all_digits(nat_text(n)),
        all_of(nat_text(n), CharClass::Digit),
        all_of(nat_text(n), CharClass::Numeral),
        !nat_text(n).contains('.'),
        decimal_value(nat_text(n)) == n,
    decreases n,
{
    let text = nat_text(n);
    if n < 10 {
        assert(text =~= seq![('0' as int + n) as char]);
        assert(text.drop_last() =~= Seq::<char>::empty());
        assert(decimal_value(text.drop_last()) == 0);
        assert(digit_value(text.last()) == n);
    } else {
        lemma_nat_text(n / 10);
        let front = nat_text(n / 10);
        let last = ('0' as int + n % 10) as char;
        assert(text == front.push(last));
        assert(text.drop_last() =~= front);
        assert(text.last() == last);
        assert(digit_value(last) == n % 10);
        assert forall|i: int| 0 <= i < text.len() implies is_digit(#[trigger] text[i]) by {
            if i < front.len() {
                assert(text[i] == front[i]);
            }
        }
    }
    assert(!is_digit('.'));
    if text.contains('.') {
        let k = choose|k: int| 0 <= k < text.len() && text[k] == '.';
        assert(is_digit(text[k]));
    }
}

/// Whether a literal can be written in a filter: a string without a
/// double quote, `true`, `false`, `null`, an integer of 64 bits, or a float
/// whose text is a decimal fraction, with `-` before it or not.
pub open spec fn is_literal(v: ValueModel) -> bool {
    match v {
        ValueModel::String(text) => all_of(text, CharClass::Unquoted),
        ValueModel::Bool(_) => true,
        ValueModel::Null => true,
        ValueModel::Int(number) => i64::MIN <= number <= i64::MAX,
        ValueModel::Float(text) => is_fraction(float_body(text)),
        _ => false,
    }
}

/// The text of a float without its sign.
pub open spec fn float_body(text: Seq<char>) -> Seq<char> {
    if text.len() > 0 && text[0] == '-' {
        text.skip(1)
    } else {
        text
    }
}

/// How a literal is written.
pub open spec fn literal_text(v: ValueModel) -> Seq<char> {
    match v {
        ValueModel::String(text) => seq!['"'] + text + seq!['"'],
        ValueModel::Bool(flag) => if flag {
            seq!['t', 'r', 'u', 'e']
        } else {
            seq!['f', 'a', 'l', 's', 'e']
        },
        ValueModel::Null => seq!['n', 'u', 'l', 'l'],
        ValueModel::Int(number) => int_text(number),
        ValueModel::Float(text) => text,
        _ => Seq::empty(),
    }
}

/// How an operator is written.
pub open spec fn operator_text(op: Operator) -> Seq<char> {
    match op {
        Operator::Equals => seq!['=', '='],
        Operator::NotEquals => seq!['!', '='],
        Operator::GreaterThan => seq!['>'],
        Operator::LessThan => seq!['<'],
        Operator::And => seq!['&', '&'],
        Operator::Or => seq!['|', '|'],
    }
}

/// Whether `c` may follow a comparison: it closes the filter or begins a
/// connective.
pub open spec fn ends_comparison(c: Option<char>) -> bool {
    c == Some(')') || c == Some('&') || c == Some('|')
}

/// Whether a literal can begin with `c`.
pub open spec fn begins_literal(c: char) -> bool {
    c == '"' || c == 't' || c == 'f' || c == 'n' || c == '-' || is_digit(c)
}

/// A literal that can be written begins with a character that only a
/// literal begins with.
pub proof fn lemma_literal_begins(v: ValueModel)
    requires
        is_literal(v),
    ensures
        literal_text(v).len() > 0,
        begins_literal(literal_text(v)[0]),
{
    match v {
        ValueModel::Int(number) => {
            if number < 0 {
                lemma_nat_text((-number) as nat);
            } else {
                lemma_nat_text(number as nat);
                assert(is_digit(nat_text(number as nat)[0]));
            }
        },
        _ => {},
    }
}

/// The grammar reads a number literal back from its text.
pub proof fn lemma_numeral_reads_back(s: Seq<char>, pos: int, v: ValueModel)
    requires
        is_literal(v),
        v is Int || v is Float,
        occurs_at(s, pos, literal_text(v)),
        ends_comparison(peek_at(s, pos + literal_text(v).len())),
    ensures
        numeral_at(s, pos) == Ok::<(ValueModel, int), ParseErrorModel>(
            (v, pos + literal_text(v).len()),
        ),
{
    let text = literal_text(v);
    let end = pos + text.len();
    lemma_literal_begins(v);
    assert(s[pos + 0] == text[0]);
    let negative = text[0] == '-';
    let start = if negative {
        pos + 1
    } else {
        pos
    };
    let body = if negative {
        text.skip(1)
    } else {
        text
    };
    assert(occurs_at(s, start, body)) by {
        if negative {
            assert(text =~= seq!['-'] + body);
            lemma_occurs_in_parts(s, pos, seq!['-'], body);
        }
    }
    assert(!CharClass::Numeral.holds(')') && !CharClass::Numeral.holds('&')
        && !CharClass::Numeral.holds('|'));
    match v {
        ValueModel::Int(number) => {
            let magnitude: nat = if number < 0 {
                (-number) as nat
            } else {
                number as nat
            };
            lemma_nat_text(magnitude);
            assert(is_digit(nat_text(magnitude)[0]));
            assert(body =~= nat_text(magnitude)) by {
                if number < 0 {
                    assert(text == seq!['-'] + nat_text(magnitude));
                } else {
                    assert(text[0] != '-');
                }
            }
            lemma_run_over(s, start, body, CharClass::Numeral);
            lemma_occurs_is_subrange(s, start, body);
        },
        ValueModel::Float(written) => {
            assert(body == float_body(written));
            let dot = choose|dot: int|
                {
                    &&& 0 <= dot < body.len()
                    &&& body.len() >= 2
                    &&& #[trigger] body[dot] == '.'
                    &&& forall|i: int|
                        0 <= i < body.len() && i != dot ==> is_digit(#[trigger] body[i])
                };
            assert forall|i: int| 0 <= i < body.len() implies CharClass::Numeral.holds(
                #[trigger] body[i],
            ) by {
                if i != dot {
                    assert(is_digit(body[i]));
                }
            }
            lemma_run_over(s, start, body, CharClass::Numeral);
            lemma_occurs_is_subrange(s, start, body);
            lemma_occurs_is_subrange(s, pos, text);
            assert(body[dot] == '.');
            assert(body.contains('.'));
        },
        _ => {},
    }
}

/// The grammar reads a literal back from its text, where the text stands
/// before the end of a comparison.
pub proof fn lemma_literal_reads_back(s: Seq<char>, pos: int, v: ValueModel)
    requires
        is_literal(v),
        occurs_at(s, pos, literal_text(v)),
        ends_comparison(peek_at(s, pos + literal_text(v).len())),
    ensures
        value_at(s, pos) == Ok::<(ValueModel, int), ParseErrorModel>(
            (v, pos + literal_text(v).len()),
        ),
{
    let text = literal_text(v);
    lemma_literal_begins(v);
    assert(s[pos + 0] == text[0]);
    assert(!is_space(s[pos]));
    assert(after_whitespace(s, pos) == pos);
    match v {
        ValueModel::String(inner) => {
            lemma_occurs_in_parts(s, pos, seq!['"'] + inner, seq!['"']);
            lemma_occurs_in_parts(s, pos, seq!['"'], inner);
            assert(s[pos + 1 + inner.len() + 0] == seq!['"'][0]);
            lemma_run_over(s, pos + 1, inner, CharClass::Unquoted);
            lemma_occurs_is_subrange(s, pos + 1, inner);
        },
        ValueModel::Bool(flag) => {
            lemma_occurs_is_subrange(s, pos, text);
        },
        ValueModel::Null => {
            lemma_occurs_is_subrange(s, pos, text);
        },
        ValueModel::Int(_) => {
            lemma_numeral_reads_back(s, pos, v);
        },
        ValueModel::Float(_) => {
            lemma_numeral_reads_back(s, pos, v);
        },
        _ => {},
    }
}

/// The grammar reads a relation back from its text, where the text stands
/// before a literal.
pub proof fn lemma_operator_reads_back(s: Seq<char>, pos: int, op: Operator)
    requires
        occurs_at(s, pos, operator_text(op)),
        peek_at(s, pos + operator_text(op).len()) matches Some(c) && begins_literal(c),
    ensures
        operator_at(s, pos) == Ok::<(Operator, int), ParseErrorModel>(
            (op, pos + operator_text(op).len()),
        ),
{
    let text = operator_text(op);
    let end = pos + text.len();
    assert(s[pos + 0] == text[0]);
    assert(!is_space(s[pos]));
    assert(after_whitespace(s, pos) == pos);
    assert(all_of(text, CharClass::Sign));
    assert(!is_sign(s[end]));
    lemma_run_over(s, pos, text, CharClass::Sign);
    lemma_occurs_is_subrange(s, pos, text);
    assert(!is_space(s[end]));
    assert(after_whitespace(s, end) == end);
    assert(operator_of(text) == Some(op)) by {
        assert(seq!['=', '='][0] == '=' && seq!['=', '='][1] == '=');
        assert(seq!['!', '='][0] == '!' && seq!['!', '='][1] == '=');
        assert(seq!['&', '&'][0] == '&' && seq!['&', '&'][1] == '&');
        assert(seq!['|', '|'][0] == '|' && seq!['|', '|'][1] == '|');
        assert(seq!['>'][0] == '>');
        assert(seq!['<'][0] == '<');
        assert(seq!['=', '='].len() == 2 && seq!['!', '='].len() == 2 && seq!['&', '&'].len()
            == 2 && seq!['|', '|'].len() == 2 && seq!['>'].len() == 1 && seq!['<'].len() == 1);
    }
}

/// Whether `name` can be written as a property name: it is not empty and
/// made of name characters.
pub open spec fn is_name(name: Seq<char>) -> bool {
    name.len() > 0 && all_of(name, CharClass::Word)
}

/// Whether `path` is everything below and then a property: what `..` and
/// a name stand for.
pub open spec fn is_descent(path: PathModel) -> bool {
    path matches PathModel::Sequence(steps) && steps.len() == 2 && steps[0]
        == PathModel::RecursiveDescent && (steps[1] matches PathModel::Property(name) && is_name(
        name,
    ))
}

/// Whether `path` is one step that can be written with what follows it:
/// the wildcard, a property, an index that a machine word holds, or a
/// filter that can be written.
pub open spec fn is_step(path: PathModel) -> bool
    decreases path, 0nat,
{
    match path {
        PathModel::Wildcard => true,
        PathModel::Property(name) => is_name(name),
        PathModel::Index(index) => index <= usize::MAX,
        PathModel::Filter(filter) => is_filter(*filter),
        _ => false,
    }
}

/// Whether `path` can be written as a segment with the segments that
/// follow it: it is a step, `..` with a name, or a step chained with such a
/// path.
pub open spec fn is_segment(path: PathModel) -> bool
    decreases path, 1nat,
{
    ||| is_descent(path)
    ||| is_step(path)
    ||| path matches PathModel::Sequence(steps) && steps.len() == 2 && is_step(steps[0])
        && is_segment(steps[1])
}

/// Whether `filter` can be written as a comparison.
pub open spec fn is_comparison(filter: FilterModel) -> bool
    decreases filter, 0nat,
{
    match filter {
        FilterModel::Equals(path, literal) => is_segment(*path) && is_literal(literal),
        FilterModel::NotEquals(path, literal) => is_segment(*path) && is_literal(literal),
        FilterModel::GreaterThan(path, literal) => is_segment(*path) && is_literal(literal),
        FilterModel::LessThan(path, literal) => is_segment(*path) && is_literal(literal),
        _ => false,
    }
}

/// Whether `filter` can be written: it is a comparison, or a comparison
/// joined by a connective to a filter that can be written.
pub open spec fn is_filter(filter: FilterModel) -> bool
    decreases filter, 1nat,
{
    match filter {
        FilterModel::And(left, right) => is_comparison(*left) && is_filter(*right),
        FilterModel::Or(left, right) => is_comparison(*left) && is_filter(*right),
        _ => is_comparison(filter),
    }
}

/// How a segment is written, with the segments that follow it: a
/// property as `.` and its name, the wildcard as `[*]`, an index between
/// `[` and `]`, a filter between `[?(` and `)]`, everything below with a
/// property as `..` and the name, and a chain as its parts one after the
/// other.
pub open spec fn segment_text(path: PathModel) -> Seq<char>
    decreases path, 0nat,
{
    match path {
        PathModel::Wildcard => seq!['[', '*', ']'],
        PathModel::Property(name) => seq!['.'] + name,
        PathModel::Index(index) => seq!['['] + nat_text(index) + seq![']'],
        PathModel::Filter(filter) => seq!['[', '?', '('] + filter_text(*filter) + seq![')', ']'],
        PathModel::Sequence(steps) => if steps.len() == 2 {
            if steps[0] == PathModel::RecursiveDescent {
                seq!['.'] + segment_text(steps[1])
            } else {
                segment_text(steps[0]) + segment_text(steps[1])
            }
        } else {
            Seq::empty()
        },
        _ => Seq::empty(),
    }
}

/// How a filter is written: a comparison as `@`, its path, its operator
/// and its literal, and two filters with `&&` or `||` between them.
pub open spec fn filter_text(filter: FilterModel) -> Seq<char>
    decreases filter, 0nat,
{
    match filter {
        FilterModel::Equals(path, literal) => seq!['@'] + segment_text(*path) + operator_text(
            Operator::Equals,
        ) + literal_text(literal),
        FilterModel::NotEquals(path, literal) => seq!['@'] + segment_text(*path) + operator_text(
            Operator::NotEquals,
        ) + literal_text(literal),
        FilterModel::GreaterThan(path, literal) => seq!['@'] + segment_text(*path)
            + operator_text(Operator::GreaterThan) + literal_text(literal),
        FilterModel::LessThan(path, literal) => seq!['@'] + segment_text(*path) + operator_text(
            Operator::LessThan,
        ) + literal_text(literal),
        FilterModel::And(left, right) => filter_text(*left) + operator_text(Operator::And)
            + filter_text(*right),
        FilterModel::Or(left, right) => filter_text(*left) + operator_text(Operator::Or)
            + filter_text(*right),
    }
}

/// How a path expression is written: `$` and its segments.
pub open spec fn path_text(path: PathModel) -> Seq<char> {
    match path {
        PathModel::Sequence(steps) => if steps.len() == 2 {
            seq!['$'] + segment_text(steps[1])
        } else {
            Seq::empty()
        },
        _ => Seq::empty(),
    }
}

/// Whether `path` can be written as a path expression: it is the root
/// followed by what can be written as a segment.
pub open spec fn is_path(path: PathModel) -> bool {
    path matches PathModel::Sequence(steps) && steps.len() == 2 && steps[0] == PathModel::Root
        && is_segment(steps[1])
}

/// Whether `c` may follow the last segment of a path: it neither goes on
/// with a name nor begins a segment.
pub open spec fn ends_segment(c: Option<char>) -> bool {
    match c {
        Some(c) => !is_word(c) && c != '.' && c != '[',
        None => true,
    }
}

/// The text of a segment begins with `.` or `[`, and that of a filter
/// with `@`.
pub proof fn lemma_texts_begin(path: PathModel, filter: FilterModel)
    ensures
        is_segment(path) ==> segment_text(path).len() >= 2 && starts_segment(
            Some(segment_text(path)[0]),
        ),
        is_step(path) ==> segment_text(path).len() >= 2 && starts_segment(
            Some(segment_text(path)[0]),
        ),
        is_filter(filter) ==> filter_text(filter).len() >= 1 && filter_text(filter)[0] == '@',
        is_comparison(filter) ==> filter_text(filter).len() >= 1 && filter_text(filter)[0] == '@',
    decreases path, filter,
{
    if is_step(path) {
        match path {
            PathModel::Index(index) => {
                lemma_nat_text(index);
            },
            _ => {},
        }
    } else if is_segment(path) {
        let steps = path->Sequence_0;
        if is_descent(path) {
            assert(segment_text(steps[1]) == seq!['.'] + steps[1]->Property_0);
        } else {
            assert(is_step(steps[0]));
            assert(steps[0] != PathModel::RecursiveDescent);
            lemma_texts_begin(steps[0], filter);
        }
    }
    match filter {
        FilterModel::And(left, right) => {
            lemma_texts_begin(path, *left);
        },
        FilterModel::Or(left, right) => {
            lemma_texts_begin(path, *left);
        },
        _ => {},
    }
}

/// The grammar reads one step back from its text and goes on with what
/// follows it.
pub proof fn lemma_step_reads_back(s: Seq<char>, pos: int, step: PathModel)
    requires
        is_step(step),
        occurs_at(s, pos, segment_text(step)),
        peek_at(s, pos + segment_text(step).len()) matches Some(c) ==> !is_word(c),
    ensures
        segment_at(s, pos) == chained_at(s, pos + segment_text(step).len(), step),
    decreases step, 0nat,
{
    let text = segment_text(step);
    let end = pos + text.len();
    match step {
        PathModel::Wildcard => {
            assert(s[pos + 0] == text[0] && s[pos + 1] == text[1] && s[pos + 2] == text[2]);
        },
        PathModel::Property(name) => {
            lemma_occurs_in_parts(s, pos, seq!['.'], name);
            assert(s[pos + 0] == seq!['.'][0]);
            assert(s[pos + 1 + 0] == name[0]);
            assert(is_word(name[0]));
            lemma_run_over(s, pos + 1, name, CharClass::Word);
            lemma_occurs_is_subrange(s, pos + 1, name);
        },
        PathModel::Index(index) => {
            let digits = nat_text(index);
            lemma_nat_text(index);
            lemma_occurs_in_parts(s, pos, seq!['['] + digits, seq![']']);
            lemma_occurs_in_parts(s, pos, seq!['['], digits);
            assert(s[pos + 0] == seq!['['][0]);
            assert(s[pos + 1 + 0] == digits[0]);
            assert(is_digit(digits[0]));
            assert(s[pos + 1 + digits.len() + 0] == seq![']'][0]);
            lemma_run_over(s, pos + 1, digits, CharClass::Digit);
            lemma_occurs_is_subrange(s, pos + 1, digits);
        },
        PathModel::Filter(filter) => {
            let inner = filter_text(*filter);
            lemma_occurs_in_parts(s, pos, seq!['[', '?', '('] + inner, seq![')', ']']);
            lemma_occurs_in_parts(s, pos, seq!['[', '?', '('], inner);
            let open = seq!['[', '?', '('];
            assert(s[pos + 0] == open[0] && s[pos + 1] == open[1] && s[pos + 2] == open[2]);
            let close = seq![')', ']'];
            assert(s[pos + 3 + inner.len() + 0] == close[0]);
            assert(s[pos + 3 + inner.len() + 1] == close[1]);
            law_filter_reads_back(s, pos + 3, *filter);
        },
        _ => {},
    }
}

/// The grammar reads a segment, with the segments that follow it, back
/// from its text: where the text stands in `s` at `pos` and nothing that
/// goes on with it follows, the grammar reads the path there and ends
/// after the text.
pub proof fn law_segment_reads_back(s: Seq<char>, pos: int, path: PathModel)
    requires
        is_segment(path),
        occurs_at(s, pos, segment_text(path)),
        ends_segment(peek_at(s, pos + segment_text(path).len())),
    ensures
        segment_at(s, pos) == Ok::<(PathModel, int), ParseErrorModel>(
            (path, pos + segment_text(path).len()),
        ),
    decreases path, 1nat,
{
    let text = segment_text(path);
    let end = pos + text.len();
    if is_descent(path) {
        let name = path->Sequence_0[1]->Property_0;
        assert(path->Sequence_0 =~= seq![PathModel::RecursiveDescent, PathModel::Property(name)]);
        assert(segment_text(PathModel::Property(name)) == seq!['.'] + name);
        assert(text == seq!['.'] + (seq!['.'] + name));
        lemma_occurs_in_parts(s, pos, seq!['.'], seq!['.'] + name);
        lemma_occurs_in_parts(s, pos + 1, seq!['.'], name);
        assert(s[pos + 0] == seq!['.'][0]);
        assert(s[pos + 1 + 0] == seq!['.'][0]);
        lemma_run_over(s, pos + 2, name, CharClass::Word);
        lemma_occurs_is_subrange(s, pos + 2, name);
    } else if is_step(path) {
        lemma_step_reads_back(s, pos, path);
    } else {
        let steps = path->Sequence_0;
        let head = steps[0];
        let rest = steps[1];
        let middle = pos + segment_text(head).len();
        assert(steps =~= seq![head, rest]);
        assert(is_step(head));
        assert(head != PathModel::RecursiveDescent);
        assert(text == segment_text(head) + segment_text(rest));
        lemma_occurs_in_parts(s, pos, segment_text(head), segment_text(rest));
        lemma_texts_begin(rest, FilterModel::Equals(Box::new(rest), ValueModel::Null));
        assert(s[middle + 0] == segment_text(rest)[0]);
        lemma_step_reads_back(s, pos, head);
        law_segment_reads_back(s, middle, rest);
    }
}

/// The grammar reads a comparison back from its text, where the text
/// stands before the end of a comparison.
pub proof fn lemma_comparison_reads_back(s: Seq<char>, pos: int, filter: FilterModel)
    requires
        is_comparison(filter),
        occurs_at(s, pos, filter_text(filter)),
        ends_comparison(peek_at(s, pos + filter_text(filter).len())),
    ensures
        filter_term_at(s, pos) == Ok::<(FilterModel, int), ParseErrorModel>(
            (filter, pos + filter_text(filter).len()),
        ),
    decreases filter, 0nat,
{
    let (path, literal, op) = match filter {
        FilterModel::Equals(path, literal) => (*path, literal, Operator::Equals),
        FilterModel::NotEquals(path, literal) => (*path, literal, Operator::NotEquals),
        FilterModel::GreaterThan(path, literal) => (*path, literal, Operator::GreaterThan),
        FilterModel::LessThan(path, literal) => (*path, literal, Operator::LessThan),
        _ => (PathModel::Root, ValueModel::Null, Operator::And),
    };
    let written = segment_text(path);
    let sign = operator_text(op);
    let value = literal_text(literal);
    assert(filter_text(filter) == seq!['@'] + written + sign + value);
    lemma_occurs_in_parts(s, pos, seq!['@'] + written + sign, value);
    lemma_occurs_in_parts(s, pos, seq!['@'] + written, sign);
    lemma_occurs_in_parts(s, pos, seq!['@'], written);
    assert(s[pos + 0] == seq!['@'][0]);
    assert(!is_space(s[pos]));
    assert(after_whitespace(s, pos) == pos);
    let path_end = pos + 1 + written.len();
    assert(s[path_end + 0] == sign[0]);
    assert(ends_segment(peek_at(s, path_end)));
    law_segment_reads_back(s, pos + 1, path);
    let sign_end = path_end + sign.len();
    lemma_literal_begins(literal);
    assert(s[sign_end + 0] == value[0]);
    lemma_operator_reads_back(s, path_end, op);
    lemma_literal_reads_back(s, sign_end, literal);
}

/// The grammar reads a filter back from its text: where the text stands
/// in `s` at `pos` before a `)`, the grammar reads the filter there and ends
/// after the text.
pub proof fn law_filter_reads_back(s: Seq<char>, pos: int, filter: FilterModel)
    requires
        is_filter(filter),
        occurs_at(s, pos, filter_text(filter)),
        peek_at(s, pos + filter_text(filter).len()) == Some(')'),
    ensures
        filter_at(s, pos) == Ok::<(FilterModel, int), ParseErrorModel>(
            (filter, pos + filter_text(filter).len()),
        ),
    decreases filter, 1nat,
{
    let end = pos + filter_text(filter).len();
    if is_comparison(filter) {
        lemma_comparison_reads_back(s, pos, filter);
        assert(!is_space(s[end]));
        assert(after_whitespace(s, end) == end);
    } else {
        let (left, right, op) = match filter {
            FilterModel::And(left, right) => (*left, *right, Operator::And),
            FilterModel::Or(left, right) => (*left, *right, Operator::Or),
            _ => (filter, filter, Operator::Equals),
        };
        let sign = operator_text(op);
        lemma_occurs_in_parts(s, pos, filter_text(left) + sign, filter_text(right));
        lemma_occurs_in_parts(s, pos, filter_text(left), sign);
        let left_end = pos + filter_text(left).len();
        assert(s[left_end + 0] == sign[0]);
        assert(s[left_end + 1] == sign[1]);
        lemma_comparison_reads_back(s, pos, left);
        assert(!is_space(s[left_end]));
        assert(after_whitespace(s, left_end) == left_end);
        lemma_texts_begin(PathModel::Root, right);
        assert(s[left_end + 2 + 0] == filter_text(right)[0]);
        assert(!is_space(s[left_end + 2]));
        assert(after_whitespace(s, left_end + 2) == left_end + 2);
        law_filter_reads_back(s, left_end + 2, right);
    }
}

/// The grammar reads a path expression back from its text.
pub proof fn law_path_reads_back(path: PathModel)
    requires
        is_path(path),
    ensures
        path_of(path_text(path)) == Ok::<PathModel, ParseErrorModel>(path),
{
    let steps = path->Sequence_0;
    let rest = steps[1];
    let s = path_text(path);
    assert(steps =~= seq![PathModel::Root, rest]);
    assert(occurs_at(s, 1, segment_text(rest)));
    law_segment_reads_back(s, 1, rest);
}

/// The grammar reads a path expression back from its text without the
/// `$`, where the path begins with `.`.
pub proof fn law_path_reads_back_without_root(path: PathModel)
    requires
        is_path(path),
        segment_text(path->Sequence_0[1])[0] == '.',
    ensures
        path_of(segment_text(path->Sequence_0[1])) == Ok::<PathModel, ParseErrorModel>(path),
{
    let steps = path->Sequence_0;
    let rest = steps[1];
    let s = segment_text(rest);
    lemma_texts_begin(rest, FilterModel::Equals(Box::new(rest), ValueModel::Null));
    assert(steps =~= seq![PathModel::Root, rest]);
    assert(occurs_at(s, 0, s));
    law_segment_reads_back(s, 0, rest);
}

} // verus!
