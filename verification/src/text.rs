use vstd::prelude::*;

verus! {

/// Collects the characters of a string slice, in order.
pub fn chars_of(text: &str) -> (chars: Vec<char>)
    ensures
        chars@ == text@,
{
    let mut chars: Vec<char> = Vec::new();
    for c in it: text.chars()
        invariant
            chars@ == it.seq().take(it.index()),
            it.seq() == text@,
    {
        chars.push(c);
    }
    chars
}

/// `String::push` appends the given character to the end of the string:
/// this is what std documents, and all that is claimed.
pub assume_specification[ std::string::String::push ](text: &mut std::string::String, c: char)
    ensures
        final(text)@ == old(text)@.push(c),
;

/// A set of characters that the path language tells apart.
#[derive(Clone, Copy, Debug, PartialEq, Eq, Structural)]
pub enum CharClass {
    /// The ten ASCII decimal digits.
    Digit,
    /// What a property name is made of: ASCII letters, ASCII digits and `_`.
    Word,
    /// White space, as Unicode defines it.
    Space,
    /// What an operator is made of: `=`, `!`, `<`, `>`, `&` and `|`.
    Sign,
    /// What the body of a number is made of: ASCII digits and `.`.
    Numeral,
    /// Every character but the double quote.
    Unquoted,
}

/// Whether `c` is an ASCII decimal digit.
pub open spec fn is_digit(c: char) -> bool {
    '0' <= c <= '9'
}

/// Whether `c` may stand in a property name.
pub open spec fn is_word(c: char) -> bool {
    ||| 'a' <= c <= 'z'
    ||| 'A' <= c <= 'Z'
    ||| '0' <= c <= '9'
    ||| c == '_'
}

/// Whether `c` has the Unicode property White_Space.
pub open spec fn is_space(c: char) -> bool {
    ||| '\u{9}' <= c <= '\u{D}'
    ||| c == ' '
    ||| c == '\u{85}'
    ||| c == '\u{A0}'
    ||| c == '\u{1680}'
    ||| '\u{2000}' <= c <= '\u{200A}'
    ||| c == '\u{2028}'
    ||| c == '\u{2029}'
    ||| c == '\u{202F}'
    ||| c == '\u{205F}'
    ||| c == '\u{3000}'
}

/// Whether `c` may stand in an operator.
pub open spec fn is_sign(c: char) -> bool {
    c == '=' || c == '!' || c == '<' || c == '>' || c == '&' || c == '|'
}

impl CharClass {
    /// Whether `c` belongs to the class.
    pub open spec fn holds(self, c: char) -> bool {
        match self {
            CharClass::Digit => is_digit(c),
            CharClass::Word => is_word(c),
            CharClass::Space => is_space(c),
            CharClass::Sign => is_sign(c),
            CharClass::Numeral => is_digit(c) || c == '.',
            CharClass::Unquoted => c != '"',
        }
    }

    /// Tests whether a character belongs to the class.
    pub fn contains(self, c: char) -> (r: bool)
        ensures
            r == self.holds(c),
    {
        match self {
            CharClass::Digit => '0' <= c && c <= '9',
            CharClass::Word => ('a' <= c && c <= 'z') || ('A' <= c && c <= 'Z') || ('0' <= c && c
                <= '9') || c == '_',
            CharClass::Space => ('\u{9}' <= c && c <= '\u{D}') || c == ' ' || c == '\u{85}' || c
                == '\u{A0}' || c == '\u{1680}' || ('\u{2000}' <= c && c <= '\u{200A}') || c
                == '\u{2028}' || c == '\u{2029}' || c == '\u{202F}' || c == '\u{205F}' || c
                == '\u{3000}',
            CharClass::Sign => c == '=' || c == '!' || c == '<' || c == '>' || c == '&' || c
                == '|',
            CharClass::Numeral => ('0' <= c && c <= '9') || c == '.',
            CharClass::Unquoted => c != '"',
        }
    }
}

/// The character of `s` at `pos`, if `pos` is inside `s`.
pub open spec fn peek_at(s: Seq<char>, pos: int) -> Option<char> {
    if 0 <= pos < s.len() {
        Some(s[pos])
    } else {
        None
    }
}

/// How many characters of `class` stand in `s` from `from` on without a
/// break.
pub open spec fn run_len(s: Seq<char>, from: int, class: CharClass) -> nat
    decreases s.len() - from,
{
    if 0 <= from < s.len() && class.holds(s[from]) {
        1 + run_len(s, from + 1, class)
    } else {
        0
    }
}

/// Where the longest run of characters of `class` that starts at `from`
/// ends: the index of the first character from `from` on that is not of the
/// class, or the length of `s` if there is none.
pub open spec fn run_end(s: Seq<char>, from: int, class: CharClass) -> int {
    from + run_len(s, from, class)
}

/// A run ends inside the text, holds only characters of its class, and the
/// character after it, if there is one, is not of the class.
pub proof fn lemma_run_end(s: Seq<char>, from: int, class: CharClass)
    requires
        0 <= from <= s.len(),
    ensures
        from <= run_end(s, from, class) <= s.len(),
        forall|i: int| from <= i < run_end(s, from, class) ==> class.holds(s[i]),
        run_end(s, from, class) < s.len() ==> !class.holds(s[run_end(s, from, class)]),
    decreases s.len() - from,
{
    if from < s.len() && class.holds(s[from]) {
        lemma_run_end(s, from + 1, class);
    }
}

/// An index that stands after `from`, with only characters of the class
/// between the two and none at the index itself, is where the run ends.
pub proof fn lemma_run_end_unique(s: Seq<char>, from: int, class: CharClass, end: int)
    requires
        0 <= from <= end <= s.len(),
        forall|i: int| from <= i < end ==> class.holds(s[i]),
        end < s.len() ==> !class.holds(s[end]),
    ensures
        run_end(s, from, class) == end,
    decreases end - from,
{
    if from < end {
        lemma_run_end_unique(s, from + 1, class, end);
    }
}

/// Finds where the run of characters of `class` that starts at `from` ends.
pub fn scan_run(input: &[char], from: usize, class: CharClass) -> (end: usize)
    ensures
        end == run_end(input@, from as int, class),
        from <= end,
        from <= input.len() ==> end <= input.len(),
{
    let mut i: usize = from;
    while i < input.len() && class.contains(input[i])
        invariant
            from <= i,
            from <= input.len() ==> i <= input.len(),
            run_end(input@, i as int, class) == run_end(input@, from as int, class),
        decreases input.len() - i,
    {
        i += 1;
    }
    i
}

/// The number that a decimal digit stands for.
pub open spec fn digit_value(c: char) -> nat {
    (c as int - '0' as int) as nat
}

/// The number that a text of decimal digits spells; zero for the empty
/// text.
pub open spec fn decimal_value(digits: Seq<char>) -> nat
    decreases digits.len(),
{
    if digits.len() == 0 {
        0
    } else {
        10 * decimal_value(digits.drop_last()) + digit_value(digits.last())
    }
}

/// Whether every character of `s` is a decimal digit.
pub open spec fn all_digits(s: Seq<char>) -> bool {
    forall|i: int| 0 <= i < s.len() ==> is_digit(#[trigger] s[i])
}

/// A text of digits spells at least what any of its prefixes spells.
pub proof fn lemma_decimal_value_grows(digits: Seq<char>, n: int)
    requires
        0 <= n <= digits.len(),
        all_digits(digits),
    ensures
        decimal_value(digits.take(n)) <= decimal_value(digits),
    decreases digits.len(),
{
    if n == digits.len() {
        assert(digits.take(n) =~= digits);
    } else {
        lemma_decimal_value_grows(digits.drop_last(), n);
        assert(digits.drop_last().take(n) =~= digits.take(n));
    }
}

/// Reads the number that the characters of `input` between `from` and
/// `to` spell, if they are digits and the number is at most `limit`.
pub fn read_decimal(input: &[char], from: usize, to: usize, limit: u64) -> (r: Option<u64>)
    requires
        from <= to <= input.len(),
    ensures
        r == if all_digits(input@.subrange(from as int, to as int)) && decimal_value(
            input@.subrange(from as int, to as int),
        ) <= limit {
            Some(decimal_value(input@.subrange(from as int, to as int)) as u64)
        } else {
            None
        },
{
    let ghost digits = input@.subrange(from as int, to as int);
    let mut value: u64 = 0;
    let mut i: usize = from;
    while i < to
        invariant
            from <= i <= to <= input.len(),
            digits == input@.subrange(from as int, to as int),
            all_digits(digits.take(i - from)),
            value == decimal_value(digits.take(i - from)),
            value <= limit,
        decreases to - i,
    {
        let c = input[i];
        assert(c == digits[i - from]);
        if !('0' <= c && c <= '9') {
            return None;
        }
        let d: u64 = (c as u32 - '0' as u32) as u64;
        proof {
            assert(digits.take(i - from + 1).drop_last() =~= digits.take(i - from));
            if all_digits(digits) {
                lemma_decimal_value_grows(digits, i - from + 1);
            }
        }
        if d > limit || value > (limit - d) / 10 {
            return None;
        }
        value = value * 10 + d;
        i += 1;
    }
    assert(digits.take(to - from) =~= digits);
    Some(value)
}

/// Whether `text` is written as a decimal fraction: digits, one `.` and
/// digits, with at least one digit before the `.` and at least one after it.
pub open spec fn is_fraction(text: Seq<char>) -> bool {
    exists|dot: int|
        {
            &&& 0 < dot < text.len() - 1
            &&& #[trigger] text[dot] == '.'
            &&& forall|i: int| 0 <= i < text.len() && i != dot ==> is_digit(#[trigger] text[i])
        }
}

/// Tests whether the characters of `input` between `from` and `to` are
/// written as a decimal fraction.
pub fn check_fraction(input: &[char], from: usize, to: usize) -> (r: bool)
    requires
        from <= to <= input.len(),
    ensures
        r == is_fraction(input@.subrange(from as int, to as int)),
{
    let ghost text = input@.subrange(from as int, to as int);
    let mut dot: Option<usize> = None;
    let mut i: usize = from;
    while i < to
        invariant
            from <= i <= to <= input.len(),
            text == input@.subrange(from as int, to as int),
            !is_digit('.'),
            match dot {
                Some(at) => from <= at < i && text[at - from] == '.',
                None => true,
            },
            forall|j: int|
                0 <= j < i - from && dot != Some((j + from) as usize) ==> is_digit(
                    #[trigger] text[j],
                ),
        decreases to - i,
    {
        let c = input[i];
        assert(c == text[i - from]);
        if c == '.' {
            if dot.is_some() {
                return false;
            }
            dot = Some(i);
        } else if !('0' <= c && c <= '9') {
            return false;
        }
        i += 1;
    }
    match dot {
        Some(at) => {
            assert(text[at - from] == '.');
            from < at && at + 1 < to
        },
        None => false,
    }
}

} // verus!
