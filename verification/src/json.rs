use crate::text::chars_of;
use crate::value::{entry_models, lemma_view_of_collections, models, Value, ValueModel};
use vstd::prelude::*;
use vstd::string::StringExecFns;

verus! {

/// One piece of the JSON text of a value.
///
/// The pieces of a value, one after the other, make its JSON text. Most of
/// them are text as it stands in the output. The others name what the text
/// cannot be made of here: a float must be formatted as a number, and a
/// mapping key that is no string must be given a spelling. An alias and an
/// invalid value have no JSON text at all.
#[derive(Debug, Clone, PartialEq)]
pub enum JsonPiece {
    /// Text that stands in the output as it is.
    Text(String),
    /// A float, as the document spells it.
    Float(String),
    /// A mapping key that is no string.
    Key(Value),
    /// An alias.
    Alias,
    /// An invalid value.
    Invalid,
}

/// The mathematical form of a [`JsonPiece`].
pub enum JsonPieceModel {
    Text(Seq<char>),
    Float(Seq<char>),
    Key(ValueModel),
    Alias,
    Invalid,
}

impl View for JsonPiece {
    type V = JsonPieceModel;

    open spec fn view(&self) -> JsonPieceModel {
        match self {
            JsonPiece::Text(text) => JsonPieceModel::Text(text@),
            JsonPiece::Float(text) => JsonPieceModel::Float(text@),
            JsonPiece::Key(key) => JsonPieceModel::Key(key@),
            JsonPiece::Alias => JsonPieceModel::Alias,
            JsonPiece::Invalid => JsonPieceModel::Invalid,
        }
    }
}

/// The forms of a sequence of pieces, piece by piece.
pub open spec fn piece_models(pieces: Seq<JsonPiece>) -> Seq<JsonPieceModel> {
    pieces.map_values(|p: JsonPiece| p@)
}

/// Whether `c` is a control character: one of the first 32 characters, or
/// one from U+007F to U+009F.
pub open spec fn is_control(c: char) -> bool {
    c <= '\u{1f}' || '\u{7f}' <= c <= '\u{9f}'
}

/// The lowercase hexadecimal digit for a number below 16.
pub open spec fn hex_digit(n: int) -> char {
    if n < 10 {
        ('0' as int + n) as char
    } else {
        ('a' as int + n - 10) as char
    }
}

/// How a character of a string is written in JSON text.
///
/// The double quote and the backslash get a backslash before them. Line
/// feed, carriage return, tab, backspace and form feed are written as `\n`,
/// `\r`, `\t`, `\b` and `\f`, any other control character as `\u` and its
/// number in four hexadecimal digits. Every other character stands for
/// itself.
pub open spec fn escaped_char(c: char) -> Seq<char> {
    if c == '"' {
        seq!['\\', '"']
    } else if c == '\\' {
        seq!['\\', '\\']
    } else if c == '\n' {
        seq!['\\', 'n']
    } else if c == '\r' {
        seq!['\\', 'r']
    } else if c == '\t' {
        seq!['\\', 't']
    } else if c == '\u{8}' {
        seq!['\\', 'b']
    } else if c == '\u{c}' {
        seq!['\\', 'f']
    } else if is_control(c) {
        seq!['\\', 'u', '0', '0', hex_digit(c as int / 16), hex_digit(c as int % 16)]
    } else {
        seq![c]
    }
}

/// How a character of a mapping key is written in JSON text: as a
/// character of a string is, but that backspace, form feed and the other
/// control characters stand for themselves.
pub open spec fn escaped_key_char(c: char) -> Seq<char> {
    if c == '"' || c == '\\' || c == '\n' || c == '\r' || c == '\t' {
        escaped_char(c)
    } else {
        seq![c]
    }
}

/// A text with each character written as JSON text writes it: as a
/// character of a mapping key if `key` holds, as one of a string otherwise.
pub open spec fn escaped(text: Seq<char>, key: bool) -> Seq<char>
    decreases text.len(),
{
    if text.len() == 0 {
        Seq::empty()
    } else {
        escaped(text.drop_last(), key) + if key {
            escaped_key_char(text.last())
        } else {
            escaped_char(text.last())
        }
    }
}

/// A text between double quotes, written as JSON text writes it.
pub open spec fn quoted(text: Seq<char>, key: bool) -> Seq<char> {
    seq!['"'] + escaped(text, key) + seq!['"']
}

/// The decimal digits of a natural number, without leading zeros.
pub open spec fn nat_text(n: nat) -> Seq<char>
    decreases n,
{
    if n < 10 {
        seq![('0' as int + n) as char]
    } else {
        nat_text(n / 10).push(('0' as int + n % 10) as char)
    }
}

/// The decimal text of an integer, with `-` before a negative one.
pub open spec fn int_text(i: int) -> Seq<char> {
    if i < 0 {
        seq!['-'] + nat_text((-i) as nat)
    } else {
        nat_text(i as nat)
    }
}

/// The piece for a mapping key: the key between quotes if it is a string.
pub open spec fn key_piece(key: ValueModel) -> JsonPieceModel {
    match key {
        ValueModel::String(text) => JsonPieceModel::Text(quoted(text, true)),
        _ => JsonPieceModel::Key(key),
    }
}

/// The pieces of the JSON text of a value.
///
/// `null`, `true`, `false` and integers are written as they are, a string
/// between quotes. A sequence is written between `[` and `]` and a mapping
/// between `{` and `}`, with `,` between elements and entries and `:`
/// between a key and its value.
pub open spec fn json_pieces(v: ValueModel) -> Seq<JsonPieceModel>
    decreases v, 0nat,
{
    match v {
        ValueModel::Null => seq![JsonPieceModel::Text("null"@)],
        ValueModel::Bool(flag) => seq![
            JsonPieceModel::Text(
                if flag {
                    "true"@
                } else {
                    "false"@
                },
            ),
        ],
        ValueModel::Int(number) => seq![JsonPieceModel::Text(int_text(number))],
        ValueModel::Float(text) => seq![JsonPieceModel::Float(text)],
        ValueModel::String(text) => seq![JsonPieceModel::Text(quoted(text, false))],
        ValueModel::Sequence(items) => seq![JsonPieceModel::Text("["@)] + pieces_of_items(
            items,
            items.len(),
        ) + seq![JsonPieceModel::Text("]"@)],
        ValueModel::Mapping(entries) => seq![JsonPieceModel::Text("{"@)] + pieces_of_entries(
            entries,
            entries.len(),
        ) + seq![JsonPieceModel::Text("}"@)],
        ValueModel::Alias(_) => seq![JsonPieceModel::Alias],
        ValueModel::Invalid => seq![JsonPieceModel::Invalid],
    }
}

/// The comma that stands before every element and entry but the first.
pub open spec fn separator(index: int) -> Seq<JsonPieceModel> {
    if index > 0 {
        seq![JsonPieceModel::Text(","@)]
    } else {
        Seq::empty()
    }
}

/// The pieces of the first `n` values of `items`, with the commas
/// between them.
pub open spec fn pieces_of_items(items: Seq<ValueModel>, n: nat) -> Seq<JsonPieceModel>
    decreases items, n,
{
    if n == 0 || n > items.len() {
        Seq::empty()
    } else {
        pieces_of_items(items, (n - 1) as nat) + separator(n - 1) + json_pieces(items[n - 1])
    }
}

/// The pieces of the first `n` entries of `entries`, with the commas
/// between them.
pub open spec fn pieces_of_entries(entries: Seq<(ValueModel, ValueModel)>, n: nat) -> Seq<
    JsonPieceModel,
>
    decreases entries, n,
{
    if n == 0 || n > entries.len() {
        Seq::empty()
    } else {
        pieces_of_entries(entries, (n - 1) as nat) + separator(n - 1) + seq![
            key_piece(entries[n - 1].0),
            JsonPieceModel::Text(":"@),
        ] + json_pieces(entries[n - 1].1)
    }
}

/// Tests whether a character is a control character.
pub fn char_is_control(c: char) -> (r: bool)
    ensures
        r == is_control(c),
{
    c <= '\u{1f}' || ('\u{7f}' <= c && c <= '\u{9f}')
}

/// The hexadecimal digit for a number below 16.
fn hex_digit_of(n: u8) -> (c: char)
    requires
        n < 16,
    ensures
        c == hex_digit(n as int),
{
    if n < 10 {
        (48u8 + n) as char
    } else {
        (87u8 + n) as char
    }
}

/// Appends a character as JSON text writes it.
pub fn write_escaped_char(c: char, key: bool, output: &mut String)
    ensures
        final(output)@ == old(output)@ + if key {
            escaped_key_char(c)
        } else {
            escaped_char(c)
        },
{
    let letter = if c == '"' || c == '\\' {
        Some(c)
    } else if c == '\n' {
        Some('n')
    } else if c == '\r' {
        Some('r')
    } else if c == '\t' {
        Some('t')
    } else if !key && c == '\u{8}' {
        Some('b')
    } else if !key && c == '\u{c}' {
        Some('f')
    } else {
        None
    };
    match letter {
        Some(letter) => {
            output.push('\\');
            output.push(letter);
        },
        None => {
            if !key && char_is_control(c) {
                let code = c as u8;
                output.push('\\');
                output.push('u');
                output.push('0');
                output.push('0');
                output.push(hex_digit_of(code / 16));
                output.push(hex_digit_of(code % 16));
            } else {
                output.push(c);
            }
        },
    }
}

/// Appends a text between double quotes, as JSON text writes it.
pub fn write_quoted(text: &str, key: bool, output: &mut String)
    ensures
        final(output)@ == old(output)@ + quoted(text@, key),
{
    let chars = chars_of(text);
    let ghost before = output@;
    output.push('"');
    let mut i: usize = 0;
    while i < chars.len()
        invariant
            i <= chars.len(),
            chars@ == text@,
            output@ == before + seq!['"'] + escaped(chars@.take(i as int), key),
        decreases chars.len() - i,
    {
        write_escaped_char(chars[i], key, output);
        i += 1;
        proof {
            assert(chars@.take(i as int).drop_last() =~= chars@.take(i - 1));
        }
    }
    output.push('"');
    proof {
        assert(chars@.take(i as int) =~= chars@);
    }
}

/// Appends the decimal digits of a number.
pub fn write_nat(n: u64, output: &mut String)
    ensures
        final(output)@ == old(output)@ + nat_text(n as nat),
    decreases n,
{
    if n >= 10 {
        write_nat(n / 10, output);
    }
    let digit = (48u8 + (n % 10) as u8) as char;
    output.push(digit);
}

/// Appends the decimal text of an integer.
pub fn write_int(i: i64, output: &mut String)
    ensures
        final(output)@ == old(output)@ + int_text(i as int),
{
    if i < 0 {
        output.push('-');
        let magnitude: u64 = ((-(i + 1)) as u64) + 1;
        write_nat(magnitude, output);
    } else {
        write_nat(i as u64, output);
    }
}

/// A piece of text as it stands in the output.
fn text_piece(text: &str) -> (piece: JsonPiece)
    ensures
        piece@ == JsonPieceModel::Text(text@),
{
    JsonPiece::Text(String::from_str(text))
}

/// Appends to `pieces` the pieces of the JSON text of a value.
#[verifier::loop_isolation(false)]
pub fn collect_pieces(value: &Value, pieces: &mut Vec<JsonPiece>)
    ensures
        piece_models(final(pieces)@) == piece_models(old(pieces)@) + json_pieces(value@),
    decreases value,
{
    proof {
        lemma_view_of_collections(*value);
    }
    let ghost before = piece_models(pieces@);
    match value {
        Value::Null => {
            pieces.push(text_piece("null"));
        },
        Value::Bool(flag) => {
            pieces.push(
                text_piece(
                    if *flag {
                        "true"
                    } else {
                        "false"
                    },
                ),
            );
        },
        Value::Int(number) => {
            let mut text = String::new();
            write_int(*number, &mut text);
            pieces.push(JsonPiece::Text(text));
        },
        Value::Float(text) => {
            pieces.push(JsonPiece::Float(text.clone()));
        },
        Value::String(text) => {
            let mut written = String::new();
            write_quoted(text.as_str(), false, &mut written);
            pieces.push(JsonPiece::Text(written));
        },
        Value::Sequence(items) => {
            pieces.push(text_piece("["));
            let mut i: usize = 0;
            while i < items.len()
                invariant
                    i <= items.len(),
                    piece_models(pieces@) == before + seq![JsonPieceModel::Text("["@)]
                        + pieces_of_items(models(items@), i as nat),
                decreases items.len() - i,
            {
                let ghost so_far = piece_models(pieces@);
                if i > 0 {
                    pieces.push(text_piece(","));
                }
                assert(piece_models(pieces@) =~= so_far + separator(i as int));
                collect_pieces(&items[i], pieces);
                i += 1;
            }
            let ghost open = piece_models(pieces@);
            pieces.push(text_piece("]"));
            assert(piece_models(pieces@) =~= open.push(JsonPieceModel::Text("]"@)));
        },
        Value::Mapping(entries) => {
            pieces.push(text_piece("{"));
            let mut i: usize = 0;
            while i < entries.len()
                invariant
                    i <= entries.len(),
                    piece_models(pieces@) == before + seq![JsonPieceModel::Text("{"@)]
                        + pieces_of_entries(entry_models(entries@), i as nat),
                decreases entries.len() - i,
            {
                let ghost so_far = piece_models(pieces@);
                if i > 0 {
                    pieces.push(text_piece(","));
                }
                match &entries[i].0 {
                    Value::String(text) => {
                        let mut written = String::new();
                        write_quoted(text.as_str(), true, &mut written);
                        pieces.push(JsonPiece::Text(written));
                    },
                    key => {
                        pieces.push(JsonPiece::Key(key.clone()));
                    },
                }
                pieces.push(text_piece(":"));
                assert(piece_models(pieces@) =~= so_far + separator(i as int) + seq![
                    key_piece(entries@[i as int].0@),
                    JsonPieceModel::Text(":"@),
                ]);
                collect_pieces(&entries[i].1, pieces);
                i += 1;
            }
            let ghost open = piece_models(pieces@);
            pieces.push(text_piece("}"));
            assert(piece_models(pieces@) =~= open.push(JsonPieceModel::Text("}"@)));
        },
        Value::Alias(_) => {
            pieces.push(JsonPiece::Alias);
        },
        Value::Invalid => {
            pieces.push(JsonPiece::Invalid);
        },
    }
}

/// The pieces of the JSON text of a value, in the order in which they
/// stand in the text.
pub fn pieces_of(value: &Value) -> (pieces: Vec<JsonPiece>)
    ensures
        piece_models(pieces@) == json_pieces(value@),
{
    let mut pieces: Vec<JsonPiece> = Vec::new();
    collect_pieces(value, &mut pieces);
    pieces
}

} // verus!
