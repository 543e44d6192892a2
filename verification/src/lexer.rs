//! The tokenizer: splits assembly text into number and opcode tokens.
//!
//! Text is treated as its UTF-8 bytes. Words are separated by spaces and
//! line feeds. The part of a word from its first digit or minus sign on is a
//! number token; the part from its first other byte on is an opcode token.

use vstd::prelude::*;
use vstd::string::*;
use vstd::utf8::*;

verus! {

/// It represents each part of the syntax.
#[derive(Debug, PartialEq, Clone, Copy)]
pub enum Token<'a> {
    Number(&'a str),
    Opcode(&'a str),
}

/// A token as a mathematical value: its kind and the UTF-8 bytes of its
/// text.
pub enum TokenView {
    Number(Seq<u8>),
    Opcode(Seq<u8>),
}

impl<'a> View for Token<'a> {
    type V = TokenView;

    open spec fn view(&self) -> TokenView {
        match self {
            Token::Number(text) => TokenView::Number(text.spec_bytes()),
            Token::Opcode(text) => TokenView::Opcode(text.spec_bytes()),
        }
    }
}

/// The views of a sequence of tokens, in order.
pub open spec fn token_views<'a>(tokens: Seq<Token<'a>>) -> Seq<TokenView> {
    Seq::new(tokens.len(), |i: int| tokens[i]@)
}

/// The byte of a space.
pub const SPACE: u8 = 0x20;

/// The byte of a line feed.
pub const LINE_FEED: u8 = 0x0a;

/// The byte of the digit `0`.
pub const DIGIT_ZERO: u8 = 0x30;

/// The byte of the digit `9`.
pub const DIGIT_NINE: u8 = 0x39;

/// The byte of a minus sign.
pub const MINUS: u8 = 0x2d;

/// A byte that separates words: a space or a line feed.
pub open spec fn is_separator(byte: u8) -> bool {
    byte == SPACE || byte == LINE_FEED
}

/// A byte that starts or continues a number: a decimal digit or a minus
/// sign.
pub open spec fn is_numeric(byte: u8) -> bool {
    DIGIT_ZERO <= byte <= DIGIT_NINE || byte == MINUS
}

/// A byte that starts or continues an opcode name: any byte that neither
/// separates words nor is numeric.
pub open spec fn is_symbolic(byte: u8) -> bool {
    !is_separator(byte) && !is_numeric(byte)
}

/// Where the word that starts at `from` ends: the position of the first
/// separator at or behind `from`, or the end of the text.
pub open spec fn word_end(source: Seq<u8>, from: int) -> int
    recommends
        0 <= from <= source.len(),
    decreases source.len() - from,
{
    if from < 0 || from >= source.len() || is_separator(source[from]) {
        from
    } else {
        word_end(source, from + 1)
    }
}

/// The position of the first symbolic byte in `from..to`, or `to` where
/// there is none.
pub open spec fn first_symbolic(source: Seq<u8>, from: int, to: int) -> int
    recommends
        0 <= from <= to <= source.len(),
    decreases to - from,
{
    if from >= to || is_symbolic(source[from]) {
        from
    } else {
        first_symbolic(source, from + 1, to)
    }
}

/// The position of the first numeric byte in `from..to`, or `to` where
/// there is none.
pub open spec fn first_numeric(source: Seq<u8>, from: int, to: int) -> int
    recommends
        0 <= from <= to <= source.len(),
    decreases to - from,
{
    if from >= to || is_numeric(source[from]) {
        from
    } else {
        first_numeric(source, from + 1, to)
    }
}

/// The tokens of the word `from..to`: an opcode token from its first
/// symbolic byte to its end, if it has one, then a number token from its
/// first numeric byte to its end, if it has one.
pub open spec fn word_tokens(source: Seq<u8>, from: int, to: int) -> Seq<TokenView>
    recommends
        0 <= from <= to <= source.len(),
{
    let symbolic = first_symbolic(source, from, to);
    let numeric = first_numeric(source, from, to);
    let opcode = if symbolic < to {
        seq![TokenView::Opcode(source.subrange(symbolic, to))]
    } else {
        Seq::empty()
    };
    let number = if numeric < to {
        seq![TokenView::Number(source.subrange(numeric, to))]
    } else {
        Seq::empty()
    };
    opcode + number
}

/// A word ends at or behind the position it starts at, inside the text.
pub proof fn lemma_word_end_bounds(source: Seq<u8>, from: int)
    requires
        0 <= from <= source.len(),
    ensures
        from <= word_end(source, from) <= source.len(),
        word_end(source, from) < source.len() ==> is_separator(source[word_end(source, from)]),
        forall|k: int| from <= k < word_end(source, from) ==> !is_separator(#[trigger] source[k]),
    decreases source.len() - from,
{
    if from < source.len() && !is_separator(source[from]) {
        lemma_word_end_bounds(source, from + 1);
    }
}

/// The tokens of the text from position `from` on, where `from` is the
/// start of the text or stands behind a separator.
pub open spec fn tokens_from(source: Seq<u8>, from: int) -> Seq<TokenView>
    recommends
        0 <= from <= source.len(),
    decreases source.len() - from,
{
    if from < 0 || from >= source.len() {
        Seq::empty()
    } else if is_separator(source[from]) {
        tokens_from(source, from + 1)
    } else {
        let end = word_end(source, from + 1);
        proof {
            lemma_word_end_bounds(source, from + 1);
        }
        word_tokens(source, from, end) + tokens_from(source, end)
    }
}

/// The tokens of a text.
pub open spec fn tokens_of(source: Seq<u8>) -> Seq<TokenView> {
    tokens_from(source, 0)
}

/// A stretch without separators that is followed by a separator or by the
/// end of the text is a word, and the word ends where the stretch ends.
proof fn lemma_word_end_found(source: Seq<u8>, from: int, end: int)
    requires
        0 <= from <= end <= source.len(),
        forall|k: int| from <= k < end ==> !is_separator(#[trigger] source[k]),
        end < source.len() ==> is_separator(source[end]),
    ensures
        word_end(source, from) == end,
    decreases end - from,
{
    if from < end {
        lemma_word_end_found(source, from + 1, end);
    }
}

/// How the first symbolic and numeric positions of a stretch change when
/// the stretch grows by one byte.
proof fn lemma_first_extend(source: Seq<u8>, from: int, to: int)
    requires
        0 <= from <= to < source.len(),
    ensures
        from <= first_symbolic(source, from, to) <= to,
        from <= first_numeric(source, from, to) <= to,
        first_symbolic(source, from, to + 1) == if first_symbolic(source, from, to) < to
            || is_symbolic(source[to]) {
            first_symbolic(source, from, to)
        } else {
            to + 1
        },
        first_numeric(source, from, to + 1) == if first_numeric(source, from, to) < to
            || is_numeric(source[to]) {
            first_numeric(source, from, to)
        } else {
            to + 1
        },
    decreases to - from,
{
    reveal_with_fuel(first_symbolic, 2);
    reveal_with_fuel(first_numeric, 2);
    if from < to {
        lemma_first_extend(source, from + 1, to);
    }
}

/// What a finished word contributes: the tokens of the text from the start
/// of a word on are the word's tokens followed by the tokens of what comes
/// behind the separator that ends it.
proof fn lemma_word_complete(source: Seq<u8>, from: int, end: int)
    requires
        0 <= from <= end <= source.len(),
        forall|k: int| from <= k < end ==> !is_separator(#[trigger] source[k]),
        end < source.len() ==> is_separator(source[end]),
    ensures
        tokens_from(source, from) == word_tokens(source, from, end) + tokens_from(source, end + 1),
{
    assert(tokens_from(source, end) == tokens_from(source, end + 1));
    if from < end {
        lemma_word_end_found(source, from + 1, end);
    } else {
        assert(word_tokens(source, from, end) =~= Seq::<TokenView>::empty());
        assert(word_tokens(source, from, end) + tokens_from(source, end + 1) =~= tokens_from(
            source,
            end + 1,
        ));
    }
}

/// In valid UTF-8, a byte below `0x80` is a character of its own: a
/// character starts at it and another starts, or the text ends, right
/// behind it.
proof fn lemma_ascii_boundaries(bytes: Seq<u8>, at: int)
    requires
        valid_utf8(bytes),
        0 <= at < bytes.len(),
        bytes[at] < 0x80,
    ensures
        is_char_boundary(bytes, at),
        is_char_boundary(bytes, at + 1),
{
    is_char_boundary_iff_not_is_continuation_byte(bytes, at);
    if at + 1 == bytes.len() {
        is_char_boundary_start_end_of_seq(bytes);
    } else {
        let suffix = bytes.subrange(at, bytes.len() as int);
        valid_utf8_split(bytes, at);
        assert(suffix[0] == bytes[at]);
        assert(length_of_first_scalar(suffix) == 1);
        assert(is_char_boundary(suffix, 1)) by {
            reveal_with_fuel(is_char_boundary, 2);
            reveal_with_fuel(valid_utf8, 2);
        }
        is_char_boundary_iff_not_is_continuation_byte(suffix, 1);
        assert(suffix[1] == bytes[at + 1]);
        is_char_boundary_iff_not_is_continuation_byte(bytes, at + 1);
    }
}

/// The part of `source` between two byte positions at which characters
/// start.
fn slice<'a>(source: &'a str, start: usize, end: usize) -> (part: &'a str)
    requires
        start <= end <= source.spec_bytes().len(),
        is_char_boundary(source.spec_bytes(), start as int),
        is_char_boundary(source.spec_bytes(), end as int),
    ensures
        part.spec_bytes() == source.spec_bytes().subrange(start as int, end as int),
{
    broadcast use group_utf8_lib;

    let (head, _) = source.split_at(end);
    proof {
        assert(head.spec_bytes() =~= source.spec_bytes().subrange(0, end as int));
        if start < end {
            is_char_boundary_iff_not_is_continuation_byte(source.spec_bytes(), start as int);
            is_char_boundary_iff_not_is_continuation_byte(head.spec_bytes(), start as int);
        } else {
            is_char_boundary_start_end_of_seq(head.spec_bytes());
        }
    }
    let (_, part) = head.split_at(start);
    assert(part.spec_bytes() =~= source.spec_bytes().subrange(start as int, end as int));
    part
}

/// Converts source code into tokens.
pub fn tokenize<'a>(source_code: &'a str) -> (tokens: Vec<Token<'a>>)
    ensures
        token_views(tokens@) == tokens_of(source_code.spec_bytes()),
{
    let mut tokens: Vec<Token<'a>> = Vec::new();
    let mut current_index: usize = 0;

    let mut number_start_index: Option<usize> = None;
    let mut opcode_start_index: Option<usize> = None;

    let bytes = source_code.as_bytes();
    let ghost source = source_code.spec_bytes();
    let ghost word_start: int = 0;
    proof {
        broadcast use group_utf8_lib;

        assert(valid_utf8(source));
        is_char_boundary_start_end_of_seq(source);
        assert(token_views(tokens@) =~= Seq::<TokenView>::empty());
    }

    while current_index < bytes.len()
        invariant
            source == source_code.spec_bytes(),
            bytes@ == source,
            valid_utf8(source),
            0 <= word_start <= current_index <= source.len(),
            forall|k: int| word_start <= k < current_index ==> !is_separator(#[trigger] source[k]),
            match opcode_start_index {
                Some(start) => {
                    &&& start < current_index
                    &&& start == first_symbolic(source, word_start, current_index as int)
                    &&& is_char_boundary(source, start as int)
                },
                None => {
                    &&& first_symbolic(source, word_start, current_index as int) == current_index
                    &&& is_char_boundary(source, current_index as int)
                },
            },
            match number_start_index {
                Some(start) => {
                    &&& start < current_index
                    &&& start == first_numeric(source, word_start, current_index as int)
                    &&& is_char_boundary(source, start as int)
                },
                None => first_numeric(source, word_start, current_index as int) == current_index,
            },
            token_views(tokens@) + tokens_from(source, word_start) == tokens_of(source),
        decreases source.len() - current_index,
    {
        let byte = bytes[current_index];
        proof {
            lemma_first_extend(source, word_start, current_index as int);
            if byte < 0x80 {
                lemma_ascii_boundaries(source, current_index as int);
            }
        }
        if byte == SPACE || byte == LINE_FEED {
            let ghost before = token_views(tokens@);
            if let Some(start_index) = opcode_start_index {
                let opcode = slice(source_code, start_index, current_index);
                tokens.push(Token::Opcode(opcode));
                opcode_start_index = None;
            }
            if let Some(start_index) = number_start_index {
                let number = slice(source_code, start_index, current_index);
                tokens.push(Token::Number(number));
                number_start_index = None;
            }
            proof {
                lemma_word_complete(source, word_start, current_index as int);
                assert(token_views(tokens@) =~= before + word_tokens(
                    source,
                    word_start,
                    current_index as int,
                ));
                assert(before + (word_tokens(source, word_start, current_index as int)
                    + tokens_from(source, current_index + 1)) =~= (before + word_tokens(
                    source,
                    word_start,
                    current_index as int,
                )) + tokens_from(source, current_index + 1));
                word_start = current_index + 1;
            }
        } else if (DIGIT_ZERO <= byte && byte <= DIGIT_NINE) || byte == MINUS {
            if let None = number_start_index {
                number_start_index = Some(current_index);
            }
        } else {
            if let None = opcode_start_index {
                opcode_start_index = Some(current_index);
            }
        }
        current_index += 1;
    }

    let ghost before = token_views(tokens@);
    proof {
        is_char_boundary_start_end_of_seq(source);
    }
    if let Some(start_index) = opcode_start_index {
        let opcode = slice(source_code, start_index, current_index);
        tokens.push(Token::Opcode(opcode));
    }
    if let Some(start_index) = number_start_index {
        let number = slice(source_code, start_index, current_index);
        tokens.push(Token::Number(number));
    }
    proof {
        lemma_word_complete(source, word_start, current_index as int);
        assert(token_views(tokens@) =~= before + word_tokens(
            source,
            word_start,
            current_index as int,
        ));
        assert(tokens_from(source, current_index + 1) =~= Seq::<TokenView>::empty());
    }

    tokens
}

} // verus!
