use vstd::prelude::*;

use crate::data::symbol::Symbol;
use crate::data::symbol::string_from_chars;

verus! {

/// A lexical token of the Xi language.
#[derive(Clone, Debug)]
pub enum Token {
    /// Identifier
    Identifier(Symbol),
    /// Character literal
    Character(char),
    /// Integer literal
    Integer(String),
    /// String literal
    String(String),
    Use,
    Template,
    Class,
    This,
    Super,
    New,
    Extends,
    Final,
    Null,
    Break,
    If,
    Do,
    While,
    Else,
    Return,
    Length,
    Int,
    Bool,
    True,
    False,
    Assign,
    Not,
    Mul,
    Hul,
    Div,
    Mod,
    Add,
    Sub,
    Lt,
    Le,
    Ge,
    Gt,
    Eq,
    Ne,
    And,
    Or,
    LParen,
    RParen,
    LBrack,
    RBrack,
    LBrace,
    RBrace,
    Colon,
    Semicolon,
    Comma,
    Underscore,
    Period,
}

/// The escape sequence that prints `c`, for the characters that need one.
pub open spec fn spec_unescape_char(c: char) -> Option<Seq<char>> {
    if c == '\n' {
        Some(seq!['\\', 'n'])
    } else if c == '\r' {
        Some(seq!['\\', 'r'])
    } else if c == '\t' {
        Some(seq!['\\', 't'])
    } else if c == '\x08' {
        Some(seq!['\\', 'b'])
    } else if c == '\x0C' {
        Some(seq!['\\', 'f'])
    } else {
        None
    }
}

/// `string` with each character that needs one replaced by its escape sequence.
pub open spec fn spec_unescape(string: Seq<char>) -> Seq<char>
    decreases string.len(),
{
    if string.len() == 0 {
        seq![]
    } else {
        spec_unescape(string.drop_last()) + match spec_unescape_char(string.last()) {
            Some(escaped) => escaped,
            None => seq![string.last()],
        }
    }
}

/// The escape sequence that prints `c`: newline, carriage return, tab,
/// backspace and form feed have one.
pub fn unescape_char(c: char) -> (escaped: Option<&'static str>)
    ensures
        match (escaped, spec_unescape_char(c)) {
            (Some(escaped), Some(expected)) => escaped@ == expected,
            (None, None) => true,
            _ => false,
        },
{
    match c {
        '\n' => {
            proof {
                reveal_strlit("\\n");
            }
            Some("\\n")
        },
        '\r' => {
            proof {
                reveal_strlit("\\r");
            }
            Some("\\r")
        },
        '\t' => {
            proof {
                reveal_strlit("\\t");
            }
            Some("\\t")
        },
        '\x08' => {
            proof {
                reveal_strlit("\\b");
            }
            Some("\\b")
        },
        '\x0C' => {
            proof {
                reveal_strlit("\\f");
            }
            Some("\\f")
        },
        _ => None,
    }
}

/// `string` with each character that needs one replaced by its escape sequence.
pub fn unescape_str(string: &str) -> (unescaped: String)
    ensures
        unescaped@ == spec_unescape(string@),
{
    let mut buffer: Vec<char> = Vec::new();
    let length = string.unicode_len();
    let mut index: usize = 0;
    while index < length
        invariant
            length == string@.len(),
            index <= length,
            buffer@ == spec_unescape(string@.take(index as int)),
        decreases length - index,
    {
        let c = string.get_char(index);
        let ghost prefix = string@.take(index + 1);
        assert(prefix.drop_last() =~= string@.take(index as int));
        assert(prefix.last() == c);
        match unescape_char(c) {
            Some(escaped) => {
                let count = escaped.unicode_len();
                let ghost before = buffer@;
                let mut position: usize = 0;
                while position < count
                    invariant
                        count == escaped@.len(),
                        position <= count,
                        buffer@ == before + escaped@.take(position as int),
                    decreases count - position,
                {
                    assert(escaped@.take(position + 1) =~= escaped@.take(position as int).push(escaped@[position as int]));
                    buffer.push(escaped.get_char(position));
                    position += 1;
                }
                assert(escaped@.take(count as int) =~= escaped@);
            },
            None => {
                buffer.push(c);
            },
        }
        index += 1;
    }
    assert(string@.take(length as int) =~= string@);
    string_from_chars(&buffer)
}

} // verus!
