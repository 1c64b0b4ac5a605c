//! Turning Forth word spellings into assembler-safe identifiers.
use vstd::prelude::*;
use vstd::string::*;
use crate::text::push_char;
use crate::text::push_text;
use vstd::utf8::encode_utf8;

verus! {

/// The alphabetic token that stands for a punctuation character in symbols.
pub open spec fn link_of(c: char) -> Option<Seq<char>> {
    match c {
        ':' => Some(seq!['c', 'o', 'l', 'o', 'n']),
        ';' => Some(seq!['s', 'e', 'm', 'i', 'c', 'o', 'l', 'o', 'n']),
        '*' => Some(seq!['s', 't', 'a', 'r']),
        '/' => Some(seq!['s', 'l', 'a', 's', 'h']),
        '\\' => Some(seq!['b', 'a', 'c', 'k', 's', 'l', 'a', 's', 'h']),
        '!' => Some(seq!['s', 't', 'o', 'r', 'e']),
        '@' => Some(seq!['f', 'e', 't', 'c', 'h']),
        '#' => Some(seq!['p', 'o', 'u', 'n', 'd']),
        '\'' => Some(seq!['t', 'i', 'c', 'k']),
        '`' => Some(seq!['b', 'a', 'c', 'k', 't', 'i', 'c', 'k']),
        '"' => Some(seq!['q', 'u', 'o', 't', 'e']),
        '+' => Some(seq!['p', 'l', 'u', 's']),
        '-' => Some(seq!['m', 'i', 'n', 'u', 's']),
        ',' => Some(seq!['c', 'o', 'm', 'm', 'a']),
        '.' => Some(seq!['d', 'o', 't']),
        '<' => Some(seq!['f', 'r', 'o', 'm']),
        '>' => Some(seq!['t', 'o']),
        '=' => Some(seq!['e', 'q', 'u', 'a', 'l', 's']),
        '(' => Some(seq!['o', 'p', 'e', 'n', '_', 'p', 'a', 'r', 'e', 'n']),
        ')' => Some(seq!['c', 'l', 'o', 's', 'e', '_', 'p', 'a', 'r', 'e', 'n']),
        '[' => Some(seq!['o', 'p', 'e', 'n', '_', 's', 'q', 'u', 'a', 'r', 'e']),
        ']' => Some(seq!['c', 'l', 'o', 's', 'e', '_', 's', 'q', 'u', 'a', 'r', 'e']),
        '{' => Some(seq!['o', 'p', 'e', 'n', '_', 'b', 'r', 'a', 'c', 'e']),
        '}' => Some(seq!['c', 'l', 'o', 's', 'e', '_', 'b', 'r', 'a', 'c', 'e']),
        '?' => Some(seq!['q', 'u', 'e', 's', 't', 'i', 'o', 'n']),
        '%' => Some(seq!['p', 'e', 'r', 'c', 'e', 'n', 't']),
        '^' => Some(seq!['c', 'a', 'r', 'e', 't']),
        '&' => Some(seq!['a', 'm', 'p', 'e', 'r', 's', 'a', 'n', 'd']),
        '~' => Some(seq!['t', 'i', 'l', 'd', 'e']),
        '|' => Some(seq!['p', 'i', 'p', 'e']),
        _ => None,
    }
}

/// The symbol-linkage table: the token for `c`, if `c` is one of the mapped characters.
pub fn symbol_linkage(c: char) -> (r: Option<&'static str>)
    ensures
        r is Some == link_of(c) is Some,
        r matches Some(t) ==> t@ == link_of(c)->Some_0,
{
    proof {
        reveal_strlit("colon");
        reveal_strlit("semicolon");
        reveal_strlit("star");
        reveal_strlit("slash");
        reveal_strlit("backslash");
        reveal_strlit("store");
        reveal_strlit("fetch");
        reveal_strlit("pound");
        reveal_strlit("tick");
        reveal_strlit("backtick");
        reveal_strlit("quote");
        reveal_strlit("plus");
        reveal_strlit("minus");
        reveal_strlit("comma");
        reveal_strlit("dot");
        reveal_strlit("from");
        reveal_strlit("to");
        reveal_strlit("equals");
        reveal_strlit("open_paren");
        reveal_strlit("close_paren");
        reveal_strlit("open_square");
        reveal_strlit("close_square");
        reveal_strlit("open_brace");
        reveal_strlit("close_brace");
        reveal_strlit("question");
        reveal_strlit("percent");
        reveal_strlit("caret");
        reveal_strlit("ampersand");
        reveal_strlit("tilde");
        reveal_strlit("pipe");
    }
    match c {
        ':' => Some("colon"),
        ';' => Some("semicolon"),
        '*' => Some("star"),
        '/' => Some("slash"),
        '\\' => Some("backslash"),
        '!' => Some("store"),
        '@' => Some("fetch"),
        '#' => Some("pound"),
        '\'' => Some("tick"),
        '`' => Some("backtick"),
        '"' => Some("quote"),
        '+' => Some("plus"),
        '-' => Some("minus"),
        ',' => Some("comma"),
        '.' => Some("dot"),
        '<' => Some("from"),
        '>' => Some("to"),
        '=' => Some("equals"),
        '(' => Some("open_paren"),
        ')' => Some("close_paren"),
        '[' => Some("open_square"),
        ']' => Some("close_square"),
        '{' => Some("open_brace"),
        '}' => Some("close_brace"),
        '?' => Some("question"),
        '%' => Some("percent"),
        '^' => Some("caret"),
        '&' => Some("ampersand"),
        '~' => Some("tilde"),
        '|' => Some("pipe"),
        _ => None,
    }
}

/// What one character of a word contributes to its symbol.
pub open spec fn piece(c: char) -> Seq<char> {
    match link_of(c) {
        Some(t) => t,
        None => seq![c],
    }
}

/// The separator placed after the character before the last one: `_` after a mapped character.
pub open spec fn sep_after(w: Seq<char>) -> Seq<char> {
    if w.len() > 0 && link_of(w.last()) is Some {
        seq!['_']
    } else {
        seq![]
    }
}

/// The part of the symbol that follows the `w_` prefix.
pub open spec fn mangle_body(w: Seq<char>) -> Seq<char>
    decreases w.len(),
{
    if w.len() == 0 {
        seq![]
    } else {
        mangle_body(w.drop_last()) + sep_after(w.drop_last()) + piece(w.last())
    }
}

/// The linkable symbol of a Forth word.
pub open spec fn mangle(w: Seq<char>) -> Seq<char> {
    seq!['w', '_'] + mangle_body(w)
}

/// The linkable name for a word: `w_` followed by each character, with mapped
/// punctuation spelled out and an `_` after each spelled-out character that is
/// not the last.
pub fn word_to_symbol(word_string: &str) -> (r: String)
    ensures
        r@ == mangle(word_string@),
{
    let mut result = String::new();
    push_char(&mut result, 'w');
    push_char(&mut result, '_');
    let mut needs_underscore = false;
    let n = word_string.unicode_len();
    let mut i: usize = 0;
    while i < n
        invariant
            n == word_string@.len(),
            i <= n,
            result@ == mangle(word_string@.take(i as int)),
            needs_underscore == (i > 0 && link_of(word_string@[i - 1]) is Some),
        decreases n - i,
    {
        let c = word_string.get_char(i);
        let ghost pre = word_string@.take(i as int);
        assert(word_string@.take(i + 1).drop_last() =~= pre);
        if needs_underscore {
            push_char(&mut result, '_');
            needs_underscore = false;
        }
        match symbol_linkage(c) {
            None => {
                push_char(&mut result, c);
            },
            Some(map_value) => {
                push_text(&mut result, map_value);
                needs_underscore = true;
            },
        }
        i = i + 1;
        assert(result@ =~= mangle(word_string@.take(i as int)));
    }
    assert(word_string@.take(n as int) =~= word_string@);
    result
}

/// How a backend escapes a double quote inside a quoted name.
#[derive(Clone, Copy, Debug, PartialEq, Eq, Structural)]
pub enum EscapeMethod {
    Backslash,
    Double,
}

/// The character written before each `"` under an escape method.
pub open spec fn escape_char(method: EscapeMethod) -> char {
    match method {
        EscapeMethod::Backslash => '\\',
        EscapeMethod::Double => '"',
    }
}

/// `w` with every `"` preceded by the method's escape character.
pub open spec fn escaped(method: EscapeMethod, w: Seq<char>) -> Seq<char>
    decreases w.len(),
{
    if w.len() == 0 {
        seq![]
    } else if w.last() == '"' {
        escaped(method, w.drop_last()) + seq![escape_char(method), '"']
    } else {
        escaped(method, w.drop_last()).push(w.last())
    }
}

/// Copies `w`, escaping each double quote as `method` says.
pub fn escape_quotes(method: EscapeMethod, w: &str) -> (r: String)
    ensures
        r@ == escaped(method, w@),
{
    let mut result = String::new();
    let n = w.unicode_len();
    let mut i: usize = 0;
    while i < n
        invariant
            n == w@.len(),
            i <= n,
            result@ == escaped(method, w@.take(i as int)),
        decreases n - i,
    {
        let c = w.get_char(i);
        assert(w@.take(i + 1).drop_last() =~= w@.take(i as int));
        if c == '"' {
            match method {
                EscapeMethod::Backslash => push_char(&mut result, '\\'),
                EscapeMethod::Double => push_char(&mut result, '"'),
            }
            push_char(&mut result, c);
        } else {
            push_char(&mut result, c);
        }
        i = i + 1;
        assert(result@ =~= escaped(method, w@.take(i as int)));
    }
    assert(w@.take(n as int) =~= w@);
    result
}

/// A character with ASCII lowercase letters turned to uppercase.
pub open spec fn ascii_upper_char(c: char) -> char {
    if 'a' <= c && c <= 'z' {
        ((c as u32) - 32) as char
    } else {
        c
    }
}

/// A character sequence with ASCII lowercase letters turned to uppercase.
pub open spec fn ascii_upper(s: Seq<char>) -> Seq<char> {
    s.map_values(|c: char| ascii_upper_char(c))
}

/// Copies `s` with ASCII lowercase letters turned to uppercase; other characters stay.
pub fn make_ascii_upper(s: &str) -> (r: String)
    ensures
        r@ == ascii_upper(s@),
{
    let mut result = String::new();
    let n = s.unicode_len();
    let mut i: usize = 0;
    while i < n
        invariant
            n == s@.len(),
            i <= n,
            result@ == ascii_upper(s@.take(i as int)),
        decreases n - i,
    {
        let c = s.get_char(i);
        let u = if 'a' <= c && c <= 'z' {
            ((c as u32) - 32) as u8 as char
        } else {
            c
        };
        push_char(&mut result, u);
        i = i + 1;
        assert(result@ =~= ascii_upper(s@.take(i as int)));
    }
    assert(s@.take(n as int) =~= s@);
    result
}

/// The length in bytes of a name, as `str::len` gives it.
pub open spec fn name_len(s: Seq<char>) -> nat {
    (encode_utf8(s).len() as usize) as nat
}

} // verus!
