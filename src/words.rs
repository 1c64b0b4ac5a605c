//! Classifying tokens: labels, the conditional-compilation filter, the table
//! of active words, and numeric literals.
use vstd::prelude::*;
use vstd::string::*;
use crate::input::starts_with;
use crate::input::starts_with_str;
use crate::text::dec_nat;
use crate::text::dec_u64;
use crate::text::push_char;
use crate::text::push_text;

verus! {

/// The kinds of fatal error.
#[derive(Clone, Copy, Debug, PartialEq, Eq, Structural)]
pub enum ErrKind {
    /// A source could not be opened or read.
    Io,
    /// The input ended where a name or a delimiter was expected, or a
    /// control structure is still open at the end.
    Syntax,
    /// The data stack or a control-flow stack was empty when a value was needed.
    StackUnderflow,
    /// A literal with an explicit radix does not parse, or a size is negative.
    NumericFormat,
    /// The target architecture is not supported.
    UnrecognizedArch,
    /// A word that is deliberately not implemented.
    Unimplemented,
    /// The label counter is exhausted.
    LabelOverflow,
}

/// A fatal error: its kind and the word or context it concerns.
#[derive(Debug)]
pub struct FthError {
    pub kind: ErrKind,
    pub context: String,
}

impl FthError {
    pub fn new(kind: ErrKind, context: &str) -> (r: Self)
        ensures
            r.kind == kind,
            r.context@ == context@,
    {
        FthError { kind, context: String::from_str(context) }
    }
}

// ---------------------------------------------------------------- labels

/// `s` padded with leading zeros to at least three characters.
pub open spec fn pad3(s: Seq<char>) -> Seq<char> {
    if s.len() == 1 {
        seq!['0', '0'] + s
    } else if s.len() == 2 {
        seq!['0'] + s
    } else {
        s
    }
}

/// The name of label number `n`: `_L` and at least three decimal digits.
pub open spec fn label_of(n: nat) -> Seq<char> {
    seq!['_', 'L'] + pad3(dec_nat(n))
}

/// The text of label number `n`.
pub fn label_text(n: u64) -> (r: String)
    ensures
        r@ == label_of(n as nat),
{
    proof {
        crate::text::lemma_dec_nat(n as nat);
    }
    let mut r = String::new();
    push_char(&mut r, '_');
    push_char(&mut r, 'L');
    if n < 10 {
        push_char(&mut r, '0');
        push_char(&mut r, '0');
    } else if n < 100 {
        push_char(&mut r, '0');
    }
    let d = dec_u64(n);
    push_text(&mut r, d.as_str());
    proof {
        if n >= 100 {
            assert(dec_nat(n as nat) == dec_nat((n / 10) as nat).push(
                crate::text::digit_char((n % 10) as nat),
            ));
            crate::text::lemma_dec_nat((n / 10) as nat);
        }
    }
    assert(r@ =~= label_of(n as nat));
    r
}

// ---------------------------------------------------------------- strings

/// Whether two strings hold the same characters.
pub fn str_eq(a: &str, b: &str) -> (r: bool)
    ensures
        r == (a@ == b@),
{
    if a.unicode_len() != b.unicode_len() {
        return false;
    }
    let r = starts_with_str(a, b);
    proof {
        assert(a@.take(b@.len() as int) =~= a@);
    }
    r
}

// ---------------------------------------------------------------- conditional compilation

/// The states of a conditional-compilation block.
#[derive(Clone, Copy, Debug, PartialEq, Eq, Structural)]
pub enum CondCompileState {
    /// Inside an `[IF]` nested in a skipped region: skip up to its `[THEN]`.
    Skipping,
    /// In the false branch: skip up to `[ELSE]` or `[THEN]`.
    SkipUntilElse,
    /// In the true branch: compile up to `[ELSE]` or `[THEN]`.
    CompileUntilElse,
}

/// Whether tokens are being skipped under this state.
pub open spec fn is_skipping(s: CondCompileState) -> bool {
    s != CondCompileState::CompileUntilElse
}

/// The state after `[ELSE]`.
pub open spec fn flip(s: CondCompileState) -> CondCompileState {
    match s {
        CondCompileState::SkipUntilElse => CondCompileState::CompileUntilElse,
        CondCompileState::CompileUntilElse => CondCompileState::SkipUntilElse,
        CondCompileState::Skipping => CondCompileState::Skipping,
    }
}

/// The filter on one uppercased token: whether it is skipped, and the new
/// stack; `None` for an `[ELSE]` or `[THEN]` outside any `[IF]`.
pub open spec fn skip_result(stack: Seq<CondCompileState>, uw: Seq<char>) -> Option<
    (bool, Seq<CondCompileState>),
> {
    if stack.len() == 0 {
        if uw == "[THEN]"@ || uw == "[ELSE]"@ {
            None
        } else {
            Some((false, stack))
        }
    } else {
        let cur = stack.last();
        if uw == "[ELSE]"@ {
            Some((true, stack.update(stack.len() - 1, flip(cur))))
        } else if uw == "[THEN]"@ {
            Some((true, stack.drop_last()))
        } else if is_skipping(cur) && uw == "[IF]"@ {
            Some((true, stack.push(CondCompileState::Skipping)))
        } else {
            Some((is_skipping(cur), stack))
        }
    }
}

/// The conditional-compilation filter on the uppercased token `uw`: returns
/// whether the token is skipped, updating the stack of states.
pub fn skip_filter(stack: &mut Vec<CondCompileState>, uw: &str) -> (r: Result<bool, FthError>)
    ensures
        skip_result(old(stack)@, uw@) is None ==> r is Err && r->Err_0.kind
            == ErrKind::StackUnderflow && r->Err_0.context@ == uw@,
        skip_result(old(stack)@, uw@) matches Some((b, s)) ==> r == Ok::<bool, FthError>(b)
            && final(stack)@ == s,
{
    let is_then = str_eq(uw, "[THEN]");
    let is_else = str_eq(uw, "[ELSE]");
    let n = stack.len();
    if n == 0 {
        if is_then || is_else {
            return Err(FthError::new(ErrKind::StackUnderflow, uw));
        }
        return Ok(false);
    }
    let cur = stack[n - 1];
    let skipping = cur != CondCompileState::CompileUntilElse;
    if is_else {
        stack.set(n - 1, match cur {
            CondCompileState::SkipUntilElse => CondCompileState::CompileUntilElse,
            CondCompileState::CompileUntilElse => CondCompileState::SkipUntilElse,
            CondCompileState::Skipping => CondCompileState::Skipping,
        });
        return Ok(true);
    }
    if is_then {
        stack.pop();
        return Ok(true);
    }
    if skipping {
        if str_eq(uw, "[IF]") {
            stack.push(CondCompileState::Skipping);
            return Ok(true);
        }
    }
    Ok(skipping)
}

// ---------------------------------------------------------------- active words

/// The words that act at compile time.
#[derive(Clone, Copy, Debug, PartialEq, Eq, Structural)]
pub enum Active {
    /// `:` starts a colon definition.
    Colon,
    /// `;` ends a colon definition.
    Semicolon,
    /// `CODE` defines a word in inline assembly.
    Code,
    /// `(` starts a comment up to `)`.
    Paren,
    /// `CONSTANT` defines a constant from the data stack.
    Constant,
    /// `VARIABLE` defines a one-cell variable.
    Variable,
    /// `2VARIABLE` defines a two-cell variable.
    TwoVariable,
    /// `XALLOT` reserves space of a size from the data stack.
    XAllot,
    /// `BEGIN` marks the start of a loop.
    Begin,
    /// `WHILE` leaves a `BEGIN` loop when false.
    While,
    /// `REPEAT` closes a `BEGIN … WHILE` loop.
    Repeat,
    /// `UNTIL` loops back to `BEGIN` while false.
    Until,
    /// `AGAIN` loops back to `BEGIN`.
    Again,
    /// `IF` branches forward when false.
    If,
    /// `THEN` closes an `IF` or `ELSE`.
    Then,
    /// `DO` starts a counted loop.
    Do,
    /// `LEAVE` jumps out of the current counted loop.
    Leave,
    /// `LOOP` closes a counted loop.
    Loop,
    /// `+LOOP` closes a counted loop with a step.
    PlusLoop,
    /// `ELSE` starts the false branch of an `IF`.
    Else,
    /// `IMMEDIATE`, which is not implemented.
    Immediate,
    /// `CASE` opens a case selection.
    Case,
    /// `OF` starts one case.
    Of,
    /// `ENDOF` ends one case.
    EndOf,
    /// `ENDCASE` closes a case selection.
    EndCase,
    /// `S"` compiles a string literal.
    SQuote,
    /// `."` compiles a string to print.
    DotQuote,
    /// `ABORT"` compiles a conditional abort with a message.
    AbortQuote,
    /// `[']` compiles the address of the next word.
    BracketTick,
    /// `VERBATIM` copies lines up to `END-VERBATIM`.
    Verbatim,
    /// `HEADLESSCODE` copies assembly lines up to `END-CODE`.
    HeadlessCode,
    /// `NEXT_IMMEDIATE` marks the next definition immediate.
    NextImmediate,
    /// `[DEFINED]` tests whether a name was defined on the command line.
    IsDefined,
    /// `[IF]` starts a conditionally compiled block.
    CompIf,
    /// `INCLUDE` reads another source file.
    Include,
}

/// The active-word table, keyed by the uppercase spelling.
pub open spec fn active_of(uw: Seq<char>) -> Option<Active> {
    if uw == ":"@ {
        Some(Active::Colon)
    } else
    if uw == ";"@ {
        Some(Active::Semicolon)
    } else
    if uw == "CODE"@ {
        Some(Active::Code)
    } else
    if uw == "("@ {
        Some(Active::Paren)
    } else
    if uw == "CONSTANT"@ {
        Some(Active::Constant)
    } else
    if uw == "VARIABLE"@ {
        Some(Active::Variable)
    } else
    if uw == "2VARIABLE"@ {
        Some(Active::TwoVariable)
    } else
    if uw == "XALLOT"@ {
        Some(Active::XAllot)
    } else
    if uw == "BEGIN"@ {
        Some(Active::Begin)
    } else
    if uw == "WHILE"@ {
        Some(Active::While)
    } else
    if uw == "REPEAT"@ {
        Some(Active::Repeat)
    } else
    if uw == "UNTIL"@ {
        Some(Active::Until)
    } else
    if uw == "AGAIN"@ {
        Some(Active::Again)
    } else
    if uw == "IF"@ {
        Some(Active::If)
    } else
    if uw == "THEN"@ {
        Some(Active::Then)
    } else
    if uw == "DO"@ {
        Some(Active::Do)
    } else
    if uw == "LEAVE"@ {
        Some(Active::Leave)
    } else
    if uw == "LOOP"@ {
        Some(Active::Loop)
    } else
    if uw == "+LOOP"@ {
        Some(Active::PlusLoop)
    } else
    if uw == "ELSE"@ {
        Some(Active::Else)
    } else
    if uw == "IMMEDIATE"@ {
        Some(Active::Immediate)
    } else
    if uw == "CASE"@ {
        Some(Active::Case)
    } else
    if uw == "OF"@ {
        Some(Active::Of)
    } else
    if uw == "ENDOF"@ {
        Some(Active::EndOf)
    } else
    if uw == "ENDCASE"@ {
        Some(Active::EndCase)
    } else
    if uw == "S\""@ {
        Some(Active::SQuote)
    } else
    if uw == ".\""@ {
        Some(Active::DotQuote)
    } else
    if uw == "ABORT\""@ {
        Some(Active::AbortQuote)
    } else
    if uw == "[']"@ {
        Some(Active::BracketTick)
    } else
    if uw == "VERBATIM"@ {
        Some(Active::Verbatim)
    } else
    if uw == "HEADLESSCODE"@ {
        Some(Active::HeadlessCode)
    } else
    if uw == "NEXT_IMMEDIATE"@ {
        Some(Active::NextImmediate)
    } else
    if uw == "[DEFINED]"@ {
        Some(Active::IsDefined)
    } else
    if uw == "[IF]"@ {
        Some(Active::CompIf)
    } else
    if uw == "INCLUDE"@ {
        Some(Active::Include)
    } else {
        None
    }
}

/// Looks up an uppercased token in the active-word table.
pub fn active_word(uw: &str) -> (r: Option<Active>)
    ensures
        r == active_of(uw@),
{
    if str_eq(uw, ":") {
        return Some(Active::Colon);
    }
    if str_eq(uw, ";") {
        return Some(Active::Semicolon);
    }
    if str_eq(uw, "CODE") {
        return Some(Active::Code);
    }
    if str_eq(uw, "(") {
        return Some(Active::Paren);
    }
    if str_eq(uw, "CONSTANT") {
        return Some(Active::Constant);
    }
    if str_eq(uw, "VARIABLE") {
        return Some(Active::Variable);
    }
    if str_eq(uw, "2VARIABLE") {
        return Some(Active::TwoVariable);
    }
    if str_eq(uw, "XALLOT") {
        return Some(Active::XAllot);
    }
    if str_eq(uw, "BEGIN") {
        return Some(Active::Begin);
    }
    if str_eq(uw, "WHILE") {
        return Some(Active::While);
    }
    if str_eq(uw, "REPEAT") {
        return Some(Active::Repeat);
    }
    if str_eq(uw, "UNTIL") {
        return Some(Active::Until);
    }
    if str_eq(uw, "AGAIN") {
        return Some(Active::Again);
    }
    if str_eq(uw, "IF") {
        return Some(Active::If);
    }
    if str_eq(uw, "THEN") {
        return Some(Active::Then);
    }
    if str_eq(uw, "DO") {
        return Some(Active::Do);
    }
    if str_eq(uw, "LEAVE") {
        return Some(Active::Leave);
    }
    if str_eq(uw, "LOOP") {
        return Some(Active::Loop);
    }
    if str_eq(uw, "+LOOP") {
        return Some(Active::PlusLoop);
    }
    if str_eq(uw, "ELSE") {
        return Some(Active::Else);
    }
    if str_eq(uw, "IMMEDIATE") {
        return Some(Active::Immediate);
    }
    if str_eq(uw, "CASE") {
        return Some(Active::Case);
    }
    if str_eq(uw, "OF") {
        return Some(Active::Of);
    }
    if str_eq(uw, "ENDOF") {
        return Some(Active::EndOf);
    }
    if str_eq(uw, "ENDCASE") {
        return Some(Active::EndCase);
    }
    if str_eq(uw, "S\"") {
        return Some(Active::SQuote);
    }
    if str_eq(uw, ".\"") {
        return Some(Active::DotQuote);
    }
    if str_eq(uw, "ABORT\"") {
        return Some(Active::AbortQuote);
    }
    if str_eq(uw, "[']") {
        return Some(Active::BracketTick);
    }
    if str_eq(uw, "VERBATIM") {
        return Some(Active::Verbatim);
    }
    if str_eq(uw, "HEADLESSCODE") {
        return Some(Active::HeadlessCode);
    }
    if str_eq(uw, "NEXT_IMMEDIATE") {
        return Some(Active::NextImmediate);
    }
    if str_eq(uw, "[DEFINED]") {
        return Some(Active::IsDefined);
    }
    if str_eq(uw, "[IF]") {
        return Some(Active::CompIf);
    }
    if str_eq(uw, "INCLUDE") {
        return Some(Active::Include);
    }
    None
}

// ---------------------------------------------------------------- numbers

/// The value of a digit in a radix, as `char::to_digit` reads it.
pub open spec fn digit_in_radix(c: char, radix: nat) -> Option<nat> {
    let v: int = if '0' <= c && c <= '9' {
        c as int - '0' as int
    } else if 'a' <= c && c <= 'z' {
        c as int - 'a' as int + 10
    } else if 'A' <= c && c <= 'Z' {
        c as int - 'A' as int + 10
    } else {
        36
    };
    if v < radix {
        Some(v as nat)
    } else {
        None
    }
}

/// A non-empty run of digits of the radix.
pub open spec fn digits_ok(s: Seq<char>, radix: nat) -> bool {
    s.len() > 0 && forall|i: int| 0 <= i < s.len() ==> #[trigger] digit_in_radix(s[i], radix) is Some
}

/// The number that digits of the radix denote.
pub open spec fn digits_num(s: Seq<char>, radix: nat) -> int
    decreases s.len(),
{
    if s.len() == 0 {
        0
    } else {
        digits_num(s.drop_last(), radix) * radix + match digit_in_radix(s.last(), radix) {
            Some(d) => d as int,
            None => 0,
        }
    }
}

/// An optional `+` or `-`, then digits of the radix, denoting a value that
/// fits in an `i64`.
pub open spec fn parse_radix(s: Seq<char>, radix: nat) -> Option<i64> {
    let neg = s.len() > 0 && s[0] == '-';
    let ds = if s.len() > 0 && (s[0] == '-' || s[0] == '+') {
        s.drop_first()
    } else {
        s
    };
    let v = if neg {
        -digits_num(ds, radix)
    } else {
        digits_num(ds, radix)
    };
    if digits_ok(ds, radix) && i64::MIN <= v && v <= i64::MAX {
        Some(v as i64)
    } else {
        None
    }
}

/// Relies on `i64::from_str_radix`: an optional sign then at least one digit
/// of the radix, and a value in range; anything else is an error.
#[verifier::external_body]
fn from_str_radix_i64(s: &str, radix: u32) -> (r: Option<i64>)
    requires
        2 <= radix <= 36,
    ensures
        r == parse_radix(s@, radix as nat),
{
    i64::from_str_radix(s, radix).ok()
}

/// What a token that is not an active word denotes.
#[derive(Clone, Copy, Debug, PartialEq, Eq, Structural)]
pub enum NumClass {
    /// A numeric literal.
    Number(i64),
    /// Not a number: a reference to a word.
    NotNumber,
    /// A literal with an explicit radix that does not parse.
    Bad,
}

/// `0x` introduces hexadecimal, `0b` binary; anything else is tried as decimal.
pub open spec fn classify(w: Seq<char>) -> NumClass {
    if starts_with(w, "0x"@) {
        match parse_radix(w.skip(2), 16) {
            Some(n) => NumClass::Number(n),
            None => NumClass::Bad,
        }
    } else if starts_with(w, "0b"@) {
        match parse_radix(w.skip(2), 2) {
            Some(n) => NumClass::Number(n),
            None => NumClass::Bad,
        }
    } else {
        match parse_radix(w, 10) {
            Some(n) => NumClass::Number(n),
            None => NumClass::NotNumber,
        }
    }
}

/// Classifies a token as a number, a word, or a malformed literal.
pub fn classify_number(w: &str) -> (r: NumClass)
    ensures
        r == classify(w@),
{
    let hex = starts_with_str(w, "0x");
    let bin = starts_with_str(w, "0b");
    if hex || bin {
        proof {
            reveal_strlit("0x");
            reveal_strlit("0b");
        }
        let n = w.unicode_len();
        let rest = w.substring_char(2, n);
        assert(rest@ =~= w@.skip(2));
        let radix: u32 = if hex { 16 } else { 2 };
        match from_str_radix_i64(rest, radix) {
            Some(v) => NumClass::Number(v),
            None => NumClass::Bad,
        }
    } else {
        match from_str_radix_i64(w, 10) {
            Some(v) => NumClass::Number(v),
            None => NumClass::NotNumber,
        }
    }
}

} // verus!
