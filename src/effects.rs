//! What each token, and each run over the input, does to the compile-time
//! state: the specification the compiler driver is verified against.
use vstd::prelude::*;
use crate::gen::Op;
use crate::input::InState;
use crate::input::Stop;
use crate::input::scan_full;
use crate::input::lines_until_result;
use crate::input::scan_result;
use crate::input::scan_state;
use crate::input::skip_ws_state;
use crate::input::stream;
use crate::symbols::name_len;
use crate::text::upper_of;
use crate::words::Active;
use crate::words::CondCompileState;
use crate::words::ErrKind;
use crate::words::NumClass;
use crate::words::active_of;
use crate::words::classify;
use crate::words::label_of;
use crate::words::skip_result;

verus! {

/// The largest label counter at which a token can still be handled.
pub const LABEL_LIMIT: u64 = 0xFFFF_FFFF_FFFF_FFF0;

/// The compile-time state as a value.
pub struct Model {
    /// What is left to read.
    pub input: InState,
    /// Inside a `:` … `;` definition.
    pub compiling: bool,
    /// The next definition is immediate.
    pub next_imm: bool,
    /// Values for `CONSTANT`, `XALLOT` and `[IF]`.
    pub data: Seq<i64>,
    /// Labels of `IF`, `BEGIN` and `CASE` structures, innermost last.
    pub ctrl_other: Seq<Seq<char>>,
    /// Labels of `DO` loops: the loop start, then its exit.
    pub ctrl_do: Seq<Seq<char>>,
    /// Conditional-compilation states, innermost last.
    pub skip: Seq<CondCompileState>,
    /// Names given on the command line.
    pub defines: Seq<Seq<char>>,
    /// The number of the next label.
    pub next_label: nat,
}

/// What handling a token, or the rest of the input, comes to: a fatal error
/// of some kind, or a new state, the directives written, and a source to
/// include before going on.
pub enum Outcome {
    /// A fatal error: its kind and the word or context it names.
    Fatal(ErrKind, Seq<char>),
    Done(Model, Seq<Op>, Option<Seq<char>>),
}

/// Skipping whitespace and reading a whitespace-delimited name.
pub open spec fn read_name(st: InState) -> (Option<Seq<char>>, InState) {
    let st1 = skip_ws_state(st);
    (scan_result(st1, Stop::Whitespace), scan_state(st1, Stop::Whitespace))
}

/// The `i`-th fresh label from the counter.
pub open spec fn lbl(m: Model, i: int) -> Seq<char> {
    label_of((m.next_label + i) as nat)
}

/// A reference to a runtime word.
pub open spec fn wref(s: &str) -> Op {
    Op::Word(s@)
}

/// A block of raw lines up to `marker`, with `after` appended and `before`
/// and `tail` around it. The marker was found exactly when a source is still
/// open afterwards; missing it is an error.
pub open spec fn block_effect(
    m: Model,
    st: InState,
    marker: Seq<char>,
    before: Seq<Op>,
    after: Seq<Seq<char>>,
    tail: Seq<Op>,
) -> Outcome {
    let (ls, st2) = lines_until_result(st, marker);
    if st2.srcs.len() == 0 {
        Outcome::Fatal(ErrKind::Syntax, marker)
    } else {
        Outcome::Done(
            Model { input: st2, ..m },
            before + seq![Op::Lines(ls + after)] + tail,
            None,
        )
    }
}

/// A quoted string up to the next `"`, and the directives that `lead` and
/// `tail` put around it: a branch over the bytes to `bt`, the bytes at `sl`,
/// then their address and length. `nlabels` labels are taken from the counter.
pub open spec fn string_effect(
    m: Model,
    word: Seq<char>,
    nlabels: nat,
    bt: Seq<char>,
    sl: Seq<char>,
    lead: Seq<Op>,
    tail: Seq<Op>,
) -> Outcome {
    let st1 = skip_ws_state(m.input);
    let (text, found, st2) = scan_full(st1, Stop::Char('"'));
    if !found {
        Outcome::Fatal(ErrKind::Syntax, word)
    } else {
        Outcome::Done(
            Model {
                input: st2,
                next_label: m.next_label + nlabels,
                ..m
            },
            lead + seq![
                wref("branch"),
                Op::LabelRef(bt),
                Op::Label(sl),
                Op::StringLit(text),
                Op::Label(bt),
                wref("lit"),
                Op::LabelRef(sl),
                Op::Literal(name_len(text) as i64),
            ] + tail,
            None,
        )
    }
}

/// A name to define, then what `f` makes of it.
pub open spec fn named(
    m: Model,
    word: Seq<char>,
    f: spec_fn(Model, Seq<char>) -> Outcome,
) -> Outcome {
    let (name, st) = read_name(m.input);
    match name {
        None => Outcome::Fatal(ErrKind::Syntax, word),
        Some(n) => f(Model { input: st, ..m }, n),
    }
}

pub open spec fn loop_effect(m: Model, step: &str, word: &str) -> Outcome {
    let d = m.ctrl_do;
    if d.len() < 2 {
        Outcome::Fatal(ErrKind::StackUnderflow, word@)
    } else {
        Outcome::Done(
            Model { ctrl_do: d.take(d.len() - 2), ..m },
            seq![wref(step), Op::LabelRef(d[d.len() - 2]), Op::Label(d.last()), wref("unloop")],
            None,
        )
    }
}

/// What an active word does.
pub open spec fn action_effect(m: Model, a: Active) -> Outcome {
    let co = m.ctrl_other;
    match a {
        Active::Colon => named(
            Model { compiling: true, ..m },
            ":"@,
            |m2: Model, n: Seq<char>|
                Outcome::Done(
                    Model { next_imm: false, ..m2 },
                    seq![Op::Header(n, m.next_imm)],
                    None,
                ),
        ),
        Active::Semicolon => Outcome::Done(
            Model { compiling: false, ..m },
            seq![wref("exit"), Op::Close],
            None,
        ),
        Active::Code => named(
            m,
            "CODE"@,
            |m2: Model, n: Seq<char>|
                block_effect(
                    Model { next_imm: false, ..m2 },
                    m2.input,
                    "END-CODE"@,
                    seq![Op::CodeHeader(n, m.next_imm)],
                    seq!["    NEXT\n"@],
                    seq![Op::Close],
                ),
        ),
        Active::HeadlessCode => block_effect(m, m.input, "END-CODE"@, seq![], seq![], seq![]),
        Active::Verbatim => block_effect(m, m.input, "END-VERBATIM"@, seq![], seq![], seq![]),
        Active::Paren => Outcome::Done(
            Model { input: scan_state(m.input, Stop::Char(')')), ..m },
            seq![],
            None,
        ),
        Active::Constant => named(
            m,
            "CONSTANT"@,
            |m2: Model, n: Seq<char>|
                if m2.data.len() == 0 {
                    Outcome::Fatal(ErrKind::StackUnderflow, "CONSTANT"@)
                } else {
                    Outcome::Done(
                        Model { data: m2.data.drop_last(), ..m2 },
                        seq![Op::Constant(n, m2.data.last())],
                        None,
                    )
                },
        ),
        Active::Variable => named(
            m,
            "VARIABLE"@,
            |m2: Model, n: Seq<char>| Outcome::Done(m2, seq![Op::Variable(n, 1)], None),
        ),
        Active::TwoVariable => named(
            m,
            "2VARIABLE"@,
            |m2: Model, n: Seq<char>| Outcome::Done(m2, seq![Op::Variable(n, 2)], None),
        ),
        Active::XAllot => if m.data.len() == 0 {
            Outcome::Fatal(ErrKind::StackUnderflow, "XALLOT"@)
        } else if m.data.last() < 0 {
            Outcome::Fatal(ErrKind::NumericFormat, "XALLOT"@)
        } else {
            Outcome::Done(
                Model { data: m.data.drop_last(), ..m },
                seq![Op::Allot(m.data.last() as u64)],
                None,
            )
        },
        Active::Begin => Outcome::Done(
            Model { ctrl_other: co.push(lbl(m, 0)), next_label: m.next_label + 1, ..m },
            seq![Op::Label(lbl(m, 0))],
            None,
        ),
        Active::While => if co.len() == 0 {
            Outcome::Fatal(ErrKind::StackUnderflow, "WHILE"@)
        } else {
            Outcome::Done(
                Model {
                    ctrl_other: co.drop_last().push(lbl(m, 0)).push(co.last()),
                    next_label: m.next_label + 1,
                    ..m
                },
                seq![wref("qbranch"), Op::LabelRef(lbl(m, 0))],
                None,
            )
        },
        Active::Repeat => if co.len() < 2 {
            Outcome::Fatal(ErrKind::StackUnderflow, "REPEAT"@)
        } else {
            Outcome::Done(
                Model { ctrl_other: co.take(co.len() - 2), ..m },
                seq![wref("branch"), Op::LabelRef(co.last()), Op::Label(co[co.len() - 2])],
                None,
            )
        },
        Active::Until => if co.len() == 0 {
            Outcome::Fatal(ErrKind::StackUnderflow, "UNTIL"@)
        } else {
            Outcome::Done(
                Model { ctrl_other: co.drop_last(), ..m },
                seq![wref("qbranch"), Op::LabelRef(co.last())],
                None,
            )
        },
        Active::Again => if co.len() == 0 {
            Outcome::Fatal(ErrKind::StackUnderflow, "AGAIN"@)
        } else {
            Outcome::Done(
                Model { ctrl_other: co.drop_last(), ..m },
                seq![wref("branch"), Op::LabelRef(co.last())],
                None,
            )
        },
        Active::If => Outcome::Done(
            Model { ctrl_other: co.push(lbl(m, 0)), next_label: m.next_label + 1, ..m },
            seq![wref("qbranch"), Op::LabelRef(lbl(m, 0))],
            None,
        ),
        Active::Else => if co.len() == 0 {
            Outcome::Fatal(ErrKind::StackUnderflow, "ELSE"@)
        } else {
            Outcome::Done(
                Model {
                    ctrl_other: co.drop_last().push(lbl(m, 0)),
                    next_label: m.next_label + 1,
                    ..m
                },
                seq![wref("branch"), Op::LabelRef(lbl(m, 0)), Op::Label(co.last())],
                None,
            )
        },
        Active::Then => if co.len() == 0 {
            Outcome::Fatal(ErrKind::StackUnderflow, "THEN"@)
        } else {
            Outcome::Done(
                Model { ctrl_other: co.drop_last(), ..m },
                seq![Op::Label(co.last())],
                None,
            )
        },
        Active::Do => Outcome::Done(
            Model {
                ctrl_do: m.ctrl_do.push(lbl(m, 0)).push(lbl(m, 1)),
                next_label: m.next_label + 2,
                ..m
            },
            seq![wref("2to_r"), Op::Label(lbl(m, 0))],
            None,
        ),
        Active::Leave => if m.ctrl_do.len() == 0 {
            Outcome::Fatal(ErrKind::StackUnderflow, "LEAVE"@)
        } else {
            Outcome::Done(m, seq![wref("branch"), Op::LabelRef(m.ctrl_do.last())], None)
        },
        Active::Loop => loop_effect(m, "do_loop1", "LOOP"),
        Active::PlusLoop => loop_effect(m, "do_plus_loop1", "+LOOP"),
        Active::Immediate => Outcome::Fatal(ErrKind::Unimplemented, "IMMEDIATE"@),
        Active::Case => Outcome::Done(
            Model { ctrl_other: co.push(lbl(m, 0)), next_label: m.next_label + 1, ..m },
            seq![],
            None,
        ),
        Active::Of => Outcome::Done(
            Model { ctrl_other: co.push(lbl(m, 0)), next_label: m.next_label + 1, ..m },
            seq![wref("over"), wref("equals"), wref("qbranch"), Op::LabelRef(lbl(m, 0)), wref("drop")],
            None,
        ),
        Active::EndOf => if co.len() < 2 {
            Outcome::Fatal(ErrKind::StackUnderflow, "ENDOF"@)
        } else {
            Outcome::Done(
                Model { ctrl_other: co.drop_last(), ..m },
                seq![wref("branch"), Op::LabelRef(co[co.len() - 2]), Op::Label(co.last())],
                None,
            )
        },
        Active::EndCase => if co.len() == 0 {
            Outcome::Fatal(ErrKind::StackUnderflow, "ENDCASE"@)
        } else {
            Outcome::Done(
                Model { ctrl_other: co.drop_last(), ..m },
                seq![wref("drop"), Op::Label(co.last())],
                None,
            )
        },
        Active::SQuote => string_effect(m, "S\""@, 2, lbl(m, 1), lbl(m, 0), seq![], seq![]),
        Active::DotQuote => string_effect(
            m,
            ".\""@,
            2,
            lbl(m, 1),
            lbl(m, 0),
            seq![],
            seq![wref("type")],
        ),
        Active::AbortQuote => string_effect(
            m,
            "ABORT\""@,
            3,
            lbl(m, 1),
            lbl(m, 2),
            seq![wref("qbranch"), Op::LabelRef(lbl(m, 0))],
            seq![wref("type"), wref("cr"), wref("abort"), Op::Label(lbl(m, 0))],
        ),
        Active::BracketTick => named(
            m,
            "[']"@,
            |m2: Model, n: Seq<char>| Outcome::Done(m2, seq![wref("lit"), Op::Word(n)], None),
        ),
        Active::NextImmediate => Outcome::Done(Model { next_imm: true, ..m }, seq![], None),
        Active::IsDefined => named(
            m,
            "[DEFINED]"@,
            |m2: Model, n: Seq<char>|
                Outcome::Done(
                    Model {
                        data: m2.data.push(
                            if m2.defines.contains(n) {
                                -1i64
                            } else {
                                0i64
                            },
                        ),
                        ..m2
                    },
                    seq![],
                    None,
                ),
        ),
        Active::CompIf => if m.data.len() == 0 {
            Outcome::Fatal(ErrKind::StackUnderflow, "[IF]"@)
        } else {
            Outcome::Done(
                Model {
                    data: m.data.drop_last(),
                    skip: m.skip.push(
                        if m.data.last() != 0 {
                            CondCompileState::CompileUntilElse
                        } else {
                            CondCompileState::SkipUntilElse
                        },
                    ),
                    ..m
                },
                seq![],
                None,
            )
        },
        Active::Include => named(
            m,
            "INCLUDE"@,
            |m2: Model, n: Seq<char>| Outcome::Done(m2, seq![], Some(n)),
        ),
    }
}

/// What handling one token does.
pub open spec fn token_effect(m: Model, w: Seq<char>) -> Outcome {
    token_step(m, w, upper_of(w))
}

/// What handling token `w`, whose uppercase form is `uw`, does: the
/// conditional-compilation filter first, then an active word, a number, or
/// a reference to a word.
#[verifier::opaque]
pub open spec fn token_step(m: Model, w: Seq<char>, uw: Seq<char>) -> Outcome {
    match skip_result(m.skip, uw) {
        None => Outcome::Fatal(ErrKind::StackUnderflow, uw),
        Some((skipped, s2)) => if skipped {
            Outcome::Done(Model { skip: s2, ..m }, seq![], None)
        } else {
            match active_of(uw) {
                Some(a) => action_effect(m, a),
                None => match classify(w) {
                    NumClass::Bad => Outcome::Fatal(ErrKind::NumericFormat, w),
                    NumClass::Number(n) => number_effect(m, n),
                    NumClass::NotNumber => if m.compiling {
                        Outcome::Done(m, seq![Op::Word(w)], None)
                    } else {
                        Outcome::Done(m, seq![], None)
                    },
                },
            }
        },
    }
}

/// A number is compiled as a literal inside a definition, and pushed on the
/// data stack outside one.
pub open spec fn number_effect(m: Model, n: i64) -> Outcome {
    if m.compiling {
        Outcome::Done(m, seq![Op::Literal(n)], None)
    } else {
        Outcome::Done(Model { data: m.data.push(n), ..m }, seq![], None)
    }
}

/// At the end of the input every control structure and conditional block
/// must be closed; then the dictionary head is written.
pub open spec fn finish_effect(m: Model) -> Outcome {
    if m.ctrl_other.len() == 0 && m.ctrl_do.len() == 0 && m.skip.len() == 0 {
        Outcome::Done(m, seq![Op::Epilog], None)
    } else {
        Outcome::Fatal(ErrKind::Syntax, "end of input"@)
    }
}

/// `ops` written before an outcome.
pub open spec fn prepend(ops: Seq<Op>, o: Outcome) -> Outcome {
    match o {
        Outcome::Fatal(k, c) => Outcome::Fatal(k, c),
        Outcome::Done(m, ops2, inc) => Outcome::Done(m, ops + ops2, inc),
    }
}

/// Handling the rest of the input token by token, up to its end or up to a
/// source to include.
pub open spec fn run(m: Model) -> Outcome
    decreases stream(m.input).len(),
    via run_decreases
{
    if m.next_label > LABEL_LIMIT {
        Outcome::Fatal(ErrKind::LabelOverflow, "label"@)
    } else {
        let (tok, st) = read_name(m.input);
        match tok {
            None => finish_effect(Model { input: st, ..m }),
            Some(w) => match token_effect(Model { input: st, ..m }, w) {
                Outcome::Fatal(k, c) => Outcome::Fatal(k, c),
                Outcome::Done(m2, ops, inc) => if inc is Some {
                    Outcome::Done(m2, ops, inc)
                } else {
                    prepend(ops, run(m2))
                },
            },
        }
    }
}

/// Handling a token never makes the input longer.
pub proof fn lemma_token_input(m: Model, w: Seq<char>)
    ensures
        token_effect(m, w) matches Outcome::Done(m2, _, _) ==> stream(m2.input).len() <= stream(
            m.input,
        ).len(),
{
    reveal(token_step);
    let st = m.input;
    crate::input::lemma_skip_ws_len(st);
    let st1 = skip_ws_state(st);
    crate::input::lemma_scan_len(st1, Stop::Whitespace);
    crate::input::lemma_scan_len(st1, Stop::Char('"'));
    crate::input::lemma_scan_len(st, Stop::Char(')'));
    crate::input::lemma_lines_len(st, "END-CODE"@);
    crate::input::lemma_lines_len(st, "END-VERBATIM"@);
    let st2 = read_name(st).1;
    crate::input::lemma_lines_len(st2, "END-CODE"@);
}

#[via_fn]
proof fn run_decreases(m: Model) {
    lemma_run_step(m);
}

/// Reading a token and handling it makes the input shorter.
pub proof fn lemma_run_step(m: Model)
    ensures
        read_name(m.input).0 matches Some(w) ==> (token_effect(
            Model { input: read_name(m.input).1, ..m },
            w,
        ) matches Outcome::Done(m2, _, _) ==> stream(m2.input).len() < stream(m.input).len()),
{
    {
        let (tok, st) = read_name(m.input);
        crate::input::lemma_skip_ws_len(m.input);
        let st1 = skip_ws_state(m.input);
        crate::input::lemma_scan_len(st1, Stop::Whitespace);
        if let Some(w) = tok {
            assert(stream(st1).len() > 0);
            lemma_token_input(Model { input: st, ..m }, w);
        }
    }
}

} // verus!
