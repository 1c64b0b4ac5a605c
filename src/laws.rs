//! Properties that hold of every run of the compiler.
use vstd::prelude::*;
use crate::effects::Model;
use crate::effects::Outcome;
use crate::effects::action_effect;
use crate::effects::finish_effect;
use crate::effects::lemma_run_step;
use crate::effects::number_effect;
use crate::effects::read_name;
use crate::effects::run;
use crate::effects::token_effect;
use crate::effects::token_step;
use crate::gen::Op;
use crate::input::InState;
use crate::input::latin1;
use crate::input::stream;
use crate::input::flat;
use crate::text::dec_nat;
use crate::text::digits_value;
use crate::text::is_digit;
use crate::text::lemma_dec_nat;
use crate::text::upper_of;
use crate::words::Active;
use crate::words::NumClass;
use crate::words::active_of;
use crate::words::classify;
use crate::words::label_of;
use crate::words::pad3;
use crate::words::skip_result;
use crate::symbols::link_of;
use crate::symbols::mangle;
use crate::symbols::mangle_body;
use crate::symbols::piece;
use crate::symbols::sep_after;
use crate::words::CondCompileState;
use crate::words::flip;
use crate::words::is_skipping;

verus! {

/// When `INCLUDE` hands back the name of a source, nothing is pending, so
/// the source opened then is read right where the directive stood.
pub proof fn lemma_include_point(m: Model)
    requires
        m.input.pending.len() <= 1,
    ensures
        action_effect(m, Active::Include) matches Outcome::Done(m2, ops, Some(f)) ==> m2.input.pending.len()
            == 0 && ops.len() == 0,
{
    let st1 = crate::input::skip_ws_state(m.input);
    let s = stream(m.input);
    let k = crate::input::ws_prefix_len(s);
    crate::input::lemma_nexts_pending(m.input, k + 1);
    assert(st1.pending.len() <= 1);
    crate::input::lemma_scan_len(st1, crate::input::Stop::Whitespace);
}

proof fn lemma_leading_zeros(z: Seq<char>, s: Seq<char>)
    requires
        forall|i: int| 0 <= i < z.len() ==> #[trigger] z[i] == '0',
    ensures
        digits_value(z + s) == digits_value(s),
    decreases z.len() + s.len(),
{
    if s.len() == 0 {
        assert(z + s =~= z);
        if z.len() > 0 {
            assert forall|i: int| 0 <= i < z.drop_last().len() implies #[trigger] z.drop_last()[i]
                == '0' by {
                assert(z.drop_last()[i] == z[i]);
            }
            lemma_leading_zeros(z.drop_last(), s);
            assert(z.drop_last() + s =~= z.drop_last());
            crate::text::lemma_digit_char(0);
        }
    } else {
        assert((z + s).drop_last() =~= z + s.drop_last());
        lemma_leading_zeros(z, s.drop_last());
    }
}

proof fn lemma_label_value(n: nat)
    ensures
        digits_value(pad3(dec_nat(n))) == n,
        pad3(dec_nat(n)).len() >= 3,
        forall|i: int| 0 <= i < pad3(dec_nat(n)).len() ==> is_digit(#[trigger] pad3(dec_nat(n))[i]),
{
    lemma_dec_nat(n);
    let d = dec_nat(n);
    if d.len() == 1 {
        lemma_leading_zeros(seq!['0', '0'], d);
    } else if d.len() == 2 {
        lemma_leading_zeros(seq!['0'], d);
    }
    let p = pad3(d);
    assert forall|i: int| 0 <= i < p.len() implies is_digit(#[trigger] p[i]) by {
        if d.len() == 1 && i >= 2 {
            assert(p[i] == d[i - 2]);
        } else if d.len() == 2 && i >= 1 {
            assert(p[i] == d[i - 1]);
        }
    }
}

/// Labels are fresh: distinct counter values give distinct labels, and every
/// label is `_L` followed by at least three decimal digits.
pub proof fn lemma_label_fresh(a: nat, b: nat)
    ensures
        a != b ==> label_of(a) != label_of(b),
        label_of(a).len() >= 5,
        label_of(a)[0] == '_',
        label_of(a)[1] == 'L',
        forall|i: int| 2 <= i < label_of(a).len() ==> is_digit(#[trigger] label_of(a)[i]),
{
    lemma_label_value(a);
    lemma_label_value(b);
    if label_of(a) == label_of(b) {
        assert(label_of(a).skip(2) =~= pad3(dec_nat(a)));
        assert(label_of(b).skip(2) =~= pad3(dec_nat(b)));
    }
    assert forall|i: int| 2 <= i < label_of(a).len() implies is_digit(#[trigger] label_of(a)[i]) by {
        assert(label_of(a)[i] == pad3(dec_nat(a))[i - 2]);
    }
}

/// The label counter never goes back, so a label is never minted twice.
pub proof fn lemma_counter_grows(m: Model, w: Seq<char>)
    ensures
        token_effect(m, w) matches Outcome::Done(m2, _, _) ==> m2.next_label >= m.next_label,
{
    reveal(token_step);
}

/// A run that reaches the end of its input has closed every control
/// structure and every conditional block; with one still open it fails.
pub proof fn lemma_run_balanced(m: Model)
    ensures
        run(m) matches Outcome::Done(m2, _, None) ==> m2.ctrl_other.len() == 0 && m2.ctrl_do.len()
            == 0 && m2.skip.len() == 0,
        finish_effect(m) is Fatal <==> (m.ctrl_other.len() > 0 || m.ctrl_do.len() > 0
            || m.skip.len() > 0),
    decreases stream(m.input).len(),
{
    if m.next_label <= crate::effects::LABEL_LIMIT {
        let (tok, st) = read_name(m.input);
        if let Some(w) = tok {
            lemma_run_step(m);
            if let Outcome::Done(m2, ops, inc) = token_effect(Model { input: st, ..m }, w) {
                if inc is None {
                    lemma_run_balanced(m2);
                }
            }
        }
    }
}

/// Numbers: inside a definition a number is compiled as `lit` and its value;
/// outside one it lands on the data stack and nothing is written.
pub proof fn lemma_number_token(m: Model, w: Seq<char>, n: i64)
    requires
        classify(w) == NumClass::Number(n),
        active_of(upper_of(w)) is None,
        skip_result(m.skip, upper_of(w)) == Some((false, m.skip)),
    ensures
        token_effect(m, w) == number_effect(m, n),
        m.compiling ==> token_effect(m, w) == Outcome::Done(m, seq![Op::Literal(n)], None),
        !m.compiling ==> token_effect(m, w) == Outcome::Done(
            Model { data: m.data.push(n), ..m },
            seq![],
            None,
        ),
{
    reveal(token_step);
}

/// Only `:` turns compiling on and only `;` turns it off, so outside a
/// `:` … `;` pair the compiler is interpreting.
pub proof fn lemma_compiling_mode(m: Model, a: Active)
    ensures
        action_effect(m, a) matches Outcome::Done(m2, _, _) ==> m2.compiling == (if a
            == Active::Colon {
            true
        } else if a == Active::Semicolon {
            false
        } else {
            m.compiling
        }),
{
}

/// Opening a source with text `t` when no character is pending makes the
/// input `t` followed by what was to be read before: the text of an included
/// file stands where the directive stood.
pub proof fn lemma_include_transparent(st: InState, t: Seq<u8>)
    requires
        st.pending.len() == 0,
    ensures
        stream(InState { pending: st.pending, srcs: st.srcs.push(latin1(t)) }) == latin1(t)
            + stream(st),
{
    let srcs2 = st.srcs.push(latin1(t));
    assert(srcs2.drop_last() =~= st.srcs);
    assert(flat(srcs2) == latin1(t) + flat(st.srcs));
    assert(st.pending + flat(srcs2) =~= latin1(t) + (st.pending + flat(st.srcs)));
}

/// The conditional-compilation words.
pub open spec fn is_cond(uw: Seq<char>) -> bool {
    uw == "[IF]"@ || uw == "[ELSE]"@ || uw == "[THEN]"@
}

/// The filter applied to a sequence of uppercased tokens: for each token,
/// whether it is skipped, and the final stack; `None` if it fails.
pub open spec fn filter_all(stack: Seq<CondCompileState>, ws: Seq<Seq<char>>) -> Option<
    (Seq<bool>, Seq<CondCompileState>),
>
    decreases ws.len(),
{
    if ws.len() == 0 {
        Some((seq![], stack))
    } else {
        match skip_result(stack, ws[0]) {
            None => None,
            Some((b, s2)) => match filter_all(s2, ws.skip(1)) {
                None => None,
                Some((bs, s3)) => Some((seq![b] + bs, s3)),
            },
        }
    }
}

/// Conditional words nest properly inside a block at depth `d`: every
/// `[THEN]` and `[ELSE]` belongs to an `[IF]` of the block.
pub open spec fn nested(ws: Seq<Seq<char>>, d: nat) -> bool
    decreases ws.len(),
{
    if ws.len() == 0 {
        d == 0
    } else if ws[0] == "[IF]"@ {
        nested(ws.skip(1), d + 1)
    } else if ws[0] == "[THEN]"@ {
        d > 0 && nested(ws.skip(1), (d - 1) as nat)
    } else if ws[0] == "[ELSE]"@ {
        d > 0 && nested(ws.skip(1), d)
    } else {
        nested(ws.skip(1), d)
    }
}

pub open spec fn skipping_run(d: nat) -> Seq<CondCompileState> {
    Seq::new(d, |i: int| CondCompileState::Skipping)
}

proof fn lemma_literals_differ()
    ensures
        "[IF]"@ != "[THEN]"@,
        "[IF]"@ != "[ELSE]"@,
        "[THEN]"@ != "[ELSE]"@,
{
    reveal_strlit("[IF]");
    reveal_strlit("[THEN]");
    reveal_strlit("[ELSE]");
    assert("[IF]"@[1] != "[THEN]"@[1]);
    assert("[IF]"@[1] != "[ELSE]"@[1]);
    assert("[THEN]"@[1] != "[ELSE]"@[1]);
}

proof fn lemma_false_block(s: Seq<CondCompileState>, d: nat, ws: Seq<Seq<char>>)
    requires
        nested(ws, d),
    ensures
        filter_all(s.push(CondCompileState::SkipUntilElse) + skipping_run(d), ws) == Some(
            (Seq::new(ws.len(), |i: int| true), s.push(CondCompileState::SkipUntilElse)),
        ),
    decreases ws.len(),
{
    lemma_literals_differ();
    let base = s.push(CondCompileState::SkipUntilElse);
    let stack = base + skipping_run(d);
    if ws.len() == 0 {
        assert(skipping_run(0) =~= Seq::<CondCompileState>::empty());
        assert(stack =~= base);
        assert(Seq::new(0, |i: int| true) =~= Seq::<bool>::empty());
    } else {
        let w = ws[0];
        let rest = ws.skip(1);
        assert(stack.len() > 0);
        assert(is_skipping(stack.last()));
        if w == "[IF]"@ {
            assert(stack.push(CondCompileState::Skipping) =~= base + skipping_run(d + 1));
            lemma_false_block(s, d + 1, rest);
        } else if w == "[THEN]"@ {
            assert(stack.drop_last() =~= base + skipping_run((d - 1) as nat));
            lemma_false_block(s, (d - 1) as nat, rest);
        } else if w == "[ELSE]"@ {
            assert(stack.last() == CondCompileState::Skipping);
            assert(stack.update(stack.len() - 1, flip(stack.last())) =~= stack);
            lemma_false_block(s, d, rest);
        } else {
            lemma_false_block(s, d, rest);
        }
        assert(seq![true] + Seq::new(rest.len(), |i: int| true) =~= Seq::new(
            ws.len(),
            |i: int| true,
        ));
    }
}

/// Under a false `[IF]`, a block whose conditional words nest properly is
/// skipped token by token, and its `[THEN]` brings the filter back to where
/// it was: `0 [IF] … [THEN]` compiles nothing of `…`.
pub proof fn lemma_false_if_skips(s: Seq<CondCompileState>, ws: Seq<Seq<char>>)
    requires
        nested(ws, 0),
    ensures
        filter_all(s.push(CondCompileState::SkipUntilElse), ws.push("[THEN]"@)) == Some(
            (Seq::new(ws.len() + 1, |i: int| true), s),
        ),
{
    lemma_false_block(s, 0, ws);
    assert(s.push(CondCompileState::SkipUntilElse) + skipping_run(0) =~= s.push(
        CondCompileState::SkipUntilElse,
    ));
    lemma_literals_differ();
    lemma_filter_append(s.push(CondCompileState::SkipUntilElse), ws, seq!["[THEN]"@]);
    assert(ws + seq!["[THEN]"@] =~= ws.push("[THEN]"@));
    let one = seq!["[THEN]"@];
    assert(one.skip(1) =~= Seq::<Seq<char>>::empty());
    assert(filter_all(s, Seq::<Seq<char>>::empty()) == Some((Seq::<bool>::empty(), s)));
    let x = s.push(CondCompileState::SkipUntilElse);
    assert(x.drop_last() =~= s);
    assert(skip_result(x, one[0]) == Some((true, s)));
    assert(filter_all(x, one) == Some((seq![true] + Seq::<bool>::empty(), s)));
    assert(seq![true] + Seq::<bool>::empty() =~= seq![true]);
    assert(Seq::new(ws.len(), |i: int| true) + seq![true] =~= Seq::new(ws.len() + 1, |i: int| true));
}

proof fn lemma_filter_append(stack: Seq<CondCompileState>, a: Seq<Seq<char>>, b: Seq<Seq<char>>)
    ensures
        filter_all(stack, a) matches Some((bs, s2)) ==> filter_all(stack, a + b) == match filter_all(s2, b) {
            None => None,
            Some((bs2, s3)) => Some((bs + bs2, s3)),
        },
    decreases a.len(),
{
    if a.len() == 0 {
        assert(a + b =~= b);
        if let Some((bs2, s3)) = filter_all(stack, b) {
            assert(Seq::<bool>::empty() + bs2 =~= bs2);
        }
    } else {
        assert((a + b)[0] == a[0]);
        assert((a + b).skip(1) =~= a.skip(1) + b);
        if let Some((b0, s1)) = skip_result(stack, a[0]) {
            lemma_filter_append(s1, a.skip(1), b);
            if let Some((bs, s2)) = filter_all(stack, a) {
                if let Some((bs2, s3)) = filter_all(s2, b) {
                    let rest = filter_all(s1, a.skip(1))->Some_0.0;
                    assert(seq![b0] + (rest + bs2) =~= (seq![b0] + rest) + bs2);
                }
            }
        }
    }
}

/// Under a true `[IF]`, tokens that are not conditional words all pass the
/// filter, as they would with no `[IF]` around them, and the `[THEN]` brings
/// the filter back to where it was: `1 [IF] … [THEN]` compiles `…` as is.
pub proof fn lemma_true_if_passes(s: Seq<CondCompileState>, ws: Seq<Seq<char>>)
    requires
        s.len() == 0 || !is_skipping(s.last()),
        forall|i: int| 0 <= i < ws.len() ==> !is_cond(#[trigger] ws[i]),
    ensures
        filter_all(s, ws) == Some((Seq::new(ws.len(), |i: int| false), s)),
        filter_all(s.push(CondCompileState::CompileUntilElse), ws.push("[THEN]"@)) == Some(
            (Seq::new(ws.len(), |i: int| false).push(true), s),
        ),
    decreases ws.len(),
{
    let t = s.push(CondCompileState::CompileUntilElse);
    lemma_no_cond_pass(s, ws);
    lemma_no_cond_pass(t, ws);
    lemma_filter_append(t, ws, seq!["[THEN]"@]);
    assert(ws + seq!["[THEN]"@] =~= ws.push("[THEN]"@));
    let one = seq!["[THEN]"@];
    assert(one.skip(1) =~= Seq::<Seq<char>>::empty());
    assert(t.drop_last() =~= s);
    lemma_literals_differ();
    assert(filter_all(s, Seq::<Seq<char>>::empty()) == Some((Seq::<bool>::empty(), s)));
    assert(skip_result(t, one[0]) == Some((true, s)));
    assert(filter_all(t, one) == Some((seq![true] + Seq::<bool>::empty(), s)));
    assert(seq![true] + Seq::<bool>::empty() =~= seq![true]);
    assert(Seq::new(ws.len(), |i: int| false) + seq![true] =~= Seq::new(ws.len(), |i: int| false).push(true));
}

proof fn lemma_no_cond_pass(s: Seq<CondCompileState>, ws: Seq<Seq<char>>)
    requires
        s.len() == 0 || !is_skipping(s.last()),
        forall|i: int| 0 <= i < ws.len() ==> !is_cond(#[trigger] ws[i]),
    ensures
        filter_all(s, ws) == Some((Seq::new(ws.len(), |i: int| false), s)),
    decreases ws.len(),
{
    if ws.len() == 0 {
        assert(Seq::new(0, |i: int| false) =~= Seq::<bool>::empty());
    } else {
        assert(!is_cond(ws[0]));
        assert forall|i: int| 0 <= i < ws.skip(1).len() implies !is_cond(#[trigger] ws.skip(1)[i]) by {
            assert(ws.skip(1)[i] == ws[i + 1]);
        }
        lemma_no_cond_pass(s, ws.skip(1));
        assert(seq![false] + Seq::new((ws.len() - 1) as nat, |i: int| false) =~= Seq::new(
            ws.len(),
            |i: int| false,
        ));
    }
}

pub open spec fn is_lower(c: char) -> bool {
    'a' <= c && c <= 'z'
}

/// A word without lowercase ASCII letters: the spelled-out tokens of its
/// symbol cannot be mistaken for its own characters.
pub open spec fn plain_word(w: Seq<char>) -> bool {
    forall|i: int| 0 <= i < w.len() ==> !is_lower(#[trigger] w[i])
}

/// The character a token spells out, if it is one.
pub open spec fn tok_char(t: Seq<char>) -> Option<char> {
    if t == seq!['c', 'o', 'l', 'o', 'n'] {
        Some(':')
    } else
    if t == seq!['s', 'e', 'm', 'i', 'c', 'o', 'l', 'o', 'n'] {
        Some(';')
    } else
    if t == seq!['s', 't', 'a', 'r'] {
        Some('*')
    } else
    if t == seq!['s', 'l', 'a', 's', 'h'] {
        Some('/')
    } else
    if t == seq!['b', 'a', 'c', 'k', 's', 'l', 'a', 's', 'h'] {
        Some('\\')
    } else
    if t == seq!['s', 't', 'o', 'r', 'e'] {
        Some('!')
    } else
    if t == seq!['f', 'e', 't', 'c', 'h'] {
        Some('@')
    } else
    if t == seq!['p', 'o', 'u', 'n', 'd'] {
        Some('#')
    } else
    if t == seq!['t', 'i', 'c', 'k'] {
        Some('\'')
    } else
    if t == seq!['b', 'a', 'c', 'k', 't', 'i', 'c', 'k'] {
        Some('`')
    } else
    if t == seq!['q', 'u', 'o', 't', 'e'] {
        Some('"')
    } else
    if t == seq!['p', 'l', 'u', 's'] {
        Some('+')
    } else
    if t == seq!['m', 'i', 'n', 'u', 's'] {
        Some('-')
    } else
    if t == seq!['c', 'o', 'm', 'm', 'a'] {
        Some(',')
    } else
    if t == seq!['d', 'o', 't'] {
        Some('.')
    } else
    if t == seq!['f', 'r', 'o', 'm'] {
        Some('<')
    } else
    if t == seq!['t', 'o'] {
        Some('>')
    } else
    if t == seq!['e', 'q', 'u', 'a', 'l', 's'] {
        Some('=')
    } else
    if t == seq!['o', 'p', 'e', 'n', '_', 'p', 'a', 'r', 'e', 'n'] {
        Some('(')
    } else
    if t == seq!['c', 'l', 'o', 's', 'e', '_', 'p', 'a', 'r', 'e', 'n'] {
        Some(')')
    } else
    if t == seq!['o', 'p', 'e', 'n', '_', 's', 'q', 'u', 'a', 'r', 'e'] {
        Some('[')
    } else
    if t == seq!['c', 'l', 'o', 's', 'e', '_', 's', 'q', 'u', 'a', 'r', 'e'] {
        Some(']')
    } else
    if t == seq!['o', 'p', 'e', 'n', '_', 'b', 'r', 'a', 'c', 'e'] {
        Some('{')
    } else
    if t == seq!['c', 'l', 'o', 's', 'e', '_', 'b', 'r', 'a', 'c', 'e'] {
        Some('}')
    } else
    if t == seq!['q', 'u', 'e', 's', 't', 'i', 'o', 'n'] {
        Some('?')
    } else
    if t == seq!['p', 'e', 'r', 'c', 'e', 'n', 't'] {
        Some('%')
    } else
    if t == seq!['c', 'a', 'r', 'e', 't'] {
        Some('^')
    } else
    if t == seq!['a', 'm', 'p', 'e', 'r', 's', 'a', 'n', 'd'] {
        Some('&')
    } else
    if t == seq!['t', 'i', 'l', 'd', 'e'] {
        Some('~')
    } else
    if t == seq!['p', 'i', 'p', 'e'] {
        Some('|')
    } else {
        None
    }
}

proof fn lemma_tok(c: char)
    requires
        link_of(c) is Some,
    ensures
        tok_char(link_of(c)->Some_0) == Some(c),
        link_of(c)->Some_0.len() >= 2,
        is_lower(link_of(c)->Some_0[0]),
        forall|k: int|
            0 <= k < link_of(c)->Some_0.len() && #[trigger] link_of(c)->Some_0[k] == '_'
                ==> tok_char(link_of(c)->Some_0.take(k)) is None,
{
    let t = link_of(c)->Some_0;
    assert forall|k: int| 0 <= k < t.len() && #[trigger] t[k] == '_' implies tok_char(t.take(k)) is None by {
        if c == '(' || c == '[' || c == '{' {
            assert(k == 4);
            assert(t.take(k) =~= seq!['o', 'p', 'e', 'n']);
        } else if c == ')' || c == ']' || c == '}' {
            assert(k == 5);
            assert(t.take(k) =~= seq!['c', 'l', 'o', 's', 'e']);
        }
    }
}

/// Two tokens, each followed by nothing or by `_`, that read the same are the same token.
proof fn lemma_tok_prefix(c1: char, c2: char, r1: Seq<char>, r2: Seq<char>)
    requires
        link_of(c1) is Some,
        link_of(c2) is Some,
        r1.len() == 0 || r1[0] == '_',
        r2.len() == 0 || r2[0] == '_',
        link_of(c1)->Some_0 + r1 == link_of(c2)->Some_0 + r2,
    ensures
        c1 == c2,
        r1 == r2,
{
    let t1 = link_of(c1)->Some_0;
    let t2 = link_of(c2)->Some_0;
    lemma_tok(c1);
    lemma_tok(c2);
    let x = t1 + r1;
    if t1.len() < t2.len() {
        assert(t2[t1.len() as int] == x[t1.len() as int]);
        assert forall|i: int| 0 <= i < t1.len() implies t2.take(t1.len() as int)[i] == t1[i] by {
            assert(x[i] == t1[i]);
            assert((t2 + r2)[i] == t2[i]);
        }
        assert(t2.take(t1.len() as int) =~= t1);
    } else if t2.len() < t1.len() {
        assert(t1[t2.len() as int] == x[t2.len() as int]);
        assert forall|i: int| 0 <= i < t2.len() implies t1.take(t2.len() as int)[i] == t2[i] by {
            assert(x[i] == t1[i]);
            assert((t2 + r2)[i] == t2[i]);
        }
        assert(t1.take(t2.len() as int) =~= t2);
    } else {
        assert(t1 =~= x.take(t1.len() as int));
        assert(t2 =~= x.take(t2.len() as int));
        assert(r1 =~= x.skip(t1.len() as int));
        assert(r2 =~= x.skip(t2.len() as int));
    }
}

/// The separator after the first character of `seq![c] + rest`.
pub open spec fn sep_front(c: char, rest: Seq<char>) -> Seq<char> {
    if link_of(c) is Some && rest.len() > 0 {
        seq!['_']
    } else {
        seq![]
    }
}

proof fn lemma_mangle_front(c: char, rest: Seq<char>)
    ensures
        mangle_body(seq![c] + rest) == piece(c) + sep_front(c, rest) + mangle_body(rest),
    decreases rest.len(),
{
    let w = seq![c] + rest;
    if rest.len() == 0 {
        assert(w =~= seq![c]);
        assert(w.drop_last() =~= Seq::<char>::empty());
        assert(mangle_body(w.drop_last()) == Seq::<char>::empty());
        assert(sep_after(w.drop_last()) == Seq::<char>::empty());
        assert(mangle_body(w) =~= piece(c));
        assert(mangle_body(rest) =~= Seq::<char>::empty());
    } else {
        let r2 = rest.drop_last();
        lemma_mangle_front(c, r2);
        assert(w.drop_last() =~= seq![c] + r2);
        assert(w.last() == rest.last());
        if r2.len() == 0 {
            assert(seq![c] + r2 =~= seq![c]);
            assert(r2 =~= Seq::<char>::empty());
            assert(mangle_body(rest.drop_last()) =~= Seq::<char>::empty());
            assert(sep_after(seq![c] + r2) == sep_front(c, rest));
            assert(mangle_body(rest) =~= piece(rest.last()));
            assert(mangle_body(w) =~= piece(c) + sep_front(c, rest) + mangle_body(rest));
        } else {
            assert((seq![c] + r2).last() == r2.last());
            assert(sep_after(seq![c] + r2) == sep_after(r2));
            assert(mangle_body(w) =~= piece(c) + sep_front(c, rest) + mangle_body(rest));
        }
    }
}

proof fn lemma_body_front(w: Seq<char>)
    requires
        w.len() > 0,
    ensures
        mangle_body(w).len() > 0,
        mangle_body(w) == piece(w[0]) + sep_front(w[0], w.skip(1)) + mangle_body(w.skip(1)),
        mangle_body(w)[0] == piece(w[0])[0],
        link_of(w[0]) is Some ==> is_lower(mangle_body(w)[0]),
        link_of(w[0]) is None ==> mangle_body(w)[0] == w[0],
{
    assert(w =~= seq![w[0]] + w.skip(1));
    lemma_mangle_front(w[0], w.skip(1));
    if link_of(w[0]) is Some {
        lemma_tok(w[0]);
    }
}

proof fn lemma_body_injective(a: Seq<char>, b: Seq<char>)
    requires
        plain_word(a),
        plain_word(b),
        mangle_body(a) == mangle_body(b),
    ensures
        a == b,
    decreases a.len() + b.len(),
{
    if a.len() == 0 || b.len() == 0 {
        if a.len() > 0 {
            lemma_body_front(a);
        }
        if b.len() > 0 {
            lemma_body_front(b);
        }
        assert(a =~= b);
    } else {
        lemma_body_front(a);
        lemma_body_front(b);
        let (c, d) = (a[0], b[0]);
        let (ra, rb) = (a.skip(1), b.skip(1));
        assert(plain_word(ra)) by {
            assert forall|i: int| 0 <= i < ra.len() implies !is_lower(#[trigger] ra[i]) by {
                assert(ra[i] == a[i + 1]);
            }
        }
        assert(plain_word(rb)) by {
            assert forall|i: int| 0 <= i < rb.len() implies !is_lower(#[trigger] rb[i]) by {
                assert(rb[i] == b[i + 1]);
            }
        }
        let x = mangle_body(a);
        if link_of(c) is None {
            assert(!is_lower(c));
            assert(link_of(d) is None);
            assert(c == d);
            assert(mangle_body(ra) =~= x.skip(1));
            assert(mangle_body(rb) =~= x.skip(1));
            lemma_body_injective(ra, rb);
            assert(a =~= seq![c] + ra);
            assert(b =~= seq![d] + rb);
        } else {
            assert(!is_lower(d) || link_of(d) is Some);
            assert(link_of(d) is Some);
            let r1 = sep_front(c, ra) + mangle_body(ra);
            let r2 = sep_front(d, rb) + mangle_body(rb);
            if ra.len() > 0 {
                assert(r1[0] == '_');
            } else {
                assert(mangle_body(ra) =~= Seq::<char>::empty());
                assert(r1 =~= Seq::<char>::empty());
            }
            if rb.len() > 0 {
                assert(r2[0] == '_');
            } else {
                assert(mangle_body(rb) =~= Seq::<char>::empty());
                assert(r2 =~= Seq::<char>::empty());
            }
            assert(link_of(c)->Some_0 + r1 =~= x);
            assert(link_of(d)->Some_0 + r2 =~= x);
            lemma_tok_prefix(c, d, r1, r2);
            if ra.len() > 0 && rb.len() > 0 {
                assert(mangle_body(ra) =~= r1.skip(1));
                assert(mangle_body(rb) =~= r2.skip(1));
                lemma_body_injective(ra, rb);
            } else if ra.len() > 0 {
                lemma_body_front(ra);
                assert(r1.len() > 0);
            } else if rb.len() > 0 {
                lemma_body_front(rb);
                assert(r2.len() > 0);
            } else {
                assert(ra =~= rb);
            }
            assert(a =~= seq![c] + ra);
            assert(b =~= seq![d] + rb);
        }
    }
}

/// Symbol mangling is injective on words without lowercase ASCII letters:
/// two such words with the same symbol are the same word. (It is
/// deterministic by construction: `word_to_symbol` returns `mangle`.)
pub proof fn lemma_mangle_injective(a: Seq<char>, b: Seq<char>)
    requires
        plain_word(a),
        plain_word(b),
        mangle(a) == mangle(b),
    ensures
        a == b,
{
    assert(mangle(a).skip(2) =~= mangle_body(a));
    assert(mangle(b).skip(2) =~= mangle_body(b));
    lemma_body_injective(a, b);
}

/// An outcome with the conditional-compilation stack of its state replaced.
pub open spec fn with_skip(o: Outcome, s: Seq<CondCompileState>) -> Outcome {
    match o {
        Outcome::Done(m, ops, inc) => Outcome::Done(Model { skip: s, ..m }, ops, inc),
        Outcome::Fatal(k, c) => Outcome::Fatal(k, c),
    }
}

/// A token that the filter skips writes nothing and changes nothing but the
/// filter's stack.
pub proof fn lemma_skipped_token(m: Model, w: Seq<char>, s2: Seq<CondCompileState>)
    requires
        skip_result(m.skip, upper_of(w)) == Some((true, s2)),
    ensures
        token_effect(m, w) == Outcome::Done(Model { skip: s2, ..m }, seq![], None),
{
    reveal(token_step);
}

/// A token that is not a conditional word, met where the filter lets tokens
/// through, is handled the same way whatever enclosing conditional blocks
/// are open: its outcome differs only in the filter's stack, which it leaves
/// as it was.
pub proof fn lemma_passing_token(m: Model, w: Seq<char>, s2: Seq<CondCompileState>)
    requires
        !is_cond(upper_of(w)),
        m.skip.len() == 0 || !is_skipping(m.skip.last()),
        s2.len() == 0 || !is_skipping(s2.last()),
    ensures
        token_effect(Model { skip: s2, ..m }, w) == with_skip(token_effect(m, w), s2),
        token_effect(m, w) matches Outcome::Done(m3, _, _) ==> m3.skip == m.skip,
{
    reveal(token_step);
    let uw = upper_of(w);
    let m2 = Model { skip: s2, ..m };
    assert(skip_result(m.skip, uw) == Some((false, m.skip)));
    assert(skip_result(s2, uw) == Some((false, s2)));
    if let Some(a) = active_of(uw) {
        assert(a != Active::CompIf);
        lemma_action_skip(m, a, s2);
    }
}

proof fn lemma_action_skip(m: Model, a: Active, s2: Seq<CondCompileState>)
    requires
        a != Active::CompIf,
    ensures
        action_effect(Model { skip: s2, ..m }, a) == with_skip(action_effect(m, a), s2),
        action_effect(m, a) matches Outcome::Done(m3, _, _) ==> m3.skip == m.skip,
{
    let m2 = Model { skip: s2, ..m };
    assert(read_name(m2.input) == read_name(m.input));
}

} // verus!
