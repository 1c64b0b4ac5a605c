//! The input source multiplexer: a stack of open sources with a pending
//! character that was handed back.
use vstd::prelude::*;
use crate::text::is_whitespace;
use crate::text::is_ws;
use crate::text::push_char;
use vstd::string::*;

verus! {

/// The state of the input as a value: the pending characters, then the
/// remaining characters of each open source, the top source last.
pub struct InState {
    pub pending: Seq<char>,
    pub srcs: Seq<Seq<char>>,
}

/// Bytes read as Latin-1 characters.
pub open spec fn latin1(b: Seq<u8>) -> Seq<char> {
    b.map_values(|x: u8| x as char)
}

/// The sources' remaining characters in reading order: top source first.
pub open spec fn flat(srcs: Seq<Seq<char>>) -> Seq<char>
    decreases srcs.len(),
{
    if srcs.len() == 0 {
        seq![]
    } else {
        srcs.last() + flat(srcs.drop_last())
    }
}

/// Every character still to be read, in order.
pub open spec fn stream(st: InState) -> Seq<char> {
    st.pending + flat(st.srcs)
}

/// The sources with the exhausted ones on top removed.
pub open spec fn trim(srcs: Seq<Seq<char>>) -> Seq<Seq<char>>
    decreases srcs.len(),
{
    if srcs.len() > 0 && srcs.last().len() == 0 {
        trim(srcs.drop_last())
    } else {
        srcs
    }
}

/// Reading one character: the pending one if there is one, else the first of
/// the topmost source that is not exhausted; exhausted sources are closed.
pub open spec fn next_of(st: InState) -> (Option<char>, InState) {
    if st.pending.len() > 0 {
        (Some(st.pending[0]), InState { pending: st.pending.drop_first(), srcs: st.srcs })
    } else {
        let t = trim(st.srcs);
        if t.len() == 0 {
            (None, InState { pending: seq![], srcs: t })
        } else {
            (
                Some(t.last()[0]),
                InState { pending: seq![], srcs: t.update(t.len() - 1, t.last().drop_first()) },
            )
        }
    }
}

/// The state after `n` reads.
pub open spec fn nexts(st: InState, n: nat) -> InState
    decreases n,
{
    if n == 0 {
        st
    } else {
        nexts(next_of(st).1, (n - 1) as nat)
    }
}

/// Where a scan for a token stops.
#[derive(Clone, Copy, Debug, PartialEq, Eq, Structural)]
pub enum Stop {
    /// At any whitespace character.
    Whitespace,
    /// At the given character.
    Char(char),
}

pub open spec fn stops(stop: Stop, c: char) -> bool {
    match stop {
        Stop::Whitespace => is_ws(c),
        Stop::Char(d) => c == d,
    }
}

/// The number of whitespace characters at the start of `s`.
pub open spec fn ws_prefix_len(s: Seq<char>) -> nat
    decreases s.len(),
{
    if s.len() == 0 {
        0
    } else if is_ws(s[0]) {
        1 + ws_prefix_len(s.drop_first())
    } else {
        0
    }
}

/// The state after skipping whitespace: the first other character is handed back.
pub open spec fn skip_ws_state(st: InState) -> InState {
    let s = stream(st);
    let k = ws_prefix_len(s);
    let after = nexts(st, k + 1);
    if k < s.len() {
        InState { pending: seq![s[k as int]], srcs: after.srcs }
    } else {
        after
    }
}

/// Reading one character without leaving the current source: the pending
/// one, else the next of the top source; nothing once that is exhausted.
pub open spec fn next_local(st: InState) -> (Option<char>, InState) {
    if st.pending.len() > 0 {
        (Some(st.pending[0]), InState { pending: st.pending.drop_first(), srcs: st.srcs })
    } else if st.srcs.len() > 0 && st.srcs.last().len() > 0 {
        (
            Some(st.srcs.last()[0]),
            InState {
                pending: seq![],
                srcs: st.srcs.update(st.srcs.len() - 1, st.srcs.last().drop_first()),
            },
        )
    } else {
        (None, st)
    }
}

/// What can still be read without leaving the current source.
pub open spec fn local_len(st: InState) -> nat {
    st.pending.len() + top_len(st.srcs)
}

/// Scanning on within the current source: the characters before the stop,
/// whether the stop character was found (it is consumed), and the state after.
pub open spec fn scan_local(st: InState, stop: Stop) -> (Seq<char>, bool, InState)
    decreases local_len(st),
{
    let (c, st2) = next_local(st);
    match c {
        None => (seq![], false, st),
        Some(c) => if stops(stop, c) {
            (seq![], true, st2)
        } else {
            let (t, found, st3) = scan_local(st2, stop);
            (seq![c] + t, found, st3)
        },
    }
}

/// A scan for a token: its first character is read as `next_of` reads, the
/// rest only from the source that character came from, so a token ends at
/// the end of its source.
pub open spec fn scan_full(st: InState, stop: Stop) -> (Seq<char>, bool, InState) {
    let (c, st1) = next_of(st);
    match c {
        None => (seq![], false, st1),
        Some(c) => if stops(stop, c) {
            (seq![], true, st1)
        } else {
            let (t, found, st2) = scan_local(st1, stop);
            (seq![c] + t, found, st2)
        },
    }
}

/// The token a scan returns: the characters before the stop, or none when
/// nothing was read and no stop was found.
pub open spec fn scan_result(st: InState, stop: Stop) -> Option<Seq<char>> {
    let (t, found, _) = scan_full(st, stop);
    if found || t.len() > 0 {
        Some(t)
    } else {
        None
    }
}

/// The state after a scan.
pub open spec fn scan_state(st: InState, stop: Stop) -> InState {
    scan_full(st, stop).2
}

pub proof fn lemma_flat_trim(srcs: Seq<Seq<char>>)
    ensures
        flat(trim(srcs)) == flat(srcs),
        trim(srcs).len() > 0 ==> trim(srcs).last().len() > 0,
        trim(srcs).len() <= srcs.len(),
    decreases srcs.len(),
{
    if srcs.len() > 0 && srcs.last().len() == 0 {
        lemma_flat_trim(srcs.drop_last());
        assert(flat(srcs) =~= flat(srcs.drop_last()));
    }
}

pub proof fn lemma_next_of(st: InState)
    ensures
        stream(st).len() == 0 ==> next_of(st).0 is None && stream(next_of(st).1).len() == 0,
        stream(st).len() > 0 ==> next_of(st).0 == Some(stream(st)[0]) && stream(next_of(st).1)
            == stream(st).drop_first(),
        next_of(st).1.pending.len() <= st.pending.len(),
{
    lemma_flat_trim(st.srcs);
    if st.pending.len() > 0 {
        assert(stream(next_of(st).1) =~= stream(st).drop_first());
    } else {
        let t = trim(st.srcs);
        assert(stream(st) =~= flat(t));
        if t.len() > 0 {
            let t2 = t.update(t.len() - 1, t.last().drop_first());
            assert(t2.drop_last() =~= t.drop_last());
            assert(flat(t2) == t2.last() + flat(t2.drop_last()));
            assert(flat(t) == t.last() + flat(t.drop_last()));
            assert(stream(next_of(st).1) =~= flat(t2));
            assert(flat(t2) =~= flat(t).drop_first());
        } else {
            assert(stream(next_of(st).1) =~= flat(t));
        }
    }
}

pub proof fn lemma_nexts(st: InState, n: nat)
    requires
        n <= stream(st).len(),
    ensures
        stream(nexts(st, n)) == stream(st).skip(n as int),
    decreases n,
{
    if n == 0 {
        assert(stream(st).skip(0) =~= stream(st));
    } else {
        lemma_next_of(st);
        lemma_nexts(next_of(st).1, (n - 1) as nat);
        assert(stream(st).drop_first().skip(n - 1) =~= stream(st).skip(n as int));
    }
}

pub proof fn lemma_nexts_split(st: InState, a: nat, b: nat)
    ensures
        nexts(st, a + b) == nexts(nexts(st, a), b),
    decreases a,
{
    if a > 0 {
        lemma_nexts_split(next_of(st).1, (a - 1) as nat, b);
        assert((a + b - 1) as nat == (a - 1) as nat + b);
    }
}

/// A read past the end of the input leaves it empty.
pub proof fn lemma_nexts_past_end(st: InState, n: nat)
    requires
        n > stream(st).len(),
    ensures
        stream(nexts(st, n)).len() == 0,
        nexts(st, n).pending.len() == 0,
        nexts(st, n).srcs.len() == 0,
    decreases n,
{
    lemma_next_of(st);
    lemma_flat_trim(st.srcs);
    if stream(st).len() == 0 {
        let t = trim(st.srcs);
        if st.pending.len() == 0 {
            assert(flat(t).len() == 0);
            if t.len() > 0 {
                assert(flat(t) == t.last() + flat(t.drop_last()));
            }
        }
        lemma_nexts_rest_empty(next_of(st).1, (n - 1) as nat);
    } else {
        lemma_nexts_past_end(next_of(st).1, (n - 1) as nat);
    }
}

proof fn lemma_nexts_rest_empty(st: InState, n: nat)
    requires
        st.pending.len() == 0,
        st.srcs.len() == 0,
    ensures
        nexts(st, n) == st,
    decreases n,
{
    if n > 0 {
        assert(trim(st.srcs) == st.srcs);
        assert(next_of(st).1.pending =~= st.pending);
        assert(next_of(st).1.srcs =~= st.srcs);
        assert(next_of(st).1 == st);
        lemma_nexts_rest_empty(next_of(st).1, (n - 1) as nat);
    }
}

pub proof fn lemma_ws_prefix(s: Seq<char>)
    ensures
        ws_prefix_len(s) <= s.len(),
        forall|j: int| 0 <= j < ws_prefix_len(s) ==> is_ws(#[trigger] s[j]),
        ws_prefix_len(s) < s.len() ==> !is_ws(s[ws_prefix_len(s) as int]),
    decreases s.len(),
{
    if s.len() > 0 && is_ws(s[0]) {
        lemma_ws_prefix(s.drop_first());
        assert forall|j: int| 0 <= j < ws_prefix_len(s) implies is_ws(#[trigger] s[j]) by {
            if j > 0 {
                assert(s[j] == s.drop_first()[j - 1]);
            }
        }
    }
}

/// The length of the first line of `s`, its newline included; all of `s` when
/// it holds no newline.
pub open spec fn line_len(s: Seq<char>) -> nat
    decreases s.len(),
{
    if s.len() == 0 {
        0
    } else if s[0] == '\n' {
        1
    } else {
        1 + line_len(s.drop_first())
    }
}

pub open spec fn starts_with(s: Seq<char>, m: Seq<char>) -> bool {
    m.len() <= s.len() && s.take(m.len() as int) == m
}

pub open spec fn top_len(srcs: Seq<Seq<char>>) -> nat {
    if srcs.len() > 0 {
        srcs.last().len()
    } else {
        0
    }
}

/// Reading whole lines from the top source, closing exhausted sources, up to
/// and including the first line that starts with `m`: the lines before it, and
/// the sources after.
pub open spec fn lines_from(srcs: Seq<Seq<char>>, m: Seq<char>) -> (Seq<Seq<char>>, Seq<Seq<char>>)
    decreases srcs.len(), top_len(srcs),
    via lines_from_decreases
{
    if srcs.len() == 0 {
        (seq![], srcs)
    } else if srcs.last().len() == 0 {
        lines_from(srcs.drop_last(), m)
    } else {
        let top = srcs.last();
        let n = line_len(top);
        let line = top.take(n as int);
        let srcs2 = srcs.update(srcs.len() - 1, top.skip(n as int));
        if starts_with(line, m) {
            (seq![], srcs2)
        } else {
            let (ls, rest) = lines_from(srcs2, m);
            (seq![line] + ls, rest)
        }
    }
}

#[via_fn]
proof fn lines_from_decreases(srcs: Seq<Seq<char>>, m: Seq<char>) {
    if srcs.len() > 0 && srcs.last().len() > 0 {
        lemma_line_len(srcs.last());
        let top = srcs.last();
        let srcs2 = srcs.update(srcs.len() - 1, top.skip(line_len(top) as int));
        assert(top_len(srcs2) < top_len(srcs));
    }
}

/// What `lines_until` returns, and the input after it: pending characters
/// come first, as a line of their own.
pub open spec fn lines_until_result(st: InState, m: Seq<char>) -> (Seq<Seq<char>>, InState) {
    let (ls, rest) = lines_from(st.srcs, m);
    (
        if st.pending.len() > 0 {
            seq![st.pending] + ls
        } else {
            ls
        },
        InState { pending: seq![], srcs: rest },
    )
}

pub proof fn lemma_line_len(s: Seq<char>)
    ensures
        line_len(s) <= s.len(),
        s.len() > 0 ==> line_len(s) >= 1,
        forall|j: int| 0 <= j < line_len(s) - 1 ==> #[trigger] s[j] != '\n',
        0 < line_len(s) < s.len() ==> s[line_len(s) - 1] == '\n',
    decreases s.len(),
{
    if s.len() > 0 && s[0] != '\n' {
        lemma_line_len(s.drop_first());
        assert forall|j: int| 0 <= j < line_len(s) - 1 implies #[trigger] s[j] != '\n' by {
            if j > 0 {
                assert(s[j] == s.drop_first()[j - 1]);
            }
        }
    }
}

/// The first line of `s` ends at `i`: after the first newline, or at the end.
pub proof fn lemma_line_len_at(s: Seq<char>, i: nat)
    requires
        0 < i <= s.len(),
        forall|j: int| 0 <= j < i - 1 ==> #[trigger] s[j] != '\n',
        s[i - 1] == '\n' || i == s.len(),
    ensures
        line_len(s) == i,
    decreases i,
{
    if s[0] != '\n' {
        if i > 1 {
            assert forall|j: int| 0 <= j < i - 2 implies #[trigger] s.drop_first()[j] != '\n' by {
                assert(s.drop_first()[j] == s[j + 1]);
            }
            lemma_line_len_at(s.drop_first(), (i - 1) as nat);
        } else {
            assert(s.drop_first().len() == 0);
            assert(line_len(s.drop_first()) == 0);
        }
    }
}

/// The characters of an optional string.
pub open spec fn opt_view(r: Option<String>) -> Option<Seq<char>> {
    match r {
        Some(t) => Some(t@),
        None => None,
    }
}

/// Whether the scan stops at `c`.
pub fn stop_at(stop: Stop, c: char) -> (r: bool)
    ensures
        r == stops(stop, c),
{
    match stop {
        Stop::Whitespace => is_whitespace(c),
        Stop::Char(d) => c == d,
    }
}

/// Whether `s` starts with `m`.
pub fn starts_with_str(s: &str, m: &str) -> (r: bool)
    ensures
        r == starts_with(s@, m@),
{
    let n = m.unicode_len();
    let sn = s.unicode_len();
    if n > sn {
        return false;
    }
    let mut i: usize = 0;
    while i < n
        invariant
            n == m@.len(),
            sn == s@.len(),
            n <= sn,
            i <= n,
            forall|j: int| 0 <= j < i ==> s@[j] == m@[j],
        decreases n - i,
    {
        if s.get_char(i) != m.get_char(i) {
            assert(s@.take(n as int)[i as int] != m@[i as int]);
            return false;
        }
        i = i + 1;
    }
    assert(s@.take(n as int) =~= m@);
    true
}

/// After at least one read, nothing is pending any more.
pub proof fn lemma_nexts_pending(st: InState, n: nat)
    requires
        st.pending.len() <= 1,
    ensures
        nexts(st, n).pending.len() <= 1,
        n >= 1 ==> nexts(st, n).pending.len() == 0,
    decreases n,
{
    if n > 0 {
        assert(next_of(st).1.pending.len() == 0);
        lemma_nexts_pending(next_of(st).1, (n - 1) as nat);
    }
}

pub proof fn lemma_skip_ws_len(st: InState)
    ensures
        stream(skip_ws_state(st)).len() <= stream(st).len(),
{
    let s = stream(st);
    let k = ws_prefix_len(s);
    lemma_ws_prefix(s);
    if k < s.len() {
        lemma_nexts(st, k + 1);
        let after = nexts(st, k + 1);
        assert(stream(after).len() == s.len() - k - 1);
        assert(flat(after.srcs).len() <= stream(after).len());
    } else {
        lemma_nexts_past_end(st, k + 1);
    }
}

pub proof fn lemma_next_local(st: InState)
    ensures
        next_local(st).0 is None ==> next_local(st).1 == st,
        next_local(st).0 is Some ==> stream(st).len() > 0 && next_local(st).0 == Some(stream(st)[0])
            && stream(next_local(st).1) == stream(st).drop_first(),
        next_local(st).1.pending.len() <= st.pending.len(),
{
    if st.pending.len() > 0 {
        assert(stream(next_local(st).1) =~= stream(st).drop_first());
    } else if st.srcs.len() > 0 && st.srcs.last().len() > 0 {
        let t = st.srcs;
        let t2 = t.update(t.len() - 1, t.last().drop_first());
        assert(t2.drop_last() =~= t.drop_last());
        assert(flat(t2) == t2.last() + flat(t2.drop_last()));
        assert(flat(t) == t.last() + flat(t.drop_last()));
        assert(stream(st) =~= flat(t));
        assert(stream(next_local(st).1) =~= flat(t2));
        assert(flat(t2) =~= flat(t).drop_first());
    }
}

proof fn lemma_scan_local_len(st: InState, stop: Stop)
    ensures
        stream(scan_local(st, stop).2).len() <= stream(st).len(),
        scan_local(st, stop).2.pending.len() <= st.pending.len(),
    decreases local_len(st),
{
    lemma_next_local(st);
    let (c, st2) = next_local(st);
    if let Some(c) = c {
        if !stops(stop, c) {
            lemma_scan_local_len(st2, stop);
        }
    }
}

pub proof fn lemma_scan_len(st: InState, stop: Stop)
    ensures
        stream(scan_state(st, stop)).len() <= stream(st).len(),
        stream(st).len() > 0 ==> stream(scan_state(st, stop)).len() < stream(st).len(),
        scan_result(st, stop) is Some ==> stream(st).len() > 0,
        st.pending.len() <= 1 ==> scan_state(st, stop).pending.len() == 0,
{
    lemma_next_of(st);
    let (c, st1) = next_of(st);
    if c is Some {
        lemma_scan_local_len(st1, stop);
    }
}

pub proof fn lemma_lines_from_len(srcs: Seq<Seq<char>>, m: Seq<char>)
    ensures
        flat(lines_from(srcs, m).1).len() <= flat(srcs).len(),
    decreases srcs.len(), top_len(srcs),
{
    if srcs.len() == 0 {
    } else if srcs.last().len() == 0 {
        assert(flat(srcs) =~= flat(srcs.drop_last()));
        lemma_lines_from_len(srcs.drop_last(), m);
    } else {
        let top = srcs.last();
        let n = line_len(top);
        lemma_line_len(top);
        let srcs2 = srcs.update(srcs.len() - 1, top.skip(n as int));
        assert(srcs2.drop_last() =~= srcs.drop_last());
        assert(flat(srcs2) == srcs2.last() + flat(srcs2.drop_last()));
        assert(flat(srcs) == top + flat(srcs.drop_last()));
        assert(flat(srcs2).len() < flat(srcs).len());
        if !starts_with(top.take(n as int), m) {
            assert(top_len(srcs2) < top_len(srcs));
            lemma_lines_from_len(srcs2, m);
        }
    }
}

pub proof fn lemma_lines_len(st: InState, m: Seq<char>)
    ensures
        stream(lines_until_result(st, m).1).len() <= stream(st).len(),
{
    lemma_lines_from_len(st.srcs, m);
}

/// An open source: its bytes and how far it has been read.
pub struct Reader {
    text: Vec<u8>,
    pos: usize,
}

impl Reader {
    pub closed spec fn wf(&self) -> bool {
        self.pos <= self.text.len()
    }

    /// The characters not read yet.
    pub closed spec fn rest(&self) -> Seq<char> {
        latin1(self.text@.subrange(self.pos as int, self.text.len() as int))
    }

    /// Reads the rest of the current line, its newline included.
    fn read_line(&mut self) -> (line: String)
        requires
            old(self).wf(),
        ensures
            final(self).wf(),
            line@ == old(self).rest().take(line_len(old(self).rest()) as int),
            final(self).rest() == old(self).rest().skip(line_len(old(self).rest()) as int),
    {
        let ghost r0 = self.rest();
        proof {
            self.lemma_rest();
        }
        let mut line = String::new();
        let start = self.pos;
        let mut done = false;
        while self.pos < self.text.len() && !done
            invariant
                self.wf(),
                start <= self.pos,
                self.text@.len() - start == r0.len(),
                forall|j: int| 0 <= j < r0.len() ==> r0[j] == #[trigger] self.text@[start + j] as char,
                line@ == r0.take(self.pos - start),
                forall|j: int| 0 <= j < line@.len() - 1 ==> #[trigger] line@[j] != '\n',
                done ==> line@.len() > 0 && line@.last() == '\n',
                !done ==> forall|j: int| 0 <= j < line@.len() ==> #[trigger] line@[j] != '\n',
            decreases self.text.len() - self.pos,
        {
            let b = self.text[self.pos];
            let c = b as char;
            assert(r0[self.pos - start] == self.text@[start + (self.pos - start)] as char);
            push_char(&mut line, c);
            self.pos = self.pos + 1;
            assert(line@ =~= r0.take(self.pos - start));
            if c == '\n' {
                done = true;
            }
        }
        proof {
            let i = (self.pos - start) as nat;
            assert forall|j: int| 0 <= j < i implies #[trigger] r0[j] == line@[j] by {}
            if i > 0 {
                assert forall|j: int| 0 <= j < i - 1 implies #[trigger] r0[j] != '\n' by {
                    assert(r0[j] == line@[j]);
                }
                assert(r0[i - 1] == line@[i - 1]);
                lemma_line_len_at(r0, i);
            } else {
                assert(r0.len() == 0);
            }
            assert forall|j: int| 0 <= j < self.rest().len() implies #[trigger] self.rest()[j] == r0.skip(
                i as int,
            )[j] by {
                assert(r0[i + j] == self.text@[start + (i + j)] as char);
            }
            assert(self.rest() =~= r0.skip(i as int));
        }
        line
    }

    proof fn lemma_rest(&self)
        requires
            self.wf(),
        ensures
            self.rest().len() == self.text.len() - self.pos,
            self.pos < self.text.len() ==> self.rest()[0] == self.text@[self.pos as int] as char,
    {
    }
}

/// A stack of open sources with a pending character in front of them.
pub struct InputMgr {
    input_readers: Vec<Reader>,
    last_chars: Option<char>,
}

impl InputMgr {
    pub closed spec fn wf(&self) -> bool {
        forall|i: int| 0 <= i < self.input_readers@.len() ==> #[trigger] self.input_readers@[i].wf()
    }

    /// The input as a value.
    pub closed spec fn state(&self) -> InState {
        InState {
            pending: match self.last_chars {
                Some(c) => seq![c],
                None => seq![],
            },
            srcs: self.input_readers@.map_values(|r: Reader| r.rest()),
        }
    }

    pub fn new() -> (r: Self)
        ensures
            r.wf(),
            r.state() == (InState { pending: seq![], srcs: seq![] }),
    {
        let r = InputMgr { input_readers: Vec::new(), last_chars: None };
        assert(r.state().srcs =~= Seq::<Seq<char>>::empty());
        r
    }

    /// Opens a source holding `text` on top of the others; it is read first.
    pub fn push_source(&mut self, text: Vec<u8>)
        requires
            old(self).wf(),
        ensures
            final(self).wf(),
            final(self).state() == (InState {
                pending: old(self).state().pending,
                srcs: old(self).state().srcs.push(latin1(text@)),
            }),
    {
        let r = Reader { text, pos: 0 };
        assert(r.rest() =~= latin1(r.text@));
        self.input_readers.push(r);
        assert(self.state().srcs =~= old(self).state().srcs.push(latin1(r.text@)));
    }

    /// Reads one character: the pending one, else the next of the topmost
    /// source that is not exhausted. Exhausted sources are closed on the way.
    pub fn next_char(&mut self) -> (r: Option<char>)
        requires
            old(self).wf(),
        ensures
            final(self).wf(),
            (r, final(self).state()) == next_of(old(self).state()),
    {
        if let Some(c) = self.last_chars {
            self.last_chars = None;
            assert(self.state().pending =~= old(self).state().pending.drop_first());
            return Some(c);
        }
        assert(old(self).state().pending =~= Seq::<char>::empty());
        loop
            invariant
                self.wf(),
                self.last_chars is None,
                trim(self.state().srcs) == trim(old(self).state().srcs),
            ensures
                self.wf(),
                self.last_chars is None,
                trim(self.state().srcs) == trim(old(self).state().srcs),
                self.input_readers@.len() > 0 ==> self.input_readers@.last().pos
                    < self.input_readers@.last().text.len(),
            decreases self.input_readers.len(),
        {
            let n = self.input_readers.len();
            if n == 0 {
                break;
            }
            if self.input_readers[n - 1].pos < self.input_readers[n - 1].text.len() {
                break;
            }
            let ghost before = self.state().srcs;
            proof {
                assert(self.input_readers@[n - 1].wf());
                self.input_readers@[n - 1].lemma_rest();
                assert(before.last() == self.input_readers@[n - 1].rest());
            }
            self.input_readers.pop();
            assert(self.state().srcs =~= before.drop_last());
        }
        let ghost t = self.state().srcs;
        assert(trim(t) == t) by {
            if t.len() > 0 {
                let n = self.input_readers.len();
                assert(t.last() == self.input_readers@[n - 1].rest());
                assert(self.input_readers@[n - 1].wf());
                self.input_readers@[n - 1].lemma_rest();
            }
        }
        let ghost old_readers = self.input_readers@;
        match self.input_readers.pop() {
            None => {
                assert(self.state().srcs =~= t);
                None
            },
            Some(reader) => {
                assert(reader == old_readers.last());
                assert(old_readers[old_readers.len() - 1].wf());
                assert(t.last() == reader.rest());
                proof {
                    reader.lemma_rest();
                }
                let mut reader = reader;
                let b = reader.text[reader.pos];
                reader.pos = reader.pos + 1;
                assert(reader.rest() =~= t.last().drop_first());
                assert(t.last()[0] == b as char);
                self.input_readers.push(reader);
                assert(self.input_readers@ =~= old_readers.update(old_readers.len() - 1, reader));
                assert(self.state().srcs =~= t.update(t.len() - 1, t.last().drop_first()));
                Some(b as char)
            },
        }
    }

    /// Consumes whitespace; the first other character is handed back to be read next.
    pub fn skip_ws(&mut self)
        requires
            old(self).wf(),
        ensures
            final(self).wf(),
            final(self).state() == skip_ws_state(old(self).state()),
    {
        let ghost st0 = self.state();
        let ghost s0 = stream(st0);
        let ghost k = ws_prefix_len(s0);
        let ghost mut i: nat = 0;
        proof {
            lemma_ws_prefix(s0);
        }
        loop
            invariant
                self.wf(),
                i <= k,
                k <= s0.len(),
                st0 == old(self).state(),
                s0 == stream(st0),
                k == ws_prefix_len(s0),
                forall|j: int| 0 <= j < k ==> is_ws(#[trigger] s0[j]),
                k < s0.len() ==> !is_ws(s0[k as int]),
                self.state() == nexts(st0, i),
            decreases s0.len() - i,
        {
            let ghost cur = self.state();
            proof {
                lemma_nexts(st0, i);
                lemma_next_of(cur);
                lemma_nexts_split(st0, i, 1);
                assert(nexts(next_of(cur).1, 0) == next_of(cur).1);
                assert(nexts(cur, 1) == next_of(cur).1);
            }
            let r = self.next_char();
            proof {
                assert(self.state() == nexts(st0, i + 1));
            }
            match r {
                None => {
                    proof {
                        assert(i == s0.len());
                        assert(i == k);
                    }
                    return;
                },
                Some(c) => {
                    proof {
                        assert(c == s0[i as int]);
                        i = i + 1;
                    }
                    if is_whitespace(c) {
                        continue ;
                    }
                    proof {
                        assert(i - 1 == k);
                    }
                    self.last_chars = Some(c);
                    assert(self.state().pending =~= seq![c]);
                    return;
                },
            }
        }
    }

    /// Reads one character without leaving the current source: the pending
    /// one, else the next of the top source; `None` once that is exhausted.
    pub fn next_char_local(&mut self) -> (r: Option<char>)
        requires
            old(self).wf(),
        ensures
            final(self).wf(),
            (r, final(self).state()) == next_local(old(self).state()),
    {
        if let Some(c) = self.last_chars {
            self.last_chars = None;
            assert(self.state().pending =~= old(self).state().pending.drop_first());
            return Some(c);
        }
        let ghost t = self.state().srcs;
        assert(self.state().pending =~= Seq::<char>::empty());
        let n = self.input_readers.len();
        if n == 0 {
            return None;
        }
        proof {
            assert(self.input_readers@[n - 1].wf());
            self.input_readers@[n - 1].lemma_rest();
            assert(t.last() == self.input_readers@[n - 1].rest());
        }
        if self.input_readers[n - 1].pos >= self.input_readers[n - 1].text.len() {
            return None;
        }
        let ghost old_readers = self.input_readers@;
        match self.input_readers.pop() {
            None => None,
            Some(reader) => {
                assert(reader == old_readers.last());
                let mut reader = reader;
                proof {
                    reader.lemma_rest();
                }
                let b = reader.text[reader.pos];
                reader.pos = reader.pos + 1;
                assert(reader.rest() =~= t.last().drop_first());
                self.input_readers.push(reader);
                assert(self.input_readers@ =~= old_readers.update(old_readers.len() - 1, reader));
                assert(self.state().srcs =~= t.update(t.len() - 1, t.last().drop_first()));
                Some(b as char)
            },
        }
    }

    /// Reads characters up to the first one at which `stop` holds, which is
    /// consumed and dropped; also says whether such a character was found.
    /// The first character may come from any source; the scan then ends at
    /// the end of the source it came from.
    pub fn scan(&mut self, stop: Stop) -> (r: (String, bool))
        requires
            old(self).wf(),
        ensures
            final(self).wf(),
            r.0@ == scan_full(old(self).state(), stop).0,
            r.1 == scan_full(old(self).state(), stop).1,
            final(self).state() == scan_state(old(self).state(), stop),
    {
        let ghost st0 = self.state();
        let mut r_str = String::new();
        match self.next_char() {
            None => {
                assert(r_str@ =~= Seq::<char>::empty());
                return (r_str, false);
            },
            Some(c) => {
                if stop_at(stop, c) {
                    assert(r_str@ =~= Seq::<char>::empty());
                    return (r_str, true);
                }
                push_char(&mut r_str, c);
                assert(r_str@ =~= seq![c]);
            },
        }
        loop
            invariant
                self.wf(),
                st0 == old(self).state(),
                scan_full(st0, stop).0 == r_str@ + scan_local(self.state(), stop).0,
                scan_full(st0, stop).1 == scan_local(self.state(), stop).1,
                scan_full(st0, stop).2 == scan_local(self.state(), stop).2,
            decreases local_len(self.state()),
        {
            let ghost cur = self.state();
            let ghost prev = r_str@;
            match self.next_char_local() {
                None => {
                    assert(r_str@ + Seq::<char>::empty() =~= r_str@);
                    return (r_str, false);
                },
                Some(c) => {
                    if stop_at(stop, c) {
                        assert(r_str@ + Seq::<char>::empty() =~= r_str@);
                        return (r_str, true);
                    }
                    push_char(&mut r_str, c);
                    assert(prev + (seq![c] + scan_local(self.state(), stop).0) =~= r_str@
                        + scan_local(self.state(), stop).0);
                },
            }
        }
    }

    /// Reads characters up to the first one at which `stop` holds; that one
    /// is consumed and dropped. At the end of the input with nothing read,
    /// returns `None`.
    pub fn str_by(&mut self, stop: Stop) -> (r: Option<String>)
        requires
            old(self).wf(),
        ensures
            final(self).wf(),
            opt_view(r) == scan_result(old(self).state(), stop),
            final(self).state() == scan_state(old(self).state(), stop),
    {
        let (r_str, found) = self.scan(stop);
        if found || !r_str.as_str().is_empty() {
            Some(r_str)
        } else {
            None
        }
    }

    /// The next whitespace-delimited token; the delimiter is consumed. A
    /// token ends at the end of the source it began in.
    pub fn word(&mut self) -> (r: Option<String>)
        requires
            old(self).wf(),
        ensures
            final(self).wf(),
            opt_view(r) == scan_result(old(self).state(), Stop::Whitespace),
            final(self).state() == scan_state(old(self).state(), Stop::Whitespace),
    {
        self.str_by(Stop::Whitespace)
    }

    /// Raw lines, newlines kept, from the top source down, up to the first line
    /// that starts with `end_marker`; that line is consumed and left out. A
    /// pending character comes first, as a line of its own.
    pub fn lines_until(&mut self, end_marker: &str) -> (r: Vec<String>)
        requires
            old(self).wf(),
        ensures
            final(self).wf(),
            r@.map_values(|l: String| l@) == lines_until_result(old(self).state(), end_marker@).0,
            final(self).state() == lines_until_result(old(self).state(), end_marker@).1,
    {
        let ghost st0 = self.state();
        let ghost m = end_marker@;
        let mut r_lines: Vec<String> = Vec::new();
        if let Some(c) = self.last_chars {
            let mut new_str = String::new();
            push_char(&mut new_str, c);
            r_lines.push(new_str);
            self.last_chars = None;
        }
        assert(r_lines@.map_values(|l: String| l@) =~= (if st0.pending.len() > 0 {
            seq![st0.pending]
        } else {
            seq![]
        }));
        loop
            invariant
                self.wf(),
                self.last_chars is None,
                st0 == old(self).state(),
                m == end_marker@,
                lines_until_result(st0, m).0 == r_lines@.map_values(|l: String| l@) + lines_from(
                    self.state().srcs,
                    m,
                ).0,
                lines_until_result(st0, m).1.srcs == lines_from(self.state().srcs, m).1,
            decreases self.input_readers.len(), top_len(self.state().srcs),
        {
            let ghost srcs = self.state().srcs;
            let ghost acc = r_lines@.map_values(|l: String| l@);
            let ghost old_readers = self.input_readers@;
            match self.input_readers.pop() {
                None => {
                    assert(srcs.len() == 0);
                    assert(self.state().srcs =~= srcs);
                    assert(acc + lines_from(srcs, m).0 =~= acc);
                    assert(self.state().pending =~= Seq::<char>::empty());
                    return r_lines;
                },
                Some(reader) => {
                    assert(old_readers[old_readers.len() - 1].wf());
                    assert(srcs.last() == reader.rest());
                    let mut reader = reader;
                    proof {
                        reader.lemma_rest();
                        lemma_line_len(srcs.last());
                    }
                    let read_buf = reader.read_line();
                    if read_buf.as_str().is_empty() {
                        proof {
                            assert(read_buf@.len() == 0);
                            assert(srcs.last().len() == 0);
                            assert(self.state().srcs =~= srcs.drop_last());
                        }
                        continue;
                    }
                    self.input_readers.push(reader);
                    proof {
                        assert(read_buf@.len() > 0);
                        assert(self.input_readers@ =~= old_readers.update(old_readers.len() - 1, reader));
                        let top = srcs.last();
                        assert(self.state().srcs =~= srcs.update(
                            srcs.len() - 1,
                            top.skip(line_len(top) as int),
                        ));
                    }
                    if starts_with_str(read_buf.as_str(), end_marker) {
                        assert(acc + seq![] =~= acc);
                        assert(self.state().pending =~= Seq::<char>::empty());
                        return r_lines;
                    }
                    r_lines.push(read_buf);
                    proof {
                        let ls = r_lines@.map_values(|l: String| l@);
                        assert(ls =~= acc.push(read_buf@));
                        let rest = lines_from(self.state().srcs, m).0;
                        assert(acc + (seq![read_buf@] + rest) =~= ls + rest);
                    }
                },
            }
        }
    }

    /// At most one character is ever pending.
    pub proof fn lemma_pending(&self)
        ensures
            self.state().pending.len() <= 1,
    {
    }

    /// The number of open sources.
    pub fn source_count(&self) -> (r: usize)
        ensures
            r == self.state().srcs.len(),
    {
        self.input_readers.len()
    }

    /// Closes the top source; returns whether there was one.
    pub fn close_current(&mut self) -> (r: bool)
        requires
            old(self).wf(),
        ensures
            final(self).wf(),
            r == (old(self).state().srcs.len() > 0),
            final(self).state() == (InState {
                pending: old(self).state().pending,
                srcs: if r {
                    old(self).state().srcs.drop_last()
                } else {
                    old(self).state().srcs
                },
            }),
    {
        match self.input_readers.pop() {
            None => false,
            Some(_) => {
                assert(self.state().srcs =~= old(self).state().srcs.drop_last());
                true
            },
        }
    }
}

} // verus!
