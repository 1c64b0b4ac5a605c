//! Code generation: the directives a compiler run emits, the interface of a
//! backend, and the two assembler backends.
use vstd::prelude::*;
use crate::symbols::EscapeMethod;
use crate::symbols::ascii_upper;
use crate::symbols::escape_quotes;
use crate::symbols::escaped;
use crate::symbols::make_ascii_upper;
use crate::symbols::mangle;
use crate::symbols::name_len;
use crate::symbols::word_to_symbol;
use crate::text::dec_i64;
use crate::text::dec_int;
use crate::text::dec_nat;
use crate::text::dec_u64;
use crate::text::push_char;
use crate::text::push_text;

verus! {

/// One logical directive of the output, independent of the backend's syntax.
pub enum Op {
    /// `lit` followed by a cell holding the value.
    Literal(i64),
    /// Raw string bytes in the current word body.
    StringLit(Seq<char>),
    /// Dictionary header of a colon word; the flag marks it immediate.
    Header(Seq<char>, bool),
    /// Dictionary header of a code word.
    CodeHeader(Seq<char>, bool),
    /// End of a word body.
    Close,
    /// Reference to the execution token of a word.
    Word(Seq<char>),
    /// Lines of source written through unchanged.
    Lines(Seq<Seq<char>>),
    /// A cell holding the address of a label.
    LabelRef(Seq<char>),
    /// A label placed at the current position.
    Label(Seq<char>),
    /// A constant with its value.
    Constant(Seq<char>, i64),
    /// A variable with its number of zero cells.
    Variable(Seq<char>, u8),
    /// Uninitialised space of the given number of bytes.
    Allot(u64),
    /// The dictionary-head pointer.
    Epilog,
}

/// The most recent dictionary entry after `op`, given the one before.
pub open spec fn next_last(last: Seq<char>, op: Op) -> Seq<char> {
    match op {
        Op::Header(w, _) => mangle(w),
        Op::CodeHeader(w, _) => mangle(w),
        Op::Constant(w, _) => mangle(w),
        Op::Variable(w, _) => mangle(w),
        _ => last,
    }
}

/// The lines written one after the other.
pub open spec fn concat_lines(ls: Seq<Seq<char>>) -> Seq<char>
    decreases ls.len(),
{
    if ls.len() == 0 {
        seq![]
    } else {
        concat_lines(ls.drop_last()) + ls.last()
    }
}

/// `s` written `k` times.
pub open spec fn repeat(s: Seq<char>, k: nat) -> Seq<char>
    decreases k,
{
    if k == 0 {
        seq![]
    } else {
        repeat(s, (k - 1) as nat) + s
    }
}

pub open spec fn flag_char(b: bool) -> char {
    if b { '1' } else { '0' }
}

/// The interface every backend offers. `text` is what it has written so far,
/// `last` the symbol of the most recent dictionary entry, and `render_op` the
/// text that one directive adds.
pub trait FthGen: Sized {
    spec fn text(&self) -> Seq<char>;

    spec fn last(&self) -> Seq<char>;

    spec fn render_op(last: Seq<char>, op: Op) -> Seq<char>;

    /// The text written so far.
    fn output(&self) -> (r: &String)
        ensures
            r@ == self.text(),
    ;

    /// Writes the run-once header; both backends write nothing.
    fn prolog(&mut self)
        ensures
            final(self).text() == old(self).text(),
            final(self).last() == old(self).last(),
    ;

    /// A reference to `lit` and a cell holding `n`, truncated to the cell width.
    fn do_literal(&mut self, n: i64)
        ensures
            final(self).text() == old(self).text() + Self::render_op(old(self).last(), Op::Literal(n)),
            final(self).last() == next_last(old(self).last(), Op::Literal(n)),
    ;

    /// The bytes of `s` in the current word body.
    fn do_string_literal(&mut self, s: &str)
        ensures
            final(self).text() == old(self).text() + Self::render_op(old(self).last(), Op::StringLit(s@)),
            final(self).last() == next_last(old(self).last(), Op::StringLit(s@)),
    ;

    /// The dictionary header of a colon word.
    fn create_word(&mut self, w: &str, is_immediate: bool)
        ensures
            final(self).text() == old(self).text() + Self::render_op(old(self).last(), Op::Header(w@, is_immediate)),
            final(self).last() == next_last(old(self).last(), Op::Header(w@, is_immediate)),
    ;

    /// The dictionary header of a code word; its assembly follows.
    fn create_code(&mut self, w: &str, is_immediate: bool)
        ensures
            final(self).text() == old(self).text() + Self::render_op(old(self).last(), Op::CodeHeader(w@, is_immediate)),
            final(self).last() == next_last(old(self).last(), Op::CodeHeader(w@, is_immediate)),
    ;

    /// The end of a word body.
    fn close_definition(&mut self)
        ensures
            final(self).text() == old(self).text() + Self::render_op(old(self).last(), Op::Close),
            final(self).last() == next_last(old(self).last(), Op::Close),
    ;

    /// A reference to the execution token of `w`.
    fn emit_word(&mut self, w: &str)
        ensures
            final(self).text() == old(self).text() + Self::render_op(old(self).last(), Op::Word(w@)),
            final(self).last() == next_last(old(self).last(), Op::Word(w@)),
    ;

    /// Lines of source, written unchanged.
    fn emit_lines(&mut self, lines: Vec<String>)
        ensures
            final(self).text() == old(self).text() + Self::render_op(old(self).last(), Op::Lines(lines@.map_values(|l: String| l@))),
            final(self).last() == next_last(old(self).last(), Op::Lines(lines@.map_values(|l: String| l@))),
    ;

    /// A cell holding the address of label `w`.
    fn refer_to_label(&mut self, w: &str)
        ensures
            final(self).text() == old(self).text() + Self::render_op(old(self).last(), Op::LabelRef(w@)),
            final(self).last() == next_last(old(self).last(), Op::LabelRef(w@)),
    ;

    /// Label `l` at the current position.
    fn emit_label(&mut self, l: &str)
        ensures
            final(self).text() == old(self).text() + Self::render_op(old(self).last(), Op::Label(l@)),
            final(self).last() == next_last(old(self).last(), Op::Label(l@)),
    ;

    /// A constant: a header whose action is `do_const`, then its value.
    fn create_constant(&mut self, name: &str, val: i64)
        ensures
            final(self).text() == old(self).text() + Self::render_op(old(self).last(), Op::Constant(name@, val)),
            final(self).last() == next_last(old(self).last(), Op::Constant(name@, val)),
    ;

    /// A variable: a header whose action is `do_var`, then `size` zero cells.
    fn create_variable(&mut self, name: &str, size: u8)
        ensures
            final(self).text() == old(self).text() + Self::render_op(old(self).last(), Op::Variable(name@, size)),
            final(self).last() == next_last(old(self).last(), Op::Variable(name@, size)),
    ;

    /// `size` bytes of uninitialised space.
    fn allot_space(&mut self, size: u64)
        ensures
            final(self).text() == old(self).text() + Self::render_op(old(self).last(), Op::Allot(size)),
            final(self).last() == next_last(old(self).last(), Op::Allot(size)),
    ;

    /// The pointer to the most recent dictionary entry.
    fn epilog(&mut self)
        ensures
            final(self).text() == old(self).text() + Self::render_op(old(self).last(), Op::Epilog),
            final(self).last() == next_last(old(self).last(), Op::Epilog),
    ;
}

/// `g1` is `g0` after writing one directive.
pub open spec fn stepped<G: FthGen>(g0: G, g1: G, op: Op) -> bool {
    &&& g1.text() == g0.text() + G::render_op(g0.last(), op)
    &&& g1.last() == next_last(g0.last(), op)
}

/// The text a sequence of directives adds, starting from dictionary entry `last`.
pub open spec fn render_ops<G: FthGen>(last: Seq<char>, ops: Seq<Op>) -> Seq<char>
    decreases ops.len(),
{
    if ops.len() == 0 {
        seq![]
    } else {
        G::render_op(last, ops[0]) + render_ops::<G>(
            next_last(last, ops[0]),
            ops.subrange(1, ops.len() as int),
        )
    }
}

/// The most recent dictionary entry after a sequence of directives.
pub open spec fn last_after(last: Seq<char>, ops: Seq<Op>) -> Seq<char>
    decreases ops.len(),
{
    if ops.len() == 0 {
        last
    } else {
        last_after(next_last(last, ops[0]), ops.subrange(1, ops.len() as int))
    }
}

/// `g1` is `g0` after writing the directives `ops`, in order.
pub open spec fn emits<G: FthGen>(g0: G, g1: G, ops: Seq<Op>) -> bool {
    &&& g1.text() == g0.text() + render_ops::<G>(g0.last(), ops)
    &&& g1.last() == last_after(g0.last(), ops)
}

pub proof fn lemma_emits_none<G: FthGen>(g: G)
    ensures
        emits(g, g, seq![]),
{
    assert(g.text() + render_ops::<G>(g.last(), seq![]) =~= g.text());
}

pub proof fn lemma_render_append<G: FthGen>(last: Seq<char>, a: Seq<Op>, b: Seq<Op>)
    ensures
        render_ops::<G>(last, a + b) == render_ops::<G>(last, a) + render_ops::<G>(
            last_after(last, a),
            b,
        ),
        last_after(last, a + b) == last_after(last_after(last, a), b),
    decreases a.len(),
{
    if a.len() == 0 {
        assert(a + b =~= b);
        assert(render_ops::<G>(last, a) =~= seq![]);
    } else {
        let rest = a.subrange(1, a.len() as int);
        assert((a + b).subrange(1, (a + b).len() as int) =~= rest + b);
        assert((a + b)[0] == a[0]);
        lemma_render_append::<G>(next_last(last, a[0]), rest, b);
    }
}

/// Writing `ops1` and then `op` writes `ops1` followed by `op`.
pub proof fn lemma_emits_step<G: FthGen>(g0: G, g1: G, g2: G, ops: Seq<Op>, op: Op)
    requires
        emits(g0, g1, ops),
        stepped(g1, g2, op),
    ensures
        emits(g0, g2, ops.push(op)),
{
    let one = seq![op];
    assert(one.subrange(1, 1) =~= Seq::<Op>::empty());
    assert(render_ops::<G>(next_last(g1.last(), op), Seq::<Op>::empty()) == Seq::<char>::empty());
    assert(render_ops::<G>(g1.last(), one) =~= G::render_op(g1.last(), op));
    assert(last_after(next_last(g1.last(), op), Seq::<Op>::empty()) == next_last(g1.last(), op));
    assert(last_after(g1.last(), one) == next_last(g1.last(), op));
    assert(ops.push(op) =~= ops + one);
    lemma_render_append::<G>(g0.last(), ops, one);
    assert(g2.text() =~= g0.text() + render_ops::<G>(g0.last(), ops.push(op)));
}

pub open spec fn nl() -> Seq<char> {
    seq!['\n']
}

/// Appends each line of `lines` to `out`.
fn push_lines(out: &mut String, lines: &Vec<String>)
    ensures
        final(out)@ == old(out)@ + concat_lines(lines@.map_values(|l: String| l@)),
{
    let ghost start = out@;
    let mut i: usize = 0;
    while i < lines.len()
        invariant
            i <= lines.len(),
            out@ == start + concat_lines(lines@.take(i as int).map_values(|l: String| l@)),
        decreases lines.len() - i,
    {
        let ghost pre = lines@.take(i as int).map_values(|l: String| l@);
        push_text(out, lines[i].as_str());
        i = i + 1;
        proof {
            let cur = lines@.take(i as int).map_values(|l: String| l@);
            assert(cur.drop_last() =~= pre);
            assert(out@ =~= start + concat_lines(cur));
        }
    }
    assert(lines@.take(lines.len() as int) =~= lines@);
}

/// Appends `s` to `out`, `k` times.
fn push_repeat(out: &mut String, s: &str, k: u8)
    ensures
        final(out)@ == old(out)@ + repeat(s@, k as nat),
{
    let ghost start = out@;
    let mut i: u8 = 0;
    while i < k
        invariant
            i <= k,
            out@ == start + repeat(s@, i as nat),
        decreases k - i,
    {
        push_text(out, s);
        i = i + 1;
        assert(out@ =~= start + repeat(s@, i as nat));
    }
}

// ---------------------------------------------------------------- AT&T

/// `    <kw> <symbol> <length> "<escaped name>"`, the start of an AT&T header.
pub open spec fn att_head(kw: Seq<char>, w: Seq<char>) -> Seq<char> {
    "    "@ + kw + " "@ + mangle(w) + " "@ + dec_nat(name_len(w)) + " \""@ + escaped(
        EscapeMethod::Backslash,
        w,
    ) + "\""@
}

/// The text that the AT&T backend writes for one directive.
pub open spec fn att_render(last: Seq<char>, op: Op) -> Seq<char> {
    match op {
        Op::Literal(n) => "    .int w_lit\n"@ + "    .int "@ + dec_int((n as i32) as int) + nl(),
        Op::StringLit(s) => "    .ascii \""@ + s + "\"\n"@,
        Op::Header(w, imm) => att_head("HIGH_W"@, w) + " flgs="@ + seq![flag_char(imm)] + nl(),
        Op::CodeHeader(w, imm) => att_head("CODE_W"@, w) + " flgs="@ + seq![flag_char(imm)] + nl(),
        Op::Close => seq![],
        Op::Word(w) => "    .int "@ + mangle(w) + nl(),
        Op::Lines(ls) => concat_lines(ls),
        Op::LabelRef(l) => "    .int "@ + l + nl(),
        Op::Label(l) => l + ":\n"@,
        Op::Constant(w, v) => att_head("HIGH_W"@, w) + " act=w_do_const\n"@ + "    .int "@
            + dec_int((v as i32) as int) + nl(),
        Op::Variable(w, k) => att_head("HIGH_W"@, w) + " act=w_do_var\n"@ + repeat(
            "    .int 0\n"@,
            k as nat,
        ),
        Op::Allot(n) => "    .space "@ + dec_nat(n as nat) + nl(),
        Op::Epilog => "dict_head: .int dict_"@ + last + nl(),
    }
}

fn push_att_head(out: &mut String, kw: &str, w: &str)
    ensures
        final(out)@ == old(out)@ + att_head(kw@, w@),
{
    let ghost start = out@;
    let sym = word_to_symbol(w);
    let len = dec_u64(w.len() as u64);
    let esc = escape_quotes(EscapeMethod::Backslash, w);
    push_text(out, "    ");
    push_text(out, kw);
    push_text(out, " ");
    push_text(out, sym.as_str());
    push_text(out, " ");
    push_text(out, len.as_str());
    push_text(out, " \"");
    push_text(out, esc.as_str());
    push_text(out, "\"");
    assert(out@ =~= start + att_head(kw@, w@));
}

fn push_flag(out: &mut String, b: bool)
    ensures
        final(out)@ == old(out)@ + seq![flag_char(b)],
{
    if b {
        push_char(out, '1');
    } else {
        push_char(out, '0');
    }
}

/// Backend for a 32-bit AT&T-syntax assembler.
pub struct AttGen {
    last_dict_entry: String,
    out: String,
}

impl AttGen {
    pub fn new() -> (r: Self)
        ensures
            r.text() == Seq::<char>::empty(),
            r.last() == seq!['0'],
    {
        let mut last_dict_entry = String::new();
        push_char(&mut last_dict_entry, '0');
        AttGen { last_dict_entry, out: String::new() }
    }
}

impl FthGen for AttGen {
    closed spec fn text(&self) -> Seq<char> {
        self.out@
    }

    closed spec fn last(&self) -> Seq<char> {
        self.last_dict_entry@
    }

    open spec fn render_op(last: Seq<char>, op: Op) -> Seq<char> {
        att_render(last, op)
    }

    fn output(&self) -> (r: &String) {
        &self.out
    }

    fn prolog(&mut self) {
    }

    fn do_literal(&mut self, n: i64) {
        let ghost start = self.out@;
        push_text(&mut self.out, "    .int w_lit\n");
        push_text(&mut self.out, "    .int ");
        let l = n as i32;
        let d = dec_i64(l as i64);
        push_text(&mut self.out, d.as_str());
        push_char(&mut self.out, '\n');
        assert(self.out@ =~= start + att_render(self.last_dict_entry@, Op::Literal(n)));
    }

    fn do_string_literal(&mut self, s: &str) {
        let ghost start = self.out@;
        push_text(&mut self.out, "    .ascii \"");
        push_text(&mut self.out, s);
        push_text(&mut self.out, "\"\n");
        assert(self.out@ =~= start + att_render(self.last_dict_entry@, Op::StringLit(s@)));
    }

    fn create_word(&mut self, w: &str, is_immediate: bool) {
        let ghost start = self.out@;
        push_att_head(&mut self.out, "HIGH_W", w);
        push_text(&mut self.out, " flgs=");
        push_flag(&mut self.out, is_immediate);
        push_char(&mut self.out, '\n');
        self.last_dict_entry = word_to_symbol(w);
        assert(self.out@ =~= start + att_render(seq![], Op::Header(w@, is_immediate)));
    }

    fn create_code(&mut self, w: &str, is_immediate: bool) {
        let ghost start = self.out@;
        push_att_head(&mut self.out, "CODE_W", w);
        push_text(&mut self.out, " flgs=");
        push_flag(&mut self.out, is_immediate);
        push_char(&mut self.out, '\n');
        self.last_dict_entry = word_to_symbol(w);
        assert(self.out@ =~= start + att_render(seq![], Op::CodeHeader(w@, is_immediate)));
    }

    fn close_definition(&mut self) {
        assert(self.out@ =~= self.out@ + att_render(self.last_dict_entry@, Op::Close));
    }

    fn emit_word(&mut self, w: &str) {
        let ghost start = self.out@;
        let sym = word_to_symbol(w);
        push_text(&mut self.out, "    .int ");
        push_text(&mut self.out, sym.as_str());
        push_char(&mut self.out, '\n');
        assert(self.out@ =~= start + att_render(self.last_dict_entry@, Op::Word(w@)));
    }

    fn emit_lines(&mut self, lines: Vec<String>) {
        push_lines(&mut self.out, &lines);
    }

    fn refer_to_label(&mut self, w: &str) {
        let ghost start = self.out@;
        push_text(&mut self.out, "    .int ");
        push_text(&mut self.out, w);
        push_char(&mut self.out, '\n');
        assert(self.out@ =~= start + att_render(self.last_dict_entry@, Op::LabelRef(w@)));
    }

    fn emit_label(&mut self, l: &str) {
        let ghost start = self.out@;
        push_text(&mut self.out, l);
        push_text(&mut self.out, ":\n");
        assert(self.out@ =~= start + att_render(self.last_dict_entry@, Op::Label(l@)));
    }

    fn create_constant(&mut self, name: &str, val: i64) {
        let ghost start = self.out@;
        push_att_head(&mut self.out, "HIGH_W", name);
        push_text(&mut self.out, " act=w_do_const\n");
        push_text(&mut self.out, "    .int ");
        let const_val = val as i32;
        let d = dec_i64(const_val as i64);
        push_text(&mut self.out, d.as_str());
        push_char(&mut self.out, '\n');
        self.last_dict_entry = word_to_symbol(name);
        assert(self.out@ =~= start + att_render(seq![], Op::Constant(name@, val)));
    }

    fn create_variable(&mut self, name: &str, size: u8) {
        let ghost start = self.out@;
        push_att_head(&mut self.out, "HIGH_W", name);
        push_text(&mut self.out, " act=w_do_var\n");
        push_repeat(&mut self.out, "    .int 0\n", size);
        self.last_dict_entry = word_to_symbol(name);
        assert(self.out@ =~= start + att_render(seq![], Op::Variable(name@, size)));
    }

    fn allot_space(&mut self, size: u64) {
        let ghost start = self.out@;
        push_text(&mut self.out, "    .space ");
        let d = dec_u64(size);
        push_text(&mut self.out, d.as_str());
        push_char(&mut self.out, '\n');
        assert(self.out@ =~= start + att_render(self.last_dict_entry@, Op::Allot(size)));
    }

    fn epilog(&mut self) {
        let ghost start = self.out@;
        push_text(&mut self.out, "dict_head: .int dict_");
        push_text(&mut self.out, self.last_dict_entry.as_str());
        push_char(&mut self.out, '\n');
        assert(self.out@ =~= start + att_render(self.last_dict_entry@, Op::Epilog));
    }
}

// ---------------------------------------------------------------- 6502

/// `<symbol>    .<kw> <length>, "<escaped, uppercased name>"`, the start of a 6502 header.
pub open spec fn ca_head(kw: Seq<char>, w: Seq<char>) -> Seq<char> {
    mangle(w) + "    ."@ + kw + " "@ + dec_nat(name_len(w)) + ", \""@ + ascii_upper(
        escaped(EscapeMethod::Double, w),
    ) + "\""@
}

/// A cell holding `v`: `.sint` for a negative value, `.word` otherwise.
pub open spec fn ca_cell(v: int) -> Seq<char> {
    (if v < 0 {
        "    .sint "@
    } else {
        "    .word "@
    }) + dec_int(v) + nl()
}

/// The text that the 6502 backend writes for one directive.
pub open spec fn ca_render(last: Seq<char>, op: Op) -> Seq<char> {
    match op {
        Op::Literal(n) => "    .word w_lit.cfa\n"@ + ca_cell((n as i16) as int),
        Op::StringLit(s) => "    .text \""@ + s + "\"\n"@,
        Op::Header(w, imm) => ca_head("HIGH_W"@, w) + ", , "@ + seq![flag_char(imm)] + ", "@
            + last + nl() + "  .block\n"@,
        Op::CodeHeader(w, imm) => ca_head("CODE_W"@, w) + ", "@ + seq![flag_char(imm)] + ", "@
            + last + nl() + "  .block\n"@,
        Op::Close => "  .endblock\n"@,
        Op::Word(w) => "    .addr "@ + mangle(w) + ".cfa\n"@,
        Op::Lines(ls) => concat_lines(ls),
        Op::LabelRef(l) => "    .addr "@ + l + nl(),
        Op::Label(l) => l + nl(),
        Op::Constant(w, v) => ca_head("HIGH_W"@, w) + ", w_const, , "@ + last + nl() + ca_cell(
            (v as i32) as int,
        ),
        Op::Variable(w, k) => ca_head("HIGH_W"@, w) + ", w_var, , "@ + last + nl() + repeat(
            "    .word 0\n"@,
            k as nat,
        ),
        Op::Allot(n) => "    .fill "@ + dec_nat(n as nat) + nl(),
        Op::Epilog => "dict_head .addr "@ + last + nl(),
    }
}

fn push_ca_head(out: &mut String, kw: &str, w: &str)
    ensures
        final(out)@ == old(out)@ + ca_head(kw@, w@),
{
    let ghost start = out@;
    let sym = word_to_symbol(w);
    let len = dec_u64(w.len() as u64);
    let esc = escape_quotes(EscapeMethod::Double, w);
    let name = make_ascii_upper(esc.as_str());
    push_text(out, sym.as_str());
    push_text(out, "    .");
    push_text(out, kw);
    push_text(out, " ");
    push_text(out, len.as_str());
    push_text(out, ", \"");
    push_text(out, name.as_str());
    push_text(out, "\"");
    assert(out@ =~= start + ca_head(kw@, w@));
}

fn push_ca_cell(out: &mut String, v: i64)
    ensures
        final(out)@ == old(out)@ + ca_cell(v as int),
{
    let ghost start = out@;
    if v < 0 {
        push_text(out, "    .sint ");
    } else {
        push_text(out, "    .word ");
    }
    let d = dec_i64(v);
    push_text(out, d.as_str());
    push_char(out, '\n');
    assert(out@ =~= start + ca_cell(v as int));
}

/// Backend for a 6502 cross-assembler with its own header macros.
pub struct Ca6502 {
    last_dict_entry: String,
    out: String,
}

impl Ca6502 {
    pub fn new() -> (r: Self)
        ensures
            r.text() == Seq::<char>::empty(),
            r.last() == seq!['0'],
    {
        let mut last_dict_entry = String::new();
        push_char(&mut last_dict_entry, '0');
        Ca6502 { last_dict_entry, out: String::new() }
    }
}

impl FthGen for Ca6502 {
    closed spec fn text(&self) -> Seq<char> {
        self.out@
    }

    closed spec fn last(&self) -> Seq<char> {
        self.last_dict_entry@
    }

    open spec fn render_op(last: Seq<char>, op: Op) -> Seq<char> {
        ca_render(last, op)
    }

    fn output(&self) -> (r: &String) {
        &self.out
    }

    fn prolog(&mut self) {
    }

    fn do_literal(&mut self, n: i64) {
        let ghost start = self.out@;
        push_text(&mut self.out, "    .word w_lit.cfa\n");
        let l = n as i16;
        push_ca_cell(&mut self.out, l as i64);
        assert(self.out@ =~= start + ca_render(self.last_dict_entry@, Op::Literal(n)));
    }

    fn do_string_literal(&mut self, s: &str) {
        let ghost start = self.out@;
        push_text(&mut self.out, "    .text \"");
        push_text(&mut self.out, s);
        push_text(&mut self.out, "\"\n");
        assert(self.out@ =~= start + ca_render(self.last_dict_entry@, Op::StringLit(s@)));
    }

    fn create_word(&mut self, w: &str, is_immediate: bool) {
        let ghost start = self.out@;
        let ghost last = self.last_dict_entry@;
        push_ca_head(&mut self.out, "HIGH_W", w);
        push_text(&mut self.out, ", , ");
        push_flag(&mut self.out, is_immediate);
        push_text(&mut self.out, ", ");
        push_text(&mut self.out, self.last_dict_entry.as_str());
        push_char(&mut self.out, '\n');
        push_text(&mut self.out, "  .block\n");
        self.last_dict_entry = word_to_symbol(w);
        assert(self.out@ =~= start + ca_render(last, Op::Header(w@, is_immediate)));
    }

    fn create_code(&mut self, w: &str, is_immediate: bool) {
        let ghost start = self.out@;
        let ghost last = self.last_dict_entry@;
        push_ca_head(&mut self.out, "CODE_W", w);
        push_text(&mut self.out, ", ");
        push_flag(&mut self.out, is_immediate);
        push_text(&mut self.out, ", ");
        push_text(&mut self.out, self.last_dict_entry.as_str());
        push_char(&mut self.out, '\n');
        push_text(&mut self.out, "  .block\n");
        self.last_dict_entry = word_to_symbol(w);
        assert(self.out@ =~= start + ca_render(last, Op::CodeHeader(w@, is_immediate)));
    }

    fn close_definition(&mut self) {
        let ghost start = self.out@;
        push_text(&mut self.out, "  .endblock\n");
        assert(self.out@ =~= start + ca_render(self.last_dict_entry@, Op::Close));
    }

    fn emit_word(&mut self, w: &str) {
        let ghost start = self.out@;
        let sym = word_to_symbol(w);
        push_text(&mut self.out, "    .addr ");
        push_text(&mut self.out, sym.as_str());
        push_text(&mut self.out, ".cfa\n");
        assert(self.out@ =~= start + ca_render(self.last_dict_entry@, Op::Word(w@)));
    }

    fn emit_lines(&mut self, lines: Vec<String>) {
        push_lines(&mut self.out, &lines);
    }

    fn refer_to_label(&mut self, w: &str) {
        let ghost start = self.out@;
        push_text(&mut self.out, "    .addr ");
        push_text(&mut self.out, w);
        push_char(&mut self.out, '\n');
        assert(self.out@ =~= start + ca_render(self.last_dict_entry@, Op::LabelRef(w@)));
    }

    fn emit_label(&mut self, l: &str) {
        let ghost start = self.out@;
        push_text(&mut self.out, l);
        push_char(&mut self.out, '\n');
        assert(self.out@ =~= start + ca_render(self.last_dict_entry@, Op::Label(l@)));
    }

    fn create_constant(&mut self, name: &str, val: i64) {
        let ghost start = self.out@;
        let ghost last = self.last_dict_entry@;
        push_ca_head(&mut self.out, "HIGH_W", name);
        push_text(&mut self.out, ", w_const, , ");
        push_text(&mut self.out, self.last_dict_entry.as_str());
        push_char(&mut self.out, '\n');
        let const_val = val as i32;
        push_ca_cell(&mut self.out, const_val as i64);
        self.last_dict_entry = word_to_symbol(name);
        assert(self.out@ =~= start + ca_render(last, Op::Constant(name@, val)));
    }

    fn create_variable(&mut self, name: &str, size: u8) {
        let ghost start = self.out@;
        let ghost last = self.last_dict_entry@;
        push_ca_head(&mut self.out, "HIGH_W", name);
        push_text(&mut self.out, ", w_var, , ");
        push_text(&mut self.out, self.last_dict_entry.as_str());
        push_char(&mut self.out, '\n');
        push_repeat(&mut self.out, "    .word 0\n", size);
        self.last_dict_entry = word_to_symbol(name);
        assert(self.out@ =~= start + ca_render(last, Op::Variable(name@, size)));
    }

    fn allot_space(&mut self, size: u64) {
        let ghost start = self.out@;
        push_text(&mut self.out, "    .fill ");
        let d = dec_u64(size);
        push_text(&mut self.out, d.as_str());
        push_char(&mut self.out, '\n');
        assert(self.out@ =~= start + ca_render(self.last_dict_entry@, Op::Allot(size)));
    }

    fn epilog(&mut self) {
        let ghost start = self.out@;
        push_text(&mut self.out, "dict_head .addr ");
        push_text(&mut self.out, self.last_dict_entry.as_str());
        push_char(&mut self.out, '\n');
        assert(self.out@ =~= start + ca_render(self.last_dict_entry@, Op::Epilog));
    }
}

} // verus!
