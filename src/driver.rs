//! The compiler driver: the compile-time state and the loop over the input,
//! verified against the effects in `effects`.
use vstd::prelude::*;
use vstd::string::*;
use crate::effects::LABEL_LIMIT;
use crate::effects::Model;
use crate::effects::Outcome;
use crate::effects::action_effect;
use crate::effects::finish_effect;
use crate::effects::lbl;
use crate::effects::lemma_run_step;
use crate::effects::number_effect;
use crate::effects::prepend;
use crate::effects::read_name;
use crate::effects::run;
use crate::effects::token_effect;
use crate::effects::token_step;
use crate::effects::wref;
use crate::gen::FthGen;
use crate::gen::Op;
use crate::gen::emits;
use crate::gen::lemma_emits_none;
use crate::gen::lemma_emits_step;
use crate::input::InState;
use crate::input::InputMgr;
use crate::input::Stop;
use crate::input::lines_until_result;
use crate::input::stream;
use crate::symbols::name_len;
use crate::text::push_char;
use crate::text::to_upper;
use crate::words::Active;
use crate::words::CondCompileState;
use crate::words::ErrKind;
use crate::words::FthError;
use crate::words::NumClass;
use crate::words::active_word;
use crate::words::classify_number;
use crate::words::label_of;
use crate::words::skip_filter;
use crate::words::str_eq;

verus! {

/// The characters of each string.
pub open spec fn strs(v: Seq<String>) -> Seq<Seq<char>> {
    v.map_values(|s: String| s@)
}

/// `s` cut at each comma, empty pieces kept.
pub open spec fn split_commas(s: Seq<char>) -> Seq<Seq<char>>
    decreases s.len(),
{
    if s.len() == 0 {
        seq![seq![]]
    } else {
        let p = split_commas(s.drop_last());
        if s.last() == ',' {
            p.push(seq![])
        } else {
            p.update(p.len() - 1, p.last().push(s.last()))
        }
    }
}

/// The pieces that are not empty.
pub open spec fn nonempty(ps: Seq<Seq<char>>) -> Seq<Seq<char>>
    decreases ps.len(),
{
    if ps.len() == 0 {
        seq![]
    } else if ps.last().len() > 0 {
        nonempty(ps.drop_last()).push(ps.last())
    } else {
        nonempty(ps.drop_last())
    }
}

/// The names of a comma-separated defines list, empty ones dropped.
pub open spec fn defines_of(s: Seq<char>) -> Seq<Seq<char>> {
    nonempty(split_commas(s))
}

proof fn lemma_split_commas_len(s: Seq<char>)
    ensures
        split_commas(s).len() >= 1,
    decreases s.len(),
{
    if s.len() > 0 {
        lemma_split_commas_len(s.drop_last());
    }
}

/// Splits a comma-separated list of names, dropping empty ones.
pub fn parse_defines(s: &str) -> (r: Vec<String>)
    ensures
        strs(r@) == defines_of(s@),
{
    let mut done: Vec<String> = Vec::new();
    let mut cur = String::new();
    let n = s.unicode_len();
    let mut i: usize = 0;
    proof {
        assert(s@.take(0) =~= Seq::<char>::empty());
    }
    while i < n
        invariant
            n == s@.len(),
            i <= n,
            split_commas(s@.take(i as int)).len() >= 1,
            strs(done@) == nonempty(split_commas(s@.take(i as int)).drop_last()),
            cur@ == split_commas(s@.take(i as int)).last(),
        decreases n - i,
    {
        let c = s.get_char(i);
        let ghost pre = s@.take(i as int);
        let ghost p = split_commas(pre);
        proof {
            assert(s@.take(i + 1).drop_last() =~= pre);
            assert(s@.take(i + 1).last() == c);
            lemma_split_commas_len(s@.take(i + 1));
        }
        if c == ',' {
            if !cur.as_str().is_empty() {
                done.push(cur);
                assert(strs(done@) =~= nonempty(p));
            } else {
                assert(nonempty(p) == nonempty(p.drop_last()));
            }
            cur = String::new();
            proof {
                let p2 = split_commas(s@.take(i + 1));
                assert(p2 == p.push(seq![]));
                assert(p2.drop_last() =~= p);
            }
        } else {
            push_char(&mut cur, c);
            proof {
                let p2 = split_commas(s@.take(i + 1));
                assert(p2.drop_last() =~= p.drop_last());
            }
        }
        i = i + 1;
    }
    proof {
        assert(s@.take(n as int) =~= s@);
    }
    if !cur.as_str().is_empty() {
        done.push(cur);
        assert(strs(done@) =~= defines_of(s@));
    }
    done
}

/// The compiler: the backend, the input, and the compile-time state. `log`
/// records every directive written since `gen_start`.
pub struct Fth<G: FthGen> {
    pub gen: G,
    pub defines: Vec<String>,
    pub input_mgr: InputMgr,
    pub is_compiling: bool,
    pub skip_stack: Vec<CondCompileState>,
    pub data_stack: Vec<i64>,
    pub ctrl_do_stack: Vec<String>,
    pub ctrl_other_stack: Vec<String>,
    pub next_label: u64,
    pub next_is_immediate: bool,
    pub gen_start: Ghost<G>,
    pub log: Ghost<Seq<Op>>,
}

/// `f1` is `f0` after an outcome: for an error, a result of that kind naming
/// that context; else the new state, the directives appended to the log, and
/// the source to include.
pub open spec fn holds<G: FthGen>(
    f0: Fth<G>,
    f1: Fth<G>,
    r: Result<Option<String>, FthError>,
    o: Outcome,
) -> bool {
    match o {
        Outcome::Fatal(k, c) => r is Err && r->Err_0.kind == k && r->Err_0.context@ == c,
        Outcome::Done(m, ops, inc) => {
            &&& r is Ok
            &&& crate::input::opt_view(r->Ok_0) == inc
            &&& f1.model() == m
            &&& f1.log@ == f0.log@ + ops
        },
    }
}

impl<G: FthGen> Fth<G> {
    /// The compile-time state.
    pub open spec fn model(&self) -> Model {
        Model {
            input: self.input_mgr.state(),
            compiling: self.is_compiling,
            next_imm: self.next_is_immediate,
            data: self.data_stack@,
            ctrl_other: strs(self.ctrl_other_stack@),
            ctrl_do: strs(self.ctrl_do_stack@),
            skip: self.skip_stack@,
            defines: strs(self.defines@),
            next_label: self.next_label as nat,
        }
    }

    /// The input is well formed and the backend has written exactly the log.
    pub open spec fn wf(&self) -> bool {
        &&& self.input_mgr.wf()
        &&& emits(self.gen_start@, self.gen, self.log@)
    }

    /// A compiler writing to `gen`, with the names of the comma-separated
    /// `defines` list, no input yet, and labels counted from 1.
    pub fn new(gen: G, defines: Option<String>) -> (r: Self)
        ensures
            r.wf(),
            r.gen_start@ == gen,
            r.log@ == Seq::<Op>::empty(),
            r.model() == (Model {
                input: InState { pending: seq![], srcs: seq![] },
                compiling: false,
                next_imm: false,
                data: seq![],
                ctrl_other: seq![],
                ctrl_do: seq![],
                skip: seq![],
                defines: match defines {
                    Some(d) => defines_of(d@),
                    None => seq![],
                },
                next_label: 1,
            }),
    {
        let defines_set = match defines {
            Some(d) => parse_defines(d.as_str()),
            None => Vec::new(),
        };
        proof {
            lemma_emits_none(gen);
        }
        let ghost g = gen;
        let ghost empty_log: Seq<Op> = seq![];
        let r = Fth {
            gen,
            defines: defines_set,
            input_mgr: InputMgr::new(),
            is_compiling: false,
            skip_stack: Vec::new(),
            data_stack: Vec::new(),
            ctrl_do_stack: Vec::new(),
            ctrl_other_stack: Vec::new(),
            next_label: 1,
            next_is_immediate: false,
            gen_start: Ghost(g),
            log: Ghost(empty_log),
        };
        assert(r.model().ctrl_other =~= Seq::<Seq<char>>::empty());
        assert(r.model().ctrl_do =~= Seq::<Seq<char>>::empty());
        assert(r.model().defines =~= (match defines {
            Some(d) => defines_of(d@),
            None => seq![],
        }));
        r
    }

    fn do_literal(&mut self, n: i64)
        requires
            old(self).wf(),
        ensures
            final(self).wf(),
            final(self).model() == old(self).model(),
            final(self).gen_start == old(self).gen_start,
            final(self).log@ == old(self).log@.push(Op::Literal(n)),
    {
        let ghost g1 = self.gen;
        self.gen.do_literal(n);
        proof {
            lemma_emits_step(self.gen_start@, g1, self.gen, self.log@, Op::Literal(n));
        }
        let ghost new_log = self.log@.push(Op::Literal(n));
        self.log = Ghost(new_log);
    }

    fn do_string_literal(&mut self, s: &str)
        requires
            old(self).wf(),
        ensures
            final(self).wf(),
            final(self).model() == old(self).model(),
            final(self).gen_start == old(self).gen_start,
            final(self).log@ == old(self).log@.push(Op::StringLit(s@)),
    {
        let ghost g1 = self.gen;
        self.gen.do_string_literal(s);
        proof {
            lemma_emits_step(self.gen_start@, g1, self.gen, self.log@, Op::StringLit(s@));
        }
        let ghost new_log = self.log@.push(Op::StringLit(s@));
        self.log = Ghost(new_log);
    }

    fn create_word(&mut self, w: &str, is_immediate: bool)
        requires
            old(self).wf(),
        ensures
            final(self).wf(),
            final(self).model() == old(self).model(),
            final(self).gen_start == old(self).gen_start,
            final(self).log@ == old(self).log@.push(Op::Header(w@, is_immediate)),
    {
        let ghost g1 = self.gen;
        self.gen.create_word(w, is_immediate);
        proof {
            lemma_emits_step(self.gen_start@, g1, self.gen, self.log@, Op::Header(w@, is_immediate));
        }
        let ghost new_log = self.log@.push(Op::Header(w@, is_immediate));
        self.log = Ghost(new_log);
    }

    fn create_code(&mut self, w: &str, is_immediate: bool)
        requires
            old(self).wf(),
        ensures
            final(self).wf(),
            final(self).model() == old(self).model(),
            final(self).gen_start == old(self).gen_start,
            final(self).log@ == old(self).log@.push(Op::CodeHeader(w@, is_immediate)),
    {
        let ghost g1 = self.gen;
        self.gen.create_code(w, is_immediate);
        proof {
            lemma_emits_step(self.gen_start@, g1, self.gen, self.log@, Op::CodeHeader(w@, is_immediate));
        }
        let ghost new_log = self.log@.push(Op::CodeHeader(w@, is_immediate));
        self.log = Ghost(new_log);
    }

    fn close_definition(&mut self)
        requires
            old(self).wf(),
        ensures
            final(self).wf(),
            final(self).model() == old(self).model(),
            final(self).gen_start == old(self).gen_start,
            final(self).log@ == old(self).log@.push(Op::Close),
    {
        let ghost g1 = self.gen;
        self.gen.close_definition();
        proof {
            lemma_emits_step(self.gen_start@, g1, self.gen, self.log@, Op::Close);
        }
        let ghost new_log = self.log@.push(Op::Close);
        self.log = Ghost(new_log);
    }

    fn emit_word(&mut self, w: &str)
        requires
            old(self).wf(),
        ensures
            final(self).wf(),
            final(self).model() == old(self).model(),
            final(self).gen_start == old(self).gen_start,
            final(self).log@ == old(self).log@.push(Op::Word(w@)),
    {
        let ghost g1 = self.gen;
        self.gen.emit_word(w);
        proof {
            lemma_emits_step(self.gen_start@, g1, self.gen, self.log@, Op::Word(w@));
        }
        let ghost new_log = self.log@.push(Op::Word(w@));
        self.log = Ghost(new_log);
    }

    fn refer_to_label(&mut self, w: &str)
        requires
            old(self).wf(),
        ensures
            final(self).wf(),
            final(self).model() == old(self).model(),
            final(self).gen_start == old(self).gen_start,
            final(self).log@ == old(self).log@.push(Op::LabelRef(w@)),
    {
        let ghost g1 = self.gen;
        self.gen.refer_to_label(w);
        proof {
            lemma_emits_step(self.gen_start@, g1, self.gen, self.log@, Op::LabelRef(w@));
        }
        let ghost new_log = self.log@.push(Op::LabelRef(w@));
        self.log = Ghost(new_log);
    }

    fn emit_label(&mut self, l: &str)
        requires
            old(self).wf(),
        ensures
            final(self).wf(),
            final(self).model() == old(self).model(),
            final(self).gen_start == old(self).gen_start,
            final(self).log@ == old(self).log@.push(Op::Label(l@)),
    {
        let ghost g1 = self.gen;
        self.gen.emit_label(l);
        proof {
            lemma_emits_step(self.gen_start@, g1, self.gen, self.log@, Op::Label(l@));
        }
        let ghost new_log = self.log@.push(Op::Label(l@));
        self.log = Ghost(new_log);
    }

    fn create_constant(&mut self, name: &str, val: i64)
        requires
            old(self).wf(),
        ensures
            final(self).wf(),
            final(self).model() == old(self).model(),
            final(self).gen_start == old(self).gen_start,
            final(self).log@ == old(self).log@.push(Op::Constant(name@, val)),
    {
        let ghost g1 = self.gen;
        self.gen.create_constant(name, val);
        proof {
            lemma_emits_step(self.gen_start@, g1, self.gen, self.log@, Op::Constant(name@, val));
        }
        let ghost new_log = self.log@.push(Op::Constant(name@, val));
        self.log = Ghost(new_log);
    }

    fn create_variable(&mut self, name: &str, size: u8)
        requires
            old(self).wf(),
        ensures
            final(self).wf(),
            final(self).model() == old(self).model(),
            final(self).gen_start == old(self).gen_start,
            final(self).log@ == old(self).log@.push(Op::Variable(name@, size)),
    {
        let ghost g1 = self.gen;
        self.gen.create_variable(name, size);
        proof {
            lemma_emits_step(self.gen_start@, g1, self.gen, self.log@, Op::Variable(name@, size));
        }
        let ghost new_log = self.log@.push(Op::Variable(name@, size));
        self.log = Ghost(new_log);
    }

    fn epilog(&mut self)
        requires
            old(self).wf(),
        ensures
            final(self).wf(),
            final(self).model() == old(self).model(),
            final(self).gen_start == old(self).gen_start,
            final(self).log@ == old(self).log@.push(Op::Epilog),
    {
        let ghost g1 = self.gen;
        self.gen.epilog();
        proof {
            lemma_emits_step(self.gen_start@, g1, self.gen, self.log@, Op::Epilog);
        }
        let ghost new_log = self.log@.push(Op::Epilog);
        self.log = Ghost(new_log);
    }

    fn allot_space(&mut self, size: u64)
        requires
            old(self).wf(),
        ensures
            final(self).wf(),
            final(self).model() == old(self).model(),
            final(self).gen_start == old(self).gen_start,
            final(self).log@ == old(self).log@.push(Op::Allot(size)),
    {
        let ghost g1 = self.gen;
        self.gen.allot_space(size);
        proof {
            lemma_emits_step(self.gen_start@, g1, self.gen, self.log@, Op::Allot(size));
        }
        let ghost new_log = self.log@.push(Op::Allot(size));
        self.log = Ghost(new_log);
    }

    fn emit_lines(&mut self, lines: Vec<String>)
        requires
            old(self).wf(),
        ensures
            final(self).wf(),
            final(self).model() == old(self).model(),
            final(self).gen_start == old(self).gen_start,
            final(self).log@ == old(self).log@.push(Op::Lines(strs(lines@))),
    {
        let ghost lv = strs(lines@);
        let ghost g1 = self.gen;
        self.gen.emit_lines(lines);
        proof {
            lemma_emits_step(self.gen_start@, g1, self.gen, self.log@, Op::Lines(lv));
        }
        let ghost new_log = self.log@.push(Op::Lines(lv));
        self.log = Ghost(new_log);
    }

    /// `;`: ends the definition with `exit`.
    fn w_semicolon(&mut self) -> (r: Result<Option<String>, FthError>)
        requires
            old(self).wf(),
            old(self).next_label <= LABEL_LIMIT,
        ensures
            final(self).wf(),
            final(self).gen_start == old(self).gen_start,
            holds(*old(self), *final(self), r, action_effect(old(self).model(), Active::Semicolon)),
    {
        self.is_compiling = false;
        self.emit_word("exit");
        self.close_definition();
        assert(self.log@ =~= old(self).log@ + seq![wref("exit"), Op::Close]);
        Ok(None)
    }

    /// `BEGIN`: places a label and remembers it.
    fn w_begin(&mut self) -> (r: Result<Option<String>, FthError>)
        requires
            old(self).wf(),
            old(self).next_label <= LABEL_LIMIT,
        ensures
            final(self).wf(),
            final(self).gen_start == old(self).gen_start,
            holds(*old(self), *final(self), r, action_effect(old(self).model(), Active::Begin)),
    {
        let lab_begin = self.new_label();
        self.emit_label(lab_begin.as_str());
        self.push_other(lab_begin);
        assert(self.log@ =~= old(self).log@ + seq![Op::Label(lbl(old(self).model(), 0))]);
        Ok(None)
    }

    /// `WHILE`: branches forward to a new end label when false.
    fn w_while(&mut self) -> (r: Result<Option<String>, FthError>)
        requires
            old(self).wf(),
            old(self).next_label <= LABEL_LIMIT,
        ensures
            final(self).wf(),
            final(self).gen_start == old(self).gen_start,
            holds(*old(self), *final(self), r, action_effect(old(self).model(), Active::While)),
    {
        let lab_begin = match self.pop_other("WHILE") {
            Ok(l) => l,
            Err(e) => return Err(e),
        };
        let lab_end = self.new_label();
        self.emit_word("qbranch");
        self.refer_to_label(lab_end.as_str());
        self.push_other(lab_end);
        self.push_other(lab_begin);
        assert(self.log@ =~= old(self).log@ + seq![wref("qbranch"), Op::LabelRef(lbl(old(self).model(), 0))]);
        Ok(None)
    }

    /// `REPEAT`: branches back to `BEGIN` and places the end label.
    fn w_repeat(&mut self) -> (r: Result<Option<String>, FthError>)
        requires
            old(self).wf(),
            old(self).next_label <= LABEL_LIMIT,
        ensures
            final(self).wf(),
            final(self).gen_start == old(self).gen_start,
            holds(*old(self), *final(self), r, action_effect(old(self).model(), Active::Repeat)),
    {
        let lab_begin = match self.pop_other("REPEAT") {
            Ok(l) => l,
            Err(e) => return Err(e),
        };
        let lab_end = match self.pop_other("REPEAT") {
            Ok(l) => l,
            Err(e) => return Err(e),
        };
        self.emit_word("branch");
        self.refer_to_label(lab_begin.as_str());
        self.emit_label(lab_end.as_str());
        proof {
            let co = old(self).model().ctrl_other;
            assert(co.drop_last().drop_last() =~= co.take(co.len() - 2));
            assert(co.drop_last().last() == co[co.len() - 2]);
        }
        assert(self.log@ =~= old(self).log@ + seq![wref("branch"), Op::LabelRef(lab_begin@), Op::Label(lab_end@)]);
        Ok(None)
    }

    /// `UNTIL`: branches back to `BEGIN` when false.
    fn w_until(&mut self) -> (r: Result<Option<String>, FthError>)
        requires
            old(self).wf(),
            old(self).next_label <= LABEL_LIMIT,
        ensures
            final(self).wf(),
            final(self).gen_start == old(self).gen_start,
            holds(*old(self), *final(self), r, action_effect(old(self).model(), Active::Until)),
    {
        let lab_begin = match self.pop_other("UNTIL") {
            Ok(l) => l,
            Err(e) => return Err(e),
        };
        self.emit_word("qbranch");
        self.refer_to_label(lab_begin.as_str());
        assert(self.log@ =~= old(self).log@ + seq![wref("qbranch"), Op::LabelRef(lab_begin@)]);
        Ok(None)
    }

    /// `AGAIN`: branches back to `BEGIN`.
    fn w_again(&mut self) -> (r: Result<Option<String>, FthError>)
        requires
            old(self).wf(),
            old(self).next_label <= LABEL_LIMIT,
        ensures
            final(self).wf(),
            final(self).gen_start == old(self).gen_start,
            holds(*old(self), *final(self), r, action_effect(old(self).model(), Active::Again)),
    {
        let lab_begin = match self.pop_other("AGAIN") {
            Ok(l) => l,
            Err(e) => return Err(e),
        };
        self.emit_word("branch");
        self.refer_to_label(lab_begin.as_str());
        assert(self.log@ =~= old(self).log@ + seq![wref("branch"), Op::LabelRef(lab_begin@)]);
        Ok(None)
    }

    /// `IF`: branches forward to a new label when false.
    fn w_if(&mut self) -> (r: Result<Option<String>, FthError>)
        requires
            old(self).wf(),
            old(self).next_label <= LABEL_LIMIT,
        ensures
            final(self).wf(),
            final(self).gen_start == old(self).gen_start,
            holds(*old(self), *final(self), r, action_effect(old(self).model(), Active::If)),
    {
        let label = self.new_label();
        self.emit_word("qbranch");
        self.refer_to_label(label.as_str());
        self.push_other(label);
        assert(self.log@ =~= old(self).log@ + seq![wref("qbranch"), Op::LabelRef(lbl(old(self).model(), 0))]);
        Ok(None)
    }

    /// `ELSE`: branches over the false branch and places the `IF` label.
    fn w_else(&mut self) -> (r: Result<Option<String>, FthError>)
        requires
            old(self).wf(),
            old(self).next_label <= LABEL_LIMIT,
        ensures
            final(self).wf(),
            final(self).gen_start == old(self).gen_start,
            holds(*old(self), *final(self), r, action_effect(old(self).model(), Active::Else)),
    {
        let head_label = match self.pop_other("ELSE") {
            Ok(l) => l,
            Err(e) => return Err(e),
        };
        let else_label = self.new_label();
        self.emit_word("branch");
        self.refer_to_label(else_label.as_str());
        self.push_other(else_label);
        self.emit_label(head_label.as_str());
        assert(self.log@ =~= old(self).log@ + seq![wref("branch"), Op::LabelRef(lbl(old(self).model(), 0)), Op::Label(head_label@)]);
        Ok(None)
    }

    /// `THEN`: places the pending forward label.
    fn w_then(&mut self) -> (r: Result<Option<String>, FthError>)
        requires
            old(self).wf(),
            old(self).next_label <= LABEL_LIMIT,
        ensures
            final(self).wf(),
            final(self).gen_start == old(self).gen_start,
            holds(*old(self), *final(self), r, action_effect(old(self).model(), Active::Then)),
    {
        let label = match self.pop_other("THEN") {
            Ok(l) => l,
            Err(e) => return Err(e),
        };
        self.emit_label(label.as_str());
        assert(self.log@ =~= old(self).log@ + seq![Op::Label(label@)]);
        Ok(None)
    }

    /// `DO`: moves the bounds to the return stack and places the loop label.
    fn w_do(&mut self) -> (r: Result<Option<String>, FthError>)
        requires
            old(self).wf(),
            old(self).next_label <= LABEL_LIMIT,
        ensures
            final(self).wf(),
            final(self).gen_start == old(self).gen_start,
            holds(*old(self), *final(self), r, action_effect(old(self).model(), Active::Do)),
    {
        let backward = self.new_label();
        let forward = self.new_label();
        self.emit_word("2to_r");
        self.emit_label(backward.as_str());
        self.push_do(backward);
        self.push_do(forward);
        assert(self.log@ =~= old(self).log@ + seq![wref("2to_r"), Op::Label(lbl(old(self).model(), 0))]);
        Ok(None)
    }

    /// `LEAVE`: branches to the exit of the current counted loop.
    fn w_leave(&mut self) -> (r: Result<Option<String>, FthError>)
        requires
            old(self).wf(),
            old(self).next_label <= LABEL_LIMIT,
        ensures
            final(self).wf(),
            final(self).gen_start == old(self).gen_start,
            holds(*old(self), *final(self), r, action_effect(old(self).model(), Active::Leave)),
    {
        let n = self.ctrl_do_stack.len();
        if n == 0 {
            return Err(FthError::new(ErrKind::StackUnderflow, "LEAVE"));
        }
        let label = self.ctrl_do_stack[n - 1].clone();
        self.emit_word("branch");
        self.refer_to_label(label.as_str());
        assert(self.log@ =~= old(self).log@ + seq![wref("branch"), Op::LabelRef(label@)]);
        Ok(None)
    }

    /// `LOOP`: branches back while counting and places the exit label.
    fn w_loop(&mut self) -> (r: Result<Option<String>, FthError>)
        requires
            old(self).wf(),
            old(self).next_label <= LABEL_LIMIT,
        ensures
            final(self).wf(),
            final(self).gen_start == old(self).gen_start,
            holds(*old(self), *final(self), r, action_effect(old(self).model(), Active::Loop)),
    {
        let forward = match self.pop_do("LOOP") {
            Ok(l) => l,
            Err(e) => return Err(e),
        };
        let backward = match self.pop_do("LOOP") {
            Ok(l) => l,
            Err(e) => return Err(e),
        };
        self.emit_word("do_loop1");
        self.refer_to_label(backward.as_str());
        self.emit_label(forward.as_str());
        self.emit_word("unloop");
        proof {
            let d = old(self).model().ctrl_do;
            assert(d.drop_last().drop_last() =~= d.take(d.len() - 2));
            assert(d.drop_last().last() == d[d.len() - 2]);
        }
        assert(self.log@ =~= old(self).log@ + seq![wref("do_loop1"), Op::LabelRef(backward@), Op::Label(forward@), wref("unloop")]);
        Ok(None)
    }

    /// `+LOOP`: branches back while counting and places the exit label.
    fn w_plus_loop(&mut self) -> (r: Result<Option<String>, FthError>)
        requires
            old(self).wf(),
            old(self).next_label <= LABEL_LIMIT,
        ensures
            final(self).wf(),
            final(self).gen_start == old(self).gen_start,
            holds(*old(self), *final(self), r, action_effect(old(self).model(), Active::PlusLoop)),
    {
        let forward = match self.pop_do("+LOOP") {
            Ok(l) => l,
            Err(e) => return Err(e),
        };
        let backward = match self.pop_do("+LOOP") {
            Ok(l) => l,
            Err(e) => return Err(e),
        };
        self.emit_word("do_plus_loop1");
        self.refer_to_label(backward.as_str());
        self.emit_label(forward.as_str());
        self.emit_word("unloop");
        proof {
            let d = old(self).model().ctrl_do;
            assert(d.drop_last().drop_last() =~= d.take(d.len() - 2));
            assert(d.drop_last().last() == d[d.len() - 2]);
        }
        assert(self.log@ =~= old(self).log@ + seq![wref("do_plus_loop1"), Op::LabelRef(backward@), Op::Label(forward@), wref("unloop")]);
        Ok(None)
    }

    /// `IMMEDIATE` is deliberately not implemented.
    fn w_immediate(&mut self) -> (r: Result<Option<String>, FthError>)
        requires
            old(self).wf(),
            old(self).next_label <= LABEL_LIMIT,
        ensures
            final(self).wf(),
            final(self).gen_start == old(self).gen_start,
            holds(*old(self), *final(self), r, action_effect(old(self).model(), Active::Immediate)),
    {
        Err(FthError::new(ErrKind::Unimplemented, "IMMEDIATE"))
    }

    /// `CASE`: remembers a new end label.
    fn w_case(&mut self) -> (r: Result<Option<String>, FthError>)
        requires
            old(self).wf(),
            old(self).next_label <= LABEL_LIMIT,
        ensures
            final(self).wf(),
            final(self).gen_start == old(self).gen_start,
            holds(*old(self), *final(self), r, action_effect(old(self).model(), Active::Case)),
    {
        let label = self.new_label();
        self.push_other(label);
        assert(self.log@ =~= old(self).log@ + Seq::<Op>::empty());
        Ok(None)
    }

    /// `OF`: compares with the selector and skips the case when unequal.
    fn w_of(&mut self) -> (r: Result<Option<String>, FthError>)
        requires
            old(self).wf(),
            old(self).next_label <= LABEL_LIMIT,
        ensures
            final(self).wf(),
            final(self).gen_start == old(self).gen_start,
            holds(*old(self), *final(self), r, action_effect(old(self).model(), Active::Of)),
    {
        let lab_skip = self.new_label();
        self.emit_word("over");
        self.emit_word("equals");
        self.emit_word("qbranch");
        self.refer_to_label(lab_skip.as_str());
        self.emit_word("drop");
        self.push_other(lab_skip);
        assert(self.log@ =~= old(self).log@ + seq![wref("over"), wref("equals"), wref("qbranch"), Op::LabelRef(lbl(old(self).model(), 0)), wref("drop")]);
        Ok(None)
    }

    /// `ENDOF`: branches to the end of the selection and places the skip label.
    fn w_endof(&mut self) -> (r: Result<Option<String>, FthError>)
        requires
            old(self).wf(),
            old(self).next_label <= LABEL_LIMIT,
        ensures
            final(self).wf(),
            final(self).gen_start == old(self).gen_start,
            holds(*old(self), *final(self), r, action_effect(old(self).model(), Active::EndOf)),
    {
        let lab_skip = match self.pop_other("ENDOF") {
            Ok(l) => l,
            Err(e) => return Err(e),
        };
        let n = self.ctrl_other_stack.len();
        assert(strs(self.ctrl_other_stack@).len() == n);
        if n == 0 {
            return Err(FthError::new(ErrKind::StackUnderflow, "ENDOF"));
        }
        let lab_end = self.ctrl_other_stack[n - 1].clone();
        self.emit_word("branch");
        self.refer_to_label(lab_end.as_str());
        self.emit_label(lab_skip.as_str());
        proof {
            let co = old(self).model().ctrl_other;
            assert(co.drop_last().last() == co[co.len() - 2]);
        }
        assert(self.log@ =~= old(self).log@ + seq![wref("branch"), Op::LabelRef(lab_end@), Op::Label(lab_skip@)]);
        Ok(None)
    }

    /// `ENDCASE`: drops the selector and places the end label.
    fn w_endcase(&mut self) -> (r: Result<Option<String>, FthError>)
        requires
            old(self).wf(),
            old(self).next_label <= LABEL_LIMIT,
        ensures
            final(self).wf(),
            final(self).gen_start == old(self).gen_start,
            holds(*old(self), *final(self), r, action_effect(old(self).model(), Active::EndCase)),
    {
        let lab_end = match self.pop_other("ENDCASE") {
            Ok(l) => l,
            Err(e) => return Err(e),
        };
        self.emit_word("drop");
        self.emit_label(lab_end.as_str());
        assert(self.log@ =~= old(self).log@ + seq![wref("drop"), Op::Label(lab_end@)]);
        Ok(None)
    }

    /// `NEXT_IMMEDIATE`: the next definition is immediate.
    fn w_next_immediate(&mut self) -> (r: Result<Option<String>, FthError>)
        requires
            old(self).wf(),
            old(self).next_label <= LABEL_LIMIT,
        ensures
            final(self).wf(),
            final(self).gen_start == old(self).gen_start,
            holds(*old(self), *final(self), r, action_effect(old(self).model(), Active::NextImmediate)),
    {
        self.next_is_immediate = true;
        assert(self.log@ =~= old(self).log@ + Seq::<Op>::empty());
        Ok(None)
    }

    /// `XALLOT`: reserves the number of bytes on top of the data stack.
    fn w_allot(&mut self) -> (r: Result<Option<String>, FthError>)
        requires
            old(self).wf(),
            old(self).next_label <= LABEL_LIMIT,
        ensures
            final(self).wf(),
            final(self).gen_start == old(self).gen_start,
            holds(*old(self), *final(self), r, action_effect(old(self).model(), Active::XAllot)),
    {
        let v = match self.pop_data("XALLOT") {
            Ok(v) => v,
            Err(e) => return Err(e),
        };
        if v < 0 {
            return Err(FthError::new(ErrKind::NumericFormat, "XALLOT"));
        }
        self.allot_space(v as u64);
        assert(self.log@ =~= old(self).log@ + seq![Op::Allot(v as u64)]);
        Ok(None)
    }

    /// `[IF]`: compiles the block when the flag on the data stack is non-zero.
    fn w_comp_if(&mut self) -> (r: Result<Option<String>, FthError>)
        requires
            old(self).wf(),
            old(self).next_label <= LABEL_LIMIT,
        ensures
            final(self).wf(),
            final(self).gen_start == old(self).gen_start,
            holds(*old(self), *final(self), r, action_effect(old(self).model(), Active::CompIf)),
    {
        let v = match self.pop_data("[IF]") {
            Ok(v) => v,
            Err(e) => return Err(e),
        };
        if v != 0 {
            self.skip_stack.push(CondCompileState::CompileUntilElse);
        } else {
            self.skip_stack.push(CondCompileState::SkipUntilElse);
        }
        assert(self.log@ =~= old(self).log@ + Seq::<Op>::empty());
        Ok(None)
    }

    /// `:`: starts compiling and writes the header of the named word.
    fn w_colon(&mut self) -> (r: Result<Option<String>, FthError>)
        requires
            old(self).wf(),
            old(self).next_label <= LABEL_LIMIT,
        ensures
            final(self).wf(),
            final(self).gen_start == old(self).gen_start,
            holds(*old(self), *final(self), r, action_effect(old(self).model(), Active::Colon)),
    {
        self.is_compiling = true;
        let name = self.read_name();
        match name {
            None => Err(FthError::new(ErrKind::Syntax, ":")),
            Some(w) => {
                let next_is_immediate = self.next_is_immediate;
                self.next_is_immediate = false;
                self.create_word(w.as_str(), next_is_immediate);
                assert(self.log@ =~= old(self).log@ + seq![Op::Header(w@, old(self).next_is_immediate)]);
                Ok(None)
            },
        }
    }

    /// `CODE`: writes a code-word header, the assembly lines up to `END-CODE`, and `NEXT`.
    fn w_code(&mut self) -> (r: Result<Option<String>, FthError>)
        requires
            old(self).wf(),
            old(self).next_label <= LABEL_LIMIT,
        ensures
            final(self).wf(),
            final(self).gen_start == old(self).gen_start,
            holds(*old(self), *final(self), r, action_effect(old(self).model(), Active::Code)),
    {
        let name = self.read_name();
        let w = match name {
            None => return Err(FthError::new(ErrKind::Syntax, "CODE")),
            Some(w) => w,
        };
        let next_is_immediate = self.next_is_immediate;
        self.next_is_immediate = false;
        self.create_code(w.as_str(), next_is_immediate);
        let ghost st = self.model().input;
        let mut code_lines = self.input_mgr.lines_until("END-CODE");
        if self.input_mgr.source_count() == 0 {
            return Err(FthError::new(ErrKind::Syntax, "END-CODE"));
        }
        let ghost ls = lines_until_result(st, "END-CODE"@).0;
        assert(strs(code_lines@) =~= ls);
        code_lines.push(String::from_str("    NEXT\n"));
        assert(strs(code_lines@) =~= ls + seq!["    NEXT\n"@]);
        self.emit_lines(code_lines);
        self.close_definition();
        assert(self.log@ =~= old(self).log@ + (seq![Op::CodeHeader(w@, old(self).next_is_immediate)] + seq![Op::Lines(ls + seq!["    NEXT\n"@])] + seq![Op::Close]));
        Ok(None)
    }

    /// `HEADLESSCODE`: copies the lines up to `END-CODE`.
    fn w_headless(&mut self) -> (r: Result<Option<String>, FthError>)
        requires
            old(self).wf(),
            old(self).next_label <= LABEL_LIMIT,
        ensures
            final(self).wf(),
            final(self).gen_start == old(self).gen_start,
            holds(*old(self), *final(self), r, action_effect(old(self).model(), Active::HeadlessCode)),
    {
        let ghost st = self.model().input;
        let code_lines = self.input_mgr.lines_until("END-CODE");
        if self.input_mgr.source_count() == 0 {
            return Err(FthError::new(ErrKind::Syntax, "END-CODE"));
        }
        let ghost ls = lines_until_result(st, "END-CODE"@).0;
        assert(strs(code_lines@) =~= ls);
        assert(ls + Seq::<Seq<char>>::empty() =~= ls);
        self.emit_lines(code_lines);
        assert(self.log@ =~= old(self).log@ + (Seq::<Op>::empty() + seq![Op::Lines(ls + Seq::<Seq<char>>::empty())] + Seq::<Op>::empty()));
        Ok(None)
    }

    /// `VERBATIM`: copies the lines up to `END-VERBATIM`.
    fn w_verbatim(&mut self) -> (r: Result<Option<String>, FthError>)
        requires
            old(self).wf(),
            old(self).next_label <= LABEL_LIMIT,
        ensures
            final(self).wf(),
            final(self).gen_start == old(self).gen_start,
            holds(*old(self), *final(self), r, action_effect(old(self).model(), Active::Verbatim)),
    {
        let ghost st = self.model().input;
        let code_lines = self.input_mgr.lines_until("END-VERBATIM");
        if self.input_mgr.source_count() == 0 {
            return Err(FthError::new(ErrKind::Syntax, "END-VERBATIM"));
        }
        let ghost ls = lines_until_result(st, "END-VERBATIM"@).0;
        assert(strs(code_lines@) =~= ls);
        assert(ls + Seq::<Seq<char>>::empty() =~= ls);
        self.emit_lines(code_lines);
        assert(self.log@ =~= old(self).log@ + (Seq::<Op>::empty() + seq![Op::Lines(ls + Seq::<Seq<char>>::empty())] + Seq::<Op>::empty()));
        Ok(None)
    }

    /// `(`: skips a comment up to `)`.
    fn w_paren(&mut self) -> (r: Result<Option<String>, FthError>)
        requires
            old(self).wf(),
            old(self).next_label <= LABEL_LIMIT,
        ensures
            final(self).wf(),
            final(self).gen_start == old(self).gen_start,
            holds(*old(self), *final(self), r, action_effect(old(self).model(), Active::Paren)),
    {
        let _ = self.input_mgr.str_by(Stop::Char(')'));
        assert(self.log@ =~= old(self).log@ + Seq::<Op>::empty());
        Ok(None)
    }

    /// `CONSTANT`: defines the named constant with the value on top of the data stack.
    fn w_constant(&mut self) -> (r: Result<Option<String>, FthError>)
        requires
            old(self).wf(),
            old(self).next_label <= LABEL_LIMIT,
        ensures
            final(self).wf(),
            final(self).gen_start == old(self).gen_start,
            holds(*old(self), *final(self), r, action_effect(old(self).model(), Active::Constant)),
    {
        let name = self.read_name();
        let constant_name = match name {
            None => return Err(FthError::new(ErrKind::Syntax, "CONSTANT")),
            Some(w) => w,
        };
        let v = match self.pop_data("CONSTANT") {
            Ok(v) => v,
            Err(e) => return Err(e),
        };
        self.create_constant(constant_name.as_str(), v);
        assert(self.log@ =~= old(self).log@ + seq![Op::Constant(constant_name@, v)]);
        Ok(None)
    }

    /// `VARIABLE`: defines a named variable of one cell.
    fn w_variable(&mut self) -> (r: Result<Option<String>, FthError>)
        requires
            old(self).wf(),
            old(self).next_label <= LABEL_LIMIT,
        ensures
            final(self).wf(),
            final(self).gen_start == old(self).gen_start,
            holds(*old(self), *final(self), r, action_effect(old(self).model(), Active::Variable)),
    {
        let name = self.read_name();
        let variable_name = match name {
            None => return Err(FthError::new(ErrKind::Syntax, "VARIABLE")),
            Some(w) => w,
        };
        self.create_variable(variable_name.as_str(), 1);
        assert(self.log@ =~= old(self).log@ + seq![Op::Variable(variable_name@, 1)]);
        Ok(None)
    }

    /// `2VARIABLE`: defines a named variable of two cells.
    fn w_2variable(&mut self) -> (r: Result<Option<String>, FthError>)
        requires
            old(self).wf(),
            old(self).next_label <= LABEL_LIMIT,
        ensures
            final(self).wf(),
            final(self).gen_start == old(self).gen_start,
            holds(*old(self), *final(self), r, action_effect(old(self).model(), Active::TwoVariable)),
    {
        let name = self.read_name();
        let variable_name = match name {
            None => return Err(FthError::new(ErrKind::Syntax, "2VARIABLE")),
            Some(w) => w,
        };
        self.create_variable(variable_name.as_str(), 2);
        assert(self.log@ =~= old(self).log@ + seq![Op::Variable(variable_name@, 2)]);
        Ok(None)
    }

    /// `S"`: compiles the string up to `"`, leaving its address and length at run time.
    fn w_s_quote(&mut self) -> (r: Result<Option<String>, FthError>)
        requires
            old(self).wf(),
            old(self).next_label <= LABEL_LIMIT,
        ensures
            final(self).wf(),
            final(self).gen_start == old(self).gen_start,
            holds(*old(self), *final(self), r, action_effect(old(self).model(), Active::SQuote)),
    {
        self.input_mgr.skip_ws();
        let (term_str, found) = self.input_mgr.scan(Stop::Char('"'));
        if !found {
            return Err(FthError::new(ErrKind::Syntax, "S\""));
        }
        let string_loc = self.new_label();
        let branch_target = self.new_label();
        self.emit_word("branch");
        self.refer_to_label(branch_target.as_str());
        self.emit_label(string_loc.as_str());
        self.do_string_literal(term_str.as_str());
        self.emit_label(branch_target.as_str());
        self.emit_word("lit");
        self.refer_to_label(string_loc.as_str());
        self.do_literal(term_str.as_str().len() as i64);
        proof {
            let m = old(self).model();
            assert(self.log@ =~= old(self).log@ + (Seq::<Op>::empty() + seq![
                wref("branch"),
                Op::LabelRef(lbl(m, 1)),
                Op::Label(lbl(m, 0)),
                Op::StringLit(term_str@),
                Op::Label(lbl(m, 1)),
                wref("lit"),
                Op::LabelRef(lbl(m, 0)),
                Op::Literal(name_len(term_str@) as i64),
            ] + Seq::<Op>::empty()));
        }
        Ok(None)
    }

    /// `."`: compiles the string up to `"` and prints it at run time.
    fn w_dot_quote(&mut self) -> (r: Result<Option<String>, FthError>)
        requires
            old(self).wf(),
            old(self).next_label <= LABEL_LIMIT,
        ensures
            final(self).wf(),
            final(self).gen_start == old(self).gen_start,
            holds(*old(self), *final(self), r, action_effect(old(self).model(), Active::DotQuote)),
    {
        self.input_mgr.skip_ws();
        let (term_str, found) = self.input_mgr.scan(Stop::Char('"'));
        if !found {
            return Err(FthError::new(ErrKind::Syntax, ".\""));
        }
        let string_loc = self.new_label();
        let branch_target = self.new_label();
        self.emit_word("branch");
        self.refer_to_label(branch_target.as_str());
        self.emit_label(string_loc.as_str());
        self.do_string_literal(term_str.as_str());
        self.emit_label(branch_target.as_str());
        self.emit_word("lit");
        self.refer_to_label(string_loc.as_str());
        self.do_literal(term_str.as_str().len() as i64);
        self.emit_word("type");
        proof {
            let m = old(self).model();
            assert(self.log@ =~= old(self).log@ + (Seq::<Op>::empty() + seq![
                wref("branch"),
                Op::LabelRef(lbl(m, 1)),
                Op::Label(lbl(m, 0)),
                Op::StringLit(term_str@),
                Op::Label(lbl(m, 1)),
                wref("lit"),
                Op::LabelRef(lbl(m, 0)),
                Op::Literal(name_len(term_str@) as i64),
            ] + seq![wref("type")]));
        }
        Ok(None)
    }

    /// `ABORT"`: compiles an abort with the message up to `"`, taken when the flag is true.
    fn w_abort_quote(&mut self) -> (r: Result<Option<String>, FthError>)
        requires
            old(self).wf(),
            old(self).next_label <= LABEL_LIMIT,
        ensures
            final(self).wf(),
            final(self).gen_start == old(self).gen_start,
            holds(*old(self), *final(self), r, action_effect(old(self).model(), Active::AbortQuote)),
    {
        self.input_mgr.skip_ws();
        let (term_str, found) = self.input_mgr.scan(Stop::Char('"'));
        if !found {
            return Err(FthError::new(ErrKind::Syntax, "ABORT\""));
        }
        let cont_target = self.new_label();
        let abort_target = self.new_label();
        let string_loc = self.new_label();
        self.emit_word("qbranch");
        self.refer_to_label(cont_target.as_str());
        self.emit_word("branch");
        self.refer_to_label(abort_target.as_str());
        self.emit_label(string_loc.as_str());
        self.do_string_literal(term_str.as_str());
        self.emit_label(abort_target.as_str());
        self.emit_word("lit");
        self.refer_to_label(string_loc.as_str());
        self.do_literal(term_str.as_str().len() as i64);
        self.emit_word("type");
        self.emit_word("cr");
        self.emit_word("abort");
        self.emit_label(cont_target.as_str());
        proof {
            let m = old(self).model();
            assert(self.log@ =~= old(self).log@ + (seq![wref("qbranch"), Op::LabelRef(lbl(m, 0))] + seq![
                wref("branch"),
                Op::LabelRef(lbl(m, 1)),
                Op::Label(lbl(m, 2)),
                Op::StringLit(term_str@),
                Op::Label(lbl(m, 1)),
                wref("lit"),
                Op::LabelRef(lbl(m, 2)),
                Op::Literal(name_len(term_str@) as i64),
            ] + seq![wref("type"), wref("cr"), wref("abort"), Op::Label(lbl(m, 0))]));
        }
        Ok(None)
    }

    /// `[']`: compiles the address of the named word as a literal.
    fn w_bracket_tick(&mut self) -> (r: Result<Option<String>, FthError>)
        requires
            old(self).wf(),
            old(self).next_label <= LABEL_LIMIT,
        ensures
            final(self).wf(),
            final(self).gen_start == old(self).gen_start,
            holds(*old(self), *final(self), r, action_effect(old(self).model(), Active::BracketTick)),
    {
        let name = self.read_name();
        let w = match name {
            None => return Err(FthError::new(ErrKind::Syntax, "[']")),
            Some(w) => w,
        };
        self.emit_word("lit");
        self.emit_word(w.as_str());
        assert(self.log@ =~= old(self).log@ + seq![wref("lit"), Op::Word(w@)]);
        Ok(None)
    }

    /// `[DEFINED]`: pushes -1 when the name was defined on the command line, else 0.
    fn w_is_defined(&mut self) -> (r: Result<Option<String>, FthError>)
        requires
            old(self).wf(),
            old(self).next_label <= LABEL_LIMIT,
        ensures
            final(self).wf(),
            final(self).gen_start == old(self).gen_start,
            holds(*old(self), *final(self), r, action_effect(old(self).model(), Active::IsDefined)),
    {
        let name = self.read_name();
        let def_name = match name {
            None => return Err(FthError::new(ErrKind::Syntax, "[DEFINED]")),
            Some(w) => w,
        };
        if self.is_defined(def_name.as_str()) {
            self.data_stack.push(-1);
        } else {
            self.data_stack.push(0);
        }
        assert(self.log@ =~= old(self).log@ + Seq::<Op>::empty());
        Ok(None)
    }

    /// `INCLUDE`: names a source to read before the rest of this one.
    fn w_include(&mut self) -> (r: Result<Option<String>, FthError>)
        requires
            old(self).wf(),
            old(self).next_label <= LABEL_LIMIT,
        ensures
            final(self).wf(),
            final(self).gen_start == old(self).gen_start,
            holds(*old(self), *final(self), r, action_effect(old(self).model(), Active::Include)),
    {
        let name = self.read_name();
        let file_name = match name {
            None => return Err(FthError::new(ErrKind::Syntax, "INCLUDE")),
            Some(w) => w,
        };
        assert(self.log@ =~= old(self).log@ + Seq::<Op>::empty());
        Ok(Some(file_name))
    }

    fn do_action(&mut self, a: Active) -> (r: Result<Option<String>, FthError>)
        requires
            old(self).wf(),
            old(self).next_label <= LABEL_LIMIT,
        ensures
            final(self).wf(),
            final(self).gen_start == old(self).gen_start,
            holds(*old(self), *final(self), r, action_effect(old(self).model(), a)),
    {
        match a {
            Active::Colon => self.w_colon(),
            Active::Semicolon => self.w_semicolon(),
            Active::Code => self.w_code(),
            Active::Paren => self.w_paren(),
            Active::Constant => self.w_constant(),
            Active::Variable => self.w_variable(),
            Active::TwoVariable => self.w_2variable(),
            Active::XAllot => self.w_allot(),
            Active::Begin => self.w_begin(),
            Active::While => self.w_while(),
            Active::Repeat => self.w_repeat(),
            Active::Until => self.w_until(),
            Active::Again => self.w_again(),
            Active::If => self.w_if(),
            Active::Then => self.w_then(),
            Active::Do => self.w_do(),
            Active::Leave => self.w_leave(),
            Active::Loop => self.w_loop(),
            Active::PlusLoop => self.w_plus_loop(),
            Active::Else => self.w_else(),
            Active::Immediate => self.w_immediate(),
            Active::Case => self.w_case(),
            Active::Of => self.w_of(),
            Active::EndOf => self.w_endof(),
            Active::EndCase => self.w_endcase(),
            Active::SQuote => self.w_s_quote(),
            Active::DotQuote => self.w_dot_quote(),
            Active::AbortQuote => self.w_abort_quote(),
            Active::BracketTick => self.w_bracket_tick(),
            Active::Verbatim => self.w_verbatim(),
            Active::HeadlessCode => self.w_headless(),
            Active::NextImmediate => self.w_next_immediate(),
            Active::IsDefined => self.w_is_defined(),
            Active::CompIf => self.w_comp_if(),
            Active::Include => self.w_include(),
        }
    }

    /// A number: a literal inside a definition, else pushed on the data stack.
    pub fn do_number(&mut self, n: i64) -> (r: Result<Option<String>, FthError>)
        requires
            old(self).wf(),
        ensures
            final(self).wf(),
            final(self).gen_start == old(self).gen_start,
            holds(*old(self), *final(self), r, number_effect(old(self).model(), n)),
    {
        if self.is_compiling {
            self.do_literal(n);
            assert(self.log@ =~= old(self).log@ + seq![Op::Literal(n)]);
        } else {
            self.data_stack.push(n);
            assert(self.log@ =~= old(self).log@ + Seq::<Op>::empty());
        }
        Ok(None)
    }

    /// Handles one token read from the input. Returns the name of a source to
    /// include, if the token asks for one.
    pub fn interpret_word(&mut self, w: String) -> (r: Result<Option<String>, FthError>)
        requires
            old(self).wf(),
            old(self).next_label <= LABEL_LIMIT,
        ensures
            final(self).wf(),
            final(self).gen_start == old(self).gen_start,
            holds(*old(self), *final(self), r, token_effect(old(self).model(), w@)),
    {
        let upper_w = to_upper(w.as_str());
        self.interpret_token(w, upper_w.as_str())
    }

    /// Handles token `w`, given its uppercase form `upper_w`: the
    /// conditional-compilation filter, then the active word of that name, a
    /// number, or a reference to a word. Returns the name of a source to
    /// include, if the token asks for one.
    pub fn interpret_token(&mut self, w: String, upper_w: &str) -> (r: Result<
        Option<String>,
        FthError,
    >)
        requires
            old(self).wf(),
            old(self).next_label <= LABEL_LIMIT,
        ensures
            final(self).wf(),
            final(self).gen_start == old(self).gen_start,
            holds(*old(self), *final(self), r, token_step(old(self).model(), w@, upper_w@)),
    {
        reveal(token_step);
        let skipped = match skip_filter(&mut self.skip_stack, upper_w) {
            Ok(b) => b,
            Err(e) => return Err(e),
        };
        if skipped {
            assert(self.log@ =~= old(self).log@ + Seq::<Op>::empty());
            return Ok(None);
        }
        match active_word(upper_w) {
            Some(a) => self.do_action(a),
            None => match classify_number(w.as_str()) {
                NumClass::Bad => Err(FthError::new(ErrKind::NumericFormat, w.as_str())),
                NumClass::Number(n) => self.do_number(n),
                NumClass::NotNumber => {
                    if self.is_compiling {
                        self.emit_word(w.as_str());
                        assert(self.log@ =~= old(self).log@ + seq![Op::Word(w@)]);
                    } else {
                        assert(self.log@ =~= old(self).log@ + Seq::<Op>::empty());
                    }
                    Ok(None)
                },
            },
        }
    }

    /// Writes the run-once header of the backend.
    pub fn prolog(&mut self)
        requires
            old(self).wf(),
        ensures
            final(self).wf(),
            final(self).model() == old(self).model(),
            final(self).gen_start == old(self).gen_start,
            final(self).log == old(self).log,
    {
        self.gen.prolog();
    }

    /// Checks that everything is closed at the end of the input, then writes
    /// the dictionary head.
    fn finish(&mut self) -> (r: Result<Option<String>, FthError>)
        requires
            old(self).wf(),
        ensures
            final(self).wf(),
            final(self).gen_start == old(self).gen_start,
            holds(*old(self), *final(self), r, finish_effect(old(self).model())),
    {
        assert(strs(self.ctrl_other_stack@).len() == self.ctrl_other_stack.len());
        assert(strs(self.ctrl_do_stack@).len() == self.ctrl_do_stack.len());
        if self.ctrl_other_stack.len() > 0 || self.ctrl_do_stack.len() > 0
            || self.skip_stack.len() > 0 {
            return Err(FthError::new(ErrKind::Syntax, "end of input"));
        }
        self.epilog();
        assert(self.log@ =~= old(self).log@ + seq![Op::Epilog]);
        Ok(None)
    }

    /// Compiles tokens until the input ends or a token asks for another
    /// source. At the end of the input, checks that every structure is closed
    /// and writes the dictionary head; returns `Ok(None)`. For an `INCLUDE`,
    /// returns the name of the source: open it with `push_source` and call
    /// this again to go on.
    pub fn interpret(&mut self) -> (r: Result<Option<String>, FthError>)
        requires
            old(self).wf(),
        ensures
            final(self).wf(),
            final(self).gen_start == old(self).gen_start,
            holds(*old(self), *final(self), r, run(old(self).model())),
    {
        let ghost m0 = self.model();
        let ghost log0 = self.log@;
        let ghost mut acc: Seq<Op> = seq![];
        assert(run(m0) == prepend(acc, run(self.model()))) by {
            match run(m0) {
                Outcome::Done(m, ops, inc) => {
                    assert(acc + ops =~= ops);
                },
                _ => {},
            }
        }
        loop
            invariant
                self.wf(),
                self.gen_start == old(self).gen_start,
                m0 == old(self).model(),
                log0 == old(self).log@,
                self.log@ == log0 + acc,
                run(m0) == prepend(acc, run(self.model())),
            decreases stream(self.model().input).len(),
        {
            let ghost cur = self.model();
            let ghost acc0 = acc;
            if self.next_label > LABEL_LIMIT {
                return Err(FthError::new(ErrKind::LabelOverflow, "label"));
            }
            proof {
                lemma_run_step(cur);
            }
            self.input_mgr.skip_ws();
            let w = self.input_mgr.word();
            let ghost after_read = self.model();
            assert(after_read == (Model { input: read_name(cur.input).1, ..cur }));
            match w {
                None => {
                    let r = self.finish();
                    proof {
                        if let Outcome::Done(m, ops, inc) = finish_effect(after_read) {
                            assert(self.log@ =~= log0 + (acc0 + ops));
                        }
                    }
                    return r;
                },
                Some(w) => {
                    let ghost wv = w@;
                    let res = self.interpret_word(w);
                    match res {
                        Err(e) => {
                            return Err(e);
                        },
                        Ok(Some(f)) => {
                            proof {
                                if let Outcome::Done(m, ops, inc) = token_effect(after_read, wv) {
                                    assert(self.log@ =~= log0 + (acc0 + ops));
                                }
                            }
                            return Ok(Some(f));
                        },
                        Ok(None) => {
                            proof {
                                if let Outcome::Done(m2, ops, inc) = token_effect(after_read, wv) {
                                    acc = acc0 + ops;
                                    assert(self.log@ =~= log0 + acc);
                                    match run(m2) {
                                        Outcome::Done(m3, ops2, inc2) => {
                                            assert(acc0 + (ops + ops2) =~= acc + ops2);
                                        },
                                        _ => {},
                                    }
                                }
                            }
                        },
                    }
                },
            }
        }
    }

    /// Whether `name` is among the defines.
    fn is_defined(&self, name: &str) -> (r: bool)
        ensures
            r == self.model().defines.contains(name@),
    {
        let mut i: usize = 0;
        while i < self.defines.len()
            invariant
                i <= self.defines.len(),
                forall|j: int| 0 <= j < i ==> #[trigger] strs(self.defines@)[j] != name@,
            decreases self.defines.len() - i,
        {
            if str_eq(self.defines[i].as_str(), name) {
                assert(strs(self.defines@)[i as int] == name@);
                return true;
            }
            i = i + 1;
        }
        false
    }

    /// A fresh label from the counter.
    pub fn new_label(&mut self) -> (r: String)
        requires
            old(self).next_label < u64::MAX,
        ensures
            r@ == label_of(old(self).next_label as nat),
            final(self).model() == (Model {
                next_label: (old(self).next_label + 1) as nat,
                ..old(self).model()
            }),
            final(self).gen == old(self).gen,
            final(self).gen_start == old(self).gen_start,
            final(self).log == old(self).log,
            final(self).input_mgr == old(self).input_mgr,
    {
        let label_str = crate::words::label_text(self.next_label);
        self.next_label = self.next_label + 1;
        label_str
    }

    fn push_other(&mut self, l: String)
        ensures
            final(self).model() == (Model {
                ctrl_other: old(self).model().ctrl_other.push(l@),
                ..old(self).model()
            }),
            final(self).gen == old(self).gen,
            final(self).gen_start == old(self).gen_start,
            final(self).log == old(self).log,
            final(self).input_mgr == old(self).input_mgr,
    {
        self.ctrl_other_stack.push(l);
        assert(strs(self.ctrl_other_stack@) =~= strs(old(self).ctrl_other_stack@).push(l@));
    }

    fn pop_other(&mut self, word: &str) -> (r: Result<String, FthError>)
        ensures
            old(self).model().ctrl_other.len() == 0 ==> r is Err && r->Err_0.kind
                == ErrKind::StackUnderflow && r->Err_0.context@ == word@,
            old(self).model().ctrl_other.len() > 0 ==> r is Ok && r->Ok_0@ == old(
                self,
            ).model().ctrl_other.last() && final(self).model() == (Model {
                ctrl_other: old(self).model().ctrl_other.drop_last(),
                ..old(self).model()
            }),
            final(self).gen == old(self).gen,
            final(self).gen_start == old(self).gen_start,
            final(self).log == old(self).log,
            final(self).input_mgr == old(self).input_mgr,
    {
        match self.ctrl_other_stack.pop() {
            None => Err(FthError::new(ErrKind::StackUnderflow, word)),
            Some(l) => {
                assert(strs(self.ctrl_other_stack@) =~= strs(old(self).ctrl_other_stack@).drop_last());
                Ok(l)
            },
        }
    }

    fn push_do(&mut self, l: String)
        ensures
            final(self).model() == (Model {
                ctrl_do: old(self).model().ctrl_do.push(l@),
                ..old(self).model()
            }),
            final(self).gen == old(self).gen,
            final(self).gen_start == old(self).gen_start,
            final(self).log == old(self).log,
            final(self).input_mgr == old(self).input_mgr,
    {
        self.ctrl_do_stack.push(l);
        assert(strs(self.ctrl_do_stack@) =~= strs(old(self).ctrl_do_stack@).push(l@));
    }

    fn pop_do(&mut self, word: &str) -> (r: Result<String, FthError>)
        ensures
            old(self).model().ctrl_do.len() == 0 ==> r is Err && r->Err_0.kind
                == ErrKind::StackUnderflow && r->Err_0.context@ == word@,
            old(self).model().ctrl_do.len() > 0 ==> r is Ok && r->Ok_0@ == old(
                self,
            ).model().ctrl_do.last() && final(self).model() == (Model {
                ctrl_do: old(self).model().ctrl_do.drop_last(),
                ..old(self).model()
            }),
            final(self).gen == old(self).gen,
            final(self).gen_start == old(self).gen_start,
            final(self).log == old(self).log,
            final(self).input_mgr == old(self).input_mgr,
    {
        match self.ctrl_do_stack.pop() {
            None => Err(FthError::new(ErrKind::StackUnderflow, word)),
            Some(l) => {
                assert(strs(self.ctrl_do_stack@) =~= strs(old(self).ctrl_do_stack@).drop_last());
                Ok(l)
            },
        }
    }

    fn pop_data(&mut self, word: &str) -> (r: Result<i64, FthError>)
        ensures
            old(self).data_stack@.len() == 0 ==> r is Err && r->Err_0.kind
                == ErrKind::StackUnderflow && r->Err_0.context@ == word@,
            old(self).data_stack@.len() > 0 ==> r == Ok::<i64, FthError>(
                old(self).data_stack@.last(),
            ) && final(self).model() == (Model {
                data: old(self).model().data.drop_last(),
                ..old(self).model()
            }),
            final(self).gen == old(self).gen,
            final(self).gen_start == old(self).gen_start,
            final(self).log == old(self).log,
            final(self).input_mgr == old(self).input_mgr,
    {
        match self.data_stack.pop() {
            None => Err(FthError::new(ErrKind::StackUnderflow, word)),
            Some(v) => Ok(v),
        }
    }

    /// Skips whitespace and reads the next name.
    fn read_name(&mut self) -> (r: Option<String>)
        requires
            old(self).wf(),
        ensures
            final(self).wf(),
            crate::input::opt_view(r) == read_name(old(self).model().input).0,
            final(self).model() == (Model {
                input: read_name(old(self).model().input).1,
                ..old(self).model()
            }),
            final(self).gen == old(self).gen,
            final(self).gen_start == old(self).gen_start,
            final(self).log == old(self).log,
    {
        self.input_mgr.skip_ws();
        self.input_mgr.word()
    }
}

} // verus!
