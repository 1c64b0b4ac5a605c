use fth::driver::Fth;
use fth::gen::AttGen;
use fth::gen::Ca6502;
use fth::gen::FthGen;
use fth::words::ErrKind;
use fth::words::FthError;

fn compile<G: FthGen>(gen: G, src: &str, defines: Option<&str>) -> Result<String, FthError> {
    let mut f = Fth::new(gen, defines.map(String::from));
    f.input_mgr.push_source(src.as_bytes().to_vec());
    f.prolog();
    loop {
        match f.interpret() {
            Ok(None) => break,
            Ok(Some(name)) => panic!("unexpected include of {name}"),
            Err(e) => return Err(e),
        }
    }
    Ok(f.gen.output().clone())
}

fn att(src: &str) -> String {
    compile(AttGen::new(), src, None).unwrap()
}

fn ca(src: &str) -> String {
    compile(Ca6502::new(), src, None).unwrap()
}

fn att_err(src: &str) -> ErrKind {
    compile(AttGen::new(), src, None).unwrap_err().kind
}

#[test]
fn square_att() {
    assert_eq!(
        att(": SQUARE DUP * ;"),
        "    HIGH_W w_SQUARE 6 \"SQUARE\" flgs=0\n    .int w_DUP\n    .int w_star\n    .int w_exit\ndict_head: .int dict_w_SQUARE\n"
    );
}

#[test]
fn constant_att() {
    assert_eq!(
        att("42 CONSTANT ANSWER"),
        "    HIGH_W w_ANSWER 6 \"ANSWER\" act=w_do_const\n    .int 42\ndict_head: .int dict_w_ANSWER\n"
    );
}

#[test]
fn abs_with_if_att() {
    assert_eq!(
        att(": ABS DUP 0 < IF NEGATE THEN ;"),
        "    HIGH_W w_ABS 3 \"ABS\" flgs=0\n    .int w_DUP\n    .int w_lit\n    .int 0\n    .int w_from\n    .int w_qbranch\n    .int _L001\n    .int w_NEGATE\n_L001:\n    .int w_exit\ndict_head: .int dict_w_ABS\n"
    );
}

#[test]
fn count_loop_att() {
    assert_eq!(
        att(": COUNT 10 0 DO I . LOOP ;"),
        "    HIGH_W w_COUNT 5 \"COUNT\" flgs=0\n    .int w_lit\n    .int 10\n    .int w_lit\n    .int 0\n    .int w_2to_r\n_L001:\n    .int w_I\n    .int w_dot\n    .int w_do_loop1\n    .int _L001\n_L002:\n    .int w_unloop\n    .int w_exit\ndict_head: .int dict_w_COUNT\n"
    );
}

#[test]
fn count_loop_6502() {
    assert_eq!(
        ca(": COUNT 10 0 DO I . LOOP ;"),
        "w_COUNT    .HIGH_W 5, \"COUNT\", , 0, 0\n  .block\n    .word w_lit.cfa\n    .word 10\n    .word w_lit.cfa\n    .word 0\n    .addr w_2to_r.cfa\n_L001\n    .addr w_I.cfa\n    .addr w_dot.cfa\n    .addr w_do_loop1.cfa\n    .addr _L001\n_L002\n    .addr w_unloop.cfa\n    .addr w_exit.cfa\n  .endblock\ndict_head .addr w_COUNT\n"
    );
}

#[test]
fn defined_compiles_with_define() {
    let src = "[DEFINED] DEBUG [IF] : TRACE ( … ) ; [THEN]";
    let with = compile(AttGen::new(), src, Some("DEBUG")).unwrap();
    assert_eq!(
        with,
        "    HIGH_W w_TRACE 5 \"TRACE\" flgs=0\n    .int w_exit\ndict_head: .int dict_w_TRACE\n"
    );
    let without = compile(AttGen::new(), src, None).unwrap();
    assert_eq!(without, "dict_head: .int dict_0\n");
}

#[test]
fn s_quote_in_definition() {
    assert_eq!(
        att(": GREET S\" HI\" ;"),
        "    HIGH_W w_GREET 5 \"GREET\" flgs=0\n    .int w_branch\n    .int _L002\n_L001:\n    .ascii \"HI\"\n_L002:\n    .int w_lit\n    .int _L001\n    .int w_lit\n    .int 2\n    .int w_exit\ndict_head: .int dict_w_GREET\n"
    );
}

fn compile_files(main: &str, files: &[(&str, &str)]) -> String {
    let mut f = Fth::new(AttGen::new(), None);
    f.input_mgr.push_source(main.as_bytes().to_vec());
    f.prolog();
    loop {
        match f.interpret() {
            Ok(None) => break,
            Ok(Some(name)) => {
                let text = files.iter().find(|(n, _)| *n == name.as_str()).unwrap().1;
                f.input_mgr.push_source(text.as_bytes().to_vec());
            }
            Err(e) => panic!("{:?}", e.kind),
        }
    }
    f.gen.output().clone()
}

const NO_DICT: &str = "dict_head: .int dict_0\n";

#[test]
fn variables_att() {
    assert_eq!(
        att("VARIABLE X 2VARIABLE Y"),
        "    HIGH_W w_X 1 \"X\" act=w_do_var\n    .int 0\n    HIGH_W w_Y 1 \"Y\" act=w_do_var\n    .int 0\n    .int 0\ndict_head: .int dict_w_Y\n"
    );
}

#[test]
fn xallot_att() {
    assert_eq!(att("16 XALLOT"), format!("    .space 16\n{NO_DICT}"));
}

#[test]
fn code_word_att() {
    assert_eq!(
        att("CODE DUP2\n  pushl %eax\nEND-CODE\n"),
        "    CODE_W w_DUP2 4 \"DUP2\" flgs=0\n  pushl %eax\n    NEXT\ndict_head: .int dict_w_DUP2\n"
    );
}

#[test]
fn verbatim_att() {
    assert_eq!(
        att("VERBATIM\n.data\nEND-VERBATIM\n: A ;"),
        ".data\n    HIGH_W w_A 1 \"A\" flgs=0\n    .int w_exit\ndict_head: .int dict_w_A\n"
    );
}

#[test]
fn headless_code_att() {
    assert_eq!(att("HEADLESSCODE\nnop\nEND-CODE\n"), format!("nop\n{NO_DICT}"));
}

#[test]
fn begin_while_repeat_att() {
    assert_eq!(
        att(": W BEGIN DUP WHILE 1- REPEAT ;"),
        "    HIGH_W w_W 1 \"W\" flgs=0\n_L001:\n    .int w_DUP\n    .int w_qbranch\n    .int _L002\n    .int w_1minus\n    .int w_branch\n    .int _L001\n_L002:\n    .int w_exit\ndict_head: .int dict_w_W\n"
    );
}

#[test]
fn begin_until_att() {
    assert_eq!(
        att(": U BEGIN 1 UNTIL ;"),
        "    HIGH_W w_U 1 \"U\" flgs=0\n_L001:\n    .int w_lit\n    .int 1\n    .int w_qbranch\n    .int _L001\n    .int w_exit\ndict_head: .int dict_w_U\n"
    );
}

#[test]
fn begin_again_att() {
    assert_eq!(
        att(": G BEGIN AGAIN ;"),
        "    HIGH_W w_G 1 \"G\" flgs=0\n_L001:\n    .int w_branch\n    .int _L001\n    .int w_exit\ndict_head: .int dict_w_G\n"
    );
}

#[test]
fn if_else_then_att() {
    assert_eq!(
        att(": E IF 1 ELSE 2 THEN ;"),
        "    HIGH_W w_E 1 \"E\" flgs=0\n    .int w_qbranch\n    .int _L001\n    .int w_lit\n    .int 1\n    .int w_branch\n    .int _L002\n_L001:\n    .int w_lit\n    .int 2\n_L002:\n    .int w_exit\ndict_head: .int dict_w_E\n"
    );
}

#[test]
fn leave_plus_loop_att() {
    assert_eq!(
        att(": L 10 0 DO LEAVE 2 +LOOP ;"),
        "    HIGH_W w_L 1 \"L\" flgs=0\n    .int w_lit\n    .int 10\n    .int w_lit\n    .int 0\n    .int w_2to_r\n_L001:\n    .int w_branch\n    .int _L002\n    .int w_lit\n    .int 2\n    .int w_do_plus_loop1\n    .int _L001\n_L002:\n    .int w_unloop\n    .int w_exit\ndict_head: .int dict_w_L\n"
    );
}

#[test]
fn case_of_att() {
    assert_eq!(
        att(": C CASE 1 OF 10 ENDOF ENDCASE ;"),
        "    HIGH_W w_C 1 \"C\" flgs=0\n    .int w_lit\n    .int 1\n    .int w_over\n    .int w_equals\n    .int w_qbranch\n    .int _L002\n    .int w_drop\n    .int w_lit\n    .int 10\n    .int w_branch\n    .int _L001\n_L002:\n    .int w_drop\n_L001:\n    .int w_exit\ndict_head: .int dict_w_C\n"
    );
}

#[test]
fn dot_quote_att() {
    assert_eq!(
        att(": P .\" OK\" ;"),
        "    HIGH_W w_P 1 \"P\" flgs=0\n    .int w_branch\n    .int _L002\n_L001:\n    .ascii \"OK\"\n_L002:\n    .int w_lit\n    .int _L001\n    .int w_lit\n    .int 2\n    .int w_type\n    .int w_exit\ndict_head: .int dict_w_P\n"
    );
}

#[test]
fn abort_quote_att() {
    assert_eq!(
        att(": Q ABORT\" BAD\" ;"),
        "    HIGH_W w_Q 1 \"Q\" flgs=0\n    .int w_qbranch\n    .int _L001\n    .int w_branch\n    .int _L002\n_L003:\n    .ascii \"BAD\"\n_L002:\n    .int w_lit\n    .int _L003\n    .int w_lit\n    .int 3\n    .int w_type\n    .int w_cr\n    .int w_abort\n_L001:\n    .int w_exit\ndict_head: .int dict_w_Q\n"
    );
}

#[test]
fn bracket_tick_att() {
    assert_eq!(
        att(": T ['] DUP ;"),
        "    HIGH_W w_T 1 \"T\" flgs=0\n    .int w_lit\n    .int w_DUP\n    .int w_exit\ndict_head: .int dict_w_T\n"
    );
}

#[test]
fn next_immediate_flags_header() {
    assert_eq!(
        att("NEXT_IMMEDIATE : I ; : J ;"),
        "    HIGH_W w_I 1 \"I\" flgs=1\n    .int w_exit\n    HIGH_W w_J 1 \"J\" flgs=0\n    .int w_exit\ndict_head: .int dict_w_J\n"
    );
}

#[test]
fn paren_comment_skipped() {
    assert_eq!(att(": A ( x -- y ) ;"), att(": A ;"));
}

#[test]
fn lowercase_active_words() {
    assert_eq!(
        att(": sq dup * ;"),
        "    HIGH_W w_sq 2 \"sq\" flgs=0\n    .int w_dup\n    .int w_star\n    .int w_exit\ndict_head: .int dict_w_sq\n"
    );
    assert_eq!(att(": a 0 if then ;"), att(": a 0 IF THEN ;"));
}

#[test]
fn any_whitespace_separates() {
    assert_eq!(att(":\tA\n\r DUP\x0c;"), att(": A DUP ;"));
}

#[test]
fn literal_truncated_to_cell() {
    assert_eq!(
        att(": X 0x100000001 ;"),
        "    HIGH_W w_X 1 \"X\" flgs=0\n    .int w_lit\n    .int 1\n    .int w_exit\ndict_head: .int dict_w_X\n"
    );
    assert_eq!(
        ca(": X 65535 ;"),
        "w_X    .HIGH_W 1, \"X\", , 0, 0\n  .block\n    .word w_lit.cfa\n    .sint -1\n    .addr w_exit.cfa\n  .endblock\ndict_head .addr w_X\n"
    );
}

#[test]
fn binary_and_negative_literals() {
    assert_eq!(att(": X 0b101 -7 ;"), att(": X 5 -7 ;"));
    assert!(att(": X -7 ;").contains("    .int -7\n"));
}

#[test]
fn constant_6502() {
    assert_eq!(
        ca("-5 CONSTANT NEG"),
        "w_NEG    .HIGH_W 3, \"NEG\", w_const, , 0\n    .sint -5\ndict_head .addr w_NEG\n"
    );
}

#[test]
fn variable_6502() {
    assert_eq!(
        ca("VARIABLE v"),
        "w_v    .HIGH_W 1, \"V\", w_var, , 0\n    .word 0\ndict_head .addr w_v\n"
    );
}

#[test]
fn code_6502() {
    assert_eq!(
        ca("CODE X\nrts\nEND-CODE"),
        "w_X    .CODE_W 1, \"X\", 0, 0\n  .block\nrts\n    NEXT\n  .endblock\ndict_head .addr w_X\n"
    );
}

#[test]
fn dictionary_chain_6502() {
    assert_eq!(
        ca(": A ; : B ;"),
        "w_A    .HIGH_W 1, \"A\", , 0, 0\n  .block\n    .addr w_exit.cfa\n  .endblock\nw_B    .HIGH_W 1, \"B\", , 0, w_A\n  .block\n    .addr w_exit.cfa\n  .endblock\ndict_head .addr w_B\n"
    );
}

#[test]
fn allot_and_string_6502() {
    assert_eq!(ca("3 XALLOT"), "    .fill 3\ndict_head .addr 0\n");
    assert!(ca(": S S\" A\" ;").contains("    .text \"A\"\n_L002\n"));
}

#[test]
fn quote_in_name_escaped() {
    assert_eq!(
        att(": A\"b ;"),
        "    HIGH_W w_Aquote_b 3 \"A\\\"b\" flgs=0\n    .int w_exit\ndict_head: .int dict_w_Aquote_b\n"
    );
    assert_eq!(
        ca(": A\"b ;"),
        "w_Aquote_b    .HIGH_W 3, \"A\"\"B\", , 0, 0\n  .block\n    .addr w_exit.cfa\n  .endblock\ndict_head .addr w_Aquote_b\n"
    );
}

#[test]
fn unknown_words_outside_definition_ignored() {
    assert_eq!(att("FOO BAR"), NO_DICT);
}

#[test]
fn numbers_outside_definition_go_to_data_stack() {
    assert_eq!(att("7 8 CONSTANT B CONSTANT A"), att("8 CONSTANT B 7 CONSTANT A"));
    assert!(!att("7 DROP").contains("w_lit"));
}

#[test]
fn then_without_if_fails() {
    assert_eq!(att_err(": A THEN ;"), ErrKind::StackUnderflow);
}

#[test]
fn constant_without_value_fails() {
    assert_eq!(att_err("CONSTANT X"), ErrKind::StackUnderflow);
}

#[test]
fn colon_at_end_of_input_fails() {
    assert_eq!(att_err(":"), ErrKind::Syntax);
}

#[test]
fn unterminated_string_fails() {
    assert_eq!(att_err(": A S\" abc"), ErrKind::Syntax);
}

#[test]
fn bad_hex_literal_fails() {
    assert_eq!(att_err("0xZZ"), ErrKind::NumericFormat);
    assert_eq!(att_err("0b102"), ErrKind::NumericFormat);
}

#[test]
fn immediate_is_unimplemented() {
    assert_eq!(att_err("IMMEDIATE"), ErrKind::Unimplemented);
}

#[test]
fn open_structures_at_end_fail() {
    assert_eq!(att_err(": A 1 IF ;"), ErrKind::Syntax);
    assert_eq!(att_err(": A 10 0 DO ;"), ErrKind::Syntax);
    assert_eq!(att_err("1 [IF] : A ;"), ErrKind::Syntax);
}

#[test]
fn stray_conditional_words_fail() {
    assert_eq!(att_err("[THEN]"), ErrKind::StackUnderflow);
    assert_eq!(att_err("[ELSE]"), ErrKind::StackUnderflow);
    assert_eq!(att_err("[IF]"), ErrKind::StackUnderflow);
}

#[test]
fn negative_allot_fails() {
    assert_eq!(att_err("-1 XALLOT"), ErrKind::NumericFormat);
}

#[test]
fn missing_end_code_fails() {
    assert_eq!(att_err("CODE X\nnop\n"), ErrKind::Syntax);
}

#[test]
fn loop_without_do_fails() {
    assert_eq!(att_err(": A LOOP ;"), ErrKind::StackUnderflow);
    assert_eq!(att_err(": A LEAVE ;"), ErrKind::StackUnderflow);
}

#[test]
fn true_if_is_transparent() {
    assert_eq!(att("1 [IF] : A DUP ; [THEN]"), att(": A DUP ;"));
    assert_eq!(att("1 [IF] : A ; [ELSE] : B ; [THEN]"), att(": A ;"));
}

#[test]
fn false_if_drops_block() {
    assert_eq!(att("0 [IF] : A DUP ; [THEN] : B ;"), att(": B ;"));
    assert_eq!(att("0 [IF] 1 [IF] : X ; [ELSE] : Y ; [THEN] [THEN]"), NO_DICT);
    assert_eq!(att("0 [IF] : A ; [ELSE] : B ; [THEN]"), att(": B ;"));
}

#[test]
fn include_is_transparent() {
    assert_eq!(
        compile_files("INCLUDE lib.fs : B A ;", &[("lib.fs", ": A ;\n")]),
        att(": A ;\n : B A ;")
    );
}

#[test]
fn labels_are_fresh() {
    let out = att(": A IF IF THEN THEN BEGIN AGAIN ;");
    assert!(out.contains("_L001:\n") && out.contains("_L002:\n") && out.contains("_L003:\n"));
    assert_eq!(out.matches("_L002:\n").count(), 1);
}

#[test]
fn constant_keeps_32_bits_on_6502() {
    assert_eq!(
        ca("70000 CONSTANT BIG"),
        "w_BIG    .HIGH_W 3, \"BIG\", w_const, , 0\n    .word 70000\ndict_head .addr w_BIG\n"
    );
}

#[test]
fn defined_pushes_flag() {
    assert_eq!(
        compile(AttGen::new(), "[DEFINED] A CONSTANT X [DEFINED] B CONSTANT Y", Some("A,C")).unwrap(),
        "    HIGH_W w_X 1 \"X\" act=w_do_const\n    .int -1\n    HIGH_W w_Y 1 \"Y\" act=w_do_const\n    .int 0\ndict_head: .int dict_w_Y\n"
    );
}

fn att_error(src: &str) -> FthError {
    compile(AttGen::new(), src, None).unwrap_err()
}

#[test]
fn include_without_trailing_newline() {
    assert_eq!(
        compile_files("INCLUDE lib.fs : B A ;", &[("lib.fs", ": A DUP ;")]),
        att(": A DUP ; : B A ;")
    );
}

#[test]
fn errors_name_the_word() {
    let e = att_error("CONSTANT X");
    assert_eq!((e.kind, e.context.as_str()), (ErrKind::StackUnderflow, "CONSTANT"));
    let e = att_error("[IF]");
    assert_eq!((e.kind, e.context.as_str()), (ErrKind::StackUnderflow, "[IF]"));
    let e = att_error(": A ELSE ;");
    assert_eq!((e.kind, e.context.as_str()), (ErrKind::StackUnderflow, "ELSE"));
    let e = att_error(": A LOOP ;");
    assert_eq!((e.kind, e.context.as_str()), (ErrKind::StackUnderflow, "LOOP"));
    let e = att_error(": A 1 IF ;");
    assert_eq!((e.kind, e.context.as_str()), (ErrKind::Syntax, "end of input"));
    let e = att_error("0xZZ");
    assert_eq!((e.kind, e.context.as_str()), (ErrKind::NumericFormat, "0xZZ"));
}

#[test]
fn token_dispatch_uses_given_uppercase() {
    let mut f = Fth::new(AttGen::new(), None);
    assert_eq!(f.interpret_token(":".to_string(), ":").unwrap_err().kind, ErrKind::Syntax);
    let mut f = Fth::new(AttGen::new(), None);
    f.input_mgr.push_source(b"sq dup ;".to_vec());
    assert_eq!(f.interpret_token(":".to_string(), ":").unwrap(), None);
    assert_eq!(f.interpret_token("if".to_string(), "IF").unwrap(), None);
    assert!(f.gen.output().ends_with("    .int w_qbranch\n    .int _L001\n"));
}

#[test]
fn label_counter_and_numbers() {
    let mut f = Fth::new(AttGen::new(), None);
    assert_eq!(f.new_label(), "_L001");
    assert_eq!(f.new_label(), "_L002");
    assert_eq!(f.do_number(7).unwrap(), None);
    assert_eq!(f.data_stack, vec![7]);
    assert_eq!(f.gen.output(), "");
}
