use broken_field::bytebeat::generate::{
    random_bi, random_bifloat, random_comp, random_literal, random_trig, random_var,
};
use broken_field::bytebeat::{
    apply_cmd, compile, draw_like, eval_beat, format_beat, format_cmd, mutate, mutated,
    parse_beat, pending,
    random_beat, BiFloatType, BiType, Cmd, CompType, ErrorKind, Inputs, LiteralType, ParseError,
    Program, RealOp, TrigType, Val, VarType,
};
use broken_field::bytebeat::Cmd::{
    Arr, Bi, BiFloat, Comment, Comp, Cond, Literal, Meta, Trig, Var,
};
use rand::rngs::mock::StepRng;
use rand::rngs::StdRng;
use rand::{Rng, SeedableRng};

fn unit(op: RealOp) -> u64 {
    let num = |bits: u64| f64::from_bits(bits);
    let result = match op {
        RealOp::Trig(TrigType::Sin, a) => num(a).sin(),
        RealOp::Trig(TrigType::Cos, a) => num(a).cos(),
        RealOp::Trig(TrigType::Tan, a) => num(a).tan(),
        RealOp::Bi(BiFloatType::Pow, a, b) => num(a).powf(num(b)),
        RealOp::Bi(BiFloatType::AddF, a, b) => num(a) + num(b),
        RealOp::Bi(BiFloatType::SubF, a, b) => num(a) - num(b),
        RealOp::Bi(BiFloatType::MulF, a, b) => num(a) * num(b),
        RealOp::Bi(BiFloatType::DivF, a, b) => num(a) / num(b),
        RealOp::Bi(BiFloatType::ModF, a, b) => num(a) % num(b),
    };
    result.to_bits()
}

fn no_unit(_: RealOp) -> u64 {
    panic!("no real arithmetic expected")
}

fn unit_real(drawn: u64) -> u64 {
    StepRng::new(drawn, 0).gen::<f64>().to_bits()
}

fn read_real(word: &str) -> Option<u64> {
    word.parse::<f64>().ok().map(f64::to_bits)
}

fn show_real(bits: u64) -> String {
    format!("{}", f64::from_bits(bits))
}

fn rv(x: f64) -> Val {
    Val::F(x.to_bits())
}

fn program(text: &str) -> Program {
    compile(parse_beat(text, &read_real).unwrap()).unwrap()
}

fn eval_t(text: &str, t: i64) -> Val {
    let mut stack = Vec::new();
    let zero = Val::I(0);
    eval_beat(&mut stack, &program(text), Val::I(t), zero, zero, zero, zero, zero, zero, &unit)
}

fn eval(text: &str) -> Val {
    eval_t(text, 0)
}

fn is_int(val: Val, x: i64) -> bool {
    matches!(val, Val::I(y) if y == x)
}

fn is_real(val: Val, x: f64) -> bool {
    matches!(val, Val::F(y) if y == x.to_bits())
}

#[test]
fn comment_only_program_is_empty() {
    let error = compile(vec![Cmd::Comment("hi".to_string())]).unwrap_err();
    assert_eq!(error.error_kind(), &ErrorKind::EmptyProgram);
    assert_eq!(error.as_code(), &[Cmd::Comment("hi".to_string())]);
    let error = compile(vec![Cmd::Meta("a".to_string(), "b".to_string())]).unwrap_err();
    assert_eq!(error.error_kind(), &ErrorKind::EmptyProgram);
    let error = compile(vec![]).unwrap_err();
    assert_eq!(error.error_kind(), &ErrorKind::EmptyProgram);
    assert_eq!(error.into_code(), vec![]);
}

#[test]
fn lone_operator_underflows() {
    let error = compile(vec![Cmd::Bi(BiType::Add)]).unwrap_err();
    assert_eq!(
        error.error_kind(),
        &ErrorKind::UnderflowedStack { index: 0, stack_size: 0 }
    );
    assert_eq!(error.into_code(), vec![Cmd::Bi(BiType::Add)]);
}

fn underflow(text: &str) -> (usize, isize) {
    let cmds = parse_beat(text, &read_real).unwrap();
    match *compile(cmds).unwrap_err().error_kind() {
        ErrorKind::UnderflowedStack { index, stack_size } => (index, stack_size),
        ErrorKind::EmptyProgram => panic!("empty program"),
    }
}

#[test]
fn underflow_reports_first_failing_command() {
    assert_eq!(underflow("t +"), (1, 1));
    assert_eq!(underflow("t t + +"), (3, 1));
    assert_eq!(underflow("sin"), (0, 0));
    assert_eq!(underflow("t t ?"), (2, 2));
    assert_eq!(underflow("1 2 3 [3"), (3, 3));
    assert_eq!(underflow("[0"), (0, 0));
    assert_eq!(underflow("t <"), (1, 1));
    assert_eq!(underflow("t 1 + - 3"), (3, 1));
    assert_eq!(underflow("#c !k:v + t"), (2, 0));
}

#[test]
fn annotations_do_not_count_for_the_depth() {
    assert!(compile(parse_beat("#title t 2 %", &read_real).unwrap()).is_ok());
    assert!(compile(parse_beat("!a:b t #end", &read_real).unwrap()).is_ok());
    assert!(is_int(eval_t("#five t !k:v 2 % #done", 5), 1));
}

#[test]
fn programs_must_leave_exactly_one_value() {
    for text in ["1 2", "t t", "t t t +", "1 2 3 0 [2", "#c 1 !k:v 2"] {
        let cmds = parse_beat(text, &read_real).unwrap();
        let error = compile(cmds.clone()).unwrap_err();
        assert_eq!(error.error_kind(), &ErrorKind::EmptyProgram, "{}", text);
        assert_eq!(error.as_code(), &cmds[..]);
    }
    for text in ["1", "t t +", "1 2 3 0 [3", "1 2 3 ?"] {
        assert!(compile(parse_beat(text, &read_real).unwrap()).is_ok(), "{}", text);
    }
    // an array of size 0 counts for nothing, though it pushes a value
    assert!(is_int(eval("1 [0"), 0));
}

#[test]
fn frame_modulo_two() {
    assert!(is_int(eval_t("t 2 %", 5), 1));
    assert!(is_int(eval_t("t 2 %", 4), 0));
}

#[test]
fn division_by_zero_gives_zero() {
    assert!(is_int(eval("5 0 /"), 0));
    assert!(is_int(eval("5 0 %"), 0));
    assert!(is_real(eval("5.0 0.0 /."), 0.0));
    assert!(is_real(eval("5.0 0.0 %."), 0.0));
    assert!(is_real(eval("5.0 -0.0 /."), 0.0));
    assert!(is_real(eval("5 0 /."), 0.0));
}

#[test]
fn division_by_zero_asks_nothing_of_the_unit() {
    let mut stack = Vec::new();
    let zero = Val::I(0);
    let p = program("5.0 0.0 /. 3 0 % +");
    let res = eval_beat(&mut stack, &p, zero, zero, zero, zero, zero, zero, zero, &no_unit);
    assert!(is_int(res, 0));
}

#[test]
fn array_index_wraps() {
    let pick = |index: i64| {
        let mut stack = Vec::new();
        let zero = Val::I(0);
        let p = program("1 2 3 t [3");
        eval_beat(&mut stack, &p, Val::I(index), zero, zero, zero, zero, zero, zero, &unit)
    };
    assert!(is_int(pick(0), 1));
    assert!(is_int(pick(1), 2));
    assert!(is_int(pick(2), 3));
    assert!(is_int(pick(-1), 3));
    assert!(is_int(pick(3), 1));
    assert!(is_int(pick(4), 2));
    assert!(is_int(pick(-3), 1));
    assert!(is_int(pick(i64::MIN), 2));
    assert!(is_int(pick(i64::MAX), 2));
    assert!(is_int(eval("1 2 3 4 [3"), 2));
}

#[test]
fn array_takes_its_group_from_the_stack() {
    let mut stack = Vec::new();
    let zero = Val::I(0);
    let p = program("9 1 2 3 1 [3 +");
    let res = eval_beat(&mut stack, &p, zero, zero, zero, zero, zero, zero, zero, &unit);
    assert!(is_int(res, 11));
    assert!(stack.is_empty());
}

#[test]
fn array_of_size_zero_pushes_zero() {
    assert!(is_int(eval("7 [0"), 0));
    let mut stack = vec![Val::I(4)];
    let inputs = inputs_of(0);
    apply_cmd(&mut stack, &Cmd::Arr(0), &inputs, 0);
    assert_eq!(stack.len(), 2);
    assert!(is_int(stack[1], 0));
}

fn inputs_of(t: i64) -> Inputs {
    Inputs {
        t: Val::I(t),
        mouse_x: Val::I(1),
        mouse_y: Val::I(2),
        screen_x: Val::I(3),
        screen_y: Val::I(4),
        key_x: Val::I(5),
        key_y: Val::I(6),
    }
}

#[test]
fn variables_push_their_inputs() {
    let mut stack = Vec::new();
    let p = program("t mx my sx sy kx ky 6 [7");
    let res = eval_beat(
        &mut stack,
        &p,
        Val::I(10),
        Val::I(11),
        Val::I(12),
        Val::I(13),
        Val::I(14),
        Val::I(15),
        rv(1.5),
        &unit,
    );
    assert!(is_real(res, 1.5));
    assert!(stack.is_empty());
    for (index, expected) in [10, 11, 12, 13, 14, 15].into_iter().enumerate() {
        let p = program(&format!("t mx my sx sy kx ky {} [7", index));
        let res = eval_beat(
            &mut stack,
            &p,
            Val::I(10),
            Val::I(11),
            Val::I(12),
            Val::I(13),
            Val::I(14),
            Val::I(15),
            rv(1.5),
            &unit,
        );
        assert!(is_int(res, expected));
    }
    assert_eq!(inputs_of(9).get(VarType::Frame).to_int(), 9);
    assert_eq!(inputs_of(9).get(VarType::KeyboardY).to_int(), 6);
}

#[test]
fn binary_operators_bind_the_lower_value_first() {
    assert!(is_int(eval("10 3 -"), 7));
    assert!(is_int(eval("10 3 /"), 3));
    assert!(is_int(eval("10 3 %"), 1));
    assert!(is_int(eval("1 4 <<"), 16));
    assert!(is_int(eval("-16 2 >>"), -4));
    assert!(is_int(eval("12 10 &"), 8));
    assert!(is_int(eval("12 10 |"), 14));
    assert!(is_int(eval("12 10 ^"), 6));
    assert!(is_int(eval("3 4 *"), 12));
    assert!(is_int(eval("3 4 +"), 7));
    assert!(is_int(eval("9223372036854775807 1 +"), i64::MIN));
    assert!(is_int(eval("0xFF 0x0F &"), 15));
}

#[test]
fn integer_operators_truncate_reals() {
    assert!(is_int(eval("7.9 2.9 +"), 9));
    assert!(is_int(eval("-7.9 2 /"), -3));
}

#[test]
fn real_operators() {
    assert!(is_real(eval("1.5 2.25 +."), 3.75));
    assert!(is_real(eval("1.5 2.25 -."), -0.75));
    assert!(is_real(eval("1.5 2.0 *."), 3.0));
    assert!(is_real(eval("3.0 2.0 /."), 1.5));
    assert!(is_real(eval("7.5 2.0 %."), 1.5));
    assert!(is_real(eval("2.0 10.0 pow"), 1024.0));
    assert!(is_real(eval("3 2 /."), 1.5));
    assert!(is_real(eval("0.0 sin"), 0.0));
    assert!(is_real(eval("0 cos"), 1.0));
    assert!(is_real(eval("1.0 tan"), 1.0f64.tan()));
    assert!(is_real(eval("2 sin"), 2.0f64.sin()));
}

#[test]
fn comparisons_push_one_or_zero() {
    assert!(is_int(eval("1 2 <"), 1));
    assert!(is_int(eval("2 1 <"), 0));
    assert!(is_int(eval("2 1 >"), 1));
    assert!(is_int(eval("2 2 <="), 1));
    assert!(is_int(eval("3 2 <="), 0));
    assert!(is_int(eval("2 2 >="), 1));
    assert!(is_int(eval("2 2 =="), 1));
    assert!(is_int(eval("2 3 =="), 0));
    assert!(is_int(eval("2 3 !="), 1));
    assert!(is_int(eval("2 2.0 =="), 1));
    assert!(is_int(eval("2 2.5 <"), 1));
    assert!(is_int(eval("2.5 2 >"), 1));
    assert!(is_int(eval("2.5 2 !="), 1));
    assert!(is_int(eval("0.0 0.0 /. 1 <"), 1));
}

#[test]
fn comparisons_with_no_number_are_false() {
    let nan = Val::F(f64::NAN.to_bits());
    for (op, expected) in [
        (CompType::Lt, 0),
        (CompType::Gt, 0),
        (CompType::Leq, 0),
        (CompType::Geq, 0),
        (CompType::Eq, 0),
        (CompType::Neq, 1),
    ] {
        let mut stack = vec![nan, Val::I(1)];
        apply_cmd(&mut stack, &Cmd::Comp(op), &inputs_of(0), 0);
        assert_eq!(stack.len(), 1);
        assert!(is_int(stack[0], expected));
    }
}

#[test]
fn conditional_selects_by_the_top() {
    assert!(is_int(eval("10 20 1 ?"), 10));
    assert!(is_int(eval("10 20 0 ?"), 20));
    assert!(is_int(eval("10 20 0.0 ?"), 20));
    assert!(is_int(eval("10 20 0.5 ?"), 10));
    assert!(is_int(eval("10 20 -3 ?"), 10));
    assert!(is_int(eval_t("t 3 % 100 200 t 2 % ? +", 5), 102));
}

#[test]
fn literals_push_their_values() {
    assert!(is_int(eval("42"), 42));
    assert!(is_int(eval("-42"), -42));
    assert!(is_int(eval("0x2A"), 42));
    assert!(is_int(eval("0x2a"), 42));
    assert!(is_real(eval("4.25"), 4.25));
    assert!(is_real(eval("-.5"), -0.5));
}

#[test]
fn evaluation_clears_the_stack_first() {
    let mut stack = vec![Val::I(1), Val::I(2), Val::I(3)];
    let zero = Val::I(0);
    let res = eval_beat(&mut stack, &program("5"), zero, zero, zero, zero, zero, zero, zero, &unit);
    assert!(is_int(res, 5));
    assert!(stack.is_empty());
}

#[test]
fn evaluation_is_repeatable() {
    let p = program("t sx * sy 3 >> ^ 2.5 *. sin t 7 % +.");
    let mut stack = Vec::new();
    for t in 0..50 {
        let once = eval_beat(
            &mut stack, &p, Val::I(t), Val::I(3), Val::I(4), Val::I(t * 5), Val::I(6),
            Val::I(7), Val::I(8), &unit,
        );
        let twice = eval_beat(
            &mut stack, &p, Val::I(t), Val::I(3), Val::I(4), Val::I(t * 5), Val::I(6),
            Val::I(7), Val::I(8), &unit,
        );
        match (once, twice) {
            (Val::F(a), Val::F(b)) => assert_eq!(a, b),
            _ => panic!("expected reals"),
        }
    }
}

#[test]
fn pending_names_the_request() {
    let stack = vec![Val::I(2), rv(0.5)];
    assert_eq!(
        pending(&stack, &Cmd::Trig(TrigType::Cos)),
        Some(RealOp::Trig(TrigType::Cos, 0.5f64.to_bits()))
    );
    assert_eq!(
        pending(&stack, &Cmd::BiFloat(BiFloatType::Pow)),
        Some(RealOp::Bi(BiFloatType::Pow, 2.0f64.to_bits(), 0.5f64.to_bits()))
    );
    assert_eq!(pending(&stack, &Cmd::Bi(BiType::Add)), None);
    let by_zero = vec![Val::I(2), Val::I(0)];
    assert_eq!(pending(&by_zero, &Cmd::BiFloat(BiFloatType::DivF)), None);
    assert_eq!(pending(&by_zero, &Cmd::BiFloat(BiFloatType::ModF)), None);
    assert_eq!(
        pending(&by_zero, &Cmd::BiFloat(BiFloatType::MulF)),
        Some(RealOp::Bi(BiFloatType::MulF, 2.0f64.to_bits(), 0))
    );
}

#[test]
fn apply_uses_the_answer_only_where_asked() {
    let mut stack = vec![rv(1.0)];
    apply_cmd(&mut stack, &Cmd::Trig(TrigType::Sin), &inputs_of(0), 77);
    assert!(matches!(stack[..], [Val::F(77)]));
    let mut stack = vec![Val::I(1), Val::I(0)];
    apply_cmd(&mut stack, &Cmd::BiFloat(BiFloatType::DivF), &inputs_of(0), 77);
    assert!(matches!(stack[..], [Val::F(0)]));
    let mut stack = vec![Val::I(1), Val::I(2)];
    apply_cmd(&mut stack, &Cmd::Bi(BiType::Add), &inputs_of(0), 77);
    assert!(matches!(stack[..], [Val::I(3)]));
}

#[test]
fn stack_changes() {
    assert_eq!(Cmd::Var(VarType::Frame).stack_change(), 1);
    assert_eq!(Cmd::Literal(LiteralType::NumI(1)).stack_change(), 1);
    assert_eq!(Cmd::Meta("a".into(), "b".into()).stack_change(), 0);
    assert_eq!(Cmd::Comment("a".into()).stack_change(), 0);
    assert_eq!(Cmd::Trig(TrigType::Sin).stack_change(), 0);
    assert_eq!(Cmd::Arr(0).stack_change(), 0);
    assert_eq!(Cmd::Arr(5).stack_change(), -5);
    assert_eq!(Cmd::Arr(usize::MAX).stack_change(), -isize::MAX);
    assert_eq!(Cmd::Cond.stack_change(), -2);
    assert_eq!(Cmd::Bi(BiType::Xor).stack_change(), -1);
    assert_eq!(Cmd::BiFloat(BiFloatType::Pow).stack_change(), -1);
    assert_eq!(Cmd::Comp(CompType::Eq).stack_change(), -1);
}

#[test]
fn metadata_is_collected() {
    let p = program("!title:one t !author:me !title:two 2 % !title:three");
    assert_eq!(p.meta("title"), Some("three"));
    assert_eq!(p.meta("author"), Some("me"));
    assert_eq!(p.meta("missing"), None);
    assert_eq!(p.all_meta("title"), vec!["one", "two", "three"]);
    assert_eq!(p.all_meta("author"), vec!["me"]);
    assert!(p.all_meta("missing").is_empty());
    assert_eq!(p.keys(), vec!["title", "author"]);
    assert!(program("t").keys().is_empty());
    assert_eq!(p.cmds().len(), 7);
}

#[test]
fn parse_reads_every_fixed_word() {
    let text = "t mx my sx sy kx ky + - * / % << >> & | ^ sin cos tan pow +. -. *. /. %. \
                < > <= >= == != ?";
    let expected = vec![
        Var(VarType::Frame),
        Var(VarType::MouseX),
        Var(VarType::MouseY),
        Var(VarType::ScreenX),
        Var(VarType::ScreenY),
        Var(VarType::KeyboardX),
        Var(VarType::KeyboardY),
        Bi(BiType::Add),
        Bi(BiType::Sub),
        Bi(BiType::Mul),
        Bi(BiType::Div),
        Bi(BiType::Mod),
        Bi(BiType::Shl),
        Bi(BiType::Shr),
        Bi(BiType::And),
        Bi(BiType::Orr),
        Bi(BiType::Xor),
        Trig(TrigType::Sin),
        Trig(TrigType::Cos),
        Trig(TrigType::Tan),
        BiFloat(BiFloatType::Pow),
        BiFloat(BiFloatType::AddF),
        BiFloat(BiFloatType::SubF),
        BiFloat(BiFloatType::MulF),
        BiFloat(BiFloatType::DivF),
        BiFloat(BiFloatType::ModF),
        Comp(CompType::Lt),
        Comp(CompType::Gt),
        Comp(CompType::Leq),
        Comp(CompType::Geq),
        Comp(CompType::Eq),
        Comp(CompType::Neq),
        Cond,
    ];
    assert_eq!(parse_beat(text, &read_real), Ok(expected.clone()));
    assert_eq!(format_beat(&expected, &show_real), text.replace("\\\n", ""));
}

#[test]
fn parse_reads_the_other_words() {
    assert_eq!(
        parse_beat("[3 [0 [+7 !k:v !a:b:c !: !x: #note # 0x1F 0x-a 12 -7 +3 1.5 2.5e3", &read_real),
        Ok(vec![
            Arr(3),
            Arr(0),
            Arr(7),
            Meta("k".into(), "v".into()),
            Meta("a".into(), "b".into()),
            Meta("".into(), "".into()),
            Meta("x".into(), "".into()),
            Comment("note".into()),
            Comment("".into()),
            Literal(LiteralType::Hex(31)),
            Literal(LiteralType::Hex(-10)),
            Literal(LiteralType::NumI(12)),
            Literal(LiteralType::NumI(-7)),
            Literal(LiteralType::NumI(3)),
            Literal(LiteralType::NumF(1.5f64.to_bits())),
            Literal(LiteralType::NumF(2500.0f64.to_bits())),
        ])
    );
}

#[test]
fn parse_splits_at_any_white_space() {
    let cmds = parse_beat("  t\t2\n%\u{a0}\u{3000} ", &read_real).unwrap();
    assert_eq!(cmds.len(), 3);
    assert_eq!(parse_beat("", &read_real), Ok(vec![]));
    assert_eq!(parse_beat(" \n ", &read_real), Ok(vec![]));
}

#[test]
fn parse_reports_the_first_bad_word() {
    assert_eq!(parse_beat("t [x 2", &read_real), Err(ParseError::BadArr("[x", 1)));
    assert_eq!(parse_beat("[", &read_real), Err(ParseError::BadArr("[", 0)));
    assert_eq!(parse_beat("t [-1", &read_real), Err(ParseError::BadArr("[-1", 1)));
    assert_eq!(
        parse_beat("[99999999999999999999999", &read_real),
        Err(ParseError::BadArr("[99999999999999999999999", 0))
    );
    assert_eq!(parse_beat("t  foo [x", &read_real), Err(ParseError::UnknownToken("foo", 1)));
    assert_eq!(parse_beat("1 2 0xZZ", &read_real), Err(ParseError::UnknownToken("0xZZ", 2)));
    assert_eq!(parse_beat("0x", &read_real), Err(ParseError::UnknownToken("0x", 0)));
    assert_eq!(parse_beat("1.2.3", &read_real), Err(ParseError::UnknownToken("1.2.3", 0)));
    assert_eq!(parse_beat("!key", &read_real), Err(ParseError::UnknownToken("!key", 0)));
    assert_eq!(
        parse_beat("9223372036854775808", &read_real),
        Err(ParseError::UnknownToken("9223372036854775808", 0))
    );
    assert_eq!(parse_beat("é ü", &read_real), Err(ParseError::UnknownToken("é", 0)));
    assert_eq!(parse_beat("t ü.", &read_real), Err(ParseError::UnknownToken("ü.", 1)));
}

#[test]
fn format_writes_each_kind_of_word() {
    let cmds = vec![
        Literal(LiteralType::NumF(5.0f64.to_bits())),
        Literal(LiteralType::NumF(0.25f64.to_bits())),
        Literal(LiteralType::NumF(1e300f64.to_bits())),
        Literal(LiteralType::NumI(0)),
        Literal(LiteralType::NumI(-120)),
        Literal(LiteralType::NumI(i64::MIN)),
        Literal(LiteralType::NumI(i64::MAX)),
        Literal(LiteralType::Hex(255)),
        Literal(LiteralType::Hex(0)),
        Literal(LiteralType::Hex(-1)),
        Arr(12),
        Arr(0),
        Meta("k".into(), "v".into()),
        Comment("note".into()),
    ];
    let expected: Vec<String> = cmds
        .iter()
        .map(|cmd| match cmd {
            Literal(LiteralType::NumF(y)) => {
                let buf = format!("{}", f64::from_bits(*y));
                if buf.contains('.') { buf } else { format!("{}.0", buf) }
            }
            Literal(LiteralType::NumI(y)) => format!("{}", y),
            Literal(LiteralType::Hex(y)) => format!("0x{:X}", y),
            Arr(size) => format!("[{}", size),
            Meta(k, v) => format!("!{}:{}", k, v),
            Comment(text) => format!("#{}", text),
            _ => unreachable!(),
        })
        .collect();
    assert_eq!(format_beat(&cmds, &show_real), expected.join(" "));
    assert_eq!(format_cmd(&cmds[0], "5"), "5.0");
    assert_eq!(format_cmd(&cmds[1], "0.25"), "0.25");
    assert_eq!(format_cmd(&cmds[9], ""), "0xFFFFFFFFFFFFFFFF");
    assert_eq!(format_beat(&[], &show_real), "");
}

#[test]
fn format_then_parse_gives_the_commands_back() {
    let text = "t 2 % 0x1F 17 -3 [4 !k:v #c sin 1.5 2.0 pow <= ?";
    let cmds = parse_beat(text, &read_real).unwrap();
    let written = format_beat(&cmds, &show_real);
    assert_eq!(written, "t 2 % 0x1F 17 -3 [4 !k:v #c sin 1.5 2.0 pow <= ?");
    assert_eq!(parse_beat(&written, &read_real), Ok(cmds));
    // a real literal without a point gets one
    let five = vec![Cmd::Literal(LiteralType::NumF(5.0f64.to_bits()))];
    assert_eq!(format_beat(&five, &show_real), "5.0");
    assert_eq!(parse_beat("5.0", &read_real), Ok(five));
}

#[test]
fn random_programs_round_trip_through_text() {
    let mut rng = StdRng::seed_from_u64(21);
    for length in 0..40 {
        let p = random_beat(length, &mut rng);
        let text = format_beat(p.cmds(), &show_real);
        assert_eq!(&parse_beat(&text, &read_real).unwrap(), p.cmds());
    }
}

#[test]
fn random_programs_compile_and_leave_one_value() {
    let mut rng = StdRng::seed_from_u64(22);
    for length in 0..60 {
        for _ in 0..5 {
            let p = random_beat(length, &mut rng);
            assert!(p.cmds().len() >= length.max(1));
            let depth: isize = p.cmds().iter().map(|c| c.stack_change()).sum();
            assert_eq!(depth, 1);
            assert!(p.cmds().iter().all(|c| matches!(c, Cmd::Var(_) | Cmd::Bi(_))));
            assert!(compile(p.cmds().clone()).is_ok());
            let mut stack = Vec::new();
            let one = Val::I(1);
            eval_beat(&mut stack, &p, one, one, one, one, one, one, one, &no_unit);
            assert!(stack.is_empty());
        }
    }
}

#[test]
fn random_beats_differ_between_draws() {
    let mut rng = StdRng::seed_from_u64(23);
    let first = format_beat(random_beat(30, &mut rng).cmds(), &show_real);
    let mut differs = false;
    for _ in 0..10 {
        differs |= format_beat(random_beat(30, &mut rng).cmds(), &show_real) != first;
    }
    assert!(differs);
}

fn family(cmd: &Cmd) -> u8 {
    match cmd {
        Cmd::Var(_) => 0,
        Cmd::Literal(_) => 1,
        Cmd::Bi(_) => 2,
        Cmd::Trig(_) => 3,
        Cmd::BiFloat(_) => 4,
        Cmd::Comp(_) => 5,
        Cmd::Cond => 6,
        Cmd::Arr(_) => 7,
        Cmd::Meta(_, _) => 8,
        Cmd::Comment(_) => 9,
    }
}

#[test]
fn mutation_stays_in_the_family_and_compiles() {
    let mut rng = StdRng::seed_from_u64(24);
    let p = program("t 2.5 *. sin mx 3 + 0x10 < 7 pow my - cos 1 >= kx ^ |");
    for &(n, d) in &[(1u32, 2u32), (3, 20), (1, 1), (7, 3), (1, 0)] {
        for _ in 0..20 {
            let mutant = mutate(&p, n, d, &mut rng, &unit_real);
            assert_eq!(mutant.cmds().len(), p.cmds().len());
            for (a, b) in p.cmds().iter().zip(mutant.cmds()) {
                assert_eq!(family(a), family(b));
            }
            assert!(compile(mutant.cmds().clone()).is_ok());
        }
    }
}

#[test]
fn mutation_with_zero_chance_copies_any_program() {
    let mut rng = StdRng::seed_from_u64(25);
    let p = program("!k:v 9 1 2 3 0 [3 #c 4 5 ? +");
    let copy = mutate(&p, 0, 1, &mut rng, &unit_real);
    assert_eq!(copy.cmds(), p.cmds());
    assert_eq!(copy.meta("k"), Some("v"));
    let copy = mutate(&p, 0, 0, &mut rng, &unit_real);
    assert_eq!(copy.cmds(), p.cmds());
}

#[test]
fn beat_mutation_with_full_chance_changes_something() {
    let mut rng = StdRng::seed_from_u64(26);
    let p = random_beat(40, &mut rng);
    assert_ne!(mutate(&p, 1, 1, &mut rng, &unit_real).cmds(), p.cmds());
}

#[test]
fn random_commands_come_from_their_families() {
    let mut rng = StdRng::seed_from_u64(27);
    let mut vars = std::collections::HashSet::new();
    let mut ops = std::collections::HashSet::new();
    let mut kinds = [false; 3];
    for _ in 0..400 {
        vars.insert(format_cmd(&Cmd::Var(random_var(&mut rng)), ""));
        ops.insert(format_cmd(&Cmd::Bi(random_bi(&mut rng)), ""));
        ops.insert(format_cmd(&Cmd::Trig(random_trig(&mut rng)), ""));
        ops.insert(format_cmd(&Cmd::BiFloat(random_bifloat(&mut rng)), ""));
        ops.insert(format_cmd(&Cmd::Comp(random_comp(&mut rng)), ""));
        match random_literal(&mut rng, &unit_real) {
            LiteralType::NumF(bits) => {
                let x = f64::from_bits(bits);
                assert!((0.0..1.0).contains(&x));
                // 53 drawn bits behind the point, and no more
                assert_eq!((x * 9007199254740992.0).fract(), 0.0);
                kinds[0] = true;
            }
            LiteralType::NumI(_) => kinds[1] = true,
            LiteralType::Hex(_) => kinds[2] = true,
        }
    }
    assert_eq!(vars.len(), 7);
    assert_eq!(ops.len(), 10 + 3 + 6 + 6);
    assert_eq!(kinds, [true; 3]);
}

#[test]
fn parse_errors_as_text() {
    assert_eq!(ParseError::BadArr("[x", 3).message(), "Bad Array op: [x, index: 3");
    assert_eq!(ParseError::UnknownToken("foo", 0).message(), "Unknown Token: foo, index: 0");
    let text = "1 2 3 4 5 6 7 8 9 10 11 12 zz";
    assert_eq!(
        parse_beat(text, &read_real).unwrap_err().message(),
        "Unknown Token: zz, index: 12"
    );
}

#[test]
fn compile_errors_as_text() {
    let underflow = compile(parse_beat("t +", &read_real).unwrap()).unwrap_err();
    assert_eq!(
        underflow.message(&show_real),
        "Attempt to pop beyond stack size. instruction: + index: 1, size of stack 1"
    );
    let deep = compile(parse_beat("1 2 3 4 5 6 7 8 9 10 11 [20", &read_real).unwrap()).unwrap_err();
    assert_eq!(
        deep.message(&show_real),
        "Attempt to pop beyond stack size. instruction: [20 index: 11, size of stack 11"
    );
    let cmds = vec![
        Meta("k\"ey".to_string(), "va\\lue\n".to_string()),
        Comment("hi\tthere é".to_string()),
        Comment(String::new()),
    ];
    let empty = compile(cmds.clone()).unwrap_err();
    assert_eq!(empty.message(&show_real), format!("Program is empty: {:?}", cmds));
    let none = compile(vec![]).unwrap_err();
    assert_eq!(none.message(&show_real), "Program is empty: []");
    let one = compile(vec![Comment("hi".to_string())]).unwrap_err();
    assert_eq!(one.message(&show_real), "Program is empty: [Comment(\"hi\")]");
    // a program that leaves more than one value lists all its commands
    let text = "t mx my sx sy kx ky 5 -7 0x1F 2.5 1 1 1 1 1 1 1 1 1 1 1 1 1 1 1 1 1 1 1 1 \
                + - * / % << >> & | ^ sin cos tan pow +. -. *. /. %. < > <= >= == != ? \
                0 [2 [0 !k:v #c";
    let cmds = parse_beat(text, &read_real).unwrap();
    let surplus = compile(cmds.clone()).unwrap_err();
    assert_eq!(surplus.error_kind(), &ErrorKind::EmptyProgram);
    assert_eq!(surplus.message(&show_real), format!("Program is empty: {:?}", cmds));
    let extremes = vec![
        Literal(LiteralType::NumI(i64::MIN)),
        Literal(LiteralType::Hex(i64::MIN)),
        Literal(LiteralType::NumF(u64::MAX)),
        Var(VarType::Frame),
    ];
    let surplus = compile(extremes.clone()).unwrap_err();
    assert_eq!(surplus.message(&show_real), format!("Program is empty: {:?}", extremes));
}

#[test]
fn program_as_text() {
    let p = program("t 2 %   0x1f  1.50 +. + #x");
    assert_eq!(p.to_text(&show_real), "t 2 % 0x1F 1.5 +. + #x");
}

#[test]
fn random_programs_end_with_operators_only() {
    let mut rng = StdRng::seed_from_u64(31);
    for length in 1..60 {
        for _ in 0..5 {
            let p = random_beat(length, &mut rng);
            let cmds = p.cmds();
            assert!(cmds[length..].iter().all(|c| matches!(c, Bi(_))));
            let depth: isize = cmds[..length].iter().map(|c| c.stack_change()).sum();
            assert_eq!(cmds.len() as isize, length as isize + depth - 1);
        }
    }
    let p = random_beat(0, &mut rng);
    assert_eq!(p.cmds().len(), 1);
    assert!(matches!(p.cmds()[0], Var(_)));
}

#[test]
fn mutated_takes_the_drawn_command_where_the_chance_fell() {
    let add = Bi(BiType::Add);
    assert_eq!(mutated(&add, true, Some(Bi(BiType::Xor))), Bi(BiType::Xor));
    assert_eq!(mutated(&add, false, Some(Bi(BiType::Xor))), add);
    assert_eq!(mutated(&add, false, None), add);
    let note = Comment("stays".to_string());
    assert_eq!(mutated(&note, false, None), note);
    let five = Literal(LiteralType::NumI(5));
    assert_eq!(
        mutated(&five, true, Some(Literal(LiteralType::Hex(9)))),
        Literal(LiteralType::Hex(9))
    );
}

#[test]
fn draws_stay_in_the_family() {
    let mut rng = StdRng::seed_from_u64(32);
    let cmds = [
        Var(VarType::Frame),
        Literal(LiteralType::NumI(1)),
        Bi(BiType::Add),
        Trig(TrigType::Sin),
        BiFloat(BiFloatType::Pow),
        Comp(CompType::Lt),
    ];
    for cmd in &cmds {
        let mut differs = false;
        for _ in 0..40 {
            let drawn = draw_like(cmd, &mut rng, &unit_real);
            assert_eq!(family(cmd), family(&drawn));
            differs |= &drawn != cmd;
        }
        assert!(differs);
    }
}

#[test]
fn unit_real_is_what_the_generator_makes_of_the_bits() {
    let mut bits = StdRng::seed_from_u64(7);
    let mut reals = StdRng::seed_from_u64(7);
    for _ in 0..2000 {
        let real: f64 = reals.gen();
        assert_eq!(unit_real(bits.gen::<u64>()), real.to_bits());
    }
    assert_eq!(unit_real(0), 0);
    assert_eq!(f64::from_bits(unit_real(1 << 63)), 0.5);
}

#[test]
fn drawn_literals_take_their_real_from_the_caller() {
    let mut rng = StdRng::seed_from_u64(33);
    let marked = |_: u64| 77u64;
    let mut seen = false;
    for _ in 0..200 {
        if let LiteralType::NumF(bits) = random_literal(&mut rng, &marked) {
            assert_eq!(bits, 77);
            seen = true;
        }
    }
    assert!(seen);
}
