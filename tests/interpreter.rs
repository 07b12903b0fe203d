use stackvm::error::VmError;
use stackvm::interp::Interpreter;
use stackvm::parser::{parse_exprs, print_exprs, ParseError};
use stackvm::text::remove_comments;
use stackvm::value::{is_control, is_truthy, Expr};

fn run_with(interp: &mut Interpreter, src: &str) -> (Result<(), VmError>, Vec<u8>) {
    let code = remove_comments(src.as_bytes());
    let exprs = match parse_exprs(&code) {
        Ok(e) => e,
        Err(e) => panic!("parse failed: {:?}", e),
    };
    let r = interp.eval(exprs);
    let out = interp.take_output();
    (r, out)
}

fn run(src: &str) -> (Result<(), VmError>, Vec<u8>) {
    let mut interp = Interpreter::new();
    run_with(&mut interp, src)
}

fn atom_bytes(e: &Expr) -> Vec<u8> {
    match e {
        Expr::Bytes(b) => b.to_vec(),
        Expr::List(_) => panic!("expected an atom"),
    }
}

fn list_items(e: &Expr) -> &Vec<Expr> {
    match e {
        Expr::List(l) => l,
        Expr::Bytes(_) => panic!("expected a list"),
    }
}

#[test]
fn empty_write_prints_nothing() {
    let (r, out) = run(".|> ( (.empty-bytes) (.write) )");
    assert!(r.is_ok());
    assert!(out.is_empty());
}

#[test]
fn addition_prints_five() {
    let (r, out) = run(".|> ( (.u 2) (.u 3) (.u+) (.u-print) )");
    assert!(r.is_ok());
    assert_eq!(out, b"5\n".to_vec());
}

#[test]
fn subtraction_prints_three() {
    let (r, out) = run(".|> ( (.u 10) (.u 7) (.u-) (.u-print) )");
    assert!(r.is_ok());
    assert_eq!(out, b"3\n".to_vec());
}

#[test]
fn subtraction_below_zero_is_domain_error() {
    let (r, out) = run(".|> ( (.u 5) (.u 7) (.u-) (.u-print) )");
    assert!(matches!(r, Err(VmError::DomainError)));
    assert!(out.is_empty());
}

#[test]
fn defined_word_runs_its_body() {
    let (r, out) = run(".|> ( (.define x (.|> ((.u 41) (.u 1) (.u+)))) (x) (.u-print) )");
    assert!(r.is_ok());
    assert_eq!(out, b"42\n".to_vec());
}

#[test]
fn false_condition_runs_else_branch() {
    let (r, out) = run(
        ".|> ( (.u 68) (.u 69) (.u>) (.push (.|> ((.u 735) (.u-print)))) (.push (.|> ((.u 90) (.u-print)))) (.?) )",
    );
    assert!(r.is_ok());
    assert_eq!(out, b"90\n".to_vec());
}

#[test]
fn zero_byte_selects_else_and_one_selects_then() {
    let (r, out) = run(
        ".|> ( (.u 0) (.push (.|> ((.u 7) (.u-print)))) (.push (.|> ((.u 0) (.u-print)))) (.?) )",
    );
    assert!(r.is_ok());
    assert_eq!(out, b"0\n".to_vec());
    let (r, out) = run(
        ".|> ( (.u 1) (.push (.|> ((.u 7) (.u-print)))) (.push (.|> ((.u 0) (.u-print)))) (.?) )",
    );
    assert!(r.is_ok());
    assert_eq!(out, b"7\n".to_vec());
}

#[test]
fn true_comparison_runs_then_branch() {
    let (r, out) = run(
        ".|> ( (.u 70) (.u 69) (.u>) (.push (.|> ((.u 735) (.u-print)))) (.push (.|> ((.u 90) (.u-print)))) (.?) )",
    );
    assert!(r.is_ok());
    assert_eq!(out, b"735\n".to_vec());
}

#[test]
fn condition_must_be_bytes() {
    let (r, _) = run(".|> ( (.push (.u 1)) (.push (.u 2)) (.push (.u 3)) (.?) )");
    assert!(matches!(r, Err(VmError::TypeError(_))));
    let (r, _) = run(".|> ( (.push (.u 1)) (.?) )");
    assert!(matches!(r, Err(VmError::StackUnderflow)));
}

#[test]
fn nested_empty_list_parses() {
    let v = parse_exprs(b"(())").unwrap();
    assert_eq!(v.len(), 1);
    let outer = list_items(&v[0]);
    assert_eq!(outer.len(), 1);
    assert!(list_items(&outer[0]).is_empty());
}

#[test]
fn list_with_sublist_parses() {
    let v = parse_exprs(b"(a b (c d))").unwrap();
    assert_eq!(v.len(), 1);
    let items = list_items(&v[0]);
    assert_eq!(items.len(), 3);
    assert_eq!(atom_bytes(&items[0]), b"a".to_vec());
    assert_eq!(atom_bytes(&items[1]), b"b".to_vec());
    let inner = list_items(&items[2]);
    assert_eq!(inner.len(), 2);
    assert_eq!(atom_bytes(&inner[0]), b"c".to_vec());
    assert_eq!(atom_bytes(&inner[1]), b"d".to_vec());
}

#[test]
fn unclosed_list_fails() {
    assert_eq!(parse_exprs(b"(()").err(), Some(ParseError::UnclosedList(3)));
}

#[test]
fn stray_close_fails() {
    assert_eq!(parse_exprs(b")").err(), Some(ParseError::UnmatchedClose(0)));
    assert_eq!(parse_exprs(b"(a))").err(), Some(ParseError::UnmatchedClose(3)));
}

#[test]
fn whitespace_runs_separate_atoms() {
    let v = parse_exprs(b"  ab\t\r\n cd(e)f  ").unwrap();
    assert_eq!(v.len(), 4);
    assert_eq!(atom_bytes(&v[0]), b"ab".to_vec());
    assert_eq!(atom_bytes(&v[1]), b"cd".to_vec());
    assert_eq!(list_items(&v[2]).len(), 1);
    assert_eq!(atom_bytes(&v[3]), b"f".to_vec());
    assert!(parse_exprs(b"").unwrap().is_empty());
}

#[test]
fn printed_values_parse_back() {
    let src = b"(.define x (.|> ((.u 41) (.u 1) (.u+)))) () (a (b (c)) d) \xff\x00";
    let first = parse_exprs(src).unwrap();
    let text = print_exprs(&first);
    assert_eq!(
        text,
        b"(.define x (.|> ((.u 41) (.u 1) (.u+)))) () (a (b (c)) d) \xff\x00".to_vec()
    );
    let second = parse_exprs(&text).unwrap();
    assert_eq!(print_exprs(&second), text);
    assert_eq!(second.len(), 4);
    assert_eq!(list_items(&second[2]).len(), 3);
}

#[test]
fn define_then_call_matches_running_the_body() {
    let (r1, out1) = run(".|> ( (.define w (.|> ((.u 9) (.u 4) (.u-) (.u-print)))) (w) )");
    let (r2, out2) = run(".|> ( (.|> ((.u 9) (.u 4) (.u-) (.u-print))) )");
    assert!(r1.is_ok() && r2.is_ok());
    assert_eq!(out1, out2);
    assert_eq!(out1, b"5\n".to_vec());
}

#[test]
fn definition_body_must_be_a_list() {
    let (r, _) = run(".|> ( (.define w x) (w) )");
    assert!(matches!(r, Err(VmError::TypeError(_))));
}

#[test]
fn later_definition_wins() {
    let (r, out) = run(".|> ( (.define w (.|> ((.u 1) (.u-print)))) (.define w (.|> ((.u 2) (.u-print)))) (w) )");
    assert!(r.is_ok());
    assert_eq!(out, b"2\n".to_vec());
}

#[test]
fn big_unsigned_arithmetic() {
    let (r, out) = run(".|> ( (.u 18446744073709551615) (.u 1) (.u+) (.u-print) )");
    assert!(r.is_ok());
    assert_eq!(out, b"18446744073709551616\n".to_vec());
    let (r, out) = run(".|> ( (.u 18446744073709551616) (.u 18446744073709551615) (.u-) (.u-print) )");
    assert!(r.is_ok());
    assert_eq!(out, b"1\n".to_vec());
}

#[test]
fn sum_is_little_endian() {
    let mut interp = Interpreter::new();
    let (r, _) = run_with(&mut interp, ".|> ( (.u 200) (.u 100) (.u+) )");
    assert!(r.is_ok());
    assert_eq!(interp.stack.len(), 1);
    assert_eq!(atom_bytes(&interp.stack[0]), vec![44, 1]);
}

#[test]
fn comparisons_push_flags() {
    let mut interp = Interpreter::new();
    let (r, _) = run_with(&mut interp, ".|> ( (.u 3) (.u 5) (.u<) (.u 3) (.u 5) (.u>) (.u 5) (.u 5) (.u<) )");
    assert!(r.is_ok());
    let got: Vec<Vec<u8>> = interp.stack.iter().map(atom_bytes).collect();
    assert_eq!(got, vec![vec![1], vec![0], vec![0]]);
}

#[test]
fn zero_encodings_are_equal_magnitudes() {
    let mut interp = Interpreter::new();
    let (r, out) = run_with(&mut interp, ".|> ( (.empty-bytes) (.u 0) (.u+) (.u-print) )");
    assert!(r.is_ok());
    assert_eq!(out, b"0\n".to_vec());
}

#[test]
fn parse_rejects_non_digits() {
    let (r, _) = run(".|> ( (.u 12a) )");
    assert!(matches!(r, Err(VmError::DomainError)));
    let (r, _) = run(".|> ( (.u +5) )");
    assert!(matches!(r, Err(VmError::DomainError)));
    let (r, _) = run(".|> ( (.empty-bytes) (.u) )");
    assert!(matches!(r, Err(VmError::DomainError)));
}

#[test]
fn dup_copies_value_at_depth() {
    let mut interp = Interpreter::new();
    let (r, _) = run_with(&mut interp, ".|> ( (.push a b c) (.u 2) (.dup) )");
    assert!(r.is_ok());
    let got: Vec<Vec<u8>> = interp.stack.iter().map(atom_bytes).collect();
    assert_eq!(got, vec![b"a".to_vec(), b"b".to_vec(), b"c".to_vec(), b"a".to_vec()]);
}

#[test]
fn depth_beyond_an_index_is_domain_error() {
    let (r, _) = run(".|> ( (.push a) (.u 99999999999999999999999999) (.dup) )");
    assert!(matches!(r, Err(VmError::DomainError)));
    let (r, _) = run(".|> ( (.push a) (.u 99999999999999999999999999) (.swap) )");
    assert!(matches!(r, Err(VmError::DomainError)));
}

#[test]
fn dup_beyond_stack_underflows() {
    let (r, _) = run(".|> ( (.push a b) (.u 2) (.dup) )");
    assert!(matches!(r, Err(VmError::StackUnderflow)));
}

#[test]
fn swap_exchanges_top_with_depth() {
    let mut interp = Interpreter::new();
    let (r, _) = run_with(&mut interp, ".|> ( (.push a b c) (.u 2) (.swap) )");
    assert!(r.is_ok());
    let got: Vec<Vec<u8>> = interp.stack.iter().map(atom_bytes).collect();
    assert_eq!(got, vec![b"c".to_vec(), b"b".to_vec(), b"a".to_vec()]);
    let (r, _) = run(".|> ( (.push a b) (.u 2) (.swap) )");
    assert!(matches!(r, Err(VmError::StackUnderflow)));
}

#[test]
fn peek_len_keeps_value() {
    let mut interp = Interpreter::new();
    let (r, _) = run_with(&mut interp, ".|> ( (.push (a b c)) (.peek-len) (.push hello) (.peek-len) )");
    assert!(r.is_ok());
    assert_eq!(interp.stack.len(), 4);
    assert_eq!(list_items(&interp.stack[0]).len(), 3);
    assert_eq!(atom_bytes(&interp.stack[1]), vec![3]);
    assert_eq!(atom_bytes(&interp.stack[3]), vec![5]);
}

#[test]
fn append_adds_at_tail() {
    let mut interp = Interpreter::new();
    let (r, _) = run_with(&mut interp, ".|> ( (.push (a)) (.push b) (.append) )");
    assert!(r.is_ok());
    assert_eq!(interp.stack.len(), 1);
    let items = list_items(&interp.stack[0]);
    assert_eq!(items.len(), 2);
    assert_eq!(atom_bytes(&items[1]), b"b".to_vec());
}

#[test]
fn write_sends_raw_bytes() {
    let (r, out) = run(".|> ( (.write hi) (.write there) )");
    assert!(r.is_ok());
    assert_eq!(out, b"hithere".to_vec());
}

#[test]
fn lookup_checks_presence_only() {
    let mut interp = Interpreter::new();
    let (r, _) = run_with(&mut interp, ".|> ( (.define k (.push)) (.@ k) )");
    assert!(r.is_ok());
    assert!(interp.stack.is_empty());
    let (r, _) = run(".|> ( (.@ nope) )");
    match r {
        Err(VmError::UnknownWord(b)) => assert_eq!(b.to_vec(), b"nope".to_vec()),
        _ => panic!("expected an unknown word"),
    }
}

#[test]
fn unknown_word_fails() {
    let (r, _) = run(".|> ( (frobnicate) )");
    match r {
        Err(VmError::UnknownWord(b)) => assert_eq!(b.to_vec(), b"frobnicate".to_vec()),
        _ => panic!("expected an unknown word"),
    }
}

#[test]
fn head_must_be_bytes() {
    let (r, _) = run(".|> ( ((x) y) )");
    assert!(matches!(r, Err(VmError::TypeError(_))));
    let (r, _) = run(".|> ( () )");
    assert!(matches!(r, Err(VmError::TypeError(_))));
    let (r, _) = run(".|> ( x )");
    assert!(matches!(r, Err(VmError::TypeError(_))));
}

#[test]
fn error_raises_the_value() {
    let (r, out) = run(".|> ( (.u 1) (.u-print) (.error boom) (.u 2) (.u-print) )");
    match r {
        Err(VmError::UserError(e)) => assert_eq!(atom_bytes(&e), b"boom".to_vec()),
        _ => panic!("expected a user error"),
    }
    assert_eq!(out, b"1\n".to_vec());
}

#[test]
fn drop_on_empty_stack_underflows() {
    let (r, _) = run(".|> ( (.drop) )");
    assert!(matches!(r, Err(VmError::StackUnderflow)));
}

#[test]
fn endless_recursion_exhausts_fuel() {
    let mut interp = Interpreter::with_fuel(1000);
    let (r, _) = run_with(&mut interp, ".|> ( (.define x (x)) (x) )");
    assert!(matches!(r, Err(VmError::Exhausted)));
    assert_eq!(interp.fuel_left(), 0);
}

#[test]
fn each_call_costs_one_step() {
    let mut interp = Interpreter::with_fuel(10);
    let (r, _) = run_with(&mut interp, ".|> ( (.push a) (.drop) )");
    assert!(r.is_ok());
    assert_eq!(interp.fuel_left(), 7);
}

#[test]
fn eval_runs_a_quoted_call() {
    let (r, out) = run(".|> ( (.push (.|> ((.u 8) (.u-print)))) (.) )");
    assert!(r.is_ok());
    assert_eq!(out, b"8\n".to_vec());
    // The atom `8` is the byte 56, read as a little-endian integer.
    let (r, out) = run(".|> ( (.push (.u-print 8)) (.) )");
    assert!(r.is_ok());
    assert_eq!(out, b"56\n".to_vec());
}

#[test]
fn comments_are_removed() {
    let code = remove_comments(b"a\n  // gone\n\t//also\nb // kept\n");
    assert_eq!(code, b"a\nb // kept\n".to_vec());
    let (r, out) = run(".|> (\n// note\n(.u 2) (.u-print)\n)");
    assert!(r.is_ok());
    assert_eq!(out, b"2\n".to_vec());
}

#[test]
fn truthiness_ignores_trailing_zeros() {
    assert!(!is_truthy(&[]));
    assert!(!is_truthy(&[0, 0]));
    assert!(!is_truthy(&[0, 0, 0, 0, 0]));
    assert!(is_truthy(&[0, 1]));
    assert!(is_truthy(&[0, 1, 0, 0]));
}

#[test]
fn control_bytes() {
    assert!(is_control(0));
    assert!(is_control(31));
    assert!(is_control(127));
    assert!(!is_control(32));
    assert!(!is_control(b'a'));
    assert!(!is_control(128));
}

#[test]
fn stack_text() {
    let mut interp = Interpreter::new();
    let (r, _) = run_with(&mut interp, ".|> ( (.push a (b c)) )");
    assert!(r.is_ok());
    assert_eq!(interp.dbg_stack(), b"a (b c)".to_vec());
}
