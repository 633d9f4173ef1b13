use trash::error::{Fault, TrashError};
use trash::stdlib::stdlib;
use trash::text::{i64_text, parse_i64, split_chars, utf8_byte_len};
use trash::value::{Code, Value};
use trash::vars::Vars;
use trash::world::{ReadStream, WriteStream};

fn chars(s: &str) -> Vec<char> {
    s.chars().collect()
}

fn text(v: &[char]) -> String {
    v.iter().collect()
}

fn run(src: &str) -> (Result<Value, Fault>, String, Vec<Vars>) {
    let (vars, mut scope, mut world) = stdlib(WriteStream::new(), ReadStream::new(Vec::new()));
    let r = Code::from_string(src.to_string()).try_run(vars, &mut scope, &mut world, u64::MAX);
    (r, text(&world.stdout.written), scope)
}

#[test]
fn int_text_reads_back() {
    for v in [0i64, 7, -1234, 1_000_000, i64::MAX, i64::MIN] {
        assert_eq!(parse_i64(&i64_text(v)), Some(v));
    }
    let (r, out, _) = run("$set stdout [$stdout [@int [\"-1234\" push \"\"]]]");
    assert!(r.is_ok());
    assert_eq!(out, "-1234");
}

#[test]
fn comparison_text_drives_if() {
    let src = "$set stdout [@if <{($stdout [[@int 3] lt 4])} stdout> {$set stdout [$1 less]\n$stdout} \
               else {$set stdout [$1 more]\n$stdout}]";
    let (r, out, _) = run(src);
    assert!(r.is_ok());
    assert_eq!(out, "less");
}

#[test]
fn arguments_are_numbered_in_order() {
    let mut frame = Vars::from_vec(vec![Value::Str(chars("a")), Value::Int(2), Value::Bool(true)]);
    assert!(!frame.contains(&chars("0")));
    assert!(!frame.contains(&chars("4")));
    assert!(matches!(frame.get(&chars("2")), Some(Value::Int(2))));
    assert!(matches!(frame.get(&chars("3")), Some(Value::Bool(true))));
    match frame.get(&chars("1")) {
        Some(Value::Str(s)) => assert_eq!(text(&s), "a"),
        _ => panic!("expected the first argument"),
    }
    assert!(frame.get(&chars("1")).is_none());
}

#[test]
fn split_then_join_gives_the_string_back() {
    for (s, d) in [("a,b,,c", ","), ("abc", ""), ("", ","), ("a--b--", "--"), ("xyz", "q")] {
        let pieces = split_chars(&chars(s), &chars(d));
        let joined: Vec<String> = pieces.iter().map(|p| text(p)).collect();
        assert_eq!(joined.join(d), s);
    }
    assert_eq!(split_chars(&chars("abc"), &chars("")).len(), 5);
}

#[test]
fn push_adds_lengths() {
    let (r, out, _) = run("$set stdout [$stdout [[ab push \"\u{e9}\u{1F600}\"] len]]");
    assert!(r.is_ok());
    assert_eq!(out, "8");
    assert_eq!(utf8_byte_len(&chars("ab\u{e9}\u{1F600}")), Some(8));
}

#[test]
fn string_eq_is_symmetric() {
    let (r, out, _) = run("$set stdout [$stdout [ab eq cd] [cd eq ab] [ab eq ab]]");
    assert!(r.is_ok());
    assert_eq!(out, "false false true");
}

#[test]
fn call_without_arguments_returns_itself() {
    let (r, out, _) = run("$set stdout [$stdout [hello] [[@int 5]] [[abc eq abc]] [(a b)]]");
    assert!(r.is_ok());
    assert_eq!(out, "hello 5 true ( a b )");
}

#[test]
fn add_then_sub_gives_back() {
    let (r, out, _) = run("$set stdout [$stdout [[[@int 5] add 7] sub 7]]");
    assert!(r.is_ok());
    assert_eq!(out, "5");
    let (r, _, _) = run("$set x [[@int 9223372036854775807] add 1]");
    assert!(matches!(r, Err(Fault::Arithmetic)));
}

#[test]
fn read_after_set() {
    let (r, out, _) = run("$set x v\n$set stdout [$stdout @x $x]");
    assert!(r.is_ok());
    assert_eq!(out, "v v");
    let (r, _, _) = run("$set x v\n$set a $x\n$set b @x");
    assert!(matches!(r, Err(Fault::NoSuchVariable(_, _))));
}

#[test]
fn multiple_assign_keeps_other_variables() {
    let (r, out, _) = run("$set a keep\n$set (b c) (x y)\n$set stdout [$stdout $a $b $c]");
    assert!(r.is_ok());
    assert_eq!(out, "keep x y");
}

#[test]
fn output_survives_a_fault_and_scope_is_kept() {
    let (r, out, scope) = run("$set stdout [$stdout before]\n$set x [() pop]");
    assert!(matches!(r, Err(Fault::FailedAt(TrashError::Custom(_), _))));
    assert_eq!(out, "before");
    let (r, out, scope2) = run("$set f {$set y 1}\n$set z [$f]\n$set stdout [$stdout done]");
    assert!(r.is_ok());
    assert_eq!(out, "done");
    for s in [scope, scope2] {
        assert_eq!(s.len(), 1);
        assert!(s[0].contains(&chars("if")));
        assert!(s[0].contains(&chars("while")));
        assert!(s[0].contains(&chars("int")));
    }
}

#[test]
fn fault_messages() {
    let (r, _, _) = run("$set (a b) (x)");
    match r {
        Err(f) => assert_eq!(text(&f.message()),
            "Error in set operator, expected tuple with length 2, found tuple with length 1"),
        Ok(_) => panic!("expected a fault"),
    }
    let (r, _, _) = run("$set x [() pop]");
    match r {
        Err(f) => assert_eq!(text(&f.message()), "Error: Can't pop value from empty tuple\n at [() pop]"),
        Ok(_) => panic!("expected a fault"),
    }
    let (r, _, _) = run("$set x [a");
    match r {
        Err(f) => assert_eq!(text(&f.message()), "Syntax error at position 9"),
        Ok(_) => panic!("expected a fault"),
    }
}

#[test]
fn empty_frame_then_add_and_take() {
    let mut frame: Vars = Default::default();
    assert!(!frame.contains(&chars("x")));
    frame.add(chars("x"), Value::Int(3));
    assert!(frame.contains(&chars("x")));
    let scope = vec![Vars::new()];
    assert!(matches!(frame.get_cloned(&scope, &chars("x")), Some(Ok(Value::Int(3)))));
    assert!(matches!(frame.get(&chars("x")), Some(Value::Int(3))));
    assert!(!frame.contains(&chars("x")));
    assert!(frame.get_cloned(&scope, &chars("x")).is_none());
}

#[test]
fn faults_name_their_place_in_the_source() {
    let cases = [
        ("$set x $nothere", "No such variable, nothere\n at $nothere"),
        ("$set f {[@missing]}\n$set y [$f]", "No such variable, missing\n at @missing"),
        ("$set s @stdout", "Error: Can't clone value of linear type\n at @stdout"),
        ("$set f <{$1} x>\n$set y [$f]", "Error: No such variable x\n at [$f]"),
        ("$set y [abc frob]", "Error: Unknown method: frob\n at [abc frob]"),
        ("() pop", "called `Result::unwrap()` on an `Err` value: Custom(\"Can't pop value from empty tuple\")"),
        ("abc \"fr\\\\ob\"", "called `Result::unwrap()` on an `Err` value: UnknownMethod(\"fr\\\\ob\")"),
        ("abc eq", "called `Result::unwrap()` on an `Err` value: NotEnoughArgs(0, 1)"),
        ("$set f {() pop}\n$set y [$f]",
            "called `Result::unwrap()` on an `Err` value: Custom(\"Can't pop value from empty tuple\")"),
    ];
    for (src, msg) in cases {
        match run(src).0 {
            Err(f) => assert_eq!(text(&f.message()), msg, "for {}", src),
            Ok(_) => panic!("expected a fault for {}", src),
        }
    }
}
