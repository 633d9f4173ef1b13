use trash::error::{Fault, TrashError};
use trash::methods::{bool_method, int_method, str_method};
use trash::stdlib::stdlib;
use trash::syntax::ParseErrorKind;
use trash::value::{Code, ScannerGen, Value};
use trash::world::{ReadStream, WriteStream};

fn run_with(src: &str, input: &[u8]) -> (Result<Value, Fault>, String) {
    let (vars, mut scope, mut world) = stdlib(WriteStream::new(), ReadStream::new(input.to_vec()));
    let r = Code::from_string(src.to_string()).try_run(vars, &mut scope, &mut world, u64::MAX);
    (r, world.stdout.written.iter().collect())
}

fn output(src: &str) -> String {
    let (r, out) = run_with(src, b"");
    assert!(r.is_ok(), "program failed: {}", src);
    out
}

fn fault(src: &str) -> Fault {
    match run_with(src, b"").0 {
        Ok(_) => panic!("program did not fail: {}", src),
        Err(f) => f,
    }
}

#[test]
fn test_puts() {
    assert_eq!(output("$set stdout [$stdout \"Hello, world!\"]"), "Hello, world!");
    assert_eq!(output("$set stdout [$stdout a b]\n$set stdout [$stdout c]"), "a bc");
}

#[test]
fn test_copy() {
    assert_eq!(output("$set a hello\n$set stdout [$stdout @a @a]"), "hello hello");
}

#[test]
fn test_call_string() {
    assert_eq!(output("$set stdout [$stdout [hello] [hello len]]"), "hello 5");
}

#[test]
fn test_call_object() {
    assert_eq!(output("$set a (x y)\n$set stdout [$stdout [$a]]"), "( x y )");
}

#[test]
fn test_call_closure() {
    let src = "$set f {$set stdout [$1 \"from closure\"]\n$stdout}\n$set stdout [$f $stdout]";
    assert_eq!(output(src), "from closure");
}

#[test]
fn test_closure_args() {
    let src = "$set f {$set stdout [$1 $2 $3]\n$stdout}\n$set stdout [$f $stdout first second]";
    assert_eq!(output(src), "first second");
}

#[test]
fn test_call_raw_closure() {
    assert_eq!(output("$set stdout [{$set stdout [$1 raw]\n$stdout} $stdout]"), "raw");
}

#[test]
fn test_closure_scope() {
    let src = "$set x outer\n$set f {$set stdout [$1 @x]\n$stdout}\n$set stdout [$f $stdout]";
    assert_eq!(output(src), "outer");
}

#[test]
fn test_quoted_strings() {
    let src = "$set stdout [$stdout \"with spaces\" \"line\\nbreak\" \"back\\\\slash\"]";
    assert_eq!(output(src), "with spaces line\nbreak back\\slash");
}

#[test]
fn test_multiple_assign() {
    assert_eq!(output("$set (a b c) (x y z)\n$set stdout [$stdout $c $b $a]"), "z y x");
}

#[test]
fn test_nested_assign() {
    assert_eq!(output("$set (a (b c)) (x (y z))\n$set stdout [$stdout $a $b $c]"), "x y z");
}

#[test]
fn test_tuple_puts() {
    assert_eq!(output("$set stdout [$stdout (a (b c) ())]"), "( a ( b c ) ( ) )");
}

#[test]
fn test_string_len() {
    assert_eq!(output("$set stdout [$stdout [hello len] [\"h\u{e9}llo\" len] [\"\" len]]"), "5 6 0");
}

#[test]
fn test_string_split() {
    let src = "$set stdout [$stdout [\"a b c\" split] [\"a,b,,c\" split \",\"]]";
    assert_eq!(output(src), "( a b c ) ( a b  c )");
}

#[test]
fn test_string_push() {
    assert_eq!(output("$set s abc\n$set s [$s push def]\n$set stdout [$stdout $s]"), "abcdef");
}

#[test]
fn test_string_eq() {
    assert_eq!(output("$set stdout [$stdout [abc eq abc] [abc eq abd]]"), "true false");
}

#[test]
fn test_tuple_push_pop() {
    let src = "$set t (a b)\n$set t [$t push c]\n$set (t x) [$t pop]\n$set stdout [$stdout $t $x]";
    assert_eq!(output(src), "( a b ) c");
}

#[test]
fn test_tuple_empty() {
    assert_eq!(output("$set stdout [$stdout [() \"is_empty\"] [(a) \"is_empty\"]]"), "true false");
}

#[test]
fn test_tuple_index() {
    assert_eq!(output("$set stdout [$stdout [(a b c) 0] [(a b c) 2]]"), "a c");
}

#[test]
fn test_tuple_with() {
    let src = "$set t (x y z)\n$set t [$t with 1 {[$1 push 2]}]\n\
               $set t [$t with \"-1\" {[$1 push 3]}]\n$set stdout [$stdout $t]";
    assert_eq!(output(src), "( x y2 z3 )");
}

#[test]
fn test_move_clousre() {
    let src = "$set x moved\n$set f <{$set stdout [$1 $x]\n$stdout} x>\n$set stdout [$f $stdout]";
    assert_eq!(output(src), "moved");
}

#[test]
fn test_if_statement() {
    let branch = "{$set stdout [$1 yes]\n$stdout} else {$set stdout [$1 no]\n$stdout}";
    let yes = format!("$set stdout [@if <{{($stdout [a eq a])}} stdout> {}]", branch);
    let no = format!("$set stdout [@if <{{($stdout [a eq b])}} stdout> {}]", branch);
    assert_eq!(output(&yes), "yes");
    assert_eq!(output(&no), "no");
}

#[test]
fn test_while_statement() {
    let src = "$set r [@while (([@int 3]) [@int 3] $stdout) {$1 gt 0} {\n\
               \x20   $set (i stdout) ($1 $2)\n\
               \x20   $set stdout [$stdout @i]\n\
               \x20   (([@i sub 1]) [@i sub 1] $stdout)\n\
               }]\n\
               $set (n stdout) $r\n\
               $set stdout [$stdout @n]";
    assert_eq!(output(src), "3210");
}

#[test]
fn test_integers() {
    let src = "$set stdout [$stdout [@int 5] [[@int 5] add 3] [[@int 5] sub 7] [[@int 6] mul 7] \
               [[@int 7] div 2] [[@int 7] rem 3] [[@int 65] chr] [[@int 3] lt 4] [[@int 3] gt 4] \
               [[@int \"-7\"] div 2] [[@int \"-7\"] rem 2]]";
    assert_eq!(output(src), "5 8 -2 42 3 1 A true false -3 -1");
}

#[test]
fn bottles_of_beer() {
    let src = "@while (([@int 2]) [@int 2] $stdout) {$1 gt 0} {\n\
               \x20   $set (i stdout) ($1 $2)\n\
               \x20   $set stdout [$stdout @i \"bottles of beer on the wall,\"]\n\
               \x20   $set stdout [$stdout @i \"bottles of beer!\"]\n\
               \x20   $set stdout [$stdout \"Take one down, pass it around,\"]\n\
               \x20   $set stdout [$stdout [@i sub 1] \"bottles of beer on the wall!\"]\n\
               \x20   (([@i sub 1]) [@i sub 1] $stdout)\n\
               }";
    let expected = "2 bottles of beer on the wall,2 bottles of beer!\
                    Take one down, pass it around,1 bottles of beer on the wall!\
                    1 bottles of beer on the wall,1 bottles of beer!\
                    Take one down, pass it around,0 bottles of beer on the wall!";
    assert_eq!(output(src), expected);
}

#[test]
fn program_result_is_last_call() {
    let (r, _) = run_with("$set a x\nhello", b"");
    assert_eq!(r.ok().unwrap().to_string(), "hello");
    let (r, _) = run_with("hello\n$set a x", b"");
    assert_eq!(r.ok().unwrap().to_string(), "");
    let (r, _) = run_with("", b"");
    assert_eq!(r.ok().unwrap().to_string(), "");
}

#[test]
fn string_format() {
    assert_eq!(output("$set stdout [$stdout [\"{}a{}\" format 1 2]]"), "1a2");
}

#[test]
fn string_chars_and_eq_keeping() {
    assert_eq!(output("$set stdout [$stdout [abc chars] [ab \"_eq\" ab] [ab \"_len\"]]"),
        "( a b c ) ( ab ab true ) ( ab 2 )");
}

#[test]
fn tuple_len_and_without() {
    let src = "$set stdout [$stdout [(a b c) len] [(a b) \"_is_empty\"] \
               [(x y) without 0 {(taken [$1 push 1])}]]";
    assert_eq!(output(src), "3 ( ( a b ) false ) ( ( x1 y ) taken )");
}

#[test]
fn booleans() {
    let src = "$set t [[abc eq abc] and true]\n$set f [[abc eq abc] xor true]\n\
               $set stdout [$stdout @t @f [@f not] [@t or false] [@t eq true]]";
    assert_eq!(output(src), "true false true true true");
}

#[test]
fn read_input_bytes() {
    let src = "$set (stdin a) [$stdin read]\n$set (stdin b) [$stdin read]\n\
               $set stdout [$stdout @a @b]";
    let (r, out) = run_with(src, b"A");
    assert!(r.is_ok());
    assert_eq!(out, "65 -1");
}

#[test]
fn syntax_error_is_reported() {
    match fault("$set stdout [$stdout a") {
        Fault::Syntax(e) => assert!(matches!(e.kind, ParseErrorKind::Syntax)),
        _ => panic!("expected a syntax error"),
    }
}

#[test]
fn guaranteed_moved_variable() {
    match fault("$set a x\n$set stdout [$stdout $a $a]") {
        Fault::Syntax(e) => match e.kind {
            ParseErrorKind::GuaranteedMoved(n) => assert_eq!(n, vec!['a']),
            _ => panic!("expected a moved variable"),
        },
        _ => panic!("expected a syntax error"),
    }
}

#[test]
fn set_without_value() {
    match fault("$set a") {
        Fault::Syntax(e) => assert!(matches!(e.kind, ParseErrorKind::ExpectedVariableValue)),
        _ => panic!("expected a syntax error"),
    }
    match fault("$set") {
        Fault::Syntax(e) => assert!(matches!(e.kind, ParseErrorKind::ExpectedVariableName)),
        _ => panic!("expected a syntax error"),
    }
    match fault("$set \"a\" b") {
        Fault::Syntax(e) => assert!(matches!(e.kind, ParseErrorKind::ExpectedNameOrTuple)),
        _ => panic!("expected a syntax error"),
    }
}

#[test]
fn missing_variable() {
    match fault("$set x $nothere") {
        Fault::NoSuchVariable(n, _) => assert_eq!(n.iter().collect::<String>(), "nothere"),
        _ => panic!("expected a missing variable"),
    }
    assert!(matches!(fault("$set x @nothere"), Fault::NoSuchVariable(_, _)));
}

#[test]
fn tuple_length_mismatch() {
    assert!(matches!(fault("$set (a b) (x)"), Fault::TupleLengthMismatch(2, 1)));
}

#[test]
fn streams_cannot_be_copied() {
    assert!(matches!(fault("$set s @stdout"), Fault::FailedAt(TrashError::LinearTypeCloning, _)));
}

#[test]
fn call_errors() {
    assert!(matches!(fault("$set x [() pop]"), Fault::FailedAt(TrashError::Custom(_), _)));
    assert!(matches!(fault("$set x [(a) 5]"), Fault::FailedAt(TrashError::OutOfBounds, _)));
    assert!(matches!(fault("$set x [(a) nomethod]"), Fault::FailedAt(TrashError::UnknownMethod(_), _)));
    assert!(matches!(fault("$set x [abc nomethod]"), Fault::FailedAt(TrashError::UnknownMethod(_), _)));
    assert!(matches!(fault("$set x [abc eq]"), Fault::FailedAt(TrashError::NotEnoughArgs(0, 1), _)));
    assert!(matches!(fault("$set x [@int abc]"), Fault::FailedAt(TrashError::UnexpectedType(_, _), _)));
    assert!(matches!(fault("$set x [(a) with x {$1}]"),
        Fault::FailedAt(TrashError::UnexpectedType(_, _), _)));
    assert!(matches!(fault("$set x [[@int 55296] chr]"), Fault::FailedAt(TrashError::Custom(_), _)));
    assert!(matches!(fault("$set x [[@int 1] frob]"), Fault::UnknownMethod(_)));
    assert!(matches!(fault("$set x [[@int 1] div 0]"), Fault::Arithmetic));
    assert!(matches!(fault("$set x [@while]"), Fault::FailedAt(TrashError::NotEnoughArgs(0, 3), _)));
}

#[test]
fn if_needs_a_boolean() {
    assert!(matches!(fault("$set x [@if {(maybe)} {a} else {b}]"), Fault::NotBoolean(_)));
    assert!(matches!(fault("$set x [@if {(true)} {a} otherwise {b}]"),
        Fault::FailedAt(TrashError::Custom(_), _)));
}

#[test]
fn error_messages() {
    assert_eq!(TrashError::OutOfBounds.message(), "Index out of bounds\n".chars().collect::<Vec<_>>());
    assert_eq!(TrashError::NotEnoughArgs(1, 3).message().iter().collect::<String>(),
        "Expected 1 arguments, found 3\n");
    assert_eq!(TrashError::UnknownMethod(vec!['x']).message().iter().collect::<String>(),
        "Unknown method: x\n");
}

#[test]
fn moving_closure_needs_its_variables() {
    match fault("$set f <{$1} x>\n$set y [$f]") {
        Fault::FailedAt(TrashError::Custom(m), _) => {
            assert_eq!(m.iter().collect::<String>(), "No such variable x")
        }
        _ => panic!("expected a missing variable"),
    }
}

#[test]
fn out_of_fuel() {
    let (vars, mut scope, mut world) = stdlib(WriteStream::new(), ReadStream::new(Vec::new()));
    let r = Code::from_string("[hello]".to_string()).try_run(vars, &mut scope, &mut world, 0);
    assert!(matches!(r, Err(Fault::OutOfFuel)));
    let (vars, mut scope, mut world) = stdlib(WriteStream::new(), ReadStream::new(Vec::new()));
    let r = Code::from_string("[hello]".to_string()).try_run(vars, &mut scope, &mut world, 5);
    assert_eq!(r.ok().unwrap().to_string(), "hello");
}

#[test]
fn puts_writes_its_arguments() {
    assert_eq!(output("$puts \"Hello, world!\""), "Hello, world!");
    assert_eq!(output("$set puts [$puts a b]\n$puts c"), "a bc");
    assert_eq!(output("$set f {[@puts inner]}\n$set x [$f]"), "inner");
}

#[test]
fn run_parse_and_exec_without_faults() {
    let (vars, mut scope, mut world) = stdlib(WriteStream::new(), ReadStream::new(Vec::new()));
    let v = Code::from_string("$set stdout [$stdout hi]\n[abc len]".to_string())
        .run(vars, &mut scope, &mut world);
    assert_eq!(v.to_string(), "3");
    assert_eq!(world.stdout.written.iter().collect::<String>(), "hi");

    let text: Vec<char> = "$set x abc\n[$x push d]".chars().collect();
    let block = trash::interp::parse_program(&text);
    assert_eq!(block.calls.len(), 2);
    let (vars, mut frames, mut world) = stdlib(WriteStream::new(), ReadStream::new(Vec::new()));
    frames.push(vars);
    let v = trash::interp::exec_block(&block, 10, &mut frames, &mut world);
    assert_eq!(v.to_string(), "abcd");
    let v = trash::interp::exec_obj(&block.calls[0][2], 10, &mut frames, &mut world);
    assert_eq!(v.to_string(), "abc");
}

#[test]
fn methods_of_strings_integers_and_booleans() {
    let add = vec![Value::Str("add".chars().collect()), Value::Int(4)];
    assert!(matches!(int_method(3, &add), Ok(Value::Int(7))));
    let few = vec![Value::Str("mul".chars().collect())];
    assert!(matches!(int_method(3, &few), Err(TrashError::NotEnoughArgs(0, 1))));
    let and = vec![Value::Str("and".chars().collect()), Value::Str("false".chars().collect())];
    assert!(matches!(bool_method(true, &and), Ok(Value::Bool(false))));
    let push = vec![Value::Str("push".chars().collect()), Value::Str("c".chars().collect())];
    match str_method("ab".chars().collect(), &push) {
        Ok(v) => assert_eq!(v.to_string(), "abc"),
        Err(_) => panic!("push failed"),
    }
    let eq = vec![Value::Str("eq".chars().collect())];
    assert!(matches!(str_method("ab".chars().collect(), &eq), Err(TrashError::NotEnoughArgs(0, 1))));
    let bad = vec![Value::Str("or".chars().collect()), Value::Str("maybe".chars().collect())];
    assert!(matches!(bool_method(true, &bad), Err(TrashError::UnexpectedType(_, _))));
}

#[test]
fn readme_bottles_of_beer() {
    let src = "@while (([@int 99]) [@int 99] $stdout) {$1 gt 0} {\n\
               \x20   $set (i stdout) ($1 $2)\n\
               \n\
               \x20   $set stdout [$stdout @i \"bottles of beer on the wall,\"]\n\
               \x20   $set stdout [$stdout @i \"bottles of beer!\"]\n\
               \x20   $set stdout [$stdout \"Take one down, pass it around,\"]\n\
               \x20   $set stdout [$stdout [@i sub 1] \"bottles of beer on the wall!\"]\n\
               \n\
               \x20   (([@i sub 1]) [@i sub 1] $stdout)\n\
               }\n";
    let mut expected = String::new();
    let mut i = 99;
    while i > 0 {
        expected += &format!("{} bottles of beer on the wall,{} bottles of beer!", i, i);
        expected += &format!("Take one down, pass it around,{} bottles of beer on the wall!", i - 1);
        i -= 1;
    }
    let (r, out) = run_with(src, b"");
    assert_eq!(r.ok().unwrap().to_string(), "( 0  )");
    assert_eq!(out, expected);
}

fn run_with_scanner(src: &str) -> (Result<Value, Fault>, String) {
    let (mut vars, mut scope, mut world) = stdlib(WriteStream::new(), ReadStream::new(Vec::new()));
    vars.add("scanner".chars().collect(), Value::ScannerGen(ScannerGen));
    let r = Code::from_string(src.to_string()).try_run(vars, &mut scope, &mut world, 10_000);
    (r, world.stdout.written.iter().collect())
}

const READER: &str = "$set r3 {(@r3 \"\")}\n$set r2 {(@r3 \"2\")}\n$set r1 {(@r2 \"4\")}\n\
                      $set r0 {(@r1 \" \")}\n";

#[test]
fn scanner_reads_words() {
    let src = format!("{}$set (sc w) [[@scanner @r0] scan string]\n\
                       $set (sc2 n) [[@scanner @r0] scan int]\n\
                       $set (sc3 e) [$sc scan string]\n\
                       $set stdout [$stdout @w [@n add 1] \"[\" @e \"]\"]", READER);
    let (r, out) = run_with_scanner(&src);
    assert!(r.is_ok());
    assert_eq!(out, "42 43 [  ]");
}

#[test]
fn scanner_methods_and_errors() {
    let (r, out) = run_with_scanner("$set stdout [$stdout [[@scanner hi] unwrap] [[@scanner hi]] [@scanner]]");
    assert!(r.is_ok());
    assert_eq!(out, "hi hi ");
    assert!(matches!(run_with_scanner("$set x [[@scanner hi] frob]").0,
        Err(Fault::FailedAt(TrashError::UnknownMethod(_), _))));
    assert!(matches!(run_with_scanner("$set x [[@scanner hi] scan]").0,
        Err(Fault::FailedAt(TrashError::NotEnoughArgs(1, 0), _))));
    assert!(matches!(run_with_scanner("$set x [[@scanner hi] scan float]").0,
        Err(Fault::FailedAt(TrashError::UnknownMethod(_), _))));
    assert!(matches!(run_with_scanner("$set x [[@scanner hi] scan int]").0,
        Err(Fault::FailedAt(TrashError::UnknownMethod(_), _))));
    let pair = "$set x [[@scanner @puts] scan int]";
    assert!(matches!(run_with_scanner(pair).0, Err(Fault::FailedAt(TrashError::UnexpectedType(_, _), _))));
    assert!(matches!(run_with_scanner("$set s [@scanner hi]\n$set t @s").0,
        Err(Fault::FailedAt(TrashError::LinearTypeCloning, _))));
}
