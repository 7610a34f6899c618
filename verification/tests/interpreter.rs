use stack_machine::error::Error;
use stack_machine::error::RuntimeError;
use stack_machine::run_with_input;
use stack_machine::Repl;
use stack_machine::Value;

fn run(s: &str) -> Result<Vec<Value>, Error> {
    run_with_input(s, "")
}

fn ints(xs: &[i64]) -> Vec<Value> {
    xs.iter().map(|i| Value::Integer(*i)).collect()
}

fn arr(xs: &[i64]) -> Value {
    Value::Array(ints(xs))
}

fn text(s: &str) -> Value {
    Value::Str(s.chars().collect())
}

#[test]
fn scenario_subtraction() {
    assert_eq!(run("5 4 -").unwrap(), ints(&[1]));
}

#[test]
fn scenario_range() {
    assert_eq!(run("5 ,").unwrap(), vec![arr(&[0, 1, 2, 3, 4])]);
}

#[test]
fn scenario_choice() {
    assert_eq!(run("1 2 3 ?").unwrap(), ints(&[2]));
}

#[test]
fn scenario_repeat_swap_concat() {
    assert_eq!(
        run("[ 1 2 3 ] 2 * [ 4 5 ] \\ +").unwrap(),
        vec![arr(&[4, 5, 1, 2, 3, 1, 2, 3])]
    );
}

#[test]
fn scenario_find_in_input() {
    assert_eq!(
        run_with_input("t N/ ~ #", "planetas\nneta").unwrap(),
        ints(&[3])
    );
}

#[test]
fn scenario_variables() {
    assert_eq!(run("A B * :T T").unwrap(), ints(&[110, 110]));
}

#[test]
fn add_then_sub_restores() {
    assert_eq!(run("5 7 + 7 -").unwrap(), ints(&[5]));
    assert_eq!(run("-3 10 + 10 -").unwrap(), ints(&[-3]));
}

#[test]
fn add_overflow_is_an_error() {
    let r = run("9223372036854775807 1 +");
    match r {
        Err(Error::Runtime(RuntimeError::InvalidOperation(vs, name))) => {
            assert_eq!(name, "add");
            assert_eq!(vs.len(), 2);
        }
        other => panic!("expected invalid operation, got {:?}", other),
    }
}

#[test]
fn range_then_length_restores() {
    assert_eq!(run("5 , ,").unwrap(), ints(&[5]));
    assert_eq!(run("0 , ,").unwrap(), ints(&[0]));
}

#[test]
fn map_identity_block_on_array() {
    assert_eq!(run("[ 1 2 3 ] {} %").unwrap(), vec![arr(&[1, 2, 3])]);
}

#[test]
fn map_identity_block_on_text() {
    assert_eq!(run("\"ola\" {} %").unwrap(), vec![text("ola")]);
}

#[test]
fn map_increments() {
    assert_eq!(run("[ 1 2 3 ] { 1 + } %").unwrap(), vec![arr(&[2, 3, 4])]);
}

#[test]
fn filter_keeps_a_subsequence_in_order() {
    assert_eq!(run("[ 1 2 3 4 ] { 2 > } ,").unwrap(), vec![arr(&[3, 4])]);
    assert_eq!(run("[ 1 2 ] { 9 < } ,").unwrap(), vec![arr(&[1, 2])]);
    assert_eq!(run("[ 1 2 ] { 0 > } ,").unwrap(), vec![arr(&[1, 2])]);
}

#[test]
fn filter_on_text() {
    assert_eq!(run("\"aba\" { s \"a\" = } ,").unwrap(), vec![text("aa")]);
    assert_eq!(run("\"aba\" { ; 1 } ,").unwrap(), vec![text("aba")]);
}

#[test]
fn fold_on_empty_array_is_an_error() {
    let r = run("[ ] { + } *");
    match r {
        Err(Error::Runtime(RuntimeError::FoldingEmptyArray)) => {}
        other => panic!("expected the empty-fold error, got {:?}", other),
    }
}

#[test]
fn fold_on_single_element_returns_it() {
    assert_eq!(run("[ 7 ] { + } *").unwrap(), ints(&[7]));
    assert_eq!(run("[ 7 ] { * } *").unwrap(), ints(&[7]));
}

#[test]
fn fold_sums_left_to_right() {
    assert_eq!(run("[ 1 2 3 4 ] { + } *").unwrap(), ints(&[10]));
    assert_eq!(run("[ 10 2 3 ] { - } *").unwrap(), ints(&[5]));
}

#[test]
fn repetition_clamps_at_zero() {
    assert_eq!(run("[ 1 ] 0 *").unwrap(), vec![Value::Array(vec![])]);
    assert_eq!(run("[ 1 ] 1 *").unwrap(), vec![arr(&[1])]);
    assert_eq!(run("\"ab\" 3 *").unwrap(), vec![text("ababab")]);
    assert_eq!(run("\"ab\" -2 *").unwrap(), vec![text("")]);
}

#[test]
fn while_counts_down() {
    assert_eq!(run("5 { 1 - } w").unwrap(), ints(&[0]));
}

#[test]
fn sort_by_identity_key() {
    assert_eq!(run("[ 3 1 2 ] {} $").unwrap(), vec![arr(&[1, 2, 3])]);
}

#[test]
fn copy_by_depth() {
    assert_eq!(run("7 8 1 $").unwrap(), ints(&[7, 8, 7]));
    assert_eq!(run("7 8 1$").unwrap(), ints(&[7, 8, 7]));
    let r = run("7 8 5$");
    match r {
        Err(Error::Runtime(RuntimeError::OutOfBounds(len, at))) => {
            assert_eq!((len, at), (2, 5));
        }
        other => panic!("expected out of bounds, got {:?}", other),
    }
}

#[test]
fn stack_shuffles() {
    assert_eq!(run("1 2 \\").unwrap(), ints(&[2, 1]));
    assert_eq!(run("1 2 3 @").unwrap(), ints(&[2, 3, 1]));
    assert_eq!(run("1 2 ;").unwrap(), ints(&[1]));
    assert_eq!(run("5 _").unwrap(), ints(&[5, 5]));
}

#[test]
fn head_and_tail() {
    assert_eq!(run("[ 1 2 ] (").unwrap(), vec![arr(&[2]), Value::Integer(1)]);
    assert_eq!(run("[ 1 2 ] )").unwrap(), vec![arr(&[1]), Value::Integer(2)]);
    assert_eq!(run("5 (").unwrap(), ints(&[4]));
    assert_eq!(run("5 )").unwrap(), ints(&[6]));
    match run("[ ] (") {
        Err(Error::Runtime(RuntimeError::InvalidOperation(_, name))) => {
            assert_eq!(name, "remove head")
        }
        other => panic!("expected invalid operation, got {:?}", other),
    }
}

#[test]
fn preseeded_variables() {
    assert_eq!(run("X Y Z").unwrap(), ints(&[0, 1, 2]));
    assert_eq!(run("N").unwrap(), vec![Value::Char('\n')]);
    assert_eq!(run("42 :G G").unwrap(), ints(&[42, 42]));
}

#[test]
fn input_lines() {
    assert_eq!(
        run_with_input("l l", "ab\ncd").unwrap(),
        vec![text("ab"), text("cd")]
    );
    assert_eq!(run_with_input("l", "").unwrap(), vec![text("")]);
}

#[test]
fn spread_variants() {
    assert_eq!(run("[ 1 2 ] ~").unwrap(), ints(&[1, 2]));
    assert_eq!(run("0 ~").unwrap(), ints(&[-1]));
    assert_eq!(run("{ 1 2 } ~").unwrap(), ints(&[1, 2]));
}

#[test]
fn array_literal_items_run_alone() {
    // each inner token is its own one-token program on a fresh sub-stack,
    // so an operator that needs operands fails
    match run("[ 1 2 + ]") {
        Err(Error::Runtime(RuntimeError::StackEmpty)) => {}
        other => panic!("expected a stack-empty error, got {:?}", other),
    }
    assert_eq!(run("[ A B ]").unwrap(), vec![arr(&[10, 11])]);
}

#[test]
fn eager_logic_and_extrema() {
    assert_eq!(run("0 5 e&").unwrap(), ints(&[0]));
    assert_eq!(run("3 5 e&").unwrap(), ints(&[5]));
    assert_eq!(run("0 5 e|").unwrap(), ints(&[5]));
    assert_eq!(run("3 2 e<").unwrap(), ints(&[2]));
    assert_eq!(run("3 2 e>").unwrap(), ints(&[3]));
}

#[test]
fn power_and_substring_search() {
    assert_eq!(run("2 10 #").unwrap(), ints(&[1024]));
    assert_eq!(run("\"hello\" \"ll\" #").unwrap(), ints(&[2]));
    assert_eq!(run("\"hello\" \"xyz\" #").unwrap(), ints(&[-1]));
    match run("2 -1 #") {
        Err(Error::Runtime(RuntimeError::InvalidOperation(_, name))) => {
            assert_eq!(name, "pow_with_negative_number")
        }
        other => panic!("expected invalid operation, got {:?}", other),
    }
}

#[test]
fn slicing_indexing_comparing() {
    assert_eq!(run("[ 1 2 3 ] 2 <").unwrap(), vec![arr(&[1, 2])]);
    assert_eq!(run("[ 1 2 3 ] 2 >").unwrap(), vec![arr(&[2, 3])]);
    assert_eq!(run("\"abcd\" 2 >").unwrap(), vec![text("cd")]);
    assert_eq!(run("\"abcd\" 2 <").unwrap(), vec![text("ab")]);
    assert_eq!(run("[ 7 8 ] 1 =").unwrap(), ints(&[8]));
    assert_eq!(run("1 2 <").unwrap(), ints(&[1]));
    assert_eq!(run("1 2 >").unwrap(), ints(&[0]));
    assert_eq!(run("2 2 =").unwrap(), ints(&[1]));
    match run("[ 1 ] 5 =") {
        Err(Error::Runtime(RuntimeError::InvalidOperation(_, name))) => {
            assert_eq!(name, "index")
        }
        other => panic!("expected invalid operation, got {:?}", other),
    }
}

#[test]
fn division_and_splitting() {
    assert_eq!(run("7 2 /").unwrap(), ints(&[3]));
    match run("1 0 /") {
        Err(Error::Runtime(RuntimeError::InvalidOperation(_, name))) => assert_eq!(name, "div"),
        other => panic!("expected invalid operation, got {:?}", other),
    }
    assert_eq!(
        run("\"a,b\" \",\" /").unwrap(),
        vec![Value::Array(vec![text("a"), text("b")])]
    );
    assert_eq!(
        run_with_input("t N/", "x\ny").unwrap(),
        vec![Value::Array(vec![text("x"), text("y")])]
    );
    assert_eq!(
        run("\" a  b \" S/").unwrap(),
        vec![Value::Array(vec![text("a"), text("b")])]
    );
}

#[test]
fn casts() {
    assert_eq!(run("97 c").unwrap(), vec![Value::Char('a')]);
    assert_eq!(run("a i").unwrap(), ints(&[97]));
    assert_eq!(run("5 s").unwrap(), vec![text("5")]);
    assert_eq!(run("\"-12\" i").unwrap(), ints(&[-12]));
    match run("{ } i") {
        Err(Error::Runtime(RuntimeError::InvalidCast(_, name))) => assert_eq!(name, "i64"),
        other => panic!("expected invalid cast, got {:?}", other),
    }
    match run("5 f") {
        Err(Error::Runtime(RuntimeError::InvalidCast(_, name))) => assert_eq!(name, "float"),
        other => panic!("expected invalid cast, got {:?}", other),
    }
}

#[test]
fn text_length_is_in_bytes() {
    assert_eq!(run("\"h\u{e9}llo\" ,").unwrap(), ints(&[6]));
    assert_eq!(run("\"hello\" ,").unwrap(), ints(&[5]));
}

#[test]
fn syntax_errors() {
    match run("ab$") {
        Err(Error::Syntax(_)) => {}
        other => panic!("expected a syntax error, got {:?}", other),
    }
    match run("4.3") {
        Err(Error::Syntax(_)) => {}
        other => panic!("expected a syntax error, got {:?}", other),
    }
    match run("+") {
        Err(Error::Runtime(RuntimeError::StackEmpty)) => {}
        other => panic!("expected a stack-empty error, got {:?}", other),
    }
}

#[test]
fn blocks_share_and_rerun() {
    assert_eq!(run("{ 2 } :Q ; Q ~ Q ~").unwrap(), ints(&[2, 2]));
}

#[test]
fn block_equality_compares_token_texts_pairwise() {
    assert_eq!(run("{ 1 } { 1 } =").unwrap(), ints(&[1]));
    assert_eq!(run("{ 1 } { 2 } =").unwrap(), ints(&[0]));
    // pairwise comparison runs over the shorter block
    assert_eq!(run("{ 1 } { 1 2 } =").unwrap(), ints(&[1]));
}

#[test]
fn string_concat_coerces_the_other_operand() {
    assert_eq!(run("\"n=\" 5 +").unwrap(), vec![text("n=5")]);
    assert_eq!(run("\"ab\" \"cd\" +").unwrap(), vec![text("abcd")]);
    assert_eq!(run("a \"bc\" +").unwrap(), vec![text("abc")]);
}

#[test]
fn char_arithmetic_wraps_at_byte_level() {
    assert_eq!(run("a 1 +").unwrap(), vec![Value::Char('b')]);
    assert_eq!(run("b 1 -").unwrap(), vec![Value::Char('a')]);
    assert_eq!(run("a b +").unwrap(), vec![Value::Char('\u{c3}')]);
}

#[test]
fn repl_session_survives_errors_and_collects_output() {
    let mut repl = Repl::new("");
    assert!(repl.next_line("1 2").is_none());
    assert!(repl.next_line("+ +").is_some());
    assert!(repl.next_line("10 p").is_none());
    let out: Vec<String> = repl
        .take_output()
        .iter()
        .map(|l| l.iter().collect())
        .collect();
    assert_eq!(out, vec!["i(10)"]);
    assert_eq!(repl.into_vec(), ints(&[10]));
}

#[test]
fn print_renders_each_variant() {
    let mut repl = Repl::new("");
    assert!(repl.next_line("[ 1 a \"x\" ] p").is_none());
    let out: Vec<String> = repl
        .take_output()
        .iter()
        .map(|l| l.iter().collect())
        .collect();
    assert_eq!(out, vec!["a([i(1),c(a),s(x)])"]);
}

#[test]
fn array_to_text_uses_the_debug_form() {
    assert_eq!(run("[ 1 2 ] s").unwrap(), vec![text("[Integer(1), Integer(2)]")]);
}
