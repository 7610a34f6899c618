use stack_machine::tokens::split_tokens;
use stack_machine::tokens::Iter;

fn chars(s: &str) -> Vec<char> {
    s.chars().collect()
}

fn texts(ts: Vec<Vec<char>>) -> Vec<String> {
    ts.iter().map(|t| t.iter().collect()).collect()
}

#[test]
fn tokens() {
    let got = texts(split_tokens(&chars(
        r#"1 2 c 4.3 [ 1 2 3 ] [ [ [ 1 ] ] ] "ola amigos tudo bem" "#,
    )));
    assert_eq!(
        got,
        vec![
            "1",
            "2",
            "c",
            "4.3",
            "[ 1 2 3 ]",
            "[ [ [ 1 ] ] ]",
            r#""ola amigos tudo bem""#
        ]
    );
}

#[test]
fn tokens_unterminated_groups_extend_to_end() {
    assert_eq!(texts(split_tokens(&chars("\"abc"))), vec!["\"abc"]);
    assert_eq!(texts(split_tokens(&chars("[ 1 2"))), vec!["[ 1 2"]);
    assert_eq!(texts(split_tokens(&chars("{ 1 {2}"))), vec!["{ 1 {2}"]);
}

#[test]
fn tokens_empty_input() {
    assert_eq!(texts(split_tokens(&chars(""))), Vec::<String>::new());
    assert_eq!(texts(split_tokens(&chars("   \t\n"))), Vec::<String>::new());
}

#[test]
fn tokens_nested_brackets() {
    assert_eq!(
        texts(split_tokens(&chars("{a {b} c} [x [y]]"))),
        vec!["{a {b} c}", "[x [y]]"]
    );
}

#[test]
fn tokens_iter_is_restartable_cursor() {
    let mut it = Iter::new(chars("1 2"));
    assert_eq!(it.next(), Some(chars("1")));
    assert_eq!(it.next(), Some(chars("2")));
    assert_eq!(it.next(), None);
}

#[test]
fn tokens_rejoin_with_spaces_is_stable() {
    let srcs = [
        r#"1 2 c 4.3 [ 1 2 3 ] [ [ [ 1 ] ] ] "ola amigos tudo bem" "#,
        "  a   b\t{ x  y }  \"q q\"  [ 1 ] trailing",
        "\"open 1 2",
        "[ un closed",
    ];
    for src in srcs {
        let once = texts(split_tokens(&chars(src)));
        let rejoined = once.join(" ");
        let twice = texts(split_tokens(&chars(&rejoined)));
        assert_eq!(once, twice);
    }
}
