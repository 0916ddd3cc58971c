use classdecl::lexer::{cut_words, normalize_whitespace, split_words};

fn words(list: &[&str]) -> Vec<String> {
    list.iter().map(|w| w.to_string()).collect()
}

#[test]
fn whitespace_runs_collapse_to_one_space() {
    assert_eq!(normalize_whitespace("a \t\n  b\r\nc"), Ok("a b c".to_string()));
    assert_eq!(normalize_whitespace("  "), Ok(" ".to_string()));
    assert_eq!(normalize_whitespace(""), Ok(String::new()));
    assert_eq!(normalize_whitespace("abc"), Ok("abc".to_string()));
}

#[test]
fn words_are_runs_or_single_marks() {
    assert_eq!(cut_words("a b"), Ok(words(&["a", "b"])));
    assert_eq!(cut_words("foo_1(bar);"), Ok(words(&["foo_1", "(", "bar", ")", ";"])));
    assert_eq!(cut_words("x+=1"), Ok(words(&["x", "+", "=", "1"])));
}

#[test]
fn text_without_words_gives_nothing() {
    assert_eq!(split_words(""), Ok(vec![]));
    assert_eq!(split_words(" \n \t"), Ok(vec![]));
}

#[test]
fn split_keeps_order_and_every_mark() {
    assert_eq!(
        split_words("public class Foo{\n  private int x;\n}"),
        Ok(words(&["public", "class", "Foo", "{", "private", "int", "x", ";", "}"]))
    );
    assert_eq!(split_words("a,b"), Ok(words(&["a", ",", "b"])));
    assert_eq!(split_words("{{}}"), Ok(words(&["{", "{", "}", "}"])));
}

#[test]
fn split_keeps_letters_of_other_scripts_together() {
    assert_eq!(split_words("größe = 5;"), Ok(words(&["größe", "=", "5", ";"])));
}
