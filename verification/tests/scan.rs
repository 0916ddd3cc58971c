use classdecl::decl::{Class, Declaration, Diagnostic, Function, ParseError, Property};
use classdecl::tokenizer::{parse, Outcome, Tokenizer};

fn some(text: &str) -> Option<String> {
    Some(text.to_string())
}

fn words(list: &[&str]) -> Vec<String> {
    list.iter().map(|w| w.to_string()).collect()
}

fn property(modifier: Option<&str>, data_type: &str, name: &str) -> Property {
    Property { access_modifier: modifier.map(|m| m.to_string()), data_type: some(data_type), name: some(name) }
}

fn function(modifier: Option<&str>, return_type: &str, name: &str, parameters: &[&str]) -> Function {
    Function {
        access_modifier: modifier.map(|m| m.to_string()),
        return_type: some(return_type),
        name: some(name),
        parameters: words(parameters),
    }
}

fn unknown(token: &str, remaining: &[&str]) -> Diagnostic {
    Diagnostic::UnrecognizedConstruct { token: token.to_string(), remaining: words(remaining) }
}

#[test]
fn class_with_modifier_and_empty_body() {
    let outcome = parse("public class Foo { }").unwrap();
    assert_eq!(
        outcome.declarations,
        vec![Declaration::Class(Class {
            access_modifier: some("public"),
            name: some("Foo"),
            properties: vec![],
            functions: vec![],
        })]
    );
    assert_eq!(outcome.diagnostics, vec![]);
}

#[test]
fn class_keyword_as_first_word_is_only_examined() {
    // The first word of a step is searched for a modifier and removed, so a
    // leading `class` never reaches the keyword branch: `Foo` is read as a
    // construct, then `{` lacks its lookahead.
    assert_eq!(parse("class Foo { }"), Err(ParseError::TruncatedInput));
}

#[test]
fn class_after_a_leading_word_has_no_modifier() {
    let outcome = parse("; class Foo { }").unwrap();
    assert_eq!(
        outcome.declarations,
        vec![Declaration::Class(Class { access_modifier: None, name: some("Foo"), properties: vec![], functions: vec![] })]
    );
}

#[test]
fn public_class_with_private_property() {
    let outcome = parse("public class Foo { private int x; }").unwrap();
    assert_eq!(
        outcome.declarations,
        vec![Declaration::Class(Class {
            access_modifier: some("public"),
            name: some("Foo"),
            properties: vec![property(Some("private"), "int", "x")],
            functions: vec![],
        })]
    );
    assert_eq!(outcome.diagnostics, vec![unknown("x", &["private", "int", "x", ";", "}"])]);
}

#[test]
fn top_level_function_joins_parameter_words() {
    let outcome = parse("public void bar ( int y ) { return ; }").unwrap();
    assert_eq!(
        outcome,
        Outcome {
            declarations: vec![Declaration::Function(function(Some("public"), "void", "bar", &["inty"]))],
            diagnostics: vec![],
        }
    );
}

#[test]
fn top_level_property_discards_initializer() {
    let outcome = parse("private int x = 5 ;").unwrap();
    assert_eq!(
        outcome,
        Outcome {
            declarations: vec![Declaration::Property(property(Some("private"), "int", "x"))],
            diagnostics: vec![],
        }
    );
}

#[test]
fn dangling_close_brace_is_reported() {
    let outcome = parse("; }").unwrap();
    assert_eq!(outcome.declarations, vec![]);
    assert_eq!(outcome.diagnostics, vec![Diagnostic::StructuralUnderflow]);
}

#[test]
fn dangling_close_brace_after_a_property() {
    let outcome = parse("private int x ; }").unwrap();
    assert_eq!(outcome.declarations, vec![Declaration::Property(property(Some("private"), "int", "x"))]);
    assert_eq!(outcome.diagnostics, vec![Diagnostic::StructuralUnderflow]);
}

#[test]
fn reported_close_brace_is_consumed() {
    // The second brace is the word that the next step examines.
    let outcome = parse("; } }").unwrap();
    assert_eq!(outcome.declarations, vec![]);
    assert_eq!(outcome.diagnostics, vec![Diagnostic::StructuralUnderflow]);
}

#[test]
fn lone_close_brace_is_only_examined() {
    let outcome = parse("}").unwrap();
    assert_eq!(outcome, Outcome { declarations: vec![], diagnostics: vec![] });
}

#[test]
fn empty_text_gives_nothing() {
    assert_eq!(parse(""), Ok(Outcome { declarations: vec![], diagnostics: vec![] }));
    assert_eq!(parse(" \n\t "), Ok(Outcome { declarations: vec![], diagnostics: vec![] }));
}

#[test]
fn initializer_and_plain_property_are_equal() {
    let with = parse("private int x = 5 ;").unwrap();
    let without = parse("private int x ;").unwrap();
    assert_eq!(with.declarations, without.declarations);
    let long = parse("private int x = foo ( 1 , 2 ) + 3 ;").unwrap();
    assert_eq!(long.declarations, without.declarations);
}

#[test]
fn initializer_without_terminator_runs_to_the_end() {
    let outcome = parse("private int x = 5").unwrap();
    assert_eq!(outcome.declarations, vec![Declaration::Property(property(Some("private"), "int", "x"))]);
}

#[test]
fn initializer_is_discarded_through_its_terminator() {
    let outcome = parse("private int x = 5 ; private int y ;").unwrap();
    assert_eq!(
        outcome.declarations,
        vec![
            Declaration::Property(property(Some("private"), "int", "x")),
            Declaration::Property(property(Some("private"), "int", "y")),
        ]
    );
    assert_eq!(outcome.diagnostics, vec![]);
}

#[test]
fn parameter_lists_of_each_length() {
    let none = parse("public void f ( ) ;").unwrap();
    assert_eq!(none.declarations, vec![Declaration::Function(function(Some("public"), "void", "f", &[]))]);
    let one = parse("public void f ( int a ) ;").unwrap();
    assert_eq!(one.declarations, vec![Declaration::Function(function(Some("public"), "void", "f", &["inta"]))]);
    let three = parse("public void f ( int a , String b , long c ) { }").unwrap();
    assert_eq!(
        three.declarations,
        vec![Declaration::Function(function(Some("public"), "void", "f", &["inta", "Stringb", "longc"]))]
    );
}

#[test]
fn word_behind_a_comma_starts_the_next_parameter() {
    let outcome = parse("public void f ( a , , b ) ;").unwrap();
    assert_eq!(outcome.declarations, vec![Declaration::Function(function(Some("public"), "void", "f", &["a", ",b"]))]);
}

#[test]
fn nested_braces_in_a_body_are_counted() {
    let outcome = parse("public void f ( ) { if { x } else { y } } private int z ;").unwrap();
    assert_eq!(
        outcome.declarations,
        vec![
            Declaration::Function(function(Some("public"), "void", "f", &[])),
            Declaration::Property(property(Some("private"), "int", "z")),
        ]
    );
    assert_eq!(outcome.diagnostics, vec![]);
}

#[test]
fn function_inside_a_class() {
    let outcome = parse("public class A { public int get ( ) { return x ; } ; }").unwrap();
    assert_eq!(
        outcome.declarations,
        vec![Declaration::Class(Class {
            access_modifier: some("public"),
            name: some("A"),
            properties: vec![],
            functions: vec![function(Some("public"), "int", "get", &[])],
        })]
    );
}

#[test]
fn brace_right_behind_a_body_is_only_examined() {
    // The body is skipped through its own brace; the next step removes the
    // class's brace as the word it examines, so the class stays open.
    let outcome = parse("public class A { public int get ( ) { return x ; } }").unwrap();
    assert_eq!(outcome.declarations, vec![]);
}

#[test]
fn nested_classes_come_out_innermost_first() {
    let outcome = parse("public class A { private class B { } }").unwrap();
    assert_eq!(
        outcome.declarations,
        vec![
            Declaration::Class(Class { access_modifier: some("private"), name: some("B"), properties: vec![], functions: vec![] }),
            Declaration::Class(Class { access_modifier: some("public"), name: some("A"), properties: vec![], functions: vec![] }),
        ]
    );
    assert_eq!(outcome.diagnostics, vec![unknown("B", &["private", "class", "B", "{", "}", "}"])]);
}

#[test]
fn unclosed_class_is_dropped() {
    let outcome = parse("public class Foo { private int x ;").unwrap();
    assert_eq!(outcome.declarations, vec![]);
    let inner = parse("public class A { private class B { }").unwrap();
    assert_eq!(
        inner.declarations,
        vec![Declaration::Class(Class { access_modifier: some("private"), name: some("B"), properties: vec![], functions: vec![] })]
    );
}

#[test]
fn truncated_inputs_abort() {
    assert_eq!(parse("public class"), Err(ParseError::TruncatedInput));
    assert_eq!(parse("public int x"), Err(ParseError::TruncatedInput));
    assert_eq!(parse("public void f ( int a"), Err(ParseError::TruncatedInput));
    assert_eq!(parse("public void f ( int a ,"), Err(ParseError::TruncatedInput));
    assert_eq!(parse("public void f ( )"), Err(ParseError::TruncatedInput));
    assert_eq!(parse("public void f ( ) { {  }"), Err(ParseError::TruncatedInput));
    assert_eq!(parse("public void f ( a , ) ;"), Err(ParseError::TruncatedInput));
}

#[test]
fn unrecognized_construct_names_token_and_rest() {
    let outcome = parse("a b c d").unwrap_err();
    assert_eq!(outcome, ParseError::TruncatedInput);
    let outcome = parse("a b c d e f ;").unwrap();
    assert_eq!(outcome.declarations, vec![Declaration::Property(property(None, "e", "f"))]);
    assert_eq!(
        outcome.diagnostics,
        vec![
            unknown("d", &["b", "c", "d", "e", "f", ";"]),
            unknown("e", &["c", "d", "e", "f", ";"]),
            unknown("f", &["d", "e", "f", ";"]),
        ]
    );
}

#[test]
fn modifier_is_found_at_the_start_of_a_longer_word() {
    let outcome = Tokenizer::new(words(&["protectedfoo", "int", "x", ";"])).run().unwrap();
    assert_eq!(outcome.declarations, vec![Declaration::Property(property(Some("protected"), "int", "x"))]);
    let outcome = Tokenizer::new(words(&["  private", "int", "x", ";"])).run().unwrap();
    assert_eq!(outcome.declarations, vec![Declaration::Property(property(Some("private"), "int", "x"))]);
    let outcome = Tokenizer::new(words(&["xpublic", "int", "x", ";"])).run().unwrap();
    assert_eq!(outcome.declarations, vec![Declaration::Property(property(None, "int", "x"))]);
}

#[test]
fn pushed_declarations_go_to_the_output_without_a_class() {
    let mut t = Tokenizer::new(vec![]);
    t.push_prop_to_stack(property(None, "int", "x"));
    t.push_func_to_stack(function(None, "void", "f", &["a"]));
    let outcome = t.run().unwrap();
    assert_eq!(
        outcome.declarations,
        vec![
            Declaration::Property(property(None, "int", "x")),
            Declaration::Function(function(None, "void", "f", &["a"])),
        ]
    );
}

#[test]
fn pushed_declarations_go_to_the_innermost_class() {
    let mut t = Tokenizer::new(words(&["class", "A", "class", "B", ";", "}", "}"]));
    assert_eq!(t.dispatch(some("public")), Ok(()));
    assert_eq!(t.dispatch(None), Ok(()));
    t.push_prop_to_stack(property(None, "int", "x"));
    t.push_func_to_stack(function(None, "void", "f", &[]));
    let outcome = t.run().unwrap();
    assert_eq!(
        outcome.declarations,
        vec![
            Declaration::Class(Class {
                access_modifier: None,
                name: some("B"),
                properties: vec![property(None, "int", "x")],
                functions: vec![function(None, "void", "f", &[])],
            }),
            Declaration::Class(Class { access_modifier: some("public"), name: some("A"), properties: vec![], functions: vec![] }),
        ]
    );
}

#[test]
fn a_step_on_no_words_is_truncated() {
    let mut t = Tokenizer::new(vec![]);
    assert_eq!(t.tokenize(), Err(ParseError::TruncatedInput));
    assert_eq!(t.dispatch(None), Ok(()));
    assert_eq!(t.run(), Ok(Outcome { declarations: vec![], diagnostics: vec![] }));
}

#[test]
fn a_failed_step_leaves_the_tokenizer_as_it_was() {
    let mut t = Tokenizer::new(words(&["public", "int", "x"]));
    assert_eq!(t.tokenize(), Err(ParseError::TruncatedInput));
    assert_eq!(t.tokenize(), Err(ParseError::TruncatedInput));
    assert_eq!(t.run(), Err(ParseError::TruncatedInput));
}

#[test]
fn diagnostics_can_be_read_between_steps() {
    let mut t = Tokenizer::new(words(&[";", "}", "a", "b", "c", "d"]));
    assert!(!t.is_exhausted());
    assert_eq!(t.tokenize(), Ok(()));
    assert_eq!(t.diagnostics(), &vec![Diagnostic::StructuralUnderflow]);
    assert_eq!(t.tokenize(), Ok(()));
    assert_eq!(t.diagnostics(), &vec![Diagnostic::StructuralUnderflow, unknown("d", &["b", "c", "d"])]);
    assert!(!t.is_exhausted());
    let outcome = t.finish();
    assert_eq!(outcome.declarations, vec![]);
    assert_eq!(outcome.diagnostics.len(), 2);
}

#[test]
fn open_classes_at_the_end_are_counted_and_dropped() {
    let mut t = Tokenizer::new(words(&["public", "class", "Foo", "{", "private", "int", "x", ";"]));
    while !t.is_exhausted() {
        assert_eq!(t.tokenize(), Ok(()));
    }
    assert_eq!(t.open_classes(), 1);
    assert_eq!(t.finish().declarations, vec![]);

    let mut t = Tokenizer::new(words(&["public", "class", "Foo", "{", "private", "int", "x", ";", "}"]));
    while !t.is_exhausted() {
        assert_eq!(t.tokenize(), Ok(()));
    }
    assert_eq!(t.open_classes(), 0);
    assert_eq!(t.finish().declarations.len(), 1);
}

#[test]
fn output_only_grows() {
    let mut t = Tokenizer::new(words(&["private", "int", "x", ";", "private", "int", "y", ";", "}"]));
    assert_eq!(t.tokenize(), Ok(()));
    assert_eq!(t.tokenize(), Ok(()));
    assert_eq!(t.tokenize(), Ok(()));
    assert_eq!(t.diagnostics(), &vec![unknown("y", &["private", "int", "y", ";", "}"])]);
    let outcome = t.run().unwrap();
    assert_eq!(
        outcome.declarations,
        vec![
            Declaration::Property(property(Some("private"), "int", "x")),
            Declaration::Property(property(Some("private"), "int", "y")),
        ]
    );
    assert_eq!(outcome.diagnostics.len(), 2);
    assert_eq!(outcome.diagnostics[1], Diagnostic::StructuralUnderflow);
}
