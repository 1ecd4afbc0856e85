use letclone::error::ExpandError;
use letclone::expand;

fn ok(text: &str) -> Result<String, ExpandError> {
    Ok(text.to_string())
}

fn parse_error(item: Option<usize>, message: &str) -> Result<String, ExpandError> {
    Err(ExpandError::UnderlyingParseError { item, message: message.to_string() })
}

fn unsupported(item: usize, text: &str) -> Result<String, ExpandError> {
    Err(ExpandError::UnsupportedExpression { item, text: text.to_string() })
}

#[test]
fn ui_tests() {
    assert_eq!(expand("person.name"), ok("let name = person.name.clone();"));
    assert_eq!(
        expand("container.get_value()"),
        ok("let get_value = container . get_value ().clone();")
    );
    assert_eq!(
        expand("data.field1, data.field2, var"),
        ok("let field1 = data.field1.clone();let field2 = data.field2.clone();let var = var.clone();")
    );
    assert_eq!(expand("mut original"), ok("let mut original = original.clone();"));
}

#[test]
fn pass_field_access() {
    assert_eq!(expand("person.name"), ok("let name = person.name.clone();"));
}

#[test]
fn pass_method_call() {
    assert_eq!(
        expand("container.get_value()"),
        ok("let get_value = container . get_value ().clone();")
    );
}

#[test]
fn pass_multiple_exprs() {
    assert_eq!(
        expand("data.field1, data.field2, var"),
        ok("let field1 = data.field1.clone();let field2 = data.field2.clone();let var = var.clone();")
    );
}

#[test]
fn pass_mut_modifier() {
    assert_eq!(expand("mut original"), ok("let mut original = original.clone();"));
}

#[test]
fn bare_identifier_binds_its_own_name() {
    assert_eq!(expand("x"), ok("let x = x.clone();"));
    assert_eq!(expand("  some_value  "), ok("let some_value = some_value.clone();"));
}

#[test]
fn mutable_identifier() {
    assert_eq!(expand("mut x"), ok("let mut x = x.clone();"));
}

#[test]
fn raw_identifier_named_mut_is_no_marker() {
    assert_eq!(expand("r#mut"), ok("let r#mut = r#mut.clone();"));
}

#[test]
fn named_field_binds_the_field() {
    assert_eq!(expand("a.b"), ok("let b = a.b.clone();"));
    assert_eq!(expand("self.value"), ok("let value = self.value.clone();"));
    assert_eq!(expand("mut a.b"), ok("let mut b = a.b.clone();"));
}

#[test]
fn nested_field_binds_the_last_field() {
    assert_eq!(expand("a.b.c"), ok("let c = a . b.c.clone();"));
}

#[test]
fn field_of_any_base() {
    assert_eq!(expand("rows[0].name"), ok("let name = rows [0].name.clone();"));
    assert_eq!(expand("make().name"), ok("let name = make ().name.clone();"));
}

#[test]
fn method_call_binds_the_method() {
    assert_eq!(expand("a.m()"), ok("let m = a . m ().clone();"));
    assert_eq!(expand("mut a.m()"), ok("let mut m = a . m ().clone();"));
}

#[test]
fn commas_inside_a_call_do_not_split() {
    assert_eq!(expand("a.m(x, y), b"), ok("let m = a . m (x , y).clone();let b = b.clone();"));
}

#[test]
fn path_binds_its_last_segment() {
    assert_eq!(expand("config::DEFAULT"), ok("let DEFAULT = config :: DEFAULT.clone();"));
}

#[test]
fn one_statement_per_item_in_order() {
    assert_eq!(
        expand("c, mut b.x, a.get()"),
        ok("let c = c.clone();let mut x = b.x.clone();let get = a . get ().clone();")
    );
}

#[test]
fn same_name_twice_is_kept_twice() {
    assert_eq!(expand("a.x, b.x"), ok("let x = a.x.clone();let x = b.x.clone();"));
}

#[test]
fn trailing_comma_is_allowed() {
    assert_eq!(expand("a,"), ok("let a = a.clone();"));
    assert_eq!(expand("a, b ,"), ok("let a = a.clone();let b = b.clone();"));
}

#[test]
fn empty_input_is_an_empty_list() {
    assert_eq!(expand(""), Err(ExpandError::EmptyList));
    assert_eq!(expand("  \n "), Err(ExpandError::EmptyList));
}

#[test]
fn lone_comma_is_an_empty_segment() {
    assert_eq!(expand(","), Err(ExpandError::EmptySegment { item: 0 }));
}

#[test]
fn leading_comma_is_an_empty_segment() {
    assert_eq!(expand(",a"), Err(ExpandError::EmptySegment { item: 0 }));
}

#[test]
fn double_comma_is_an_empty_segment() {
    assert_eq!(expand("a,,b"), Err(ExpandError::EmptySegment { item: 1 }));
    assert_eq!(expand("a,,"), Err(ExpandError::EmptySegment { item: 1 }));
}

#[test]
fn positional_field_is_refused_by_name() {
    assert_eq!(expand("a.0"), Err(ExpandError::UnsupportedPositionalField { item: 0, index: 0 }));
    assert_eq!(
        expand("x, pair.7"),
        Err(ExpandError::UnsupportedPositionalField { item: 1, index: 7 })
    );
    assert_ne!(expand("a.0"), unsupported(0, "a . 0"));
}

#[test]
fn other_expressions_are_refused() {
    assert_eq!(expand("a[0]"), unsupported(0, "a [0]"));
    assert_eq!(expand("1+1"), unsupported(0, "1 + 1"));
    assert_eq!(expand("{}"), unsupported(0, "{ }"));
    assert_eq!(expand("f()"), unsupported(0, "f ()"));
    assert_eq!(expand("&a"), unsupported(0, "& a"));
    assert_eq!(expand("x, \"text\""), unsupported(1, "\"text\""));
}

#[test]
fn first_failing_item_decides() {
    assert_eq!(expand("a[0], b.0"), unsupported(0, "a [0]"));
    assert_eq!(
        expand("a, b.0, c[1]"),
        Err(ExpandError::UnsupportedPositionalField { item: 1, index: 0 })
    );
    assert_eq!(expand("1, , b"), unsupported(0, "1"));
}

#[test]
fn unbalanced_input_is_rejected_as_a_whole() {
    assert_eq!(expand("a.m("), parse_error(None, "cannot parse string into token stream"));
}

#[test]
fn parser_errors_name_the_item() {
    assert_eq!(expand("a b"), parse_error(Some(0), "unexpected token"));
    assert_eq!(
        expand("x, 1 +"),
        parse_error(Some(1), "unexpected end of input, expected an expression")
    );
    assert_eq!(
        expand("mut"),
        parse_error(Some(0), "unexpected end of input, expected an expression")
    );
}

#[test]
fn messages_say_which_item_and_why() {
    assert_eq!(expand("").unwrap_err().message(), "at least one expression required");
    assert_eq!(
        expand("a,,b").unwrap_err().message(),
        "item 1 is empty: an expression must stand before each comma"
    );
    assert_eq!(
        expand("a, b, c.12").unwrap_err().message(),
        "item 2: positional field access (.12) is not supported, use a named field"
    );
    assert_eq!(
        expand("a[0]").unwrap_err().message(),
        "item 0: unsupported expression `a [0]`, expected a path (var), a field access (a.b) or a method call (a.method())"
    );
    assert_eq!(expand("a b").unwrap_err().message(), "while parsing item 0: unexpected token");
    assert_eq!(
        expand("(").unwrap_err().message(),
        "while reading the list: cannot parse string into token stream"
    );
}

#[test]
fn attributes_of_a_field_access_are_left_out() {
    assert_eq!(expand("#[x] a.b"), ok("let b = a.b.clone();"));
}

#[test]
fn base_is_printed_token_by_token() {
    assert_eq!(expand("a?.b"), ok("let b = a ?.b.clone();"));
    assert_eq!(expand("(a).b"), ok("let b = (a).b.clone();"));
}

#[test]
fn spacing_of_the_input_does_not_matter() {
    assert_eq!(expand("a . b"), ok("let b = a.b.clone();"));
    assert_eq!(expand("a\n.b ,\tmut  c"), ok("let b = a.b.clone();let mut c = c.clone();"));
}

#[test]
fn method_call_with_generic_argument() {
    assert_eq!(expand("a.m::<T>()"), ok("let m = a . m ::< T > ().clone();"));
}

#[test]
fn comma_in_generic_arguments_does_not_separate() {
    assert_eq!(expand("a.m::<T, U>()"), ok("let m = a . m ::< T , U > ().clone();"));
    assert_eq!(
        expand("a.m::<T, U>(), mut b.c, d"),
        ok("let m = a . m ::< T , U > ().clone();let mut c = b.c.clone();let d = d.clone();")
    );
    assert_eq!(
        expand("x, Map::<K, V>::EMPTY"),
        ok("let x = x.clone();let EMPTY = Map ::< K , V >:: EMPTY.clone();")
    );
}

#[test]
fn closure_with_two_parameters_is_an_unsupported_expression() {
    assert_eq!(expand("|a, b| a"), unsupported(0, "| a , b | a"));
    assert_eq!(expand("x, |a, b| a, y"), unsupported(1, "| a , b | a"));
}

#[test]
fn comparison_ends_at_the_comma() {
    assert_eq!(expand("a < b, c > d"), unsupported(0, "a < b"));
}

#[test]
fn rejected_item_gives_the_message_for_its_text_up_to_the_comma() {
    assert_eq!(
        expand("1 +, b"),
        parse_error(Some(0), "unexpected end of input, expected an expression")
    );
    assert_eq!(expand("x, a b, c"), parse_error(Some(1), "unexpected token"));
}

#[test]
fn identifier_of_any_length_is_read() {
    let name = "n".repeat(5000);
    assert_eq!(expand(&name), ok(&format!("let {name} = {name}.clone();")));
    assert_eq!(expand(&format!("mut {name}")), ok(&format!("let mut {name} = {name}.clone();")));
    let name = "\u{e9}".repeat(700);
    assert_eq!(expand(&name), ok(&format!("let {name} = {name}.clone();")));
}

#[test]
fn field_and_call_with_names_of_any_length_are_read() {
    let a = "a".repeat(3000);
    let b = "b".repeat(3000);
    assert_eq!(expand(&format!("{a}.{b}")), ok(&format!("let {b} = {a}.{b}.clone();")));
    assert_eq!(expand(&format!("{a}.{b}()")), ok(&format!("let {b} = {a} . {b} ().clone();")));
}

#[test]
fn flat_list_of_any_length_is_read() {
    assert_eq!(expand(&"a,".repeat(5000)), ok(&"let a = a.clone();".repeat(5000)));
    assert_eq!(expand(&"a.m(),".repeat(3000)), ok(&"let m = a . m ().clone();".repeat(3000)));
    assert_eq!(
        expand(&"a.get(\"k\"),".repeat(1000)),
        ok(&"let get = a . get (\"k\").clone();".repeat(1000))
    );
}

#[test]
fn rejected_item_of_any_length_is_a_parse_error() {
    let name = "n".repeat(500);
    assert_eq!(
        expand(&format!("a, {name} +")),
        parse_error(Some(1), "unexpected end of input, expected an expression")
    );
}

#[test]
fn chain_within_the_bound_on_tokens_is_read() {
    let chain = format!("a{}", ".b".repeat(63));
    assert_eq!(expand(&chain), ok(&format!("let b = a{}.b.clone();", " . b".repeat(62))));
}

#[test]
fn item_of_too_many_tokens_is_refused() {
    let chain = format!("a{}", ".b".repeat(64));
    assert_eq!(expand(&chain), Err(ExpandError::TooLarge { item: Some(0) }));
    let negations = format!("{} a", "!".repeat(128));
    assert_eq!(expand(&format!("x, mut {negations}, y")), Err(ExpandError::TooLarge { item: Some(1) }));
    assert_eq!(
        expand(&format!("x, {negations}")).unwrap_err().message(),
        "item 1 is too large: an expression takes at most 128 tokens"
    );
}

#[test]
fn input_that_nests_too_deep_is_refused() {
    let deep = format!("{}a{}", "(".repeat(1025), ")".repeat(1025));
    assert_eq!(expand(&deep), Err(ExpandError::TooLarge { item: None }));
    assert_eq!(
        expand(&deep).unwrap_err().message(),
        "the list is too large: brackets nest at most 1024 deep"
    );
}

#[test]
fn after_an_unclear_character_every_opening_bracket_counts() {
    let list = format!("a.get('k'),{}", "a.m(),".repeat(1023));
    assert!(expand(&list).is_ok());
    let list = format!("a.get('k'),{}", "a.m(),".repeat(1024));
    assert_eq!(expand(&list), Err(ExpandError::TooLarge { item: None }));
}

#[test]
fn characters_within_a_string_count_as_tokens() {
    let list = format!("a.get(\"{}\"), b", "(".repeat(100));
    assert_eq!(
        expand(&list),
        ok(&format!("let get = a . get (\"{}\").clone();let b = b.clone();", "(".repeat(100)))
    );
    let list = format!("b, a.get(\"{}\")", "(".repeat(2000));
    assert_eq!(expand(&list), Err(ExpandError::TooLarge { item: Some(1) }));
    let list = format!("b, a.get(\"{}\")", "word ".repeat(120));
    assert!(expand(&list).is_ok());
    let list = format!("b, a.get(\"{}\")", "word ".repeat(130));
    assert_eq!(expand(&list), Err(ExpandError::TooLarge { item: Some(1) }));
}

#[test]
fn rejected_item_stays_rejected_in_a_long_list() {
    let input = format!("1 +, {}", "some_name, ".repeat(200));
    assert_eq!(
        expand(&input),
        parse_error(Some(0), "unexpected end of input, expected an expression")
    );
}

#[test]
fn deepest_nesting_within_the_bounds_is_read() {
    let parens = format!("{}a{}", "(".repeat(63), ")".repeat(63));
    assert_eq!(expand(&parens), unsupported(0, &parens));
    let brackets = format!("{}a{}", "[".repeat(63), "]".repeat(63));
    assert_eq!(expand(&brackets), unsupported(0, &brackets));
    let blocks = format!("{}a{}", "{".repeat(63), "}".repeat(63));
    assert!(matches!(expand(&blocks), Err(ExpandError::UnsupportedExpression { item: 0, .. })));
    let closures = format!("{}a", "||".repeat(63));
    assert!(matches!(expand(&closures), Err(ExpandError::UnsupportedExpression { item: 0, .. })));
    let negations = format!("{} a", "!".repeat(127));
    assert_eq!(expand(&negations), unsupported(0, &negations));
    let returns = format!("{}a", "return ".repeat(127));
    assert!(matches!(expand(&returns), Err(ExpandError::UnsupportedExpression { item: 0, .. })));
    let calls = format!("{}x{}", "a.m(".repeat(25), ")".repeat(25));
    assert!(expand(&calls).is_ok());
    let generics = format!("a as {}A{}", "A<".repeat(41), ">".repeat(41));
    assert!(matches!(expand(&generics), Err(ExpandError::UnsupportedExpression { item: 0, .. })));
    let branches = format!("{}{{}}", "if a {} else ".repeat(21));
    assert!(matches!(expand(&branches), Err(ExpandError::UnsupportedExpression { item: 0, .. })));
    let groups = format!(",{}a{}", "(".repeat(1024), ")".repeat(1024));
    assert_eq!(expand(&groups), Err(ExpandError::EmptySegment { item: 0 }));
}

#[test]
fn base_that_ends_in_a_dot_is_kept_apart() {
    assert_eq!(expand("1. .b"), ok("let b = 1. .b.clone();"));
}

#[test]
fn marker_alone_or_twice_is_no_expression() {
    assert_eq!(expand("mut mut"), parse_error(Some(0), "expected an expression"));
    assert_eq!(
        expand("a, mut"),
        parse_error(Some(1), "unexpected end of input, expected an expression")
    );
}

#[test]
fn keyword_fields_are_other_expressions() {
    assert_eq!(expand("a.await"), unsupported(0, "a . await"));
}
