use fn_shape::error::ParseError;
use fn_shape::lookup::{resolve, LookupRequest};
use fn_shape::params::{split_parameters, Parameter};
use fn_shape::shape::{hidden_module_name, shape_symbol, symbol_from_upper, FunctionShape};
use fn_shape::signature::{assemble, scan_return};
use fn_shape::spacing::is_joined;
use fn_shape::token::{copy_span, copy_tokens, Delimiter, Token};
use proc_macro2::{Group, Ident, Literal, Punct, Spacing, Span, TokenStream, TokenTree};
use std::str::FromStr;

fn lower(stream: TokenStream) -> Vec<Token> {
    stream
        .into_iter()
        .map(|tree| match tree {
            TokenTree::Ident(ident) => Token::Ident(ident.to_string()),
            TokenTree::Punct(punct) => Token::Punct(punct.as_char()),
            TokenTree::Literal(literal) => Token::Literal(literal.to_string()),
            TokenTree::Group(group) => {
                let kind = match group.delimiter() {
                    proc_macro2::Delimiter::Parenthesis => Delimiter::Parenthesis,
                    proc_macro2::Delimiter::Brace => Delimiter::Brace,
                    proc_macro2::Delimiter::Bracket => Delimiter::Bracket,
                    proc_macro2::Delimiter::None => panic!("invisible group"),
                };
                Token::Group(kind, lower(group.stream()))
            }
        })
        .collect()
}

fn lex(text: &str) -> Vec<Token> {
    lower(TokenStream::from_str(text).unwrap())
}

fn raise(tokens: &[Token]) -> TokenStream {
    tokens
        .iter()
        .enumerate()
        .map(|(i, token)| match token {
            Token::Ident(text) => TokenTree::Ident(Ident::new(text, Span::call_site())),
            Token::Punct(ch) => {
                let joined = tokens.get(i + 1).map_or(false, |next| is_joined(*ch, next));
                let spacing = if joined { Spacing::Joint } else { Spacing::Alone };
                TokenTree::Punct(Punct::new(*ch, spacing))
            }
            Token::Literal(text) => TokenTree::Literal(Literal::from_str(text).unwrap()),
            Token::Group(kind, children) => {
                let delimiter = match kind {
                    Delimiter::Parenthesis => proc_macro2::Delimiter::Parenthesis,
                    Delimiter::Brace => proc_macro2::Delimiter::Brace,
                    Delimiter::Bracket => proc_macro2::Delimiter::Bracket,
                };
                TokenTree::Group(Group::new(delimiter, raise(children)))
            }
        })
        .collect()
}

fn text_of(tokens: &[Token]) -> String {
    raise(tokens).to_string()
}

fn punct(ch: char) -> Token {
    Token::Punct(ch)
}

fn parameter(name: &str, type_text: &str) -> Parameter {
    Parameter { name: name.to_string(), type_span: lex(type_text) }
}

/// The metadata that a lookup finds: that of the declaration whose symbol
/// the lookup names.
fn shape_found(declaration: &str, lookup: &str) -> FunctionShape {
    let signature = assemble(&lex(declaration)).unwrap();
    let request = resolve(&lex(lookup)).unwrap();
    assert_eq!(request.symbol(), shape_symbol(&signature.name));
    signature.shape()
}

const ADD: &str = "fn add(x: i32, y: i32) -> i32 { x + y }";
const GREET: &str = "fn greet(name: String) -> String { format!(\"Hello, {}!\", name) }";
const NO_PARAMS: &str = "fn no_params() -> &'static str { \"No parameters here!\" }";
const GENERIC_ADD: &str = "fn generic_add<T: Add<Output = T>>(x: T, y: T) -> T { x + y }";

#[test]
fn test_add_functionality() {
    // 1) Verify that add(2, 3) returns 5
    assert_eq!(fn_shape::samples::add(2, 3), 5);

    // 2) Check the FunctionShape fields for `add`
    let shape = shape_found(ADD, "add");
    assert_eq!(shape.name, "add");
    assert_eq!(shape.param_count, 2);
    assert_eq!(shape.param_names, vec!["x", "y"]);
}

#[test]
fn test_greet_functionality() {
    // 1) Verify that greet("Alice") returns "Hello, Alice!"
    let input = "Alice".to_string();
    assert_eq!(fn_shape::samples::greet(input.clone()), format!("Hello, {}!", input));

    // 2) Check the FunctionShape fields for `greet`
    let shape = shape_found(GREET, "greet");
    assert_eq!(shape.name, "greet");
    assert_eq!(shape.param_count, 1);
    assert_eq!(shape.param_names, vec!["name"]);
}

#[test]
fn test_no_params_functionality() {
    // 1) Verify that no_params() returns the expected &str
    assert_eq!(fn_shape::samples::no_params(), "No parameters here!");

    // 2) Check the FunctionShape fields for `no_params`
    let shape = shape_found(NO_PARAMS, "no_params");
    assert_eq!(shape.name, "no_params");
    assert_eq!(shape.param_count, 0);
    assert!(shape.param_names.is_empty());
}

#[test]
fn test_generic_add_functionality() {
    // 1) Verify that generic_add works for i32, i64, usize
    assert_eq!(fn_shape::samples::generic_add::<i32>(4, 5), 9);
    assert_eq!(fn_shape::samples::generic_add::<i64>(10, 20), 30);
    assert_eq!(fn_shape::samples::generic_add::<usize>(7, 8), 15);

    // 2) Check the FunctionShape fields for each concrete instantiation
    let shape_usize = shape_found(GENERIC_ADD, "generic_add<usize>");
    assert_eq!(shape_usize.name, "generic_add");
    assert_eq!(shape_usize.param_count, 2);
    assert_eq!(shape_usize.param_names, vec!["x", "y"]);

    let shape_i32 = shape_found(GENERIC_ADD, "generic_add<i32>");
    assert_eq!(shape_i32.name, "generic_add");
    assert_eq!(shape_i32.param_count, 2);
    assert_eq!(shape_i32.param_names, vec!["x", "y"]);

    let shape_i64 = shape_found(GENERIC_ADD, "generic_add<i64>");
    assert_eq!(shape_i64.name, "generic_add");
    assert_eq!(shape_i64.param_count, 2);
    assert_eq!(shape_i64.param_names, vec!["x", "y"]);
}

#[test]
fn split_parameters_empty_interior() {
    let parameters = split_parameters(&Vec::new()).unwrap();
    assert_eq!(parameters.len(), 0);
}

#[test]
fn split_parameters_two_in_order() {
    let parameters = split_parameters(&lex("x : i32 , y : i32")).unwrap();
    assert_eq!(parameters, vec![parameter("x", "i32"), parameter("y", "i32")]);
}

#[test]
fn split_parameters_comma_inside_angle_run() {
    let parameters = split_parameters(&lex("v : Pair < i32 , i32 >")).unwrap();
    assert_eq!(parameters, vec![parameter("v", "Pair < i32 , i32 >")]);
}

#[test]
fn split_parameters_comma_inside_group() {
    let parameters = split_parameters(&lex("p : (i32, i32), a : [u8; 4]")).unwrap();
    assert_eq!(parameters, vec![parameter("p", "(i32, i32)"), parameter("a", "[u8; 4]")]);
}

#[test]
fn split_parameters_trailing_comma() {
    let parameters = split_parameters(&lex("x : i32 , y : Vec<u8> ,")).unwrap();
    assert_eq!(parameters, vec![parameter("x", "i32"), parameter("y", "Vec<u8>")]);
}

#[test]
fn split_parameters_comma_after_closed_run() {
    let parameters = split_parameters(&lex("m : Map<K, Vec<V>>, n : usize")).unwrap();
    assert_eq!(parameters, vec![parameter("m", "Map<K, Vec<V>>"), parameter("n", "usize")]);
}

#[test]
fn split_parameters_depth_starts_anew_for_each_type() {
    let parameters = split_parameters(&lex("f : fn(u8) -> u8, g : Pair<A, B>")).unwrap();
    assert_eq!(parameters, vec![parameter("f", "fn(u8) -> u8"), parameter("g", "Pair<A, B>")]);
}

#[test]
fn split_parameters_closer_without_opener_closes_nothing() {
    let parameters = split_parameters(&lex("f : fn(u8) -> Vec<A, B>, n : u8")).unwrap();
    assert_eq!(parameters, vec![parameter("f", "fn(u8) -> Vec<A, B>"), parameter("n", "u8")]);
}

#[test]
fn split_parameters_comma_after_unclosed_opener() {
    let parameters = split_parameters(&lex("x : a < b , y : T")).unwrap();
    assert_eq!(parameters, vec![parameter("x", "a < b , y : T")]);
}

#[test]
fn split_parameters_malformed() {
    let malformed = Err(ParseError::MalformedParameter);
    assert_eq!(split_parameters(&lex("x i32")), malformed);
    assert_eq!(split_parameters(&lex("x")), malformed);
    assert_eq!(split_parameters(&lex("x :")), malformed);
    assert_eq!(split_parameters(&lex("x : , y : i32")), malformed);
    assert_eq!(split_parameters(&lex(", x : i32")), malformed);
    assert_eq!(split_parameters(&lex("x : i32 , , y : i32")), malformed);
    assert_eq!(split_parameters(&lex("x : i32 , 7 : i32")), malformed);
    assert_eq!(split_parameters(&lex("(x) : i32")), malformed);
}

#[test]
fn scan_return_verbatim_or_unit() {
    assert_eq!(scan_return(&lex("Vec < u8 >")), lex("Vec < u8 >"));
    assert_eq!(scan_return(&Vec::new()), vec![Token::Group(Delimiter::Parenthesis, Vec::new())]);
    assert_eq!(scan_return(&Vec::new()), lex("()"));
}

#[test]
fn assemble_add() {
    let signature = assemble(&lex("fn add ( x : i32 , y : i32 ) -> i32 { x + y }")).unwrap();
    assert_eq!(signature.name, "add");
    assert_eq!(signature.generics, None);
    assert_eq!(signature.parameters, vec![parameter("x", "i32"), parameter("y", "i32")]);
    assert_eq!(signature.return_type, lex("i32"));
    assert_eq!(vec![signature.body], lex("{ x + y }"));
}

#[test]
fn assemble_no_params() {
    let signature = assemble(&lex("fn no_params ( ) { }")).unwrap();
    assert_eq!(signature.name, "no_params");
    assert_eq!(signature.arity(), 0);
    assert_eq!(signature.generics, None);
    assert_eq!(signature.return_type, lex("()"));
    assert_eq!(signature.body, Token::Group(Delimiter::Brace, Vec::new()));
}

#[test]
fn assemble_generic_add() {
    let text = "fn generic_add < T : Add < Output = T > > ( x : T , y : T ) -> T { x + y }";
    let signature = assemble(&lex(text)).unwrap();
    assert_eq!(signature.name, "generic_add");
    assert_eq!(signature.generics, Some(lex("< T : Add < Output = T > >")));
    assert_eq!(signature.parameters, vec![parameter("x", "T"), parameter("y", "T")]);
    assert_eq!(signature.return_type, lex("T"));
    assert_eq!(vec![signature.body], lex("{ x + y }"));
}

#[test]
fn assemble_without_angle_consumes_nothing_for_generics() {
    let tokens = lex("fn plain ( a : u8 ) { a }");
    let signature = assemble(&tokens).unwrap();
    assert_eq!(signature.generics, None);
    assert_eq!(signature.parameters, split_parameters(&lex("a : u8")).unwrap());
    assert!(tokens[2].is_group(Delimiter::Parenthesis));
}

#[test]
fn assemble_return_type_with_lifetime_and_path() {
    let signature = assemble(&lex(NO_PARAMS)).unwrap();
    assert_eq!(signature.return_type, lex("&'static str"));
    let signature = assemble(&lex("fn f() -> std::vec::Vec<u8> {}")).unwrap();
    assert_eq!(signature.return_type, lex("std::vec::Vec<u8>"));
}

#[test]
fn assemble_arrow_with_nothing_after_it() {
    let signature = assemble(&lex("fn f() -> {}")).unwrap();
    assert_eq!(signature.return_type, lex("()"));
}

#[test]
fn assemble_span_without_arrow_is_kept() {
    let signature = assemble(&lex("fn f<T>(x: T) where T: Copy { x }")).unwrap();
    assert_eq!(signature.return_type, lex("where T: Copy"));
    assert_eq!(signature.generics, Some(lex("<T>")));
}

#[test]
fn assemble_takes_the_first_brace_group_as_body() {
    let signature = assemble(&lex("fn f() -> u8 { 1 } { 2 }")).unwrap();
    assert_eq!(vec![signature.body], lex("{ 1 }"));
    assert_eq!(signature.return_type, lex("u8"));
}

#[test]
fn assemble_scans_forward_to_the_parameter_list() {
    let signature = assemble(&lex("fn f extra [skipped] (x: u8) {}")).unwrap();
    assert_eq!(signature.parameters, vec![parameter("x", "u8")]);
}

#[test]
fn assemble_missing_keyword() {
    assert_eq!(assemble(&Vec::new()), Err(ParseError::MissingKeyword));
    assert_eq!(assemble(&lex("struct S { }")), Err(ParseError::MissingKeyword));
    assert_eq!(assemble(&lex("( ) { }")), Err(ParseError::MissingKeyword));
}

#[test]
fn assemble_missing_name() {
    assert_eq!(assemble(&lex("fn")), Err(ParseError::MissingName));
    assert_eq!(assemble(&lex("fn ( ) { }")), Err(ParseError::MissingName));
    assert_eq!(assemble(&lex("fn 3 ( ) { }")), Err(ParseError::MissingName));
}

#[test]
fn assemble_unbalanced_generics() {
    assert_eq!(assemble(&lex("fn f < T ( x : T ) { }")), Err(ParseError::UnbalancedGenerics));
}

#[test]
fn assemble_missing_parameter_list() {
    assert_eq!(assemble(&lex("fn f")), Err(ParseError::MissingParameterList));
    assert_eq!(assemble(&lex("fn f { }")), Err(ParseError::MissingParameterList));
    assert_eq!(assemble(&lex("fn f < T > [ x : T ] { }")), Err(ParseError::MissingParameterList));
}

#[test]
fn assemble_malformed_parameter() {
    assert_eq!(assemble(&lex("fn f ( x i32 )")), Err(ParseError::MalformedParameter));
    assert_eq!(assemble(&lex("fn f ( x i32 ) { }")), Err(ParseError::MalformedParameter));
}

#[test]
fn assemble_missing_body() {
    assert_eq!(assemble(&lex("fn f ( x : i32 )")), Err(ParseError::MissingBody));
    assert_eq!(assemble(&lex("fn f ( x : i32 ) -> i32")), Err(ParseError::MissingBody));
    assert_eq!(assemble(&lex("fn f ( x : i32 ) -> i32 ;")), Err(ParseError::MissingBody));
}

#[test]
fn spans_come_back_as_they_went_in() {
    let tokens = lex(GENERIC_ADD);
    let signature = assemble(&tokens).unwrap();
    let clause = signature.generics.unwrap();
    assert_eq!(clause, copy_span(&tokens, 2, 12));
    let again = lex("fn generic_add < T : Add < Output = T > > ( x : T , y : T ) -> T { x + y }");
    assert_eq!(again, tokens);
    assert_eq!(assemble(&again).unwrap().generics, Some(clause));
}

#[test]
fn spans_survive_text() {
    let text = "fn pick<'a, T: Add<Output = T>>(m: &'a Map<K, Vec<T>>, k: (u8, u8)) -> Option<&'a T> { m.get(k) }";
    let signature = assemble(&lex(text)).unwrap();
    let clause = signature.generics.unwrap();
    assert_eq!(lex(&text_of(&clause)), clause);
    assert_eq!(signature.parameters.len(), 2);
    for parameter in &signature.parameters {
        assert_eq!(lex(&text_of(&parameter.type_span)), parameter.type_span);
    }
    assert_eq!(text_of(&signature.parameters[0].type_span), "& 'a Map < K , Vec < T >>");
    assert_eq!(lex(&text_of(&signature.return_type)), signature.return_type);
    assert_eq!(text_of(&signature.return_type), "Option < & 'a T >");
}

#[test]
fn operators_survive_text() {
    let text = "{ x += 1; a && b || !c; |v| -> u8 { v }; e::f(g..=h, i >>= 2, j <<= 3); \
                k == l != m <= n >= o; p -= q *= r /= s %= t ^= u &= v |= w; x => y.. }";
    let tokens = lex(text);
    assert_eq!(lex(&text_of(&tokens)), tokens);
    assert_eq!(text_of(&lex("x += 1")), "x += 1");
    assert_eq!(text_of(&lex("a::b -> c")), "a :: b -> c");
    assert_eq!(text_of(&lex("&'a T")), "& 'a T");
    assert_eq!(text_of(&lex("a < -b")), "a < - b");
    assert_eq!(text_of(&lex("x = -1")), "x = - 1");
}

#[test]
fn joined_pairs() {
    let pairs = [
        ('-', '>'), ('=', '>'), ('=', '='), ('!', '='), ('<', '='), ('>', '='), ('&', '&'),
        ('|', '|'), ('+', '='), ('-', '='), ('*', '='), ('/', '='), ('%', '='), ('^', '='),
        ('&', '='), ('|', '='), ('<', '<'), ('>', '>'), ('.', '.'), ('.', '='), (':', ':'),
    ];
    let marks = "-=!<>&|+*/%^.:,;'#@?$~";
    for first in marks.chars() {
        for second in marks.chars() {
            assert_eq!(is_joined(first, &punct(second)), pairs.contains(&(first, second)));
        }
    }
    let name = Token::Ident("a".to_string());
    assert!(is_joined('\'', &name));
    assert!(!is_joined('&', &name));
    assert!(!is_joined('-', &Token::Literal("1".to_string())));
    assert!(!is_joined('-', &Token::Group(Delimiter::Parenthesis, Vec::new())));
}

#[test]
fn parts_written_out_decompose_again() {
    for text in [ADD, GREET, NO_PARAMS, GENERIC_ADD, "fn f() {}", "fn f(a: A<B, C>,) where A: D {}"] {
        let signature = assemble(&lex(text)).unwrap();
        let mut list = Vec::new();
        for (i, parameter) in signature.parameters.iter().enumerate() {
            if i > 0 {
                list.push(punct(','));
            }
            list.push(Token::Ident(parameter.name.clone()));
            list.push(punct(':'));
            list.extend(copy_tokens(&parameter.type_span));
        }
        let mut written = vec![Token::Ident("fn".to_string()), Token::Ident(signature.name.clone())];
        if let Some(clause) = &signature.generics {
            written.extend(copy_tokens(clause));
        }
        written.push(Token::Group(Delimiter::Parenthesis, list));
        written.push(punct('-'));
        written.push(punct('>'));
        written.extend(copy_tokens(&signature.return_type));
        written.push(signature.body.clone());
        assert_eq!(assemble(&written), Ok(signature));
    }
}

#[test]
fn clones_are_equal() {
    let signature = assemble(&lex(GENERIC_ADD)).unwrap();
    assert_eq!(signature.clone(), signature);
    assert_eq!(signature.parameters[0].clone(), signature.parameters[0]);
    assert_eq!(signature.shape().clone(), signature.shape());
    let request = resolve(&lex("generic_add<usize>")).unwrap();
    assert_eq!(request.clone(), request);
    let tokens = lex(ADD);
    assert_eq!(copy_tokens(&tokens), tokens);
    assert_eq!(copy_span(&tokens, 1, 2), lex("add"));
    assert_eq!(copy_span(&tokens, 3, 3), Vec::new());
}

#[test]
fn resolve_with_and_without_arguments() {
    assert_eq!(
        resolve(&lex("name < usize >")),
        Ok(LookupRequest { name: "name".to_string(), generic_args: Some(lex("usize")) })
    );
    assert_eq!(
        resolve(&lex("name")),
        Ok(LookupRequest { name: "name".to_string(), generic_args: None })
    );
}

#[test]
fn resolve_nested_arguments() {
    let request = resolve(&lex("name<Container<Inner<T>>, (A, B)>")).unwrap();
    assert_eq!(request.generic_args, Some(lex("Container<Inner<T>>, (A, B)")));
}

#[test]
fn resolve_failures() {
    assert_eq!(resolve(&Vec::new()), Err(ParseError::MissingName));
    assert_eq!(resolve(&lex("< usize >")), Err(ParseError::MissingName));
    assert_eq!(resolve(&lex("name < Vec < u8 >")), Err(ParseError::UnbalancedGenerics));
}

#[test]
fn derived_names() {
    assert_eq!(shape_symbol("add"), "ADD_SHAPE");
    assert_eq!(symbol_from_upper("ADD".to_string()), "ADD_SHAPE");
    assert_eq!(symbol_from_upper(String::new()), "_SHAPE");
    assert_eq!(shape_symbol("straße"), "STRASSE_SHAPE");
    assert_eq!(shape_symbol("generic_add"), "GENERIC_ADD_SHAPE");
    assert_eq!(hidden_module_name("add"), "__fn_shape_add");
    assert_eq!(resolve(&lex("greet")).unwrap().symbol(), "GREET_SHAPE");
}

#[test]
fn shape_lists_names_by_position() {
    let shape = assemble(&lex("fn f(b: u8, a: u8, c: Vec<u8>) {}")).unwrap().shape();
    assert_eq!(
        shape,
        FunctionShape {
            name: "f".to_string(),
            param_count: 3,
            param_names: vec!["b".to_string(), "a".to_string(), "c".to_string()],
        }
    );
}

#[test]
fn messages_name_the_construct() {
    assert_eq!(ParseError::MissingKeyword.message(), "expected `fn` keyword");
    assert_eq!(ParseError::MissingName.message(), "expected function name");
    assert_eq!(ParseError::MissingParameterList.message(), "expected parameter list");
    assert_eq!(ParseError::MalformedParameter.message(), "expected `name: type` parameter");
    assert_eq!(ParseError::UnbalancedGenerics.message(), "expected `>` to close generics");
    assert_eq!(ParseError::MissingBody.message(), "expected function body");
}

#[test]
fn clone_copies_children() {
    let tokens = lex("{ a ( b [ c ] ) \"d\" 1.5 }");
    assert_eq!(tokens[0].clone(), tokens[0]);
    assert!(tokens[0].is_group(Delimiter::Brace));
    assert!(!tokens[0].is_group(Delimiter::Bracket));
    assert!(Token::Punct('<').is_punct('<'));
    assert!(!Token::Punct('<').is_punct('>'));
    assert!(!Token::Ident("x".to_string()).is_punct('x'));
}
