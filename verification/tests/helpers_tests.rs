//! The structural scanner on its own: parenthesis matching and the
//! function-call shape.

use expr::{find_closing_parenthesis, find_nth_comma, is_function_call};

#[test]
fn helpers_find_closing_parenthesis() {
    assert_eq!(find_closing_parenthesis("(test)").unwrap(), 5);
    assert_eq!(find_closing_parenthesis("()").unwrap(), 1);
    assert!(find_closing_parenthesis("(test").is_none());
    assert!(find_closing_parenthesis("(").is_none());
}

#[test]
fn helpers_is_function_call() {
    assert!(is_function_call("test(test)").is_some());
    assert!(is_function_call("test()").is_some());
    assert!(is_function_call("test((),())").is_some());
    assert!(is_function_call("test").is_none());
    assert!(is_function_call("test(test)a").is_none());
    assert!(is_function_call("test()a").is_none());
}

#[test]
fn helpers_unclosed_inner_group_is_not_a_call() {
    assert!(is_function_call("a(b(c)").is_none());
    assert!(is_function_call("ab(cd").is_none());
}

#[test]
fn helpers_is_function_call_parts() {
    let (name, args, pos) = is_function_call("logab(1,(2))").unwrap();
    assert_eq!(name, "logab");
    assert_eq!(args, "1,(2)");
    assert_eq!(pos, 5);
}

#[test]
fn helpers_find_nth_comma_top_level() {
    assert_eq!(find_nth_comma("1,2", 1).unwrap(), 1);
    assert_eq!(find_nth_comma("(1,2),3", 1).unwrap(), 5);
    assert_eq!(find_nth_comma("1,2,3", 2).unwrap(), 3);
    assert!(find_nth_comma("(1,2)", 1).is_none());
}
