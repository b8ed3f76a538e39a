use calculator::{parse_command, Command};

#[test]
fn blank_and_exit() {
    assert_eq!(parse_command("", false), Command::Blank);
    assert_eq!(parse_command("exit", true), Command::Exit);
    assert_eq!(parse_command("exits", false), Command::Evaluate("exits".to_string()));
}

#[test]
fn define_takes_the_rest_of_the_line() {
    assert_eq!(parse_command("func=x*x+1", false), Command::Define("x*x+1".to_string()));
    assert_eq!(parse_command("func=", true), Command::Define(String::new()));
}

#[test]
fn application_forms() {
    assert_eq!(parse_command("f=3", true), Command::Apply("3".to_string()));
    assert_eq!(parse_command("f(2+1)", true), Command::Apply("2+1".to_string()));
    assert_eq!(parse_command("f()", true), Command::Apply(String::new()));
    assert_eq!(parse_command("f(3", true), Command::BadApplication);
    assert_eq!(parse_command("foo", true), Command::BadApplication);
}

#[test]
fn without_a_function_f_is_an_expression() {
    assert_eq!(parse_command("f=3", false), Command::Evaluate("f=3".to_string()));
    assert_eq!(parse_command("1+2", true), Command::Evaluate("1+2".to_string()));
}
