use desktop_commands::greet;

#[test]
fn greet_world() {
    assert_eq!(greet("World".to_string()), "Hello, World!");
}

#[test]
fn greet_empty_name() {
    assert_eq!(greet(String::new()), "Hello, !");
}

#[test]
fn greet_keeps_the_name_as_given() {
    assert_eq!(greet("  Zoë & co.  ".to_string()), "Hello,   Zoë & co.  !");
    assert_eq!(greet("{}".to_string()), "Hello, {}!");
}
