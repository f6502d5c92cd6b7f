use diagram_render_rs::greeting::hello;

#[test]
fn hello_greets_by_name() {
    assert_eq!(hello("world"), "Hello, world!");
}

#[test]
fn hello_keeps_an_empty_name() {
    assert_eq!(hello(""), "Hello, !");
}
