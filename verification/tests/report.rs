use moonshine_check::report::{abort_message, strictly_invalid};

#[test]
fn message_names_instance_and_filter() {
    assert_eq!(
        strictly_invalid("Foo(3v1)", "Without<Bar>"),
        "Foo(3v1) is strictly invalid: Without<Bar>"
    );
    assert_eq!(strictly_invalid("", ""), " is strictly invalid: ");
}

#[test]
fn message_shortens_the_filter_type() {
    assert_eq!(
        abort_message("Foo(3v1)", "bevy_ecs::query::filter::Without<my_game::parts::Bar>"),
        "Foo(3v1) is strictly invalid: Without<Bar>"
    );
    assert_eq!(
        abort_message("Apple(0v1)", "(a::With<b::X>, c::d::Without<e::Y>)"),
        "Apple(0v1) is strictly invalid: (With<X>, Without<Y>)"
    );
    assert_eq!(abort_message("E", "Plain"), "E is strictly invalid: Plain");
}
