use shuttle_christmas::cookie::extract_recipe;

const RECIPE: &str = "eyJyZWNpcGUiOnsiZmxvdXIiOjk1LCJzdWdhciI6NTAsImJ1dHRlciI6MzAsImJha2luZyBwb3dkZXIiOjEwLCJjaG9jb2xhdGUgY2hpcHMiOjUwfSwicGFudHJ5Ijp7ImZsb3VyIjozODUsInN1Z2FyIjo1MDcsImJ1dHRlciI6MjEyMiwiYmFraW5nIHBvd2RlciI6ODY1LCJjaG9jb2xhdGUgY2hpcHMiOjQ1N319";

#[test]
fn recipe_is_the_second_field_decoded() {
    let cookie = format!("recipe={RECIPE}");
    assert_eq!(
        extract_recipe(&cookie).unwrap(),
        "{\"recipe\":{\"flour\":95,\"sugar\":50,\"butter\":30,\"baking powder\":10,\"chocolate chips\":50},\"pantry\":{\"flour\":385,\"sugar\":507,\"butter\":2122,\"baking powder\":865,\"chocolate chips\":457}}"
    );
}

#[test]
fn fields_after_the_second_are_left_out() {
    assert_eq!(extract_recipe("a=aGk=ignored").unwrap(), "hi");
    assert_eq!(extract_recipe("=aGk").unwrap(), "hi");
    assert_eq!(extract_recipe("a=aMOpbGxv").unwrap(), "héllo");
}

#[test]
fn empty_second_field_is_empty_text() {
    assert_eq!(extract_recipe("a=").unwrap(), "");
    assert_eq!(extract_recipe("a==aGk").unwrap(), "");
}

#[test]
fn cookie_without_second_field_has_no_recipe() {
    assert_eq!(extract_recipe(""), None);
    assert_eq!(extract_recipe("recipe"), None);
    assert_eq!(extract_recipe(RECIPE), None);
}

#[test]
fn field_that_is_no_base64_has_no_recipe() {
    assert_eq!(extract_recipe("a=a"), None);
    assert_eq!(extract_recipe("a=a!k"), None);
    assert_eq!(extract_recipe("a=aGk ; b"), None);
    // Bits that are left over must be zero.
    assert_eq!(extract_recipe("a=YQ").unwrap(), "a");
    assert_eq!(extract_recipe("a=YR"), None);
}

#[test]
fn padding_parts_fields_and_never_reaches_the_decoder() {
    assert_eq!(extract_recipe("a=YQ==").unwrap(), "a");
}

#[test]
fn bytes_that_are_no_utf8_have_no_recipe() {
    assert_eq!(extract_recipe("a=//4"), None);
}
