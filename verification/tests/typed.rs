use webresult::typed::get_type_name;
use webresult::typed::leading_token;

#[derive(Debug)]
struct Zed();

#[derive(Debug)]
struct SuperZed {
    my_name: String,
}

#[test]
fn test_get_type_name() {
    let z = Zed();
    assert_eq!("Zed", get_type_name(&z));

    let sz = SuperZed { my_name: "My name is Zed!".to_owned() };
    assert_eq!("SuperZed", get_type_name(&sz));
}

#[test]
fn test_leading_token_skips_whitespace() {
    assert_eq!("Point", leading_token("  \t Point { x: 1 }"));
    assert_eq!("lone", leading_token("lone"));
    assert_eq!("", leading_token("   \n\t "));
    assert_eq!("", leading_token(""));
}
