use passgen::password::Password;

#[test]
fn new_keeps_the_value() {
    let password = Password::new("Secret 1!");
    assert_eq!(password.value, "Secret 1!");
    assert_eq!(password.as_str(), "Secret 1!");
}

#[test]
fn from_string_keeps_the_value() {
    let password = Password::from_string("ünï".to_string());
    assert_eq!(password.as_str(), "ünï");
    assert_eq!(password, Password::new("ünï"));
}

#[test]
fn passwords_compare_by_value() {
    assert_eq!(Password::new("a"), Password::new("a"));
    assert_ne!(Password::new("a"), Password::new("A"));
}
