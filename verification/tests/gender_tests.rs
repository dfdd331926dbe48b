use kitties::kitty::get_gender;
use kitties::kitty::Gender;

#[test]
fn even_length_identifier_is_male() {
    assert_eq!(get_gender(&b"abcd".to_vec()), Gender::Male);
    assert_eq!(get_gender(&b"ab".to_vec()), Gender::Male);
    assert_eq!(get_gender(&Vec::new()), Gender::Male);
}

#[test]
fn odd_length_identifier_is_female() {
    assert_eq!(get_gender(&b"xyz".to_vec()), Gender::Female);
    assert_eq!(get_gender(&b"a".to_vec()), Gender::Female);
}

#[test]
fn default_gender_is_male() {
    assert_eq!(Gender::default(), Gender::Male);
}
