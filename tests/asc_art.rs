use easy_shell_core::asc_art::{Animal, DOG_HEAD_LEFT, DOG_HEAD_RIGHT};

#[test]
fn const_len() {}

#[test]
fn pictures() {
    assert_eq!(Animal::DogHeadRight.tmpl_str(), DOG_HEAD_RIGHT);
    assert_eq!(Animal::DogHeadLeft.tmpl_str(), DOG_HEAD_LEFT);
    assert!(DOG_HEAD_LEFT.contains("o__^^/_/)"));
}
