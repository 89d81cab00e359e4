use votings_service::choices::{drop_blank_choices, validate_decrypted_choices, ChoicesError};

#[test]
fn valid_choices_pass() {
    assert_eq!(validate_decrypted_choices(&vec![1, 2], &vec![1, 2, 3], 1, 2), Ok(()));
    assert_eq!(validate_decrypted_choices(&vec![3], &vec![1, 2, 3], 1, 3), Ok(()));
}

#[test]
fn empty_choices_pass_when_none_are_required() {
    assert_eq!(validate_decrypted_choices(&vec![], &vec![1, 2], 0, 2), Ok(()));
}

#[test]
fn too_few_choices() {
    assert_eq!(
        validate_decrypted_choices(&vec![1], &vec![1, 2, 3], 2, 3),
        Err(ChoicesError::LessThanMinChoices)
    );
}

#[test]
fn too_many_choices() {
    assert_eq!(
        validate_decrypted_choices(&vec![1, 2, 3], &vec![1, 2, 3], 1, 2),
        Err(ChoicesError::MoreThanMaxChoices)
    );
}

#[test]
fn an_option_chosen_twice_in_a_row_is_a_duplicate() {
    assert_eq!(
        validate_decrypted_choices(&vec![2, 2], &vec![1, 2, 3], 1, 3),
        Err(ChoicesError::Duplicates)
    );
}

#[test]
fn an_option_chosen_twice_apart_is_a_duplicate() {
    assert_eq!(
        validate_decrypted_choices(&vec![1, 2, 1], &vec![1, 2], 1, 3),
        Err(ChoicesError::Duplicates)
    );
}

#[test]
fn duplicates_are_found_before_choices_outside_the_options() {
    assert_eq!(
        validate_decrypted_choices(&vec![1, 2, 1], &vec![1], 1, 3),
        Err(ChoicesError::Duplicates)
    );
}

#[test]
fn choices_outside_the_options() {
    assert_eq!(
        validate_decrypted_choices(&vec![1, 7], &vec![1, 2, 3], 1, 3),
        Err(ChoicesError::OutOfBounds)
    );
}

#[test]
fn the_count_is_checked_before_duplicates_and_options() {
    assert_eq!(
        validate_decrypted_choices(&vec![9, 9, 9], &vec![1], 4, 5),
        Err(ChoicesError::LessThanMinChoices)
    );
    assert_eq!(
        validate_decrypted_choices(&vec![9, 9, 9], &vec![1], 1, 2),
        Err(ChoicesError::MoreThanMaxChoices)
    );
    assert_eq!(
        validate_decrypted_choices(&vec![9, 9, 8], &vec![1], 1, 3),
        Err(ChoicesError::Duplicates)
    );
}

#[test]
fn blank_choices_are_dropped_in_order() {
    assert_eq!(drop_blank_choices(&vec![0, 3, 0, 1, 0]), vec![3, 1]);
    assert_eq!(drop_blank_choices(&vec![0, 0]), Vec::<u32>::new());
    assert_eq!(drop_blank_choices(&vec![]), Vec::<u32>::new());
}
