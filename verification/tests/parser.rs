use implicit_mesh::parser::check_index;
use implicit_mesh::parser::incr_index;
use implicit_mesh::parser::try_incr_index;
use implicit_mesh::parser_error::ParseError;

#[test]
fn check_index_accepts_positions_inside_the_input() {
    let input: Vec<char> = "x+y".chars().collect();
    assert!(check_index(&input, 0).is_ok());
    assert!(check_index(&input, 2).is_ok());
    assert!(matches!(
        check_index(&input, 3),
        Err(ParseError::UnexpectedEnd)
    ));
    assert!(matches!(
        check_index(&input, 7),
        Err(ParseError::UnexpectedEnd)
    ));
}

#[test]
fn try_incr_index_skips_spaces() {
    let input: Vec<char> = "1 +   2".chars().collect();
    assert_eq!(try_incr_index(&input, 0).unwrap(), 2);
    assert_eq!(try_incr_index(&input, 2).unwrap(), 6);
    assert!(matches!(
        try_incr_index(&input, 6),
        Err(ParseError::UnexpectedEnd)
    ));

    let trailing: Vec<char> = "1   ".chars().collect();
    assert!(matches!(
        try_incr_index(&trailing, 0),
        Err(ParseError::UnexpectedEnd)
    ));
}

#[test]
fn incr_index_lands_on_next_non_space_or_end() {
    let input: Vec<char> = "1 +   2".chars().collect();
    assert_eq!(incr_index(&input, 0), 2);
    assert_eq!(incr_index(&input, 2), 6);
    assert_eq!(incr_index(&input, 6), 7);

    let trailing: Vec<char> = "1   ".chars().collect();
    assert_eq!(incr_index(&trailing, 0), 4);
}
