use glucose::text::{characters, parse_tokens, split};

fn chars(text: &str) -> Vec<char> {
    text.chars().collect()
}

fn pieces(text: &str, sep: char) -> Vec<String> {
    split(&chars(text), sep).into_iter().map(|p| p.into_iter().collect()).collect()
}

#[test]
fn the_characters_come_in_order() {
    assert_eq!(characters("4 3;-1"), vec!['4', ' ', '3', ';', '-', '1']);
    assert_eq!(characters(""), Vec::<char>::new());
    assert_eq!(characters("é∞"), vec!['é', '∞']);
}

#[test]
fn a_text_is_cut_at_each_separator() {
    assert_eq!(pieces("4 3 2;2 2 -1", ';'), vec!["4 3 2", "2 2 -1"]);
    assert_eq!(pieces("4 3 2", ' '), vec!["4", "3", "2"]);
    assert_eq!(pieces("abc", ' '), vec!["abc"]);
}

#[test]
fn separators_that_meet_or_stand_at_an_end_leave_empty_pieces() {
    assert_eq!(pieces("", ';'), vec![""]);
    assert_eq!(pieces(";", ';'), vec!["", ""]);
    assert_eq!(pieces("a;;b", ';'), vec!["a", "", "b"]);
    assert_eq!(pieces(";a;", ';'), vec!["", "a", ""]);
}

#[test]
fn tokens_are_parsed_up_to_the_first_bad_one() {
    let good = vec![chars("1"), chars("-2"), chars("+3")];
    assert_eq!(parse_tokens::<i64>(&good), Ok(vec![1, -2, 3]));
    let bad = vec![chars("1"), chars("two"), chars("3"), chars("")];
    assert_eq!(parse_tokens::<i64>(&bad), Err(1));
    assert_eq!(parse_tokens::<i64>(&vec![]), Ok(vec![]));
}
