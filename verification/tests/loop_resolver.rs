use brainfuck::brackets::find_close;

fn chars(text: &str) -> Vec<char> {
    text.chars().collect()
}

#[test]
fn finds_the_bracket_of_an_empty_loop() {
    assert_eq!(find_close(&chars("[]"), 0), Some(1));
}

#[test]
fn finds_the_bracket_behind_a_body() {
    assert_eq!(find_close(&chars("+[>+<-]."), 1), Some(6));
}

#[test]
fn skips_nested_loops() {
    let program = chars("[a[b]c[d[e]]f]g");
    assert_eq!(find_close(&program, 0), Some(13));
    assert_eq!(find_close(&program, 2), Some(4));
    assert_eq!(find_close(&program, 6), Some(11));
    assert_eq!(find_close(&program, 8), Some(10));
}

#[test]
fn takes_the_first_bracket_that_closes() {
    assert_eq!(find_close(&chars("[]]]"), 0), Some(1));
}

#[test]
fn runs_off_the_end_without_a_match() {
    assert_eq!(find_close(&chars("["), 0), None);
    assert_eq!(find_close(&chars("[+++"), 0), None);
    assert_eq!(find_close(&chars("[[]"), 0), None);
    assert_eq!(find_close(&chars("[[[]]"), 0), None);
}

#[test]
fn an_earlier_closing_bracket_does_not_count() {
    assert_eq!(find_close(&chars("][+"), 1), None);
    assert_eq!(find_close(&chars("][+]"), 1), Some(3));
}

#[test]
fn a_position_outside_the_program_has_no_match() {
    assert_eq!(find_close(&chars(""), 0), None);
    assert_eq!(find_close(&chars("[]"), 2), None);
    assert_eq!(find_close(&chars("[]"), usize::MAX), None);
}

#[test]
fn the_scan_starts_at_depth_one_whatever_stands_at_the_start() {
    assert_eq!(find_close(&chars("+]"), 0), Some(1));
    assert_eq!(find_close(&chars("][]]"), 0), Some(3));
}
