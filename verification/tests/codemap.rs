use lox::codemap::Codemap;

#[test]
pub fn test_code_map() {
    let code = r###"zero
one
two
three
four"###;
    let codemap = Codemap::new(code);

    assert_eq!(
        (0..code.len()).map(|i| codemap.line_at(i)).collect::<Vec<_>>(),
        vec![1, 1, 1, 1, 1, 2, 2, 2, 2, 3, 3, 3, 3, 4, 4, 4, 4, 4, 4, 5, 5, 5, 5]
            .into_iter()
            .map(Some)
            .collect::<Vec<_>>()
    )
}

#[test]
fn empty_code_has_no_lines() {
    let codemap = Codemap::new("");
    assert_eq!(codemap.line_at(0), None);
    assert_eq!(codemap.line_at(10), None);
}

#[test]
fn positions_past_the_end_are_on_the_last_line() {
    let codemap = Codemap::new("a\nb\n");
    assert_eq!(codemap.line_at(0), Some(1));
    assert_eq!(codemap.line_at(1), Some(1));
    assert_eq!(codemap.line_at(2), Some(2));
    assert_eq!(codemap.line_at(4), Some(2));
    assert_eq!(codemap.line_at(100), Some(2));
}
