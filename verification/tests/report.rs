use file_stats::content::{analyze_text, FileContent};
use file_stats::report::file_info_line;

#[test]
fn line_names_the_file_and_both_counts() {
    let line = file_info_line("a.txt", &analyze_text("ab c"));
    assert_eq!(line, "File \"a.txt\" contains 4 characters where 1 are whitespace characters");
}

#[test]
fn line_of_an_empty_file_writes_zero() {
    let line = file_info_line("empty", &analyze_text(""));
    assert_eq!(line, "File \"empty\" contains 0 characters where 0 are whitespace characters");
}

#[test]
fn line_writes_numbers_in_decimal() {
    let cases: [(usize, usize); 9] = [
        (1, 0),
        (9, 9),
        (10, 1),
        (11, 10),
        (99, 10),
        (100, 99),
        (1000, 101),
        (4070, 407),
        (1234567890, 987654321),
    ];
    for (length, whitespaces) in cases {
        let content = FileContent::new(length, whitespaces).unwrap();
        assert_eq!(
            file_info_line("n", &content),
            format!(
                "File \"n\" contains {} characters where {} are whitespace characters",
                length, whitespaces
            )
        );
    }
}

#[test]
fn line_writes_the_largest_count() {
    let content = FileContent::new(usize::MAX, usize::MAX - 1).unwrap();
    assert_eq!(
        file_info_line("huge", &content),
        format!(
            "File \"huge\" contains {} characters where {} are whitespace characters",
            usize::MAX,
            usize::MAX - 1
        )
    );
}

#[test]
fn line_keeps_the_name_as_it_is() {
    let content = FileContent::new(2, 1).unwrap();
    assert_eq!(
        file_info_line("dir/with \"quotes\" and spaces.txt", &content),
        "File \"dir/with \"quotes\" and spaces.txt\" contains 2 characters where 1 are whitespace characters"
    );
    assert_eq!(
        file_info_line("", &content),
        "File \"\" contains 2 characters where 1 are whitespace characters"
    );
    assert_eq!(
        file_info_line("übung-日本.txt", &content),
        "File \"übung-日本.txt\" contains 2 characters where 1 are whitespace characters"
    );
}
