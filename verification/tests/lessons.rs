use typing_practice::lesson::chars_of;
use typing_practice::{lesson_id_of_file_name, Lesson};

fn lines_of(text: &str) -> Vec<String> {
    Lesson::new(text.to_string(), "01".to_string()).lines()
}

#[test]
fn lesson_keeps_its_id_and_text() {
    let lesson = Lesson::new("Home row\nasdf jkl\n".to_string(), "02b".to_string());
    assert_eq!(lesson.id(), "02b");
    assert_eq!(lesson.text(), "Home row\nasdf jkl\n");
}

#[test]
fn text_is_cut_at_line_feeds() {
    assert_eq!(lines_of("Title\ncat\ndog"), vec!["Title", "cat", "dog"]);
}

#[test]
fn final_line_feed_adds_no_line() {
    assert_eq!(lines_of("Title\ncat\n"), vec!["Title", "cat"]);
    assert_eq!(lines_of("Title\n"), vec!["Title"]);
}

#[test]
fn empty_lines_are_kept() {
    assert_eq!(lines_of("Title\n\ncat"), vec!["Title", "", "cat"]);
    assert_eq!(lines_of("\n"), vec![""]);
    assert_eq!(lines_of("\n\n"), vec!["", ""]);
}

#[test]
fn empty_text_has_no_line() {
    assert_eq!(lines_of(""), Vec::<String>::new());
}

#[test]
fn carriage_return_before_line_feed_is_dropped() {
    assert_eq!(lines_of("Title\r\ncat\r\n"), vec!["Title", "cat"]);
    // Only the one directly before the line feed, and only with a line feed.
    assert_eq!(lines_of("a\r\r\nb\r"), vec!["a\r", "b\r"]);
    assert_eq!(lines_of("\r\n"), vec![""]);
}

#[test]
fn lines_agree_with_the_standard_library() {
    let texts = [
        "",
        "one",
        "one\n",
        "one\ntwo",
        "one\r\ntwo\r\n",
        "\n\nthree\n\n",
        "tab\there\n  indented\n",
        "grüße\nnaïve café\n",
    ];
    for text in texts {
        let expected: Vec<String> = text.lines().map(|line| line.to_string()).collect();
        assert_eq!(lines_of(text), expected);
    }
}

#[test]
fn characters_are_counted_not_bytes() {
    assert_eq!(chars_of("añb"), vec!['a', 'ñ', 'b']);
    assert_eq!(chars_of(""), Vec::<char>::new());
    assert_eq!(lines_of("é\nü"), vec!["é", "ü"]);
}

#[test]
fn file_name_carries_the_lesson_id() {
    assert_eq!(lesson_id_of_file_name("lesson_02b.txt"), Some("02b".to_string()));
    assert_eq!(lesson_id_of_file_name("lesson_10.txt"), Some("10".to_string()));
}

#[test]
fn file_name_may_go_without_the_ending() {
    assert_eq!(lesson_id_of_file_name("lesson_03"), Some("03".to_string()));
    assert_eq!(lesson_id_of_file_name("lesson_03.md"), Some("03.md".to_string()));
}

#[test]
fn other_files_are_no_lessons() {
    assert_eq!(lesson_id_of_file_name("notes.txt"), None);
    assert_eq!(lesson_id_of_file_name("lesson"), None);
    assert_eq!(lesson_id_of_file_name("Lesson_01.txt"), None);
    assert_eq!(lesson_id_of_file_name(""), None);
    assert_eq!(lesson_id_of_file_name("my_lesson_01.txt"), None);
}

#[test]
fn head_and_tail_are_taken_off_once() {
    assert_eq!(lesson_id_of_file_name("lesson_.txt"), Some("".to_string()));
    assert_eq!(lesson_id_of_file_name("lesson_"), Some("".to_string()));
    assert_eq!(
        lesson_id_of_file_name("lesson_lesson_01.txt.txt"),
        Some("lesson_01.txt".to_string())
    );
    assert_eq!(lesson_id_of_file_name("lesson_été.txt"), Some("été".to_string()));
}
