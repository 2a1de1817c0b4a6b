use running_text::cmd::{CommandError, LastOutput};
use running_text::registry::Registry;
use running_text::resume::{read_record, write_record};
use running_text::utils::replace_newline;
use running_text::{ConstructionError, RunningText, SourceError, TextIter, TextSource};

fn fragment(w: usize, repeat: bool, separator: &str, rules: &[(&str, &str)]) -> TextIter {
    TextIter::new(
        Box::new("unused".to_owned()),
        w,
        repeat,
        separator.to_owned(),
        rules.iter().map(|(a, b)| (a.to_string(), b.to_string())).collect(),
        false,
    )
}

#[test]
fn newlines_are_replaced_and_carriage_returns_go() {
    let mut text = "one\r\ntwo\nthree\r".to_owned();
    replace_newline(&mut text, " | ");
    assert_eq!(text, "one | two | three");
}

#[test]
fn newlines_go_where_the_replacement_is_empty() {
    let mut text = "\none\n\ntwo\r\n".to_owned();
    replace_newline(&mut text, "");
    assert_eq!(text, "onetwo");
}

#[test]
fn a_text_without_newlines_stays() {
    let mut text = "añ€ 😀".to_owned();
    replace_newline(&mut text, "xyz");
    assert_eq!(text, "añ€ 😀");
    let mut text = String::new();
    replace_newline(&mut text, "xyz");
    assert_eq!(text, "");
}

#[test]
fn a_replacement_of_several_characters() {
    let mut text = "a\nb\n".to_owned();
    replace_newline(&mut text, "€€");
    assert_eq!(text, "a€€b€€");
}

#[test]
fn a_string_is_a_source_that_never_changes() {
    let mut source = "content".to_owned();
    assert_eq!(source.get().unwrap(), "content");
    assert!(source.get_if_changed().is_none());
    assert_eq!(source.get().unwrap(), "content");
    assert_eq!(source, "content");
}

#[test]
fn a_fragment_hands_out_its_source() {
    let mut fragment = TextIter::new(
        Box::new("from the source".to_owned()),
        4,
        false,
        String::new(),
        Vec::new(),
        true,
    );
    assert!(fragment.right());
    assert_eq!(fragment.source().get().unwrap(), "from the source");
    assert!(fragment.source().get_if_changed().is_none());
    assert!(!self::fragment(1, false, "", &[]).right());
}

#[test]
fn the_separator_comes_behind_a_content_that_runs() {
    let text = fragment(3, false, "|", &[]).new_text("abcd".to_owned()).unwrap();
    assert_eq!(text.as_str(), "abcd|ab");
    let text = fragment(10, true, " * ", &[]).new_text("abcd".to_owned()).unwrap();
    assert_eq!(text.as_str(), "abcd * abcd * ab");
}

#[test]
fn the_separator_stays_away_from_a_content_that_fits() {
    let text = fragment(4, false, "|", &[]).new_text("abcd".to_owned()).unwrap();
    assert_eq!(text.as_str(), "abcd");
    assert_eq!(text.iter().next(), Some("abcd"));
}

#[test]
fn the_rules_apply_to_the_separator_too() {
    let text = fragment(2, true, "\n", &[("&", "&amp;"), ("\n", " & ")]).new_text("a&b".to_owned()).unwrap();
    assert_eq!(text.as_str(), "a&amp;b & a");
    let mut it = text.iter();
    assert_eq!(it.next(), Some("a&amp;"));
    assert_eq!(it.next(), Some("&amp;b"));
    assert_eq!(it.next(), Some("b & "));
    assert_eq!(it.next(), Some(" & a"));
    assert_eq!(it.next(), Some("a&amp;"));
}

#[test]
fn the_fit_is_judged_by_the_characters_of_the_content() {
    // six characters do not fit a window of five, though the rule leaves four units of them
    let text = fragment(5, false, "|", &[("abc", "x")]).new_text("abcabc".to_owned()).unwrap();
    assert_eq!(text.as_str(), "xx|");
    assert_eq!(text.iter().next(), Some("xx|"));
    assert_eq!(text.iter().range(), 0..3);
}

#[test]
fn a_fragment_reports_what_is_wrong_with_it() {
    assert_eq!(
        fragment(0, false, "", &[]).new_text("a".to_owned()).err(),
        Some(ConstructionError::ZeroWidth)
    );
    assert_eq!(
        fragment(1, false, "", &[("", "a")]).new_text("a".to_owned()).err(),
        Some(ConstructionError::EmptyPattern)
    );
    assert_eq!(
        fragment(1, true, "", &[]).new_text(String::new()).err(),
        Some(ConstructionError::EmptyContent)
    );
    assert!(fragment(1, true, "-", &[]).new_text(String::new()).is_ok());
}

#[test]
fn errors_have_texts() {
    assert_eq!(ConstructionError::ZeroWidth.to_string(), "the window must have a width of at least 1");
    assert_eq!(ConstructionError::EmptyPattern.to_string(), "the pattern of a replacement is empty");
    assert_eq!(ConstructionError::EmptyContent.to_string(), "a text without content cannot run");
    assert_eq!(SourceError::new("no such file".to_owned()).to_string(), "no such file");
    assert_eq!(
        CommandError::Io("not found".to_owned()).to_string(),
        "Io error while executing command: not found"
    );
    assert_eq!(
        CommandError::UTF8("byte 3".to_owned()).to_string(),
        "Child process has outputed invalid UTF-8: byte 3"
    );
    assert_eq!(
        CommandError::UTF8("byte 3".to_owned()).into_source_error().message,
        "Child process has outputed invalid UTF-8: byte 3"
    );
}

#[test]
fn a_record_is_read_as_it_was_written() {
    let line = write_record(17, "a text with spaces");
    assert_eq!(line, "17 a text with spaces");
    assert_eq!(read_record(&line), Some((17, "a text with spaces".to_owned())));
    assert_eq!(write_record(0, ""), "0 ");
    assert_eq!(read_record("0 "), Some((0, String::new())));
    assert_eq!(write_record(usize::MAX, "x"), format!("{} x", usize::MAX));
    assert_eq!(read_record(&format!("{} x", usize::MAX)), Some((usize::MAX, "x".to_owned())));
}

#[test]
fn what_is_no_record_is_not_read() {
    assert_eq!(read_record(""), None);
    assert_eq!(read_record("17"), None);
    assert_eq!(read_record(" text"), None);
    assert_eq!(read_record("x7 text"), None);
    assert_eq!(read_record("-7 text"), None);
    assert_eq!(read_record("+7 text"), None);
    assert_eq!(read_record("99999999999999999999999999 text"), None);
    assert_eq!(read_record("007 text"), Some((7, "text".to_owned())));
}

#[test]
fn a_record_leads_back_to_where_the_iterator_stood() {
    let text = RunningText::new("añb€c😀d|".to_owned(), 3, true, &[("€", "EUR")]).unwrap();
    let mut it = text.iter();
    for _ in 0..5 {
        it.next();
    }
    let line = text.record(&it);
    assert_eq!(line, format!("{} {}", it.range().start, text.as_str()));
    let again = RunningText::new("añb€c😀d|".to_owned(), 3, true, &[("€", "EUR")]).unwrap();
    let mut resumed = again.resume(&line);
    assert_eq!(resumed.range(), it.range());
    for _ in 0..12 {
        assert_eq!(resumed.next(), it.next());
    }
}

#[test]
fn a_record_of_another_text_leads_to_the_start() {
    let text = RunningText::new("abcdef".to_owned(), 3, true, &[]).unwrap();
    let mut it = text.iter();
    it.next();
    it.next();
    let line = text.record(&it);
    assert_eq!(line, "2 abcdefab");
    let other = RunningText::new("abcdeg".to_owned(), 3, true, &[]).unwrap();
    assert_eq!(other.resume(&line).range(), 0..3);
    assert_eq!(text.resume(&line).range(), 2..5);
    assert_eq!(text.resume("no record").range(), 0..3);
    assert_eq!(text.resume("2 abcdefab ").range(), 0..3);
}

#[test]
fn the_output_of_a_command_is_shown_when_it_changes() {
    let mut last = LastOutput::new();
    assert_eq!(last.get(), None);
    assert_eq!(last.observe(Ok("one".to_owned())).unwrap().unwrap(), "one");
    assert_eq!(last.get(), Some("one".to_owned()));
    assert!(last.observe(Ok("one".to_owned())).is_none());
    assert_eq!(last.observe(Ok("two".to_owned())).unwrap().unwrap(), "two");
    let failed = last.observe(Err(CommandError::Io("gone".to_owned()))).unwrap().unwrap_err();
    assert_eq!(failed.message, "Io error while executing command: gone");
    assert_eq!(last.get(), Some("two".to_owned()));
    assert!(last.observe(Ok("two".to_owned())).is_none());
}

#[test]
fn the_first_run_of_a_command_gives_a_content() {
    let mut last = LastOutput::new();
    assert_eq!(last.first(Ok(String::new())).unwrap(), "");
    assert_eq!(last.get(), None);
    assert_eq!(last.first(Ok("out".to_owned())).unwrap(), "out");
    assert_eq!(last.first(Ok("out".to_owned())).unwrap(), "");
    let failed = last.first(Err(CommandError::UTF8("at 0".to_owned()))).unwrap_err();
    assert_eq!(failed.message, "Child process has outputed invalid UTF-8: at 0");
}

#[test]
fn a_registry_keeps_one_entry_for_each_address() {
    let mut registry: Registry<u32> = Registry::new();
    assert_eq!(registry.len(), 0);
    assert_eq!(registry.get("127.0.0.1:6600"), None);
    assert_eq!(registry.try_insert("127.0.0.1:6600".to_owned(), 1), Ok(()));
    assert_eq!(registry.try_insert("127.0.0.1:6601".to_owned(), 2), Ok(()));
    assert_eq!(registry.try_insert("127.0.0.1:6600".to_owned(), 3), Err(3));
    assert_eq!(registry.len(), 2);
    assert_eq!(registry.get("127.0.0.1:6600"), Some(&1));
    assert_eq!(registry.get("127.0.0.1:6601"), Some(&2));
    assert_eq!(registry.get("127.0.0.1:660"), None);
}
