use running_text::{ConstructionError, RunIter, RunningText};

fn forward(it: &mut RunIter<'_>, n: usize) -> Vec<String> {
    (0..n).map(|_| it.next().unwrap().to_owned()).collect()
}

fn backward(it: &mut RunIter<'_>, n: usize) -> Vec<String> {
    (0..n).map(|_| it.next_back().unwrap().to_owned()).collect()
}

#[test]
fn zero_width_is_refused() {
    let r = RunningText::new("abc".to_owned(), 0, false, &[]);
    assert_eq!(r.err(), Some(ConstructionError::ZeroWidth));
}

#[test]
fn zero_width_comes_before_other_errors() {
    let r = RunningText::new(String::new(), 0, true, &[("", "x")]);
    assert_eq!(r.err(), Some(ConstructionError::ZeroWidth));
}

#[test]
fn empty_pattern_is_refused() {
    let r = RunningText::new("abc".to_owned(), 3, false, &[("a", "b"), ("", "x")]);
    assert_eq!(r.err(), Some(ConstructionError::EmptyPattern));
}

#[test]
fn empty_content_cannot_run() {
    let r = RunningText::new(String::new(), 3, true, &[]);
    assert_eq!(r.err(), Some(ConstructionError::EmptyContent));
}

#[test]
fn content_that_rules_empty_cannot_run() {
    let r = RunningText::new("\n\n".to_owned(), 3, true, &[("\n", "")]);
    assert_eq!(r.err(), Some(ConstructionError::EmptyContent));
}

#[test]
fn empty_content_that_does_not_run_is_shown_empty() {
    let text = RunningText::new(String::new(), 3, false, &[]).unwrap();
    let mut it = text.iter();
    assert_eq!(it.next(), Some(""));
    assert_eq!(it.next_back(), Some(""));
    assert_eq!(it.range(), 0..0);
}

#[test]
fn width_equal_to_content_is_static() {
    let text = RunningText::new("abcde".to_owned(), 5, false, &[]).unwrap();
    assert_eq!(text.as_str(), "abcde");
    let mut it = text.iter();
    assert_eq!(forward(&mut it, 3), ["abcde", "abcde", "abcde"]);
}

#[test]
fn width_one_less_than_content_runs() {
    let text = RunningText::new("abcde".to_owned(), 4, false, &[]).unwrap();
    assert_eq!(text.as_str(), "abcdeabc");
    let mut it = text.iter();
    assert_eq!(forward(&mut it, 6), ["abcd", "bcde", "cdea", "deab", "eabc", "abcd"]);
}

#[test]
fn runs_count_once_for_the_fit() {
    // five units, of which one is a run of four bytes
    let text = RunningText::new("a & b".to_owned(), 5, false, &[("&", "&amp")]).unwrap();
    assert_eq!(text.as_str(), "a &amp b");
    let text = RunningText::new("a & b".to_owned(), 4, false, &[("&", "&amp")]).unwrap();
    assert_eq!(text.as_str(), "a &amp ba &amp");
}

#[test]
fn static_text_leaves_the_iterator_as_it_is() {
    let text = RunningText::new("a & b".to_owned(), 9, false, &[("&", "&amp;")]).unwrap();
    let mut it = text.iter();
    let before = it.range();
    for _ in 0..7 {
        assert_eq!(it.next(), Some("a &amp; b"));
        assert_eq!(it.range(), before);
        assert_eq!(it.get(), "a &amp; b");
    }
    for _ in 0..7 {
        assert_eq!(it.next_back(), Some("a &amp; b"));
        assert_eq!(it.range(), before);
    }
    assert_eq!(before, 0..9);
}

#[test]
fn full_cycle_closure() {
    let text = RunningText::new("I am a running text|".to_owned(), 12, false, &[]).unwrap();
    let mut it = text.iter();
    let first = it.next().unwrap();
    assert_eq!(first, "I am a runni");
    for _ in 0..19 {
        assert_ne!(it.next().unwrap(), first);
    }
    assert_eq!(it.next().unwrap(), first);
}

#[test]
fn the_iterator_comes_back_to_where_it_stood() {
    let text = RunningText::new("abcde".to_owned(), 3, true, &[("c", "<c>")]).unwrap();
    let mut it = text.iter();
    it.next();
    it.next();
    let range = it.range();
    let window = it.get();
    for _ in 0..5 {
        it.next();
    }
    assert_eq!(it.range(), range);
    assert_eq!(it.get(), window);
}

#[test]
fn backward_is_forward_reversed() {
    let text = RunningText::new("héllo wörld|".to_owned(), 5, true, &[("ö", "oe")]).unwrap();
    for n in 0..30 {
        let mut it = text.iter();
        let mut there = forward(&mut it, n);
        there.push(it.get().to_owned());
        let mut back = backward(&mut it, n + 1);
        back.reverse();
        assert_eq!(there, back);
    }
}

#[test]
fn backward_from_the_last_window_is_one_cycle_reversed() {
    let text = RunningText::new("abcdef".to_owned(), 4, true, &[]).unwrap();
    let mut it = text.iter();
    let cycle = forward(&mut it, 6);
    assert_eq!(cycle, ["abcd", "bcde", "cdef", "defa", "efab", "fabc"]);
    // the iterator stands at the start again: one step back leads to the last window
    assert_eq!(it.next_back(), Some("abcd"));
    let mut back = backward(&mut it, 6);
    back.reverse();
    assert_eq!(back, cycle);
}

#[test]
fn steps_forward_and_backward_undo_each_other() {
    let text = RunningText::new("abcdef".to_owned(), 4, true, &[]).unwrap();
    let mut it = text.iter();
    for _ in 0..9 {
        let range = it.range();
        it.next();
        it.next_back();
        assert_eq!(it.range(), range);
        it.next_back();
        it.next();
        assert_eq!(it.range(), range);
        it.next();
    }
}

#[test]
fn replacements_are_never_split() {
    let text = RunningText::new("?#@!$%^^&*()".to_owned(), 12, false, &[("&", "&amp")]).unwrap();
    let mut it = text.iter();
    for _ in 0..40 {
        let window = it.next().unwrap();
        let without = window.replace("&amp", "");
        assert!(!without.contains('&'), "{window}");
        assert!(!without.contains('a'), "{window}");
        assert!(!without.contains('m'), "{window}");
        assert!(!without.contains('p'), "{window}");
    }
    let text = RunningText::new("?#@!$%^^&*()".to_owned(), 5, false, &[("&", "&amp")]).unwrap();
    let mut it = text.iter();
    for _ in 0..40 {
        let window = it.next_back().unwrap();
        assert_eq!(window.replace("&amp", "&").chars().count(), 5, "{window}");
        assert!(!window.replace("&amp", "").contains(['&', 'a', 'm', 'p']), "{window}");
    }
}

#[test]
fn every_window_has_the_width_in_units() {
    let text = RunningText::new("añb€c😀d".to_owned(), 3, true, &[("€", "EUR")]).unwrap();
    let mut it = text.iter();
    let windows = forward(&mut it, 8);
    assert_eq!(windows, ["añb", "ñbEUR", "bEURc", "EURc😀", "c😀d", "😀da", "dañ", "añb"]);
}

#[test]
fn resuming_at_an_offset_goes_on_where_the_other_stood() {
    let text = RunningText::new("añb€c😀d|".to_owned(), 3, true, &[("€", "EUR")]).unwrap();
    for k in 0..20 {
        let mut it = text.iter();
        forward(&mut it, k);
        let mut fresh = text.iter_at(it.range().start);
        assert_eq!(fresh.range(), it.range());
        assert_eq!(forward(&mut fresh, 11), forward(&mut it, 11));
    }
}

#[test]
fn an_offset_inside_a_unit_is_rounded_down() {
    let text = RunningText::new("añb€c".to_owned(), 2, true, &[("€", "EUR")]).unwrap();
    // a: 0, ñ: 1..3, b: 3, EUR: 4..7, c: 7
    assert_eq!(text.as_str(), "añbEURca");
    assert_eq!(text.iter_at(0).get(), "añ");
    assert_eq!(text.iter_at(1).get(), "ñb");
    assert_eq!(text.iter_at(2).get(), "ñb");
    assert_eq!(text.iter_at(3).get(), "bEUR");
    assert_eq!(text.iter_at(4).get(), "EURc");
    assert_eq!(text.iter_at(5).get(), "EURc");
    assert_eq!(text.iter_at(6).get(), "EURc");
    assert_eq!(text.iter_at(7).get(), "ca");
}

#[test]
fn an_offset_at_which_no_window_starts_leads_to_the_start() {
    let text = RunningText::new("abcde".to_owned(), 3, true, &[]).unwrap();
    assert_eq!(text.as_str(), "abcdeab");
    assert_eq!(text.iter_at(4).get(), "eab");
    assert_eq!(text.iter_at(5).get(), "abc");
    assert_eq!(text.iter_at(5).range(), 0..3);
    assert_eq!(text.iter_at(7).range(), 0..3);
    assert_eq!(text.iter_at(1000).range(), 0..3);
}

#[test]
fn an_offset_into_a_static_text_is_of_no_account() {
    let text = RunningText::new("abcde".to_owned(), 10, false, &[]).unwrap();
    assert_eq!(text.iter_at(3).get(), "abcde");
    assert_eq!(text.iter_at(3).range(), 0..5);
}

#[test]
fn a_window_wider_than_the_content_takes_whole_cycles() {
    let text = RunningText::new("ab|".to_owned(), 8, true, &[]).unwrap();
    // q = 7 / 3 = 2, r = 7 % 3 = 1: three cycles and one unit
    assert_eq!(text.as_str(), "ab|ab|ab|a");
    let mut it = text.iter();
    assert_eq!(forward(&mut it, 4), ["ab|ab|ab", "b|ab|ab|", "|ab|ab|a", "ab|ab|ab"]);
}

#[test]
fn a_window_of_one_unit() {
    let text = RunningText::new("abc".to_owned(), 1, true, &[("b", "[b]")]).unwrap();
    assert_eq!(text.as_str(), "a[b]c");
    let mut it = text.iter();
    assert_eq!(forward(&mut it, 4), ["a", "[b]", "c", "a"]);
    assert_eq!(backward(&mut it, 4), ["[b]", "a", "c", "[b]"]);
}

#[test]
fn range_and_get_show_the_next_window() {
    let text = RunningText::new("abcdef".to_owned(), 2, true, &[("cd", "<>")]).unwrap();
    let mut it = text.iter();
    assert_eq!(it.range(), 0..2);
    assert_eq!(it.get(), "ab");
    assert_eq!(it.next(), Some("ab"));
    assert_eq!(it.range(), 1..4);
    assert_eq!(it.get(), "b<>");
    assert_eq!(it.next(), Some("b<>"));
    assert_eq!(it.get(), "<>e");
}
