use running_text::{RunIter, RunningText};

fn assert_forward(mut it: RunIter<'_>, expected: &[&str]) {
    for e in expected {
        assert_eq!(it.next().unwrap(), *e);
    }
}

fn assert_backward(mut it: RunIter<'_>, expected: &[&str]) {
    for e in expected {
        assert_eq!(it.next_back().unwrap(), *e);
    }
}

#[test]
fn one_full_cycle() {
    let text = RunningText::new("I am a running text|".to_owned(), 12, true, &[]).unwrap();
    assert_forward(
        text.iter(),
        &[
            "I am a runni",
            " am a runnin",
            "am a running",
            "m a running ",
            " a running t",
            "a running te",
            " running tex",
            "running text",
            "unning text|",
            "nning text|I",
            "ning text|I ",
            "ing text|I a",
            "ng text|I am",
            "g text|I am ",
            " text|I am a",
            "text|I am a ",
            "ext|I am a r",
            "xt|I am a ru",
            "t|I am a run",
            "|I am a runn",
            "I am a runni",
        ],
    );
}

#[test]
fn one_full_cycle_backwards() {
    let text = RunningText::new("I am a running text|".to_owned(), 12, true, &[]).unwrap();
    assert_backward(
        text.iter(),
        &[
            "I am a runni",
            "|I am a runn",
            "t|I am a run",
            "xt|I am a ru",
            "ext|I am a r",
            "text|I am a ",
            " text|I am a",
            "g text|I am ",
            "ng text|I am",
            "ing text|I a",
            "ning text|I ",
            "nning text|I",
            "unning text|",
            "running text",
            " running tex",
            "a running te",
            " a running t",
            "m a running ",
            "am a running",
            " am a runnin",
            "I am a runni",
        ],
    );
}

#[test]
fn one_full_cycle_at() {
    let text = RunningText::new("I am a running text|".to_owned(), 12, true, &[]).unwrap();
    assert_forward(
        text.iter_at(5),
        &[
            "a running te",
            " running tex",
            "running text",
            "unning text|",
            "nning text|I",
            "ning text|I ",
            "ing text|I a",
            "ng text|I am",
            "g text|I am ",
            " text|I am a",
            "text|I am a ",
            "ext|I am a r",
            "xt|I am a ru",
            "t|I am a run",
            "|I am a runn",
            "I am a runni",
            " am a runnin",
            "am a running",
            "m a running ",
            " a running t",
            "a running te",
        ],
    );
}

#[test]
fn with_repeat() {
    let text = RunningText::new("I am a running text|".to_owned(), 25, true, &[]).unwrap();
    assert_forward(
        text.iter(),
        &[
            "I am a running text|I am ",
            " am a running text|I am a",
            "am a running text|I am a ",
            "m a running text|I am a r",
            " a running text|I am a ru",
            "a running text|I am a run",
            " running text|I am a runn",
            "running text|I am a runni",
            "unning text|I am a runnin",
            "nning text|I am a running",
            "ning text|I am a running ",
            "ing text|I am a running t",
            "ng text|I am a running te",
            "g text|I am a running tex",
            " text|I am a running text",
            "text|I am a running text|",
            "ext|I am a running text|I",
            "xt|I am a running text|I ",
            "t|I am a running text|I a",
            "|I am a running text|I am",
            "I am a running text|I am ",
        ],
    );
}

#[test]
fn with_repeat_backwards() {
    let text = RunningText::new("I am a running text|".to_owned(), 25, true, &[]).unwrap();
    assert_backward(
        text.iter(),
        &[
            "I am a running text|I am ",
            "|I am a running text|I am",
            "t|I am a running text|I a",
            "xt|I am a running text|I ",
            "ext|I am a running text|I",
            "text|I am a running text|",
            " text|I am a running text",
            "g text|I am a running tex",
            "ng text|I am a running te",
            "ing text|I am a running t",
            "ning text|I am a running ",
            "nning text|I am a running",
            "unning text|I am a runnin",
            "running text|I am a runni",
            " running text|I am a runn",
            "a running text|I am a run",
            " a running text|I am a ru",
            "m a running text|I am a r",
            "am a running text|I am a ",
            " am a running text|I am a",
            "I am a running text|I am ",
        ],
    );
}

#[test]
fn special_chars() {
    let text = RunningText::new("?#@!$%^^&*()".to_owned(), 12, true, &[]).unwrap();
    assert_forward(
        text.iter(),
        &[
            "?#@!$%^^&*()",
            "#@!$%^^&*()?",
            "@!$%^^&*()?#",
            "!$%^^&*()?#@",
            "$%^^&*()?#@!",
            "%^^&*()?#@!$",
            "^^&*()?#@!$%",
            "^&*()?#@!$%^",
            "&*()?#@!$%^^",
            "*()?#@!$%^^&",
            "()?#@!$%^^&*",
            ")?#@!$%^^&*(",
            "?#@!$%^^&*()",
            "#@!$%^^&*()?",
            "@!$%^^&*()?#",
            "!$%^^&*()?#@",
        ],
    );
}

#[test]
fn replacement() {
    let text = RunningText::new("?#@!$%^^&*()".to_owned(), 12, true, &[("&", "&amp")]).unwrap();
    assert_forward(
        text.iter(),
        &[
            "?#@!$%^^&amp*()",
            "#@!$%^^&amp*()?",
            "@!$%^^&amp*()?#",
            "!$%^^&amp*()?#@",
            "$%^^&amp*()?#@!",
            "%^^&amp*()?#@!$",
            "^^&amp*()?#@!$%",
            "^&amp*()?#@!$%^",
            "&amp*()?#@!$%^^",
            "*()?#@!$%^^&amp",
            "()?#@!$%^^&amp*",
            ")?#@!$%^^&amp*(",
            "?#@!$%^^&amp*()",
            "#@!$%^^&amp*()?",
            "@!$%^^&amp*()?#",
            "!$%^^&amp*()?#@",
        ],
    );
}

#[test]
fn replacement_at() {
    let text = RunningText::new("?#@!$%^^&*()".to_owned(), 12, true, &[("&", "&amp")]).unwrap();
    assert_forward(
        text.iter_at(10),
        &[
            "&amp*()?#@!$%^^",
            "*()?#@!$%^^&amp",
            "()?#@!$%^^&amp*",
            ")?#@!$%^^&amp*(",
            "?#@!$%^^&amp*()",
            "#@!$%^^&amp*()?",
            "@!$%^^&amp*()?#",
            "!$%^^&amp*()?#@",
            "$%^^&amp*()?#@!",
            "%^^&amp*()?#@!$",
            "^^&amp*()?#@!$%",
            "^&amp*()?#@!$%^",
            "&amp*()?#@!$%^^",
            "*()?#@!$%^^&amp",
            "()?#@!$%^^&amp*",
            ")?#@!$%^^&amp*(",
        ],
    );
}

#[test]
fn replacement_backwards() {
    let text = RunningText::new("?#@!$%^^&*()".to_owned(), 12, true, &[("&", "&amp")]).unwrap();
    assert_backward(
        text.iter(),
        &[
            "?#@!$%^^&amp*()",
            ")?#@!$%^^&amp*(",
            "()?#@!$%^^&amp*",
            "*()?#@!$%^^&amp",
            "&amp*()?#@!$%^^",
            "^&amp*()?#@!$%^",
            "^^&amp*()?#@!$%",
            "%^^&amp*()?#@!$",
            "$%^^&amp*()?#@!",
            "!$%^^&amp*()?#@",
            "@!$%^^&amp*()?#",
            "#@!$%^^&amp*()?",
            "?#@!$%^^&amp*()",
        ],
    );
}

#[test]
fn replacement_backwards_at() {
    let text = RunningText::new("?#@!$%^^&*()".to_owned(), 12, true, &[("&", "&amp")]).unwrap();
    assert_backward(
        text.iter_at(10),
        &[
            "&amp*()?#@!$%^^",
            "^&amp*()?#@!$%^",
            "^^&amp*()?#@!$%",
            "%^^&amp*()?#@!$",
            "$%^^&amp*()?#@!",
            "!$%^^&amp*()?#@",
            "@!$%^^&amp*()?#",
            "#@!$%^^&amp*()?",
            "?#@!$%^^&amp*()",
            ")?#@!$%^^&amp*(",
            "()?#@!$%^^&amp*",
            "*()?#@!$%^^&amp",
            "&amp*()?#@!$%^^",
            "^&amp*()?#@!$%^",
            "^^&amp*()?#@!$%",
        ],
    );
}

#[test]
fn without_repeat() {
    let text = RunningText::new("a & b".to_owned(), 5, false, &[]).unwrap();
    assert_forward(
        text.iter(),
        &[
            "a & b",
            "a & b",
            "a & b",
            "a & b",
        ],
    );
}

#[test]
fn without_repeat_backwards() {
    let text = RunningText::new("a & b".to_owned(), 5, false, &[]).unwrap();
    assert_backward(
        text.iter(),
        &[
            "a & b",
            "a & b",
            "a & b",
            "a & b",
        ],
    );
}

#[test]
fn replacement_without_repeat() {
    let text = RunningText::new("a & b".to_owned(), 5, false, &[("&", "&amp;")]).unwrap();
    assert_forward(
        text.iter(),
        &[
            "a &amp; b",
            "a &amp; b",
            "a &amp; b",
            "a &amp; b",
        ],
    );
}

#[test]
fn replacement_without_repeat_backwards() {
    let text = RunningText::new("a & b".to_owned(), 5, false, &[("&", "&amp;")]).unwrap();
    assert_backward(
        text.iter(),
        &[
            "a &amp; b",
            "a &amp; b",
            "a &amp; b",
            "a &amp; b",
        ],
    );
}
