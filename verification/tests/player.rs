use running_text::decimal::{parse_decimal, write_decimal, write_signed};
use running_text::mpd::{
    IconSetParseError, Song, Span, State, StateStatusIcons, Status, StatusIcons, StatusIconsSet,
};
use running_text::mpd_args::needs_refresh;
use running_text::mpd_format::{parse_pad, MpdFormatParseError, MpdFormatter, Placeholder};
use running_text::mpd_line::{FormatError, PlaceholderValue};

fn icons() -> StatusIconsSet {
    StatusIconsSet::new(
        StateStatusIcons { play: '>', pause: '=', stop: '#' },
        StatusIcons { enabled: 'c', disabled: Some('-') },
        StatusIcons::single('z'),
        StatusIcons::single('r'),
        StatusIcons { enabled: '1', disabled: Some('0') },
    )
}

fn song() -> Song {
    Song {
        file: "music/track.flac".to_owned(),
        title: Some("Title".to_owned()),
        artist: None,
        tags: vec![
            ("Album".to_owned(), "First".to_owned()),
            ("Date".to_owned(), "1999".to_owned()),
            ("Album".to_owned(), "Second".to_owned()),
        ],
    }
}

fn status() -> Status {
    Status {
        volume: -3,
        state: State::Play,
        elapsed: Some(Span { secs: 60, nanos: 600_000_000 }),
        duration: Some(Span { secs: 3725, nanos: 0 }),
        song: Some(4),
        queue_len: 12,
        consume: false,
        random: true,
        repeat: false,
        single: false,
    }
}

fn line(format: &str, song: Option<&Song>, status: &Status, age: Span) -> Result<String, FormatError> {
    MpdFormatter::parse(format).unwrap().format(&icons(), song, status, age, "N/A")
}

const NOW: Span = Span { secs: 0, nanos: 0 };

#[test]
fn numbers_are_written_in_decimal() {
    let mut out = "n=".to_owned();
    write_decimal(0, &mut out);
    out.push(',');
    write_decimal(7, &mut out);
    out.push(',');
    write_decimal(10, &mut out);
    out.push(',');
    write_decimal(12345, &mut out);
    out.push(',');
    write_decimal(u64::MAX, &mut out);
    assert_eq!(out, "n=0,7,10,12345,18446744073709551615");
    let mut out = String::new();
    write_signed(0, &mut out);
    out.push(',');
    write_signed(-1, &mut out);
    out.push(',');
    write_signed(-128, &mut out);
    out.push(',');
    write_signed(i64::MIN, &mut out);
    out.push(',');
    write_signed(i64::MAX, &mut out);
    assert_eq!(out, "0,-1,-128,-9223372036854775808,9223372036854775807");
}

#[test]
fn numbers_are_read_from_decimal_digits() {
    let chars: Vec<char> = "x0042y".chars().collect();
    assert_eq!(parse_decimal(&chars, 1, 5), Some(42));
    assert_eq!(parse_decimal(&chars, 1, 1), None);
    assert_eq!(parse_decimal(&chars, 0, 5), None);
    assert_eq!(parse_decimal(&chars, 1, 6), None);
    let max: Vec<char> = usize::MAX.to_string().chars().collect();
    assert_eq!(parse_decimal(&max, 0, max.len()), Some(usize::MAX));
    let mut over = max.clone();
    let last = over.len() - 1;
    over[last] = char::from_u32(over[last] as u32 + 1).unwrap();
    assert_eq!(parse_decimal(&over, 0, over.len()), None);
    let long: Vec<char> = "100000000000000000000000".chars().collect();
    assert_eq!(parse_decimal(&long, 0, long.len()), None);
}

#[test]
fn a_number_of_spaces_may_have_a_plus_sign() {
    let read = |s: &str| {
        let chars: Vec<char> = s.chars().collect();
        parse_pad(&chars, 0, chars.len())
    };
    assert_eq!(read("3"), Some(3));
    assert_eq!(read("+3"), Some(3));
    assert_eq!(read("03"), Some(3));
    assert_eq!(read(""), None);
    assert_eq!(read("+"), None);
    assert_eq!(read("-3"), None);
    assert_eq!(read("++3"), None);
    assert_eq!(read("3 "), None);
    assert_eq!(read("٣"), None);
}

#[test]
fn icons_of_the_state_are_three_characters() {
    let icons = StateStatusIcons::parse("▶⏸⏹").unwrap();
    assert_eq!(icons, StateStatusIcons { play: '▶', pause: '⏸', stop: '⏹' });
    assert_eq!(icons.get_icon(State::Play), '▶');
    assert_eq!(icons.get_icon(State::Pause), '⏸');
    assert_eq!(icons.get_icon(State::Stop), '⏹');
    assert_eq!("abc".parse::<StateStatusIcons>().unwrap().get_icon(State::Stop), 'c');
    assert_eq!(StateStatusIcons::parse(""), Err(IconSetParseError::NotEnoughChars));
    assert_eq!(StateStatusIcons::parse("ab"), Err(IconSetParseError::NotEnoughChars));
    assert_eq!(StateStatusIcons::parse("abcd"), Err(IconSetParseError::TooManyChars));
    assert_eq!(
        IconSetParseError::<3>::NotEnoughChars.to_string(),
        "Not enough characters (expected 3)"
    );
}

#[test]
fn icons_of_a_switch_are_one_or_two_characters() {
    assert_eq!(StatusIcons::parse("x"), Ok(StatusIcons { enabled: 'x', disabled: None }));
    assert_eq!(StatusIcons::parse("xy"), Ok(StatusIcons { enabled: 'x', disabled: Some('y') }));
    assert_eq!("é€".parse::<StatusIcons>(), Ok(StatusIcons { enabled: 'é', disabled: Some('€') }));
    assert_eq!(StatusIcons::parse(""), Err(IconSetParseError::NotEnoughChars));
    assert_eq!(StatusIcons::parse("xyz"), Err(IconSetParseError::TooManyChars));
    assert_eq!(
        IconSetParseError::<2>::TooManyChars.to_string(),
        "Too many characters (expected 2)"
    );
    assert_eq!(StatusIcons::single('s'), StatusIcons { enabled: 's', disabled: None });
}

#[test]
fn a_switch_writes_its_icon_and_the_spaces_behind_it() {
    let both = StatusIcons { enabled: '+', disabled: Some('-') };
    assert_eq!(both.get_icon(true), Some('+'));
    assert_eq!(both.get_icon(false), Some('-'));
    assert_eq!(StatusIcons::single('+').get_icon(false), None);
    let mut out = "[".to_owned();
    both.write(true, 2, &mut out);
    both.write(false, 0, &mut out);
    StatusIcons::single('s').write(false, 3, &mut out);
    StatusIcons::single('s').write(true, 1, &mut out);
    out.push(']');
    assert_eq!(out, "[+  -s ]");
}

#[test]
fn a_set_writes_the_icon_of_the_switch_that_the_placeholder_names() {
    let set = icons();
    let mut out = String::new();
    set.write_bool(&Placeholder::ConsumeIcon(1), true, &mut out);
    set.write_bool(&Placeholder::ConsumeIcon(0), false, &mut out);
    set.write_bool(&Placeholder::RandomIcon(0), true, &mut out);
    set.write_bool(&Placeholder::RandomIcon(2), false, &mut out);
    set.write_bool(&Placeholder::RepeatIcon(2), true, &mut out);
    set.write_bool(&Placeholder::SingleIcon(0), false, &mut out);
    set.write_bool(&Placeholder::Volume, true, &mut out);
    set.write_bool(&Placeholder::StateIcon(3), true, &mut out);
    assert_eq!(out, "c -zr  0");
}

#[test]
fn a_placeholder_stands_for_a_value() {
    let song = song();
    let status = status();
    let age = Span { secs: 5, nanos: 500_000_000 };
    let get = |p: &Placeholder| format!("{:?}", p.get(Some(&song), &status, age));
    assert_eq!(
        Placeholder::String("text".to_owned()).get(None, &status, age),
        PlaceholderValue::String("text")
    );
    assert_eq!(Placeholder::Title.get(Some(&song), &status, age), PlaceholderValue::OptionalString(Some("Title")));
    assert_eq!(Placeholder::Title.get(None, &status, age), PlaceholderValue::OptionalString(None));
    assert_eq!(Placeholder::Artist.get(Some(&song), &status, age), PlaceholderValue::OptionalString(None));
    assert_eq!(
        Placeholder::Filename.get(Some(&song), &status, age),
        PlaceholderValue::OptionalString(Some("music/track.flac"))
    );
    // of two tags of one name, the last one counts
    assert_eq!(Placeholder::Album.get(Some(&song), &status, age), PlaceholderValue::OptionalString(Some("Second")));
    assert_eq!(Placeholder::Date.get(Some(&song), &status, age), PlaceholderValue::OptionalString(Some("1999")));
    assert_eq!(Placeholder::AlbumArtist.get(Some(&song), &status, age), PlaceholderValue::OptionalString(None));
    assert_eq!(Placeholder::Volume.get(None, &status, age), PlaceholderValue::Volume(-3));
    assert_eq!(Placeholder::SongPosition.get(None, &status, age), PlaceholderValue::OptionalQueuePlace(Some(4)));
    assert_eq!(Placeholder::QueueLength.get(None, &status, age), PlaceholderValue::Len(12));
    assert_eq!(Placeholder::StateIcon(2).get(None, &status, age), PlaceholderValue::State(State::Play, 2));
    assert_eq!(Placeholder::ConsumeIcon(2).get(None, &status, age), PlaceholderValue::Bool(false));
    assert_eq!(Placeholder::RandomIcon(2).get(None, &status, age), PlaceholderValue::Bool(true));
    assert_eq!(
        Placeholder::TotalTime("%S".to_owned()).get(None, &status, age),
        PlaceholderValue::OptionalDuration(Some(Span { secs: 3725, nanos: 0 }), "%S")
    );
    // while the player plays, the age of the status counts as played
    assert_eq!(
        Placeholder::ElapsedTime("%S".to_owned()).get(None, &status, age),
        PlaceholderValue::OptionalDuration(Some(Span { secs: 66, nanos: 100_000_000 }), "%S")
    );
    let paused = Status { state: State::Pause, ..status };
    assert_eq!(
        Placeholder::ElapsedTime("%S".to_owned()).get(None, &paused, age),
        PlaceholderValue::OptionalDuration(Some(Span { secs: 60, nanos: 600_000_000 }), "%S")
    );
    let stopped = Status { state: State::Stop, ..status };
    assert_eq!(
        Placeholder::ElapsedTime("%S".to_owned()).get(None, &stopped, age),
        PlaceholderValue::OptionalDuration(None, "%S")
    );
    assert_eq!(get(&Placeholder::Volume), "Volume(-3)");
}

#[test]
fn lengths_of_time_add_up() {
    let a = Span { secs: 1, nanos: 999_999_999 };
    assert_eq!(a.plus(Span { secs: 2, nanos: 1 }), Span { secs: 4, nanos: 0 });
    assert_eq!(a.plus(a), Span { secs: 3, nanos: 999_999_998 });
    assert_eq!(a.plus(Span { secs: u64::MAX, nanos: 0 }), Span { secs: u64::MAX, nanos: 999_999_999 });
    assert_eq!(
        Span { secs: u64::MAX - 1, nanos: 999_999_999 }.plus(Span { secs: 0, nanos: 1 }),
        Span { secs: u64::MAX, nanos: 0 }
    );
    assert_eq!(
        Span { secs: u64::MAX, nanos: 999_999_999 }.plus(Span { secs: 0, nanos: 1 }),
        Span { secs: u64::MAX, nanos: 0 }
    );
}

#[test]
fn the_status_line_shows_song_and_status() {
    let song = song();
    let status = status();
    assert_eq!(line("{artist} - {title}", Some(&song), &status, NOW).unwrap(), "N/A - Title");
    assert_eq!(line("{artist} - {title}", None, &status, NOW).unwrap(), "N/A - N/A");
    assert_eq!(
        line("{album}/{albumArtist}/{date}/{filename}", Some(&song), &status, NOW).unwrap(),
        "Second/N/A/1999/music/track.flac"
    );
    assert_eq!(
        line("{{{volume}}} {songPosition}/{queueLength}", None, &status, NOW).unwrap(),
        "{-3} 5/12"
    );
    let first = Status { song: Some(u32::MAX), volume: 100, queue_len: 0, ..status };
    assert_eq!(
        line("{volume} {songPosition}/{queueLength}", None, &first, NOW).unwrap(),
        "100 4294967296/0"
    );
    let none = Status { song: None, ..status };
    assert_eq!(line("{songPosition}", None, &none, NOW).unwrap(), "N/A");
    assert_eq!(line("", None, &status, NOW).unwrap(), "");
}

#[test]
fn the_status_line_shows_icons() {
    let status = status();
    assert_eq!(
        line("{stateIcon:2}|{consumeIcon}{randomIcon:1}{repeatIcon}{singleIcon:+3}|", None, &status, NOW)
            .unwrap(),
        ">  |-z 0   |"
    );
    let paused = Status { state: State::Pause, consume: true, repeat: true, ..status };
    assert_eq!(
        line("{stateIcon}{consumeIcon:1}{repeatIcon}", None, &paused, NOW).unwrap(),
        "=c r"
    );
    let stopped = Status { state: State::Stop, ..status };
    assert_eq!(line("{stateIcon}", None, &stopped, NOW).unwrap(), "#");
}

#[test]
fn the_status_line_shows_times_in_their_formats() {
    let status = status();
    assert_eq!(line("{elapsedTime}/{totalTime}", None, &status, NOW).unwrap(), "01:00/02:05");
    assert_eq!(
        line("{elapsedTime:%M with %S}/{totalTime:%H hours %M minutes %S seconds}", None, &status, NOW)
            .unwrap(),
        "01 with 00/01 hours 02 minutes 05 seconds"
    );
    let age = Span { secs: 5, nanos: 500_000_000 };
    assert_eq!(line("{elapsedTime:%M:%S%.3f}", None, &status, age).unwrap(), "01:06.100");
    let stopped = Status { state: State::Stop, duration: None, ..status };
    assert_eq!(line("{elapsedTime}/{totalTime}", None, &stopped, age).unwrap(), "N/A/N/A");
}

#[test]
fn a_time_that_cannot_be_shown_fails_the_line() {
    let status = status();
    // a format that asks for a date cannot show a time of day
    assert_eq!(
        line("{artist} {totalTime:%Y}", None, &status, NOW),
        Err(FormatError::UnsupportedTimeSpecifier)
    );
    // a length of a day and more is no time of day
    let long = Status { duration: Some(Span { secs: 86_400, nanos: 0 }), ..status };
    assert_eq!(line("{totalTime}", None, &long, NOW), Err(FormatError::UnsupportedTimeSpecifier));
    assert_eq!(line("{totalTime:no time}", None, &long, NOW).unwrap(), "no time");
    // the seconds count by the lower 32 bits of their number
    let wrapped = Status { duration: Some(Span { secs: (1 << 32) + 61, nanos: 0 }), ..status };
    assert_eq!(line("{totalTime}", None, &wrapped, NOW).unwrap(), "01:01");
    assert_eq!(FormatError::UnsupportedTimeSpecifier.to_string(), "Unsupported time specifier");
}

#[test]
fn a_format_of_a_time_is_checked_when_the_format_is_read() {
    assert!(matches!(
        MpdFormatter::parse("{elapsedTime:%}").unwrap_err(),
        MpdFormatParseError::DurationParseError(_)
    ));
    assert!(matches!(
        MpdFormatter::parse("{totalTime:%M:%!}").unwrap_err(),
        MpdFormatParseError::DurationParseError(_)
    ));
    let text = MpdFormatter::parse("{totalTime:%}").unwrap_err().to_string();
    assert!(text.starts_with("Invalid duration format: "), "{text}");
    assert!(text.len() > "Invalid duration format: ".len(), "{text}");
    assert_eq!(
        MpdFormatter::parse("{totalTime:}").unwrap().0,
        vec![Placeholder::TotalTime(String::new())]
    );
    assert_eq!(
        MpdFormatter::parse("{elapsedTime:a:b}").unwrap().0,
        vec![Placeholder::ElapsedTime("a:b".to_owned())]
    );
}

#[test]
fn arguments_of_placeholders() {
    assert_eq!(MpdFormatter::parse("{date:anything}").unwrap().0, vec![Placeholder::Date]);
    assert_eq!(
        MpdFormatter::parse("{consumeIcon:2}{randomIcon:0}{repeatIcon:+1}{singleIcon:10}").unwrap().0,
        vec![
            Placeholder::ConsumeIcon(2),
            Placeholder::RandomIcon(0),
            Placeholder::RepeatIcon(1),
            Placeholder::SingleIcon(10),
        ]
    );
    assert!(matches!(
        MpdFormatter::parse("{stateIcon:x}").unwrap_err(),
        MpdFormatParseError::PadParseError(s) if s == "x"
    ));
    assert!(matches!(
        MpdFormatter::parse("{stateIcon:}").unwrap_err(),
        MpdFormatParseError::PadParseError(s) if s.is_empty()
    ));
    assert!(matches!(
        MpdFormatter::parse("{artist:x}").unwrap_err(),
        MpdFormatParseError::RedundantFormat(s) if s == "artist"
    ));
    assert!(matches!(
        MpdFormatter::parse("{:x}").unwrap_err(),
        MpdFormatParseError::RedundantFormat(s) if s.is_empty()
    ));
    assert!(matches!(
        MpdFormatter::parse("{Artist}").unwrap_err(),
        MpdFormatParseError::UnknownPlaceholder(s) if s == "Artist"
    ));
}

#[test]
fn errors_in_formats_have_texts() {
    assert_eq!(
        MpdFormatter::parse("{artst}").unwrap_err().to_string(),
        "Unknown placeholder 'artst'"
    );
    assert_eq!(
        MpdFormatter::parse("{artist:1}").unwrap_err().to_string(),
        "'artist' does not have additional formatting"
    );
    assert_eq!(MpdFormatter::parse("{").unwrap_err().to_string(), "Unmatched '{' or '}'");
    assert_eq!(
        MpdFormatter::parse("{stateIcon:two}").unwrap_err().to_string(),
        "Padding parse error: 'two' is not a number"
    );
}

#[test]
fn formats_are_written_without_their_arguments() {
    assert_eq!(
        MpdFormatter::parse("{elapsedTime:%S}{stateIcon:3}{{x}}").unwrap().to_string(),
        "{elapsedTime}{stateIcon}{{x}}"
    );
    assert_eq!(MpdFormatter::only_string("{a}".to_owned()).to_string(), "{{a}}");
    assert_eq!(MpdFormatter::default().to_string(), "");
    assert_eq!(MpdFormatter::default().iter().count(), 0);
    assert_eq!(
        MpdFormatter::parse("a{title}").unwrap().iter().collect::<Vec<_>>(),
        [&Placeholder::String("a".to_owned()), &Placeholder::Title]
    );
    let all = "{album}{albumArtist}{artist}{consumeIcon}{date}{elapsedTime}{filename}{queueLength}\
               {randomIcon}{repeatIcon}{singleIcon}{songPosition}{stateIcon}{title}{totalTime}{volume}";
    assert_eq!(MpdFormatter::parse(all).unwrap().to_string(), all);
    assert_eq!(MpdFormatter::parse(all).unwrap().duplicate(), MpdFormatter::parse(all).unwrap());
}

#[test]
fn the_line_is_made_anew_when_there_is_news() {
    let plain = MpdFormatter::parse("{artist} {totalTime}").unwrap();
    let timed = MpdFormatter::parse("{artist} {elapsedTime}").unwrap();
    assert!(!plain.shows_elapsed_time());
    assert!(timed.shows_elapsed_time());
    assert!(needs_refresh(true, &plain, State::Stop));
    assert!(!needs_refresh(false, &plain, State::Play));
    assert!(needs_refresh(false, &timed, State::Play));
    assert!(!needs_refresh(false, &timed, State::Pause));
    assert!(!needs_refresh(false, &timed, State::Stop));
}

#[test]
fn the_last_tag_of_a_name_counts() {
    let song = song();
    assert_eq!(song.tag("Album"), Some("Second"));
    assert_eq!(song.tag("Date"), Some("1999"));
    assert_eq!(song.tag("album"), None);
    assert_eq!(song.tag(""), None);
}
