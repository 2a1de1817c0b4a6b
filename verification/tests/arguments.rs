use running_text::args::{
    parse_key_value_pairs, plan, ArgToken, KeyValueError, Planner, SourceArgToken, SourceToken,
};
use running_text::mpd::StatusIcons;
use running_text::mpd_args::{MpdArgToken, MpdSourceArgs};
use running_text::mpd_format::{MpdFormatter, Placeholder};

fn pairs(list: &[(&str, &str)]) -> Vec<(String, String)> {
    list.iter().map(|(a, b)| (a.to_string(), b.to_string())).collect()
}

#[test]
fn replacements_are_pairs_between_commas() {
    assert_eq!(parse_key_value_pairs("").unwrap(), pairs(&[]));
    assert_eq!(parse_key_value_pairs("a=b").unwrap(), pairs(&[("a", "b")]));
    assert_eq!(
        parse_key_value_pairs("&=&amp;,<=&lt;,>=&gt;").unwrap(),
        pairs(&[("&", "&amp;"), ("<", "&lt;"), (">", "&gt;")])
    );
    assert_eq!(parse_key_value_pairs("a=").unwrap(), pairs(&[("a", "")]));
    assert_eq!(parse_key_value_pairs("=b").unwrap(), pairs(&[("", "b")]));
    assert_eq!(parse_key_value_pairs("a=b=c").unwrap(), pairs(&[("a", "b=c")]));
    assert_eq!(parse_key_value_pairs("é=€,=").unwrap(), pairs(&[("é", "€"), ("", "")]));
}

#[test]
fn a_pair_without_equals_is_refused() {
    assert_eq!(parse_key_value_pairs("a").err(), Some(KeyValueError::MissingEquals));
    assert_eq!(parse_key_value_pairs("a=b,").err(), Some(KeyValueError::MissingEquals));
    assert_eq!(parse_key_value_pairs(",a=b").err(), Some(KeyValueError::MissingEquals));
    assert_eq!(parse_key_value_pairs("a=b,c,d=e").err(), Some(KeyValueError::MissingEquals));
    assert_eq!(parse_key_value_pairs(",").err(), Some(KeyValueError::MissingEquals));
    assert_eq!(
        KeyValueError::MissingEquals.to_string(),
        "Key-value pair must have at least one '=' sign"
    );
}

#[test]
fn no_source_no_fragment() {
    assert!(plan(&vec![]).is_empty());
    assert!(plan(&vec![ArgToken::Window(5), ArgToken::Repeat(true)]).is_empty());
}

#[test]
fn settings_before_the_first_source_are_its_own() {
    let fragments = plan(&vec![
        ArgToken::Window(5),
        ArgToken::Source(SourceToken::File("a.txt".to_owned())),
        ArgToken::Separator(" | ".to_owned()),
    ]);
    assert_eq!(fragments.len(), 1);
    assert_eq!(fragments[0].source, 1);
    assert_eq!(fragments[0].window, 5);
    assert_eq!(fragments[0].separator, " | ");
    assert_eq!(fragments[0].replacements, pairs(&[("\n", "")]));
    assert!(!fragments[0].repeat);
    assert!(!fragments[0].right);
}

#[test]
fn a_source_ends_the_fragment_before_it() {
    let fragments = plan(&vec![
        ArgToken::Source(SourceToken::String("12345".to_owned())),
        ArgToken::Window(3),
        ArgToken::Repeat(true),
        ArgToken::Right(true),
        ArgToken::Newline(" ".to_owned()),
        ArgToken::Replacements(pairs(&[("&", "&amp;")])),
        ArgToken::Source(SourceToken::Stdin),
        ArgToken::Source(SourceToken::CmdArg("date".to_owned())),
        ArgToken::Window(9),
    ]);
    assert_eq!(fragments.len(), 3);
    assert_eq!(fragments[0].source, 0);
    assert_eq!(fragments[0].window, 3);
    assert!(fragments[0].repeat);
    assert!(fragments[0].right);
    assert_eq!(fragments[0].separator, "");
    assert_eq!(fragments[0].replacements, pairs(&[("&", "&amp;"), ("\n", " ")]));
    // the window of the fragment after a content given as it is starts at that content's length
    assert_eq!(fragments[1].source, 6);
    assert_eq!(fragments[1].window, 5);
    assert!(!fragments[1].repeat);
    assert!(!fragments[1].right);
    assert_eq!(fragments[1].replacements, pairs(&[("\n", "")]));
    assert_eq!(fragments[2].source, 7);
    assert_eq!(fragments[2].window, 9);
}

#[test]
fn the_window_starts_at_32() {
    let fragments = plan(&vec![
        ArgToken::Source(SourceToken::Mpd("127.0.0.1:6600".to_owned())),
        ArgToken::Source(SourceToken::File("a".to_owned())),
    ]);
    assert_eq!(fragments[0].window, 32);
    assert_eq!(fragments[1].window, 32);
}

#[test]
fn arguments_of_a_source_change_its_settings() {
    let fragments = plan(&vec![
        ArgToken::SourceArg(SourceArgToken::Mpd(MpdArgToken::Placeholder("?".to_owned()))),
        ArgToken::Source(SourceToken::Mpd("127.0.0.1:6600".to_owned())),
        ArgToken::SourceArg(SourceArgToken::Mpd(MpdArgToken::Placeholder("none".to_owned()))),
        ArgToken::SourceArg(SourceArgToken::Mpd(MpdArgToken::SingleIcons(StatusIcons::single('1')))),
        ArgToken::SourceArg(SourceArgToken::Mpd(MpdArgToken::Format(MpdFormatter::only_string(
            "x".to_owned(),
        )))),
        ArgToken::Source(SourceToken::Mpd("127.0.0.1:6601".to_owned())),
    ]);
    assert_eq!(fragments.len(), 2);
    assert_eq!(fragments[0].args.mpd.default_placeholder, "none");
    assert_eq!(fragments[0].args.mpd.single_icons, StatusIcons::single('1'));
    assert_eq!(fragments[0].args.mpd.fmt.0, vec![Placeholder::String("x".to_owned())]);
    assert_eq!(fragments[0].args.mpd.random_icons, StatusIcons::single('\u{f074}'));
    assert_eq!(fragments[1].args.mpd.default_placeholder, "N/A");
    assert_eq!(fragments[1].args.mpd.single_icons, StatusIcons::single('S'));
}

#[test]
fn the_reader_hands_out_fragments_one_by_one() {
    let mut planner = Planner::new();
    assert!(planner.feed(0, &ArgToken::Window(7)).is_none());
    assert!(planner.feed(1, &ArgToken::Source(SourceToken::Stdin)).is_none());
    assert!(planner.feed(2, &ArgToken::Right(true)).is_none());
    let first = planner.feed(3, &ArgToken::Source(SourceToken::Stdin)).unwrap();
    assert_eq!((first.source, first.window, first.right), (1, 7, true));
    let last = planner.finish().unwrap();
    assert_eq!((last.source, last.window, last.right), (3, 32, false));
    assert!(Planner::new().finish().is_none());
}

#[test]
fn the_settings_of_a_player_start_with_a_format_of_artist_and_title() {
    let args = MpdSourceArgs::default();
    assert_eq!(
        args.fmt.0,
        vec![Placeholder::Artist, Placeholder::String(" - ".to_owned()), Placeholder::Title]
    );
    assert_eq!(args.fmt.to_string(), "{artist} - {title}");
    assert_eq!(args.default_placeholder, "N/A");
    assert_eq!(args.state_icons.play, '\u{f04b}');
    assert_eq!(args.state_icons.pause, '\u{f04c}');
    assert_eq!(args.state_icons.stop, '\u{f04d}');
    assert_eq!(args.consume_icons, StatusIcons::single('\u{f0c4}'));
    assert_eq!(args.repeat_icons, StatusIcons::single('\u{f01e}'));
    assert_eq!(args.icons().single, StatusIcons::single('S'));
    let copy = args.duplicate();
    assert_eq!(copy.fmt, args.fmt);
    assert_eq!(copy.default_placeholder, args.default_placeholder);
}
