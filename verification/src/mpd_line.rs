//! The status line of a music player: what its placeholders stand for, and their text.

use crate::decimal::{digits, signed_digits, write_decimal, write_signed};
use crate::mpd::{
    last_tag, padded_icon, spaces, span_sum, write_spaces, Song, Span, State, Status,
    StatusIconsSet,
};
use crate::mpd_format::{MpdFormatter, Placeholder, PlaceholderView};
use chrono::format::{DelayedFormat, StrftimeItems};
use chrono::NaiveTime;
use std::fmt::Write;
use vstd::prelude::*;
use vstd::string::*;

verus! {

/// Why a status line cannot be made.
#[derive(Debug, Clone, Copy, PartialEq, Eq)]
pub enum FormatError {
    /// A time cannot be shown in the format that was given for it.
    UnsupportedTimeSpecifier,
}

impl FormatError {
    /// The error as a text.
    pub fn to_string(&self) -> (r: String)
        ensures
            r@ == "Unsupported time specifier"@,
    {
        "Unsupported time specifier".to_owned()
    }
}

/// What a placeholder stands for, for one song and one status.
#[derive(Debug, PartialEq)]
pub enum PlaceholderValue<'a> {
    String(&'a str),
    OptionalString(Option<&'a str>),
    Volume(i8),
    OptionalElapsedDuration(Option<Span>, &'a str),
    OptionalDuration(Option<Span>, &'a str),
    OptionalQueuePlace(Option<u32>),
    Len(u32),
    Bool(bool),
    State(State, usize),
}

/// What a placeholder stands for, as a mathematical value.
pub enum ValueView {
    String(Seq<char>),
    OptionalString(Option<Seq<char>>),
    Volume(i8),
    OptionalElapsedDuration(Option<Span>, Seq<char>),
    OptionalDuration(Option<Span>, Seq<char>),
    OptionalQueuePlace(Option<u32>),
    Len(u32),
    Bool(bool),
    State(State, usize),
}

/// A text that may be missing, as a sequence of characters.
pub open spec fn text_view(t: Option<&str>) -> Option<Seq<char>> {
    match t {
        Some(s) => Some(s@),
        None => None,
    }
}

impl<'a> View for PlaceholderValue<'a> {
    type V = ValueView;

    open spec fn view(&self) -> ValueView {
        match self {
            PlaceholderValue::String(s) => ValueView::String(s@),
            PlaceholderValue::OptionalString(t) => ValueView::OptionalString(text_view(*t)),
            PlaceholderValue::Volume(v) => ValueView::Volume(*v),
            PlaceholderValue::OptionalElapsedDuration(d, f) => ValueView::OptionalElapsedDuration(
                *d,
                f@,
            ),
            PlaceholderValue::OptionalDuration(d, f) => ValueView::OptionalDuration(*d, f@),
            PlaceholderValue::OptionalQueuePlace(p) => ValueView::OptionalQueuePlace(*p),
            PlaceholderValue::Len(n) => ValueView::Len(*n),
            PlaceholderValue::Bool(b) => ValueView::Bool(*b),
            PlaceholderValue::State(s, pad) => ValueView::State(*s, *pad),
        }
    }
}

/// The title of the song, where there is a song and it has one.
pub open spec fn title_of(song: Option<&Song>) -> Option<Seq<char>> {
    match song {
        Some(s) => match s.title {
            Some(t) => Some(t@),
            None => None,
        },
        None => None,
    }
}

/// The artist of the song, where there is a song and it has one.
pub open spec fn artist_of(song: Option<&Song>) -> Option<Seq<char>> {
    match song {
        Some(s) => match s.artist {
            Some(t) => Some(t@),
            None => None,
        },
        None => None,
    }
}

/// The name of the file of the song, where there is a song.
pub open spec fn file_of(song: Option<&Song>) -> Option<Seq<char>> {
    match song {
        Some(s) => Some(s.file@),
        None => None,
    }
}

/// The value of the last tag of the name `key`, where there is a song and it has that tag.
pub open spec fn tag_of(song: Option<&Song>, key: Seq<char>) -> Option<Seq<char>> {
    match song {
        Some(s) => last_tag(s.tags@, key),
        None => None,
    }
}

/// The time for which the song has played: none while the player has stopped; while it plays,
/// what had elapsed when the status was read and the age of the status together; while it
/// pauses, what had elapsed.
pub open spec fn elapsed_of(status: Status, age: Span) -> Option<Span> {
    match status.state {
        State::Stop => None,
        State::Play => match status.elapsed {
            Some(d) => Some(span_sum(age, d)),
            None => None,
        },
        State::Pause => status.elapsed,
    }
}

/// What the placeholder `p` stands for.
pub open spec fn value_of(
    p: PlaceholderView,
    song: Option<&Song>,
    status: Status,
    age: Span,
) -> ValueView {
    match p {
        PlaceholderView::String(s) => ValueView::String(s),
        PlaceholderView::Artist => ValueView::OptionalString(artist_of(song)),
        PlaceholderView::AlbumArtist => ValueView::OptionalString(tag_of(song, "AlbumArtist"@)),
        PlaceholderView::Album => ValueView::OptionalString(tag_of(song, "Album"@)),
        PlaceholderView::Title => ValueView::OptionalString(title_of(song)),
        PlaceholderView::Filename => ValueView::OptionalString(file_of(song)),
        PlaceholderView::Date => ValueView::OptionalString(tag_of(song, "Date"@)),
        PlaceholderView::Volume => ValueView::Volume(status.volume),
        PlaceholderView::ElapsedTime(f) => ValueView::OptionalDuration(elapsed_of(status, age), f),
        PlaceholderView::TotalTime(f) => ValueView::OptionalDuration(status.duration, f),
        PlaceholderView::SongPosition => ValueView::OptionalQueuePlace(status.song),
        PlaceholderView::QueueLength => ValueView::Len(status.queue_len),
        PlaceholderView::StateIcon(pad) => ValueView::State(status.state, pad),
        PlaceholderView::ConsumeIcon(_) => ValueView::Bool(status.consume),
        PlaceholderView::RandomIcon(_) => ValueView::Bool(status.random),
        PlaceholderView::RepeatIcon(_) => ValueView::Bool(status.repeat),
        PlaceholderView::SingleIcon(_) => ValueView::Bool(status.single),
    }
}

impl Placeholder {
    /// What the placeholder stands for, for the song `song` and the status `status`, which
    /// was read the time `age` ago.
    pub fn get<'a>(&'a self, song: Option<&'a Song>, status: &Status, age: Span) -> (r:
        PlaceholderValue<'a>)
        ensures
            r@ == value_of(self@, song, *status, age),
    {
        match self {
            Placeholder::String(s) => PlaceholderValue::String(s.as_str()),
            Placeholder::Artist => PlaceholderValue::OptionalString(
                match song {
                    Some(s) => match &s.artist {
                        Some(t) => Some(t.as_str()),
                        None => None,
                    },
                    None => None,
                },
            ),
            Placeholder::AlbumArtist => PlaceholderValue::OptionalString(
                match song {
                    Some(s) => s.tag("AlbumArtist"),
                    None => None,
                },
            ),
            Placeholder::Album => PlaceholderValue::OptionalString(
                match song {
                    Some(s) => s.tag("Album"),
                    None => None,
                },
            ),
            Placeholder::Title => PlaceholderValue::OptionalString(
                match song {
                    Some(s) => match &s.title {
                        Some(t) => Some(t.as_str()),
                        None => None,
                    },
                    None => None,
                },
            ),
            Placeholder::Filename => PlaceholderValue::OptionalString(
                match song {
                    Some(s) => Some(s.file.as_str()),
                    None => None,
                },
            ),
            Placeholder::Date => PlaceholderValue::OptionalString(
                match song {
                    Some(s) => s.tag("Date"),
                    None => None,
                },
            ),
            Placeholder::Volume => PlaceholderValue::Volume(status.volume),
            Placeholder::ElapsedTime(fmt) => PlaceholderValue::OptionalDuration(
                match status.state {
                    State::Stop => None,
                    State::Play => match status.elapsed {
                        Some(d) => Some(age.plus(d)),
                        None => None,
                    },
                    State::Pause => status.elapsed,
                },
                fmt.as_str(),
            ),
            Placeholder::TotalTime(fmt) => PlaceholderValue::OptionalDuration(
                status.duration,
                fmt.as_str(),
            ),
            Placeholder::SongPosition => PlaceholderValue::OptionalQueuePlace(status.song),
            Placeholder::QueueLength => PlaceholderValue::Len(status.queue_len),
            Placeholder::StateIcon(pad) => PlaceholderValue::State(status.state, *pad),
            Placeholder::ConsumeIcon(_) => PlaceholderValue::Bool(status.consume),
            Placeholder::RandomIcon(_) => PlaceholderValue::Bool(status.random),
            Placeholder::RepeatIcon(_) => PlaceholderValue::Bool(status.repeat),
            Placeholder::SingleIcon(_) => PlaceholderValue::Bool(status.single),
        }
    }
}

/// The text in which chrono shows the time `secs` seconds and `nanos` nanoseconds after
/// midnight in the format `fmt`; none where it cannot.
pub uninterp spec fn time_text(secs: u32, nanos: u32, fmt: Seq<char>) -> Option<Seq<char>>;

/// `DelayedFormat::new` of chrono, shown in a string: the time that
/// `NaiveTime::from_num_seconds_from_midnight_opt` makes of `secs` and `nanos`, in the format
/// `fmt`. It gives the text that `time_text` names, and nothing where chrono reports an error.
#[verifier::external_body]
fn format_time(secs: u32, nanos: u32, fmt: &str) -> (r: Option<String>)
    ensures
        match r {
            Some(t) => time_text(secs, nanos, fmt@) == Some(t@),
            None => time_text(secs, nanos, fmt@) is None,
        },
{
    let time = NaiveTime::from_num_seconds_from_midnight_opt(secs, nanos);
    let mut out = String::new();
    match write!(out, "{}", DelayedFormat::new(None, time, StrftimeItems::new(fmt))) {
        Ok(()) => Some(out),
        Err(_) => None,
    }
}

/// The seconds of a length of time as the seconds of a time of day: what the lower 32 bits
/// of their number hold.
pub open spec fn clock_secs(d: Span) -> u32 {
    (d.secs % 0x1_0000_0000) as u32
}

/// The text of the icon of a switch, for the placeholder that shows it; nothing for any other
/// placeholder.
pub open spec fn switch_text(icons: StatusIconsSet, p: PlaceholderView, value: bool) -> Seq<char> {
    match p {
        PlaceholderView::ConsumeIcon(pad) => padded_icon(
            icons.consume.spec_icon(value),
            pad as nat,
        ),
        PlaceholderView::RandomIcon(pad) => padded_icon(icons.random.spec_icon(value), pad as nat),
        PlaceholderView::RepeatIcon(pad) => padded_icon(icons.repeat.spec_icon(value), pad as nat),
        PlaceholderView::SingleIcon(pad) => padded_icon(icons.single.spec_icon(value), pad as nat),
        _ => Seq::empty(),
    }
}

/// The text of a value; none where a time cannot be shown.
pub open spec fn value_text(
    v: ValueView,
    p: PlaceholderView,
    icons: StatusIconsSet,
    default: Seq<char>,
) -> Option<Seq<char>> {
    match v {
        ValueView::String(s) => Some(s),
        ValueView::OptionalString(t) => Some(
            match t {
                Some(s) => s,
                None => default,
            },
        ),
        ValueView::Volume(n) => Some(signed_digits(n as int)),
        ValueView::Len(n) => Some(digits(n as nat)),
        ValueView::OptionalDuration(d, fmt) | ValueView::OptionalElapsedDuration(d, fmt) => match d {
            Some(d) => time_text(clock_secs(d), d.nanos, fmt),
            None => Some(default),
        },
        ValueView::OptionalQueuePlace(place) => Some(
            match place {
                Some(n) => digits((n + 1) as nat),
                None => default,
            },
        ),
        ValueView::Bool(b) => Some(switch_text(icons, p, b)),
        ValueView::State(s, pad) => Some(seq![icons.state.spec_icon(s)] + spaces(pad as nat)),
    }
}

/// The status line: the texts of what the placeholders stand for, one after the other; none
/// where one of them cannot be shown.
pub open spec fn status_line(
    f: Seq<PlaceholderView>,
    icons: StatusIconsSet,
    song: Option<&Song>,
    status: Status,
    age: Span,
    default: Seq<char>,
) -> Option<Seq<char>>
    decreases f.len(),
{
    if f.len() == 0 {
        Some(Seq::empty())
    } else {
        match (
            status_line(f.drop_last(), icons, song, status, age, default),
            value_text(value_of(f.last(), song, status, age), f.last(), icons, default),
        ) {
            (Some(a), Some(b)) => Some(a + b),
            _ => None,
        }
    }
}

/// Where a status line cannot be made of the first placeholders, it cannot be made of all.
pub proof fn lemma_status_line_none(
    f: Seq<PlaceholderView>,
    icons: StatusIconsSet,
    song: Option<&Song>,
    status: Status,
    age: Span,
    default: Seq<char>,
    k: int,
)
    requires
        0 <= k <= f.len(),
        status_line(f.take(k), icons, song, status, age, default) is None,
    ensures
        status_line(f, icons, song, status, age, default) is None,
    decreases f.len() - k,
{
    if k < f.len() {
        assert(f.take(k + 1).drop_last() =~= f.take(k));
        lemma_status_line_none(f, icons, song, status, age, default, k + 1);
    } else {
        assert(f.take(k) =~= f);
    }
}

impl StatusIconsSet {
    /// Appends the icon of a switch to `f`, for the placeholder that shows it.
    pub fn write_bool(&self, ph: &Placeholder, value: bool, f: &mut String)
        ensures
            final(f)@ == old(f)@ + switch_text(*self, ph@, value),
    {
        match ph {
            Placeholder::ConsumeIcon(pad) => self.consume.write(value, *pad, f),
            Placeholder::RandomIcon(pad) => self.random.write(value, *pad, f),
            Placeholder::RepeatIcon(pad) => self.repeat.write(value, *pad, f),
            Placeholder::SingleIcon(pad) => self.single.write(value, *pad, f),
            _ => {
                proof {
                    assert(f@ =~= old(f)@ + switch_text(*self, ph@, value));
                }
            },
        }
    }
}

/// Appends the text of a time to `f`, where chrono has shown the time as `shown`.
pub fn write_time(shown: Option<String>, f: &mut String) -> (r: Result<(), FormatError>)
    ensures
        match shown {
            Some(t) => r is Ok && final(f)@ == old(f)@ + t@,
            None => r == Err::<(), FormatError>(FormatError::UnsupportedTimeSpecifier)
                && final(f)@ == old(f)@,
        },
{
    match shown {
        Some(t) => {
            f.append(t.as_str());
            Ok(())
        },
        None => Err(FormatError::UnsupportedTimeSpecifier),
    }
}

/// Appends the text of the value `value` of the placeholder `ph` to `f`.
pub fn write_value(
    value: &PlaceholderValue<'_>,
    ph: &Placeholder,
    icons: &StatusIconsSet,
    default: &str,
    f: &mut String,
) -> (r: Result<(), FormatError>)
    ensures
        match value_text(value@, ph@, *icons, default@) {
            Some(t) => r is Ok && final(f)@ == old(f)@ + t,
            None => r is Err,
        },
{
    match value {
        PlaceholderValue::String(s) => {
            f.append(s);
            Ok(())
        },
        PlaceholderValue::OptionalString(t) => {
            match t {
                Some(s) => f.append(s),
                None => f.append(default),
            }
            Ok(())
        },
        PlaceholderValue::Volume(v) => {
            write_signed(*v as i64, f);
            Ok(())
        },
        PlaceholderValue::Len(n) => {
            write_decimal(*n as u64, f);
            Ok(())
        },
        PlaceholderValue::OptionalDuration(d, fmt)
        | PlaceholderValue::OptionalElapsedDuration(d, fmt) => match d {
            Some(d) => {
                let secs: u32 = (d.secs % 0x1_0000_0000) as u32;
                write_time(format_time(secs, d.nanos, fmt), f)
            },
            None => {
                f.append(default);
                Ok(())
            },
        },
        PlaceholderValue::OptionalQueuePlace(place) => {
            match place {
                Some(n) => write_decimal(*n as u64 + 1, f),
                None => f.append(default),
            }
            Ok(())
        },
        PlaceholderValue::Bool(b) => {
            icons.write_bool(ph, *b, f);
            Ok(())
        },
        PlaceholderValue::State(s, pad) => {
            f.push(icons.state.get_icon(*s));
            write_spaces(*pad, f);
            proof {
                assert(f@ =~= old(f)@ + (seq![icons.state.spec_icon(*s)] + spaces(*pad as nat)));
            }
            Ok(())
        },
    }
}

impl MpdFormatter {
    /// The status line of the song `song` and the status `status`, which was read the time
    /// `age` ago. What is missing is shown as `default`.
    pub fn format(
        &self,
        icons: &StatusIconsSet,
        song: Option<&Song>,
        status: &Status,
        age: Span,
        default: &str,
    ) -> (r: Result<String, FormatError>)
        ensures
            match r {
                Ok(t) => status_line(self@, *icons, song, *status, age, default@) == Some(t@),
                Err(e) => e == FormatError::UnsupportedTimeSpecifier && status_line(
                    self@,
                    *icons,
                    song,
                    *status,
                    age,
                    default@,
                ) is None,
            },
    {
        let mut f = String::new();
        let mut i: usize = 0;
        proof {
            assert(self@.take(0) =~= Seq::<PlaceholderView>::empty());
        }
        while i < self.0.len()
            invariant
                i <= self.0@.len(),
                self@.len() == self.0@.len(),
                status_line(self@.take(i as int), *icons, song, *status, age, default@) == Some(
                    f@,
                ),
            decreases self.0@.len() - i,
        {
            let ph = &self.0[i];
            proof {
                assert(self@[i as int] == ph@);
                assert(self@.take(i + 1).drop_last() =~= self@.take(i as int));
                assert(self@.take(i + 1).last() == ph@);
            }
            let value = ph.get(song, status, age);
            match write_value(&value, ph, icons, default, &mut f) {
                Ok(()) => {},
                Err(e) => {
                    proof {
                        lemma_status_line_none(
                            self@,
                            *icons,
                            song,
                            *status,
                            age,
                            default@,
                            i + 1,
                        );
                    }
                    return Err(FormatError::UnsupportedTimeSpecifier);
                },
            }
            i += 1;
        }
        proof {
            assert(self@.take(self@.len() as int) =~= self@);
        }
        Ok(f)
    }
}

} // verus!
