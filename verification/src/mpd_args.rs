//! The settings of a music player as a source, and the arguments that change them.

use crate::mpd::{State, StateStatusIcons, StatusIcons, StatusIconsSet};
use crate::mpd_format::{MpdFormatter, Placeholder, PlaceholderView};
use vstd::prelude::*;
use vstd::string::*;

verus! {

/// An argument that changes one setting of the source.
#[derive(Debug)]
pub enum MpdArgToken {
    Format(MpdFormatter),
    Placeholder(String),
    StateIcons(StateStatusIcons),
    ConsumeIcons(StatusIcons),
    RandomIcons(StatusIcons),
    RepeatIcons(StatusIcons),
    SingleIcons(StatusIcons),
}

/// The settings of the source.
#[derive(Debug)]
pub struct MpdSourceArgs {
    /// The format of the status line.
    pub fmt: MpdFormatter,
    /// What is shown for what is missing.
    pub default_placeholder: String,
    pub state_icons: StateStatusIcons,
    pub consume_icons: StatusIcons,
    pub random_icons: StatusIcons,
    pub repeat_icons: StatusIcons,
    pub single_icons: StatusIcons,
}

/// The settings of the source as a mathematical value.
pub struct MpdSourceArgsView {
    pub fmt: Seq<PlaceholderView>,
    pub default_placeholder: Seq<char>,
    pub icons: StatusIconsSet,
}

/// An argument as a mathematical value.
pub enum MpdArgTokenView {
    Format(Seq<PlaceholderView>),
    Placeholder(Seq<char>),
    StateIcons(StateStatusIcons),
    ConsumeIcons(StatusIcons),
    RandomIcons(StatusIcons),
    RepeatIcons(StatusIcons),
    SingleIcons(StatusIcons),
}

impl View for MpdArgToken {
    type V = MpdArgTokenView;

    open spec fn view(&self) -> MpdArgTokenView {
        match self {
            MpdArgToken::Format(f) => MpdArgTokenView::Format(f@),
            MpdArgToken::Placeholder(p) => MpdArgTokenView::Placeholder(p@),
            MpdArgToken::StateIcons(i) => MpdArgTokenView::StateIcons(*i),
            MpdArgToken::ConsumeIcons(i) => MpdArgTokenView::ConsumeIcons(*i),
            MpdArgToken::RandomIcons(i) => MpdArgTokenView::RandomIcons(*i),
            MpdArgToken::RepeatIcons(i) => MpdArgTokenView::RepeatIcons(*i),
            MpdArgToken::SingleIcons(i) => MpdArgTokenView::SingleIcons(*i),
        }
    }
}

impl View for MpdSourceArgs {
    type V = MpdSourceArgsView;

    open spec fn view(&self) -> MpdSourceArgsView {
        MpdSourceArgsView {
            fmt: self.fmt@,
            default_placeholder: self.default_placeholder@,
            icons: StatusIconsSet {
                state: self.state_icons,
                consume: self.consume_icons,
                random: self.random_icons,
                repeat: self.repeat_icons,
                single: self.single_icons,
            },
        }
    }
}

/// The settings with which a source starts: the format `{artist} - {title}`, `N/A` for what is
/// missing, and the icons of a font of symbols.
pub open spec fn default_args() -> MpdSourceArgsView {
    MpdSourceArgsView {
        fmt: seq![
            PlaceholderView::Artist,
            PlaceholderView::String(" - "@),
            PlaceholderView::Title,
        ],
        default_placeholder: "N/A"@,
        icons: StatusIconsSet {
            state: StateStatusIcons { play: '\u{f04b}', pause: '\u{f04c}', stop: '\u{f04d}' },
            consume: StatusIcons { enabled: '\u{f0c4}', disabled: None },
            random: StatusIcons { enabled: '\u{f074}', disabled: None },
            repeat: StatusIcons { enabled: '\u{f01e}', disabled: None },
            single: StatusIcons { enabled: 'S', disabled: None },
        },
    }
}

/// The settings after an argument.
pub open spec fn applied(args: MpdSourceArgsView, token: MpdArgTokenView) -> MpdSourceArgsView {
    match token {
        MpdArgTokenView::Format(f) => MpdSourceArgsView { fmt: f, ..args },
        MpdArgTokenView::Placeholder(p) => MpdSourceArgsView { default_placeholder: p, ..args },
        MpdArgTokenView::StateIcons(i) => MpdSourceArgsView {
            icons: StatusIconsSet { state: i, ..args.icons },
            ..args
        },
        MpdArgTokenView::ConsumeIcons(i) => MpdSourceArgsView {
            icons: StatusIconsSet { consume: i, ..args.icons },
            ..args
        },
        MpdArgTokenView::RandomIcons(i) => MpdSourceArgsView {
            icons: StatusIconsSet { random: i, ..args.icons },
            ..args
        },
        MpdArgTokenView::RepeatIcons(i) => MpdSourceArgsView {
            icons: StatusIconsSet { repeat: i, ..args.icons },
            ..args
        },
        MpdArgTokenView::SingleIcons(i) => MpdSourceArgsView {
            icons: StatusIconsSet { single: i, ..args.icons },
            ..args
        },
    }
}

impl Placeholder {
    /// A placeholder like this one.
    pub fn duplicate(&self) -> (r: Placeholder)
        ensures
            r@ == self@,
    {
        match self {
            Placeholder::String(s) => Placeholder::String(s.clone()),
            Placeholder::Artist => Placeholder::Artist,
            Placeholder::AlbumArtist => Placeholder::AlbumArtist,
            Placeholder::Album => Placeholder::Album,
            Placeholder::Title => Placeholder::Title,
            Placeholder::Filename => Placeholder::Filename,
            Placeholder::Date => Placeholder::Date,
            Placeholder::TotalTime(f) => Placeholder::TotalTime(f.clone()),
            Placeholder::ElapsedTime(f) => Placeholder::ElapsedTime(f.clone()),
            Placeholder::Volume => Placeholder::Volume,
            Placeholder::SongPosition => Placeholder::SongPosition,
            Placeholder::QueueLength => Placeholder::QueueLength,
            Placeholder::StateIcon(p) => Placeholder::StateIcon(*p),
            Placeholder::ConsumeIcon(p) => Placeholder::ConsumeIcon(*p),
            Placeholder::RandomIcon(p) => Placeholder::RandomIcon(*p),
            Placeholder::RepeatIcon(p) => Placeholder::RepeatIcon(*p),
            Placeholder::SingleIcon(p) => Placeholder::SingleIcon(*p),
        }
    }
}

impl MpdFormatter {
    /// A format like this one.
    pub fn duplicate(&self) -> (r: MpdFormatter)
        ensures
            r@ == self@,
    {
        let mut out: Vec<Placeholder> = Vec::new();
        let mut i: usize = 0;
        while i < self.0.len()
            invariant
                i <= self.0@.len(),
                out@.len() == i,
                forall|t: int| 0 <= t < i ==> (#[trigger] out@[t])@ == self.0@[t]@,
            decreases self.0@.len() - i,
        {
            out.push(self.0[i].duplicate());
            i += 1;
        }
        let r = MpdFormatter(out);
        proof {
            assert(r@ =~= self@);
        }
        r
    }

    /// Whether the format shows the time for which the song has played.
    pub fn shows_elapsed_time(&self) -> (r: bool)
        ensures
            r == (exists|i: int| 0 <= i < self@.len() && (#[trigger] self@[i]) is ElapsedTime),
    {
        let mut i: usize = 0;
        while i < self.0.len()
            invariant
                i <= self.0@.len(),
                self@.len() == self.0@.len(),
                forall|t: int| 0 <= t < i ==> !((#[trigger] self@[t]) is ElapsedTime),
            decreases self.0@.len() - i,
        {
            match &self.0[i] {
                Placeholder::ElapsedTime(_) => {
                    proof {
                        assert(self@[i as int] is ElapsedTime);
                    }
                    return true;
                },
                _ => {
                    proof {
                        assert(self@[i as int] == self.0@[i as int]@);
                    }
                },
            }
            i += 1;
        }
        false
    }
}

/// Whether the status line is to be made anew: where the player has reported since the line
/// was last made, and where the line shows the elapsed time while the player plays.
pub fn needs_refresh(reported: bool, fmt: &MpdFormatter, state: State) -> (r: bool)
    ensures
        r == (reported || ((exists|i: int|
            0 <= i < fmt@.len() && (#[trigger] fmt@[i]) is ElapsedTime) && state == State::Play)),
{
    if reported {
        return true;
    }
    let playing = match state {
        State::Play => true,
        _ => false,
    };
    fmt.shows_elapsed_time() && playing
}

impl Default for MpdSourceArgs {
    fn default() -> (r: Self)
        ensures
            r@ == default_args(),
    {
        let mut fmt: Vec<Placeholder> = Vec::new();
        fmt.push(Placeholder::Artist);
        fmt.push(Placeholder::String(" - ".to_owned()));
        fmt.push(Placeholder::Title);
        let r = MpdSourceArgs {
            fmt: MpdFormatter(fmt),
            default_placeholder: "N/A".to_owned(),
            state_icons: StateStatusIcons { play: '\u{f04b}', pause: '\u{f04c}', stop: '\u{f04d}' },
            consume_icons: StatusIcons::single('\u{f0c4}'),
            random_icons: StatusIcons::single('\u{f074}'),
            repeat_icons: StatusIcons::single('\u{f01e}'),
            single_icons: StatusIcons::single('S'),
        };
        proof {
            assert(r.fmt@ =~= default_args().fmt);
        }
        r
    }
}

impl MpdSourceArgs {
    /// Changes the setting that the argument `token` is for.
    pub fn apply_token(&mut self, token: &MpdArgToken)
        ensures
            final(self)@ == applied(old(self)@, token@),
    {
        match token {
            MpdArgToken::Format(mpd_formatter) => {
                self.fmt = mpd_formatter.duplicate();
            },
            MpdArgToken::Placeholder(p) => {
                self.default_placeholder = p.clone();
            },
            MpdArgToken::StateIcons(state_status_icons) => {
                self.state_icons = *state_status_icons;
            },
            MpdArgToken::ConsumeIcons(status_icons) => {
                self.consume_icons = *status_icons;
            },
            MpdArgToken::RandomIcons(status_icons) => {
                self.random_icons = *status_icons;
            },
            MpdArgToken::RepeatIcons(status_icons) => {
                self.repeat_icons = *status_icons;
            },
            MpdArgToken::SingleIcons(status_icons) => {
                self.single_icons = *status_icons;
            },
        }
    }

    /// The icons of the settings as a set.
    pub fn icons(&self) -> (r: StatusIconsSet)
        ensures
            r == self@.icons,
    {
        StatusIconsSet::new(
            self.state_icons,
            self.consume_icons,
            self.random_icons,
            self.repeat_icons,
            self.single_icons,
        )
    }

    /// Settings like these.
    pub fn duplicate(&self) -> (r: MpdSourceArgs)
        ensures
            r@ == self@,
    {
        MpdSourceArgs {
            fmt: self.fmt.duplicate(),
            default_placeholder: self.default_placeholder.clone(),
            state_icons: self.state_icons,
            consume_icons: self.consume_icons,
            random_icons: self.random_icons,
            repeat_icons: self.repeat_icons,
            single_icons: self.single_icons,
        }
    }
}

} // verus!
