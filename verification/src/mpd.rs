//! The status of a music player as content: icons and the rules of their display.

use crate::chars::same_text;
use crate::decimal::{digits, write_decimal};
use vstd::prelude::*;
use vstd::string::*;

verus! {

/// Why a set of `N` icons cannot be read from a string.
#[derive(Debug, Clone, Copy, PartialEq, Eq)]
pub enum IconSetParseError<const N: usize> {
    /// The string has fewer characters than the set must have.
    NotEnoughChars,
    /// The string has more than `N` characters.
    TooManyChars,
}

/// The text of an error in a set of `n` icons.
pub open spec fn icon_error_text<const N: usize>(e: IconSetParseError<N>) -> Seq<char> {
    match e {
        IconSetParseError::NotEnoughChars => "Not enough characters (expected "@ + digits(
            N as nat,
        ) + ")"@,
        IconSetParseError::TooManyChars => "Too many characters (expected "@ + digits(N as nat)
            + ")"@,
    }
}

impl<const N: usize> IconSetParseError<N> {
    /// The error as a text.
    pub fn to_string(&self) -> (r: String)
        ensures
            r@ == icon_error_text(*self),
    {
        let mut out = match self {
            IconSetParseError::NotEnoughChars => "Not enough characters (expected ".to_owned(),
            IconSetParseError::TooManyChars => "Too many characters (expected ".to_owned(),
        };
        write_decimal(N as u64, &mut out);
        out.append(")");
        out
    }
}

/// What the player does.
#[derive(Debug, Clone, Copy, PartialEq, Eq)]
pub enum State {
    Stop,
    Play,
    Pause,
}

/// The icons for what the player does.
#[derive(Debug, Clone, Copy, PartialEq, Eq)]
pub struct StateStatusIcons {
    pub play: char,
    pub pause: char,
    pub stop: char,
}

/// The icon of a switch that is on, and the icon, if it has one, of the switch when it is off.
#[derive(Debug, Clone, Copy, PartialEq, Eq)]
pub struct StatusIcons {
    pub enabled: char,
    pub disabled: Option<char>,
}

/// The icons of the player's state and of its four switches.
#[derive(Debug, Clone, Copy, PartialEq, Eq)]
pub struct StatusIconsSet {
    pub state: StateStatusIcons,
    pub consume: StatusIcons,
    pub random: StatusIcons,
    pub repeat: StatusIcons,
    pub single: StatusIcons,
}

/// `pad` spaces.
pub open spec fn spaces(pad: nat) -> Seq<char> {
    Seq::new(pad, |i: int| ' ')
}

/// An icon with `pad` spaces behind it; nothing where there is no icon.
pub open spec fn padded_icon(icon: Option<char>, pad: nat) -> Seq<char> {
    match icon {
        Some(c) => seq![c] + spaces(pad),
        None => Seq::empty(),
    }
}

/// Appends `pad` spaces to `f`.
pub fn write_spaces(pad: usize, f: &mut String)
    ensures
        final(f)@ == old(f)@ + spaces(pad as nat),
{
    let mut i: usize = 0;
    proof {
        assert(f@ =~= old(f)@ + spaces(0));
    }
    while i < pad
        invariant
            i <= pad,
            f@ == old(f)@ + spaces(i as nat),
        decreases pad - i,
    {
        f.push(' ');
        proof {
            assert(spaces((i + 1) as nat) =~= spaces(i as nat).push(' '));
            assert(f@ =~= old(f)@ + spaces((i + 1) as nat));
        }
        i += 1;
    }
}

impl StateStatusIcons {
    /// The icon for `state`.
    pub fn get_icon(&self, state: State) -> (r: char)
        ensures
            r == self.spec_icon(state),
    {
        match state {
            State::Stop => self.stop,
            State::Play => self.play,
            State::Pause => self.pause,
        }
    }

    /// The icon for `state`.
    pub open spec fn spec_icon(&self, state: State) -> char {
        match state {
            State::Stop => self.stop,
            State::Play => self.play,
            State::Pause => self.pause,
        }
    }

    /// Reads the icons for play, pause and stop, in that order, from a string of three
    /// characters.
    pub fn parse(s: &str) -> (r: Result<Self, IconSetParseError<3>>)
        ensures
            s@.len() < 3 ==> r == Err::<Self, IconSetParseError<3>>(
                IconSetParseError::NotEnoughChars,
            ),
            s@.len() > 3 ==> r == Err::<Self, IconSetParseError<3>>(
                IconSetParseError::TooManyChars,
            ),
            s@.len() == 3 ==> r == Ok::<Self, IconSetParseError<3>>(
                StateStatusIcons { play: s@[0], pause: s@[1], stop: s@[2] },
            ),
    {
        let n = s.unicode_len();
        if n < 3 {
            Err(IconSetParseError::NotEnoughChars)
        } else if n > 3 {
            Err(IconSetParseError::TooManyChars)
        } else {
            Ok(StateStatusIcons { play: s.get_char(0), pause: s.get_char(1), stop: s.get_char(2) })
        }
    }
}

impl StatusIcons {
    /// The icon of a switch that shows nothing when it is off.
    pub fn single(c: char) -> (r: Self)
        ensures
            r == (StatusIcons { enabled: c, disabled: None }),
    {
        Self { enabled: c, disabled: None }
    }

    /// The icon of the switch, which is on where `state` holds.
    pub fn get_icon(&self, state: bool) -> (r: Option<char>)
        ensures
            r == self.spec_icon(state),
    {
        if state {
            Some(self.enabled)
        } else {
            self.disabled
        }
    }

    /// The icon of the switch, which is on where `state` holds.
    pub open spec fn spec_icon(&self, state: bool) -> Option<char> {
        if state {
            Some(self.enabled)
        } else {
            self.disabled
        }
    }

    /// Appends the icon of the switch to `f`, with `pad` spaces behind it; nothing where the
    /// switch has no icon for `state`.
    pub fn write(&self, state: bool, pad: usize, f: &mut String)
        ensures
            final(f)@ == old(f)@ + padded_icon(self.spec_icon(state), pad as nat),
    {
        match self.get_icon(state) {
            Some(c) => {
                f.push(c);
                write_spaces(pad, f);
                proof {
                    assert(f@ =~= old(f)@ + padded_icon(self.spec_icon(state), pad as nat));
                }
            },
            None => {
                proof {
                    assert(f@ =~= old(f)@ + padded_icon(self.spec_icon(state), pad as nat));
                }
            },
        }
    }

    /// Reads the icon of a switch that is on from a string of one character, or that icon and
    /// the one of the switch that is off from a string of two.
    pub fn parse(s: &str) -> (r: Result<Self, IconSetParseError<2>>)
        ensures
            s@.len() < 1 ==> r == Err::<Self, IconSetParseError<2>>(
                IconSetParseError::NotEnoughChars,
            ),
            s@.len() > 2 ==> r == Err::<Self, IconSetParseError<2>>(
                IconSetParseError::TooManyChars,
            ),
            s@.len() == 1 ==> r == Ok::<Self, IconSetParseError<2>>(
                StatusIcons { enabled: s@[0], disabled: None },
            ),
            s@.len() == 2 ==> r == Ok::<Self, IconSetParseError<2>>(
                StatusIcons { enabled: s@[0], disabled: Some(s@[1]) },
            ),
    {
        let n = s.unicode_len();
        if n < 1 {
            Err(IconSetParseError::NotEnoughChars)
        } else if n > 2 {
            Err(IconSetParseError::TooManyChars)
        } else if n == 1 {
            Ok(StatusIcons { enabled: s.get_char(0), disabled: None })
        } else {
            Ok(StatusIcons { enabled: s.get_char(0), disabled: Some(s.get_char(1)) })
        }
    }
}

impl std::str::FromStr for StateStatusIcons {
    type Err = IconSetParseError<3>;

    /// Reads the icons as `parse` does.
    fn from_str(s: &str) -> (r: Result<Self, Self::Err>)
        ensures
            s@.len() < 3 ==> r == Err::<Self, IconSetParseError<3>>(
                IconSetParseError::NotEnoughChars,
            ),
            s@.len() > 3 ==> r == Err::<Self, IconSetParseError<3>>(
                IconSetParseError::TooManyChars,
            ),
            s@.len() == 3 ==> r == Ok::<Self, IconSetParseError<3>>(
                StateStatusIcons { play: s@[0], pause: s@[1], stop: s@[2] },
            ),
    {
        StateStatusIcons::parse(s)
    }
}

impl std::str::FromStr for StatusIcons {
    type Err = IconSetParseError<2>;

    /// Reads the icons as `parse` does.
    fn from_str(s: &str) -> (r: Result<Self, Self::Err>)
        ensures
            s@.len() < 1 ==> r == Err::<Self, IconSetParseError<2>>(
                IconSetParseError::NotEnoughChars,
            ),
            s@.len() > 2 ==> r == Err::<Self, IconSetParseError<2>>(
                IconSetParseError::TooManyChars,
            ),
            s@.len() == 1 ==> r == Ok::<Self, IconSetParseError<2>>(
                StatusIcons { enabled: s@[0], disabled: None },
            ),
            s@.len() == 2 ==> r == Ok::<Self, IconSetParseError<2>>(
                StatusIcons { enabled: s@[0], disabled: Some(s@[1]) },
            ),
    {
        StatusIcons::parse(s)
    }
}

impl StatusIconsSet {
    /// The set of the given icons.
    pub fn new(
        state_icons: StateStatusIcons,
        consume_icons: StatusIcons,
        random_icons: StatusIcons,
        repeat_icons: StatusIcons,
        single_icons: StatusIcons,
    ) -> (r: Self)
        ensures
            r == (StatusIconsSet {
                state: state_icons,
                consume: consume_icons,
                random: random_icons,
                repeat: repeat_icons,
                single: single_icons,
            }),
    {
        Self {
            state: state_icons,
            consume: consume_icons,
            random: random_icons,
            repeat: repeat_icons,
            single: single_icons,
        }
    }
}

/// A length of time: whole seconds, and the nanoseconds beyond them.
#[derive(Debug, Clone, Copy, PartialEq, Eq)]
pub struct Span {
    pub secs: u64,
    pub nanos: u32,
}

/// The seconds and nanoseconds of two lengths of time together; the seconds stop at the
/// largest number that the type holds.
pub open spec fn span_sum(a: Span, b: Span) -> Span {
    let nanos = a.nanos + b.nanos;
    let secs = a.secs + b.secs + nanos / 1_000_000_000;
    Span {
        secs: if secs > u64::MAX {
            u64::MAX
        } else {
            secs as u64
        },
        nanos: (nanos % 1_000_000_000) as u32,
    }
}

impl Span {
    /// This length of time and `other` together.
    pub fn plus(self, other: Span) -> (r: Span)
        ensures
            r == span_sum(self, other),
    {
        let nanos: u64 = self.nanos as u64 + other.nanos as u64;
        let carry: u64 = nanos / 1_000_000_000;
        let rest: u32 = (nanos % 1_000_000_000) as u32;
        let secs = if self.secs > u64::MAX - other.secs {
            u64::MAX
        } else if self.secs + other.secs > u64::MAX - carry {
            u64::MAX
        } else {
            self.secs + other.secs + carry
        };
        Span { secs, nanos: rest }
    }
}

/// The song that the player has at hand.
#[derive(Debug)]
pub struct Song {
    /// The name of the file.
    pub file: String,
    pub title: Option<String>,
    pub artist: Option<String>,
    /// The other tags of the song, each a name and a value.
    pub tags: Vec<(String, String)>,
}

/// What the player reports of itself.
#[derive(Debug, Clone, Copy, PartialEq, Eq)]
pub struct Status {
    pub volume: i8,
    pub state: State,
    /// The time for which the song had played when the status was read.
    pub elapsed: Option<Span>,
    /// The length of the song.
    pub duration: Option<Span>,
    /// The place of the song in the queue, counted from 0.
    pub song: Option<u32>,
    pub queue_len: u32,
    pub consume: bool,
    pub random: bool,
    pub repeat: bool,
    pub single: bool,
}

/// The song and the status of the player as they were last read.
#[derive(Debug)]
pub struct MpdState {
    pub song: Option<Song>,
    pub status: Status,
}

/// The value of the last tag of the name `key`.
pub open spec fn last_tag(tags: Seq<(String, String)>, key: Seq<char>) -> Option<Seq<char>>
    decreases tags.len(),
{
    if tags.len() == 0 {
        None
    } else if tags.last().0@ == key {
        Some(tags.last().1@)
    } else {
        last_tag(tags.drop_last(), key)
    }
}

impl Song {
    /// The value of the last tag of the name `key`.
    pub fn tag(&self, key: &str) -> (r: Option<&str>)
        ensures
            match r {
                Some(v) => last_tag(self.tags@, key@) == Some(v@),
                None => last_tag(self.tags@, key@) is None,
            },
    {
        let mut i = self.tags.len();
        proof {
            assert(self.tags@.take(i as int) =~= self.tags@);
        }
        while i > 0
            invariant
                i <= self.tags@.len(),
                last_tag(self.tags@, key@) == last_tag(self.tags@.take(i as int), key@),
            decreases i,
        {
            proof {
                assert(self.tags@.take(i as int).drop_last() =~= self.tags@.take(i - 1));
                assert(self.tags@.take(i as int).last() == self.tags@[i - 1]);
            }
            i -= 1;
            if same_text(self.tags[i].0.as_str(), key) {
                return Some(self.tags[i].1.as_str());
            }
        }
        None
    }
}

} // verus!
