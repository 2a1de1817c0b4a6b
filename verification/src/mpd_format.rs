//! The format of the status line of a music player: how it is read and how it is shown.
//!
//! A format is a text with placeholders in braces, such as `{artist} - {title}`. A brace that
//! is meant as itself is written twice. A placeholder may carry an argument behind a colon:
//! `{elapsedTime:%M:%S}` gives the format of a time, `{stateIcon:1}` the number of spaces
//! behind an icon.

use crate::chars::{
    find_char, is_word, lemma_find_shift, position, text_between, to_chars,
};
use crate::decimal::{number_of, parse_decimal};
use chrono::format::StrftimeItems;
use vstd::prelude::*;
use vstd::string::*;

verus! {

/// The error of chrono for a time format that it cannot read.
#[verifier::external_type_specification]
#[verifier::external_body]
pub struct ExStrftimeError(chrono::format::ParseError);

/// Whether chrono can read `fmt` as the format of a time.
pub uninterp spec fn strftime_valid(fmt: Seq<char>) -> bool;

/// `StrftimeItems::new(fmt).parse_to_owned()` of chrono reads the format `fmt`. It succeeds
/// on the formats that chrono can read, which `strftime_valid` names, and fails on the others.
#[verifier::external_body]
fn check_strftime(fmt: &str) -> (r: Result<(), chrono::format::ParseError>)
    ensures
        r is Ok <==> strftime_valid(fmt@),
{
    match StrftimeItems::new(fmt).parse_to_owned() {
        Ok(_) => Ok(()),
        Err(e) => Err(e),
    }
}

/// A placeholder of a format.
#[derive(Debug, PartialEq)]
pub enum Placeholder {
    /// Text that is shown as it is.
    String(String),
    Artist,
    AlbumArtist,
    Album,
    Title,
    Filename,
    Date,
    /// The length of the song, in the given format of a time.
    TotalTime(String),
    /// The time for which the song has played, in the given format of a time.
    ElapsedTime(String),
    Volume,
    SongPosition,
    QueueLength,
    /// The icon of the player's state, with that many spaces behind it.
    StateIcon(usize),
    ConsumeIcon(usize),
    RandomIcon(usize),
    RepeatIcon(usize),
    SingleIcon(usize),
}

/// A placeholder as a mathematical value.
pub enum PlaceholderView {
    String(Seq<char>),
    Artist,
    AlbumArtist,
    Album,
    Title,
    Filename,
    Date,
    TotalTime(Seq<char>),
    ElapsedTime(Seq<char>),
    Volume,
    SongPosition,
    QueueLength,
    StateIcon(usize),
    ConsumeIcon(usize),
    RandomIcon(usize),
    RepeatIcon(usize),
    SingleIcon(usize),
}

impl View for Placeholder {
    type V = PlaceholderView;

    open spec fn view(&self) -> PlaceholderView {
        match self {
            Placeholder::String(s) => PlaceholderView::String(s@),
            Placeholder::Artist => PlaceholderView::Artist,
            Placeholder::AlbumArtist => PlaceholderView::AlbumArtist,
            Placeholder::Album => PlaceholderView::Album,
            Placeholder::Title => PlaceholderView::Title,
            Placeholder::Filename => PlaceholderView::Filename,
            Placeholder::Date => PlaceholderView::Date,
            Placeholder::TotalTime(f) => PlaceholderView::TotalTime(f@),
            Placeholder::ElapsedTime(f) => PlaceholderView::ElapsedTime(f@),
            Placeholder::Volume => PlaceholderView::Volume,
            Placeholder::SongPosition => PlaceholderView::SongPosition,
            Placeholder::QueueLength => PlaceholderView::QueueLength,
            Placeholder::StateIcon(p) => PlaceholderView::StateIcon(*p),
            Placeholder::ConsumeIcon(p) => PlaceholderView::ConsumeIcon(*p),
            Placeholder::RandomIcon(p) => PlaceholderView::RandomIcon(*p),
            Placeholder::RepeatIcon(p) => PlaceholderView::RepeatIcon(*p),
            Placeholder::SingleIcon(p) => PlaceholderView::SingleIcon(*p),
        }
    }
}

/// Why a format cannot be read.
#[derive(Debug)]
pub enum MpdFormatParseError {
    /// No placeholder has this name.
    UnknownPlaceholder(String),
    /// The placeholder of this name takes no argument.
    RedundantFormat(String),
    /// The argument is not the format of a time.
    DurationParseError(chrono::format::ParseError),
    /// The argument is not a number of spaces.
    PadParseError(String),
    /// A brace is not closed, or one is closed that was not opened.
    UnmatchedParenthesis,
}

/// Why a format cannot be read, as a mathematical value.
pub enum ParseFailure {
    UnknownPlaceholder(Seq<char>),
    RedundantFormat(Seq<char>),
    DurationParseError,
    PadParseError(Seq<char>),
    UnmatchedParenthesis,
}

impl View for MpdFormatParseError {
    type V = ParseFailure;

    open spec fn view(&self) -> ParseFailure {
        match self {
            MpdFormatParseError::UnknownPlaceholder(s) => ParseFailure::UnknownPlaceholder(s@),
            MpdFormatParseError::RedundantFormat(s) => ParseFailure::RedundantFormat(s@),
            MpdFormatParseError::DurationParseError(_) => ParseFailure::DurationParseError,
            MpdFormatParseError::PadParseError(s) => ParseFailure::PadParseError(s@),
            MpdFormatParseError::UnmatchedParenthesis => ParseFailure::UnmatchedParenthesis,
        }
    }
}

/// `s` without the plus sign that may stand at its start.
pub open spec fn unsigned_part(s: Seq<char>) -> Seq<char> {
    if s.len() > 0 && s[0] == '+' {
        s.drop_first()
    } else {
        s
    }
}

/// The number of spaces that `s` writes: decimal digits, which a plus sign may precede, where
/// the number is one that the machine can hold.
pub open spec fn pad_of(s: Seq<char>) -> Option<usize> {
    number_of(unsigned_part(s))
}

/// Reads a number of spaces from the characters between `from` and `to`.
pub fn parse_pad(chars: &[char], from: usize, to: usize) -> (r: Option<usize>)
    requires
        from <= to <= chars@.len(),
    ensures
        r == pad_of(chars@.subrange(from as int, to as int)),
{
    let ghost s = chars@.subrange(from as int, to as int);
    let mut start = from;
    if from < to && chars[from] == '+' {
        start = from + 1;
    }
    proof {
        let d = chars@.subrange(start as int, to as int);
        if start > from {
            assert(s[0] == chars@[from as int]);
            assert(s.drop_first() =~= d);
        } else {
            assert(s =~= d);
            if s.len() > 0 {
                assert(s[0] == chars@[from as int]);
            }
        }
        assert(d == unsigned_part(s));
    }
    parse_decimal(chars, start, to)
}

/// The placeholder of a name that carries the format of a time.
pub open spec fn duration_kind(name: Seq<char>, fmt: Seq<char>) -> Option<PlaceholderView> {
    if name == "elapsedTime"@ {
        Some(PlaceholderView::ElapsedTime(fmt))
    } else if name == "totalTime"@ {
        Some(PlaceholderView::TotalTime(fmt))
    } else {
        None
    }
}

/// The placeholder of a name that carries a number of spaces.
pub open spec fn icon_kind(name: Seq<char>, pad: usize) -> Option<PlaceholderView> {
    if name == "consumeIcon"@ {
        Some(PlaceholderView::ConsumeIcon(pad))
    } else if name == "repeatIcon"@ {
        Some(PlaceholderView::RepeatIcon(pad))
    } else if name == "stateIcon"@ {
        Some(PlaceholderView::StateIcon(pad))
    } else if name == "singleIcon"@ {
        Some(PlaceholderView::SingleIcon(pad))
    } else if name == "randomIcon"@ {
        Some(PlaceholderView::RandomIcon(pad))
    } else {
        None
    }
}

/// The placeholder of a name that carries nothing.
pub open spec fn plain_kind(name: Seq<char>) -> Option<PlaceholderView> {
    if name == "album"@ {
        Some(PlaceholderView::Album)
    } else if name == "albumArtist"@ {
        Some(PlaceholderView::AlbumArtist)
    } else if name == "artist"@ {
        Some(PlaceholderView::Artist)
    } else if name == "date"@ {
        Some(PlaceholderView::Date)
    } else if name == "filename"@ {
        Some(PlaceholderView::Filename)
    } else if name == "queueLength"@ {
        Some(PlaceholderView::QueueLength)
    } else if name == "songPosition"@ {
        Some(PlaceholderView::SongPosition)
    } else if name == "title"@ {
        Some(PlaceholderView::Title)
    } else if name == "volume"@ {
        Some(PlaceholderView::Volume)
    } else if duration_kind(name, "%M:%S"@) is Some {
        duration_kind(name, "%M:%S"@)
    } else {
        icon_kind(name, 0)
    }
}

/// The placeholder that stands between two braces as `spec`.
pub open spec fn placeholder_of(spec: Seq<char>) -> Result<PlaceholderView, ParseFailure> {
    let colon = find_char(spec, ':', 0);
    if colon < spec.len() {
        let name = spec.subrange(0, colon);
        let arg = spec.subrange(colon + 1, spec.len() as int);
        if name == "date"@ {
            Ok(PlaceholderView::Date)
        } else if duration_kind(name, arg) is Some {
            if strftime_valid(arg) {
                Ok(duration_kind(name, arg)->0)
            } else {
                Err(ParseFailure::DurationParseError)
            }
        } else if icon_kind(name, 0) is Some {
            match pad_of(arg) {
                Some(pad) => Ok(icon_kind(name, pad)->0),
                None => Err(ParseFailure::PadParseError(arg)),
            }
        } else {
            Err(ParseFailure::RedundantFormat(name))
        }
    } else {
        match plain_kind(spec) {
            Some(p) => Ok(p),
            None => Err(ParseFailure::UnknownPlaceholder(spec)),
        }
    }
}

/// The placeholder of the name `name` for the format `fmt` of a time, where the name carries
/// one.
fn duration_placeholder(chars: &[char], from: usize, to: usize, fmt: String) -> (r: Option<
    Placeholder,
>)
    requires
        from <= to <= chars@.len(),
    ensures
        match r {
            Some(p) => duration_kind(chars@.subrange(from as int, to as int), fmt@) == Some(p@),
            None => duration_kind(chars@.subrange(from as int, to as int), fmt@) is None,
        },
{
    if is_word(chars, from, to, "elapsedTime") {
        Some(Placeholder::ElapsedTime(fmt))
    } else if is_word(chars, from, to, "totalTime") {
        Some(Placeholder::TotalTime(fmt))
    } else {
        None
    }
}

/// The placeholder of the name `name` for `pad` spaces, where the name carries a number.
fn icon_placeholder(chars: &[char], from: usize, to: usize, pad: usize) -> (r: Option<Placeholder>)
    requires
        from <= to <= chars@.len(),
    ensures
        match r {
            Some(p) => icon_kind(chars@.subrange(from as int, to as int), pad) == Some(p@),
            None => icon_kind(chars@.subrange(from as int, to as int), pad) is None,
        },
{
    if is_word(chars, from, to, "consumeIcon") {
        Some(Placeholder::ConsumeIcon(pad))
    } else if is_word(chars, from, to, "repeatIcon") {
        Some(Placeholder::RepeatIcon(pad))
    } else if is_word(chars, from, to, "stateIcon") {
        Some(Placeholder::StateIcon(pad))
    } else if is_word(chars, from, to, "singleIcon") {
        Some(Placeholder::SingleIcon(pad))
    } else if is_word(chars, from, to, "randomIcon") {
        Some(Placeholder::RandomIcon(pad))
    } else {
        None
    }
}

/// The placeholder of a name that carries nothing.
fn plain_placeholder(chars: &[char], from: usize, to: usize) -> (r: Option<Placeholder>)
    requires
        from <= to <= chars@.len(),
    ensures
        match r {
            Some(p) => plain_kind(chars@.subrange(from as int, to as int)) == Some(p@),
            None => plain_kind(chars@.subrange(from as int, to as int)) is None,
        },
{
    if is_word(chars, from, to, "album") {
        Some(Placeholder::Album)
    } else if is_word(chars, from, to, "albumArtist") {
        Some(Placeholder::AlbumArtist)
    } else if is_word(chars, from, to, "artist") {
        Some(Placeholder::Artist)
    } else if is_word(chars, from, to, "date") {
        Some(Placeholder::Date)
    } else if is_word(chars, from, to, "filename") {
        Some(Placeholder::Filename)
    } else if is_word(chars, from, to, "queueLength") {
        Some(Placeholder::QueueLength)
    } else if is_word(chars, from, to, "songPosition") {
        Some(Placeholder::SongPosition)
    } else if is_word(chars, from, to, "title") {
        Some(Placeholder::Title)
    } else if is_word(chars, from, to, "volume") {
        Some(Placeholder::Volume)
    } else {
        match duration_placeholder(chars, from, to, "%M:%S".to_owned()) {
            Some(p) => Some(p),
            None => icon_placeholder(chars, from, to, 0),
        }
    }
}

/// The placeholder for the format `fmt` of a time, which chrono has read with the outcome
/// `checked`.
pub fn checked_duration(placeholder: Placeholder, checked: Result<
    (),
    chrono::format::ParseError,
>) -> (r: Result<Placeholder, MpdFormatParseError>)
    ensures
        match checked {
            Ok(_) => r == Ok::<Placeholder, MpdFormatParseError>(placeholder),
            Err(e) => r == Err::<Placeholder, MpdFormatParseError>(
                MpdFormatParseError::DurationParseError(e),
            ),
        },
{
    match checked {
        Ok(_) => Ok(placeholder),
        Err(e) => Err(MpdFormatParseError::DurationParseError(e)),
    }
}

/// Reads the placeholder that stands between two braces, in the characters from `from` to
/// `to`.
pub fn parse_placeholder(chars: &[char], from: usize, to: usize) -> (r: Result<
    Placeholder,
    MpdFormatParseError,
>)
    requires
        from <= to <= chars@.len(),
    ensures
        match r {
            Ok(p) => placeholder_of(chars@.subrange(from as int, to as int)) == Ok::<
                PlaceholderView,
                ParseFailure,
            >(p@),
            Err(e) => placeholder_of(chars@.subrange(from as int, to as int)) == Err::<
                PlaceholderView,
                ParseFailure,
            >(e@),
        },
{
    let ghost spec = chars@.subrange(from as int, to as int);
    let colon = position(chars, ':', from, to);
    proof {
        lemma_find_shift(chars@, ':', from as int, to as int, from as int);
    }
    if colon < to {
        let ghost name = spec.subrange(0, colon - from);
        let ghost arg = spec.subrange(colon - from + 1, spec.len() as int);
        proof {
            assert(name =~= chars@.subrange(from as int, colon as int));
            assert(arg =~= chars@.subrange(colon + 1, to as int));
        }
        if is_word(chars, from, colon, "date") {
            return Ok(Placeholder::Date);
        }
        let fmt = text_between(chars, colon + 1, to);
        let checked = check_strftime(fmt.as_str());
        match duration_placeholder(chars, from, colon, fmt) {
            Some(p) => {
                return checked_duration(p, checked);
            },
            None => {},
        }
        match icon_placeholder(chars, from, colon, 0) {
            Some(_) => {
                match parse_pad(chars, colon + 1, to) {
                    Some(pad) => {
                        let p = icon_placeholder(chars, from, colon, pad);
                        Ok(p.unwrap())
                    },
                    None => Err(
                        MpdFormatParseError::PadParseError(text_between(chars, colon + 1, to)),
                    ),
                }
            },
            None => Err(MpdFormatParseError::RedundantFormat(text_between(chars, from, colon))),
        }
    } else {
        match plain_placeholder(chars, from, to) {
            Some(p) => Ok(p),
            None => Err(MpdFormatParseError::UnknownPlaceholder(text_between(chars, from, to))),
        }
    }
}

/// The text in which chrono says why it cannot read a format. Nothing is claimed of it.
#[verifier::external_body]
fn strftime_error_text(e: &chrono::format::ParseError) -> String {
    e.to_string()
}

/// The text of an error in a format, but for what chrono says of a format of a time.
pub open spec fn parse_error_text(e: ParseFailure) -> Seq<char> {
    match e {
        ParseFailure::UnknownPlaceholder(p) => "Unknown placeholder '"@ + p + "'"@,
        ParseFailure::RedundantFormat(p) => "'"@ + p + "' does not have additional formatting"@,
        ParseFailure::DurationParseError => "Invalid duration format: "@,
        ParseFailure::PadParseError(p) => "Padding parse error: '"@ + p + "' is not a number"@,
        ParseFailure::UnmatchedParenthesis => "Unmatched '{' or '}'"@,
    }
}

impl MpdFormatParseError {
    /// The error as a text. Where a format of a time could not be read, what chrono says of
    /// it follows.
    pub fn to_string(&self) -> (r: String)
        ensures
            self@ is DurationParseError ==> r@.len() >= parse_error_text(self@).len() && r@.take(
                parse_error_text(self@).len() as int,
            ) == parse_error_text(self@),
            !(self@ is DurationParseError) ==> r@ == parse_error_text(self@),
    {
        match self {
            MpdFormatParseError::UnknownPlaceholder(p) => {
                "Unknown placeholder '".to_owned().concat(p.as_str()).concat("'")
            },
            MpdFormatParseError::RedundantFormat(p) => {
                "'".to_owned().concat(p.as_str()).concat("' does not have additional formatting")
            },
            MpdFormatParseError::DurationParseError(e) => {
                let head = "Invalid duration format: ".to_owned();
                let tail = strftime_error_text(e);
                let r = head.concat(tail.as_str());
                proof {
                    assert(r@.take(head@.len() as int) =~= head@);
                }
                r
            },
            MpdFormatParseError::PadParseError(p) => {
                "Padding parse error: '".to_owned().concat(p.as_str()).concat("' is not a number")
            },
            MpdFormatParseError::UnmatchedParenthesis => "Unmatched '{' or '}'".to_owned(),
        }
    }
}

/// Whether `c` is one of the two braces.
pub open spec fn is_brace(c: char) -> bool {
    c == '{' || c == '}'
}

/// The first index from `from` at which a brace stands in `s`; the length of `s` where there
/// is none.
pub open spec fn find_brace(s: Seq<char>, from: int) -> int
    decreases s.len() - from,
{
    if from >= s.len() {
        s.len() as int
    } else if from >= 0 && is_brace(s[from]) {
        from
    } else {
        find_brace(s, from + 1)
    }
}

/// What a search for a brace finds.
pub proof fn lemma_find_brace(s: Seq<char>, from: int)
    requires
        0 <= from <= s.len(),
    ensures
        from <= find_brace(s, from) <= s.len(),
        find_brace(s, from) < s.len() ==> is_brace(s[find_brace(s, from)]),
    decreases s.len() - from,
{
    if from < s.len() && !is_brace(s[from]) {
        lemma_find_brace(s, from + 1);
    }
}

/// Text between placeholders as a placeholder; none where the text is empty.
pub open spec fn literal(raw: Seq<char>) -> Seq<PlaceholderView> {
    if raw.len() > 0 {
        seq![PlaceholderView::String(raw)]
    } else {
        Seq::empty()
    }
}

/// The placeholders of the format `s` from index `pos` on, where `raw` is the text that was
/// read since the last placeholder; or the first reason why the format cannot be read.
pub open spec fn parse_format(s: Seq<char>, pos: int, raw: Seq<char>) -> Result<
    Seq<PlaceholderView>,
    ParseFailure,
>
    decreases s.len() - pos,
{
    let open = find_brace(s, pos);
    let close = find_brace(s, open + 1);
    if pos < 0 || pos >= s.len() {
        Ok(literal(raw))
    } else if open >= s.len() {
        Ok(literal(raw + s.subrange(pos, s.len() as int)))
    } else if open + 1 < s.len() && s[open + 1] == s[open] {
        proof {
            lemma_find_brace(s, pos);
        }
        parse_format(s, open + 2, raw + s.subrange(pos, open + 1))
    } else if s[open] == '}' || close >= s.len() || s[close] == '{' {
        Err(ParseFailure::UnmatchedParenthesis)
    } else {
        proof {
            lemma_find_brace(s, pos);
            lemma_find_brace(s, open + 1);
        }
        match placeholder_of(s.subrange(open + 1, close)) {
            Err(f) => Err(f),
            Ok(p) => match parse_format(s, close + 1, Seq::empty()) {
                Err(f) => Err(f),
                Ok(rest) => Ok(literal(raw + s.subrange(pos, open)) + seq![p] + rest),
            },
        }
    }
}

/// The placeholders that were read, followed by what the rest of the format gives.
pub open spec fn read_on(
    done: Seq<PlaceholderView>,
    rest: Result<Seq<PlaceholderView>, ParseFailure>,
) -> Result<Seq<PlaceholderView>, ParseFailure> {
    match rest {
        Ok(r) => Ok(done + r),
        Err(f) => Err(f),
    }
}

/// The views of some placeholders.
pub open spec fn views(placeholders: Seq<Placeholder>) -> Seq<PlaceholderView> {
    placeholders.map_values(|p: Placeholder| p@)
}

/// The first index from `from` at which a brace stands; the number of characters where there
/// is none.
pub fn brace_position(chars: &[char], from: usize) -> (r: usize)
    requires
        from <= chars@.len(),
    ensures
        r == find_brace(chars@, from as int),
        from <= r <= chars@.len(),
{
    let n = chars.len();
    let mut i = from;
    while i < n
        invariant
            from <= i <= n,
            n == chars@.len(),
            find_brace(chars@, from as int) == find_brace(chars@, i as int),
        decreases n - i,
    {
        if chars[i] == '{' || chars[i] == '}' {
            return i;
        }
        i += 1;
    }
    n
}

/// Appends the characters from `from` to `to` to `f`.
pub fn write_between(chars: &[char], from: usize, to: usize, f: &mut String)
    requires
        from <= to <= chars@.len(),
    ensures
        final(f)@ == old(f)@ + chars@.subrange(from as int, to as int),
{
    let mut i = from;
    proof {
        assert(f@ =~= old(f)@ + chars@.subrange(from as int, from as int));
    }
    while i < to
        invariant
            from <= i <= to <= chars@.len(),
            f@ == old(f)@ + chars@.subrange(from as int, i as int),
        decreases to - i,
    {
        f.push(chars[i]);
        proof {
            assert(f@ =~= old(f)@ + chars@.subrange(from as int, i + 1));
        }
        i += 1;
    }
}

/// A format: text and placeholders, in their order.
#[derive(Debug, PartialEq)]
pub struct MpdFormatter(pub Vec<Placeholder>);

impl View for MpdFormatter {
    type V = Seq<PlaceholderView>;

    open spec fn view(&self) -> Seq<PlaceholderView> {
        views(self.0@)
    }
}

impl Default for MpdFormatter {
    /// The format that shows nothing.
    fn default() -> (r: Self)
        ensures
            r@ == Seq::<PlaceholderView>::empty(),
    {
        let r = MpdFormatter(Vec::new());
        proof {
            assert(r@ =~= Seq::<PlaceholderView>::empty());
        }
        r
    }
}

impl MpdFormatter {
    /// The format that shows `str` and nothing else.
    pub fn only_string(str: String) -> (r: Self)
        ensures
            r@ == seq![PlaceholderView::String(str@)],
    {
        let mut v: Vec<Placeholder> = Vec::new();
        v.push(Placeholder::String(str));
        let r = MpdFormatter(v);
        proof {
            assert(r@ =~= seq![PlaceholderView::String(str@)]);
        }
        r
    }

    /// An iterator over the placeholders of the format, in their order.
    pub fn iter(&self) -> (r: std::slice::Iter<'_, Placeholder>)
        ensures
            views(vstd::std_specs::slice::into_iter_elts(r)) == self@,
    {
        let r = self.0.as_slice().iter();
        proof {
            assert(vstd::std_specs::slice::into_iter_elts(r) =~= self.0@);
        }
        r
    }

    /// Reads a format.
    pub fn parse(s: &str) -> (r: Result<MpdFormatter, MpdFormatParseError>)
        ensures
            match r {
                Ok(f) => parse_format(s@, 0, Seq::empty()) == Ok::<
                    Seq<PlaceholderView>,
                    ParseFailure,
                >(f@),
                Err(e) => parse_format(s@, 0, Seq::empty()) == Err::<
                    Seq<PlaceholderView>,
                    ParseFailure,
                >(e@),
            },
    {
        let chars = to_chars(s);
        let n = chars.len();
        let ghost goal = parse_format(s@, 0, Seq::empty());
        let mut placeholders: Vec<Placeholder> = Vec::new();
        let mut raw = String::new();
        let mut pos: usize = 0;
        proof {
            assert(views(placeholders@) =~= Seq::<PlaceholderView>::empty());
            assert(read_on(views(placeholders@), goal) =~= goal);
        }
        while pos < n
            invariant
                pos <= n,
                n == chars@.len(),
                chars@ == s@,
                goal == parse_format(s@, 0, Seq::empty()),
                read_on(views(placeholders@), parse_format(s@, pos as int, raw@)) == goal,
            decreases n - pos,
        {
            let ghost done = views(placeholders@);
            let ghost before = raw@;
            let open = brace_position(chars.as_slice(), pos);
            if open >= n {
                write_between(chars.as_slice(), pos, n, &mut raw);
                pos = n;
                continue ;
            }
            if open + 1 < n && chars[open + 1] == chars[open] {
                write_between(chars.as_slice(), pos, open + 1, &mut raw);
                pos = open + 2;
                continue ;
            }
            if chars[open] == '}' {
                return Err(MpdFormatParseError::UnmatchedParenthesis);
            }
            let close = brace_position(chars.as_slice(), open + 1);
            if close >= n || chars[close] == '{' {
                return Err(MpdFormatParseError::UnmatchedParenthesis);
            }
            write_between(chars.as_slice(), pos, open, &mut raw);
            let ghost text = raw@;
            if raw.as_str().unicode_len() > 0 {
                placeholders.push(Placeholder::String(raw));
                raw = String::new();
            }
            proof {
                assert(views(placeholders@) =~= done + literal(text));
            }
            match parse_placeholder(chars.as_slice(), open + 1, close) {
                Err(e) => {
                    return Err(e);
                },
                Ok(p) => {
                    let ghost view = p@;
                    placeholders.push(p);
                    proof {
                        assert(views(placeholders@) =~= done + literal(text) + seq![view]);
                        let rest = parse_format(s@, close + 1, Seq::empty());
                        if rest is Ok {
                            assert(done + (literal(text) + seq![view] + rest->Ok_0) =~= done
                                + literal(text) + seq![view] + rest->Ok_0);
                        }
                    }
                    pos = close + 1;
                },
            }
        }
        let ghost done = views(placeholders@);
        let ghost text = raw@;
        if raw.as_str().unicode_len() > 0 {
            placeholders.push(Placeholder::String(raw));
        }
        proof {
            assert(views(placeholders@) =~= done + literal(text));
        }
        Ok(MpdFormatter(placeholders))
    }
}

/// A character of a text as it is written in a format: a brace is written twice.
pub open spec fn escaped(c: char) -> Seq<char> {
    if is_brace(c) {
        seq![c, c]
    } else {
        seq![c]
    }
}

/// A placeholder as it is written in a format, without its argument.
pub open spec fn placeholder_text(p: PlaceholderView) -> Seq<char> {
    match p {
        PlaceholderView::String(s) => s.flat_map(|c: char| escaped(c)),
        PlaceholderView::Album => "{album}"@,
        PlaceholderView::AlbumArtist => "{albumArtist}"@,
        PlaceholderView::Artist => "{artist}"@,
        PlaceholderView::ConsumeIcon(_) => "{consumeIcon}"@,
        PlaceholderView::Date => "{date}"@,
        PlaceholderView::ElapsedTime(_) => "{elapsedTime}"@,
        PlaceholderView::Filename => "{filename}"@,
        PlaceholderView::QueueLength => "{queueLength}"@,
        PlaceholderView::RandomIcon(_) => "{randomIcon}"@,
        PlaceholderView::RepeatIcon(_) => "{repeatIcon}"@,
        PlaceholderView::SingleIcon(_) => "{singleIcon}"@,
        PlaceholderView::SongPosition => "{songPosition}"@,
        PlaceholderView::StateIcon(_) => "{stateIcon}"@,
        PlaceholderView::Title => "{title}"@,
        PlaceholderView::TotalTime(_) => "{totalTime}"@,
        PlaceholderView::Volume => "{volume}"@,
    }
}

/// A format as it is written.
pub open spec fn format_source(f: Seq<PlaceholderView>) -> Seq<char> {
    f.flat_map(|p: PlaceholderView| placeholder_text(p))
}

/// Appends `text` to `f`, with each brace written twice.
pub fn write_escaped(text: &str, f: &mut String)
    ensures
        final(f)@ == old(f)@ + text@.flat_map(|c: char| escaped(c)),
{
    let ghost g = |c: char| escaped(c);
    proof {
        assert(text@.take(0) =~= Seq::<char>::empty());
        assert(Seq::<char>::empty().flat_map(g) =~= Seq::<char>::empty());
        assert(f@ =~= old(f)@ + text@.take(0).flat_map(g));
    }
    for c in it: text.chars()
        invariant
            it.seq() == text@,
            g == (|c: char| escaped(c)),
            f@ == old(f)@ + text@.take(it.index() as int).flat_map(g),
    {
        let ghost i = it.index() as int;
        proof {
            assert(text@.take(i + 1) =~= text@.take(i).push(c));
            text@.take(i).lemma_flat_map_push(g, c);
        }
        f.push(c);
        if c == '{' || c == '}' {
            f.push(c);
        }
        proof {
            assert(f@ =~= old(f)@ + text@.take(i + 1).flat_map(g));
        }
    }
    proof {
        assert(text@.take(text@.len() as int) =~= text@);
    }
}

impl Placeholder {
    /// The placeholder as it is written in a format, without its argument.
    fn name(&self) -> (r: &'static str)
        requires
            !(self@ is String),
        ensures
            r@ == placeholder_text(self@),
    {
        match self {
            Placeholder::Album => "{album}",
            Placeholder::AlbumArtist => "{albumArtist}",
            Placeholder::Artist => "{artist}",
            Placeholder::ConsumeIcon(_) => "{consumeIcon}",
            Placeholder::Date => "{date}",
            Placeholder::ElapsedTime(_) => "{elapsedTime}",
            Placeholder::Filename => "{filename}",
            Placeholder::QueueLength => "{queueLength}",
            Placeholder::RandomIcon(_) => "{randomIcon}",
            Placeholder::RepeatIcon(_) => "{repeatIcon}",
            Placeholder::SingleIcon(_) => "{singleIcon}",
            Placeholder::SongPosition => "{songPosition}",
            Placeholder::StateIcon(_) => "{stateIcon}",
            Placeholder::Title => "{title}",
            Placeholder::TotalTime(_) => "{totalTime}",
            Placeholder::Volume => "{volume}",
            Placeholder::String(_) => "",
        }
    }
}

impl MpdFormatter {
    /// The format as it is written. The arguments of its placeholders are left out.
    pub fn to_string(&self) -> (r: String)
        ensures
            r@ == format_source(self@),
    {
        let mut out = String::new();
        let ghost g = |p: PlaceholderView| placeholder_text(p);
        let mut i: usize = 0;
        proof {
            assert(self@.take(0) =~= Seq::<PlaceholderView>::empty());
            assert(Seq::<PlaceholderView>::empty().flat_map(g) =~= Seq::<char>::empty());
        }
        while i < self.0.len()
            invariant
                i <= self.0@.len(),
                self@.len() == self.0@.len(),
                g == (|p: PlaceholderView| placeholder_text(p)),
                out@ == self@.take(i as int).flat_map(g),
            decreases self.0@.len() - i,
        {
            let ph = &self.0[i];
            proof {
                assert(self@[i as int] == ph@);
                assert(self@.take(i + 1) =~= self@.take(i as int).push(ph@));
                self@.take(i as int).lemma_flat_map_push(g, ph@);
            }
            match ph {
                Placeholder::String(s) => {
                    write_escaped(s.as_str(), &mut out);
                },
                _ => {
                    out.append(ph.name());
                },
            }
            i += 1;
        }
        proof {
            assert(self@.take(self@.len() as int) =~= self@);
        }
        out
    }
}

impl std::str::FromStr for MpdFormatter {
    type Err = MpdFormatParseError;

    /// Reads a format as `parse` does.
    fn from_str(s: &str) -> (r: Result<Self, Self::Err>)
        ensures
            match r {
                Ok(f) => parse_format(s@, 0, Seq::empty()) == Ok::<
                    Seq<PlaceholderView>,
                    ParseFailure,
                >(f@),
                Err(e) => parse_format(s@, 0, Seq::empty()) == Err::<
                    Seq<PlaceholderView>,
                    ParseFailure,
                >(e@),
            },
    {
        MpdFormatter::parse(s)
    }
}

} // verus!
