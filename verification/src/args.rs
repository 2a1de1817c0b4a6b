//! The arguments of the program: what they say of each fragment of the display.
//!
//! The arguments come in the order of the command line. A source starts a fragment; the
//! settings that follow it, up to the next source, are those of that fragment.

use crate::chars::{find_char, lemma_find_char, position, text_between, to_chars};
use crate::mpd_args::{
    applied, default_args, MpdArgToken, MpdArgTokenView, MpdSourceArgs, MpdSourceArgsView,
};
use vstd::prelude::*;
use vstd::string::*;

verus! {

/// Why replacements cannot be read.
#[derive(Debug, Clone, Copy, PartialEq, Eq)]
pub enum KeyValueError {
    /// A pair has no `=` between its key and its value.
    MissingEquals,
}

impl KeyValueError {
    /// The error as a text.
    pub fn to_string(&self) -> (r: String)
        ensures
            r@ == "Key-value pair must have at least one '=' sign"@,
    {
        "Key-value pair must have at least one '=' sign".to_owned()
    }
}

/// The pairs that `s` holds from index `from` on: they stand between commas, and in each the
/// key stands before the first `=` and the value behind it. None where a pair has no `=`.
pub open spec fn pairs_from(s: Seq<char>, from: int) -> Option<Seq<(Seq<char>, Seq<char>)>>
    decreases s.len() - from,
{
    let comma = find_char(s, ',', from);
    let equals = find_char(s.subrange(0, comma), '=', from);
    if from < 0 || from > s.len() || equals >= comma {
        None
    } else {
        let pair = (s.subrange(from, equals), s.subrange(equals + 1, comma));
        if comma >= s.len() {
            Some(seq![pair])
        } else {
            proof {
                lemma_find_char(s, ',', from);
            }
            match pairs_from(s, comma + 1) {
                Some(rest) => Some(seq![pair] + rest),
                None => None,
            }
        }
    }
}

/// The pairs that `s` holds; none at all where `s` is empty.
pub open spec fn key_value_pairs(s: Seq<char>) -> Option<Seq<(Seq<char>, Seq<char>)>> {
    if s.len() == 0 {
        Some(Seq::empty())
    } else {
        pairs_from(s, 0)
    }
}

/// The pairs that were read, followed by those of the rest.
pub open spec fn pairs_on(
    done: Seq<(Seq<char>, Seq<char>)>,
    rest: Option<Seq<(Seq<char>, Seq<char>)>>,
) -> Option<Seq<(Seq<char>, Seq<char>)>> {
    match rest {
        Some(r) => Some(done + r),
        None => None,
    }
}

/// Pairs of strings as pairs of sequences of characters.
pub open spec fn pair_views(pairs: Seq<(String, String)>) -> Seq<(Seq<char>, Seq<char>)> {
    pairs.map_values(|p: (String, String)| (p.0@, p.1@))
}

/// Reads replacements: pairs `key=value` with commas between them.
pub fn parse_key_value_pairs(value: &str) -> (r: Result<Vec<(String, String)>, KeyValueError>)
    ensures
        match r {
            Ok(pairs) => key_value_pairs(value@) == Some(pair_views(pairs@)),
            Err(_) => key_value_pairs(value@) is None,
        },
{
    let chars = to_chars(value);
    let n = chars.len();
    let mut pairs: Vec<(String, String)> = Vec::new();
    proof {
        assert(pair_views(pairs@) =~= Seq::<(Seq<char>, Seq<char>)>::empty());
    }
    if n == 0 {
        return Ok(pairs);
    }
    let ghost goal = pairs_from(value@, 0);
    let mut pos: usize = 0;
    proof {
        assert(pairs_on(pair_views(pairs@), goal) =~= goal);
    }
    loop
        invariant
            pos <= n,
            n == chars@.len(),
            chars@ == value@,
            goal == key_value_pairs(value@),
            pairs_on(pair_views(pairs@), pairs_from(value@, pos as int)) == goal,
        decreases n - pos,
    {
        let ghost done = pair_views(pairs@);
        let comma = position(chars.as_slice(), ',', pos, n);
        proof {
            assert(chars@.subrange(0, n as int) =~= value@);
        }
        let equals = position(chars.as_slice(), '=', pos, comma);
        if equals >= comma {
            return Err(KeyValueError::MissingEquals);
        }
        let key = text_between(chars.as_slice(), pos, equals);
        let val = text_between(chars.as_slice(), equals + 1, comma);
        let ghost pair = (key@, val@);
        pairs.push((key, val));
        proof {
            assert(pair_views(pairs@) =~= done + seq![pair]);
            let rest = pairs_from(value@, comma + 1);
            if comma < n && rest is Some {
                assert(done + (seq![pair] + rest->0) =~= done + seq![pair] + rest->0);
            }
        }
        if comma >= n {
            return Ok(pairs);
        }
        pos = comma + 1;
    }
}

/// A source of content, as the command line names it.
#[derive(Debug)]
pub enum SourceToken {
    /// The content itself.
    String(String),
    /// The name of a file that holds the content.
    File(String),
    /// The first word of a command that prints the content.
    CmdArg(String),
    /// The content comes on the standard input.
    Stdin,
    /// The address of a music player whose status is the content.
    Mpd(String),
}

/// An argument for one kind of source.
#[derive(Debug)]
pub enum SourceArgToken {
    Mpd(MpdArgToken),
}

/// The settings of the sources, for each kind of source that has any.
#[derive(Debug)]
pub struct SourceArgs {
    pub mpd: MpdSourceArgs,
}

/// One argument of the command line.
#[derive(Debug)]
pub enum ArgToken {
    Source(SourceToken),
    SourceArg(SourceArgToken),
    Window(u64),
    Separator(String),
    Newline(String),
    Replacements(Vec<(String, String)>),
    Repeat(bool),
    Right(bool),
}

/// One fragment of the display, as the command line asks for it.
#[derive(Debug)]
pub struct Fragment {
    /// The index of the argument that names the source.
    pub source: usize,
    pub args: SourceArgs,
    pub window: u64,
    pub repeat: bool,
    pub separator: String,
    /// The replacement rules; the last of them is the one for newlines.
    pub replacements: Vec<(String, String)>,
    pub right: bool,
}

/// An argument as a mathematical value. Of a source, only the number of characters of a
/// content that is given as it is bears on the settings.
pub enum TokenView {
    Source(Option<usize>),
    SourceArg(MpdArgTokenView),
    Window(u64),
    Separator(Seq<char>),
    Newline(Seq<char>),
    Replacements(Seq<(Seq<char>, Seq<char>)>),
    Repeat(bool),
    Right(bool),
}

/// A fragment as a mathematical value.
pub struct FragmentView {
    pub source: usize,
    pub args: MpdSourceArgsView,
    pub window: u64,
    pub repeat: bool,
    pub separator: Seq<char>,
    pub replacements: Seq<(Seq<char>, Seq<char>)>,
    pub right: bool,
}

/// A source that waits for its settings.
pub struct PendingView {
    pub source: usize,
    pub string_len: Option<usize>,
    pub args: MpdSourceArgsView,
}

/// What has been read of the command line: the settings as they stand, and the source that
/// they are for.
pub struct PlanView {
    pub window: u64,
    pub separator: Seq<char>,
    pub newline: Seq<char>,
    pub replacements: Seq<(Seq<char>, Seq<char>)>,
    pub repeat: bool,
    pub right: bool,
    pub previous: Option<PendingView>,
}

impl View for SourceToken {
    type V = Option<usize>;

    open spec fn view(&self) -> Option<usize> {
        match self {
            SourceToken::String(s) => Some(s@.len() as usize),
            _ => None,
        }
    }
}

impl View for ArgToken {
    type V = TokenView;

    open spec fn view(&self) -> TokenView {
        match self {
            ArgToken::Source(s) => TokenView::Source(s@),
            ArgToken::SourceArg(SourceArgToken::Mpd(t)) => TokenView::SourceArg(t@),
            ArgToken::Window(w) => TokenView::Window(*w),
            ArgToken::Separator(s) => TokenView::Separator(s@),
            ArgToken::Newline(s) => TokenView::Newline(s@),
            ArgToken::Replacements(r) => TokenView::Replacements(pair_views(r@)),
            ArgToken::Repeat(b) => TokenView::Repeat(*b),
            ArgToken::Right(b) => TokenView::Right(*b),
        }
    }
}

impl View for Fragment {
    type V = FragmentView;

    open spec fn view(&self) -> FragmentView {
        FragmentView {
            source: self.source,
            args: self.args.mpd@,
            window: self.window,
            repeat: self.repeat,
            separator: self.separator@,
            replacements: pair_views(self.replacements@),
            right: self.right,
        }
    }
}

/// The settings with which a fragment starts, but for the width of its window.
pub open spec fn fresh(window: u64, previous: Option<PendingView>) -> PlanView {
    PlanView {
        window,
        separator: Seq::empty(),
        newline: Seq::empty(),
        replacements: Seq::empty(),
        repeat: false,
        right: false,
        previous,
    }
}

/// The fragment of the source that waits, with the settings as they stand. The rule for
/// newlines comes behind the other rules.
pub open spec fn pending(p: PlanView) -> Option<FragmentView> {
    match p.previous {
        Some(prev) => Some(
            FragmentView {
                source: prev.source,
                args: prev.args,
                window: p.window,
                repeat: p.repeat,
                separator: p.separator,
                replacements: p.replacements.push(("\n"@, p.newline)),
                right: p.right,
            },
        ),
        None => None,
    }
}

/// What has been read after the argument `token`, which stands at `index`. A source ends the
/// fragment of the source before it; the settings then start anew, with a window of 32, or
/// of the number of characters of the content where the source before was one given as it
/// is.
pub open spec fn fed(p: PlanView, index: usize, token: TokenView) -> PlanView {
    match token {
        TokenView::Source(string_len) => {
            let next = Some(PendingView { source: index, string_len, args: default_args() });
            match p.previous {
                Some(prev) => fresh(
                    match prev.string_len {
                        Some(n) => n as u64,
                        None => 32,
                    },
                    next,
                ),
                None => PlanView { previous: next, ..p },
            }
        },
        TokenView::SourceArg(arg) => match p.previous {
            Some(prev) => PlanView {
                previous: Some(PendingView { args: applied(prev.args, arg), ..prev }),
                ..p
            },
            None => p,
        },
        TokenView::Window(w) => PlanView { window: w, ..p },
        TokenView::Separator(s) => PlanView { separator: s, ..p },
        TokenView::Newline(s) => PlanView { newline: s, ..p },
        TokenView::Replacements(r) => PlanView { replacements: r, ..p },
        TokenView::Repeat(b) => PlanView { repeat: b, ..p },
        TokenView::Right(b) => PlanView { right: b, ..p },
    }
}

/// The fragment that the argument `token` ends: that of the source that waits, where `token`
/// is a source itself.
pub open spec fn emitted(p: PlanView, token: TokenView) -> Option<FragmentView> {
    match token {
        TokenView::Source(_) => pending(p),
        _ => None,
    }
}

/// A fragment, where there is one, as a sequence.
pub open spec fn fragment_seq(f: Option<FragmentView>) -> Seq<FragmentView> {
    match f {
        Some(f) => seq![f],
        None => Seq::empty(),
    }
}

/// What has been read after the first `k` arguments.
pub open spec fn plan_after(tokens: Seq<TokenView>, k: nat) -> PlanView
    decreases k,
{
    if k == 0 {
        fresh(32, None)
    } else {
        fed(plan_after(tokens, (k - 1) as nat), (k - 1) as usize, tokens[k - 1])
    }
}

/// The fragments that the first `k` arguments end.
pub open spec fn fragments_after(tokens: Seq<TokenView>, k: nat) -> Seq<FragmentView>
    decreases k,
{
    if k == 0 {
        Seq::empty()
    } else {
        fragments_after(tokens, (k - 1) as nat) + fragment_seq(
            emitted(plan_after(tokens, (k - 1) as nat), tokens[k - 1]),
        )
    }
}

/// The fragments of a command line: those that its arguments end, and the one of the last
/// source.
pub open spec fn fragments_of(tokens: Seq<TokenView>) -> Seq<FragmentView> {
    fragments_after(tokens, tokens.len()) + fragment_seq(pending(plan_after(tokens, tokens.len())))
}

/// Pairs like the given ones.
pub fn duplicate_pairs(pairs: &Vec<(String, String)>) -> (r: Vec<(String, String)>)
    ensures
        pair_views(r@) == pair_views(pairs@),
{
    let mut out: Vec<(String, String)> = Vec::new();
    let mut i: usize = 0;
    while i < pairs.len()
        invariant
            i <= pairs@.len(),
            out@.len() == i,
            forall|t: int|
                0 <= t < i ==> (#[trigger] out@[t]).0@ == pairs@[t].0@ && out@[t].1@ == pairs@[t].1@,
        decreases pairs@.len() - i,
    {
        out.push((pairs[i].0.clone(), pairs[i].1.clone()));
        i += 1;
    }
    proof {
        assert(pair_views(out@) =~= pair_views(pairs@));
    }
    out
}

/// A source that waits for its settings.
pub struct Pending {
    source: usize,
    string_len: Option<usize>,
    args: SourceArgs,
}

/// The reader of a command line.
pub struct Planner {
    window: u64,
    separator: String,
    newline: String,
    replacements: Vec<(String, String)>,
    repeat: bool,
    right: bool,
    previous: Option<Pending>,
}

impl View for Planner {
    type V = PlanView;

    closed spec fn view(&self) -> PlanView {
        PlanView {
            window: self.window,
            separator: self.separator@,
            newline: self.newline@,
            replacements: pair_views(self.replacements@),
            repeat: self.repeat,
            right: self.right,
            previous: match self.previous {
                Some(p) => Some(
                    PendingView { source: p.source, string_len: p.string_len, args: p.args.mpd@ },
                ),
                None => None,
            },
        }
    }
}

impl Planner {
    /// The reader before the first argument: a window of 32, and nothing else set.
    pub fn new() -> (r: Self)
        ensures
            r@ == fresh(32, None),
    {
        let r = Planner {
            window: 32,
            separator: String::new(),
            newline: String::new(),
            replacements: Vec::new(),
            repeat: false,
            right: false,
            previous: None,
        };
        proof {
            assert(pair_views(r.replacements@) =~= Seq::<(Seq<char>, Seq<char>)>::empty());
        }
        r
    }

    /// The fragment of the source that waits, with the settings as they stand.
    fn flush(&self, prev: Pending) -> (r: Fragment)
        ensures
            Some(r@) == pending(
                PlanView {
                    previous: Some(
                        PendingView {
                            source: prev.source,
                            string_len: prev.string_len,
                            args: prev.args.mpd@,
                        },
                    ),
                    ..self@
                },
            ),
    {
        let mut replacements = duplicate_pairs(&self.replacements);
        let ghost before = pair_views(replacements@);
        let newline = self.newline.clone();
        replacements.push(("\n".to_owned(), newline));
        proof {
            assert(pair_views(replacements@) =~= before.push(("\n"@, self.newline@)));
        }
        Fragment {
            source: prev.source,
            args: prev.args,
            window: self.window,
            repeat: self.repeat,
            separator: self.separator.clone(),
            replacements,
            right: self.right,
        }
    }

    /// Reads the argument `token`, which stands at `index`, and hands out the fragment that it
    /// ends.
    pub fn feed(&mut self, index: usize, token: &ArgToken) -> (r: Option<Fragment>)
        ensures
            final(self)@ == fed(old(self)@, index, token@),
            match r {
                Some(f) => emitted(old(self)@, token@) == Some(f@),
                None => emitted(old(self)@, token@) is None,
            },
    {
        match token {
            ArgToken::Source(source) => {
                let string_len = match source {
                    SourceToken::String(s) => Some(s.as_str().unicode_len()),
                    _ => None,
                };
                let next = Pending {
                    source: index,
                    string_len,
                    args: SourceArgs { mpd: MpdSourceArgs::default() },
                };
                let mut prev = Some(next);
                std::mem::swap(&mut prev, &mut self.previous);
                match prev {
                    Some(p) => {
                        let window: u64 = match p.string_len {
                            Some(n) => n as u64,
                            None => 32,
                        };
                        let fragment = self.flush(p);
                        self.window = window;
                        self.separator = String::new();
                        self.newline = String::new();
                        self.replacements = Vec::new();
                        self.repeat = false;
                        self.right = false;
                        proof {
                            assert(pair_views(self.replacements@) =~= Seq::<
                                (Seq<char>, Seq<char>),
                            >::empty());
                        }
                        Some(fragment)
                    },
                    None => None,
                }
            },
            ArgToken::SourceArg(SourceArgToken::Mpd(arg)) => {
                let mut prev = None;
                std::mem::swap(&mut prev, &mut self.previous);
                match prev {
                    Some(p) => {
                        let mut p = p;
                        p.args.mpd.apply_token(arg);
                        self.previous = Some(p);
                    },
                    None => {},
                }
                None
            },
            ArgToken::Window(w) => {
                self.window = *w;
                None
            },
            ArgToken::Separator(s) => {
                self.separator = s.clone();
                None
            },
            ArgToken::Newline(s) => {
                self.newline = s.clone();
                None
            },
            ArgToken::Replacements(items) => {
                self.replacements = duplicate_pairs(items);
                None
            },
            ArgToken::Repeat(b) => {
                self.repeat = *b;
                None
            },
            ArgToken::Right(b) => {
                self.right = *b;
                None
            },
        }
    }

    /// The fragment of the last source, where the command line names a source at all.
    pub fn finish(self) -> (r: Option<Fragment>)
        ensures
            match r {
                Some(f) => pending(self@) == Some(f@),
                None => pending(self@) is None,
            },
    {
        let mut me = self;
        let mut prev = None;
        std::mem::swap(&mut prev, &mut me.previous);
        match prev {
            Some(p) => Some(me.flush(p)),
            None => None,
        }
    }
}

/// The views of some arguments.
pub open spec fn token_views(tokens: Seq<ArgToken>) -> Seq<TokenView> {
    tokens.map_values(|t: ArgToken| t@)
}

/// The views of some fragments.
pub open spec fn fragment_views(fragments: Seq<Fragment>) -> Seq<FragmentView> {
    fragments.map_values(|f: Fragment| f@)
}

/// The fragments of a command line, of which `tokens` are the arguments in their order.
pub fn plan(tokens: &Vec<ArgToken>) -> (r: Vec<Fragment>)
    ensures
        fragment_views(r@) == fragments_of(token_views(tokens@)),
{
    let ghost views = token_views(tokens@);
    let mut planner = Planner::new();
    let mut out: Vec<Fragment> = Vec::new();
    let mut i: usize = 0;
    proof {
        assert(fragment_views(out@) =~= fragments_after(views, 0));
    }
    while i < tokens.len()
        invariant
            i <= tokens@.len(),
            views == token_views(tokens@),
            planner@ == plan_after(views, i as nat),
            fragment_views(out@) == fragments_after(views, i as nat),
        decreases tokens@.len() - i,
    {
        let ghost done = fragment_views(out@);
        proof {
            assert(views[i as int] == tokens@[i as int]@);
        }
        match planner.feed(i, &tokens[i]) {
            Some(f) => {
                let ghost view = f@;
                out.push(f);
                proof {
                    assert(fragment_views(out@) =~= done + seq![view]);
                }
            },
            None => {
                proof {
                    assert(done + fragment_seq(None) =~= done);
                }
            },
        }
        i += 1;
    }
    let ghost done = fragment_views(out@);
    match planner.finish() {
        Some(f) => {
            let ghost view = f@;
            out.push(f);
            proof {
                assert(fragment_views(out@) =~= done + seq![view]);
            }
        },
        None => {
            proof {
                assert(done + fragment_seq(None) =~= done);
            }
        },
    }
    out
}

} // verus!
