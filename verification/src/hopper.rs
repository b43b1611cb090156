use crate::args::{located, Cmd, CmdView, Rabbit, RabbitView};
use crate::bookmark::BackBookmark;
use crate::error::HopError;
use crate::history::{
    entry_views, recent_matches, recorded, HistoryEntry, HistoryEntryView, HistoryLog,
};
use crate::path::{is_absolute_path, join, join_of};
use crate::resolver::{
    destination_of, resolve, resolve_of, Intent, Request, RequestView, ResolutionView,
};
use crate::shortcut::{
    find, is_hit, lemma_put, lemma_slot_of, lemma_without, names_distinct, put, shortcut_views,
    slot_of, without, Kind, Shortcut, ShortcutStore, ShortcutView,
};
use crate::text::text_of;
use vstd::prelude::*;
use vstd::string::*;

verus! {

/// What is to be done for the user once a command has been taken in.
#[derive(Debug, PartialEq, Eq)]
pub enum Outcome {
    /// Change to this directory.
    Hop(String),
    /// Open this path.
    Edit(String),
    /// Run the program again with this command line.
    Run(String),
    /// Show this text.
    Message(String),
    /// Show this path.
    Located(String),
    /// Show these shortcuts.
    Shortcuts(Vec<Shortcut>),
    /// Show these visits, the newest first.
    Visits(Vec<HistoryEntry>),
    /// Show the help text.
    Help,
    /// This shortcut was made.
    Saved(Shortcut),
    /// Shortcuts were removed.
    Removed,
    /// The place to come back to was marked.
    Marked,
}

/// What an `Outcome` holds.
pub enum OutcomeView {
    Hop(Seq<char>),
    Edit(Seq<char>),
    Run(Seq<char>),
    Message(Seq<char>),
    Located(Seq<char>),
    Shortcuts(Seq<ShortcutView>),
    Visits(Seq<HistoryEntryView>),
    Help,
    Saved(ShortcutView),
    Removed,
    Marked,
}

impl View for Outcome {
    type V = OutcomeView;

    open spec fn view(&self) -> OutcomeView {
        match self {
            Outcome::Hop(path) => OutcomeView::Hop(path@),
            Outcome::Edit(path) => OutcomeView::Edit(path@),
            Outcome::Run(line) => OutcomeView::Run(line@),
            Outcome::Message(msg) => OutcomeView::Message(msg@),
            Outcome::Located(path) => OutcomeView::Located(path@),
            Outcome::Shortcuts(list) => OutcomeView::Shortcuts(shortcut_views(list@)),
            Outcome::Visits(list) => OutcomeView::Visits(entry_views(list@)),
            Outcome::Help => OutcomeView::Help,
            Outcome::Saved(e) => OutcomeView::Saved(e@),
            Outcome::Removed => OutcomeView::Removed,
            Outcome::Marked => OutcomeView::Marked,
        }
    }
}

/// What a command gives, seen through the view of the outcome.
pub open spec fn outcome_view(r: Result<Outcome, HopError>) -> Result<OutcomeView, HopError> {
    match r {
        Ok(outcome) => Ok(outcome@),
        Err(e) => Err(e),
    }
}

/// What a `Hopper` holds.
pub struct HopperView {
    pub shortcuts: Seq<ShortcutView>,
    pub history: Seq<HistoryEntryView>,
    pub bookmark: Option<Seq<char>>,
    pub config: Seq<char>,
}

/// The state after a hop to `place`, which joins the history, and the outcome.
pub open spec fn hop_to(s: HopperView, place: Seq<char>) -> (
    HopperView,
    Result<OutcomeView, HopError>,
) {
    (HopperView { history: recorded(s.history, place), ..s }, Ok(OutcomeView::Hop(place)))
}

/// The state and the outcome where a request was resolved in order to hop.
pub open spec fn hop_where(s: HopperView, place: Result<ResolutionView, HopError>) -> (
    HopperView,
    Result<OutcomeView, HopError>,
) {
    match place {
        Ok(found) => hop_to(s, found.target),
        Err(e) => (s, Err(e)),
    }
}

/// The outcome where a request was resolved in order to open the place.
pub open spec fn edit_where(place: Result<ResolutionView, HopError>) -> Result<
    OutcomeView,
    HopError,
> {
    match place {
        Ok(found) => Ok(OutcomeView::Edit(found.target)),
        Err(e) => Err(e),
    }
}

/// The state after a shortcut called `name` to `path` was made, and the outcome.
pub open spec fn keep_at(
    s: HopperView,
    name: Seq<char>,
    path: Seq<char>,
    kind: Kind,
    cwd: Seq<char>,
) -> (HopperView, Result<OutcomeView, HopError>) {
    let e = ShortcutView { name, target: join_of(cwd, path), kind };
    (HopperView { shortcuts: put(s.shortcuts, e), ..s }, Ok(OutcomeView::Saved(e)))
}

/// What a command does: the state after it and what is to be done for the
/// user. `cwd` is the working directory, from which relative paths are seen.
/// A failure leaves the state as it was.
pub open spec fn step(s: HopperView, cmd: CmdView, cwd: Seq<char>) -> (
    HopperView,
    Result<OutcomeView, HopError>,
) {
    match cmd {
        CmdView::Passthrough(line) => (s, Ok(OutcomeView::Run(line))),
        CmdView::PrintMsg(msg) => (s, Ok(OutcomeView::Message(msg))),
        CmdView::PrintHelp => (s, Ok(OutcomeView::Help)),
        CmdView::ListHops => (s, Ok(OutcomeView::Shortcuts(s.shortcuts))),
        CmdView::ShowHistory => (s, Ok(OutcomeView::Visits(s.history.reverse()))),
        CmdView::Configure => (s, Ok(OutcomeView::Edit(s.config))),
        CmdView::LocateBunnyhop => (s, Ok(OutcomeView::Located(s.config))),
        CmdView::LocateShortcut(name) => match find(s.shortcuts, name) {
            Some(e) => (s, Ok(OutcomeView::Located(e.target))),
            None => (s, Err(HopError::NotFound)),
        },
        CmdView::SetBrb(place) => (
            HopperView { bookmark: Some(place), ..s },
            Ok(OutcomeView::Marked),
        ),
        CmdView::BrbHop => match s.bookmark {
            Some(place) => hop_to(s, place),
            None => (s, Err(HopError::NotFound)),
        },
        CmdView::Remove(bunny) => (
            HopperView { shortcuts: without(s.shortcuts, bunny, cwd), ..s },
            if exists|i: int|
                0 <= i < s.shortcuts.len() && is_hit(#[trigger] s.shortcuts[i], bunny, cwd) {
                Ok(OutcomeView::Removed)
            } else {
                Err(HopError::NotFound)
            },
        ),
        CmdView::Use(bunny) => match bunny {
            RabbitView::Dir(name, path) => keep_at(s, name, path, Kind::Dir, cwd),
            RabbitView::File(name, path) => keep_at(s, name, path, Kind::File, cwd),
            RabbitView::RequestName(name) => hop_where(
                s,
                resolve_of(s.shortcuts, s.history, RequestView::Name(name), cwd, Intent::Hop),
            ),
            RabbitView::RequestPath(path) => hop_where(
                s,
                resolve_of(
                    s.shortcuts,
                    s.history,
                    RequestView::Literal(path, Kind::Dir),
                    cwd,
                    Intent::Hop,
                ),
            ),
        },
        CmdView::HopDirAndEdit(name) => (
            s,
            edit_where(
                resolve_of(s.shortcuts, s.history, RequestView::Name(name), cwd, Intent::Edit),
            ),
        ),
        CmdView::EditDir(bunny) => match bunny {
            RabbitView::Dir(_, path) => (s, Ok(OutcomeView::Edit(join_of(cwd, path)))),
            RabbitView::File(_, path) => (s, Ok(OutcomeView::Edit(join_of(cwd, path)))),
            RabbitView::RequestPath(path) => (s, Ok(OutcomeView::Edit(join_of(cwd, path)))),
            RabbitView::RequestName(name) => (
                s,
                edit_where(
                    resolve_of(s.shortcuts, s.history, RequestView::Name(name), cwd, Intent::Edit),
                ),
            ),
        },
        CmdView::PullHistory(bunny) => {
            let seen = recent_matches(s.history, bunny, cwd);
            if seen.len() > 0 {
                hop_to(s, seen[0].path)
            } else {
                (s, Err(HopError::NotFound))
            }
        },
    }
}

/// The shortcuts, the history and the place to come back to of one user,
/// and the path of the configuration.
pub struct Hopper {
    shortcuts: ShortcutStore,
    history: HistoryLog,
    bookmark: BackBookmark,
    config: String,
}

impl View for Hopper {
    type V = HopperView;

    closed spec fn view(&self) -> HopperView {
        HopperView {
            shortcuts: self.shortcuts@,
            history: self.history@,
            bookmark: self.bookmark@,
            config: self.config@,
        }
    }
}

impl Hopper {
    /// A hopper that holds nothing yet. `config` is where its configuration lies.
    pub fn new(config: &str) -> (r: Self)
        ensures
            r@ == (HopperView {
                shortcuts: Seq::<ShortcutView>::empty(),
                history: Seq::<HistoryEntryView>::empty(),
                bookmark: None,
                config: config@,
            }),
    {
        Hopper {
            shortcuts: ShortcutStore::new(),
            history: HistoryLog::new(),
            bookmark: BackBookmark::new(),
            config: config.to_owned(),
        }
    }

    /// A hopper made of its parts.
    pub fn from_parts(
        config: String,
        shortcuts: ShortcutStore,
        history: HistoryLog,
        bookmark: BackBookmark,
    ) -> (r: Self)
        ensures
            r@ == (HopperView {
                shortcuts: shortcuts@,
                history: history@,
                bookmark: bookmark@,
                config: config@,
            }),
    {
        Hopper { shortcuts, history, bookmark, config }
    }

    /// The shortcuts.
    pub fn shortcuts(&self) -> (r: &ShortcutStore)
        ensures
            r@ == self@.shortcuts,
    {
        &self.shortcuts
    }

    /// The history.
    pub fn history(&self) -> (r: &HistoryLog)
        ensures
            r@ == self@.history,
    {
        &self.history
    }

    /// The place to come back to.
    pub fn bookmark(&self) -> (r: &BackBookmark)
        ensures
            r@ == self@.bookmark,
    {
        &self.bookmark
    }

    /// Where the configuration lies.
    pub fn config(&self) -> (r: &String)
        ensures
            r@ == self@.config,
    {
        &self.config
    }

    /// Notes the hop to `place` and hands it out.
    fn hop(&mut self, place: String) -> (r: Result<Outcome, HopError>)
        ensures
            (final(self)@, outcome_view(r)) == hop_to(old(self)@, place@),
    {
        self.history.record(place.clone());
        Ok(Outcome::Hop(place))
    }

    /// Resolves a request in order to hop, and hops.
    fn hop_by(&mut self, request: Request, cwd: &str) -> (r: Result<Outcome, HopError>)
        ensures
            (final(self)@, outcome_view(r)) == hop_where(
                old(self)@,
                resolve_of(
                    old(self)@.shortcuts,
                    old(self)@.history,
                    request@,
                    cwd@,
                    Intent::Hop,
                ),
            ),
    {
        match resolve(&self.shortcuts, &self.history, &request, cwd, Intent::Hop) {
            Ok(found) => self.hop(found.target),
            Err(e) => Err(e),
        }
    }

    /// Resolves a name in order to open what it leads to.
    fn edit_by(&self, name: String, cwd: &str) -> (r: Result<Outcome, HopError>)
        ensures
            outcome_view(r) == edit_where(
                resolve_of(
                    self@.shortcuts,
                    self@.history,
                    RequestView::Name(name@),
                    cwd@,
                    Intent::Edit,
                ),
            ),
    {
        match resolve(&self.shortcuts, &self.history, &Request::Name(name), cwd, Intent::Edit) {
            Ok(found) => Ok(Outcome::Edit(found.target)),
            Err(e) => Err(e),
        }
    }

    /// Makes a shortcut called `name` to `path`.
    fn keep(&mut self, name: String, path: String, kind: Kind, cwd: &str) -> (r: Result<
        Outcome,
        HopError,
    >)
        ensures
            (final(self)@, outcome_view(r)) == keep_at(old(self)@, name@, path@, kind, cwd@),
    {
        let target = join(cwd, path.as_str());
        match self.shortcuts.add(Some(name), target, kind) {
            Ok(e) => Ok(Outcome::Saved(e)),
            Err(e) => Err(e),
        }
    }

    /// Takes a command in: changes what is kept and says what is to be done
    /// for the user. `cwd` is the working directory, from which relative
    /// paths are seen.
    pub fn execute(&mut self, cmd: Cmd, cwd: &str) -> (r: Result<Outcome, HopError>)
        ensures
            (final(self)@, outcome_view(r)) == step(old(self)@, cmd@, cwd@),
    {
        match cmd {
            Cmd::Passthrough(line) => Ok(Outcome::Run(line)),
            Cmd::Use(bunny) => match bunny {
                Rabbit::Dir(name, path) => self.keep(name, path, Kind::Dir, cwd),
                Rabbit::File(name, path) => self.keep(name, path, Kind::File, cwd),
                Rabbit::RequestName(name) => self.hop_by(Request::Name(name), cwd),
                Rabbit::RequestPath(path) => self.hop_by(Request::Literal(path, Kind::Dir), cwd),
            },
            Cmd::SetBrb(loc) => {
                self.bookmark.set(loc);
                Ok(Outcome::Marked)
            },
            Cmd::BrbHop => match self.bookmark.get() {
                Some(place) => self.hop(place),
                None => Err(HopError::NotFound),
            },
            Cmd::ListHops => Ok(Outcome::Shortcuts(self.shortcuts.list())),
            Cmd::PrintHelp => Ok(Outcome::Help),
            Cmd::Remove(bunny) => match self.shortcuts.remove(&bunny, cwd) {
                Ok(()) => Ok(Outcome::Removed),
                Err(e) => Err(e),
            },
            Cmd::Configure => Ok(Outcome::Edit(self.config.clone())),
            Cmd::LocateBunnyhop => Ok(Outcome::Located(self.config.clone())),
            Cmd::LocateShortcut(name) => match self.shortcuts.lookup(name.as_str()) {
                Some(e) => Ok(Outcome::Located(e.target)),
                None => Err(HopError::NotFound),
            },
            Cmd::HopDirAndEdit(name) => self.edit_by(name, cwd),
            Cmd::EditDir(bunny) => match bunny {
                Rabbit::Dir(_, path) => Ok(Outcome::Edit(join(cwd, path.as_str()))),
                Rabbit::File(_, path) => Ok(Outcome::Edit(join(cwd, path.as_str()))),
                Rabbit::RequestPath(path) => Ok(Outcome::Edit(join(cwd, path.as_str()))),
                Rabbit::RequestName(name) => self.edit_by(name, cwd),
            },
            Cmd::ShowHistory => Ok(Outcome::Visits(self.history.show_all())),
            Cmd::PullHistory(bunny) => {
                let seen = self.history.search(&bunny, cwd);
                if seen.len() > 0 {
                    self.hop(seen[0].path.clone())
                } else {
                    Err(HopError::NotFound)
                }
            },
            Cmd::PrintMsg(msg) => Ok(Outcome::Message(msg)),
        }
    }
}

/// To keep a place under a name always succeeds, and the name then leads to
/// that place, as seen from the working directory: an absolute path stands
/// for itself. A shortcut that had the name is replaced, so that the store
/// is as long as before and, its names being distinct, holds the name once.
/// What is kept under other names stays as it was.
pub proof fn lemma_keep_replaces(
    s: HopperView,
    name: Seq<char>,
    path: Seq<char>,
    kind: Kind,
    cwd: Seq<char>,
)
    ensures
        ({
            let e = ShortcutView { name, target: join_of(cwd, path), kind };
            let after = step(s, CmdView::Use(located(path, name, kind == Kind::Dir)), cwd);
            &&& after.1 == Ok::<OutcomeView, HopError>(OutcomeView::Saved(e))
            &&& after.0 == (HopperView { shortcuts: after.0.shortcuts, ..s })
            &&& find(after.0.shortcuts, name) == Some(e)
            &&& is_absolute_path(path) ==> e.target == path
            &&& find(s.shortcuts, name) is Some ==> after.0.shortcuts.len() == s.shortcuts.len()
            &&& forall|other: Seq<char>|
                other != name ==> find(after.0.shortcuts, other) == find(s.shortcuts, other)
            &&& names_distinct(s.shortcuts) ==> names_distinct(after.0.shortcuts)
            &&& names_distinct(s.shortcuts) ==> forall|i: int|
                0 <= i < after.0.shortcuts.len() && (#[trigger] after.0.shortcuts[i]).name == name
                    ==> i == slot_of(after.0.shortcuts, name) && after.0.shortcuts[i] == e
        }),
{
    let e = ShortcutView { name, target: join_of(cwd, path), kind };
    lemma_put(s.shortcuts, e);
    lemma_slot_of(s.shortcuts, name);
    lemma_slot_of(put(s.shortcuts, e), name);
}

/// After a place was marked, to hop back leads to that place, and does so
/// again and again: asking for the place leaves it marked.
pub proof fn lemma_back_returns_marked_place(s: HopperView, place: Seq<char>, cwd: Seq<char>)
    ensures
        ({
            let marked = step(s, CmdView::SetBrb(place), cwd).0;
            let once = step(marked, CmdView::BrbHop, cwd);
            let twice = step(once.0, CmdView::BrbHop, cwd);
            &&& marked.bookmark == Some(place)
            &&& once.1 == Ok::<OutcomeView, HopError>(OutcomeView::Hop(place))
            &&& once.0.bookmark == Some(place)
            &&& twice.1 == Ok::<OutcomeView, HopError>(OutcomeView::Hop(place))
            &&& twice.0.bookmark == Some(place)
        }),
{
}

/// To use a name that a shortcut has is to hop where that shortcut leads,
/// whatever the history holds.
pub proof fn lemma_use_prefers_shortcut(s: HopperView, name: Seq<char>, cwd: Seq<char>)
    requires
        find(s.shortcuts, name) is Some,
    ensures
        step(s, CmdView::Use(RabbitView::RequestName(name)), cwd).1 == Ok::<OutcomeView, HopError>(
            OutcomeView::Hop(destination_of(find(s.shortcuts, name)->0, Intent::Hop)),
        ),
{
}

/// A command that fails leaves everything as it was.
pub proof fn lemma_failure_changes_nothing(s: HopperView, cmd: CmdView, cwd: Seq<char>)
    ensures
        step(s, cmd, cwd).1 is Err ==> step(s, cmd, cwd).0 == s,
{
    match cmd {
        CmdView::Remove(bunny) => {
            lemma_without(s.shortcuts, bunny, cwd);
        },
        _ => {},
    }
}

} // verus!
