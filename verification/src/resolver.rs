use crate::args::{Rabbit, RabbitView};
use crate::error::HopError;
use crate::history::{recent_matches, HistoryEntryView, HistoryLog};
use crate::path::{containing_dir, containing_dir_of, join, join_of};
use crate::shortcut::{find, Kind, ShortcutStore, ShortcutView};
use vstd::prelude::*;
use vstd::string::*;

verus! {

/// What a user points at.
#[derive(Debug, PartialEq, Eq)]
pub enum Request {
    /// Nothing: the working directory is meant.
    Here,
    /// A path at which something of the given kind was found.
    Literal(String, Kind),
    /// A name.
    Name(String),
}

/// What a `Request` holds.
pub enum RequestView {
    Here,
    Literal(Seq<char>, Kind),
    Name(Seq<char>),
}

impl View for Request {
    type V = RequestView;

    open spec fn view(&self) -> RequestView {
        match self {
            Request::Here => RequestView::Here,
            Request::Literal(path, kind) => RequestView::Literal(path@, *kind),
            Request::Name(name) => RequestView::Name(name@),
        }
    }
}

/// What the user wants to do at the place.
#[derive(Clone, Copy, Debug, PartialEq, Eq, Structural)]
pub enum Intent {
    /// Go there.
    Hop,
    /// Open it.
    Edit,
}

/// How a request was resolved.
#[derive(Clone, Copy, Debug, PartialEq, Eq, Structural)]
pub enum Origin {
    /// Nothing was asked for: the working directory.
    WorkingDir,
    /// The request was a path.
    Literal,
    /// A shortcut has that name.
    Shortcut,
    /// No shortcut has that name; the newest visit that looks like it.
    History,
}

/// The place that a request leads to.
#[derive(Debug, PartialEq, Eq)]
pub struct Resolution {
    pub target: String,
    pub kind: Kind,
    pub origin: Origin,
}

/// What a `Resolution` holds.
pub struct ResolutionView {
    pub target: Seq<char>,
    pub kind: Kind,
    pub origin: Origin,
}

impl View for Resolution {
    type V = ResolutionView;

    open spec fn view(&self) -> ResolutionView {
        ResolutionView { target: self.target@, kind: self.kind, origin: self.origin }
    }
}

/// What a resolution gives, seen through the view of the place.
pub open spec fn resolved_view(r: Result<Resolution, HopError>) -> Result<ResolutionView, HopError> {
    match r {
        Ok(place) => Ok(place@),
        Err(e) => Err(e),
    }
}

/// Where a shortcut takes the user: to hop to a file is to hop to the
/// directory that holds it; in every other case the target itself.
pub open spec fn destination_of(e: ShortcutView, intent: Intent) -> Seq<char> {
    if e.kind == Kind::File && intent == Intent::Hop {
        containing_dir_of(e.target)
    } else {
        e.target
    }
}

/// The place that a request leads to. No request leads to the working
/// directory. A path leads to itself, as seen from the working directory, and
/// no shortcut is looked up. A name leads to the shortcut of that name, or
/// else to the newest visit whose final segment holds it; there is no place
/// for a name that is neither.
pub open spec fn resolve_of(
    shortcuts: Seq<ShortcutView>,
    history: Seq<HistoryEntryView>,
    request: RequestView,
    cwd: Seq<char>,
    intent: Intent,
) -> Result<ResolutionView, HopError> {
    match request {
        RequestView::Here => Ok(
            ResolutionView { target: cwd, kind: Kind::Dir, origin: Origin::WorkingDir },
        ),
        RequestView::Literal(path, kind) => Ok(
            ResolutionView { target: join_of(cwd, path), kind, origin: Origin::Literal },
        ),
        RequestView::Name(name) => match find(shortcuts, name) {
            Some(e) => Ok(
                ResolutionView {
                    target: destination_of(e, intent),
                    kind: e.kind,
                    origin: Origin::Shortcut,
                },
            ),
            None => {
                let seen = recent_matches(history, RabbitView::RequestName(name), cwd);
                if seen.len() > 0 {
                    Ok(
                        ResolutionView {
                            target: seen[0].path,
                            kind: Kind::Dir,
                            origin: Origin::History,
                        },
                    )
                } else {
                    Err(HopError::UnknownTarget)
                }
            },
        },
    }
}

/// Finds the place that a request leads to.
pub fn resolve(
    shortcuts: &ShortcutStore,
    history: &HistoryLog,
    request: &Request,
    cwd: &str,
    intent: Intent,
) -> (r: Result<Resolution, HopError>)
    ensures
        resolved_view(r) == resolve_of(shortcuts@, history@, request@, cwd@, intent),
{
    match request {
        Request::Here => Ok(
            Resolution { target: cwd.to_owned(), kind: Kind::Dir, origin: Origin::WorkingDir },
        ),
        Request::Literal(path, kind) => Ok(
            Resolution { target: join(cwd, path.as_str()), kind: *kind, origin: Origin::Literal },
        ),
        Request::Name(name) => match shortcuts.lookup(name.as_str()) {
            Some(e) => {
                let target = if e.kind == Kind::File && intent == Intent::Hop {
                    containing_dir(e.target.as_str())
                } else {
                    e.target
                };
                Ok(Resolution { target, kind: e.kind, origin: Origin::Shortcut })
            },
            None => {
                let seen = history.search(&Rabbit::RequestName(name.clone()), cwd);
                if seen.len() > 0 {
                    Ok(
                        Resolution {
                            target: seen[0].path.clone(),
                            kind: Kind::Dir,
                            origin: Origin::History,
                        },
                    )
                } else {
                    Err(HopError::UnknownTarget)
                }
            },
        },
    }
}

/// A name that a shortcut has leads to that shortcut, whatever the history holds.
pub proof fn lemma_shortcut_beats_history(
    shortcuts: Seq<ShortcutView>,
    history: Seq<HistoryEntryView>,
    name: Seq<char>,
    cwd: Seq<char>,
    intent: Intent,
)
    requires
        find(shortcuts, name) is Some,
    ensures
        resolve_of(shortcuts, history, RequestView::Name(name), cwd, intent) == Ok::<
            ResolutionView,
            HopError,
        >(
            ResolutionView {
                target: destination_of(find(shortcuts, name)->0, intent),
                kind: find(shortcuts, name)->0.kind,
                origin: Origin::Shortcut,
            },
        ),
{
}

/// A name leads nowhere where there is neither a shortcut nor a visit.
pub proof fn lemma_unknown_where_nothing_is_kept(name: Seq<char>, cwd: Seq<char>, intent: Intent)
    ensures
        resolve_of(
            Seq::<ShortcutView>::empty(),
            Seq::<HistoryEntryView>::empty(),
            RequestView::Name(name),
            cwd,
            intent,
        ) == Err::<ResolutionView, HopError>(HopError::UnknownTarget),
{
}

} // verus!
