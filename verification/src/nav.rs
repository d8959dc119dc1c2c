//! The navigation controller: owns the current location, the back-history
//! stack and the latest scan result, and mediates every location change.
//!
//! Path resolution and the filesystem walk happen outside the library: the
//! caller resolves targets and parents and reports whether a history entry
//! still exists, and the controller decides the transition. Going back
//! tries the filesystem parent first and consults the history stack only
//! when no distinct parent is reachable; this precedence is part of the
//! contract.

use vstd::prelude::*;
use vstd::string::StringExecFns;
use crate::entry::{EntryV, FileEntry, FsNode};
use crate::error::SpacemanError;
use crate::scanner::{scan_spec, ScanConfig, Scanner};
use crate::sort::{sort_spec, sort_entries, SortDirection, SortKey};

verus! {

/// What the caller learned about the filesystem parent of the current
/// location: the path has no parent component, the parent could not be
/// resolved (with the failure rendered to text), or it resolved.
pub enum ParentStatus {
    NoParent,
    Unresolvable(String),
    Resolved(String),
}

/// The mathematical value of a [`ParentStatus`].
pub ghost enum ParentStatusV {
    NoParent,
    Unresolvable(Seq<char>),
    Resolved(Seq<char>),
}

impl View for ParentStatus {
    type V = ParentStatusV;

    open spec fn view(&self) -> ParentStatusV {
        match self {
            ParentStatus::NoParent => ParentStatusV::NoParent,
            ParentStatus::Unresolvable(m) => ParentStatusV::Unresolvable(m@),
            ParentStatus::Resolved(p) => ParentStatusV::Resolved(p@),
        }
    }
}

/// Whether a navigation step moved to another location, so that the
/// caller owes a rescan, or stayed where it was.
#[derive(Clone, Copy, Debug, PartialEq, Eq, Structural)]
pub enum NavOutcome {
    Moved,
    Stayed,
}

/// The mathematical state of the navigation controller.
pub ghost struct AppV {
    pub config: ScanConfig,
    pub entries: Seq<EntryV>,
    pub current_path: Seq<char>,
    pub history: Seq<Seq<char>>,
    pub initial_path: Seq<char>,
    pub sort: SortKey,
    pub order: SortDirection,
}

/// The state after navigating into a resolved target: the location it
/// names, with the previous location pushed onto the history — unless the
/// target is the session's initial path, which is never recorded, so that
/// history never grows around the session's home.
pub open spec fn nav_to_spec(s: AppV, target: Seq<char>) -> AppV {
    AppV {
        current_path: target,
        history: if target == s.initial_path {
            s.history
        } else {
            s.history.push(s.current_path)
        },
        ..s
    }
}

/// How a back-navigation ended.
pub ghost enum BackOutcome {
    /// Ascended to the resolved filesystem parent; the history stack was
    /// not consulted, only pushed.
    Parent,
    /// No distinct parent was reachable; popped the history and moved to
    /// its top.
    History,
    /// Nothing to go back to: stayed, with no error.
    Stay,
    /// The parent exists but could not be resolved.
    ErrResolve,
    /// The popped history entry no longer exists; the location is
    /// unchanged.
    ErrMissing,
}

/// The state after a back-navigation. The filesystem parent, when it
/// resolves to a location other than the current one, always wins: the
/// current location is pushed and the controller ascends. Only otherwise
/// is the history consulted: its top is popped and becomes the location
/// if it still exists. With no parent and no history the state is
/// unchanged.
pub open spec fn nav_back_state(s: AppV, parent: ParentStatusV, top_exists: bool) -> AppV {
    match parent {
        ParentStatusV::Unresolvable(m) => s,
        _ => {
            if parent matches ParentStatusV::Resolved(p) && p != s.current_path {
                AppV {
                    current_path: parent->Resolved_0,
                    history: s.history.push(s.current_path),
                    ..s
                }
            } else if s.history.len() == 0 {
                s
            } else if !top_exists {
                AppV { history: s.history.drop_last(), ..s }
            } else {
                AppV {
                    current_path: s.history.last(),
                    history: s.history.drop_last(),
                    ..s
                }
            }
        },
    }
}

/// How a back-navigation from this state ends.
pub open spec fn nav_back_outcome(s: AppV, parent: ParentStatusV, top_exists: bool) -> BackOutcome {
    match parent {
        ParentStatusV::Unresolvable(m) => BackOutcome::ErrResolve,
        _ => {
            if parent matches ParentStatusV::Resolved(p) && p != s.current_path {
                BackOutcome::Parent
            } else if s.history.len() == 0 {
                BackOutcome::Stay
            } else if !top_exists {
                BackOutcome::ErrMissing
            } else {
                BackOutcome::History
            }
        },
    }
}

/// The navigation controller: the session's location, history and latest
/// entry list, with its scan and sort configuration.
pub struct App {
    scanner: Scanner,
    /// The latest scan result for `current_path`.
    pub entries: Vec<FileEntry>,
    /// The current location, resolved and absolute.
    pub current_path: String,
    path_history: Vec<String>,
    /// The resolved location the session started at, fixed for the
    /// session.
    pub initial_path: String,
    sort: SortKey,
    order: SortDirection,
}

impl View for App {
    type V = AppV;

    closed spec fn view(&self) -> AppV {
        AppV {
            config: self.scanner@,
            entries: self.entries.deep_view(),
            current_path: self.current_path@,
            history: self.path_history.deep_view(),
            initial_path: self.initial_path@,
            sort: self.sort,
            order: self.order,
        }
    }
}

impl App {
    /// A controller starting at the given resolved location, with an empty
    /// history and no entries scanned yet.
    pub fn new(initial_path: String, scanner: Scanner, sort: SortKey, order: SortDirection) -> (r:
        Self)
        ensures
            r@ == (AppV {
                config: scanner@,
                entries: Seq::empty(),
                current_path: initial_path@,
                history: Seq::empty(),
                initial_path: initial_path@,
                sort,
                order,
            }),
    {
        let current_path = initial_path.clone();
        let r = App {
            scanner,
            entries: Vec::new(),
            current_path,
            path_history: Vec::new(),
            initial_path,
            sort,
            order,
        };
        proof {
            assert(r.entries.deep_view() =~= Seq::<EntryV>::empty());
            assert(r.path_history.deep_view() =~= Seq::<Seq<char>>::empty());
        }
        r
    }

    /// Replaces the entry list with a scan of the given node list for the
    /// current location, ordered by the session's sort key and direction.
    pub fn scan_current_directory(&mut self, nodes: &Vec<FsNode>)
        ensures
            final(self)@ == (AppV {
                entries: sort_spec(
                    scan_spec(nodes.deep_view(), old(self)@.config),
                    old(self)@.sort,
                    old(self)@.order,
                ),
                ..old(self)@
            }),
    {
        let mut scanned = self.scanner.scan(nodes);
        sort_entries(&mut scanned, self.sort, self.order);
        self.entries = scanned;
    }

    /// Moves to a resolved target location. The previous location is
    /// pushed onto the history unless the target is the session's initial
    /// path. The caller owes a rescan of the new location.
    pub fn navigate_to(&mut self, resolved_target: String)
        ensures
            final(self)@ == nav_to_spec(old(self)@, resolved_target@),
    {
        if !resolved_target.eq(&self.initial_path) {
            let prev = self.current_path.clone();
            self.path_history.push(prev);
            proof {
                assert(self.path_history.deep_view() =~= old(self).path_history.deep_view().push(
                    old(self).current_path@,
                ));
            }
        }
        self.current_path = resolved_target;
    }

    /// Moves one step back: to the resolved filesystem parent when it
    /// differs from the current location, otherwise to the top of the
    /// history if it still exists; with neither, stays put. The caller
    /// reports what the filesystem said: how the current location's
    /// parent resolved, and whether the path on top of the history still
    /// exists. On `Ok(NavOutcome::Moved)` the caller owes a rescan.
    pub fn navigate_back(&mut self, parent: ParentStatus, history_top_exists: bool) -> (r: Result<
        NavOutcome,
        SpacemanError,
    >)
        ensures
            final(self)@ == nav_back_state(old(self)@, parent@, history_top_exists),
            r is Ok <==> !((nav_back_outcome(old(self)@, parent@, history_top_exists)
                is ErrResolve) || (nav_back_outcome(old(self)@, parent@, history_top_exists)
                is ErrMissing)),
            r == Ok::<NavOutcome, SpacemanError>(NavOutcome::Moved) <==> ((nav_back_outcome(
                old(self)@,
                parent@,
                history_top_exists,
            ) is Parent) || (nav_back_outcome(old(self)@, parent@, history_top_exists)
                is History)),
            r == Ok::<NavOutcome, SpacemanError>(NavOutcome::Stayed) <==> (nav_back_outcome(
                old(self)@,
                parent@,
                history_top_exists,
            ) is Stay),
            r is Err ==> r->Err_0 is InvalidPath,
    {
        match parent {
            ParentStatus::Unresolvable(m) => {
                return Err(SpacemanError::InvalidPath(m));
            },
            ParentStatus::Resolved(p) => {
                if !p.eq(&self.current_path) {
                    let prev = self.current_path.clone();
                    self.path_history.push(prev);
                    proof {
                        assert(self.path_history.deep_view() =~= old(
                            self,
                        ).path_history.deep_view().push(old(self).current_path@));
                    }
                    self.current_path = p;
                    return Ok(NavOutcome::Moved);
                }
            },
            ParentStatus::NoParent => {},
        }
        match self.path_history.pop() {
            None => {
                proof {
                    assert(old(self).path_history.deep_view() =~= Seq::<Seq<char>>::empty());
                }
                Ok(NavOutcome::Stayed)
            },
            Some(prev) => {
                proof {
                    assert(self.path_history.deep_view() =~= old(
                        self,
                    ).path_history.deep_view().drop_last());
                    assert(prev@ == old(self)@.history.last());
                }
                if !history_top_exists {
                    let mut msg = String::new();
                    msg.append("Cannot navigate to non-existent path: ");
                    msg.append(prev.as_str());
                    Err(SpacemanError::InvalidPath(msg))
                } else {
                    self.current_path = prev;
                    Ok(NavOutcome::Moved)
                }
            },
        }
    }

    /// The path on top of the history stack, which a back-navigation
    /// would consult when no distinct filesystem parent is reachable.
    pub fn history_top(&self) -> (r: Option<&String>)
        ensures
            match r {
                Some(p) => self@.history.len() > 0 && p@ == self@.history.last(),
                None => self@.history.len() == 0,
            },
    {
        if self.path_history.len() == 0 {
            None
        } else {
            Some(&self.path_history[self.path_history.len() - 1])
        }
    }
}

/// Law: a back-navigation from a location with no reachable distinct
/// parent and an empty history is a no-op: the location, the entries and
/// the whole state are unchanged, and no error is reported.
pub proof fn lemma_back_noop(s: AppV, parent: ParentStatusV, top_exists: bool)
    requires
        s.history.len() == 0,
        parent is NoParent || parent == ParentStatusV::Resolved(s.current_path),
    ensures
        nav_back_state(s, parent, top_exists) == s,
        nav_back_outcome(s, parent, top_exists) is Stay,
{
}

/// Law: going back always prefers the filesystem parent: whenever the
/// parent resolves to a location other than the current one, the
/// controller ascends to it and the history stack is only pushed, never
/// consulted or popped — however much history there is.
pub proof fn lemma_back_prefers_parent(s: AppV, p: Seq<char>, top_exists: bool)
    requires
        p != s.current_path,
    ensures
        nav_back_state(s, ParentStatusV::Resolved(p), top_exists).current_path == p,
        nav_back_state(s, ParentStatusV::Resolved(p), top_exists).history == s.history.push(
            s.current_path,
        ),
        nav_back_state(s, ParentStatusV::Resolved(p), top_exists).entries == s.entries,
        nav_back_outcome(s, ParentStatusV::Resolved(p), top_exists) is Parent,
{
}

/// Law: navigating into a child and then back lands on the original
/// location, provided the filesystem resolves the child's parent to that
/// location (as it does when the child lies directly inside it); and a
/// second back-navigation again follows the parent-ascent rule rather
/// than replaying the history entry that the first step pushed.
pub proof fn lemma_into_then_back(s: AppV, child: Seq<char>, top_exists: bool)
    requires
        child != s.current_path,
    ensures
        ({
            let after = nav_back_state(
                nav_to_spec(s, child),
                ParentStatusV::Resolved(s.current_path),
                top_exists,
            );
            after.current_path == s.current_path && nav_back_outcome(
                nav_to_spec(s, child),
                ParentStatusV::Resolved(s.current_path),
                top_exists,
            ) is Parent
        }),
{
}

} // verus!
