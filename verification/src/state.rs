//! The navigation/selection state machine and the progress aggregator: the
//! current remote directory, its ordered item list, the selection cursor, the
//! log, and the single visible transfer slot, together with every transition
//! the interaction loop can take. Names and path segments are byte strings;
//! the display layer owns their textual rendering.

use vstd::prelude::*;
use vstd::arithmetic::div_mod::lemma_add_mod_noop_right;
use vstd::arithmetic::div_mod::lemma_mod_add_multiples_vanish;
use vstd::arithmetic::div_mod::lemma_mod_bound;
use vstd::arithmetic::div_mod::lemma_small_mod;
use crate::order::entries_sorted;
use crate::order::sort_entries;
use crate::transfer::Progress;
use crate::transfer::ProgressEvent;

verus! {

/// What one directory listing row is: a link to the parent directory, a
/// subdirectory, or a file of a known size.
#[derive(Debug, Clone, PartialEq, Eq)]
pub enum EntryKind {
    ParentLink,
    Directory,
    File { size: u64 },
}

/// One row of a directory listing, replaced wholesale on every refresh.
#[derive(Debug, Clone, PartialEq, Eq)]
pub struct RemoteEntry {
    pub name: Vec<u8>,
    pub kind: EntryKind,
}

/// One structured line of the visible log. The display layer renders these
/// as text.
#[derive(Debug, Clone, PartialEq, Eq)]
pub enum LogEntry {
    Initialized,
    FetchStarted { path: Vec<Vec<u8>> },
    FetchCompleted { count: usize },
    ListFailed { reason: Vec<u8> },
    EnumerationStarted { name: Vec<u8> },
    EnumerationFailed { reason: Vec<u8> },
    EnumerationCompleted { count: usize },
    DownloadStarted { name: Vec<u8> },
    DownloadCompleted { name: Vec<u8> },
    DownloadFailed { name: Vec<u8>, reason: Vec<u8> },
    Note { text: Vec<u8> },
}

/// A discrete user input event, already decoded from the terminal.
#[derive(Debug, Clone, PartialEq, Eq)]
pub enum InputEvent {
    Quit,
    MoveUp,
    MoveDown,
    /// Activation of the selected row; `recursive` is the modified form that
    /// downloads a directory recursively.
    Activate { recursive: bool },
}

/// What the interaction loop must do next; the state machine itself performs
/// no I/O.
#[derive(Debug, Clone, PartialEq, Eq)]
pub enum NavAction {
    /// Nothing to do.
    Idle,
    /// List `current_path` again and report the outcome back.
    Refresh,
    /// Download the single remote file at `path` (its last segment is `name`).
    DownloadFile { path: Vec<Vec<u8>>, name: Vec<u8>, size: u64 },
    /// Enumerate the remote directory at `path` and download its leaf files.
    DownloadDir { path: Vec<Vec<u8>>, name: Vec<u8> },
}

/// The one transfer shown by the display.
#[derive(Debug, Clone, PartialEq, Eq)]
pub struct VisibleTransfer {
    pub name: Vec<u8>,
    pub progress: Progress,
}

/// The state owned by the interaction loop.
#[derive(Debug)]
pub struct AppState {
    pub exit: bool,
    /// Segments of the current remote directory, relative to the configured
    /// root; empty means the root itself.
    pub current_path: Vec<Vec<u8>>,
    pub items: Vec<RemoteEntry>,
    pub selected: Option<usize>,
    pub logs: Vec<LogEntry>,
    pub download_status: Option<VisibleTransfer>,
}

/// The name under which the synthetic parent link is shown.
pub open spec fn parent_name() -> Seq<u8> {
    seq![46u8, 46u8]
}

/// Cyclic successor of index `i` on a list of length `len`.
pub open spec fn next_index(i: int, len: int) -> int {
    (i + 1) % len
}

/// Cyclic predecessor of index `i` on a list of length `len`.
pub open spec fn prev_index(i: int, len: int) -> int {
    (i + len - 1) % len
}

impl AppState {
    /// The selection invariant: no selection exactly on an empty list,
    /// otherwise a valid index.
    pub open spec fn wf(self) -> bool {
        &&& self.selected is None <==> self.items@.len() == 0
        &&& self.selected is Some ==> (self.selected.unwrap() as int) < self.items@.len()
    }

    /// The fields the selection moves leave alone.
    pub open spec fn same_but_selection(self, other: AppState) -> bool {
        &&& self.exit == other.exit
        &&& self.current_path == other.current_path
        &&& self.items == other.items
        &&& self.logs == other.logs
        &&& self.download_status == other.download_status
    }

    pub fn new(initial_path: Vec<Vec<u8>>) -> (s: Self)
        ensures
            s.wf(),
            !s.exit,
            s.current_path == initial_path,
            s.items@.len() == 0,
            s.selected is None,
            s.logs@ =~= seq![LogEntry::Initialized],
            s.download_status is None,
    {
        let mut logs: Vec<LogEntry> = Vec::new();
        logs.push(LogEntry::Initialized);
        AppState {
            exit: false,
            current_path: initial_path,
            items: Vec::new(),
            selected: None,
            logs,
            download_status: None,
        }
    }

    /// Appends one entry to the log; nothing else changes.
    pub fn log(&mut self, entry: LogEntry)
        ensures
            final(self).logs@ == old(self).logs@.push(entry),
            final(self).exit == old(self).exit,
            final(self).current_path == old(self).current_path,
            final(self).items == old(self).items,
            final(self).selected == old(self).selected,
            final(self).download_status == old(self).download_status,
    {
        self.logs.push(entry);
    }

    /// Moves the selection down one row, wrapping at the end; a no-op on an
    /// empty list.
    pub fn select_next(&mut self)
        requires
            old(self).wf(),
        ensures
            final(self).wf(),
            final(self).same_but_selection(*old(self)),
            old(self).items@.len() == 0 ==> final(self).selected == old(self).selected,
            old(self).items@.len() > 0 ==> final(self).selected == Some(
                next_index(old(self).selected.unwrap() as int, old(self).items@.len() as int)
                    as usize,
            ),
    {
        if self.items.len() == 0 {
            return ;
        }
        let len = self.items.len();
        let i = match self.selected {
            Some(i) => i,
            None => 0,
        };
        let n = if i >= len - 1 {
            0
        } else {
            i + 1
        };
        proof {
            if i + 1 < len {
                lemma_small_mod((i + 1) as nat, len as nat);
            } else {
                assert((i + 1) == len);
                assert(len as int % len as int == 0) by {
                    lemma_small_mod(0nat, len as nat);
                    lemma_mod_add_multiples_vanish(0, len as int);
                }
            }
        }
        self.selected = Some(n);
    }

    /// Moves the selection up one row, wrapping at the start; a no-op on an
    /// empty list.
    pub fn select_previous(&mut self)
        requires
            old(self).wf(),
        ensures
            final(self).wf(),
            final(self).same_but_selection(*old(self)),
            old(self).items@.len() == 0 ==> final(self).selected == old(self).selected,
            old(self).items@.len() > 0 ==> final(self).selected == Some(
                prev_index(old(self).selected.unwrap() as int, old(self).items@.len() as int)
                    as usize,
            ),
    {
        if self.items.len() == 0 {
            return ;
        }
        let len = self.items.len();
        let i = match self.selected {
            Some(i) => i,
            None => 0,
        };
        let n = if i == 0 {
            len - 1
        } else {
            i - 1
        };
        proof {
            if i == 0 {
                lemma_small_mod((len - 1) as nat, len as nat);
            } else {
                lemma_small_mod((i - 1) as nat, len as nat);
                lemma_mod_add_multiples_vanish(i - 1, len as int);
                assert((i + len - 1) % (len as int) == (i - 1) % (len as int));
            }
        }
        self.selected = Some(n);
    }
}

/// The produced listing order: a parent link first iff the path is not the
/// root, then all directories before all files, each group lexicographically
/// sorted by name.
pub open spec fn listing_ordered(items: Seq<RemoteEntry>, at_root: bool) -> bool {
    if at_root {
        &&& entries_sorted(items)
        &&& forall|k: int| 0 <= k < items.len() ==> !((#[trigger] items[k]).kind is ParentLink)
    } else {
        &&& items.len() >= 1
        &&& items[0].kind is ParentLink
        &&& items[0].name@ == parent_name()
        &&& entries_sorted(items.skip(1))
        &&& forall|k: int| 1 <= k < items.len() ==> !((#[trigger] items[k]).kind is ParentLink)
    }
}

/// `post` is `pre` with exactly one log line appended.
pub open spec fn logs_appended(pre: Seq<LogEntry>, post: Seq<LogEntry>) -> bool {
    post.len() == pre.len() + 1 && post.drop_last() == pre
}

/// What activating the selected row does: the exact transition and the
/// action handed back to the loop, case by case over the row's kind.
pub open spec fn activate_post(pre: AppState, post: AppState, r: NavAction, recursive: bool) -> bool {
    &&& post.exit == pre.exit
    &&& post.items == pre.items
    &&& post.selected == pre.selected
    &&& (pre.selected is None ==> post == pre && r is Idle)
    &&& (pre.selected is Some ==> {
        let i = pre.selected.unwrap() as int;
        let name = pre.items@[i].name@;
        match pre.items@[i].kind {
            EntryKind::ParentLink => {
                &&& r is Refresh
                &&& post.current_path.deep_view() == (if pre.current_path@.len() > 0 {
                    pre.current_path.deep_view().drop_last()
                } else {
                    pre.current_path.deep_view()
                })
                &&& post.logs == pre.logs
                &&& post.download_status == pre.download_status
            },
            EntryKind::Directory => {
                if recursive {
                    &&& (r matches NavAction::DownloadDir { path, name: n } && path.deep_view()
                        == pre.current_path.deep_view().push(name) && n@ == name)
                    &&& post.current_path == pre.current_path
                    &&& logs_appended(pre.logs@, post.logs@)
                    &&& (post.logs@.last() matches LogEntry::EnumerationStarted { name: ln }
                        && ln@ == name)
                    &&& post.download_status == pre.download_status
                } else {
                    &&& r is Refresh
                    &&& post.current_path.deep_view() == pre.current_path.deep_view().push(name)
                    &&& post.logs == pre.logs
                    &&& post.download_status == pre.download_status
                }
            },
            EntryKind::File { size } => {
                &&& (r matches NavAction::DownloadFile { path, name: n, size: s }
                    && path.deep_view() == pre.current_path.deep_view().push(name) && n@ == name
                    && s == size)
                &&& post.current_path == pre.current_path
                &&& logs_appended(pre.logs@, post.logs@)
                &&& (post.logs@.last() matches LogEntry::DownloadStarted { name: ln } && ln@
                    == name)
                &&& (post.download_status matches Some(v) && v.name@ == name
                    && v.progress is Started)
            },
        }
    })
}

impl AppState {
    /// Replaces the item list with the freshly listed entries, sorted into
    /// listing order behind the synthetic parent link (present exactly when
    /// the current path is not the root), and resets the selection to the
    /// first row, or to none on an empty list.
    pub fn on_refresh_completed(&mut self, entries: Vec<RemoteEntry>)
        requires
            old(self).wf(),
            forall|k: int|
                0 <= k < entries@.len() ==> !((#[trigger] entries@[k]).kind is ParentLink),
        ensures
            final(self).wf(),
            listing_ordered(final(self).items@, old(self).current_path@.len() == 0),
            old(self).current_path@.len() == 0 ==> final(self).items@.len() == entries@.len()
                && final(self).items@.to_multiset() == entries@.to_multiset(),
            old(self).current_path@.len() > 0 ==> final(self).items@.len() == entries@.len() + 1
                && final(self).items@.skip(1).to_multiset() == entries@.to_multiset(),
            final(self).selected == (if entries@.len() == 0 && old(self).current_path@.len() == 0 {
                None::<usize>
            } else {
                Some(0usize)
            }),
            final(self).logs@ == old(self).logs@.push(
                LogEntry::FetchCompleted { count: final(self).items@.len() as usize },
            ),
            final(self).exit == old(self).exit,
            final(self).current_path == old(self).current_path,
            final(self).download_status == old(self).download_status,
    {
        let ghost entry_seq = entries@;
        let mut items: Vec<RemoteEntry> = Vec::new();
        let at_root = self.current_path.len() == 0;
        if !at_root {
            let mut pname: Vec<u8> = Vec::new();
            pname.push(46);
            pname.push(46);
            proof {
                assert(pname@ =~= parent_name());
            }
            items.push(RemoteEntry { name: pname, kind: EntryKind::ParentLink });
        }
        let mut sorted = sort_entries(entries);
        let ghost sorted_seq = sorted@;
        proof {
            broadcast use vstd::seq_lib::group_to_multiset_ensures;

            assert forall|k: int| 0 <= k < sorted_seq.len() implies !(
            (#[trigger] sorted_seq[k]).kind is ParentLink) by {
                assert(sorted_seq.contains(sorted_seq[k]));
                assert(sorted_seq.to_multiset().count(sorted_seq[k]) > 0);
                assert(entry_seq.to_multiset().count(sorted_seq[k]) > 0);
                assert(entry_seq.contains(sorted_seq[k]));
                let j = choose|j: int|
                    0 <= j < entry_seq.len() && entry_seq[j] == sorted_seq[k];
                assert(!(entry_seq[j].kind is ParentLink));
            }
        }
        items.append(&mut sorted);
        proof {
            if at_root {
                assert(items@ =~= sorted_seq);
            } else {
                assert(items@.skip(1) =~= sorted_seq);
            }
        }
        let count = items.len();
        self.items = items;
        self.selected = if count > 0 {
            Some(0usize)
        } else {
            None
        };
        self.logs.push(LogEntry::FetchCompleted { count });
    }

    /// A failed listing changes nothing but the log: the current view stays.
    pub fn on_refresh_failed(&mut self, reason: Vec<u8>)
        requires
            old(self).wf(),
        ensures
            final(self).wf(),
            final(self).logs@ == old(self).logs@.push(LogEntry::ListFailed { reason }),
            final(self).exit == old(self).exit,
            final(self).current_path == old(self).current_path,
            final(self).items == old(self).items,
            final(self).selected == old(self).selected,
            final(self).download_status == old(self).download_status,
    {
        self.logs.push(LogEntry::ListFailed { reason });
    }

    /// Activates the selected row: a parent link pops the last path segment
    /// and asks for exactly one refresh; a directory pushes its segment and
    /// asks for one refresh, or — activated with the modifier — asks for a
    /// recursive download without changing the path; a file asks for a
    /// single-file download and fills the visible slot.
    pub fn activate(&mut self, recursive: bool) -> (r: NavAction)
        requires
            old(self).wf(),
        ensures
            final(self).wf(),
            activate_post(*old(self), *final(self), r, recursive),
    {
        let i = match self.selected {
            Some(i) => i,
            None => {
                return NavAction::Idle;
            },
        };
        let name = crate::bytes::clone_bytes(&self.items[i].name);
        match self.items[i].kind {
            EntryKind::ParentLink => {
                if self.current_path.len() > 0 {
                    let ghost before = self.current_path.deep_view();
                    let _ = self.current_path.pop();
                    proof {
                        assert(self.current_path.deep_view() =~= before.drop_last());
                    }
                }
                NavAction::Refresh
            },
            EntryKind::Directory => {
                if recursive {
                    let mut path = crate::bytes::clone_path(&self.current_path);
                    path.push(crate::bytes::clone_bytes(&name));
                    proof {
                        assert(path.deep_view() =~~= self.current_path.deep_view().push(name@));
                    }
                    self.logs.push(
                        LogEntry::EnumerationStarted { name: crate::bytes::clone_bytes(&name) },
                    );
                    proof {
                        assert(self.logs@.drop_last() =~= old(self).logs@);
                    }
                    NavAction::DownloadDir { path, name }
                } else {
                    let ghost before = self.current_path.deep_view();
                    self.current_path.push(name);
                    proof {
                        assert(self.current_path.deep_view() =~~= before.push(
                            old(self).items@[i as int].name@,
                        ));
                    }
                    NavAction::Refresh
                }
            },
            EntryKind::File { size } => {
                let mut path = crate::bytes::clone_path(&self.current_path);
                path.push(crate::bytes::clone_bytes(&name));
                proof {
                    assert(path.deep_view() =~~= self.current_path.deep_view().push(name@));
                }
                self.logs.push(LogEntry::DownloadStarted { name: crate::bytes::clone_bytes(&name) });
                proof {
                    assert(self.logs@.drop_last() =~= old(self).logs@);
                }
                self.download_status = Some(
                    VisibleTransfer {
                        name: crate::bytes::clone_bytes(&name),
                        progress: Progress::Started,
                    },
                );
                NavAction::DownloadFile { path, name, size }
            },
        }
    }

    /// Dispatches one decoded input event: quit raises the exit flag, the
    /// arrows move the selection cyclically, and activation behaves as
    /// `activate` says.
    pub fn on_input(&mut self, ev: InputEvent) -> (r: NavAction)
        requires
            old(self).wf(),
        ensures
            final(self).wf(),
            ev is Quit ==> final(self).exit && r is Idle
                && final(self).current_path == old(self).current_path
                && final(self).items == old(self).items
                && final(self).selected == old(self).selected
                && final(self).logs == old(self).logs
                && final(self).download_status == old(self).download_status,
            ev is MoveDown ==> r is Idle && final(self).same_but_selection(*old(self))
                && (old(self).items@.len() == 0 ==> final(self).selected == old(self).selected)
                && (old(self).items@.len() > 0 ==> final(self).selected == Some(
                next_index(old(self).selected.unwrap() as int, old(self).items@.len() as int)
                    as usize,
            )),
            ev is MoveUp ==> r is Idle && final(self).same_but_selection(*old(self))
                && (old(self).items@.len() == 0 ==> final(self).selected == old(self).selected)
                && (old(self).items@.len() > 0 ==> final(self).selected == Some(
                prev_index(old(self).selected.unwrap() as int, old(self).items@.len() as int)
                    as usize,
            )),
            ev matches InputEvent::Activate { recursive: m } ==> activate_post(
                *old(self),
                *final(self),
                r,
                m,
            ),
    {
        match ev {
            InputEvent::Quit => {
                self.exit = true;
                NavAction::Idle
            },
            InputEvent::MoveUp => {
                self.select_previous();
                NavAction::Idle
            },
            InputEvent::MoveDown => {
                self.select_next();
                NavAction::Idle
            },
            InputEvent::Activate { recursive } => self.activate(recursive),
        }
    }

    /// The progress aggregator: folds one worker event into the visible
    /// slot. A terminal event logs the outcome and clears the slot; any
    /// other event makes its task the visible one (last event wins).
    pub fn update_progress(&mut self, ev: ProgressEvent)
        requires
            old(self).wf(),
        ensures
            final(self).wf(),
            final(self).exit == old(self).exit,
            final(self).current_path == old(self).current_path,
            final(self).items == old(self).items,
            final(self).selected == old(self).selected,
            ev.progress is Completed ==> final(self).download_status is None && final(self).logs@
                == old(self).logs@.push(LogEntry::DownloadCompleted { name: ev.name }),
            ev.progress matches Progress::Failed { reason } ==> final(self).download_status is None
                && final(self).logs@ == old(self).logs@.push(
                LogEntry::DownloadFailed { name: ev.name, reason },
            ),
            ev.progress is Started || ev.progress is InProgress ==> final(self).download_status
                == Some(VisibleTransfer { name: ev.name, progress: ev.progress })
                && final(self).logs == old(self).logs,
    {
        let ProgressEvent { name, progress } = ev;
        match progress {
            Progress::Completed => {
                self.logs.push(LogEntry::DownloadCompleted { name });
                self.download_status = None;
            },
            Progress::Failed { reason } => {
                self.logs.push(LogEntry::DownloadFailed { name, reason });
                self.download_status = None;
            },
            other => {
                self.download_status = Some(VisibleTransfer { name, progress: other });
            },
        }
    }
}

/// Iterated cyclic successor: the selection index after `n` MoveDown steps.
pub open spec fn down_n(i: int, n: nat, len: int) -> int
    decreases n,
{
    if n == 0 {
        i
    } else {
        down_n(next_index(i, len), (n - 1) as nat, len)
    }
}

/// Iterated cyclic predecessor: the selection index after `n` MoveUp steps.
pub open spec fn up_n(i: int, n: nat, len: int) -> int
    decreases n,
{
    if n == 0 {
        i
    } else {
        up_n(prev_index(i, len), (n - 1) as nat, len)
    }
}

/// Law: `n` MoveDown steps from index `i` on a non-empty list of length
/// `len` select index `(i + n) % len`.
pub proof fn lemma_move_down_n(i: int, n: nat, len: int)
    requires
        0 < len,
        0 <= i < len,
    ensures
        down_n(i, n, len) == (i + n) % len,
    decreases n,
{
    if n == 0 {
        lemma_small_mod(i as nat, len as nat);
    } else {
        lemma_mod_bound(i + 1, len);
        lemma_move_down_n(next_index(i, len), (n - 1) as nat, len);
        assert(down_n(i, n, len) == ((i + 1) % len + (n - 1)) % len);
        lemma_add_mod_noop_right(n - 1, i + 1, len);
        assert(((n - 1) + (i + 1) % len) % len == ((n - 1) + (i + 1)) % len);
    }
}

/// Law: `n` MoveUp steps from index `i` on a non-empty list of length `len`
/// select index `(i - n) % len` — the MoveDown law with a negative step.
pub proof fn lemma_move_up_n(i: int, n: nat, len: int)
    requires
        0 < len,
        0 <= i < len,
    ensures
        up_n(i, n, len) == (i - n) % len,
    decreases n,
{
    if n == 0 {
        lemma_small_mod(i as nat, len as nat);
    } else {
        lemma_mod_bound(i + len - 1, len);
        lemma_move_up_n(prev_index(i, len), (n - 1) as nat, len);
        assert(up_n(i, n, len) == ((i + len - 1) % len - (n - 1)) % len);
        lemma_add_mod_noop_right(-(n - 1), i + len - 1, len);
        assert((-(n - 1) + (i + len - 1) % len) % len == (-(n - 1) + (i + len - 1)) % len);
        assert((-(n - 1) + (i + len - 1)) % len == (len + (i - n)) % len);
        lemma_mod_add_multiples_vanish(i - n, len);
    }
}

} // verus!
