//! The recursive enumerator: turns one remote directory into the flat list
//! of leaf files under it, depth first, keeping the listing order at every
//! level. It is an explicit-stack machine — it tolerates arbitrary depth —
//! that asks the interaction loop for one listing at a time and is handed
//! the result back; any listing failure aborts the whole enumeration with
//! no partial result.

use vstd::prelude::*;
use crate::state::EntryKind;
use crate::state::RemoteEntry;

verus! {

/// One discovered leaf file: its full remote path and its size.
#[derive(Debug, Clone, PartialEq, Eq)]
pub struct FoundFile {
    pub path: Vec<Vec<u8>>,
    pub size: u64,
}

/// The abstract value of a discovered file.
pub struct FileV {
    pub path: Seq<Seq<u8>>,
    pub size: u64,
}

impl View for FoundFile {
    type V = FileV;

    open spec fn view(&self) -> FileV {
        FileV { path: self.path.deep_view(), size: self.size }
    }
}

/// The abstract value of one directory listing row.
pub struct EntryV {
    pub name: Seq<u8>,
    pub kind: EntryKind,
}

pub open spec fn entry_view(e: RemoteEntry) -> EntryV {
    EntryV { name: e.name@, kind: e.kind }
}

/// One unit of pending work: a directory still to list, or a file already
/// discovered but not yet moved to the result.
#[derive(Debug)]
pub enum PendingItem {
    Dir { path: Vec<Vec<u8>> },
    Leaf { file: FoundFile },
}

/// The abstract value of one unit of pending work.
pub enum ItemV {
    DirV { path: Seq<Seq<u8>> },
    LeafV { file: FileV },
}

impl View for PendingItem {
    type V = ItemV;

    open spec fn view(&self) -> ItemV {
        match self {
            PendingItem::Dir { path } => ItemV::DirV { path: path.deep_view() },
            PendingItem::Leaf { file } => ItemV::LeafV { file: file@ },
        }
    }
}

/// The path a pending directory item will list.
pub open spec fn dir_path(it: ItemV) -> Seq<Seq<u8>> {
    match it {
        ItemV::DirV { path } => path,
        ItemV::LeafV { file } => file.path,
    }
}

/// The abstract state of the enumerator.
pub struct EnumV {
    /// Pending work; the end of the sequence is the top.
    pub stack: Seq<ItemV>,
    /// Leaf files discovered so far, in discovery order.
    pub found: Seq<FileV>,
    /// The directory whose listing the machine is waiting for.
    pub awaiting: Option<Seq<Seq<u8>>>,
    /// The reason of the listing failure that aborted the run, if one did.
    pub failed: Option<Seq<u8>>,
}

/// What the machine asks the loop to do next.
#[derive(Debug, PartialEq, Eq)]
pub enum EnumCommand {
    /// List this remote directory and hand the outcome back.
    ListDir { path: Vec<Vec<u8>> },
    /// The traversal is complete; the result can be taken.
    Finished,
}

/// The enumerator machine.
#[derive(Debug)]
pub struct Enumerator {
    stack: Vec<PendingItem>,
    found: Vec<FoundFile>,
    awaiting: Option<Vec<Vec<u8>>>,
    failed: Option<Vec<u8>>,
}

impl View for Enumerator {
    type V = EnumV;

    closed spec fn view(&self) -> EnumV {
        EnumV {
            stack: self.stack@.map_values(|it: PendingItem| it@),
            found: self.found@.map_values(|f: FoundFile| f@),
            awaiting: match self.awaiting {
                Some(p) => Some(p.deep_view()),
                None => None,
            },
            failed: match self.failed {
                Some(r) => Some(r@),
                None => None,
            },
        }
    }
}

/// Moving trailing discovered files from the stack to the result, until the
/// top is a directory or the stack is empty.
pub open spec fn drain(stack: Seq<ItemV>, found: Seq<FileV>) -> (Seq<ItemV>, Seq<FileV>)
    decreases stack.len(),
{
    if stack.len() == 0 {
        (stack, found)
    } else {
        match stack.last() {
            ItemV::LeafV { file } => drain(stack.drop_last(), found.push(file)),
            ItemV::DirV { .. } => (stack, found),
        }
    }
}

/// The work items one listing adds, top of stack last: the first entry of
/// the listing ends on top, so the traversal is depth first in listing
/// order. Directories become pending listings, files become pending leaves,
/// each under the listed directory's path.
pub open spec fn child_item(dir: Seq<Seq<u8>>, e: EntryV) -> ItemV {
    match e.kind {
        EntryKind::File { size } => ItemV::LeafV {
            file: FileV { path: dir.push(e.name), size },
        },
        _ => ItemV::DirV { path: dir.push(e.name) },
    }
}

pub open spec fn rev_items(dir: Seq<Seq<u8>>, entries: Seq<EntryV>) -> Seq<ItemV> {
    entries.reverse().map_values(|e: EntryV| child_item(dir, e))
}

impl Enumerator {
    /// A machine that will enumerate the directory at `root`.
    pub fn new(root: Vec<Vec<u8>>) -> (e: Enumerator)
        ensures
            e@.stack == seq![ItemV::DirV { path: root.deep_view() }],
            e@.found == Seq::<FileV>::empty(),
            e@.awaiting is None,
            e@.failed is None,
    {
        let mut stack: Vec<PendingItem> = Vec::new();
        stack.push(PendingItem::Dir { path: root });
        let e = Enumerator { stack, found: Vec::new(), awaiting: None, failed: None };
        proof {
            assert(e@.stack =~= seq![ItemV::DirV { path: e.stack@[0]->Dir_path.deep_view() }]);
            assert(e@.found =~= Seq::<FileV>::empty());
        }
        e
    }

    /// Advances the machine: moves every trailing discovered file into the
    /// result, then either asks for the next directory listing or reports
    /// the traversal finished.
    #[verifier::loop_isolation(false)]
    pub fn step(&mut self) -> (r: EnumCommand)
        requires
            old(self)@.awaiting is None,
            old(self)@.failed is None,
        ensures
            final(self)@.failed is None,
            ({
                let (s2, f2) = drain(old(self)@.stack, old(self)@.found);
                &&& final(self)@.found == f2
                &&& (s2.len() == 0 ==> r is Finished && final(self)@.stack == s2
                    && final(self)@.awaiting is None)
                &&& (s2.len() > 0 ==> s2.last() is DirV
                    && (r matches EnumCommand::ListDir { path } && path.deep_view() == dir_path(
                    s2.last(),
                )) && final(self)@.stack == s2.drop_last() && final(self)@.awaiting == Some(
                    dir_path(s2.last()),
                ))
            }),
    {
        let ghost (gs, gf) = drain(old(self)@.stack, old(self)@.found);
        loop
            invariant
                self@.awaiting is None,
                self@.failed is None,
                drain(self@.stack, self@.found) == (gs, gf),
            decreases self.stack.len(),
        {
            let ghost head_stack = self@.stack;
            let ghost head_found = self@.found;
            let top = match self.stack.pop() {
                Some(t) => t,
                None => {
                    proof {
                        assert(head_stack.len() == 0);
                        assert(drain(head_stack, head_found) == (head_stack, head_found));
                    }
                    return EnumCommand::Finished;
                },
            };
            let ghost topv = top@;
            proof {
                assert(head_stack =~= self@.stack.push(topv));
                assert(head_stack.last() == topv);
                assert(head_stack.drop_last() =~= self@.stack);
            }
            match top {
                PendingItem::Leaf { file } => {
                    let ghost fv = file@;
                    proof {
                        assert(topv == (ItemV::LeafV { file: fv }));
                        assert(drain(head_stack, head_found) == drain(
                            head_stack.drop_last(),
                            head_found.push(fv),
                        ));
                    }
                    self.found.push(file);
                    proof {
                        assert(self@.found =~= head_found.push(fv));
                        assert(drain(self@.stack, self@.found) == (gs, gf));
                    }
                },
                PendingItem::Dir { path } => {
                    let ghost pathv = path.deep_view();
                    let out = crate::bytes::clone_path(&path);
                    proof {
                        assert(topv == (ItemV::DirV { path: pathv }));
                        assert(drain(head_stack, head_found) == (head_stack, head_found));
                        assert(gs == head_stack && gf == head_found);
                        assert(out.deep_view() == dir_path(topv));
                        assert(self@.found =~= head_found);
                    }
                    self.awaiting = Some(path);
                    return EnumCommand::ListDir { path: out };
                },
            }
        }
    }

    /// Hands the machine the listing of the directory it asked for: the
    /// listed entries become pending work in reverse listing order, so the
    /// first entry is processed next.
    pub fn on_listed(&mut self, entries: Vec<RemoteEntry>)
        requires
            old(self)@.awaiting is Some,
            old(self)@.failed is None,
            forall|k: int|
                0 <= k < entries@.len() ==> !((#[trigger] entries@[k]).kind is ParentLink),
        ensures
            final(self)@.stack == old(self)@.stack + rev_items(
                old(self)@.awaiting.unwrap(),
                entries@.map_values(|e: RemoteEntry| entry_view(e)),
            ),
            final(self)@.found == old(self)@.found,
            final(self)@.awaiting is None,
            final(self)@.failed is None,
    {
        let ghost dirv = old(self)@.awaiting.unwrap();
        let ghost evs = entries@.map_values(|e: RemoteEntry| entry_view(e));
        let dir = match &self.awaiting {
            Some(d) => crate::bytes::clone_path(d),
            None => {
                proof {
                    assert(false);
                }
                Vec::new()
            },
        };
        self.awaiting = None;
        let ghost stack0 = self@.stack;
        let mut k = entries.len();
        proof {
            assert(evs.skip(k as int).reverse() =~= Seq::<EntryV>::empty());
            assert(rev_items(dirv, evs.skip(k as int)) =~= Seq::<ItemV>::empty());
            assert(self@.stack =~= stack0 + rev_items(dirv, evs.skip(k as int)));
        }
        while k > 0
            invariant
                k <= entries@.len(),
                evs == entries@.map_values(|e: RemoteEntry| entry_view(e)),
                forall|j: int|
                    0 <= j < entries@.len() ==> !((#[trigger] entries@[j]).kind is ParentLink),
                dir.deep_view() == dirv,
                self@.stack == stack0 + rev_items(dirv, evs.skip(k as int)),
                self@.found == old(self)@.found,
                self@.awaiting is None,
                self@.failed is None,
            decreases k,
        {
            k = k - 1;
            let name = crate::bytes::clone_bytes(&entries[k].name);
            let mut cpath = crate::bytes::clone_path(&dir);
            cpath.push(name);
            proof {
                assert(cpath.deep_view() =~~= dirv.push(entries@[k as int].name@));
            }
            let ghost prev_stack = self@.stack;
            match entries[k].kind {
                EntryKind::Directory => {
                    self.stack.push(PendingItem::Dir { path: cpath });
                },
                EntryKind::File { size } => {
                    self.stack.push(PendingItem::Leaf { file: FoundFile { path: cpath, size } });
                },
                EntryKind::ParentLink => {
                    proof {
                        assert(false);
                    }
                },
            }
            proof {
                assert(self@.stack =~= prev_stack.push(child_item(dirv, evs[k as int])));
                let tail = evs.skip(k as int);
                assert(tail.reverse().last() == tail[0]) by {
                    assert(tail.reverse()[tail.len() - 1] == tail[0]);
                }
                assert(tail.reverse().drop_last() =~= evs.skip(k as int + 1).reverse());
                assert(rev_items(dirv, tail) =~= rev_items(dirv, evs.skip(k as int + 1)).push(
                    child_item(dirv, evs[k as int]),
                ));
                assert(self@.stack =~= stack0 + rev_items(dirv, tail));
            }
        }
        proof {
            assert(evs.skip(0) =~= evs);
            assert(self@.stack =~= stack0 + rev_items(dirv, evs));
        }
    }

    /// A listing failed: the whole enumeration aborts with this reason, and
    /// no result will be handed out.
    pub fn on_list_failed(&mut self, reason: Vec<u8>)
        ensures
            final(self)@.failed == Some(reason@),
            final(self)@.awaiting is None,
            final(self)@.stack == old(self)@.stack,
            final(self)@.found == old(self)@.found,
    {
        self.awaiting = None;
        self.failed = Some(reason);
    }

    /// Takes the outcome: every discovered leaf file in discovery order, or
    /// the failure reason. It can be taken only from an aborted or finished
    /// run — never a partial list.
    pub fn into_result(self) -> (r: Result<Vec<FoundFile>, Vec<u8>>)
        requires
            self@.failed is Some || (self@.stack.len() == 0 && self@.awaiting is None),
        ensures
            self@.failed matches Some(reason) ==> (r matches Err(e) && e@ == reason),
            self@.failed is None ==> (r matches Ok(files) && files@.map_values(
                |f: FoundFile| f@,
            ) == self@.found),
    {
        let Enumerator { stack: _, found, awaiting: _, failed } = self;
        match failed {
            Some(r) => Err(r),
            None => Ok(found),
        }
    }
}

/// A model of a remote directory's contents, written as a list of entries:
/// empty, or a file followed by the rest, or a subdirectory (with its own
/// contents) followed by the rest.
pub enum Tree {
    Empty,
    FileThen { name: Seq<u8>, size: u64, rest: Box<Tree> },
    DirThen { name: Seq<u8>, children: Box<Tree>, rest: Box<Tree> },
}

/// The leaf files under a directory at `prefix` whose contents are `t`, in
/// depth-first listing order: a subdirectory's leaves stand where the
/// subdirectory stands in the listing.
pub open spec fn leaves(prefix: Seq<Seq<u8>>, t: Tree) -> Seq<FileV>
    decreases t,
{
    match t {
        Tree::Empty => Seq::empty(),
        Tree::FileThen { name, size, rest } => seq![FileV { path: prefix.push(name), size }]
            + leaves(prefix, *rest),
        Tree::DirThen { name, children, rest } => leaves(prefix.push(name), *children) + leaves(
            prefix,
            *rest,
        ),
    }
}

/// What listing a directory with contents `t` reports.
pub open spec fn listing_of(t: Tree) -> Seq<EntryV>
    decreases t,
{
    match t {
        Tree::Empty => Seq::empty(),
        Tree::FileThen { name, size, rest } => seq![
            EntryV { name, kind: EntryKind::File { size } },
        ] + listing_of(*rest),
        Tree::DirThen { name, children: _, rest } => seq![
            EntryV { name, kind: EntryKind::Directory },
        ] + listing_of(*rest),
    }
}

/// The listings the machine consumes after the one for `t` itself, in the
/// order it asks for them: depth first, in listing order.
pub open spec fn scripts_of(t: Tree) -> Seq<Seq<EntryV>>
    decreases t,
{
    match t {
        Tree::Empty => Seq::empty(),
        Tree::FileThen { rest, .. } => scripts_of(*rest),
        Tree::DirThen { children, rest, .. } => seq![listing_of(*children)] + scripts_of(*children)
            + scripts_of(*rest),
    }
}

/// A whole run of the machine over a script of listings, composed of
/// exactly the transitions `step` and `on_listed` implement: trailing
/// leaves drain into the result; a pending directory consumes the next
/// listing of the script and pushes its items in reverse. The run yields
/// the result only if the script matches the traversal exactly.
pub open spec fn run(stack: Seq<ItemV>, found: Seq<FileV>, script: Seq<Seq<EntryV>>) -> Option<
    Seq<FileV>,
>
    decreases script.len(), stack.len(),
{
    if stack.len() == 0 {
        if script.len() == 0 {
            Some(found)
        } else {
            None
        }
    } else {
        match stack.last() {
            ItemV::LeafV { file } => run(stack.drop_last(), found.push(file), script),
            ItemV::DirV { path } => {
                if script.len() == 0 {
                    None
                } else {
                    run(stack.drop_last() + rev_items(path, script[0]), found, script.skip(1))
                }
            },
        }
    }
}

/// `run` advances exactly as the machine does: draining trailing leaves (as
/// `step` does) does not change the outcome, and from a drained state the
/// outcome is decided the way one `step` plus one `on_listed` decide it —
/// finish on an empty stack, otherwise list the top directory and push its
/// items in reverse.
pub proof fn lemma_run_steps_as_machine(
    stack: Seq<ItemV>,
    found: Seq<FileV>,
    script: Seq<Seq<EntryV>>,
)
    ensures
        ({
            let (s2, f2) = drain(stack, found);
            &&& (s2.len() == 0 ==> run(stack, found, script) == (if script.len() == 0 {
                Some(f2)
            } else {
                None::<Seq<FileV>>
            }))
            &&& (s2.len() > 0 && script.len() > 0 ==> run(stack, found, script) == run(
                s2.drop_last() + rev_items(dir_path(s2.last()), script[0]),
                f2,
                script.skip(1),
            ))
            &&& (s2.len() > 0 && script.len() == 0 ==> run(stack, found, script) is None)
        }),
    decreases stack.len(),
{
    if stack.len() == 0 {
    } else {
        match stack.last() {
            ItemV::LeafV { file } => {
                lemma_run_steps_as_machine(stack.drop_last(), found.push(file), script);
            },
            ItemV::DirV { path } => {
                assert(drain(stack, found) == (stack, found));
            },
        }
    }
}

#[verifier::rlimit(100)]
#[verifier::spinoff_prover]
proof fn lemma_run_forest(
    f: Tree,
    p: Seq<Seq<u8>>,
    stack0: Seq<ItemV>,
    found0: Seq<FileV>,
    rest: Seq<Seq<EntryV>>,
)
    ensures
        run(stack0 + rev_items(p, listing_of(f)), found0, scripts_of(f) + rest) == run(
            stack0,
            found0 + leaves(p, f),
            rest,
        ),
    decreases f,
{
    match f {
        Tree::Empty => {
            assert(listing_of(f).reverse() =~= Seq::<EntryV>::empty());
            assert(rev_items(p, listing_of(f)) =~= Seq::<ItemV>::empty());
            assert(stack0 + rev_items(p, listing_of(f)) =~= stack0);
            assert(scripts_of(f) + rest =~= rest);
            assert(found0 + leaves(p, f) =~= found0);
        },
        Tree::FileThen { name, size, rest: tail } => {
            let file = FileV { path: p.push(name), size };
            let inner = stack0 + rev_items(p, listing_of(*tail));
            let big = stack0 + rev_items(p, listing_of(f));
            assert(listing_of(f) =~= seq![EntryV { name, kind: EntryKind::File { size } }]
                + listing_of(*tail));
            assert(listing_of(f).reverse() =~= listing_of(*tail).reverse().push(
                EntryV { name, kind: EntryKind::File { size } },
            ));
            assert(big =~= inner.push(ItemV::LeafV { file }));
            assert(big.last() == (ItemV::LeafV { file }));
            assert(big.drop_last() =~= inner);
            assert(scripts_of(f) == scripts_of(*tail));
            lemma_run_forest(*tail, p, stack0, found0.push(file), rest);
            assert(found0.push(file) + leaves(p, *tail) =~= found0 + leaves(p, f));
            assert(run(big, found0, scripts_of(f) + rest) == run(
                inner,
                found0.push(file),
                scripts_of(*tail) + rest,
            ));
        },
        Tree::DirThen { name, children, rest: tail } => {
            let q = p.push(name);
            let dir_entry = EntryV { name, kind: EntryKind::Directory };
            let inner = stack0 + rev_items(p, listing_of(*tail));
            let big = stack0 + rev_items(p, listing_of(f));
            let script = scripts_of(f) + rest;
            assert(listing_of(f) =~= seq![dir_entry] + listing_of(*tail));
            assert(listing_of(f).reverse() =~= listing_of(*tail).reverse().push(dir_entry));
            assert(big =~= inner.push(ItemV::DirV { path: q }));
            assert(big.last() == (ItemV::DirV { path: q }));
            assert(big.drop_last() =~= inner);
            assert(script.len() > 0);
            assert(script[0] == listing_of(*children));
            assert(script.skip(1) =~= scripts_of(*children) + (scripts_of(*tail) + rest));
            lemma_run_forest(*children, q, inner, found0, scripts_of(*tail) + rest);
            lemma_run_forest(*tail, p, stack0, found0 + leaves(q, *children), rest);
            assert(found0 + leaves(q, *children) + leaves(p, *tail) =~= found0 + leaves(p, f));
            assert(run(big, found0, script) == run(
                inner + rev_items(q, listing_of(*children)),
                found0,
                scripts_of(*children) + (scripts_of(*tail) + rest),
            ));
        },
    }
}

/// Law: run on a tree whose directories answer each listing request with
/// the tree's own listing — the root's first, then depth first in listing
/// order — yields exactly the tree's leaf files, in that order. With only
/// files at depth zero this is the listing itself; with nested
/// subdirectories it is the union of the leaf files across all depths. A
/// script the machine does not consume exactly (a listing missing or left
/// over) yields no result at all, and `on_list_failed` followed by
/// `into_result` yields the error: no partial list is ever handed out.
pub proof fn lemma_enumeration_finds_all_leaves(root: Seq<Seq<u8>>, t: Tree)
    ensures
        run(
            seq![ItemV::DirV { path: root }],
            Seq::empty(),
            seq![listing_of(t)] + scripts_of(t),
        ) == Some(leaves(root, t)),
{
    let start = seq![ItemV::DirV { path: root }];
    let script = seq![listing_of(t)] + scripts_of(t);
    assert(script[0] == listing_of(t));
    assert(start.last() == (ItemV::DirV { path: root }));
    assert(start.drop_last() =~= Seq::<ItemV>::empty());
    assert(script.skip(1) =~= scripts_of(t) + Seq::<Seq<EntryV>>::empty());
    lemma_run_forest(t, root, Seq::empty(), Seq::empty(), Seq::empty());
    assert(start.drop_last() + rev_items(root, script[0]) =~= Seq::<ItemV>::empty() + rev_items(
        root,
        listing_of(t),
    ));
    assert(run(start, Seq::empty(), script) == run(
        Seq::<ItemV>::empty() + rev_items(root, listing_of(t)),
        Seq::empty(),
        scripts_of(t) + Seq::<Seq<EntryV>>::empty(),
    ));
    assert(Seq::<FileV>::empty() + leaves(root, t) =~= leaves(root, t));
    assert(run(Seq::<ItemV>::empty(), leaves(root, t), Seq::<Seq<EntryV>>::empty()) == Some(
        leaves(root, t),
    ));
}

} // verus!
