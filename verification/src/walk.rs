//! The traverser: which directories a listing reads and which records it
//! collects. Reading a directory is the caller's part: the walk names the
//! next directory to read, and takes what was read there.

use vstd::prelude::*;
use crate::fsops::{
    classify, entry_views, get_files, is_hidden, is_hidden_name, is_listed, kind_of, lists,
    lossy_name, DirItem, EntryView, FileEntry, FileType,
};

verus! {

/// How a listing walks.
#[derive(Debug, Clone, Copy)]
pub struct WalkConfig {
    /// Whether records of hidden names are kept.
    pub include_hidden: bool,
    /// Whether the directories below the root are read too.
    pub tree: bool,
    /// The depth down to which directories are read in tree mode; the root
    /// is at depth 0. Without a depth there is no bound.
    pub max_depth: Option<u32>,
}

/// A directory to read: its number, by which the caller knows its path, and
/// its depth below the root.
#[derive(Debug, Clone, Copy, PartialEq, Eq, Structural)]
pub struct Frame {
    pub dir: usize,
    pub depth: u32,
}

/// A directory found in a listing: the number that it was given, and the
/// position of its item in the listing.
#[derive(Debug, Clone, Copy, PartialEq, Eq, Structural)]
pub struct Child {
    pub dir: usize,
    pub item: usize,
}

/// The error of a root directory that cannot be read.
#[derive(Debug, Clone, Copy, PartialEq, Eq, Structural)]
pub struct RootReadFailure;

/// The state of a walk: every directory that was queued, how many of them
/// were handed out for reading, and the records collected so far.
pub struct Walk {
    config: WalkConfig,
    frames: Vec<Frame>,
    head: usize,
    records: Vec<FileEntry>,
}

/// The entries of a directory at `depth` are listed: always in flat mode, and
/// in tree mode unless the depth is past the bound.
pub open spec fn enters(config: WalkConfig, depth: u32) -> bool {
    !config.tree || config.max_depth is None || depth <= config.max_depth.unwrap()
}

/// The directories found in a directory at `depth` are read too: in tree
/// mode, while the depth is below the bound.
pub open spec fn descends(config: WalkConfig, depth: u32) -> bool {
    config.tree && (config.max_depth is None || depth < config.max_depth.unwrap())
}

/// The depth below `depth`.
pub open spec fn next_depth(depth: u32) -> u32 {
    if depth < u32::MAX {
        (depth + 1) as u32
    } else {
        depth
    }
}

/// An item opens a directory to read when it is listed and is a directory.
pub open spec fn opens(item: DirItem, include_hidden: bool) -> bool {
    is_listed(item, include_hidden) && kind_of(
        item.meta.unwrap().is_file,
        item.meta.unwrap().is_dir,
        item.meta.unwrap().is_symlink,
    ) == FileType::Directory
}

/// The children that a listing adds: one for each item that opens a
/// directory, in the order of the items, numbered from `first` on.
pub open spec fn children_of(items: Seq<DirItem>, include_hidden: bool, first: int) -> Seq<Child>
    decreases items.len(),
{
    if items.len() == 0 {
        Seq::<Child>::empty()
    } else {
        let before = children_of(items.drop_last(), include_hidden, first);
        if opens(items.last(), include_hidden) {
            before.push(
                Child { dir: (first + before.len()) as usize, item: (items.len() - 1) as usize },
            )
        } else {
            before
        }
    }
}

/// The frames of a list of children found at `depth`.
pub open spec fn frames_of(children: Seq<Child>, depth: u32) -> Seq<Frame> {
    children.map_values(|c: Child| Frame { dir: c.dir, depth: next_depth(depth) })
}

/// What a walk holds.
pub struct WalkView {
    pub config: WalkConfig,
    pub frames: Seq<Frame>,
    pub head: int,
    pub records: Seq<EntryView>,
}

impl View for Walk {
    type V = WalkView;

    closed spec fn view(&self) -> WalkView {
        WalkView {
            config: self.config,
            frames: self.frames@,
            head: self.head as int,
            records: entry_views(self.records@),
        }
    }
}

/// The outcome of a visit: the state after it and the children that it
/// reports, or the failure of the root.
///
/// A listing that could not be read fails the walk where the directory is
/// the root, and changes nothing elsewhere. A listing that was read adds its
/// records, unless the directory is past the depth bound, and queues the
/// directories among them where the walk descends.
pub open spec fn visited(
    before: WalkView,
    frame: Frame,
    listing: Option<Seq<DirItem>>,
    after: WalkView,
    result: Result<Seq<Child>, RootReadFailure>,
) -> bool {
    let config = before.config;
    &&& after.config == config
    &&& after.head == before.head
    &&& match listing {
        None => {
            &&& after == before
            &&& if frame.depth == 0 {
                result is Err
            } else {
                result == Ok::<Seq<Child>, RootReadFailure>(Seq::<Child>::empty())
            }
        },
        Some(items) => {
            let found = if descends(config, frame.depth) && enters(config, frame.depth) {
                children_of(items, config.include_hidden, before.frames.len() as int)
            } else {
                Seq::<Child>::empty()
            };
            &&& result == Ok::<Seq<Child>, RootReadFailure>(found)
            &&& after.frames == before.frames + frames_of(found, frame.depth)
            &&& after.records.len() >= before.records.len()
            &&& after.records.take(before.records.len() as int) == before.records
            &&& if enters(config, frame.depth) {
                lists(
                    after.records.skip(before.records.len() as int),
                    items,
                    config.include_hidden,
                )
            } else {
                after.records == before.records
            }
        },
    }
}

impl Walk {
    /// Every directory that was handed out was queued, the queued
    /// directories are numbered in their order, and no record has a hidden
    /// name unless hidden names are kept.
    #[verifier::type_invariant]
    spec fn wf(&self) -> bool {
        &&& self.head <= self.frames.len()
        &&& forall|k: int| 0 <= k < self.frames.len() ==> (#[trigger] self.frames@[k]).dir == k
        &&& forall|i: int|
            0 <= i < self.records.len() ==> self.config.include_hidden || !is_hidden_name(
                (#[trigger] self.records@[i])@.name,
            )
    }

    /// A walk that has read nothing yet: the root, directory 0 at depth 0,
    /// is queued.
    pub fn new(config: WalkConfig) -> (out: Walk)
        ensures
            out@ == (WalkView {
                config: config,
                frames: seq![Frame { dir: 0, depth: 0 }],
                head: 0,
                records: Seq::<EntryView>::empty(),
            }),
    {
        let mut frames: Vec<Frame> = Vec::new();
        frames.push(Frame { dir: 0, depth: 0 });
        let out = Walk { config, frames, head: 0, records: Vec::new() };
        assert(out@.frames =~= seq![Frame { dir: 0, depth: 0 }]);
        assert(out@.records =~= Seq::<EntryView>::empty());
        out
    }

    /// How the walk goes.
    pub fn config(&self) -> (out: WalkConfig)
        ensures
            out == self@.config,
    {
        self.config
    }

    /// The next directory to read, in the order in which the directories
    /// were queued; `None` when every queued directory was handed out. The
    /// number of a directory is its place among the queued directories.
    pub fn next_directory(&mut self) -> (out: Option<Frame>)
        ensures
            final(self)@.config == old(self)@.config,
            final(self)@.frames == old(self)@.frames,
            final(self)@.records == old(self)@.records,
            0 <= old(self)@.head <= old(self)@.frames.len(),
            match out {
                Some(frame) => old(self)@.head < old(self)@.frames.len() && frame == old(
                    self,
                )@.frames[old(self)@.head] && frame.dir == old(self)@.head && final(self)@.head
                    == old(self)@.head + 1,
                None => old(self)@.head == old(self)@.frames.len() && final(self)@.head == old(
                    self,
                )@.head,
            },
    {
        proof {
            use_type_invariant(&*self);
        }
        if self.head < self.frames.len() {
            let frame = self.frames[self.head];
            self.head = self.head + 1;
            Some(frame)
        } else {
            None
        }
    }

    /// Takes what was read in the directory of `frame`: the items of the
    /// listing, or `None` where the directory could not be read. Gives the
    /// directories that were queued, each with the position of its item.
    pub fn visit(&mut self, frame: Frame, listing: Option<Vec<DirItem>>) -> (out: Result<
        Vec<Child>,
        RootReadFailure,
    >)
        ensures
            visited(
                old(self)@,
                frame,
                match listing {
                    Some(items) => Some(items@),
                    None => None,
                },
                final(self)@,
                match out {
                    Ok(children) => Ok(children@),
                    Err(e) => Err(e),
                },
            ),
    {
        proof {
            use_type_invariant(&*self);
        }
        let ghost before = self@;
        let items = match listing {
            Some(items) => items,
            None => {
                if frame.depth == 0 {
                    return Err(RootReadFailure);
                }
                return Ok(Vec::new());
            },
        };
        let config = self.config;
        let entered = !config.tree || match config.max_depth {
            Some(bound) => frame.depth <= bound,
            None => true,
        };
        let mut children: Vec<Child> = Vec::new();
        if !entered {
            assert(self@.frames + frames_of(children@, frame.depth) =~= self@.frames);
            assert(self@.records.take(self@.records.len() as int) =~= self@.records);
            return Ok(children);
        }
        let mut found = get_files(&items, config.include_hidden);
        let ghost added = entry_views(found@);
        let mut state = Walk::new(config);
        std::mem::swap(self, &mut state);
        let Walk { config: _, mut frames, head, mut records } = state;
        records.append(&mut found);
        proof {
            assert(entry_views(records@) =~= before.records + added);
            assert(entry_views(records@).take(before.records.len() as int) =~= before.records);
            assert(entry_views(records@).skip(before.records.len() as int) =~= added);
        }
        let descend = config.tree && match config.max_depth {
            Some(bound) => frame.depth < bound,
            None => true,
        };
        if descend {
            let below: u32 = if frame.depth < u32::MAX {
                frame.depth + 1
            } else {
                frame.depth
            };
            let ghost first = frames.len() as int;
            let mut i: usize = 0;
            assert(items@.take(0) =~= Seq::<DirItem>::empty());
            assert(frames@ + frames_of(children@, frame.depth) =~= frames@);
            while i < items.len()
                invariant
                    i <= items.len(),
                    first == before.frames.len(),
                    below == next_depth(frame.depth),
                    forall|k: int| 0 <= k < frames.len() ==> (#[trigger] frames@[k]).dir == k,
                    children@ == children_of(items@.take(i as int), config.include_hidden, first),
                    frames@ == before.frames + frames_of(children@, frame.depth),
                decreases items.len() - i,
            {
                proof {
                    assert(items@.take(i + 1).drop_last() =~= items@.take(i as int));
                    assert(items@.take(i + 1).last() == items@[i as int]);
                }
                let item = &items[i];
                let is_directory = match &item.meta {
                    Some(meta) => {
                        let name = lossy_name(item.name.as_slice());
                        let listed = config.include_hidden || !is_hidden(name.as_str());
                        listed && match classify(meta.is_file, meta.is_dir, meta.is_symlink) {
                            FileType::Directory => true,
                            _ => false,
                        }
                    },
                    None => false,
                };
                if is_directory {
                    let ghost old_children = children@;
                    let ghost old_frames = frames@;
                    let child = Child { dir: frames.len(), item: i };
                    frames.push(Frame { dir: child.dir, depth: below });
                    children.push(child);
                    proof {
                        assert(old_frames.len() == first + old_children.len());
                        assert(frames_of(children@, frame.depth) =~= frames_of(
                            old_children,
                            frame.depth,
                        ).push(Frame { dir: child.dir, depth: below }));
                        assert(frames@ =~= before.frames + frames_of(children@, frame.depth));
                    }
                }
                i += 1;
            }
            assert(items@.take(items@.len() as int) =~= items@);
        } else {
            assert(frames@ + frames_of(children@, frame.depth) =~= frames@);
        }
        *self = Walk { config, frames, head, records };
        Ok(children)
    }

    /// Whether every queued directory was handed out.
    pub fn is_done(&self) -> (out: bool)
        ensures
            out == (self@.head == self@.frames.len()),
    {
        proof {
            use_type_invariant(self);
        }
        self.head >= self.frames.len()
    }

    /// The records that the walk collected, in the order in which they were
    /// found. None of them has a hidden name unless hidden names are kept.
    pub fn into_records(self) -> (out: Vec<FileEntry>)
        ensures
            entry_views(out@) == self@.records,
            forall|i: int|
                0 <= i < out.len() ==> self@.config.include_hidden || !is_hidden_name(
                    (#[trigger] out@[i])@.name,
                ),
    {
        proof {
            use_type_invariant(&self);
        }
        self.records
    }
}

/// The state `state` of a walk under another configuration.
pub open spec fn with_config(state: WalkView, config: WalkConfig) -> WalkView {
    WalkView { config: config, ..state }
}

/// In tree mode with the depth bound 0 a walk does what it does in flat
/// mode: a visit of the root leads from the same state to the same state,
/// with the same records and no directory queued, under either configuration.
pub proof fn lemma_depth_zero_is_flat(
    include_hidden: bool,
    flat_depth: Option<u32>,
    before: WalkView,
    frame: Frame,
    listing: Option<Seq<DirItem>>,
    after: WalkView,
    result: Result<Seq<Child>, RootReadFailure>,
)
    requires
        frame.depth == 0,
    ensures
        ({
            let tree = WalkConfig { include_hidden, tree: true, max_depth: Some(0u32) };
            let flat = WalkConfig { include_hidden, tree: false, max_depth: flat_depth };
            &&& enters(tree, 0) && enters(flat, 0)
            &&& !descends(tree, 0) && !descends(flat, 0)
            &&& visited(with_config(before, tree), frame, listing, with_config(after, tree), result)
                <==> visited(
                with_config(before, flat),
                frame,
                listing,
                with_config(after, flat),
                result,
            )
        }),
{
}

} // verus!
