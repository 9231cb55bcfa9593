//! Expanding dropped paths, directories and list files into the ordered
//! sequence of image paths to load.
//!
//! The expansion needs the file system at each step, so it is a state machine:
//! [`FileIngestor::request`] names what must be looked up next, the caller
//! looks it up and hands the answer to [`FileIngestor::reply`].
use vstd::prelude::*;
use crate::paths::{
    PathKind, kind_of, lex_sorted, lines_of, path_kind, sort_paths, split_lines,
};

verus! {

broadcast use vstd::seq_lib::group_to_multiset_ensures;

/// A path waiting to be examined.
pub struct QueuedPath {
    /// The path text.
    pub path: String,
    /// Whether a directory at this path is walked. Inputs and the lines of
    /// list files are; the entries of a walked directory are not.
    pub walk: bool,
}

/// What the ingestor waits for about the path at the head of its queue.
#[derive(Clone, Copy, Debug, PartialEq, Eq, Structural)]
pub enum Stage {
    /// Whether the path exists, and whether it is a directory.
    Inspect,
    /// The recursive listing of the directory.
    Walk,
    /// The text of the list file.
    Read,
}

/// The state of an ingestion, as plain values.
pub struct IngestState {
    pub queue: Seq<QueuedPath>,
    pub stage: Stage,
    pub found: Seq<String>,
}

/// What the caller must look up next.
pub enum IngestRequest {
    /// Report whether the path exists, whether it is a directory, and its
    /// canonical form (the path as given when it has none).
    Inspect(String),
    /// Report every entry beneath the directory, recursively, itself included.
    Walk(String),
    /// Report the text of the file, or an empty text when it cannot be read.
    Read(String),
    /// Nothing is left to examine.
    Finished,
}

/// What the caller found.
pub enum IngestReply {
    Inspected { present: bool, is_dir: bool, canonical: String },
    Listing(Vec<String>),
    Text(String),
}

/// The expansion in progress: a queue of paths to examine, in order, and the
/// image paths found so far.
pub struct FileIngestor {
    queue: Vec<QueuedPath>,
    stage: Stage,
    found: Vec<String>,
}

impl View for FileIngestor {
    type V = IngestState;

    closed spec fn view(&self) -> IngestState {
        IngestState { queue: self.queue@, stage: self.stage, found: self.found@ }
    }
}

/// The queue that a list of inputs starts: each input in order, to be walked
/// if it is a directory.
pub open spec fn queued_inputs(inputs: Seq<String>) -> Seq<QueuedPath> {
    Seq::new(inputs.len(), |i: int| QueuedPath { path: inputs[i], walk: true })
}

/// An ingestion that has not started on a directory or a list file waits to
/// inspect its head; otherwise the head is the directory or list file.
pub open spec fn well_formed(st: IngestState) -> bool {
    st.stage != Stage::Inspect ==> st.queue.len() > 0
}

/// The state after the head of the queue was inspected: a directory is
/// walked if the head is to be walked and skipped otherwise; a missing path
/// is skipped; a file is collected by its canonical path, read or skipped,
/// by the kind of the path as given.
pub open spec fn after_inspect(
    st: IngestState,
    present: bool,
    is_dir: bool,
    canonical: String,
) -> IngestState {
    let head = st.queue[0];
    let rest = st.queue.drop_first();
    if head.walk && is_dir {
        IngestState { stage: Stage::Walk, ..st }
    } else if !present || is_dir {
        IngestState { queue: rest, stage: Stage::Inspect, found: st.found }
    } else {
        match kind_of(head.path@) {
            PathKind::Image => IngestState {
                queue: rest,
                stage: Stage::Inspect,
                found: st.found.push(canonical),
            },
            PathKind::List => IngestState { stage: Stage::Read, ..st },
            PathKind::Other => IngestState { queue: rest, stage: Stage::Inspect, found: st.found },
        }
    }
}

/// `next` follows `st` once the listing `entries` of the directory at the
/// head was taken: the directory leaves the queue and its entries, in
/// lexicographic order, come first, each to be examined as a single path.
pub open spec fn listing_taken(st: IngestState, entries: Seq<String>, next: IngestState) -> bool {
    let n = entries.len();
    &&& next.stage == Stage::Inspect
    &&& next.found == st.found
    &&& next.queue.len() == n + st.queue.len() - 1
    &&& next.queue.subrange(n as int, next.queue.len() as int) == st.queue.drop_first()
    &&& forall|i: int| 0 <= i < n ==> !(#[trigger] next.queue[i]).walk
    &&& lex_sorted(Seq::new(n, |i: int| next.queue[i].path))
    &&& Seq::new(n, |i: int| next.queue[i].path).to_multiset() == entries.to_multiset()
}

/// `next` follows `st` once the text of the list file at the head was read:
/// the list file leaves the queue and its lines come first, in their order,
/// each to be examined as an input.
pub open spec fn text_taken(st: IngestState, text: Seq<char>, next: IngestState) -> bool {
    let lines = lines_of(text);
    let n = lines.len();
    &&& next.stage == Stage::Inspect
    &&& next.found == st.found
    &&& next.queue.len() == n + st.queue.len() - 1
    &&& next.queue.subrange(n as int, next.queue.len() as int) == st.queue.drop_first()
    &&& forall|i: int|
        0 <= i < n ==> (#[trigger] next.queue[i]).walk && next.queue[i].path@ == lines[i]
}

impl FileIngestor {
    /// Starts the expansion of `inputs`, in their order.
    pub fn new(inputs: &Vec<String>) -> (r: FileIngestor)
        ensures
            r.wf(),
            r@.queue == queued_inputs(inputs@),
            r@.stage == Stage::Inspect,
            r@.found == Seq::<String>::empty(),
    {
        let mut queue: Vec<QueuedPath> = Vec::new();
        let mut i: usize = 0;
        while i < inputs.len()
            invariant
                i <= inputs.len(),
                queue@ =~= queued_inputs(inputs@.subrange(0, i as int)),
            decreases inputs.len() - i,
        {
            queue.push(QueuedPath { path: inputs[i].clone(), walk: true });
            i = i + 1;
        }
        assert(inputs@.subrange(0, inputs.len() as int) =~= inputs@);
        FileIngestor { queue, stage: Stage::Inspect, found: Vec::new() }
    }

    /// Whether the state is consistent; every reachable state is.
    pub closed spec fn wf(&self) -> bool {
        well_formed(self@)
    }

    /// What the caller must look up next.
    pub fn request(&self) -> (r: IngestRequest)
        requires
            self.wf(),
        ensures
            self@.queue.len() == 0 <==> r is Finished,
            r is Inspect ==> self@.stage == Stage::Inspect && r->Inspect_0 == self@.queue[0].path,
            r is Walk ==> self@.stage == Stage::Walk && r->Walk_0 == self@.queue[0].path,
            r is Read ==> self@.stage == Stage::Read && r->Read_0 == self@.queue[0].path,
    {
        if self.queue.len() == 0 {
            return IngestRequest::Finished;
        }
        let path = self.queue[0].path.clone();
        match self.stage {
            Stage::Inspect => IngestRequest::Inspect(path),
            Stage::Walk => IngestRequest::Walk(path),
            Stage::Read => IngestRequest::Read(path),
        }
    }

    /// Takes what the caller found about the head of the queue. A reply that
    /// does not answer the pending request leaves the state as it is.
    pub fn reply(&mut self, reply: IngestReply)
        requires
            old(self).wf(),
        ensures
            final(self).wf(),
            match reply {
                IngestReply::Inspected { present, is_dir, canonical } => if old(self)@.queue.len() > 0
                    && old(self)@.stage == Stage::Inspect {
                    final(self)@ == after_inspect(old(self)@, present, is_dir, canonical)
                } else {
                    final(self)@ == old(self)@
                },
                IngestReply::Listing(entries) => if old(self)@.stage == Stage::Walk {
                    listing_taken(old(self)@, entries@, final(self)@)
                } else {
                    final(self)@ == old(self)@
                },
                IngestReply::Text(text) => if old(self)@.stage == Stage::Read {
                    &&& text_taken(old(self)@, text@, final(self)@)
                    &&& text@.len() == 0 ==> final(self)@.queue == old(self)@.queue.drop_first()
                } else {
                    final(self)@ == old(self)@
                },
            },
    {
        match reply {
            IngestReply::Inspected { present, is_dir, canonical } => {
                if self.queue.len() == 0 || self.stage != Stage::Inspect {
                    assert(self@ == old(self)@);
                    return;
                }
                if self.queue[0].walk && is_dir {
                    self.stage = Stage::Walk;
                    assert(self@ == after_inspect(old(self)@, present, is_dir, canonical));
                    return;
                }
                if present && !is_dir {
                    match path_kind(self.queue[0].path.as_str()) {
                        PathKind::Image => {
                            self.queue.remove(0);
                            self.found.push(canonical);
                        },
                        PathKind::List => {
                            self.stage = Stage::Read;
                        },
                        PathKind::Other => {
                            self.queue.remove(0);
                        },
                    }
                } else {
                    self.queue.remove(0);
                }
                assert(old(self)@.queue.remove(0) =~= old(self)@.queue.drop_first());
                proof {
                    assert(self@ == after_inspect(old(self)@, present, is_dir, canonical));
                }
            },
            IngestReply::Listing(entries) => {
                if self.stage != Stage::Walk {
                    return;
                }
                let sorted = sort_paths(&entries);
                let mut front: Vec<QueuedPath> = Vec::new();
                let mut i: usize = 0;
                while i < sorted.len()
                    invariant
                        i <= sorted.len(),
                        front@.len() == i,
                        forall|k: int|
                            0 <= k < i ==> (#[trigger] front@[k]).path == sorted@[k]
                                && !front@[k].walk,
                    decreases sorted.len() - i,
                {
                    front.push(QueuedPath { path: sorted[i].clone(), walk: false });
                    i = i + 1;
                }
                self.splice_head(front);
                proof {
                    let n = entries@.len();
                    assert(sorted@.to_multiset().len() == sorted@.len());
                    assert(entries@.to_multiset().len() == entries@.len());
                    assert(Seq::new(n, |i: int| self@.queue[i].path) =~= sorted@);
                    assert(self@.queue.subrange(n as int, self@.queue.len() as int)
                        =~= old(self)@.queue.drop_first());
                }
            },
            IngestReply::Text(text) => {
                if self.stage != Stage::Read {
                    return;
                }
                let lines = split_lines(text.as_str());
                let mut front: Vec<QueuedPath> = Vec::new();
                let mut i: usize = 0;
                while i < lines.len()
                    invariant
                        i <= lines.len(),
                        front@.len() == i,
                        lines@.len() == lines_of(text@).len(),
                        forall|k: int| 0 <= k < lines@.len() ==> #[trigger] lines@[k]@ == lines_of(text@)[k],
                        forall|k: int|
                            0 <= k < i ==> (#[trigger] front@[k]).path@ == lines_of(text@)[k]
                                && front@[k].walk,
                    decreases lines.len() - i,
                {
                    front.push(QueuedPath { path: lines[i].clone(), walk: true });
                    i = i + 1;
                }
                self.splice_head(front);
                assert(self@.queue.subrange(lines@.len() as int, self@.queue.len() as int)
                    =~= old(self)@.queue.drop_first());
                assert(text@.len() == 0 ==> front@.len() == 0);
                assert(text@.len() == 0 ==> self@.queue =~= old(self)@.queue.drop_first());
            },
        }
    }

    /// Replaces the head of the queue with `front`, and goes back to inspecting.
    fn splice_head(&mut self, front: Vec<QueuedPath>)
        requires
            old(self)@.queue.len() > 0,
        ensures
            final(self)@.queue == front@ + old(self)@.queue.drop_first(),
            final(self)@.stage == Stage::Inspect,
            final(self)@.found == old(self)@.found,
    {
        let mut front = front;
        let ghost whole = front@;
        self.queue.remove(0);
        let ghost rest = self.queue@;
        while front.len() > 0
            invariant
                self.found@ == old(self).found@,
                self.stage == old(self).stage,
                front@.len() <= whole.len(),
                front@ == whole.subrange(0, front@.len() as int),
                self.queue@ == whole.subrange(front@.len() as int, whole.len() as int) + rest,
            decreases front.len(),
        {
            let q = front.pop().unwrap();
            self.queue.insert(0, q);
            assert(front@ =~= whole.subrange(0, front@.len() as int));
            assert(self.queue@ =~= whole.subrange(front@.len() as int, whole.len() as int) + rest);
        }
        assert(self.queue@ =~= whole + rest);
        self.stage = Stage::Inspect;
    }

    /// The image paths found so far, in the order found.
    pub fn found(&self) -> (r: &Vec<String>)
        ensures
            r@ == self@.found,
    {
        &self.found
    }

    /// Ends the expansion, giving the image paths found.
    pub fn into_found(self) -> (r: Vec<String>)
        ensures
            r@ == self@.found,
    {
        self.found
    }
}

/// The paths among `paths` that are collected when each is inspected with
/// the answer at the same position, `(present, is_dir, canonical)`: the
/// canonical paths of the existing image files, in order.
pub open spec fn kept(paths: Seq<String>, answers: Seq<(bool, bool, String)>) -> Seq<String>
    decreases paths.len(),
{
    if paths.len() == 0 {
        Seq::empty()
    } else {
        let rest = kept(paths.drop_first(), answers.drop_first());
        if answers[0].0 && !answers[0].1 && kind_of(paths[0]@) == PathKind::Image {
            seq![answers[0].2] + rest
        } else {
            rest
        }
    }
}

/// The state after successive heads of the queue were inspected with
/// `answers`, one `(present, is_dir, canonical)` each.
pub open spec fn after_answers(st: IngestState, answers: Seq<(bool, bool, String)>) -> IngestState
    decreases answers.len(),
{
    if answers.len() == 0 {
        st
    } else {
        after_answers(after_inspect(st, answers[0].0, answers[0].1, answers[0].2), answers.drop_first())
    }
}

/// The paths at the head of the queue that are not walked and are not list
/// files are collected in queue order: exactly the canonical paths of the
/// existing image files among them.
proof fn lemma_entries_found_in_queue_order(st: IngestState, answers: Seq<(bool, bool, String)>)
    requires
        st.stage == Stage::Inspect,
        answers.len() <= st.queue.len(),
        forall|i: int| 0 <= i < answers.len() ==> !(#[trigger] st.queue[i]).walk,
        forall|i: int|
            0 <= i < answers.len() ==> kind_of((#[trigger] st.queue[i]).path@) != PathKind::List,
    ensures
        after_answers(st, answers) == (IngestState {
            queue: st.queue.subrange(answers.len() as int, st.queue.len() as int),
            stage: Stage::Inspect,
            found: st.found + kept(Seq::new(answers.len(), |i: int| st.queue[i].path), answers),
        }),
    decreases answers.len(),
{
    let n = answers.len();
    let paths = Seq::new(n, |i: int| st.queue[i].path);
    if n == 0 {
        assert(st.queue.subrange(0, st.queue.len() as int) =~= st.queue);
        assert(st.found + kept(paths, answers) =~= st.found);
    } else {
        let next = after_inspect(st, answers[0].0, answers[0].1, answers[0].2);
        assert(!st.queue[0].walk && kind_of(st.queue[0].path@) != PathKind::List);
        assert forall|i: int| 0 <= i < n - 1 implies !(#[trigger] next.queue[i]).walk by {
            assert(next.queue[i] == st.queue[i + 1]);
        }
        assert forall|i: int| 0 <= i < n - 1 implies kind_of((#[trigger] next.queue[i]).path@)
            != PathKind::List by {
            assert(next.queue[i] == st.queue[i + 1]);
        }
        lemma_entries_found_in_queue_order(next, answers.drop_first());
        let rest_paths = Seq::new((n - 1) as nat, |i: int| next.queue[i].path);
        assert(rest_paths =~= paths.drop_first());
        assert(next.queue.subrange(n - 1, next.queue.len() as int) =~= st.queue.subrange(
            n as int,
            st.queue.len() as int,
        ));
        if answers[0].0 && !answers[0].1 && kind_of(paths[0]@) == PathKind::Image {
            assert(next.found + kept(rest_paths, answers.drop_first()) =~= st.found + kept(
                paths,
                answers,
            ));
        } else {
            assert(next.found == st.found);
        }
    }
}

/// The images of a directory are found in lexicographic order of its
/// recursive listing. Once the listing is taken, its entries are examined in
/// lexicographic order; if none of them is a list file, inspecting them with
/// any answers adds to what was found exactly the canonical paths of the
/// existing image files among them, in that order, and the queue goes on
/// past the directory.
pub proof fn lemma_listing_found_in_order(
    st: IngestState,
    entries: Seq<String>,
    next: IngestState,
    answers: Seq<(bool, bool, String)>,
)
    requires
        well_formed(st),
        st.stage == Stage::Walk,
        listing_taken(st, entries, next),
        answers.len() == entries.len(),
        forall|i: int| 0 <= i < entries.len() ==> kind_of((#[trigger] entries[i])@) != PathKind::List,
    ensures
        ({
            let listed = Seq::new(entries.len(), |i: int| next.queue[i].path);
            let done = after_answers(next, answers);
            &&& lex_sorted(listed)
            &&& listed.to_multiset() == entries.to_multiset()
            &&& done.found == st.found + kept(listed, answers)
            &&& done.queue == st.queue.drop_first()
            &&& done.stage == Stage::Inspect
        }),
{
    let n = entries.len();
    let listed = Seq::new(n, |i: int| next.queue[i].path);
    assert forall|i: int| 0 <= i < n implies kind_of((#[trigger] next.queue[i]).path@)
        != PathKind::List by {
        assert(listed[i] == next.queue[i].path);
        assert(listed.to_multiset().count(listed[i]) > 0);
        assert(entries.to_multiset().count(listed[i]) > 0);
        assert(entries.contains(listed[i]));
    }
    lemma_entries_found_in_queue_order(next, answers);
}

} // verus!
