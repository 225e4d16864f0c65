//! Taking the size, the time and the contents of a file.
//!
//! Size and time are taken before the contents, never after. A write that comes
//! in between then leaves a snapshot of the older file beside the digest of the
//! newer one: the next check reads the file once more than it had to. The other
//! way round it would take the newer file for the one that was digested.
use crate::digest::{hash_bytes, hash_file, tagged_digest};
use crate::state::model::FileMeta;
use crate::text::opt_text;
use vstd::prelude::*;

verus! {

/// What has to be taken of the file next.
#[derive(Clone, Copy, Debug, PartialEq, Eq, Structural)]
pub enum ReadStep {
    /// Its size and time.
    Meta,
    /// Its contents.
    Content,
    Done,
}

/// What was taken of the file, where it could be.
#[derive(Debug)]
pub enum ReadAnswer {
    Meta(Option<FileMeta>),
    Content(Option<Vec<u8>>),
}

/// How far the reading of a file has come.
pub enum ReadingView {
    Start,
    Measured(Option<FileMeta>),
    /// With the digest of the contents.
    Read(Option<FileMeta>, Option<Seq<char>>),
}

/// The digest of contents that could be read.
pub open spec fn opt_digest(content: Option<Vec<u8>>) -> Option<Seq<char>> {
    match content {
        Some(c) => Some(tagged_digest(c@)),
        None => None,
    }
}

/// What has to be taken next.
pub open spec fn next_step(v: ReadingView) -> ReadStep {
    match v {
        ReadingView::Start => ReadStep::Meta,
        ReadingView::Measured(_) => ReadStep::Content,
        ReadingView::Read(_, _) => ReadStep::Done,
    }
}

/// After an answer. One that was not asked for changes nothing.
pub open spec fn after_answer(v: ReadingView, answer: ReadAnswer) -> ReadingView {
    match (v, answer) {
        (ReadingView::Start, ReadAnswer::Meta(m)) => ReadingView::Measured(m),
        (ReadingView::Measured(m), ReadAnswer::Content(c)) => ReadingView::Read(m, opt_digest(c)),
        _ => v,
    }
}

/// The contents are taken only after size and time, and leave these as they were.
pub proof fn law_metadata_is_taken_first(v: ReadingView, answer: ReadAnswer)
    requires
        !(v is Read),
        after_answer(v, answer) is Read,
    ensures
        v is Measured,
        answer is Content,
        after_answer(v, answer)->Read_0 == v->Measured_0,
        next_step(v) == ReadStep::Content,
{
}

/// A file over time: whenever it has the same size and time at two moments, it
/// was not written in between.
pub open spec fn writes_show(meta: spec_fn(int) -> FileMeta, content: spec_fn(int) -> Seq<u8>) -> bool {
    forall|a: int, b: int, c: int|
        #![trigger meta(a), content(b), meta(c)]
        a <= b <= c && meta(a) == meta(c) ==> content(b) == content(c)
}

/// A racing write is not missed: where a file that shows its writes has, at some
/// later check, the size and time that were taken before its contents were, then
/// it still has those contents.
pub proof fn law_racing_write_is_not_missed(
    meta: spec_fn(int) -> FileMeta,
    content: spec_fn(int) -> Seq<u8>,
    measured: int,
    read: int,
    check: int,
)
    requires
        writes_show(meta, content),
        measured <= read <= check,
        meta(check) == meta(measured),
    ensures
        tagged_digest(content(check)) == tagged_digest(content(read)),
{
    assert(content(read) == content(check));
}

/// The size and time of a file and the digest of its contents, taken in this
/// order.
#[derive(Debug)]
pub struct FileSnapshot {
    meta: Option<FileMeta>,
    digest: Option<String>,
}

/// What a snapshot holds.
#[verifier::ext_equal]
pub struct SnapshotView {
    pub meta: Option<FileMeta>,
    /// None where the contents could not be read.
    pub digest: Option<Seq<char>>,
}

impl View for FileSnapshot {
    type V = SnapshotView;

    closed spec fn view(&self) -> SnapshotView {
        SnapshotView { meta: self.meta, digest: opt_text(self.digest) }
    }
}

/// The digest that is recorded of a file: that of no bytes where it could not be
/// read.
pub open spec fn recorded_digest(s: SnapshotView) -> Seq<char> {
    match s.digest {
        Some(d) => d,
        None => tagged_digest(Seq::<u8>::empty()),
    }
}

impl FileSnapshot {
    /// The size and time of the file.
    pub fn meta(&self) -> (r: Option<FileMeta>)
        ensures
            r == self@.meta,
    {
        self.meta
    }

    /// The digest of the file's contents, where they could be read.
    pub fn digest(&self) -> (r: Option<&str>)
        ensures
            match r {
                Some(d) => self@.digest == Some(d@),
                None => self@.digest is None,
            },
    {
        match &self.digest {
            Some(d) => Some(d.as_str()),
            None => None,
        }
    }

    /// The digest that is recorded of the file.
    pub fn hash(&self) -> (r: String)
        ensures
            r@ == recorded_digest(self@),
    {
        match &self.digest {
            Some(d) => d.clone(),
            None => hash_file(&None),
        }
    }
}

/// The reading of a file.
#[derive(Debug)]
pub struct FileReading {
    meta: Option<Option<FileMeta>>,
    digest: Option<Option<String>>,
}

impl View for FileReading {
    type V = ReadingView;

    closed spec fn view(&self) -> ReadingView {
        match (self.meta, self.digest) {
            (None, _) => ReadingView::Start,
            (Some(m), None) => ReadingView::Measured(m),
            (Some(m), Some(d)) => ReadingView::Read(m, opt_text(d)),
        }
    }
}

impl FileReading {
    /// Nothing was taken yet.
    pub fn new() -> (r: FileReading)
        ensures
            r@ == ReadingView::Start,
    {
        FileReading { meta: None, digest: None }
    }

    /// What has to be taken next.
    pub fn next(&self) -> (r: ReadStep)
        ensures
            r == next_step(self@),
    {
        match (&self.meta, &self.digest) {
            (None, _) => ReadStep::Meta,
            (Some(_), None) => ReadStep::Content,
            (Some(_), Some(_)) => ReadStep::Done,
        }
    }

    /// Go on with what was taken.
    pub fn answer(&mut self, answer: ReadAnswer)
        ensures
            final(self)@ == after_answer(old(self)@, answer),
    {
        match self.next() {
            ReadStep::Meta => {
                if let ReadAnswer::Meta(m) = answer {
                    self.meta = Some(m);
                    self.digest = None;
                }
            },
            ReadStep::Content => {
                if let ReadAnswer::Content(c) = answer {
                    self.digest = Some(
                        match &c {
                            Some(bytes) => Some(hash_bytes(bytes.as_slice())),
                            None => None,
                        },
                    );
                }
            },
            ReadStep::Done => {},
        }
    }

    /// What was taken, once everything was.
    pub fn finish(self) -> (r: Option<FileSnapshot>)
        ensures
            match self@ {
                ReadingView::Read(meta, digest) => r is Some && r->0@ == (SnapshotView { meta, digest }),
                _ => r is None,
            },
    {
        match (self.meta, self.digest) {
            (Some(meta), Some(digest)) => Some(FileSnapshot { meta, digest }),
            _ => None,
        }
    }
}

} // verus!
