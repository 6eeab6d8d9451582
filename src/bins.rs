//! Inheritance of host binaries: each binary of the configuration gets a
//! symlink in the environment's binary directory, and links found there
//! already are checked rather than replaced.
//!
//! The work alternates questions about the filesystem with decisions, so it
//! is a machine: each step names what the caller must look at or do, and the
//! caller hands the answer to the matching transition, until the machine is
//! `Done` or has `Failed`.
use vstd::prelude::*;

use crate::assoc::text_eq;
use crate::config::{Bin, BinView};
use crate::paths::{
    file_name, file_name_spec, is_absolute, is_absolute_spec, lemma_views_push, push_path,
    push_spec, split_on, split_spec, views,
};

verus! {

/// What the caller found at the place of a link.
#[derive(Debug)]
pub enum LinkState {
    Absent,
    /// Something that is not a symlink.
    NotSymlink,
    /// A symlink, with its destination.
    Symlink(String),
}

/// Why binaries cannot be inherited.
#[derive(Debug, PartialEq, Eq)]
pub enum InheritError {
    /// The name is in no directory of the host's `PATH`.
    NotFoundInPath(String),
    /// The resolved host binary does not exist.
    HostBinaryMissing(String),
    /// The entry has no final name to give its link.
    DegenerateBinaryPath(String),
    /// The place of the link holds something that is not a symlink.
    NotASymlink(String),
    /// The link exists and points elsewhere: its name, where it points, and
    /// where it should point.
    SymlinkConflict(String, String, String),
}

/// Where the host binary of an entry is.
#[derive(Debug)]
pub enum HostBin {
    /// The entry is an absolute path.
    Absolute(String),
    /// The entry is a name: the candidates to try in order, one for each
    /// directory of the host's `PATH`.
    Search(Vec<String>),
}

/// The next step of inheriting binaries.
#[derive(Debug)]
pub enum BinStep {
    /// Find the first of the candidates that is an existing regular file,
    /// and hand its index to `after_lookup`.
    Lookup { entry: usize, candidates: Vec<String> },
    /// Find whether the host binary exists, and hand that to
    /// `after_host_check`.
    CheckHost { entry: usize, host: String },
    /// Find what is at the link's place, and hand it to `after_inspect`.
    Inspect { entry: usize, host: String, name: String, link: String },
    /// Create a symlink at `link` that points to `host`, then call
    /// `after_create`.
    Create { entry: usize, host: String, link: String },
    /// Every entry is done.
    Done,
    Failed(InheritError),
}

pub enum LinkView {
    Absent,
    NotSymlink,
    Symlink(Seq<char>),
}

pub enum InheritFailure {
    NotFoundInPath(Seq<char>),
    HostBinaryMissing(Seq<char>),
    DegenerateBinaryPath(Seq<char>),
    NotASymlink(Seq<char>),
    SymlinkConflict(Seq<char>, Seq<char>, Seq<char>),
}

pub enum HostBinView {
    Absolute(Seq<char>),
    Search(Seq<Seq<char>>),
}

pub enum StepView {
    Lookup(int, Seq<Seq<char>>),
    CheckHost(int, Seq<char>),
    Inspect(int, Seq<char>, Seq<char>, Seq<char>),
    Create(int, Seq<char>, Seq<char>),
    Done,
    Failed(InheritFailure),
}

impl View for LinkState {
    type V = LinkView;

    open spec fn view(&self) -> LinkView {
        match self {
            LinkState::Absent => LinkView::Absent,
            LinkState::NotSymlink => LinkView::NotSymlink,
            LinkState::Symlink(d) => LinkView::Symlink(d@),
        }
    }
}

impl View for InheritError {
    type V = InheritFailure;

    open spec fn view(&self) -> InheritFailure {
        match self {
            InheritError::NotFoundInPath(e) => InheritFailure::NotFoundInPath(e@),
            InheritError::HostBinaryMissing(p) => InheritFailure::HostBinaryMissing(p@),
            InheritError::DegenerateBinaryPath(e) => InheritFailure::DegenerateBinaryPath(e@),
            InheritError::NotASymlink(l) => InheritFailure::NotASymlink(l@),
            InheritError::SymlinkConflict(n, old, new) => InheritFailure::SymlinkConflict(
                n@,
                old@,
                new@,
            ),
        }
    }
}

impl View for HostBin {
    type V = HostBinView;

    open spec fn view(&self) -> HostBinView {
        match self {
            HostBin::Absolute(p) => HostBinView::Absolute(p@),
            HostBin::Search(c) => HostBinView::Search(views(c@)),
        }
    }
}

impl View for BinStep {
    type V = StepView;

    open spec fn view(&self) -> StepView {
        match self {
            BinStep::Lookup { entry, candidates } => StepView::Lookup(
                *entry as int,
                views(candidates@),
            ),
            BinStep::CheckHost { entry, host } => StepView::CheckHost(*entry as int, host@),
            BinStep::Inspect { entry, host, name, link } => StepView::Inspect(
                *entry as int,
                host@,
                name@,
                link@,
            ),
            BinStep::Create { entry, host, link } => StepView::Create(*entry as int, host@, link@),
            BinStep::Done => StepView::Done,
            BinStep::Failed(e) => StepView::Failed(e@),
        }
    }
}

/// The places to look for a binary named `bin`: `bin` pushed onto each
/// directory of the host's `PATH`, in order.
pub open spec fn candidates_spec(host_path: Seq<char>, bin: Seq<char>) -> Seq<Seq<char>> {
    split_spec(host_path, ':').map_values(|d: Seq<char>| push_spec(d, bin))
}

pub open spec fn host_bin_spec(bin: Seq<char>, host_path: Seq<char>) -> HostBinView {
    if is_absolute_spec(bin) {
        HostBinView::Absolute(bin)
    } else {
        HostBinView::Search(candidates_spec(host_path, bin))
    }
}

/// The step that starts on entry `i`, or `Done` past the last entry.
pub open spec fn begin_spec(b: BinView, i: int, host_path: Seq<char>) -> StepView {
    if i >= b.inherit.len() {
        StepView::Done
    } else {
        match host_bin_spec(b.inherit[i], host_path) {
            HostBinView::Absolute(p) => StepView::CheckHost(i, p),
            HostBinView::Search(c) => StepView::Lookup(i, c),
        }
    }
}

pub open spec fn after_lookup_spec(
    b: BinView,
    i: int,
    candidates: Seq<Seq<char>>,
    found: Option<int>,
    host_path: Seq<char>,
) -> StepView {
    match found {
        None => if b.exit_on_not_found {
            StepView::Failed(InheritFailure::NotFoundInPath(b.inherit[i]))
        } else {
            begin_spec(b, i + 1, host_path)
        },
        Some(k) => StepView::CheckHost(i, candidates[k]),
    }
}

pub open spec fn after_host_check_spec(
    b: BinView,
    i: int,
    host: Seq<char>,
    exists: bool,
    bin_dir: Seq<char>,
) -> StepView {
    if !exists {
        StepView::Failed(InheritFailure::HostBinaryMissing(host))
    } else {
        match file_name_spec(b.inherit[i]) {
            None => StepView::Failed(InheritFailure::DegenerateBinaryPath(b.inherit[i])),
            Some(n) => StepView::Inspect(i, host, n, push_spec(bin_dir, n)),
        }
    }
}

/// The reconciliation of one link: create it where nothing is, never touch
/// what is not a symlink, accept a symlink to the right place, and for one
/// that points elsewhere fail or leave it as it is by `exit_on_change`.
pub open spec fn after_inspect_spec(
    b: BinView,
    i: int,
    host: Seq<char>,
    name: Seq<char>,
    link: Seq<char>,
    found: LinkView,
    host_path: Seq<char>,
) -> StepView {
    match found {
        LinkView::Absent => StepView::Create(i, host, link),
        LinkView::NotSymlink => StepView::Failed(InheritFailure::NotASymlink(link)),
        LinkView::Symlink(d) => if d == host {
            begin_spec(b, i + 1, host_path)
        } else if b.exit_on_change {
            StepView::Failed(InheritFailure::SymlinkConflict(name, d, host))
        } else {
            begin_spec(b, i + 1, host_path)
        },
    }
}

/// Where to find the host binary of an entry: an absolute path is taken as
/// it is, a name is looked for in each directory of the host's `PATH`.
pub fn bin_get_abs(bin: &str, host_path: &str) -> (r: HostBin)
    ensures
        r@ == host_bin_spec(bin@, host_path@),
{
    if is_absolute(bin) {
        return HostBin::Absolute(String::from_str(bin));
    }
    let dirs = split_on(host_path, ':');
    let mut candidates: Vec<String> = Vec::new();
    let mut i: usize = 0;
    let ghost spec_dirs = split_spec(host_path@, ':');
    proof {
        assert(views(candidates@) =~= spec_dirs.subrange(0, 0).map_values(
            |d: Seq<char>| push_spec(d, bin@),
        ));
    }
    while i < dirs.len()
        invariant
            views(dirs@) == spec_dirs,
            i <= dirs@.len(),
            views(candidates@) == spec_dirs.subrange(0, i as int).map_values(
                |d: Seq<char>| push_spec(d, bin@),
            ),
        decreases dirs@.len() - i,
    {
        let c = push_path(dirs[i].as_str(), bin);
        proof {
            lemma_views_push(candidates@, c);
            assert(spec_dirs[i as int] == dirs@[i as int]@);
            assert(spec_dirs.subrange(0, i + 1).map_values(|d: Seq<char>| push_spec(d, bin@))
                =~= spec_dirs.subrange(0, i as int).map_values(
                |d: Seq<char>| push_spec(d, bin@),
            ).push(c@));
        }
        candidates.push(c);
        i = i + 1;
    }
    proof {
        assert(spec_dirs.subrange(0, i as int) =~= spec_dirs);
    }
    HostBin::Search(candidates)
}

/// The verdict on a resolved host binary, given whether it exists.
pub fn bin_try_exists(bin: &str, exists: bool) -> (r: Result<(), InheritError>)
    ensures
        r is Ok <==> exists,
        r matches Err(e) ==> e@ == InheritFailure::HostBinaryMissing(bin@),
{
    if exists {
        Ok(())
    } else {
        Err(InheritError::HostBinaryMissing(String::from_str(bin)))
    }
}

/// Whether what was found at a link's place is a symlink to `src`.
pub fn symlink_exists(src: &str, found: &LinkState) -> (r: bool)
    ensures
        r == (found@ == LinkView::Symlink(src@)),
{
    match found {
        LinkState::Symlink(d) => text_eq(d.as_str(), src),
        _ => false,
    }
}

impl Bin {
    fn begin(&self, i: usize, host_path: &str) -> (r: BinStep)
        ensures
            r@ == begin_spec(self@, i as int, host_path@),
    {
        if i >= self.inherit.len() {
            return BinStep::Done;
        }
        proof {
            assert(self@.inherit[i as int] == self.inherit@[i as int]@);
        }
        match bin_get_abs(self.inherit[i].as_str(), host_path) {
            HostBin::Absolute(host) => BinStep::CheckHost { entry: i, host },
            HostBin::Search(candidates) => BinStep::Lookup { entry: i, candidates },
        }
    }

    fn advance(&self, entry: usize, host_path: &str) -> (r: BinStep)
        requires
            entry < self.inherit@.len(),
        ensures
            r@ == begin_spec(self@, entry + 1, host_path@),
    {
        let n: usize = self.inherit.len();
        if entry + 1 == n {
            return BinStep::Done;
        }
        self.begin(entry + 1, host_path)
    }

    /// The first step of inheriting the binaries of `inherit`, in order,
    /// given the host's `PATH`.
    pub fn inherit_bins(&self, host_path: &str) -> (r: BinStep)
        ensures
            r@ == begin_spec(self@, 0, host_path@),
    {
        self.begin(0, host_path)
    }

    /// The step after a `Lookup`: `found` is the index of the first
    /// candidate that exists, if any.
    pub fn after_lookup(
        &self,
        entry: usize,
        candidates: &Vec<String>,
        found: Option<usize>,
        host_path: &str,
    ) -> (r: BinStep)
        requires
            entry < self.inherit@.len(),
            found matches Some(k) ==> k < candidates@.len(),
        ensures
            r@ == after_lookup_spec(
                self@,
                entry as int,
                views(candidates@),
                match found {
                    Some(k) => Some(k as int),
                    None => None,
                },
                host_path@,
            ),
    {
        match found {
            None => {
                if self.exit_on_not_found {
                    BinStep::Failed(InheritError::NotFoundInPath(self.inherit[entry].clone()))
                } else {
                    self.advance(entry, host_path)
                }
            },
            Some(k) => BinStep::CheckHost { entry, host: candidates[k].clone() },
        }
    }

    /// The step after a `CheckHost`: `exists` tells whether the host binary
    /// exists; `bin_dir` is the environment's binary directory.
    pub fn after_host_check(&self, entry: usize, host: &str, exists: bool, bin_dir: &str) -> (r:
        BinStep)
        requires
            entry < self.inherit@.len(),
        ensures
            r@ == after_host_check_spec(self@, entry as int, host@, exists, bin_dir@),
    {
        if let Err(e) = bin_try_exists(host, exists) {
            return BinStep::Failed(e);
        }
        proof {
            assert(self@.inherit[entry as int] == self.inherit@[entry as int]@);
        }
        match file_name(self.inherit[entry].as_str()) {
            None => BinStep::Failed(InheritError::DegenerateBinaryPath(self.inherit[entry].clone())),
            Some(name) => {
                let link = push_path(bin_dir, name.as_str());
                BinStep::Inspect { entry, host: String::from_str(host), name, link }
            },
        }
    }

    /// The step after an `Inspect`: `found` is what is at the link's place.
    pub fn after_inspect(
        &self,
        entry: usize,
        host: &str,
        name: &str,
        link: &str,
        found: &LinkState,
        host_path: &str,
    ) -> (r: BinStep)
        requires
            entry < self.inherit@.len(),
        ensures
            r@ == after_inspect_spec(self@, entry as int, host@, name@, link@, found@, host_path@),
    {
        match found {
            LinkState::Absent => BinStep::Create {
                entry,
                host: String::from_str(host),
                link: String::from_str(link),
            },
            LinkState::NotSymlink => BinStep::Failed(InheritError::NotASymlink(String::from_str(link))),
            LinkState::Symlink(dest) => {
                if symlink_exists(host, found) {
                    self.advance(entry, host_path)
                } else if self.exit_on_change {
                    BinStep::Failed(
                        InheritError::SymlinkConflict(
                            String::from_str(name),
                            dest.clone(),
                            String::from_str(host),
                        ),
                    )
                } else {
                    self.advance(entry, host_path)
                }
            },
        }
    }

    /// The step after a `Create` has been carried out.
    pub fn after_create(&self, entry: usize, host_path: &str) -> (r: BinStep)
        requires
            entry < self.inherit@.len(),
        ensures
            r@ == begin_spec(self@, entry + 1, host_path@),
    {
        self.advance(entry, host_path)
    }
}

} // verus!
