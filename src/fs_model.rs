//! The machine of `bins` run against a model of the filesystem, and what
//! holds of every such run: existing entries are never changed, and a run
//! repeated on the filesystem that a successful run left changes nothing.
use vstd::prelude::*;

use crate::bins::{
    after_host_check_spec, after_inspect_spec, after_lookup_spec, begin_spec, InheritFailure,
    LinkView, StepView,
};
use crate::config::BinView;

verus! {

/// What a path of the filesystem holds.
pub enum Node {
    /// A regular file.
    File,
    /// A symlink, with its destination.
    Link(Seq<char>),
    /// Anything else, such as a directory.
    Other,
}

pub type FsView = Map<Seq<char>, Node>;

pub open spec fn is_file_at(fs: FsView, p: Seq<char>) -> bool {
    fs.contains_key(p) && fs[p] is File
}

/// The index of the first candidate that is a regular file.
pub open spec fn first_file(fs: FsView, c: Seq<Seq<char>>) -> Option<int>
    decreases c.len(),
{
    if c.len() == 0 {
        None
    } else if is_file_at(fs, c[0]) {
        Some(0)
    } else {
        match first_file(fs, c.drop_first()) {
            Some(k) => Some(k + 1),
            None => None,
        }
    }
}

/// What an inspection of `link` finds.
pub open spec fn link_view(fs: FsView, link: Seq<char>) -> LinkView {
    if !fs.contains_key(link) {
        LinkView::Absent
    } else {
        match fs[link] {
            Node::Link(d) => LinkView::Symlink(d),
            _ => LinkView::NotSymlink,
        }
    }
}

/// One step carried out on the filesystem: the next step, the filesystem
/// after it, and the number of links it created.
pub open spec fn step_fs(
    b: BinView,
    host_path: Seq<char>,
    bin_dir: Seq<char>,
    fs: FsView,
    s: StepView,
) -> (StepView, FsView, nat) {
    match s {
        StepView::Lookup(i, c) => (
            after_lookup_spec(b, i, c, first_file(fs, c), host_path),
            fs,
            0,
        ),
        StepView::CheckHost(i, h) => (
            after_host_check_spec(b, i, h, fs.contains_key(h), bin_dir),
            fs,
            0,
        ),
        StepView::Inspect(i, h, n, l) => (
            after_inspect_spec(b, i, h, n, l, link_view(fs, l), host_path),
            fs,
            0,
        ),
        StepView::Create(i, h, l) => (begin_spec(b, i + 1, host_path), fs.insert(l, Node::Link(h)), 1),
        _ => (s, fs, 0),
    }
}

/// At most `fuel` steps from `s`, stopping at `Done` or `Failed`: the last
/// step, the filesystem then, and the number of links created.
pub open spec fn run(
    b: BinView,
    host_path: Seq<char>,
    bin_dir: Seq<char>,
    fs: FsView,
    s: StepView,
    fuel: nat,
) -> (StepView, FsView, nat)
    decreases fuel,
{
    if fuel == 0 || s is Done || s is Failed {
        (s, fs, 0)
    } else {
        let next = step_fs(b, host_path, bin_dir, fs, s);
        let rest = run(b, host_path, bin_dir, next.1, next.0, (fuel - 1) as nat);
        (rest.0, rest.1, next.2 + rest.2)
    }
}

/// A `Create` step is only ever taken where nothing is.
pub open spec fn sound(fs: FsView, s: StepView) -> bool {
    s matches StepView::Create(_, _, l) ==> !fs.contains_key(l)
}

/// `after` keeps every entry of `before`, and what it adds are symlinks.
pub open spec fn extends(before: FsView, after: FsView) -> bool {
    &&& forall|p: Seq<char>| #[trigger]
        before.contains_key(p) ==> after.contains_key(p) && after[p] == before[p]
    &&& forall|p: Seq<char>| #[trigger]
        after.contains_key(p) && !before.contains_key(p) ==> after[p] is Link
}

proof fn lemma_first_file_same(fs1: FsView, fs2: FsView, c: Seq<Seq<char>>)
    requires
        forall|p: Seq<char>| #[trigger] is_file_at(fs1, p) == is_file_at(fs2, p),
    ensures
        first_file(fs1, c) == first_file(fs2, c),
    decreases c.len(),
{
    if c.len() > 0 {
        lemma_first_file_same(fs1, fs2, c.drop_first());
        assert(is_file_at(fs1, c[0]) == is_file_at(fs2, c[0]));
    }
}

proof fn lemma_step_sound(b: BinView, hp: Seq<char>, dir: Seq<char>, fs: FsView, s: StepView)
    requires
        sound(fs, s),
    ensures
        sound(step_fs(b, hp, dir, fs, s).1, step_fs(b, hp, dir, fs, s).0),
        extends(fs, step_fs(b, hp, dir, fs, s).1),
{
}

proof fn lemma_run_done_fuel(
    b: BinView,
    hp: Seq<char>,
    dir: Seq<char>,
    fs: FsView,
    s: StepView,
    f: nat,
    f2: nat,
)
    requires
        run(b, hp, dir, fs, s, f).0 is Done,
        f <= f2,
    ensures
        run(b, hp, dir, fs, s, f2) == run(b, hp, dir, fs, s, f),
    decreases f,
{
    if f > 0 && !(s is Done) && !(s is Failed) {
        let next = step_fs(b, hp, dir, fs, s);
        lemma_run_done_fuel(b, hp, dir, next.1, next.0, (f - 1) as nat, (f2 - 1) as nat);
    }
}

/// Every run from a sound state keeps each entry that the filesystem had,
/// and adds nothing but symlinks: an existing file, directory or symlink is
/// never overwritten or removed, whatever the policy.
pub proof fn law_existing_entries_kept(
    b: BinView,
    host_path: Seq<char>,
    bin_dir: Seq<char>,
    fs: FsView,
    s: StepView,
    fuel: nat,
)
    requires
        sound(fs, s),
    ensures
        extends(fs, run(b, host_path, bin_dir, fs, s, fuel).1),
        sound(run(b, host_path, bin_dir, fs, s, fuel).1, run(b, host_path, bin_dir, fs, s, fuel).0),
    decreases fuel,
{
    if fuel > 0 && !(s is Done) && !(s is Failed) {
        let next = step_fs(b, host_path, bin_dir, fs, s);
        lemma_step_sound(b, host_path, bin_dir, fs, s);
        law_existing_entries_kept(b, host_path, bin_dir, next.1, next.0, (fuel - 1) as nat);
        let last = run(b, host_path, bin_dir, next.1, next.0, (fuel - 1) as nat).1;
        assert forall|p: Seq<char>| #[trigger] fs.contains_key(p) implies last.contains_key(p)
            && last[p] == fs[p] by {
            assert(next.1.contains_key(p));
        }
        assert forall|p: Seq<char>| #[trigger]
            last.contains_key(p) && !fs.contains_key(p) implies last[p] is Link by {
            if next.1.contains_key(p) {
                assert(next.1[p] is Link);
            }
        }
    }
}

proof fn lemma_rerun(b: BinView, hp: Seq<char>, dir: Seq<char>, fs: FsView, s: StepView, fuel: nat)
    requires
        !(s is Create),
        run(b, hp, dir, fs, s, fuel).0 is Done,
    ensures
        run(b, hp, dir, run(b, hp, dir, fs, s, fuel).1, s, fuel) == (
            StepView::Done,
            run(b, hp, dir, fs, s, fuel).1,
            0nat,
        ),
    decreases fuel,
{
    let done = run(b, hp, dir, fs, s, fuel).1;
    if fuel == 0 || s is Done || s is Failed {
        return;
    }
    law_existing_entries_kept(b, hp, dir, fs, s, fuel);
    let next = step_fs(b, hp, dir, fs, s);
    match s {
        StepView::Lookup(i, c) => {
            assert forall|p: Seq<char>| #[trigger] is_file_at(done, p) == is_file_at(fs, p) by {
                if done.contains_key(p) && !fs.contains_key(p) {
                    assert(done[p] is Link);
                }
            }
            lemma_first_file_same(done, fs, c);
            lemma_rerun(b, hp, dir, fs, next.0, (fuel - 1) as nat);
        },
        StepView::CheckHost(i, h) => {
            if !fs.contains_key(h) {
                assert(next.0 is Failed);
                assert(run(b, hp, dir, next.1, next.0, (fuel - 1) as nat).0 is Failed);
            }
            lemma_rerun(b, hp, dir, fs, next.0, (fuel - 1) as nat);
        },
        StepView::Inspect(i, h, n, l) => {
            match link_view(fs, l) {
                LinkView::Absent => {
                    // The link is created, and the run goes on from the next
                    // entry on the filesystem that holds it.
                    let created = fs.insert(l, Node::Link(h));
                    let after = begin_spec(b, i + 1, hp);
                    assert(fuel >= 2) by {
                        if fuel == 1 {
                            assert(run(b, hp, dir, fs, s, fuel).0 == next.0);
                        }
                    }
                    assert(next.0 == StepView::Create(i, h, l));
                    assert(step_fs(b, hp, dir, fs, next.0) == (after, created, 1nat));
                    assert(run(b, hp, dir, fs, s, fuel).1 == run(
                        b,
                        hp,
                        dir,
                        created,
                        after,
                        (fuel - 2) as nat,
                    ).1);
                    lemma_rerun(b, hp, dir, created, after, (fuel - 2) as nat);
                    law_existing_entries_kept(b, hp, dir, created, after, (fuel - 2) as nat);
                    assert(created.contains_key(l));
                    assert(done[l] == Node::Link(h));
                    lemma_run_done_fuel(b, hp, dir, done, after, (fuel - 2) as nat, (fuel - 1) as nat);
                },
                LinkView::NotSymlink => {
                    assert(run(b, hp, dir, next.1, next.0, (fuel - 1) as nat).0 is Failed);
                },
                LinkView::Symlink(d) => {
                    assert(fs.contains_key(l));
                    lemma_rerun(b, hp, dir, fs, next.0, (fuel - 1) as nat);
                },
            }
        },
        _ => {},
    }
}

/// Inheriting twice with the same configuration and the same host: when the
/// first run succeeds, the second succeeds too, creates no link and leaves
/// the filesystem exactly as the first run left it.
pub proof fn law_rerun_changes_nothing(
    b: BinView,
    host_path: Seq<char>,
    bin_dir: Seq<char>,
    fs: FsView,
    fuel: nat,
)
    requires
        run(b, host_path, bin_dir, fs, begin_spec(b, 0, host_path), fuel).0 is Done,
    ensures
        ({
            let first = run(b, host_path, bin_dir, fs, begin_spec(b, 0, host_path), fuel).1;
            run(b, host_path, bin_dir, first, begin_spec(b, 0, host_path), fuel) == (
                StepView::Done,
                first,
                0nat,
            )
        }),
{
    lemma_rerun(b, host_path, bin_dir, fs, begin_spec(b, 0, host_path), fuel);
}

/// A link's place that holds something other than a symlink makes the run
/// fail with the non-symlink error, and nothing is created there.
pub proof fn law_non_symlink_fails(
    b: BinView,
    host_path: Seq<char>,
    bin_dir: Seq<char>,
    fs: FsView,
    i: int,
    host: Seq<char>,
    name: Seq<char>,
    link: Seq<char>,
)
    requires
        fs.contains_key(link),
        !(fs[link] is Link),
    ensures
        step_fs(b, host_path, bin_dir, fs, StepView::Inspect(i, host, name, link)) == (
            StepView::Failed(InheritFailure::NotASymlink(link)),
            fs,
            0nat,
        ),
{
}

/// With `exit_on_change`, a link that points elsewhere makes the run fail
/// with the conflict error, and the link is left as it was.
pub proof fn law_conflict_fails(
    b: BinView,
    host_path: Seq<char>,
    bin_dir: Seq<char>,
    fs: FsView,
    i: int,
    host: Seq<char>,
    name: Seq<char>,
    link: Seq<char>,
    dest: Seq<char>,
)
    requires
        b.exit_on_change,
        fs.contains_key(link),
        fs[link] == Node::Link(dest),
        dest != host,
    ensures
        step_fs(b, host_path, bin_dir, fs, StepView::Inspect(i, host, name, link)) == (
            StepView::Failed(InheritFailure::SymlinkConflict(name, dest, host)),
            fs,
            0nat,
        ),
{
}

} // verus!
