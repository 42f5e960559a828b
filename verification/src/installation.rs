//! Putting an unpacked package in the place of the one before it, so that one
//! of the two is there whatever fails on the way.

use vstd::prelude::*;

verus! {

/// A change to the directories of a package.
pub enum Move {
    /// The package that is there is set aside.
    SetAside,
    /// The unpacked package is put in its place.
    Install,
    /// The package that was set aside is put back.
    Restore,
    /// The unpacked package is removed.
    DropUnpacked,
    /// The package that was set aside is removed.
    DropOld,
}

/// What comes after a change was tried.
pub enum Next {
    /// Another change.
    Go(Move),
    /// The unpacked package is in its place.
    Installed,
    /// The unpacked package is not in its place.
    Failed,
}

/// The first change. `replaces` says whether there is a package already.
pub open spec fn first(replaces: bool) -> Move {
    if replaces {
        Move::SetAside
    } else {
        Move::Install
    }
}

/// The first change to make.
pub fn first_move(replaces: bool) -> (r: Move)
    ensures
        r == first(replaces),
{
    if replaces {
        Move::SetAside
    } else {
        Move::Install
    }
}

/// What comes after a change that succeeded or not.
pub open spec fn next(replaces: bool, done: Move, ok: bool) -> Next {
    match done {
        Move::SetAside => Next::Go(
            if ok {
                Move::Install
            } else {
                Move::DropUnpacked
            },
        ),
        Move::Install => if ok {
            if replaces {
                Next::Go(Move::DropOld)
            } else {
                Next::Installed
            }
        } else if replaces {
            Next::Go(Move::Restore)
        } else {
            Next::Go(Move::DropUnpacked)
        },
        Move::Restore => Next::Go(Move::DropUnpacked),
        Move::DropUnpacked => Next::Failed,
        Move::DropOld => Next::Installed,
    }
}

/// What to do after a change that succeeded or not.
pub fn next_move(replaces: bool, done: &Move, ok: bool) -> (r: Next)
    ensures
        r == next(replaces, *done, ok),
{
    match done {
        Move::SetAside => if ok {
            Next::Go(Move::Install)
        } else {
            Next::Go(Move::DropUnpacked)
        },
        Move::Install => if ok {
            if replaces {
                Next::Go(Move::DropOld)
            } else {
                Next::Installed
            }
        } else if replaces {
            Next::Go(Move::Restore)
        } else {
            Next::Go(Move::DropUnpacked)
        },
        Move::Restore => Next::Go(Move::DropUnpacked),
        Move::DropUnpacked => Next::Failed,
        Move::DropOld => Next::Installed,
    }
}

/// What the directories of a package hold.
pub struct Directories<P> {
    pub unpacked: Option<P>,
    pub current: Option<P>,
    pub aside: Option<P>,
}

/// The directories after a change: one that fails changes nothing.
pub open spec fn moved<P>(dirs: Directories<P>, change: Move, ok: bool) -> Directories<P> {
    if !ok {
        dirs
    } else {
        match change {
            Move::SetAside => Directories { current: None, aside: dirs.current, ..dirs },
            Move::Install => Directories { unpacked: None, current: dirs.unpacked, ..dirs },
            Move::Restore => Directories { current: dirs.aside, aside: None, ..dirs },
            Move::DropUnpacked => Directories { unpacked: None, ..dirs },
            Move::DropOld => Directories { aside: None, ..dirs },
        }
    }
}

/// How many changes can follow one at most.
pub open spec fn rank(change: Move) -> nat {
    match change {
        Move::SetAside => 4,
        Move::Install => 3,
        Move::Restore => 2,
        Move::DropUnpacked => 1,
        Move::DropOld => 1,
    }
}

/// Whether the package is installed in the end, and what the directories then
/// hold, where `works` says which changes succeed.
pub open spec fn run<P>(
    replaces: bool,
    change: Move,
    works: spec_fn(Move) -> bool,
    dirs: Directories<P>,
) -> (bool, Directories<P>)
    decreases rank(change),
{
    let after = moved(dirs, change, works(change));
    match next(replaces, change, works(change)) {
        Next::Installed => (true, after),
        Next::Failed => (false, after),
        Next::Go(more) => if rank(more) < rank(change) {
            run(replaces, more, works, after)
        } else {
            (false, after)
        },
    }
}

/// In the end the unpacked package is in its place, or the one before is still
/// there, unless it could not be put back.
pub proof fn law_package_is_never_lost<P>(works: spec_fn(Move) -> bool, dirs: Directories<P>)
    requires
        dirs.unpacked is Some,
        dirs.aside is None,
    ensures
        ({
            let replaces = dirs.current is Some;
            let (installed, end) = run(replaces, first(replaces), works, dirs);
            &&& installed ==> end.current == dirs.unpacked
            &&& !installed && works(Move::Restore) ==> end.current == dirs.current
            &&& installed <==> works(Move::Install) && (replaces ==> works(Move::SetAside))
        }),
{
    reveal_with_fuel(run, 5);
}

/// Where every change succeeds, nothing but the installed package is left
/// behind.
pub proof fn law_nothing_is_left_behind<P>(works: spec_fn(Move) -> bool, dirs: Directories<P>)
    requires
        dirs.unpacked is Some,
        dirs.aside is None,
        forall|m: Move| #[trigger] works(m),
    ensures
        ({
            let replaces = dirs.current is Some;
            run(replaces, first(replaces), works, dirs) == (
                true,
                Directories { unpacked: None, current: dirs.unpacked, aside: None },
            )
        }),
{
    reveal_with_fuel(run, 5);
    assert(works(Move::SetAside) && works(Move::Install) && works(Move::DropOld));
}

} // verus!
