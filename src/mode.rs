//! Choosing what to do from the command line's flag and paths.
use vstd::prelude::*;
use crate::EngineError;
use crate::walk::PathKind;
use crate::text::strings_view;

verus! {

/// The three modes of the tool, with file-to-file comparison apart.
#[derive(Debug, Clone, Copy, PartialEq, Eq, Structural)]
pub enum Mode {
    /// One path: list the digest of every file under it.
    Generate,
    /// One manifest: report the entries whose files changed.
    Check,
    /// Several regular files: compare their digests directly.
    CompareFiles,
    /// Several trees: reconcile their path maps.
    CompareTrees,
}

/// The mode for `kinds.len()` positional paths of the given kinds; `check`
/// tells whether the `--check` flag was given.
pub open spec fn mode_for(check: bool, kinds: Seq<PathKind>) -> Result<Mode, EngineError> {
    if kinds.len() == 0 {
        Err(EngineError::Usage)
    } else if kinds.len() == 1 {
        if check {
            Ok(Mode::Check)
        } else {
            Ok(Mode::Generate)
        }
    } else if forall|i: int| 0 <= i < kinds.len() ==> #[trigger] kinds[i] == PathKind::File {
        Ok(Mode::CompareFiles)
    } else if exists|i: int| 0 <= i < kinds.len() && #[trigger] kinds[i] == PathKind::File {
        Err(EngineError::Usage)
    } else {
        Ok(Mode::CompareTrees)
    }
}

/// Selects the mode: no path is a usage error; one path generates or checks;
/// several paths compare files when all are regular files, trees when none
/// is, and are a usage error when files and folders are mixed.
pub fn select_mode(check: bool, kinds: &Vec<PathKind>) -> (r: Result<Mode, EngineError>)
    ensures
        r == mode_for(check, kinds@),
{
    if kinds.len() == 0 {
        return Err(EngineError::Usage);
    }
    if kinds.len() == 1 {
        return if check { Ok(Mode::Check) } else { Ok(Mode::Generate) };
    }
    let mut files: usize = 0;
    let mut i: usize = 0;
    while i < kinds.len()
        invariant
            i <= kinds@.len(),
            files <= i,
            files == i <==> forall|j: int| 0 <= j < i ==> #[trigger] kinds@[j] == PathKind::File,
            files == 0 <==> forall|j: int| 0 <= j < i ==> #[trigger] kinds@[j] != PathKind::File,
        decreases kinds.len() - i,
    {
        if kinds[i] == PathKind::File {
            files = files + 1;
        } else {
            assert(kinds@[i as int] != PathKind::File);
        }
        i = i + 1;
    }
    if files == kinds.len() {
        Ok(Mode::CompareFiles)
    } else if files > 0 {
        Err(EngineError::Usage)
    } else {
        Ok(Mode::CompareTrees)
    }
}

/// The positional arguments, without the `--check` flag.
pub open spec fn positional(args: Seq<Seq<char>>) -> Seq<Seq<char>>
    decreases args.len(),
{
    if args.len() == 0 {
        Seq::empty()
    } else if args.last() == "--check"@ {
        positional(args.drop_last())
    } else {
        positional(args.drop_last()).push(args.last())
    }
}

/// Splits the arguments into the `--check` flag and the positional paths,
/// kept in order.
pub fn split_args(args: &Vec<String>) -> (r: (bool, Vec<String>))
    ensures
        r.0 == strings_view(args@).contains("--check"@),
        strings_view(r.1@) == positional(strings_view(args@)),
{
    let ghost av = strings_view(args@);
    let flag = String::from_str("--check");
    let mut check = false;
    let mut paths: Vec<String> = Vec::new();
    let mut i: usize = 0;
    while i < args.len()
        invariant
            i <= args@.len(),
            av == strings_view(args@),
            flag@ == "--check"@,
            check == av.take(i as int).contains("--check"@),
            strings_view(paths@) == positional(av.take(i as int)),
        decreases args.len() - i,
    {
        let ghost t = av.take(i + 1);
        assert(t.drop_last() =~= av.take(i as int));
        assert(t.last() == args@[i as int]@);
        if args[i] == flag {
            check = true;
            assert(t[i as int] == "--check"@);
        } else {
            let ghost before = paths@;
            paths.push(args[i].clone());
            assert(strings_view(paths@) =~= strings_view(before).push(args@[i as int]@));
        }
        proof {
            assert forall|x: Seq<char>| t.contains(x) <== (av.take(i as int).contains(x) || x == t.last()) by {
                if av.take(i as int).contains(x) {
                    let j = choose|j: int| 0 <= j < i && av.take(i as int)[j] == x;
                    assert(t[j] == x);
                }
                if x == t.last() {
                    assert(t[i as int] == x);
                }
            }
            if t.contains("--check"@) && !check {
                let j = choose|j: int| 0 <= j < t.len() && t[j] == "--check"@;
                if j < i {
                    assert(av.take(i as int)[j] == "--check"@);
                }
            }
        }
        i = i + 1;
    }
    assert(av.take(args@.len() as int) =~= av);
    (check, paths)
}

} // verus!
