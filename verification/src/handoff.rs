//! The handoff to the external lock renderer: deciding whether its argument
//! list asks it not to fork, and classifying its exit status.

use vstd::prelude::*;
use vstd::string::StrSliceExecFns;

verus! {

/// Whether an argument list starts with the long-option prefix `--`.
pub open spec fn starts_with_dashes(s: Seq<char>) -> bool {
    s.len() >= 2 && s[0] == '-' && s[1] == '-'
}

/// Whether an argument contains the letter `n`.
pub open spec fn contains_n(s: Seq<char>) -> bool {
    exists|i: int| 0 <= i < s.len() && s[i] == 'n'
}

/// Whether a single renderer argument asks it not to fork: the long option
/// `--nofork`, or a short-option cluster (anything not starting with `--`)
/// holding an `n`.
pub open spec fn asks_nofork(s: Seq<char>) -> bool {
    s == "--nofork"@ || (!starts_with_dashes(s) && contains_n(s))
}

/// Whether any argument bound for the renderer asks it not to fork.
pub fn forking(args: &Vec<String>) -> (r: bool)
    ensures
        r == exists|i: int| 0 <= i < args@.len() && asks_nofork(#[trigger] args@[i]@),
{
    let nofork: String = "--nofork".to_owned();
    let mut i: usize = 0;
    while i < args.len()
        invariant
            i <= args@.len(),
            nofork@ == "--nofork"@,
            forall|j: int| 0 <= j < i ==> !asks_nofork(#[trigger] args@[j]@),
        decreases args@.len() - i,
    {
        let s: &String = &args[i];
        if s.eq(&nofork) {
            proof {
                assert(asks_nofork(args@[i as int]@));
            }
            return true;
        }
        let a: &str = s.as_str();
        let n: usize = a.unicode_len();
        let dashed: bool = n >= 2 && a.get_char(0) == '-' && a.get_char(1) == '-';
        if !dashed {
            let mut j: usize = 0;
            while j < n
                invariant
                    j <= n,
                    n == a@.len(),
                    a@ == args@[i as int]@,
                    i < args@.len(),
                    !starts_with_dashes(args@[i as int]@),
                    forall|t: int| 0 <= t < j ==> a@[t] != 'n',
                decreases n - j,
            {
                if a.get_char(j) == 'n' {
                    proof {
                        assert(contains_n(args@[i as int]@));
                        assert(asks_nofork(args@[i as int]@));
                    }
                    return true;
                }
                j += 1;
            }
        }
        i += 1;
    }
    false
}

/// Why the renderer's run was not a clean exit.
#[derive(Clone, Copy, Debug, PartialEq, Eq, Structural)]
pub enum ExitFailure {
    /// The renderer exited with this nonzero code.
    Code(i32),
    /// The renderer was killed by this signal.
    Signal(i32),
}

/// Classify the renderer's exit: success is clean; otherwise the exit code
/// when there is one, else the killing signal. A process that did not exit
/// cleanly has one or the other.
pub fn status_to_result(success: bool, code: Option<i32>, signal: Option<i32>) -> (r: Result<(), ExitFailure>)
    requires
        !success ==> code is Some || signal is Some,
    ensures
        success ==> r == Result::<(), ExitFailure>::Ok(()),
        !success && code is Some ==> r == Result::<(), ExitFailure>::Err(ExitFailure::Code(code->0)),
        !success && code is None ==> r == Result::<(), ExitFailure>::Err(ExitFailure::Signal(signal->0)),
{
    if success {
        Ok(())
    } else {
        match code {
            Some(cd) => Err(ExitFailure::Code(cd)),
            None => match signal {
                Some(sg) => Err(ExitFailure::Signal(sg)),
                None => vstd::pervasive::unreached(),
            },
        }
    }
}

} // verus!
