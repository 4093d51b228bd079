//! Pinning the measurement thread to one CPU core.
use vstd::prelude::*;

verus! {

/// Number of cores a Linux CPU set can name (glibc's `CPU_SETSIZE`); the
/// CPU-set indexing panics at or beyond it.
pub const MAX_CORES: usize = 1024;

/// The cores on which the calling thread may run, as the system listed them
/// through `core_affinity::get_core_ids` when the list was taken.
///
/// Values of this type are made only by `list_cores`: the field is private
/// and nothing else in this module builds one. So every id it holds is one
/// that `core_affinity` itself listed for the platform it runs on.
pub struct CoreList {
    ids: Vec<usize>,
}

impl View for CoreList {
    type V = Seq<usize>;

    closed spec fn view(&self) -> Seq<usize> {
        self.ids@
    }
}

impl CoreList {
    /// Whether `core` is among the listed cores.
    pub fn contains(&self, core: usize) -> (r: bool)
        ensures
            r == self@.contains(core),
    {
        let mut i: usize = 0;
        while i < self.ids.len()
            invariant
                i <= self.ids@.len(),
                forall|k: int| 0 <= k < i ==> self.ids@[k] != core,
            decreases self.ids@.len() - i,
        {
            if self.ids[i] == core {
                return true;
            }
            i = i + 1;
        }
        false
    }
}

/// Calls `core_affinity::get_core_ids`, keeping the number of each listed
/// core.
///
/// The list depends on the machine and on the thread's current affinity, so
/// nothing is stated of it. On every platform the crate supports, it lists
/// only cores that its `set_for_current` can name without panicking: on Linux
/// and Android the members of the thread's CPU set below `CPU_SETSIZE`, on
/// FreeBSD likewise, on Windows the bits of a 64-bit mask, on macOS and
/// NetBSD `0..num_cpus`; elsewhere it gives `None`.
#[verifier::external_body]
fn list_cores() -> (r: Option<CoreList>) {
    core_affinity::get_core_ids().map(|ids| CoreList { ids: ids.iter().map(|c| c.id).collect() })
}

/// Calls `core_affinity::set_for_current` with the core `core`.
///
/// The result depends on the machine and its scheduler, so nothing is
/// stated of it. `requires` admits only a core from a list that
/// `get_core_ids` gave (`listed` is that list; the call does not read it),
/// which `set_for_current` can name on every platform without panicking.
#[verifier::external_body]
fn pin_listed_core(listed: &CoreList, core: usize) -> (pinned: bool)
    requires
        listed@.contains(core),
{
    core_affinity::set_for_current(core_affinity::CoreId { id: core })
}

/// Pinning to `core` failed.
#[derive(Clone, Copy, Debug, PartialEq, Eq, Structural)]
pub struct AffinityError {
    pub core: usize,
}

/// The result of pinning to `core` given whether the system call succeeded.
pub fn affinity_result(core: usize, pinned: bool) -> (r: Result<(), AffinityError>)
    ensures
        r == if pinned {
            Ok::<(), AffinityError>(())
        } else {
            Err(AffinityError { core })
        },
{
    if pinned {
        Ok(())
    } else {
        Err(AffinityError { core })
    }
}

/// The result of pinning to `core` given the cores the thread may run on
/// (`None` when the system could not list them) and, for a listed core,
/// whether the pin succeeded: the result is `Ok` exactly when the core is
/// listed and the pin succeeded, and an error names the core.
pub fn pin_result(core: usize, listed: Option<&CoreList>, pinned: bool) -> (r: Result<
    (),
    AffinityError,
>)
    ensures
        r == match listed {
            Some(l) => if l@.contains(core) {
                if pinned {
                    Ok::<(), AffinityError>(())
                } else {
                    Err(AffinityError { core })
                }
            } else {
                Err(AffinityError { core })
            },
            None => Err(AffinityError { core }),
        },
        r is Ok <==> (listed matches Some(l) && l@.contains(core) && pinned),
        r matches Err(e) ==> e.core == core,
{
    match listed {
        Some(l) => {
            if l.contains(core) {
                affinity_result(core, pinned)
            } else {
                Err(AffinityError { core })
            }
        },
        None => Err(AffinityError { core }),
    }
}

/// Pins the calling thread to `core`; on failure the error names the core.
/// The core must be one the system lists for the thread (else the pin is
/// refused without a system call); whether a listed core is pinned is up to
/// the system.
pub fn set_affinity(core: usize) -> (r: Result<(), AffinityError>)
    requires
        core < MAX_CORES,
    ensures
        r matches Err(e) ==> e.core == core,
{
    match list_cores() {
        Some(listed) => {
            if listed.contains(core) {
                let pinned = pin_listed_core(&listed, core);
                pin_result(core, Some(&listed), pinned)
            } else {
                pin_result(core, Some(&listed), false)
            }
        },
        None => pin_result(core, None, false),
    }
}

} // verus!
