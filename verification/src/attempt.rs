//! One attempt to publish the runtime under one candidate directory.

use vstd::prelude::*;

use crate::names::CacheKey;
use crate::path::names_view;
use crate::protocol::{Reply, Stamp, Tmp};
use crate::suffix::{rand_suffix, suffix_of};
use crate::sweep::{gc_stale, next_sweep, sweep_wf, SweepPhase};

verus! {

/// How far an attempt has come.
#[derive(Debug, Clone, Copy, PartialEq, Eq, Structural)]
pub enum AttemptPhase {
    /// The candidate directory is being created, which tells whether it can be
    /// written.
    CreatingBase,
    /// A stamp is being taken for the directory to build in.
    Stamping,
    /// A leftover of that name is being cleared away.
    Clearing { tmp: Tmp },
    /// The directory to build in is being created.
    CreatingTmp { tmp: Tmp },
    /// The runtime is being unpacked into it.
    Unpacking { tmp: Tmp },
    /// The runtime did not unpack, and what there is of it is being removed.
    Discarding { tmp: Tmp },
    /// The finished directory is being renamed onto the published one.
    Publishing { tmp: Tmp },
    /// The directory is published, and old versions are being swept away.
    Sweeping { sweep: SweepPhase },
    /// The rename failed, and the finished directory is being removed.
    Withdrawing { tmp: Tmp },
    /// The published directory is being asked for the file that marks it as complete:
    /// another extractor may have published it, or it may be a leftover.
    Adopting,
    /// The attempt is over. `usable` tells whether a complete published directory is
    /// there, this attempt's or another's.
    Over { usable: bool },
}

/// The attempt after `reply`. A reply that does not answer what the attempt asked
/// leaves it where it is.
pub open spec fn next_attempt(
    key: Seq<u8>,
    names: Seq<Seq<u8>>,
    phase: AttemptPhase,
    reply: Reply,
) -> AttemptPhase {
    match (phase, reply) {
        (AttemptPhase::CreatingBase, Reply::Answer { yes }) => if yes {
            AttemptPhase::Stamping
        } else {
            AttemptPhase::Over { usable: false }
        },
        (AttemptPhase::Stamping, Reply::Stamped { stamp }) => AttemptPhase::Clearing {
            tmp: Tmp { pid: stamp.pid, suffix: suffix_of(stamp.clock, stamp.tick) },
        },
        (AttemptPhase::Clearing { tmp }, Reply::Answer { .. }) => AttemptPhase::CreatingTmp { tmp },
        (AttemptPhase::CreatingTmp { tmp }, Reply::Answer { yes }) => if yes {
            AttemptPhase::Unpacking { tmp }
        } else {
            AttemptPhase::Over { usable: false }
        },
        (AttemptPhase::Unpacking { tmp }, Reply::Answer { yes }) => if yes {
            AttemptPhase::Publishing { tmp }
        } else {
            AttemptPhase::Discarding { tmp }
        },
        (AttemptPhase::Discarding { .. }, Reply::Answer { .. }) => AttemptPhase::Over {
            usable: false,
        },
        (AttemptPhase::Publishing { tmp }, Reply::Answer { yes }) => if yes {
            AttemptPhase::Sweeping { sweep: SweepPhase::Listing }
        } else {
            AttemptPhase::Withdrawing { tmp }
        },
        (AttemptPhase::Sweeping { sweep }, _) => match next_sweep(key, names, sweep, reply) {
            SweepPhase::Swept => AttemptPhase::Over { usable: true },
            sweep => AttemptPhase::Sweeping { sweep },
        },
        (AttemptPhase::Withdrawing { .. }, Reply::Answer { .. }) => AttemptPhase::Adopting,
        (AttemptPhase::Adopting, Reply::Answer { yes }) => AttemptPhase::Over { usable: yes },
        _ => phase,
    }
}

/// Whether a sweep that the attempt has come to stands where it can.
pub open spec fn attempt_wf(key: Seq<u8>, names: Seq<Seq<u8>>, phase: AttemptPhase) -> bool {
    match phase {
        AttemptPhase::Sweeping { sweep } => sweep != SweepPhase::Swept && sweep_wf(
            key,
            names,
            sweep,
        ),
        _ => true,
    }
}

/// Advances an attempt to publish version `key` under one candidate directory: the
/// runtime is built in a directory of its own, which is then renamed onto the
/// published one. `names` is the listing of the candidate directory, once the
/// attempt has come to the sweep.
pub fn try_extract(
    key: &CacheKey,
    names: &Vec<Vec<u8>>,
    phase: AttemptPhase,
    reply: Reply,
) -> (next: AttemptPhase)
    ensures
        next == next_attempt(key@, names_view(names@), phase, reply),
        attempt_wf(key@, names_view(names@), phase) ==> attempt_wf(
            key@,
            names_view(names@),
            next,
        ),
{
    match (phase, reply) {
        (AttemptPhase::CreatingBase, Reply::Answer { yes }) => if yes {
            AttemptPhase::Stamping
        } else {
            AttemptPhase::Over { usable: false }
        },
        (AttemptPhase::Stamping, Reply::Stamped { stamp }) => AttemptPhase::Clearing {
            tmp: Tmp { pid: stamp.pid, suffix: rand_suffix(stamp.clock, stamp.tick) },
        },
        (AttemptPhase::Clearing { tmp }, Reply::Answer { .. }) => AttemptPhase::CreatingTmp { tmp },
        (AttemptPhase::CreatingTmp { tmp }, Reply::Answer { yes }) => if yes {
            AttemptPhase::Unpacking { tmp }
        } else {
            AttemptPhase::Over { usable: false }
        },
        (AttemptPhase::Unpacking { tmp }, Reply::Answer { yes }) => if yes {
            AttemptPhase::Publishing { tmp }
        } else {
            AttemptPhase::Discarding { tmp }
        },
        (AttemptPhase::Discarding { .. }, Reply::Answer { .. }) => AttemptPhase::Over {
            usable: false,
        },
        (AttemptPhase::Publishing { tmp }, Reply::Answer { yes }) => if yes {
            AttemptPhase::Sweeping { sweep: SweepPhase::Listing }
        } else {
            AttemptPhase::Withdrawing { tmp }
        },
        (AttemptPhase::Sweeping { sweep }, _) => match gc_stale(key, names, sweep, reply) {
            SweepPhase::Swept => AttemptPhase::Over { usable: true },
            sweep => AttemptPhase::Sweeping { sweep },
        },
        (AttemptPhase::Withdrawing { .. }, Reply::Answer { .. }) => AttemptPhase::Adopting,
        (AttemptPhase::Adopting, Reply::Answer { yes }) => AttemptPhase::Over { usable: yes },
        _ => phase,
    }
}

/// An attempt that is over stays over, and one that is not takes no reply but to what it
/// asked.
pub proof fn attempt_waits_for_its_reply(
    key: Seq<u8>,
    names: Seq<Seq<u8>>,
    phase: AttemptPhase,
    reply: Reply,
)
    ensures
        ({
            let next = next_attempt(key, names, phase, reply);
            &&& phase is Over ==> next == phase
            &&& phase is Stamping && !(reply is Stamped) ==> next == phase
            &&& !(phase is Stamping || phase is Sweeping) && !(reply is Answer) ==> next == phase
            &&& (phase matches AttemptPhase::Sweeping { sweep: SweepPhase::Listing }) && !(
            reply is Listed) ==> next == phase
            &&& (phase matches AttemptPhase::Sweeping { sweep: SweepPhase::Inspecting { .. } })
                && !(reply is Described) ==> next == phase
            &&& (phase matches AttemptPhase::Sweeping { sweep: SweepPhase::Evicting { .. } }) && !(
            reply is Answer) ==> next == phase
        }),
{
}

/// An attempt comes to a usable directory in two ways only, and to none in four. It
/// builds in the directory that it took, and in no other, until it has renamed or removed
/// it.
pub proof fn attempt_goes_its_way(
    key: Seq<u8>,
    names: Seq<Seq<u8>>,
    tmp: Tmp,
    stamp: Stamp,
    any: bool,
)
    ensures
        ({
            let yes = Reply::Answer { yes: true };
            let no = Reply::Answer { yes: false };
            let either = Reply::Answer { yes: any };
            let taken = Tmp { pid: stamp.pid, suffix: suffix_of(stamp.clock, stamp.tick) };
            let from = |phase: AttemptPhase, reply: Reply| next_attempt(key, names, phase, reply);
            &&& from(AttemptPhase::CreatingBase, yes) == AttemptPhase::Stamping
            &&& from(AttemptPhase::CreatingBase, no) == (AttemptPhase::Over { usable: false })
            &&& from(AttemptPhase::Stamping, Reply::Stamped { stamp }) == (AttemptPhase::Clearing {
                tmp: taken,
            })
            &&& from(AttemptPhase::Clearing { tmp }, either) == (AttemptPhase::CreatingTmp { tmp })
            &&& from(AttemptPhase::CreatingTmp { tmp }, yes) == (AttemptPhase::Unpacking { tmp })
            &&& from(AttemptPhase::CreatingTmp { tmp }, no) == (AttemptPhase::Over {
                usable: false,
            })
            &&& from(AttemptPhase::Unpacking { tmp }, yes) == (AttemptPhase::Publishing { tmp })
            &&& from(AttemptPhase::Unpacking { tmp }, no) == (AttemptPhase::Discarding { tmp })
            &&& from(AttemptPhase::Discarding { tmp }, either) == (AttemptPhase::Over {
                usable: false,
            })
            &&& from(AttemptPhase::Publishing { tmp }, yes) == (AttemptPhase::Sweeping {
                sweep: SweepPhase::Listing,
            })
            &&& from(AttemptPhase::Publishing { tmp }, no) == (AttemptPhase::Withdrawing { tmp })
            &&& from(AttemptPhase::Withdrawing { tmp }, either) == AttemptPhase::Adopting
            &&& from(AttemptPhase::Adopting, either) == (AttemptPhase::Over { usable: any })
        }),
{
}

/// An attempt that has published goes on as its sweep does, and is over with a usable
/// directory as soon as the sweep is over, whatever became of it.
pub proof fn attempt_follows_its_sweep(
    key: Seq<u8>,
    names: Seq<Seq<u8>>,
    sweep: SweepPhase,
    reply: Reply,
)
    ensures
        ({
            let next = next_attempt(key, names, AttemptPhase::Sweeping { sweep }, reply);
            let swept = next_sweep(key, names, sweep, reply);
            if swept is Swept {
                next == (AttemptPhase::Over { usable: true })
            } else {
                next == (AttemptPhase::Sweeping { sweep: swept })
            }
        }),
{
}

} // verus!
