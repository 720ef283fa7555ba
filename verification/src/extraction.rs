//! The search for a usable copy of the runtime, over all candidate directories.

use vstd::prelude::*;

use crate::attempt::{attempt_wf, next_attempt, try_extract, AttemptPhase};
use crate::names::{
    decimal, fixed_names, is_cache_key, sentinel_bytes, sentinel_name, temp_base_bytes,
    temp_base_name, tmp_name, tmp_name_spelled_out, write_tmp_name, CacheKey,
};
use crate::path::{names_view, CachePath};
use crate::protocol::{Action, EntryMeta, Place, Reply, Stamp};
use crate::sweep::SweepPhase;

verus! {

/// How far the search has come.
#[derive(Debug, Clone, Copy, PartialEq, Eq, Structural)]
pub enum Phase {
    /// The directories that the candidates follow from are being found.
    Locating,
    /// A candidate is being asked for a complete copy.
    Probing { base: usize },
    /// The runtime is being extracted under a candidate.
    Attempting { base: usize, attempt: AttemptPhase },
    /// The search is over: the copy under the candidate `found` is usable, or none is.
    Done { found: Option<usize> },
}

/// The entries of a directory at a moment, in nanoseconds from the epoch.
#[derive(Debug, PartialEq, Eq)]
pub struct Listing {
    pub names: Vec<Vec<u8>>,
    pub now: i128,
}

/// What the caller reports back of an action.
#[derive(Debug, PartialEq, Eq)]
pub enum Event {
    /// The directories that were found.
    Located { cache_dir: Option<CachePath>, temp_dir: CachePath },
    /// Whether an action succeeded, or what a probe found.
    Answered { yes: bool },
    /// The stamp that was taken.
    Stamped { stamp: Stamp },
    /// The entries of the directory, `None` where it could not be listed.
    Listed { listing: Option<Listing> },
    /// What is known of the entry, `None` where it could not be described.
    Described { meta: Option<EntryMeta> },
}

/// The contents of an [`Event`].
pub ghost enum EventView {
    Located { cache_dir: Option<Seq<Seq<u8>>>, temp_dir: Seq<Seq<u8>> },
    Answered { yes: bool },
    Stamped { stamp: Stamp },
    Listed { listing: Option<(Seq<Seq<u8>>, i128)> },
    Described { meta: Option<EntryMeta> },
}

impl View for Event {
    type V = EventView;

    open spec fn view(&self) -> EventView {
        match self {
            Event::Located { cache_dir, temp_dir } => EventView::Located {
                cache_dir: match cache_dir {
                    Some(dir) => Some(dir@),
                    None => None,
                },
                temp_dir: temp_dir@,
            },
            Event::Answered { yes } => EventView::Answered { yes: *yes },
            Event::Stamped { stamp } => EventView::Stamped { stamp: *stamp },
            Event::Listed { listing } => EventView::Listed {
                listing: match listing {
                    Some(listing) => Some((names_view(listing.names@), listing.now)),
                    None => None,
                },
            },
            Event::Described { meta } => EventView::Described { meta: *meta },
        }
    }
}

/// The candidate directories, in order of priority: the user's cache directory,
/// where there is one, then `nub` under the system's temporary directory, unless
/// that is the same.
pub open spec fn candidates(cache_dir: Option<Seq<Seq<u8>>>, temp_dir: Seq<Seq<u8>>) -> Seq<
    Seq<Seq<u8>>,
> {
    let tmp = temp_dir.push(temp_base_name());
    match cache_dir {
        Some(dir) => if dir == tmp {
            seq![dir]
        } else {
            seq![dir, tmp]
        },
        None => seq![tmp],
    }
}

/// The contents of a list of paths.
pub open spec fn paths_view(paths: Seq<CachePath>) -> Seq<Seq<Seq<u8>>> {
    paths.map_values(|path: CachePath| path@)
}

/// Lists the candidate directories in order of priority, without listing one twice.
pub fn base_candidates(cache_dir: Option<CachePath>, temp_dir: &CachePath) -> (out: Vec<CachePath>)
    ensures
        paths_view(out@) == candidates(
            match cache_dir {
                Some(dir) => Some(dir@),
                None => None,
            },
            temp_dir@,
        ),
        1 <= out@.len() <= 2,
        // The cache directory comes first, where there is one.
        cache_dir matches Some(dir) ==> out@[0]@ == dir@,
        // `nub` under the temporary directory comes last.
        out@.last()@ == temp_dir@.push(seq![0x6eu8, 0x75, 0x62]),
        // There is no third, and no second that is the first again.
        out@.len() == 2 <==> cache_dir is Some && cache_dir->0@ != temp_dir@.push(
            seq![0x6eu8, 0x75, 0x62],
        ),
{
    proof {
        fixed_names();
    }
    let mut out: Vec<CachePath> = Vec::new();
    let tmp = temp_dir.join(&temp_base_bytes());
    match cache_dir {
        Some(dir) => {
            let same = dir.same(&tmp);
            out.push(dir);
            if !same {
                out.push(tmp);
                assert(paths_view(out@) =~= seq![dir@, tmp@]);
            } else {
                assert(paths_view(out@) =~= seq![dir@]);
            }
        },
        None => {
            out.push(tmp);
            assert(paths_view(out@) =~= seq![tmp@]);
        },
    }
    out
}

/// The contents of an [`Extraction`].
pub ghost struct ExtractionView {
    /// The version that is looked for.
    pub key: Seq<u8>,
    /// The candidate directories.
    pub bases: Seq<Seq<Seq<u8>>>,
    /// The last listing of a candidate directory.
    pub names: Seq<Seq<u8>>,
    pub phase: Phase,
}

impl ExtractionView {
    /// Whether the search stands where it can.
    pub open spec fn wf(self) -> bool {
        &&& is_cache_key(self.key)
        &&& self.names.len() <= usize::MAX
        &&& self.bases.len() <= usize::MAX
        &&& match self.phase {
            Phase::Locating => true,
            Phase::Probing { base } => base < self.bases.len(),
            Phase::Attempting { base, attempt } => base < self.bases.len() && !(
            attempt is Over) && attempt_wf(self.key, self.names, attempt),
            Phase::Done { found } => found matches Some(base) ==> base < self.bases.len(),
        }
    }
}

/// The search for a usable copy of one version of the runtime: the memory of the
/// process of what it has found, and of how far it has come until then.
#[derive(Debug, PartialEq, Eq)]
pub struct Extraction {
    key: CacheKey,
    bases: Vec<CachePath>,
    names: Vec<Vec<u8>>,
    phase: Phase,
}

impl View for Extraction {
    type V = ExtractionView;

    closed spec fn view(&self) -> ExtractionView {
        ExtractionView {
            key: self.key@,
            bases: paths_view(self.bases@),
            names: names_view(self.names@),
            phase: self.phase,
        }
    }
}

/// A search that has not begun.
pub open spec fn fresh(key: Seq<u8>) -> ExtractionView {
    ExtractionView { key, bases: Seq::empty(), names: Seq::empty(), phase: Phase::Locating }
}

/// The reply that an event carries for an attempt.
pub open spec fn reply_of(event: EventView) -> Option<Reply> {
    match event {
        EventView::Located { .. } => None,
        EventView::Answered { yes } => Some(Reply::Answer { yes }),
        EventView::Stamped { stamp } => Some(Reply::Stamped { stamp }),
        EventView::Listed { listing: Some((_, now)) } => Some(Reply::Listed { now: Some(now) }),
        EventView::Listed { listing: None } => Some(Reply::Listed { now: None }),
        EventView::Described { meta } => Some(Reply::Described { meta }),
    }
}

/// The search after an attempt under `base` has come to `attempt`.
pub open spec fn after_attempt(count: nat, base: usize, attempt: AttemptPhase) -> Phase {
    match attempt {
        AttemptPhase::Over { usable: true } => Phase::Done { found: Some(base) },
        AttemptPhase::Over { usable: false } => if base + 1 < count {
            Phase::Attempting { base: (base + 1) as usize, attempt: AttemptPhase::CreatingBase }
        } else {
            Phase::Done { found: None }
        },
        _ => Phase::Attempting { base, attempt },
    }
}

/// The search after `event`. An event that does not answer what the search asked
/// leaves it where it is.
pub open spec fn next_extraction(v: ExtractionView, event: EventView) -> ExtractionView {
    match (v.phase, event) {
        (Phase::Locating, EventView::Located { cache_dir, temp_dir }) => ExtractionView {
            bases: candidates(cache_dir, temp_dir),
            phase: Phase::Probing { base: 0 },
            ..v
        },
        (Phase::Probing { base }, EventView::Answered { yes }) => ExtractionView {
            phase: if yes {
                Phase::Done { found: Some(base) }
            } else if base + 1 < v.bases.len() {
                Phase::Probing { base: (base + 1) as usize }
            } else {
                Phase::Attempting { base: 0, attempt: AttemptPhase::CreatingBase }
            },
            ..v
        },
        (Phase::Attempting { base, attempt }, _) => match reply_of(event) {
            Some(reply) => {
                let names = listed_names(v, event);
                let next = next_attempt(v.key, names, attempt, reply);
                ExtractionView { names, phase: after_attempt(v.bases.len(), base, next), ..v }
            },
            None => v,
        },
        _ => v,
    }
}

/// The listing that the search goes by after `event`.
pub open spec fn listed_names(v: ExtractionView, event: EventView) -> Seq<Seq<u8>> {
    match (v.phase, event) {
        (
            Phase::Attempting { attempt: AttemptPhase::Sweeping { sweep: SweepPhase::Listing }, .. },
            EventView::Listed { listing: Some((names, _)) },
        ) => names,
        _ => v.names,
    }
}

impl Extraction {
    #[verifier::type_invariant]
    spec fn inv(self) -> bool {
        self@.wf()
    }

    /// Begins the search for version `key`.
    pub fn new(key: CacheKey) -> (run: Extraction)
        ensures
            run@ == fresh(key@),
            run@.wf(),
            run@.key == key@,
            run@.bases.len() == 0,
            run@.names.len() == 0,
            run@.phase == Phase::Locating,
    {
        // A key is always the name of a version.
        let _name = key.as_name();
        let run = Extraction { key, bases: Vec::new(), names: Vec::new(), phase: Phase::Locating };
        assert(run@.bases =~= Seq::empty());
        assert(run@.names =~= Seq::empty());
        run
    }
}

/// Advances the search by what the caller reports: every candidate is first asked
/// for a complete copy, and only where none has one is the runtime extracted, under
/// the first candidate that takes it.
pub fn extract_once(run: &mut Extraction, event: Event)
    ensures
        final(run)@ == next_extraction(old(run)@, event@),
        final(run)@.wf(),
        final(run)@.key == old(run)@.key,
{
    proof {
        use_type_invariant(&*run);
    }
    match (run.phase, event) {
        (Phase::Locating, Event::Located { cache_dir, temp_dir }) => {
            let bases = base_candidates(cache_dir, &temp_dir);
            run.bases = bases;
            run.phase = Phase::Probing { base: 0 };
        },
        (Phase::Probing { base }, Event::Answered { yes }) => {
            run.phase = if yes {
                Phase::Done { found: Some(base) }
            } else if base + 1 < run.bases.len() {
                Phase::Probing { base: base + 1 }
            } else {
                Phase::Attempting { base: 0, attempt: AttemptPhase::CreatingBase }
            };
        },
        (Phase::Attempting { base, attempt }, Event::Answered { yes }) => {
            resume(run, base, attempt, Reply::Answer { yes });
        },
        (Phase::Attempting { base, attempt }, Event::Stamped { stamp }) => {
            resume(run, base, attempt, Reply::Stamped { stamp });
        },
        (Phase::Attempting { base, attempt }, Event::Described { meta }) => {
            resume(run, base, attempt, Reply::Described { meta });
        },
        (Phase::Attempting { base, attempt }, Event::Listed { listing: None }) => {
            resume(run, base, attempt, Reply::Listed { now: None });
        },
        (Phase::Attempting { base, attempt }, Event::Listed { listing: Some(listing) }) => {
            let now: i128 = listing.now;
            assert(names_view(listing.names@).len() == listing.names.len());
            if let AttemptPhase::Sweeping { sweep: SweepPhase::Listing } = attempt {
                run.names = listing.names;
            }
            resume(run, base, attempt, Reply::Listed { now: Some(now) });
        },
        _ => {},
    }
}

/// Hands a reply to the attempt under way.
fn resume(run: &mut Extraction, base: usize, attempt: AttemptPhase, reply: Reply)
    requires
        old(run)@.wf(),
        old(run)@.phase == (Phase::Attempting { base, attempt }),
    ensures
        final(run)@ == (ExtractionView {
            phase: after_attempt(
                old(run)@.bases.len(),
                base,
                next_attempt(old(run)@.key, old(run)@.names, attempt, reply),
            ),
            ..old(run)@
        }),
        final(run)@.wf(),
{
    let next = try_extract(&run.key, &run.names, attempt, reply);
    run.phase = match next {
        AttemptPhase::Over { usable: true } => Phase::Done { found: Some(base) },
        AttemptPhase::Over { usable: false } => if base + 1 < run.bases.len() {
            Phase::Attempting { base: base + 1, attempt: AttemptPhase::CreatingBase }
        } else {
            Phase::Done { found: None }
        },
        _ => Phase::Attempting { base, attempt: next },
    };
}

/// What an attempt under `base` asks for, `None` once it is over.
pub open spec fn attempt_action(base: usize, attempt: AttemptPhase) -> Option<Action> {
    let home = Place::Base { base };
    let target = Place::Target { base };
    match attempt {
        AttemptPhase::CreatingBase => Some(Action::CreateDirs { place: home }),
        AttemptPhase::Stamping => Some(Action::TakeStamp),
        AttemptPhase::Clearing { tmp } => Some(
            Action::RemoveTree { place: Place::Tmp { base, tmp } },
        ),
        AttemptPhase::CreatingTmp { tmp } => Some(
            Action::CreateDirs { place: Place::Tmp { base, tmp } },
        ),
        AttemptPhase::Unpacking { tmp } => Some(Action::Unpack { place: Place::Tmp { base, tmp } }),
        AttemptPhase::Discarding { tmp } => Some(
            Action::RemoveTree { place: Place::Tmp { base, tmp } },
        ),
        AttemptPhase::Publishing { tmp } => Some(
            Action::Rename { from: Place::Tmp { base, tmp }, to: target },
        ),
        AttemptPhase::Sweeping { sweep: SweepPhase::Listing } => Some(Action::List { place: home }),
        AttemptPhase::Sweeping { sweep: SweepPhase::Inspecting { at, .. } } => Some(
            Action::Describe { place: Place::Sibling { base, at } },
        ),
        AttemptPhase::Sweeping { sweep: SweepPhase::Evicting { at, .. } } => Some(
            Action::RemoveTree { place: Place::Sibling { base, at } },
        ),
        AttemptPhase::Sweeping { sweep: SweepPhase::Swept } => None,
        AttemptPhase::Withdrawing { tmp } => Some(
            Action::RemoveTree { place: Place::Tmp { base, tmp } },
        ),
        AttemptPhase::Adopting => Some(Action::ProbeFile { place: Place::Sentinel { base } }),
        AttemptPhase::Over { .. } => None,
    }
}

/// What the search asks for, `None` once it is over.
pub open spec fn pending(v: ExtractionView) -> Option<Action> {
    match v.phase {
        Phase::Locating => Some(Action::Locate),
        Phase::Probing { base } => Some(Action::ProbeFile { place: Place::Sentinel { base } }),
        Phase::Attempting { base, attempt } => attempt_action(base, attempt),
        Phase::Done { .. } => None,
    }
}

/// The candidate that a place lies in.
pub open spec fn place_base(place: Place) -> usize {
    match place {
        Place::Base { base } => base,
        Place::Target { base } => base,
        Place::Sentinel { base } => base,
        Place::Tmp { base, .. } => base,
        Place::Sibling { base, .. } => base,
    }
}

/// The path that a place stands for, `None` where there is no such candidate or
/// entry.
pub open spec fn place_path(v: ExtractionView, place: Place) -> Option<Seq<Seq<u8>>> {
    let base = place_base(place);
    if base >= v.bases.len() {
        None
    } else {
        let home = v.bases[base as int];
        match place {
            Place::Base { .. } => Some(home),
            Place::Target { .. } => Some(home.push(v.key)),
            Place::Sentinel { .. } => Some(home.push(v.key).push(sentinel_name())),
            Place::Tmp { tmp, .. } => Some(home.push(tmp_name(v.key, tmp.pid, tmp.suffix))),
            Place::Sibling { at, .. } => if at < v.names.len() {
                Some(home.push(v.names[at as int]))
            } else {
                None
            },
        }
    }
}

/// What [`ensure_runtime`] needs or has.
#[derive(Debug, PartialEq, Eq)]
pub enum Demand {
    /// This has to be done first, and its outcome handed to [`extract_once`].
    Perform { action: Action },
    /// The search is over: the directory that holds the runtime, or `None` where there
    /// is none.
    Ready { runtime: Option<CachePath> },
}

/// The directory that holds the runtime, once the search for it is over, and until
/// then what has to be done next.
///
/// From then on the answer costs a copy of the path and no work at all. `None` is
/// the answer only where no candidate takes the runtime: each one either cannot be
/// written, or the runtime does not unpack there, or the rename is refused and no
/// complete copy is there.
pub fn ensure_runtime(run: &Extraction) -> (demand: Demand)
    ensures
        match demand {
            Demand::Perform { action } => pending(run@) == Some(action),
            Demand::Ready { runtime } => {
                &&& run@.phase is Done
                &&& match run@.phase->found {
                    Some(base) => {
                        &&& runtime is Some
                        &&& place_path(run@, Place::Target { base }) == Some(runtime->0@)
                        &&& base < run@.bases.len()
                        &&& runtime->0@ == run@.bases[base as int].push(run@.key)
                    },
                    None => runtime is None,
                }
            },
        },
        run@.phase is Done <==> demand is Ready,
{
    proof {
        use_type_invariant(run);
    }
    match run.phase {
        Phase::Locating => Demand::Perform { action: Action::Locate },
        Phase::Probing { base } => Demand::Perform {
            action: Action::ProbeFile { place: Place::Sentinel { base } },
        },
        Phase::Attempting { base, attempt } => Demand::Perform {
            action: next_action(base, attempt),
        },
        Phase::Done { found } => Demand::Ready {
            runtime: match found {
                Some(base) => run.path_of(Place::Target { base }),
                None => None,
            },
        },
    }
}

/// What an attempt that is not over asks for.
fn next_action(base: usize, attempt: AttemptPhase) -> (action: Action)
    requires
        attempt_action(base, attempt) is Some,
    ensures
        attempt_action(base, attempt) == Some(action),
{
    let home = Place::Base { base };
    let target = Place::Target { base };
    match attempt {
        AttemptPhase::CreatingBase => Action::CreateDirs { place: home },
        AttemptPhase::Stamping => Action::TakeStamp,
        AttemptPhase::Clearing { tmp } => Action::RemoveTree { place: Place::Tmp { base, tmp } },
        AttemptPhase::CreatingTmp { tmp } => Action::CreateDirs { place: Place::Tmp { base, tmp } },
        AttemptPhase::Unpacking { tmp } => Action::Unpack { place: Place::Tmp { base, tmp } },
        AttemptPhase::Discarding { tmp } => Action::RemoveTree { place: Place::Tmp { base, tmp } },
        AttemptPhase::Publishing { tmp } => Action::Rename {
            from: Place::Tmp { base, tmp },
            to: target,
        },
        AttemptPhase::Sweeping { sweep } => match sweep {
            SweepPhase::Inspecting { at, .. } => Action::Describe {
                place: Place::Sibling { base, at },
            },
            SweepPhase::Evicting { at, .. } => Action::RemoveTree {
                place: Place::Sibling { base, at },
            },
            _ => Action::List { place: home },
        },
        AttemptPhase::Withdrawing { tmp } => Action::RemoveTree { place: Place::Tmp { base, tmp } },
        _ => Action::ProbeFile { place: Place::Sentinel { base } },
    }
}

impl Extraction {
    /// The path that a place stands for, `None` where there is no such candidate or
    /// entry.
    pub fn path_of(&self, place: Place) -> (path: Option<CachePath>)
        ensures
            match path {
                Some(path) => place_path(self@, place) == Some(path@),
                None => place_path(self@, place) is None,
            },
            place matches Place::Base { base } ==> if base < self@.bases.len() {
                path is Some && path->0@ == self@.bases[base as int]
            } else {
                path is None
            },
            place matches Place::Target { base } ==> if base < self@.bases.len() {
                path is Some && path->0@ == self@.bases[base as int].push(self@.key)
            } else {
                path is None
            },
            place matches Place::Sentinel { base } ==> if base < self@.bases.len() {
                path is Some && path->0@ == self@.bases[base as int].push(self@.key).push(
                    seq![0x70u8, 0x72, 0x65, 0x6c, 0x6f, 0x61, 0x64, 0x2e, 0x6d, 0x6a, 0x73],
                )
            } else {
                path is None
            },
            place matches Place::Tmp { base, tmp } ==> if base < self@.bases.len() {
                path is Some && path->0@ == self@.bases[base as int].push(
                    seq![0x2eu8] + self@.key + seq![0x2eu8] + decimal(tmp.pid as nat)
                        + seq![0x2eu8] + decimal(tmp.suffix as nat) + seq![
                        0x2eu8, 0x74, 0x6d, 0x70,
                    ],
                )
            } else {
                path is None
            },
            place matches Place::Sibling { base, at } ==> if base < self@.bases.len() && at
                < self@.names.len() {
                path is Some && path->0@ == self@.bases[base as int].push(self@.names[at as int])
            } else {
                path is None
            },
    {
        proof {
            fixed_names();
            if let Place::Tmp { tmp, .. } = place {
                tmp_name_spelled_out(self@.key, tmp.pid, tmp.suffix);
            }
        }
        let base: usize = match place {
            Place::Base { base } => base,
            Place::Target { base } => base,
            Place::Sentinel { base } => base,
            Place::Tmp { base, .. } => base,
            Place::Sibling { base, .. } => base,
        };
        if base >= self.bases.len() {
            return None;
        }
        let home = &self.bases[base];
        assert(self@.bases[base as int] == home@);
        match place {
            Place::Base { .. } => Some(home.clone()),
            Place::Target { .. } => Some(home.join(self.key.as_name())),
            Place::Sentinel { .. } => Some(
                home.join(self.key.as_name()).join(&sentinel_bytes()),
            ),
            Place::Tmp { tmp, .. } => Some(
                home.join(&write_tmp_name(self.key.as_name(), tmp.pid, tmp.suffix)),
            ),
            Place::Sibling { at, .. } => if at < self.names.len() {
                assert(self@.names[at as int] == self.names@[at as int]@);
                Some(home.join(&self.names[at]))
            } else {
                None
            },
        }
    }
}

} // verus!
