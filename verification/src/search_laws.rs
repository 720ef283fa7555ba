//! What the search promises as a whole, for every way the outside can answer.

use vstd::prelude::*;

use crate::attempt::AttemptPhase;
use crate::extraction::{
    after_attempt, candidates, fresh, listed_names, next_extraction, pending, place_base,
    place_path, EventView, ExtractionView, Phase,
};
use crate::names::{
    is_cache_key, temp_base_name, tmp_name, tmp_name_is_no_version, tmp_names_distinct,
};
use crate::protocol::{Action, EntryMeta, Place, Stamp, Tmp};
use crate::suffix::suffix_of;
use crate::sweep::{is_sibling, is_stale, lemma_next_sibling, sweep_rank, SweepPhase};

verus! {

/// Whether an event is of the kind that answers an action.
pub open spec fn answers(action: Action, event: EventView) -> bool {
    match action {
        Action::Locate => event is Located,
        Action::TakeStamp => event is Stamped,
        Action::List { .. } => event is Listed,
        Action::Describe { .. } => event is Described,
        _ => event is Answered,
    }
}

/// Whether the listing that an event may carry fits into memory.
pub open spec fn fits(event: EventView) -> bool {
    event matches EventView::Listed { listing: Some((names, _)) } ==> names.len() <= usize::MAX
}

/// The paths that an action needs.
pub open spec fn places(action: Action) -> Seq<Place> {
    match action {
        Action::Locate => seq![],
        Action::TakeStamp => seq![],
        Action::ProbeFile { place } => seq![place],
        Action::CreateDirs { place } => seq![place],
        Action::RemoveTree { place } => seq![place],
        Action::Unpack { place } => seq![place],
        Action::Rename { from, to } => seq![from, to],
        Action::List { place } => seq![place],
        Action::Describe { place } => seq![place],
    }
}

/// The work is done at most once: once the search is over it asks for nothing, and
/// nothing that is reported to it changes its answer.
pub proof fn answer_is_final(v: ExtractionView, event: EventView)
    requires
        v.phase is Done,
    ensures
        pending(v) is None,
        next_extraction(v, event) == v,
{
}

/// Every state that the search can come to is well formed.
pub proof fn search_stays_wf(v: ExtractionView, event: EventView)
    requires
        v.wf(),
        fits(event),
    ensures
        next_extraction(v, event).wf(),
{
    if let Phase::Attempting { attempt: AttemptPhase::Sweeping { sweep }, .. } = v.phase {
        let names = listed_names(v, event);
        match sweep {
            SweepPhase::Inspecting { at, .. } | SweepPhase::Evicting { at, .. } => {
                lemma_next_sibling(v.key, names, at + 1);
            },
            _ => {
                lemma_next_sibling(v.key, names, 0);
            },
        }
    }
}

/// Until it is over the search asks for something, at paths that it can name, and
/// an event that does not answer this leaves it where it is.
pub proof fn search_waits_for_its_answer(v: ExtractionView, event: EventView)
    requires
        v.wf(),
    ensures
        pending(v) is None <==> v.phase is Done,
        pending(v) matches Some(action) ==> {
            &&& forall|i: int|
                0 <= i < places(action).len() ==> place_path(v, #[trigger] places(action)[i]) is Some
            &&& !answers(action, event) ==> next_extraction(v, event) == v
        },
{
}

/// How much the search still has before it, the most telling part first.
pub open spec fn rank(v: ExtractionView) -> (nat, nat, nat, nat) {
    match v.phase {
        Phase::Locating => (3, 0, 0, 0),
        Phase::Probing { base } => (2, (v.bases.len() - base) as nat, 0, 0),
        Phase::Attempting { base, attempt } => (
            1,
            (v.bases.len() - base) as nat,
            attempt_rank(attempt),
            match attempt {
                AttemptPhase::Sweeping { sweep } => sweep_rank(v.names, sweep),
                _ => 0,
            },
        ),
        Phase::Done { .. } => (0, 0, 0, 0),
    }
}

/// How much an attempt still has before it, apart from the entries to sweep.
pub open spec fn attempt_rank(attempt: AttemptPhase) -> nat {
    match attempt {
        AttemptPhase::CreatingBase => 9,
        AttemptPhase::Stamping => 8,
        AttemptPhase::Clearing { .. } => 7,
        AttemptPhase::CreatingTmp { .. } => 6,
        AttemptPhase::Unpacking { .. } => 5,
        AttemptPhase::Publishing { .. } => 4,
        AttemptPhase::Sweeping { sweep: SweepPhase::Listing } => 3,
        AttemptPhase::Sweeping { .. } => 2,
        AttemptPhase::Withdrawing { .. } => 2,
        AttemptPhase::Discarding { .. } => 1,
        AttemptPhase::Adopting => 1,
        AttemptPhase::Over { .. } => 0,
    }
}

/// The search always comes to an end: every answer to what it asked takes it closer.
pub proof fn search_makes_progress(v: ExtractionView, event: EventView)
    requires
        v.wf(),
        fits(event),
        pending(v) matches Some(action) && answers(action, event),
    ensures
        ({
            let (a, b, c, d) = rank(v);
            let (a2, b2, c2, d2) = rank(next_extraction(v, event));
            decreases_to!(a, b, c, d => a2, b2, c2, d2)
        }),
{
    if let Phase::Attempting { attempt: AttemptPhase::Sweeping { sweep }, .. } = v.phase {
        let names = listed_names(v, event);
        match sweep {
            SweepPhase::Inspecting { at, .. } | SweepPhase::Evicting { at, .. } => {
                lemma_next_sibling(v.key, names, at + 1);
            },
            _ => {
                lemma_next_sibling(v.key, names, 0);
            },
        }
    }
}

/// One way for the outside to answer throughout a search.
pub ghost struct Environment {
    /// The user's cache directory.
    pub cache_dir: Option<Seq<Seq<u8>>>,
    /// The system's temporary directory.
    pub temp_dir: Seq<Seq<u8>>,
    /// Whether an action succeeds, or what the first probe of a candidate finds.
    pub answer: spec_fn(Action) -> bool,
    /// Whether a candidate holds a complete copy when it is asked again, after the
    /// rename of a finished directory was refused.
    pub adopts: spec_fn(usize) -> bool,
    /// The stamp for the attempt under a candidate.
    pub stamp: spec_fn(usize) -> Stamp,
    /// The entries of a candidate directory, and the time.
    pub listing: spec_fn(usize) -> Option<(Seq<Seq<u8>>, i128)>,
    /// What an entry of a candidate directory is described as.
    pub meta: spec_fn(usize, usize) -> Option<EntryMeta>,
}

impl Environment {
    /// Whether every listing fits into memory.
    pub open spec fn wf(self) -> bool {
        forall|base: usize|
            #[trigger] (self.listing)(base) matches Some((names, _)) ==> names.len() <= usize::MAX
    }

    /// What is reported to a search in state `v`.
    pub open spec fn report(self, v: ExtractionView) -> EventView {
        match (v.phase, pending(v)) {
            (_, Some(Action::Locate)) => EventView::Located {
                cache_dir: self.cache_dir,
                temp_dir: self.temp_dir,
            },
            (Phase::Attempting { base, .. }, Some(Action::TakeStamp)) => EventView::Stamped {
                stamp: (self.stamp)(base),
            },
            (Phase::Attempting { base, .. }, Some(Action::List { .. })) => EventView::Listed {
                listing: (self.listing)(base),
            },
            (
                Phase::Attempting { base, .. },
                Some(Action::Describe { place: Place::Sibling { at, .. } }),
            ) => EventView::Described { meta: (self.meta)(base, at) },
            (Phase::Attempting { base, attempt: AttemptPhase::Adopting }, Some(_)) =>
                EventView::Answered { yes: (self.adopts)(base) },
            (_, Some(action)) => EventView::Answered { yes: (self.answer)(action) },
            (_, None) => EventView::Answered { yes: false },
        }
    }

    /// The candidate directories.
    pub open spec fn bases(self) -> Seq<Seq<Seq<u8>>> {
        candidates(self.cache_dir, self.temp_dir)
    }

    /// Whether a candidate holds a complete copy from the start.
    pub open spec fn has_copy(self, base: usize) -> bool {
        (self.answer)(Action::ProbeFile { place: Place::Sentinel { base } })
    }

    /// What the attempt under a candidate builds in.
    pub open spec fn tmp(self, base: usize) -> Tmp {
        let stamp = (self.stamp)(base);
        Tmp { pid: stamp.pid, suffix: suffix_of(stamp.clock, stamp.tick) }
    }

    /// Whether the attempt under a candidate comes to a usable directory: the
    /// candidate can be written, the runtime unpacks, and either it is published or
    /// another extractor's complete copy is there.
    pub open spec fn takes(self, base: usize) -> bool {
        let place = Place::Tmp { base, tmp: self.tmp(base) };
        let target = Place::Target { base };
        &&& (self.answer)(Action::CreateDirs { place: Place::Base { base } })
        &&& (self.answer)(Action::CreateDirs { place })
        &&& (self.answer)(Action::Unpack { place })
        &&& (self.answer)(Action::Rename { from: place, to: target }) || (self.adopts)(base)
    }
}

/// What a search in state `v` does until it is over, and how it ends.
pub open spec fn course(env: Environment, v: ExtractionView) -> (Seq<Action>, ExtractionView)
    decreases rank(v).0, rank(v).1, rank(v).2, rank(v).3,
        when env.wf() && v.wf()
        via course_ends
{
    match pending(v) {
        Some(action) => {
            let (rest, end) = course(env, next_extraction(v, env.report(v)));
            (seq![action] + rest, end)
        },
        None => (Seq::empty(), v),
    }
}

#[via_fn]
proof fn course_ends(env: Environment, v: ExtractionView) {
    if let Some(action) = pending(v) {
        lemma_report(env, v);
        search_makes_progress(v, env.report(v));
    }
}

proof fn lemma_report(env: Environment, v: ExtractionView)
    requires
        env.wf(),
        v.wf(),
    ensures
        pending(v) matches Some(action) ==> answers(action, env.report(v)),
        fits(env.report(v)),
        next_extraction(v, env.report(v)).wf(),
{
    search_stays_wf(v, env.report(v));
}

/// Whether the removal of an entry of a candidate directory is among `actions`.
pub open spec fn removes(actions: Seq<Action>, base: usize, at: usize) -> bool {
    actions.contains(Action::RemoveTree { place: Place::Sibling { base, at } })
}

/// One step of a course.
proof fn lemma_step(env: Environment, v: ExtractionView)
    requires
        env.wf(),
        v.wf(),
        pending(v) is Some,
    ensures
        ({
            let next = next_extraction(v, env.report(v));
            &&& next.wf()
            &&& course(env, v).1 == course(env, next).1
            &&& forall|base: usize, at: usize|
                #[trigger] removes(course(env, v).0, base, at) <==> pending(v) == Some(
                    Action::RemoveTree { place: Place::Sibling { base, at } },
                ) || removes(course(env, next).0, base, at)
        }),
{
    lemma_report(env, v);
    let rest = course(env, next_extraction(v, env.report(v))).0;
    let all = course(env, v).0;
    assert(all == seq![pending(v)->0] + rest);
    assert forall|action: Action| #[trigger] all.contains(action) <==> pending(v) == Some(action)
        || rest.contains(action) by {
        assert(all[0] == pending(v)->0);
        if rest.contains(action) {
            let i = choose|i: int| 0 <= i < rest.len() && rest[i] == action;
            assert(all[i + 1] == action);
        }
        if all.contains(action) {
            let i = choose|i: int| 0 <= i < all.len() && all[i] == action;
            if i > 0 {
                assert(rest[i - 1] == action);
            }
        }
    }
}

impl Environment {
    /// Whether an entry that a candidate directory is listed with is an old version:
    /// the directory of a version other than `key`, older than `MAX_AGE`.
    pub open spec fn lists_stale(self, key: Seq<u8>, base: usize, at: usize) -> bool {
        (self.listing)(base) matches Some((names, now)) && at < names.len() && is_sibling(
            key,
            names[at as int],
        ) && is_stale((self.meta)(base, at), now)
    }

    /// Whether `found` is the first of the candidates from `from` up to `count` that
    /// holds a complete copy from the start.
    pub open spec fn first_copy(self, from: usize, count: nat, found: usize) -> bool {
        &&& from <= found < count
        &&& self.has_copy(found)
        &&& forall|k: usize| from <= k < found ==> !#[trigger] self.has_copy(k)
    }

    /// Whether `found` is the first of the candidates from `from` up to `count` that
    /// takes an extraction, or `None` where none does.
    pub open spec fn first_taker(self, from: usize, count: nat, found: Option<usize>) -> bool {
        match found {
            Some(found) => {
                &&& from <= found < count
                &&& self.takes(found)
                &&& forall|k: usize| from <= k < found ==> !#[trigger] self.takes(k)
            },
            None => forall|k: usize| from <= k < count ==> !#[trigger] self.takes(k),
        }
    }

    /// Whether `actions` removes exactly the old versions under the candidate `found`,
    /// and nothing where the directory there was not published by this search.
    pub open spec fn sweeps_under(
        self,
        key: Seq<u8>,
        found: Option<usize>,
        actions: Seq<Action>,
    ) -> bool {
        forall|base: usize, at: usize| #[trigger]
            removes(actions, base, at) <==> found == Some(base) && self.publishes(base)
                && self.lists_stale(key, base, at)
    }

    /// Whether the attempt under a candidate publishes the directory that it built,
    /// rather than finding another's.
    pub open spec fn publishes(self, base: usize) -> bool {
        self.takes(base) && (self.answer)(
            Action::Rename {
                from: Place::Tmp { base, tmp: self.tmp(base) },
                to: Place::Target { base },
            },
        )
    }
}

/// How the attempt under `base` goes on from the sweep, with the listing in hand.
proof fn lemma_sweep_goes_through(env: Environment, v: ExtractionView, base: usize, now: i128)
    requires
        env.wf(),
        v.wf(),
        (env.listing)(base) == Some((v.names, now)),
        v.phase matches Phase::Attempting {
            base: b,
            attempt: AttemptPhase::Sweeping { sweep },
        } && b == base && match sweep {
            SweepPhase::Inspecting { at, now: n } => n == now,
            SweepPhase::Evicting { at, now: n } => n == now && is_stale((env.meta)(base, at), now),
            _ => false,
        },
    ensures
        course(env, v).1.phase == (Phase::Done { found: Some(base) }),
        course(env, v).1.names == v.names,
        forall|b: usize, at: usize| #[trigger]
            removes(course(env, v).0, b, at) <==> b == base && env.lists_stale(v.key, base, at)
                && at >= sweep_position(v.phase),
    decreases rank(v).0, rank(v).1, rank(v).2, rank(v).3,
{
    lemma_step(env, v);
    lemma_report(env, v);
    search_makes_progress(v, env.report(v));
    let here = sweep_position(v.phase);
    lemma_next_sibling(v.key, v.names, here + 1);
    let next = next_extraction(v, env.report(v));
    if next.phase is Attempting {
        lemma_sweep_goes_through(env, next, base, now);
    } else {
        assert(course(env, next).0 =~= Seq::empty());
    }
}

/// The entry that a sweep stands at.
spec fn sweep_position(phase: Phase) -> int {
    match phase {
        Phase::Attempting {
            attempt: AttemptPhase::Sweeping { sweep: SweepPhase::Inspecting { at, .. } },
            ..
        } => at as int,
        Phase::Attempting {
            attempt: AttemptPhase::Sweeping { sweep: SweepPhase::Evicting { at, .. } },
            ..
        } => at as int,
        _ => 0,
    }
}

/// How the attempt under `base` goes on once it has published.
proof fn lemma_sweep(env: Environment, v: ExtractionView, base: usize)
    requires
        env.wf(),
        v.wf(),
        v.phase == (Phase::Attempting {
            base,
            attempt: AttemptPhase::Sweeping { sweep: SweepPhase::Listing },
        }),
    ensures
        course(env, v).1.phase == (Phase::Done { found: Some(base) }),
        (env.listing)(base) is Some ==> course(env, v).1.names == ((env.listing)(base)->0).0,
        forall|b: usize, at: usize| #[trigger]
            removes(course(env, v).0, b, at) <==> b == base && env.lists_stale(v.key, base, at),
{
    lemma_step(env, v);
    let next = next_extraction(v, env.report(v));
    if let Some((names, now)) = (env.listing)(base) {
        lemma_next_sibling(v.key, names, 0);
        if next.phase is Attempting {
            lemma_sweep_goes_through(env, next, base, now);
        } else {
            assert(course(env, next).0 =~= Seq::empty());
        }
    } else {
        assert(course(env, next).0 =~= Seq::empty());
    }
}

/// Once a search has published it sweeps what the candidate is listed with, and ends
/// with the directory that it has published.
pub proof fn search_sweeps_its_listing(env: Environment, v: ExtractionView, base: usize)
    requires
        env.wf(),
        v.wf(),
        pending(v) == Some(Action::List { place: Place::Base { base } }),
    ensures
        ({
            let (actions, end) = course(env, v);
            &&& end.phase == (Phase::Done { found: Some(base) })
            &&& end.key == v.key && end.bases == v.bases
            &&& (env.listing)(base) is Some ==> end.names == ((env.listing)(base)->0).0
            &&& forall|b: usize, at: usize| #[trigger]
                removes(actions, b, at) <==> b == base && env.lists_stale(v.key, base, at)
        }),
{
    lemma_sweep(env, v, base);
    lemma_course_keeps(env, v);
}

/// How the attempt under `base` ends.
proof fn lemma_attempt(env: Environment, v: ExtractionView, base: usize)
    requires
        env.wf(),
        v.wf(),
        v.phase == (Phase::Attempting { base, attempt: AttemptPhase::CreatingBase }),
    ensures
        env.takes(base) ==> {
            &&& course(env, v).1.phase == (Phase::Done { found: Some(base) })
            &&& forall|b: usize, at: usize| #[trigger]
                removes(course(env, v).0, b, at) <==> b == base && env.publishes(base)
                    && env.lists_stale(v.key, base, at)
        },
        !env.takes(base) ==> {
            let next = ExtractionView {
                phase: after_attempt(v.bases.len(), base, AttemptPhase::Over { usable: false }),
                ..v
            };
            &&& next.wf()
            &&& course(env, v).1 == course(env, next).1
            &&& forall|b: usize, at: usize| #[trigger]
                removes(course(env, v).0, b, at) <==> removes(course(env, next).0, b, at)
        },
{
    let tmp = env.tmp(base);
    let at = |attempt: AttemptPhase| ExtractionView { phase: Phase::Attempting { base, attempt }, ..v };
    lemma_step(env, v);
    let v1 = next_extraction(v, env.report(v));
    if v1 == at(AttemptPhase::Stamping) {
        lemma_step(env, v1);
        let v2 = next_extraction(v1, env.report(v1));
        assert(v2 == at(AttemptPhase::Clearing { tmp }));
        lemma_step(env, v2);
        let v3 = next_extraction(v2, env.report(v2));
        assert(v3 == at(AttemptPhase::CreatingTmp { tmp }));
        lemma_step(env, v3);
        let v4 = next_extraction(v3, env.report(v3));
        if v4 == at(AttemptPhase::Unpacking { tmp }) {
            lemma_step(env, v4);
            let v5 = next_extraction(v4, env.report(v4));
            lemma_step(env, v5);
            let v6 = next_extraction(v5, env.report(v5));
            if v5 == at(AttemptPhase::Publishing { tmp }) {
                if v6 == at(AttemptPhase::Sweeping { sweep: SweepPhase::Listing }) {
                    lemma_sweep(env, v6, base);
                } else {
                    assert(v6 == at(AttemptPhase::Withdrawing { tmp }));
                    lemma_step(env, v6);
                    let v7 = next_extraction(v6, env.report(v6));
                    assert(v7 == at(AttemptPhase::Adopting));
                    lemma_step(env, v7);
                    let v8 = next_extraction(v7, env.report(v7));
                    if v8.phase == (Phase::Done { found: Some(base) }) {
                        assert(course(env, v8).0 =~= Seq::empty());
                    }
                }
            } else {
                assert(v5 == at(AttemptPhase::Discarding { tmp }));
            }
        }
    }
}

/// What the search does and finds from the first attempt under `base` on.
proof fn lemma_attempts(env: Environment, v: ExtractionView, base: usize)
    requires
        env.wf(),
        v.wf(),
        v.phase == (Phase::Attempting { base, attempt: AttemptPhase::CreatingBase }),
    ensures
        course(env, v).1.phase matches Phase::Done { found } && env.first_taker(
            base,
            v.bases.len(),
            found,
        ) && env.sweeps_under(v.key, found, course(env, v).0),
    decreases v.bases.len() - base,
{
    lemma_attempt(env, v, base);
    if !env.takes(base) {
        let next = ExtractionView {
            phase: after_attempt(v.bases.len(), base, AttemptPhase::Over { usable: false }),
            ..v
        };
        if base + 1 < v.bases.len() {
            lemma_attempts(env, next, (base + 1) as usize);
        } else {
            assert(course(env, next).0 =~= Seq::empty());
        }
    }
}

/// Whether `actions` do nothing in the candidates after `last` but ask for a copy.
pub open spec fn only_probes_after(actions: Seq<Action>, last: usize) -> bool {
    forall|j: int, i: int|
        #![trigger places(actions[j])[i]]
        0 <= j < actions.len() && !(actions[j] is ProbeFile) && 0 <= i < places(actions[j]).len()
            ==> place_base(places(actions[j])[i]) <= last
}

/// A search never goes back to an earlier candidate once it has begun to extract.
proof fn lemma_only_probes_after(env: Environment, v: ExtractionView)
    requires
        env.wf(),
        v.wf(),
    ensures
        course(env, v).1.phase matches Phase::Done { found: Some(found) } ==> {
            &&& v.phase matches Phase::Attempting { base, .. } ==> base <= found
            &&& only_probes_after(course(env, v).0, found)
        },
    decreases rank(v).0, rank(v).1, rank(v).2, rank(v).3,
{
    if let Some(action) = pending(v) {
        lemma_report(env, v);
        search_makes_progress(v, env.report(v));
        let next = next_extraction(v, env.report(v));
        lemma_only_probes_after(env, next);
        let (all, rest) = (course(env, v).0, course(env, next).0);
        assert(all == seq![action] + rest);
        if let Phase::Done { found: Some(found) } = course(env, v).1.phase {
            if let Phase::Attempting { base, .. } = v.phase {
                assert(next.phase is Attempting ==> base <= next.phase->Attempting_base);
                assert(base <= found);
            }
            assert forall|j: int, i: int|
                #![trigger places(all[j])[i]]
                0 <= j < all.len() && !(all[j] is ProbeFile) && 0 <= i < places(
                    all[j],
                ).len() implies place_base(places(all[j])[i]) <= found by {
                if j > 0 {
                    assert(all[j] == rest[j - 1]);
                    assert(place_base(places(rest[j - 1])[i]) <= found);
                }
            }
        }
    }
}

/// The probes of the candidates from `from` up to `to`.
pub open spec fn probes(from: usize, to: nat) -> Seq<Action> {
    Seq::new(
        (to - from) as nat,
        |i: int| Action::ProbeFile { place: Place::Sentinel { base: (from + i) as usize } },
    )
}

/// What the search does and finds from the probe of `base` on.
proof fn lemma_probes(env: Environment, v: ExtractionView, base: usize)
    requires
        env.wf(),
        v.wf(),
        v.phase == (Phase::Probing { base }),
    ensures
        course(env, v).1.phase matches Phase::Done { found } && if exists|k: usize|
            base <= k < v.bases.len() && #[trigger] env.has_copy(k) {
            found matches Some(found) && env.first_copy(base, v.bases.len(), found) && course(
                env,
                v,
            ).0 == probes(base, (found + 1) as nat)
        } else {
            env.first_taker(0, v.bases.len(), found) && env.sweeps_under(
                v.key,
                found,
                course(env, v).0,
            )
        },
    decreases v.bases.len() - base,
{
    lemma_step(env, v);
    lemma_report(env, v);
    let next = next_extraction(v, env.report(v));
    let probe = Action::ProbeFile { place: Place::Sentinel { base } };
    assert(course(env, v).0 == seq![probe] + course(env, next).0);
    if env.has_copy(base) {
        assert(course(env, v).0 =~= probes(base, (base + 1) as nat));
    } else if base + 1 < v.bases.len() {
        lemma_probes(env, next, (base + 1) as usize);
        if let Phase::Done { found: Some(found) } = course(env, next).1.phase {
            if env.first_copy((base + 1) as usize, v.bases.len(), found) {
                assert(seq![probe] + probes((base + 1) as usize, (found + 1) as nat) =~= probes(
                    base,
                    (found + 1) as nat,
                ));
            }
        }
    } else {
        lemma_attempts(env, next, 0);
    }
}

/// What the search finds. Where any candidate holds a complete copy, it is the
/// first one that does, and the search has done nothing but ask the candidates up
/// to it. Else it is the first candidate that takes an extraction, and nothing only
/// where none does; and where the search has published a directory of its own it has
/// removed exactly the old versions next to it. Of the candidates after the one found it
/// has at most asked whether they hold a copy.
pub proof fn search_finds_the_runtime(env: Environment, key: Seq<u8>)
    requires
        env.wf(),
        is_cache_key(key),
    ensures
        ({
            let (actions, end) = course(env, fresh(key));
            let count = env.bases().len();
            &&& end.key == key && end.bases == env.bases()
            &&& end.phase matches Phase::Done { found } && if exists|k: usize|
                k < count && #[trigger] env.has_copy(k) {
                found matches Some(found) && env.first_copy(0, count, found) && actions
                    == seq![Action::Locate] + probes(0, (found + 1) as nat)
            } else {
                &&& env.first_taker(0, count, found)
                &&& env.sweeps_under(key, found, actions)
                &&& found matches Some(found) ==> only_probes_after(actions, found)
            }
        }),
{
    let start = fresh(key);
    lemma_step(env, start);
    lemma_report(env, start);
    let next = next_extraction(start, env.report(start));
    lemma_probes(env, next, 0);
    lemma_only_probes_after(env, start);
    lemma_course_keeps(env, start);
    lemma_course_keeps(env, next);
    let (actions, end) = course(env, start);
    assert(actions == seq![Action::Locate] + course(env, next).0);
}

/// The runtime is extracted once: where a search has found the copy under candidate
/// `found`, a later one over the same candidates that sees this copy, and before it none
/// that the first did not see, finds the same copy. It asks the candidates up to it for
/// theirs and does nothing else.
pub proof fn later_search_only_probes(
    first: Environment,
    later: Environment,
    key: Seq<u8>,
    found: usize,
)
    requires
        first.wf(),
        later.wf(),
        is_cache_key(key),
        later.bases() == first.bases(),
        course(first, fresh(key)).1.phase == (Phase::Done { found: Some(found) }),
        later.has_copy(found),
        forall|k: usize| k < found && #[trigger] later.has_copy(k) ==> first.has_copy(k),
    ensures
        ({
            let (actions, end) = course(later, fresh(key));
            let earlier = course(first, fresh(key)).1;
            &&& end.key == earlier.key && end.bases == earlier.bases && end.phase == earlier.phase
            &&& actions == seq![Action::Locate] + probes(0, (found + 1) as nat)
        }),
{
    search_finds_the_runtime(first, key);
    search_finds_the_runtime(later, key);
    let count = first.bases().len();
    assert forall|k: usize| k < found implies !#[trigger] later.has_copy(k) by {
        assert(k < count);
        if later.has_copy(k) {
            assert(first.has_copy(k));
        }
    }
}

/// The answer holds the runtime: a search ends with a directory only where the file that
/// marks it as complete was just found in it, or in the sweep that follows the
/// publication of its own.
pub proof fn answer_holds_the_runtime(v: ExtractionView, event: EventView, base: usize)
    requires
        v.wf(),
        !(v.phase is Done),
        next_extraction(v, event).phase == (Phase::Done { found: Some(base) }),
    ensures
        (pending(v) == Some(Action::ProbeFile { place: Place::Sentinel { base } }) && event == (
        EventView::Answered { yes: true })) || (v.phase matches Phase::Attempting {
            base: b,
            attempt: AttemptPhase::Sweeping { .. },
        } && b == base),
{
}

/// A sweep follows a publication and nothing else: a search comes to it only by the
/// rename of the directory that it built, and it comes to the rename only once the
/// runtime has been unpacked there.
pub proof fn sweep_follows_publication(v: ExtractionView, event: EventView, base: usize, tmp: Tmp)
    requires
        v.wf(),
    ensures
        ({
            let next = next_extraction(v, event).phase;
            let yes = event == (EventView::Answered { yes: true });
            &&& next == (Phase::Attempting {
                base,
                attempt: AttemptPhase::Sweeping { sweep: SweepPhase::Listing },
            }) && next != v.phase ==> yes && (v.phase matches Phase::Attempting {
                base: b,
                attempt: AttemptPhase::Publishing { .. },
            } && b == base)
            &&& next == (Phase::Attempting { base, attempt: AttemptPhase::Publishing { tmp } })
                && next != v.phase ==> yes && v.phase == (Phase::Attempting {
                base,
                attempt: AttemptPhase::Unpacking { tmp },
            })
        }),
{
}

/// The key never changes, and the candidates do not once they are known.
proof fn lemma_course_keeps(env: Environment, v: ExtractionView)
    requires
        env.wf(),
        v.wf(),
    ensures
        course(env, v).1.key == v.key,
        !(v.phase is Locating) ==> course(env, v).1.bases == v.bases,
    decreases rank(v).0, rank(v).1, rank(v).2, rank(v).3,
{
    if let Some(action) = pending(v) {
        lemma_report(env, v);
        search_makes_progress(v, env.report(v));
        lemma_course_keeps(env, next_extraction(v, env.report(v)));
    }
}

/// The candidates are one or two different directories, and `nub` under the system's
/// temporary directory is always the last.
pub proof fn candidates_are_distinct(cache_dir: Option<Seq<Seq<u8>>>, temp_dir: Seq<Seq<u8>>)
    ensures
        ({
            let bases = candidates(cache_dir, temp_dir);
            &&& 1 <= bases.len() <= 2
            &&& bases.no_duplicates()
            &&& bases.last() == temp_dir.push(temp_base_name())
            &&& cache_dir matches Some(dir) ==> bases.first() == dir
        }),
{
}

/// The search removes nothing but what it has itself built, and published directories
/// of other versions: never the current version's directory, and never a directory
/// that another search builds in.
pub proof fn removals_are_harmless(v: ExtractionView, place: Place)
    requires
        v.wf(),
        pending(v) == Some(Action::RemoveTree { place }),
    ensures
        ({
            let name = place_path(v, place)->0.last();
            &&& place_path(v, place) is Some
            &&& name != v.key
            &&& forall|key: Seq<u8>, pid: u32, suffix: u64|
                name == #[trigger] tmp_name(key, pid, suffix) ==> key == v.key && (place matches
                    Place::Tmp { tmp, .. } && tmp == Tmp { pid, suffix })
        }),
{
    let name = place_path(v, place)->0.last();
    match place {
        Place::Tmp { tmp, .. } => {
            tmp_name_is_no_version(v.key, tmp.pid, tmp.suffix);
            assert forall|key: Seq<u8>, pid: u32, suffix: u64|
                name == #[trigger] tmp_name(key, pid, suffix) implies key == v.key && tmp == (Tmp {
                pid,
                suffix,
            }) by {
                tmp_names_distinct(key, pid, suffix, v.key, tmp.pid, tmp.suffix);
            }
        },
        _ => {
            assert forall|key: Seq<u8>, pid: u32, suffix: u64|
                name == #[trigger] tmp_name(key, pid, suffix) implies false by {
                tmp_name_is_no_version(key, pid, suffix);
            }
        },
    }
}

/// What was built is published or cleared away: once the runtime is being unpacked,
/// the search goes on to the rename, and from there to the sweep, or it removes the
/// directory that it built.
pub proof fn builds_are_not_left_behind(v: ExtractionView, event: EventView, base: usize, tmp: Tmp)
    requires
        v.wf(),
        event is Answered,
        ({
            let place = Place::Tmp { base, tmp };
            ||| pending(v) == Some(Action::Unpack { place })
            ||| pending(v) == Some(Action::Rename { from: place, to: Place::Target { base } })
        }),
    ensures
        ({
            let place = Place::Tmp { base, tmp };
            let yes = event->Answered_yes;
            let rename = Action::Rename { from: place, to: Place::Target { base } };
            let next = pending(next_extraction(v, event));
            if !yes {
                next == Some(Action::RemoveTree { place })
            } else if pending(v) == Some(rename) {
                next == Some(Action::List { place: Place::Base { base } })
            } else {
                next == Some(rename)
            }
        }),
{
}

} // verus!
