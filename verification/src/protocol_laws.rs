//! What the search asks for, in which order and at which paths, told by the replies that
//! it was given, in names spelled out byte by byte.

use vstd::prelude::*;

use crate::attempt::AttemptPhase;
use crate::extraction::{
    after_attempt, candidates, fresh, next_extraction, pending, place_path, Event, EventView,
    ExtractionView, Phase,
};
use crate::names::{decimal, fixed_names, is_cache_key, tmp_name_spelled_out};
use crate::protocol::{Action, EntryMeta, Place, Stamp, Tmp};
use crate::search_laws::{course, removes, search_sweeps_its_listing, Environment};
use crate::suffix::suffix_of;
use crate::sweep::{
    is_sibling, is_stale, lemma_next_sibling, next_sibling, sibling_by_its_bytes, stale_by_its_age,
    sweep_from, SweepPhase,
};

verus! {

/// The candidates, in order: the cache directory where there is one, then the directory
/// `nub` in the temporary directory, unless it is the cache directory. There are no
/// others.
pub proof fn candidates_in_order(cache_dir: Option<Seq<Seq<u8>>>, temp_dir: Seq<Seq<u8>>)
    ensures
        ({
            let bases = candidates(cache_dir, temp_dir);
            let fallback = temp_dir.push(seq![0x6eu8, 0x75, 0x62]);
            &&& cache_dir is None ==> bases == seq![fallback]
            &&& cache_dir is Some && cache_dir->0 == fallback ==> bases == seq![fallback]
            &&& cache_dir is Some && cache_dir->0 != fallback ==> bases == seq![
                cache_dir->0,
                fallback,
            ]
            &&& forall|k: int|
                0 <= k < bases.len() ==> (#[trigger] bases[k]) == fallback || cache_dir == Some(
                    bases[k],
                )
        }),
{
    fixed_names();
}

/// Where things are, at every moment of a search and for every key: the published
/// directory is the one in the candidate that is called like the key, the file that marks
/// it as complete is `preload.mjs` in it, and what is built or swept lies in the candidate
/// beside it. A place that no candidate or no entry stands for has no path.
pub proof fn places_spelled_out(v: ExtractionView, base: usize, tmp: Tmp, at: usize)
    ensures
        base < v.bases.len() ==> {
            let home = v.bases[base as int];
            &&& place_path(v, Place::Base { base }) == Some(home)
            &&& place_path(v, Place::Target { base }) == Some(home.push(v.key))
            &&& place_path(v, Place::Sentinel { base }) == Some(
                home.push(v.key).push(
                    seq![0x70u8, 0x72, 0x65, 0x6c, 0x6f, 0x61, 0x64, 0x2e, 0x6d, 0x6a, 0x73],
                ),
            )
            &&& place_path(v, Place::Tmp { base, tmp }) == Some(
                home.push(
                    seq![0x2eu8] + v.key + seq![0x2eu8] + decimal(tmp.pid as nat) + seq![0x2eu8]
                        + decimal(tmp.suffix as nat) + seq![0x2eu8, 0x74, 0x6d, 0x70],
                ),
            )
            &&& at < v.names.len() ==> place_path(v, Place::Sibling { base, at }) == Some(
                home.push(v.names[at as int]),
            )
            &&& at >= v.names.len() ==> place_path(v, Place::Sibling { base, at }) is None
        },
        base >= v.bases.len() ==> {
            &&& place_path(v, Place::Base { base }) is None
            &&& place_path(v, Place::Target { base }) is None
            &&& place_path(v, Place::Sentinel { base }) is None
            &&& place_path(v, Place::Tmp { base, tmp }) is None
            &&& place_path(v, Place::Sibling { base, at }) is None
        },
{
    fixed_names();
    tmp_name_spelled_out(v.key, tmp.pid, tmp.suffix);
}

/// What is reported to the search reaches it as it is: no path, name, time or answer is
/// changed, and no entry of a listing is dropped, added or moved.
pub proof fn events_are_told_in_full(event: Event)
    ensures
        match event {
            Event::Located { cache_dir, temp_dir } => {
                &&& event@ matches EventView::Located { cache_dir: c, temp_dir: t }
                &&& t == temp_dir@
                &&& c is Some <==> cache_dir is Some
                &&& cache_dir is Some ==> c->0 == cache_dir->0@
            },
            Event::Answered { yes } => event@ == (EventView::Answered { yes }),
            Event::Stamped { stamp } => event@ == (EventView::Stamped { stamp }),
            Event::Listed { listing } => {
                &&& event@ matches EventView::Listed { listing: l }
                &&& l is Some <==> listing is Some
                &&& listing is Some ==> {
                    &&& (l->0).1 == listing->0.now
                    &&& (l->0).0.len() == listing->0.names@.len()
                    &&& forall|i: int|
                        0 <= i < listing->0.names@.len() ==> #[trigger] (l->0).0[i]
                            == listing->0.names@[i]@
                }
            },
            Event::Described { meta } => event@ == (EventView::Described { meta }),
        },
{
}

/// What the search knows stays as it was told: the key for good, the candidates from the
/// moment that they were located, and a listing until the next one.
pub proof fn search_keeps_what_it_knows(v: ExtractionView, event: EventView)
    ensures
        ({
            let next = next_extraction(v, event);
            &&& next.key == v.key
            &&& !(pending(v) == Some(Action::Locate) && event is Located) ==> next.bases == v.bases
            &&& pending(v) == Some(Action::Locate) && event is Located ==> {
                next.bases == candidates(event->cache_dir, event->temp_dir)
            }
            &&& !(pending(v) matches Some(Action::List { .. })) ==> next.names == v.names
            &&& pending(v) matches Some(Action::List { .. }) ==> if event is Listed
                && event->listing is Some {
                next.names == (event->listing->0).0
            } else {
                next.names == v.names
            }
        }),
{
}

/// A search takes no report but of what it asked for, and once it is over none at all.
pub proof fn search_takes_only_its_answer(v: ExtractionView, event: EventView)
    requires
        v.wf(),
    ensures
        ({
            let next = next_extraction(v, event);
            let asked = pending(v);
            &&& asked is None <==> v.phase is Done
            &&& asked is None ==> next == v
            &&& asked == Some(Action::Locate) && !(event is Located) ==> next == v
            &&& asked == Some(Action::TakeStamp) && !(event is Stamped) ==> next == v
            &&& (asked matches Some(Action::List { .. })) && !(event is Listed) ==> next == v
            &&& (asked matches Some(Action::Describe { .. })) && !(event is Described) ==> next == v
            &&& (asked matches Some(Action::ProbeFile { .. })) && !(event is Answered) ==> next == v
            &&& (asked matches Some(Action::CreateDirs { .. })) && !(event is Answered) ==> next
                == v
            &&& (asked matches Some(Action::RemoveTree { .. })) && !(event is Answered) ==> next
                == v
            &&& (asked matches Some(Action::Unpack { .. })) && !(event is Answered) ==> next == v
            &&& (asked matches Some(Action::Rename { .. })) && !(event is Answered) ==> next == v
        }),
{
}

/// How every search begins, whatever the key: it locates the candidates, and asks one
/// after the other for `preload.mjs` in its published directory. The first that has it is
/// the answer. Only where none has it is anything created, and first of all the first
/// candidate.
pub proof fn search_begins_with_probes(
    key: Seq<u8>,
    cache_dir: Option<Seq<Seq<u8>>>,
    temp_dir: Seq<Seq<u8>>,
)
    requires
        is_cache_key(key),
    ensures
        ({
            let yes = EventView::Answered { yes: true };
            let no = EventView::Answered { yes: false };
            let first = next_extraction(fresh(key), EventView::Located { cache_dir, temp_dir });
            let second = next_extraction(first, no);
            let third = next_extraction(second, no);
            &&& pending(fresh(key)) == Some(Action::Locate)
            &&& first.key == key
            &&& first.bases == candidates(cache_dir, temp_dir)
            &&& pending(first) == Some(Action::ProbeFile { place: Place::Sentinel { base: 0 } })
            &&& next_extraction(first, yes).phase == (Phase::Done { found: Some(0) })
            &&& first.bases.len() == 1 ==> pending(second) == Some(
                Action::CreateDirs { place: Place::Base { base: 0 } },
            )
            &&& first.bases.len() == 2 ==> {
                &&& pending(second) == Some(
                    Action::ProbeFile { place: Place::Sentinel { base: 1 } },
                )
                &&& next_extraction(second, yes).phase == (Phase::Done { found: Some(1) })
                &&& pending(third) == Some(Action::CreateDirs { place: Place::Base { base: 0 } })
            }
        }),
{
}

/// Whether a search that has failed under the candidate `base` now turns to the next
/// one, or has come to its end without an answer where there is none.
pub open spec fn gives_up_on(base: usize, next: ExtractionView) -> bool {
    if base + 1 < next.bases.len() {
        pending(next) == Some(
            Action::CreateDirs { place: Place::Base { base: (base + 1) as usize } },
        )
    } else {
        next.phase == (Phase::Done { found: None })
    }
}

/// How every extraction goes. A candidate is created, which tells whether it can be
/// written. In a directory of its own, called after the process and a fresh suffix and
/// cleared of leftovers, the runtime is unpacked; only a directory that was unpacked in
/// full is renamed onto the published one. Where that is refused it is removed, and the
/// published one is the answer only if it holds `preload.mjs`. Any other failure leads to
/// the next candidate, once what was unpacked is removed.
pub proof fn extraction_step_by_step(
    v: ExtractionView,
    base: usize,
    stamp: Stamp,
    cleared: bool,
    removed: bool,
)
    requires
        v.wf(),
        pending(v) == Some(Action::CreateDirs { place: Place::Base { base } }),
    ensures
        ({
            let yes = EventView::Answered { yes: true };
            let no = EventView::Answered { yes: false };
            let any = EventView::Answered { yes: removed };
            let build = Place::Tmp {
                base,
                tmp: Tmp { pid: stamp.pid, suffix: suffix_of(stamp.clock, stamp.tick) },
            };
            let created = next_extraction(v, yes);
            let stamped = next_extraction(created, EventView::Stamped { stamp });
            let clean = next_extraction(stamped, EventView::Answered { yes: cleared });
            let ready = next_extraction(clean, yes);
            let unpacked = next_extraction(ready, yes);
            let broken = next_extraction(ready, no);
            let published = next_extraction(unpacked, yes);
            let refused = next_extraction(unpacked, no);
            let withdrawn = next_extraction(refused, any);
            &&& gives_up_on(base, next_extraction(v, no))
            &&& pending(created) == Some(Action::TakeStamp)
            &&& pending(stamped) == Some(Action::RemoveTree { place: build })
            &&& pending(clean) == Some(Action::CreateDirs { place: build })
            &&& gives_up_on(base, next_extraction(clean, no))
            &&& pending(ready) == Some(Action::Unpack { place: build })
            &&& pending(broken) == Some(Action::RemoveTree { place: build })
            &&& gives_up_on(base, next_extraction(broken, any))
            &&& pending(unpacked) == Some(
                Action::Rename { from: build, to: Place::Target { base } },
            )
            &&& pending(refused) == Some(Action::RemoveTree { place: build })
            &&& pending(withdrawn) == Some(Action::ProbeFile { place: Place::Sentinel { base } })
            &&& next_extraction(withdrawn, yes).phase == (Phase::Done { found: Some(base) })
            &&& gives_up_on(base, next_extraction(withdrawn, no))
            &&& pending(published) == Some(Action::List { place: Place::Base { base } })
            &&& next_extraction(published, EventView::Listed { listing: None }).phase == (
            Phase::Done { found: Some(base) })
        }),
{
}

/// Whether a search that has swept the entries before `from` now looks at the first entry
/// from there on whose name begins with `runtime-` and is not the key, or has come to its
/// end with the directory that it published where there is no such entry.
pub open spec fn sweeps_on(base: usize, from: int, next: ExtractionView) -> bool {
    ||| {
        &&& next.phase == (Phase::Done { found: Some(base) })
        &&& forall|k: int| from <= k < next.names.len() ==> !is_version_at(next, k)
    }
    ||| exists|at: usize|
        #![trigger is_version_at(next, at as int)]
        {
            &&& from <= at < next.names.len()
            &&& is_version_at(next, at as int)
            &&& forall|k: int| from <= k < at ==> !is_version_at(next, k)
            &&& pending(next) == Some(Action::Describe { place: Place::Sibling { base, at } })
        }
}

/// Whether the name of an entry begins with `runtime-` and is not the key.
pub open spec fn is_version_at(v: ExtractionView, at: int) -> bool {
    let name = v.names[at];
    name != v.key && name.len() >= 8 && name.take(8) == seq![
        0x72u8, 0x75, 0x6e, 0x74, 0x69, 0x6d, 0x65, 0x2d,
    ]
}

/// How every sweep goes, entry by entry. Of each entry that is named like a version it
/// asks for the kind and age; one that is a directory last changed more than 30 days
/// before the listing it removes, that same one and under the same candidate, and then
/// goes on, whether or not the removal succeeds. All others it leaves.
pub proof fn sweep_step_by_step(
    v: ExtractionView,
    base: usize,
    names: Seq<Seq<u8>>,
    now: i128,
    at: usize,
    meta: Option<EntryMeta>,
    removed: bool,
)
    requires
        v.wf(),
        names.len() <= usize::MAX,
    ensures
        pending(v) == Some(Action::List { place: Place::Base { base } }) ==> sweeps_on(
            base,
            0,
            next_extraction(v, EventView::Listed { listing: Some((names, now)) }),
        ),
        v.phase == (Phase::Attempting {
            base,
            attempt: AttemptPhase::Sweeping { sweep: SweepPhase::Inspecting { at, now } },
        }) ==> {
            let next = next_extraction(v, EventView::Described { meta });
            &&& pending(v) == Some(Action::Describe { place: Place::Sibling { base, at } })
            &&& if meta is Some && meta->0.is_dir && meta->0.modified is Some && now
                - meta->0.modified->0 > 2_592_000_000_000_000 {
                pending(next) == Some(Action::RemoveTree { place: Place::Sibling { base, at } })
            } else {
                sweeps_on(base, at + 1, next)
            }
        },
        pending(v) == Some(Action::RemoveTree { place: Place::Sibling { base, at } }) ==> sweeps_on(
            base,
            at + 1,
            next_extraction(v, EventView::Answered { yes: removed }),
        ),
{
    stale_by_its_age(meta, now);
    if pending(v) == Some(Action::List { place: Place::Base { base } }) {
        let event = EventView::Listed { listing: Some((names, now)) };
        lemma_sweeps_on(next_extraction(v, event), base, 0, now);
    }
    if let Phase::Attempting { attempt: AttemptPhase::Sweeping { sweep }, .. } = v.phase {
        match sweep {
            SweepPhase::Inspecting { at, now } => {
                let event = EventView::Described { meta };
                if !is_stale(meta, now) {
                    lemma_sweeps_on(next_extraction(v, event), base, at + 1, now);
                }
            },
            SweepPhase::Evicting { at, now } => {
                let event = EventView::Answered { yes: removed };
                lemma_sweeps_on(next_extraction(v, event), base, at + 1, now);
            },
            _ => {},
        }
    }
}

proof fn lemma_sweeps_on(next: ExtractionView, base: usize, from: int, now: i128)
    requires
        0 <= from <= next.names.len() <= usize::MAX,
    ensures
        next.phase == after_attempt(
            next.bases.len(),
            base,
            match sweep_from(next.key, next.names, from, now) {
                SweepPhase::Swept => AttemptPhase::Over { usable: true },
                sweep => AttemptPhase::Sweeping { sweep },
            },
        ) ==> sweeps_on(base, from, next),
{
    lemma_next_sibling(next.key, next.names, from);
    let end = next_sibling(next.key, next.names, from);
    assert forall|k: int| 0 <= k < next.names.len() implies is_version_at(next, k) == is_sibling(
        next.key,
        next.names[k],
    ) by {
        sibling_by_its_bytes(next.key, next.names[k]);
    }
    if end < next.names.len() {
        let at = end as usize;
        assert(is_version_at(next, at as int));
    }
}

/// What is swept once a directory is published, told by paths: of the entries that the
/// candidate is listed with, exactly those are removed that are not called like the key,
/// whose name begins with `runtime-`, and which are directories last changed more than 30
/// days before. Nothing of any other candidate is. Then the search ends with the
/// directory that it has published.
pub proof fn search_removes_old_versions(
    env: Environment,
    v: ExtractionView,
    base: usize,
    names: Seq<Seq<u8>>,
    now: i128,
)
    requires
        env.wf(),
        v.wf(),
        pending(v) == Some(Action::List { place: Place::Base { base } }),
        (env.listing)(base) == Some((names, now)),
    ensures
        ({
            let (actions, end) = course(env, v);
            &&& end.phase == (Phase::Done { found: Some(base) })
            &&& end.key == v.key && end.bases == v.bases && end.names == names
            &&& forall|b: usize, at: usize| #[trigger]
                removes(actions, b, at) <==> {
                    &&& b == base && at < names.len()
                    &&& names[at as int] != v.key
                    &&& names[at as int].len() >= 8
                    &&& names[at as int].take(8) == seq![
                        0x72u8, 0x75, 0x6e, 0x74, 0x69, 0x6d, 0x65, 0x2d,
                    ]
                    &&& (env.meta)(base, at) is Some
                    &&& (env.meta)(base, at)->0.is_dir
                    &&& (env.meta)(base, at)->0.modified is Some
                    &&& now - (env.meta)(base, at)->0.modified->0 > 2_592_000_000_000_000
                }
            &&& forall|at: usize|
                at < names.len() ==> #[trigger] place_path(end, Place::Sibling { base, at })
                    == Some(v.bases[base as int].push(names[at as int]))
        }),
{
    search_sweeps_its_listing(env, v, base);
    let (actions, end) = course(env, v);
    assert forall|b: usize, at: usize| #[trigger] removes(actions, b, at) <==> {
        &&& b == base && at < names.len()
        &&& names[at as int] != v.key
        &&& names[at as int].len() >= 8
        &&& names[at as int].take(8) == seq![0x72u8, 0x75, 0x6e, 0x74, 0x69, 0x6d, 0x65, 0x2d]
        &&& (env.meta)(base, at) is Some
        &&& (env.meta)(base, at)->0.is_dir
        &&& (env.meta)(base, at)->0.modified is Some
        &&& now - (env.meta)(base, at)->0.modified->0 > 2_592_000_000_000_000
    } by {
        if at < names.len() {
            sibling_by_its_bytes(v.key, names[at as int]);
        }
        stale_by_its_age((env.meta)(base, at), now);
    }
}

} // verus!
