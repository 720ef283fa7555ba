//! The removal of versions that have not been used for long.

use vstd::prelude::*;

use crate::names::{
    fixed_names, tmp_name, tmp_name_is_no_version, version_prefix, version_prefix_bytes, CacheKey,
};
use crate::path::{names_view, same_name, starts_with};
use crate::protocol::{EntryMeta, Reply};

verus! {

/// The age past which a version is removed, in nanoseconds: 30 days.
pub const MAX_AGE: i128 = 30 * 24 * 60 * 60 * 1_000_000_000;

/// How far a sweep through a candidate directory has come.
#[derive(Debug, Clone, Copy, PartialEq, Eq, Structural)]
pub enum SweepPhase {
    /// The directory is being listed.
    Listing,
    /// The entry at `at` is being described.
    Inspecting { at: usize, now: i128 },
    /// The entry at `at` is being removed.
    Evicting { at: usize, now: i128 },
    /// The sweep is over.
    Swept,
}

/// Whether `name` names a published version other than `key`.
pub open spec fn is_sibling(key: Seq<u8>, name: Seq<u8>) -> bool {
    name != key && version_prefix().is_prefix_of(name)
}

/// Whether an entry is a directory that was last modified more than `MAX_AGE`
/// before `now`. One whose time of modification is unknown is never stale.
pub open spec fn is_stale(meta: Option<EntryMeta>, now: i128) -> bool {
    match meta {
        Some(EntryMeta { is_dir, modified: Some(modified) }) => is_dir && now - modified > MAX_AGE,
        _ => false,
    }
}

/// The position of the first sibling of `key` in `names` from `from` on, or the
/// number of names where there is none.
pub open spec fn next_sibling(key: Seq<u8>, names: Seq<Seq<u8>>, from: int) -> int
    decreases names.len() - from,
{
    if from >= names.len() {
        names.len() as int
    } else if is_sibling(key, names[from]) {
        from
    } else {
        next_sibling(key, names, from + 1)
    }
}

/// A sweep that has dealt with the entries before `from`.
pub open spec fn sweep_from(key: Seq<u8>, names: Seq<Seq<u8>>, from: int, now: i128) -> SweepPhase {
    let at = next_sibling(key, names, from);
    if at < names.len() {
        SweepPhase::Inspecting { at: at as usize, now }
    } else {
        SweepPhase::Swept
    }
}

/// The sweep after `reply`. A reply that does not answer what the sweep asked
/// leaves it where it is.
pub open spec fn next_sweep(
    key: Seq<u8>,
    names: Seq<Seq<u8>>,
    phase: SweepPhase,
    reply: Reply,
) -> SweepPhase {
    match (phase, reply) {
        (SweepPhase::Listing, Reply::Listed { now: Some(now) }) => sweep_from(key, names, 0, now),
        (SweepPhase::Listing, Reply::Listed { now: None }) => SweepPhase::Swept,
        (SweepPhase::Inspecting { at, now }, Reply::Described { meta }) => if is_stale(meta, now) {
            SweepPhase::Evicting { at, now }
        } else {
            sweep_from(key, names, at + 1, now)
        },
        (SweepPhase::Evicting { at, now }, Reply::Answer { .. }) => sweep_from(
            key,
            names,
            at + 1,
            now,
        ),
        _ => phase,
    }
}

/// Whether the sweep stands at a sibling of `key`, or at no entry.
pub open spec fn sweep_wf(key: Seq<u8>, names: Seq<Seq<u8>>, phase: SweepPhase) -> bool {
    match phase {
        SweepPhase::Inspecting { at, .. } => at < names.len() && is_sibling(key, names[at as int]),
        SweepPhase::Evicting { at, .. } => at < names.len() && is_sibling(key, names[at as int]),
        _ => true,
    }
}

/// Whether an entry is a directory that has not been modified for `MAX_AGE`.
fn stale(meta: Option<EntryMeta>, now: i128) -> (stale: bool)
    ensures
        stale == is_stale(meta, now),
{
    match meta {
        Some(meta) => match meta.modified {
            Some(modified) => meta.is_dir && modified < now && match now.checked_sub(modified) {
                Some(age) => age > MAX_AGE,
                None => true,
            },
            None => false,
        },
        None => false,
    }
}

/// Moves the sweep to the first sibling of `key` from `from` on.
fn seek(key: &CacheKey, names: &Vec<Vec<u8>>, from: usize, now: i128) -> (phase: SweepPhase)
    requires
        from <= names@.len(),
    ensures
        phase == sweep_from(key@, names_view(names@), from as int, now),
        sweep_wf(key@, names_view(names@), phase),
{
    let ghost list = names_view(names@);
    let prefix = version_prefix_bytes();
    let mut at: usize = from;
    while at < names.len()
        invariant
            list == names_view(names@),
            prefix@ == version_prefix(),
            from <= at <= names.len(),
            next_sibling(key@, list, from as int) == next_sibling(key@, list, at as int),
        decreases names.len() - at,
    {
        assert(list[at as int] == names@[at as int]@);
        if !same_name(&names[at], key.as_name()) && starts_with(&names[at], &prefix) {
            return SweepPhase::Inspecting { at, now };
        }
        at = at + 1;
    }
    SweepPhase::Swept
}

/// Moves the sweep to the first sibling of `key` after `at`.
fn seek_after(key: &CacheKey, names: &Vec<Vec<u8>>, at: usize, now: i128) -> (phase: SweepPhase)
    ensures
        phase == sweep_from(key@, names_view(names@), at + 1, now),
        sweep_wf(key@, names_view(names@), phase),
{
    if at < names.len() {
        seek(key, names, at + 1, now)
    } else {
        SweepPhase::Swept
    }
}

/// Advances a sweep through the entries `names` of a candidate directory: it
/// removes the directories of versions other than `key` that are older than
/// [`MAX_AGE`], one after the other. It never asks for more of an entry that does
/// not name a version, such as a directory under construction, nor of `key`.
pub fn gc_stale(key: &CacheKey, names: &Vec<Vec<u8>>, phase: SweepPhase, reply: Reply) -> (next:
    SweepPhase)
    ensures
        next == next_sweep(key@, names_view(names@), phase, reply),
        sweep_wf(key@, names_view(names@), phase) ==> sweep_wf(key@, names_view(names@), next),
{
    match (phase, reply) {
        (SweepPhase::Listing, Reply::Listed { now: Some(now) }) => seek(key, names, 0, now),
        (SweepPhase::Listing, Reply::Listed { now: None }) => SweepPhase::Swept,
        (SweepPhase::Inspecting { at, now }, Reply::Described { meta }) => if stale(meta, now) {
            SweepPhase::Evicting { at, now }
        } else {
            seek_after(key, names, at, now)
        },
        (SweepPhase::Evicting { at, now }, Reply::Answer { .. }) => seek_after(
            key,
            names,
            at,
            now,
        ),
        _ => phase,
    }
}

/// What `next_sibling` finds.
pub(crate) proof fn lemma_next_sibling(key: Seq<u8>, names: Seq<Seq<u8>>, from: int)
    requires
        0 <= from <= names.len(),
    ensures
        from <= next_sibling(key, names, from) <= names.len(),
        next_sibling(key, names, from) < names.len() ==> is_sibling(
            key,
            names[next_sibling(key, names, from)],
        ),
        forall|k: int|
            from <= k < next_sibling(key, names, from) ==> !is_sibling(key, #[trigger] names[k]),
    decreases names.len() - from,
{
    if from < names.len() && !is_sibling(key, names[from]) {
        lemma_next_sibling(key, names, from + 1);
    }
}

/// The positions of the entries that a sweep removes from `phase` on, in order,
/// where `meta` says what each entry is described as and `gone` whether its
/// removal succeeds.
pub open spec fn evictions(
    key: Seq<u8>,
    names: Seq<Seq<u8>>,
    meta: spec_fn(usize) -> Option<EntryMeta>,
    gone: spec_fn(usize) -> bool,
    phase: SweepPhase,
) -> Seq<usize>
    decreases sweep_rank(names, phase),
        when names.len() <= usize::MAX
        via evictions_terminates
{
    match phase {
        SweepPhase::Inspecting { at, .. } => evictions(
            key,
            names,
            meta,
            gone,
            next_sweep(key, names, phase, Reply::Described { meta: meta(at) }),
        ),
        SweepPhase::Evicting { at, .. } => seq![at] + evictions(
            key,
            names,
            meta,
            gone,
            next_sweep(key, names, phase, Reply::Answer { yes: gone(at) }),
        ),
        _ => Seq::empty(),
    }
}

/// How much a sweep still has before it, once the directory is listed.
pub open spec fn sweep_rank(names: Seq<Seq<u8>>, phase: SweepPhase) -> nat {
    match phase {
        SweepPhase::Inspecting { at, .. } if at < names.len() => (2 * (names.len() - at)) as nat,
        SweepPhase::Evicting { at, .. } if at < names.len() => (2 * (names.len() - at) - 1) as nat,
        SweepPhase::Inspecting { .. } => 2,
        SweepPhase::Evicting { .. } => 1,
        _ => 0,
    }
}

#[via_fn]
proof fn evictions_terminates(
    key: Seq<u8>,
    names: Seq<Seq<u8>>,
    meta: spec_fn(usize) -> Option<EntryMeta>,
    gone: spec_fn(usize) -> bool,
    phase: SweepPhase,
) {
    match phase {
        SweepPhase::Inspecting { at, .. } | SweepPhase::Evicting { at, .. } => {
            if at < names.len() {
                lemma_next_sibling(key, names, at + 1);
            }
        },
        _ => {},
    }
}

/// A sweep removes what it should and nothing else: of the entries listed, exactly
/// the directories of other versions that are older than `MAX_AGE`, each once and
/// in the order listed, whether or not a removal succeeds. The current version and
/// any directory under construction are not among them.
pub proof fn sweep_evicts_stale_siblings(
    key: Seq<u8>,
    names: Seq<Seq<u8>>,
    meta: spec_fn(usize) -> Option<EntryMeta>,
    gone: spec_fn(usize) -> bool,
    now: i128,
)
    requires
        names.len() <= usize::MAX,
    ensures
        ({
            let listed = next_sweep(
                key,
                names,
                SweepPhase::Listing,
                Reply::Listed { now: Some(now) },
            );
            let removed = evictions(key, names, meta, gone, listed);
            &&& forall|at: usize|
                #[trigger] removed.contains(at) <==> at < names.len() && is_sibling(
                    key,
                    names[at as int],
                ) && is_stale(meta(at), now)
            &&& forall|i: int, j: int|
                0 <= i < j < removed.len() ==> #[trigger] removed[i] < #[trigger] removed[j]
            &&& forall|i: int|
                0 <= i < removed.len() ==> names[#[trigger] removed[i] as int] != key
            &&& forall|i: int, other: Seq<u8>, pid: u32, suffix: u64|
                0 <= i < removed.len() ==> names[#[trigger] removed[i] as int]
                    != #[trigger] tmp_name(other, pid, suffix)
        }),
{
    lemma_evictions_from(key, names, meta, gone, now, 0);
    let listed = next_sweep(key, names, SweepPhase::Listing, Reply::Listed { now: Some(now) });
    let removed = evictions(key, names, meta, gone, listed);
    assert forall|i: int| 0 <= i < removed.len() implies names[#[trigger] removed[i] as int]
        != key by {
        assert(removed.contains(removed[i]));
    }
    assert forall|i: int, other: Seq<u8>, pid: u32, suffix: u64|
        0 <= i < removed.len() implies names[#[trigger] removed[i] as int]
        != #[trigger] tmp_name(other, pid, suffix) by {
        assert(removed.contains(removed[i]));
        tmp_name_is_no_version(other, pid, suffix);
    }
}

proof fn lemma_evictions_from(
    key: Seq<u8>,
    names: Seq<Seq<u8>>,
    meta: spec_fn(usize) -> Option<EntryMeta>,
    gone: spec_fn(usize) -> bool,
    now: i128,
    from: int,
)
    requires
        names.len() <= usize::MAX,
        0 <= from <= names.len(),
    ensures
        ({
            let removed = evictions(key, names, meta, gone, sweep_from(key, names, from, now));
            &&& forall|at: usize|
                #[trigger] removed.contains(at) <==> from <= at < names.len() && is_sibling(
                    key,
                    names[at as int],
                ) && is_stale(meta(at), now)
            &&& forall|i: int, j: int|
                0 <= i < j < removed.len() ==> #[trigger] removed[i] < #[trigger] removed[j]
        }),
    decreases names.len() - from,
{
    lemma_next_sibling(key, names, from);
    let start = sweep_from(key, names, from, now);
    let removed = evictions(key, names, meta, gone, start);
    let first = next_sibling(key, names, from);
    if first < names.len() {
        let at = first as usize;
        lemma_evictions_from(key, names, meta, gone, now, first + 1);
        let rest = evictions(key, names, meta, gone, sweep_from(key, names, first + 1, now));
        if is_stale(meta(at), now) {
            let evicting = SweepPhase::Evicting { at, now };
            assert(next_sweep(key, names, start, Reply::Described { meta: meta(at) }) == evicting);
            assert(removed == evictions(key, names, meta, gone, evicting));
            assert(removed == seq![at] + rest);
            assert forall|x: usize| #[trigger] removed.contains(x) <==> x == at || rest.contains(
                x,
            ) by {
                assert(removed[0] == at);
                if rest.contains(x) {
                    let i = choose|i: int| 0 <= i < rest.len() && rest[i] == x;
                    assert(removed[i + 1] == x);
                }
                if removed.contains(x) {
                    let i = choose|i: int| 0 <= i < removed.len() && removed[i] == x;
                    if i > 0 {
                        assert(rest[i - 1] == x);
                    }
                }
            }
            assert forall|i: int, j: int| 0 <= i < j < removed.len() implies #[trigger] removed[i]
                < #[trigger] removed[j] by {
                assert(rest.contains(rest[j - 1]));
                if i > 0 {
                    assert(rest[i - 1] < rest[j - 1]);
                }
            }
        } else {
            assert(removed == rest);
        }
    } else {
        assert(removed =~= Seq::empty());
    }
}

/// A name is that of another version exactly where it is not the key and its first eight
/// bytes are `runtime-`, whatever follows them.
pub proof fn sibling_by_its_bytes(key: Seq<u8>, name: Seq<u8>)
    ensures
        is_sibling(key, name) <==> name != key && name.len() >= 8 && name.take(8) == seq![
            0x72u8, 0x75, 0x6e, 0x74, 0x69, 0x6d, 0x65, 0x2d,
        ],
{
    fixed_names();
    if name.len() >= 8 {
        assert(name.take(8) =~= name.subrange(0, 8));
    }
}

/// An entry is stale exactly where it is a directory whose last change is known and lies
/// more than 30 days of nanoseconds back.
pub proof fn stale_by_its_age(meta: Option<EntryMeta>, now: i128)
    ensures
        is_stale(meta, now) <==> meta is Some && meta->0.is_dir && meta->0.modified is Some && now
            - meta->0.modified->0 > 2_592_000_000_000_000,
{
}

/// Of the entries listed, a sweep removes exactly those that are not called like the
/// current version, whose name begins with `runtime-`, and which are directories last
/// changed more than 30 days before the listing. Where there is no listing it is over.
pub proof fn sweep_removes_old_versions(
    key: Seq<u8>,
    names: Seq<Seq<u8>>,
    meta: spec_fn(usize) -> Option<EntryMeta>,
    gone: spec_fn(usize) -> bool,
    now: i128,
)
    requires
        names.len() <= usize::MAX,
    ensures
        ({
            let listed = next_sweep(
                key,
                names,
                SweepPhase::Listing,
                Reply::Listed { now: Some(now) },
            );
            let removed = evictions(key, names, meta, gone, listed);
            forall|at: usize| #[trigger]
                removed.contains(at) <==> {
                    &&& at < names.len()
                    &&& names[at as int] != key
                    &&& names[at as int].len() >= 8
                    &&& names[at as int].take(8) == seq![
                        0x72u8, 0x75, 0x6e, 0x74, 0x69, 0x6d, 0x65, 0x2d,
                    ]
                    &&& meta(at) is Some && meta(at)->0.is_dir && meta(at)->0.modified is Some
                    &&& now - meta(at)->0.modified->0 > 2_592_000_000_000_000
                }
        }),
        next_sweep(key, names, SweepPhase::Listing, Reply::Listed { now: None })
            == SweepPhase::Swept,
{
    sweep_evicts_stale_siblings(key, names, meta, gone, now);
    let listed = next_sweep(key, names, SweepPhase::Listing, Reply::Listed { now: Some(now) });
    let removed = evictions(key, names, meta, gone, listed);
    assert forall|at: usize| #[trigger] removed.contains(at) <==> {
        &&& at < names.len()
        &&& names[at as int] != key
        &&& names[at as int].len() >= 8
        &&& names[at as int].take(8) == seq![0x72u8, 0x75, 0x6e, 0x74, 0x69, 0x6d, 0x65, 0x2d]
        &&& meta(at) is Some && meta(at)->0.is_dir && meta(at)->0.modified is Some
        &&& now - meta(at)->0.modified->0 > 2_592_000_000_000_000
    } by {
        if at < names.len() {
            sibling_by_its_bytes(key, names[at as int]);
        }
        stale_by_its_age(meta(at), now);
    }
}

/// A sweep looks at the entries one by one: once the directory is listed, and again
/// after each entry that it has dealt with, it goes to the next one that is called
/// `runtime-` something and not like the current version, and leaves none out. An entry
/// that is too old it removes before it goes on. Behind the last entry it is over.
pub proof fn sweep_goes_to_the_next_version(
    key: Seq<u8>,
    names: Seq<Seq<u8>>,
    at: usize,
    now: i128,
    meta: Option<EntryMeta>,
    yes: bool,
)
    requires
        names.len() <= usize::MAX,
    ensures
        ({
            let start = next_sweep(
                key,
                names,
                SweepPhase::Listing,
                Reply::Listed { now: Some(now) },
            );
            let looked = next_sweep(
                key,
                names,
                SweepPhase::Inspecting { at, now },
                Reply::Described { meta },
            );
            let removed = next_sweep(
                key,
                names,
                SweepPhase::Evicting { at, now },
                Reply::Answer { yes },
            );
            let old = meta is Some && meta->0.is_dir && meta->0.modified is Some && now
                - meta->0.modified->0 > 2_592_000_000_000_000;
            &&& old ==> looked == (SweepPhase::Evicting { at, now })
            &&& !old ==> looked == removed
            &&& goes_on(names, key, 0, now, start)
            &&& at < names.len() ==> goes_on(names, key, at + 1, now, removed)
            &&& at >= names.len() ==> removed == SweepPhase::Swept
        }),
{
    stale_by_its_age(meta, now);
    lemma_sweep_from(key, names, 0, now);
    if at < names.len() {
        lemma_sweep_from(key, names, at + 1, now);
    }
}

/// Whether `phase` is that of a sweep which looks at the first entry from `from` on that
/// is called `runtime-` something and not like `key`, or is over where there is none.
pub open spec fn goes_on(
    names: Seq<Seq<u8>>,
    key: Seq<u8>,
    from: int,
    now: i128,
    phase: SweepPhase,
) -> bool {
    let end = match phase {
        SweepPhase::Inspecting { at, .. } => at as int,
        _ => names.len() as int,
    };
    &&& phase == SweepPhase::Swept || phase == (SweepPhase::Inspecting { at: end as usize, now })
    &&& from <= end <= names.len()
    &&& phase is Inspecting ==> end < names.len() && names[end] != key && names[end].len() >= 8
        && names[end].take(8) == seq![0x72u8, 0x75, 0x6e, 0x74, 0x69, 0x6d, 0x65, 0x2d]
    &&& forall|k: int|
        from <= k < end ==> (#[trigger] names[k]) == key || names[k].len() < 8 || names[k].take(8)
            != seq![0x72u8, 0x75, 0x6e, 0x74, 0x69, 0x6d, 0x65, 0x2d]
}

proof fn lemma_sweep_from(key: Seq<u8>, names: Seq<Seq<u8>>, from: int, now: i128)
    requires
        0 <= from <= names.len() <= usize::MAX,
    ensures
        goes_on(names, key, from, now, sweep_from(key, names, from, now)),
{
    lemma_next_sibling(key, names, from);
    let end = next_sibling(key, names, from);
    if end < names.len() {
        sibling_by_its_bytes(key, names[end]);
    }
    assert forall|k: int| from <= k < end implies (#[trigger] names[k]) == key || names[k].len() < 8
        || names[k].take(8) != seq![0x72u8, 0x75, 0x6e, 0x74, 0x69, 0x6d, 0x65, 0x2d] by {
        sibling_by_its_bytes(key, names[k]);
    }
}

/// A sweep that is over stays over, and one that is not takes no reply but to what it
/// asked.
pub proof fn sweep_waits_for_its_reply(
    key: Seq<u8>,
    names: Seq<Seq<u8>>,
    phase: SweepPhase,
    reply: Reply,
)
    ensures
        phase is Swept ==> next_sweep(key, names, phase, reply) == phase,
        phase is Listing && !(reply is Listed) ==> next_sweep(key, names, phase, reply) == phase,
        phase is Inspecting && !(reply is Described) ==> next_sweep(key, names, phase, reply)
            == phase,
        phase is Evicting && !(reply is Answer) ==> next_sweep(key, names, phase, reply) == phase,
{
}

} // verus!
