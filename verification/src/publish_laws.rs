//! What holds of the published directories while any number of searches, for one
//! version or several, run side by side, each of which may stop for good at any point.

use vstd::prelude::*;

use crate::attempt::AttemptPhase;
use crate::extraction::{
    fresh, next_extraction, pending, place_path, EventView, ExtractionView, Phase,
};
use crate::names::{
    fixed_names, is_cache_key, sentinel_name, tmp_name, tmp_name_is_no_version, version_prefix,
};
use crate::protocol::{Action, Place};
use crate::search_laws::{answers, fits, search_stays_wf};

verus! {

/// What a directory holds of the runtime.
pub ghost enum Tree {
    /// Not all of any version, or nothing, with or without the file that marks a
    /// complete copy.
    Partial { sentinel: bool },
    /// All of one version, and so that file too.
    Complete { version: Seq<u8> },
}

/// Whether a directory holds the file that marks a complete copy, `preload.mjs`.
pub open spec fn holds_sentinel(tree: Tree) -> bool {
    match tree {
        Tree::Partial { sentinel } => sentinel,
        Tree::Complete { .. } => true,
    }
}

/// The directories of a file system, and the searches that work on them.
pub ghost struct World {
    /// All candidate directories of all searches.
    pub homes: Set<Seq<Seq<u8>>>,
    /// The directories that there are.
    pub dirs: Map<Seq<Seq<u8>>, Tree>,
    /// The directories that a sweep has begun to remove as too old, and that were not
    /// published anew since.
    pub swept: Set<Seq<Seq<u8>>>,
    /// The searches that run or have run.
    pub searches: Map<nat, ExtractionView>,
}

/// Whether the directories are the same but for what lies at or below `path`.
pub open spec fn same_outside(
    path: Seq<Seq<u8>>,
    before: Map<Seq<Seq<u8>>, Tree>,
    after: Map<Seq<Seq<u8>>, Tree>,
) -> bool {
    forall|p: Seq<Seq<u8>>|
        !path.is_prefix_of(p) ==> {
            &&& #[trigger] after.contains_key(p) <==> before.contains_key(p)
            &&& before.contains_key(p) ==> after[p] == before[p]
        }
}

/// What an action can do to the directories where `event` is reported of it. Every
/// action counts as one moment. The rename is atomic: it moves a directory as it is or
/// changes nothing. A removal or an extraction may stop anywhere, and leave anything at
/// or below its directory.
pub open spec fn effect(
    v: ExtractionView,
    action: Action,
    event: EventView,
    before: Map<Seq<Seq<u8>>, Tree>,
    after: Map<Seq<Seq<u8>>, Tree>,
) -> bool {
    let yes = event matches EventView::Answered { yes } && yes;
    match action {
        Action::ProbeFile { place } => {
            let file = place_path(v, place)->0;
            let dir = file.drop_last();
            &&& after == before
            &&& yes <==> before.contains_key(dir) && holds_sentinel(before[dir]) && file.last()
                == seq![0x70u8, 0x72, 0x65, 0x6c, 0x6f, 0x61, 0x64, 0x2e, 0x6d, 0x6a, 0x73]
        },
        Action::CreateDirs { place } => {
            let path = place_path(v, place)->0;
            &&& yes ==> after.contains_key(path)
            &&& forall|p: Seq<Seq<u8>>|
                before.contains_key(p) ==> #[trigger] after.contains_key(p) && after[p] == before[p]
            &&& forall|p: Seq<Seq<u8>>| #[trigger]
                after.contains_key(p) && !before.contains_key(p) ==> p.is_prefix_of(path)
                    && after[p] == (Tree::Partial { sentinel: false })
        },
        Action::RemoveTree { place } => same_outside(place_path(v, place)->0, before, after),
        Action::Unpack { place } => {
            let path = place_path(v, place)->0;
            &&& same_outside(path, before, after)
            &&& yes ==> after.contains_key(path) && after[path] == (Tree::Complete {
                version: v.key,
            })
        },
        Action::Rename { from, to } => {
            let (source, target) = (place_path(v, from)->0, place_path(v, to)->0);
            if yes {
                &&& before.contains_key(source)
                &&& after.contains_key(target)
                &&& after[target] == before[source]
                &&& forall|p: Seq<Seq<u8>>|
                    !source.is_prefix_of(p) && !target.is_prefix_of(p) ==> {
                        &&& #[trigger] after.contains_key(p) <==> before.contains_key(p)
                        &&& before.contains_key(p) ==> after[p] == before[p]
                    }
            } else {
                after == before
            }
        },
        _ => after == before,
    }
}

/// The published directory of a version under a candidate directory.
pub open spec fn target(home: Seq<Seq<u8>>, key: Seq<u8>) -> Seq<Seq<u8>> {
    home.push(key)
}

/// The directory that a search builds in, from the moment that it has taken a stamp
/// for it.
pub open spec fn build_path(v: ExtractionView) -> Option<Seq<Seq<u8>>> {
    match v.phase {
        Phase::Attempting { base, attempt } => {
            let tmp = match attempt {
                AttemptPhase::Clearing { tmp } => Some(tmp),
                AttemptPhase::CreatingTmp { tmp } => Some(tmp),
                AttemptPhase::Unpacking { tmp } => Some(tmp),
                AttemptPhase::Discarding { tmp } => Some(tmp),
                AttemptPhase::Publishing { tmp } => Some(tmp),
                AttemptPhase::Withdrawing { tmp } => Some(tmp),
                _ => None,
            };
            match tmp {
                Some(tmp) => Some(
                    v.bases[base as int].push(tmp_name(v.key, tmp.pid, tmp.suffix)),
                ),
                None => None,
            }
        },
        _ => None,
    }
}

/// The candidate under which a search has come to a usable directory.
pub open spec fn usable_base(v: ExtractionView) -> Option<usize> {
    match v.phase {
        Phase::Attempting { base, attempt: AttemptPhase::Sweeping { .. } } => Some(base),
        Phase::Done { found } => found,
        _ => None,
    }
}

/// Whether the cache gives out `name`, to a published version or to a directory under
/// construction.
pub open spec fn is_cache_name(name: Seq<u8>) -> bool {
    ||| version_prefix().is_prefix_of(name)
    ||| exists|key: Seq<u8>, pid: u32, suffix: u64| name == #[trigger] tmp_name(key, pid, suffix)
}

impl World {
    /// What the surroundings have to see to: the searches keep to the candidate
    /// directories, none of which lies inside a directory of the cache, and no two
    /// searches build in the same directory.
    pub open spec fn orderly(self) -> bool {
        &&& forall|n: nat, base: int|
            self.searches.contains_key(n) && 0 <= base < self.searches[n].bases.len()
                ==> self.homes.contains(#[trigger] self.searches[n].bases[base])
        &&& forall|outer: Seq<Seq<u8>>, inner: Seq<Seq<u8>>|
            #![trigger self.homes.contains(outer), self.homes.contains(inner)]
            self.homes.contains(outer) && self.homes.contains(inner) && outer.is_prefix_of(inner)
                && outer.len() < inner.len() ==> !is_cache_name(inner[outer.len() as int])
        &&& forall|m: nat, n: nat|
            #![trigger self.searches[m], self.searches[n]]
            self.searches.contains_key(m) && self.searches.contains_key(n) && m != n
                && build_path(self.searches[m]) is Some ==> build_path(self.searches[m])
                != build_path(self.searches[n])
    }

    /// Every published directory that no sweep has begun to remove holds all of its
    /// version.
    pub open spec fn targets_intact(self) -> bool {
        forall|home: Seq<Seq<u8>>, key: Seq<u8>|
            self.homes.contains(home) && is_cache_key(key) && self.dirs.contains_key(
                #[trigger] target(home, key),
            ) && !self.swept.contains(target(home, key)) ==> self.dirs[target(home, key)]
                == (Tree::Complete { version: key })
    }

    /// A directory that is about to be published is complete.
    pub open spec fn build_is_ready(self, v: ExtractionView) -> bool {
        v.phase matches Phase::Attempting { attempt: AttemptPhase::Publishing { .. }, .. } ==> {
            let path = build_path(v)->0;
            self.dirs.contains_key(path) && self.dirs[path] == (Tree::Complete { version: v.key })
        }
    }

    /// A directory that a search has come to is there and holds the file that marks it
    /// as complete, unless a sweep has begun to remove it.
    pub open spec fn answer_is_there(self, v: ExtractionView) -> bool {
        usable_base(v) matches Some(base) ==> {
            let path = target(v.bases[base as int], v.key);
            self.swept.contains(path) || self.dirs.contains_key(path) && holds_sentinel(
                self.dirs[path],
            )
        }
    }

    /// Whether some search looks for another version than the directory at `path`.
    pub open spec fn has_rival(self, path: Seq<Seq<u8>>) -> bool {
        exists|n: nat| #[trigger] self.searches.contains_key(n) && self.searches[n].key != path.last()
    }

    /// What every step keeps, whatever leftovers there are.
    pub open spec fn sound(self) -> bool {
        &&& forall|n: nat| #[trigger]
            self.searches.contains_key(n) ==> {
                &&& self.searches[n].wf()
                &&& self.build_is_ready(self.searches[n])
                &&& self.answer_is_there(self.searches[n])
            }
        &&& forall|path: Seq<Seq<u8>>| #[trigger]
            self.swept.contains(path) ==> self.has_rival(path)
    }
}

/// Whether `after` follows from `before` by search `n` carrying out what it has to do,
/// with the outcome that `event` reports.
pub open spec fn search_step(before: World, after: World, n: nat, event: EventView) -> bool {
    let v = before.searches[n];
    &&& before.searches.contains_key(n)
    &&& pending(v) matches Some(action) && answers(action, event) && effect(
        v,
        action,
        event,
        before.dirs,
        after.dirs,
    )
    &&& fits(event)
    &&& after.homes == before.homes
    &&& after.swept == match pending(v) {
        Some(Action::RemoveTree { place: Place::Sibling { base, at } }) => before.swept.insert(
            place_path(v, Place::Sibling { base, at })->0,
        ),
        Some(Action::Rename { to, .. }) => if event == (EventView::Answered { yes: true }) {
            before.swept.remove(place_path(v, to)->0)
        } else {
            before.swept
        },
        _ => before.swept,
    }
    &&& after.searches == before.searches.insert(n, next_extraction(v, event))
}

/// Whether `after` follows from `before` by a new search for version `key` setting out.
pub open spec fn search_joins(before: World, after: World, n: nat, key: Seq<u8>) -> bool {
    &&& !before.searches.contains_key(n)
    &&& is_cache_key(key)
    &&& after == World { searches: before.searches.insert(n, fresh(key)), ..before }
}

/// A directory of the cache never lies inside another one.
proof fn lemma_cache_dirs_not_nested(
    w: World,
    outer: Seq<Seq<u8>>,
    name: Seq<u8>,
    inner: Seq<Seq<u8>>,
    last: Seq<u8>,
)
    requires
        w.orderly(),
        w.homes.contains(outer),
        w.homes.contains(inner),
        is_cache_name(name),
        outer.push(name).is_prefix_of(inner.push(last)),
    ensures
        outer == inner,
        name == last,
{
    let (a, b) = (outer.push(name), inner.push(last));
    assert(a =~= b.subrange(0, a.len() as int));
    if outer.len() < inner.len() {
        assert(outer =~= inner.subrange(0, outer.len() as int)) by {
            assert forall|i: int| 0 <= i < outer.len() implies outer[i] == inner[i] by {
                assert(a[i] == b[i]);
            }
        }
        assert(a[outer.len() as int] == b[outer.len() as int]);
    } else {
        assert(a =~= b);
        assert(outer =~= a.drop_last());
        assert(inner =~= b.drop_last());
        assert(a.last() == name && b.last() == last);
    }
}

/// A candidate directory never lies in a published directory.
proof fn lemma_home_not_in_target(w: World, outer: Seq<Seq<u8>>, key: Seq<u8>, inner: Seq<Seq<u8>>)
    requires
        w.orderly(),
        w.homes.contains(outer),
        w.homes.contains(inner),
        is_cache_key(key),
    ensures
        !target(outer, key).is_prefix_of(inner),
{
    let a = target(outer, key);
    if a.is_prefix_of(inner) {
        assert(a =~= inner.subrange(0, a.len() as int));
        assert(outer =~= inner.subrange(0, outer.len() as int)) by {
            assert forall|i: int| 0 <= i < outer.len() implies outer[i] == inner[i] by {
                assert(a[i] == inner[i]);
            }
        }
        assert(a[outer.len() as int] == inner[outer.len() as int]);
        assert(is_cache_name(key));
    }
}

/// The tree that an action of search `n` may change anything in, `None` where it
/// changes nothing that was there before.
spec fn touched(v: ExtractionView, action: Action) -> Option<Seq<Seq<u8>>> {
    match action {
        Action::RemoveTree { place } => place_path(v, place),
        Action::Unpack { place } => place_path(v, place),
        Action::Rename { from, .. } => place_path(v, from),
        _ => None,
    }
}

/// The tree that a search changes anything in holds no published directory but one
/// that is being swept, and nothing that another search builds in.
proof fn lemma_touched(w: World, n: nat)
    requires
        w.orderly(),
        w.sound(),
        w.searches.contains_key(n),
        pending(w.searches[n]) is Some,
        touched(w.searches[n], pending(w.searches[n])->0) is Some,
    ensures
        ({
            let v = w.searches[n];
            let action = pending(v)->0;
            let path = touched(v, action)->0;
            &&& forall|home: Seq<Seq<u8>>, key: Seq<u8>|
                w.homes.contains(home) && is_cache_key(key) && path.is_prefix_of(
                    #[trigger] target(home, key),
                ) ==> {
                    &&& action matches Action::RemoveTree { place: Place::Sibling { .. } }
                    &&& path == target(home, key)
                }
            &&& forall|m: nat|
                #![trigger w.searches[m]]
                w.searches.contains_key(m) && m != n && build_path(w.searches[m]) is Some
                    ==> !path.is_prefix_of(build_path(w.searches[m])->0)
        }),
{
    let v = w.searches[n];
    let action = pending(v)->0;
    let path = touched(v, action)->0;
    let own = v.bases[v.phase->Attempting_base as int];
    assert(w.homes.contains(w.searches[n].bases[v.phase->Attempting_base as int]));
    let name = path.last();
    assert(path == own.push(name));
    assert(is_cache_name(name));
    assert forall|home: Seq<Seq<u8>>, key: Seq<u8>|
        w.homes.contains(home) && is_cache_key(key) && path.is_prefix_of(
            #[trigger] target(home, key),
        ) implies (action matches Action::RemoveTree { place: Place::Sibling { .. } }) && path
        == target(home, key) by {
        lemma_cache_dirs_not_nested(w, own, name, home, key);
        if let Some(build) = build_path(v) {
            lemma_build_name(v);
        }
    }
    assert forall|m: nat|
        #![trigger w.searches[m]]
        w.searches.contains_key(m) && m != n && build_path(
            w.searches[m],
        ) is Some implies !path.is_prefix_of(build_path(w.searches[m])->0) by {
        let u = w.searches[m];
        let build = build_path(u)->0;
        let base = u.phase->Attempting_base as int;
        assert(w.homes.contains(w.searches[m].bases[base]));
        lemma_build_name(u);
        assert(build == u.bases[base].push(build.last()));
        if path.is_prefix_of(build) {
            lemma_cache_dirs_not_nested(w, own, name, u.bases[base], build.last());
            assert(build_path(w.searches[m]) != build_path(w.searches[n]));
        }
    }
}

/// What a search builds in does not have the name of a version.
proof fn lemma_build_name(v: ExtractionView)
    requires
        v.wf(),
        build_path(v) is Some,
    ensures
        is_cache_name(build_path(v)->0.last()),
        !version_prefix().is_prefix_of(build_path(v)->0.last()),
{
    match v.phase {
        Phase::Attempting { base, attempt } => match attempt {
            AttemptPhase::Clearing { tmp } | AttemptPhase::CreatingTmp { tmp }
            | AttemptPhase::Unpacking { tmp } | AttemptPhase::Discarding { tmp }
            | AttemptPhase::Publishing { tmp } | AttemptPhase::Withdrawing { tmp } => {
                tmp_name_is_no_version(v.key, tmp.pid, tmp.suffix);
                assert(build_path(v)->0.last() == tmp_name(v.key, tmp.pid, tmp.suffix));
            },
            _ => {},
        },
        _ => {},
    }
}

/// No step that any search takes, in any order, takes a published directory's
/// integrity away, nor what holds of the searches.
pub proof fn publishing_stays_sound(before: World, after: World, n: nat, event: EventView)
    requires
        before.orderly(),
        before.sound(),
        after.orderly(),
        search_step(before, after, n, event),
    ensures
        after.sound(),
        before.targets_intact() ==> after.targets_intact(),
{
    let v = before.searches[n];
    let action = pending(v)->0;
    search_stays_wf(v, event);
    if touched(v, action) is Some {
        lemma_touched(before, n);
    }
    if before.targets_intact() {
        lemma_targets_kept(before, after, n, event);
    }
    assert forall|m: nat| #[trigger] after.searches.contains_key(m) implies after.searches[m].wf()
        && after.build_is_ready(after.searches[m]) && after.answer_is_there(after.searches[m]) by {
        assert(before.searches.contains_key(m));
        assert(before.searches[m].wf());
        lemma_build_kept(before, after, n, event, m);
        lemma_answer_kept(before, after, n, event, m);
    }
    assert forall|path: Seq<Seq<u8>>| #[trigger] after.swept.contains(path) implies after.has_rival(
        path,
    ) by {
        if before.swept.contains(path) {
            assert(before.has_rival(path));
            let m = choose|m: nat| #[trigger]
                before.searches.contains_key(m) && before.searches[m].key != path.last();
            assert(after.searches.contains_key(m) && after.searches[m].key != path.last());
        } else {
            assert(after.searches.contains_key(n) && after.searches[n].key != path.last());
        }
    }
}

proof fn lemma_targets_kept(before: World, after: World, n: nat, event: EventView)
    requires
        before.orderly(),
        before.sound(),
        before.targets_intact(),
        search_step(before, after, n, event),
    ensures
        after.targets_intact(),
{
    let v = before.searches[n];
    let action = pending(v)->0;
    assert(before.searches.contains_key(n));
    if touched(v, action) is Some {
        lemma_touched(before, n);
    }
    assert forall|home: Seq<Seq<u8>>, key: Seq<u8>|
        after.homes.contains(home) && is_cache_key(key) && after.dirs.contains_key(
            #[trigger] target(home, key),
        ) && !after.swept.contains(target(home, key)) implies after.dirs[target(home, key)]
        == (Tree::Complete { version: key }) by {
        let path = target(home, key);
        match action {
            Action::CreateDirs { place } => {
                lemma_target_not_created(before, n, place, home, key);
            },
            Action::Rename { from, to } => {
                let own = v.bases[v.phase->Attempting_base as int];
                assert(before.homes.contains(
                    before.searches[n].bases[v.phase->Attempting_base as int],
                ));
                assert(before.build_is_ready(v));
                assert(place_path(v, from) == build_path(v));
                assert(is_cache_name(v.key));
                if target(own, v.key).is_prefix_of(path) {
                    lemma_cache_dirs_not_nested(before, own, v.key, home, key);
                }
            },
            _ => {},
        }
    }
}

/// A published directory does not come to be as the parent of another.
proof fn lemma_target_not_created(
    w: World,
    n: nat,
    place: Place,
    home: Seq<Seq<u8>>,
    key: Seq<u8>,
)
    requires
        w.orderly(),
        w.sound(),
        w.searches.contains_key(n),
        pending(w.searches[n]) == Some(Action::CreateDirs { place }),
        w.homes.contains(home),
        is_cache_key(key),
    ensures
        !target(home, key).is_prefix_of(place_path(w.searches[n], place)->0),
{
    let v = w.searches[n];
    let own = v.bases[v.phase->Attempting_base as int];
    assert(w.homes.contains(w.searches[n].bases[v.phase->Attempting_base as int]));
    match place {
        Place::Base { .. } => {
            lemma_home_not_in_target(w, home, key, own);
        },
        _ => {
            lemma_build_name(v);
            let name = build_path(v)->0.last();
            assert(is_cache_name(key));
            if target(home, key).is_prefix_of(own.push(name)) {
                lemma_cache_dirs_not_nested(w, home, key, own, name);
            }
        },
    }
}

proof fn lemma_build_kept(before: World, after: World, n: nat, event: EventView, m: nat)
    requires
        before.orderly(),
        before.sound(),
        search_step(before, after, n, event),
        before.searches.contains_key(m),
    ensures
        after.build_is_ready(after.searches[m]),
{
    let v = before.searches[n];
    let action = pending(v)->0;
    assert(before.searches.contains_key(n));
    assert(before.build_is_ready(before.searches[m]));
    if m == n {
        let next = next_extraction(v, event);
        if let Phase::Attempting { attempt: AttemptPhase::Publishing { tmp }, .. } = next.phase {
            assert(action matches Action::Unpack { place } && place_path(v, place) == build_path(
                next,
            ));
        }
    } else if build_path(before.searches[m]) is Some {
        let u = before.searches[m];
        assert(after.searches[m] == u);
        let base = u.phase->Attempting_base as int;
        assert(before.homes.contains(before.searches[m].bases[base]));
        lemma_build_name(u);
        if touched(v, action) is Some {
            lemma_touched(before, n);
        }
        if action is Rename {
            let build = build_path(u)->0;
            let own = v.bases[v.phase->Attempting_base as int];
            assert(before.homes.contains(before.searches[n].bases[v.phase->Attempting_base as int]));
            assert(is_cache_name(v.key));
            assert(build == u.bases[base].push(build.last()));
            if target(own, v.key).is_prefix_of(build) {
                lemma_cache_dirs_not_nested(before, own, v.key, u.bases[base], build.last());
            }
        }
    }
}

proof fn lemma_answer_kept(before: World, after: World, n: nat, event: EventView, m: nat)
    requires
        before.orderly(),
        before.sound(),
        search_step(before, after, n, event),
        before.searches.contains_key(m),
    ensures
        after.answer_is_there(after.searches[m]),
{
    let v = before.searches[n];
    let action = pending(v)->0;
    assert(before.searches.contains_key(n));
    assert(before.searches[m].wf());
    assert(before.answer_is_there(before.searches[m]));
    if touched(v, action) is Some {
        lemma_touched(before, n);
    }
    if let Action::Rename { from, .. } = action {
        assert(before.build_is_ready(v));
        assert(place_path(v, from) == build_path(v));
    }
    let u = after.searches[m];
    if let Some(base) = usable_base(u) {
        let home = u.bases[base as int];
        let path = target(home, u.key);
        if m == n && action is ProbeFile {
            assert(path.push(sentinel_name()).drop_last() =~= path);
        } else if usable_base(before.searches[m]) is Some {
            assert(before.homes.contains(before.searches[m].bases[base as int]));
            assert(path == target(before.searches[m].bases[base as int], before.searches[m].key));
            assert(path.subrange(0, path.len() as int) =~= path);
            if let Action::RemoveTree { place } = action {
                let removed = place_path(v, place)->0;
                assert(touched(v, action) == Some(removed));
                if removed.is_prefix_of(path) {
                    assert(removed == path);
                    assert(after.swept.contains(path));
                } else {
                    assert(after.dirs.contains_key(path) <==> before.dirs.contains_key(path));
                }
            }
            if action is Rename {
                let own = v.bases[v.phase->Attempting_base as int];
                assert(before.homes.contains(
                    before.searches[n].bases[v.phase->Attempting_base as int],
                ));
                assert(is_cache_name(v.key));
                let source = build_path(v)->0;
                assert(touched(v, action) == Some(source));
                assert(!source.is_prefix_of(path));
                if target(own, v.key).is_prefix_of(path) {
                    lemma_cache_dirs_not_nested(before, own, v.key, home, u.key);
                    assert(path == target(own, v.key));
                } else {
                    assert(path != target(own, v.key));
                    assert(after.dirs.contains_key(path) <==> before.dirs.contains_key(path));
                }
            }
        }
    }
}

/// Whether `after` follows from `before` by one search setting out or going on.
pub open spec fn world_step(before: World, after: World) -> bool {
    ||| exists|n: nat, key: Seq<u8>| search_joins(before, after, n, key)
    ||| exists|n: nat, event: EventView| search_step(before, after, n, event)
}

/// Whether `history` is what the world can go through from a start without searches:
/// searches set out and go on in any order, and any of them may stop for good. At the
/// start there may be any directories, leftovers of other programs among them.
pub open spec fn is_run(history: Seq<World>) -> bool {
    &&& history.len() > 0
    &&& history[0].searches == Map::<nat, ExtractionView>::empty()
    &&& history[0].swept == Set::<Seq<Seq<u8>>>::empty()
    &&& forall|i: int| 0 <= i < history.len() ==> (#[trigger] history[i]).orderly()
    &&& forall|i: int| 0 < i < history.len() ==> world_step(history[i - 1], #[trigger] history[i])
}

/// A run at whose start every published directory is complete: nothing but searches has
/// ever published one.
pub open spec fn is_history(history: Seq<World>) -> bool {
    is_run(history) && history[0].targets_intact()
}

/// A search gives out no directory without the file that marks it as complete,
/// whatever leftovers it comes upon: at every moment of every run, a directory that a
/// search has given out is there and holds that file, unless the sweep of another
/// version has begun to remove it and it was not published anew.
pub proof fn answers_hold_the_sentinel(history: Seq<World>, i: int, n: nat, base: usize)
    requires
        is_run(history),
        0 <= i < history.len(),
        history[i].searches.contains_key(n),
        usable_base(history[i].searches[n]) == Some(base),
    ensures
        ({
            let w = history[i];
            let path = target(w.searches[n].bases[base as int], w.searches[n].key);
            !w.swept.contains(path) ==> w.dirs.contains_key(path) && holds_sentinel(w.dirs[path])
        }),
{
    lemma_run_sound(history, i);
    assert(history[i].answer_is_there(history[i].searches[n]));
}

/// To exist is to be intact: at every moment, whatever searches run side by side and
/// wherever they stop, a published directory that is there holds all of exactly its
/// version, unless the sweep of another version has begun to remove it and it was not
/// published anew since. And every directory that a search has given out is there, with
/// the same exception.
pub proof fn existence_is_integrity(history: Seq<World>, i: int)
    requires
        is_history(history),
        0 <= i < history.len(),
    ensures
        ({
            let w = history[i];
            &&& forall|home: Seq<Seq<u8>>, key: Seq<u8>|
                w.homes.contains(home) && is_cache_key(key) && w.dirs.contains_key(
                    #[trigger] target(home, key),
                ) && !w.swept.contains(target(home, key)) ==> w.dirs[target(home, key)]
                    == (Tree::Complete { version: key })
            &&& forall|n: nat, base: usize|
                #![trigger w.searches[n].bases[base as int]]
                w.searches.contains_key(n) && usable_base(w.searches[n]) == Some(base) ==> {
                    let path = target(w.searches[n].bases[base as int], w.searches[n].key);
                    !w.swept.contains(path) ==> w.dirs.contains_key(path) && w.dirs[path]
                        == (Tree::Complete { version: w.searches[n].key })
                }
        }),
{
    lemma_run_sound(history, i);
    let w = history[i];
    assert forall|n: nat, base: usize|
        #![trigger w.searches[n].bases[base as int]]
        w.searches.contains_key(n) && usable_base(w.searches[n]) == Some(base) implies ({
        let path = target(w.searches[n].bases[base as int], w.searches[n].key);
        !w.swept.contains(path) ==> w.dirs.contains_key(path) && w.dirs[path] == (Tree::Complete {
            version: w.searches[n].key,
        })
    }) by {
        assert(w.searches[n].wf());
        assert(w.answer_is_there(w.searches[n]));
        assert(w.homes.contains(w.searches[n].bases[base as int]));
    }
}

/// Whether all searches that have set out look for version `key`.
pub open spec fn sole_version(w: World, key: Seq<u8>) -> bool {
    forall|n: nat| #[trigger] w.searches.contains_key(n) ==> w.searches[n].key == key
}

/// A version is swept only on behalf of another: while all searches look for one and
/// the same version, no sweep ever touches a published directory of it.
pub proof fn own_version_is_never_swept(
    history: Seq<World>,
    i: int,
    home: Seq<Seq<u8>>,
    key: Seq<u8>,
)
    requires
        is_run(history),
        0 <= i < history.len(),
        sole_version(history[i], key),
    ensures
        !history[i].swept.contains(target(home, key)),
{
    lemma_run_sound(history, i);
    assert(target(home, key).last() == key);
    if history[i].swept.contains(target(home, key)) {
        assert(history[i].has_rival(target(home, key)));
    }
}

/// Whether no sweep is removing the directory at `path` at any moment from `i` to `j`.
pub open spec fn unswept(history: Seq<World>, path: Seq<Seq<u8>>, i: int, j: int) -> bool {
    forall|k: int| i <= k <= j ==> !(#[trigger] history[k]).swept.contains(path)
}

/// Once a published directory is there it stays there, as long as no sweep of another
/// version removes it.
pub proof fn published_directory_stays(
    history: Seq<World>,
    i: int,
    j: int,
    home: Seq<Seq<u8>>,
    key: Seq<u8>,
)
    requires
        is_run(history),
        0 <= i <= j < history.len(),
        history[i].homes.contains(home),
        is_cache_key(key),
        unswept(history, target(home, key), i, j),
        history[i].dirs.contains_key(target(home, key)),
    ensures
        history[j].homes.contains(home),
        history[j].dirs.contains_key(target(home, key)),
    decreases j - i,
{
    if i < j {
        published_directory_stays(history, i, j - 1, home, key);
        let (before, after) = (history[j - 1], history[j]);
        assert(before.orderly() && after.orderly());
        assert(world_step(before, after));
        lemma_run_sound(history, j - 1);
        lemma_target_stays(before, after, home, key);
    }
}

/// While all searches look for one and the same version, a published directory of it
/// that is there stays there.
pub proof fn sole_version_stays(
    history: Seq<World>,
    i: int,
    j: int,
    home: Seq<Seq<u8>>,
    key: Seq<u8>,
)
    requires
        is_run(history),
        0 <= i <= j < history.len(),
        history[i].homes.contains(home),
        is_cache_key(key),
        sole_version(history[j], key),
        history[i].dirs.contains_key(target(home, key)),
    ensures
        history[j].dirs.contains_key(target(home, key)),
{
    assert forall|k: int| i <= k <= j implies !(#[trigger] history[k]).swept.contains(
        target(home, key),
    ) by {
        lemma_sole_version_before(history, k, j, key);
        own_version_is_never_swept(history, k, home, key);
    }
    published_directory_stays(history, i, j, home, key);
}

/// The published directory that a search has just been refused, where it goes from
/// state `v` to state `next`.
pub open spec fn refused_target(v: ExtractionView, next: ExtractionView) -> Option<Seq<Seq<u8>>> {
    match (v.phase, next.phase) {
        (
            Phase::Attempting { base, attempt: AttemptPhase::Publishing { .. } },
            Phase::Attempting { attempt: AttemptPhase::Withdrawing { .. }, .. },
        ) => Some(target(v.bases[base as int], v.key)),
        _ => None,
    }
}

/// Whether a rename is refused only where the published directory is there already.
pub open spec fn refused_only_if_there(history: Seq<World>) -> bool {
    forall|i: int, n: nat|
        #![trigger history[i].searches[n]]
        0 < i < history.len() && history[i - 1].searches.contains_key(n) ==> (refused_target(
            history[i - 1].searches[n],
            history[i].searches[n],
        ) matches Some(path) ==> history[i - 1].dirs.contains_key(path))
}

/// The candidate under which a search has unpacked the runtime, until it is over.
pub open spec fn unpacked_base(v: ExtractionView) -> Option<usize> {
    match v.phase {
        Phase::Attempting { base, attempt: AttemptPhase::Publishing { .. } } => Some(base),
        Phase::Attempting { base, attempt: AttemptPhase::Withdrawing { .. } } => Some(base),
        Phase::Attempting { base, attempt: AttemptPhase::Adopting } => Some(base),
        Phase::Attempting { base, attempt: AttemptPhase::Sweeping { .. } } => Some(base),
        _ => None,
    }
}

/// Every search that unpacks the runtime under a candidate is given that candidate's
/// published directory, its own or the winner's: from then on it stays with the
/// candidate until it is over, and it ends there. This is where renames are refused only
/// for a directory that is there, and no other version's sweep removes it.
pub proof fn unpacked_is_given_out(history: Seq<World>, i: int, n: nat, base: usize)
    requires
        is_history(history),
        refused_only_if_there(history),
        0 < i < history.len(),
        history[i - 1].searches.contains_key(n),
        unpacked_base(history[i - 1].searches[n]) == Some(base),
        unswept(
            history,
            target(
                history[i - 1].searches[n].bases[base as int],
                history[i - 1].searches[n].key,
            ),
            0,
            i,
        ),
    ensures
        ({
            let (v, next) = (history[i - 1].searches[n], history[i].searches[n]);
            &&& next.key == v.key && next.bases == v.bases
            &&& unpacked_base(next) == Some(base) || next.phase == (Phase::Done {
                found: Some(base),
            })
        }),
{
    let (before, after) = (history[i - 1], history[i]);
    let v = before.searches[n];
    let path = target(v.bases[base as int], v.key);
    lemma_run_sound(history, i - 1);
    assert(before.orderly());
    assert(before.searches[n].wf());
    assert(before.homes.contains(before.searches[n].bases[base as int]));
    assert(world_step(before, after));
    if v.phase matches Phase::Attempting { attempt: AttemptPhase::Adopting, .. } {
        lemma_winner_is_there(history, i - 1, n, base);
        assert(!history[i - 1].swept.contains(path));
        lemma_adoption(before, after, n, base);
    }
}

/// A search that asks for the winner's directory finds it.
proof fn lemma_adoption(before: World, after: World, n: nat, base: usize)
    requires
        before.targets_intact(),
        world_step(before, after),
        before.searches.contains_key(n),
        before.searches[n].wf(),
        before.searches[n].phase == (Phase::Attempting { base, attempt: AttemptPhase::Adopting }),
        before.homes.contains(before.searches[n].bases[base as int]),
        before.dirs.contains_key(
            target(before.searches[n].bases[base as int], before.searches[n].key),
        ),
        !before.swept.contains(
            target(before.searches[n].bases[base as int], before.searches[n].key),
        ),
    ensures
        ({
            let (v, next) = (before.searches[n], after.searches[n]);
            &&& next.key == v.key && next.bases == v.bases
            &&& next == v || next.phase == (Phase::Done { found: Some(base) })
        }),
{
    let v = before.searches[n];
    let path = target(v.bases[base as int], v.key);
    fixed_names();
    assert(place_path(v, Place::Sentinel { base }) == Some(path.push(sentinel_name())));
    assert(path.push(sentinel_name()).drop_last() =~= path);
    assert(path.push(sentinel_name()).last() == sentinel_name());
    assert(holds_sentinel(before.dirs[path]));
}

/// A search whose rename was refused has the winner's directory there.
proof fn lemma_winner_is_there(history: Seq<World>, i: int, n: nat, base: usize)
    requires
        is_history(history),
        refused_only_if_there(history),
        0 <= i < history.len(),
        history[i].searches.contains_key(n),
        history[i].searches[n].phase matches Phase::Attempting { base: b, attempt } && b == base && (
        attempt is Withdrawing || attempt is Adopting),
        unswept(
            history,
            target(history[i].searches[n].bases[base as int], history[i].searches[n].key),
            0,
            i,
        ),
    ensures
        history[i].dirs.contains_key(
            target(history[i].searches[n].bases[base as int], history[i].searches[n].key),
        ),
    decreases i,
{
    let after = history[i];
    let v = after.searches[n];
    if i > 0 {
        let before = history[i - 1];
        lemma_run_sound(history, i - 1);
        lemma_run_sound(history, i);
        assert(before.orderly() && after.orderly());
        assert(after.searches[n].wf());
        assert(after.homes.contains(after.searches[n].bases[base as int]));
        assert(world_step(before, after));
        assert(before.searches.contains_key(n));
        let u = before.searches[n];
        assert(u.wf());
        assert(u.key == v.key && u.bases == v.bases);
        assert(u.phase matches Phase::Attempting { base: b, .. } && b == base);
        if !(u.phase->Attempting_attempt is Publishing) {
            lemma_winner_is_there(history, i - 1, n, base);
        }
        lemma_target_stays(before, after, v.bases[base as int], v.key);
    }
}

/// A step leaves a published directory there, unless it is the step of a sweep that
/// removes it.
proof fn lemma_target_stays(before: World, after: World, home: Seq<Seq<u8>>, key: Seq<u8>)
    requires
        before.orderly(),
        before.sound(),
        world_step(before, after),
        before.homes.contains(home),
        is_cache_key(key),
        before.dirs.contains_key(target(home, key)),
        !after.swept.contains(target(home, key)),
    ensures
        after.homes.contains(home),
        after.dirs.contains_key(target(home, key)),
{
    if !exists|n: nat, key: Seq<u8>| search_joins(before, after, n, key) {
        let (n, event) = choose|n: nat, event: EventView| search_step(before, after, n, event);
        let v = before.searches[n];
        let action = pending(v)->0;
        let path = target(home, key);
        assert(v.wf());
        if touched(v, action) is Some {
            lemma_touched(before, n);
        }
        if action is Rename {
            let own = v.bases[v.phase->Attempting_base as int];
            assert(before.homes.contains(before.searches[n].bases[v.phase->Attempting_base as int]));
            assert(is_cache_name(v.key));
            if target(own, v.key).is_prefix_of(path) {
                lemma_cache_dirs_not_nested(before, own, v.key, home, key);
            }
        }
    }
}

/// Searches are only ever added, and each keeps its version.
proof fn lemma_sole_version_before(history: Seq<World>, i: int, j: int, key: Seq<u8>)
    requires
        is_run(history),
        0 <= i <= j < history.len(),
        sole_version(history[j], key),
    ensures
        sole_version(history[i], key),
    decreases j - i,
{
    if i < j {
        let (before, after) = (history[j - 1], history[j]);
        assert(world_step(before, after));
        assert forall|n: nat| #[trigger] before.searches.contains_key(n) implies before.searches[n].key
            == key by {
            assert(after.searches.contains_key(n));
            assert(after.searches[n].key == before.searches[n].key);
        }
        lemma_sole_version_before(history, i, j - 1, key);
    }
}

proof fn lemma_run_sound(history: Seq<World>, i: int)
    requires
        is_run(history),
        0 <= i < history.len(),
    ensures
        history[i].sound(),
        is_history(history) ==> history[i].targets_intact(),
    decreases i,
{
    if i > 0 {
        lemma_run_sound(history, i - 1);
        let (before, after) = (history[i - 1], history[i]);
        assert(before.orderly() && after.orderly());
        assert(world_step(before, after));
        if exists|n: nat, key: Seq<u8>| search_joins(before, after, n, key) {
            let (n, key) = choose|n: nat, key: Seq<u8>| search_joins(before, after, n, key);
            assert forall|m: nat| #[trigger]
                after.searches.contains_key(m) implies after.searches[m].wf()
                && after.build_is_ready(after.searches[m]) && after.answer_is_there(
                after.searches[m],
            ) by {
                if m != n {
                    assert(before.searches.contains_key(m));
                    assert(before.build_is_ready(before.searches[m]));
                    assert(before.answer_is_there(before.searches[m]));
                }
            }
            assert forall|path: Seq<Seq<u8>>| #[trigger]
                after.swept.contains(path) implies after.has_rival(path) by {
                assert(before.swept.contains(path));
                assert(before.has_rival(path));
                let m = choose|m: nat| #[trigger]
                    before.searches.contains_key(m) && before.searches[m].key != path.last();
                assert(after.searches.contains_key(m) && after.searches[m].key != path.last());
            }
        } else {
            let (n, event) = choose|n: nat, event: EventView| search_step(before, after, n, event);
            publishing_stays_sound(before, after, n, event);
        }
    }
}

} // verus!
