use runtime_cache::{
    ensure_runtime, extract_once, gc_stale, try_extract, Action, AttemptPhase, CacheKey, CachePath,
    Demand, EntryMeta, Event, Extraction, Listing, Place, Reply, Stamp, SweepPhase, Tmp, MAX_AGE,
};
use std::collections::BTreeMap;

const DAY: i128 = 24 * 60 * 60 * 1_000_000_000;
const NOW: i128 = 1_700_000_000_000_000_000;

fn path(text: &str) -> CachePath {
    let mut parts = vec![b"/".to_vec()];
    for part in text.split('/') {
        if !part.is_empty() {
            parts.push(part.as_bytes().to_vec());
        }
    }
    CachePath { parts }
}

fn key(text: &str) -> CacheKey {
    CacheKey::new(&text.as_bytes().to_vec()).unwrap()
}

fn text(path: &CachePath) -> String {
    let mut out = String::new();
    for part in &path.parts[1..] {
        out.push('/');
        out.push_str(std::str::from_utf8(part).unwrap());
    }
    out
}

/// A file system in memory: each directory with the time of its last change and
/// whether it holds the sentinel.
struct FakeFs {
    dirs: BTreeMap<String, (i128, bool)>,
    read_only: Vec<String>,
    unpack_works: bool,
    /// Whether a rename replaces a directory that is not complete, as it does an empty
    /// one.
    replaces_leftovers: bool,
    /// Another extractor that publishes this directory just before a rename.
    rival: Option<String>,
    ticks: u64,
    actions: Vec<Action>,
}

impl FakeFs {
    fn new() -> FakeFs {
        FakeFs {
            dirs: BTreeMap::new(),
            read_only: Vec::new(),
            unpack_works: true,
            replaces_leftovers: false,
            rival: None,
            ticks: 0,
            actions: Vec::new(),
        }
    }

    fn remove(&mut self, dir: &str) -> bool {
        let below = format!("{}/", dir);
        let count = self.dirs.len();
        self.dirs.retain(|path, _| path != dir && !path.starts_with(&below));
        count != self.dirs.len()
    }

    fn perform(&mut self, run: &Extraction, action: Action) -> Event {
        self.actions.push(action);
        let at = |place: Place| text(&run.path_of(place).unwrap());
        let yes = match action {
            Action::Locate => {
                return Event::Located {
                    cache_dir: Some(path("/home/u/.cache/nub")),
                    temp_dir: path("/tmp"),
                }
            }
            Action::TakeStamp => {
                self.ticks += 1;
                let stamp = Stamp { pid: 77, clock: Some(1000), tick: self.ticks - 1 };
                return Event::Stamped { stamp };
            }
            Action::List { place } => {
                let prefix = format!("{}/", at(place));
                let mut names = Vec::new();
                for path in self.dirs.keys() {
                    if let Some(name) = path.strip_prefix(&prefix) {
                        names.push(name.as_bytes().to_vec());
                    }
                }
                return Event::Listed { listing: Some(Listing { names, now: NOW }) };
            }
            Action::Describe { place } => {
                let meta = self
                    .dirs
                    .get(&at(place))
                    .map(|(modified, _)| EntryMeta { is_dir: true, modified: Some(*modified) });
                return Event::Described { meta };
            }
            Action::ProbeFile { place } => {
                let file = at(place);
                let dir = file.strip_suffix("/preload.mjs").unwrap();
                self.dirs.get(dir).map_or(false, |(_, complete)| *complete)
            }
            Action::CreateDirs { place } => {
                let dir = at(place);
                if self.read_only.iter().any(|base| dir.starts_with(base.as_str())) {
                    false
                } else {
                    self.dirs.entry(dir).or_insert((NOW, false));
                    true
                }
            }
            Action::RemoveTree { place } => self.remove(&at(place)),
            Action::Unpack { place } => {
                self.dirs.insert(at(place), (NOW, self.unpack_works));
                self.unpack_works
            }
            Action::Rename { from, to } => {
                if let Some(dir) = self.rival.take() {
                    self.dirs.insert(dir, (NOW, true));
                }
                let (from, to) = (at(from), at(to));
                let occupied = match self.dirs.get(&to) {
                    Some((_, complete)) => *complete || !self.replaces_leftovers,
                    None => false,
                };
                if occupied {
                    false
                } else {
                    let state = self.dirs.remove(&from).unwrap();
                    self.dirs.insert(to, state);
                    true
                }
            }
        };
        Event::Answered { yes }
    }

    fn search(&mut self, key_text: &str) -> (Extraction, Option<String>) {
        let mut run = Extraction::new(key(key_text));
        self.actions.clear();
        loop {
            match ensure_runtime(&run) {
                Demand::Ready { runtime } => return (run, runtime.map(|path| text(&path))),
                Demand::Perform { action } => {
                    let event = self.perform(&run, action);
                    extract_once(&mut run, event);
                }
            }
        }
    }
}

#[test]
fn extract_then_atomic_rename_is_idempotent() {
    let mut fs = FakeFs::new();
    let (_, a) = fs.search("runtime-test-deadbeef");
    assert_eq!(a.as_deref(), Some("/home/u/.cache/nub/runtime-test-deadbeef"));
    assert!(fs.actions.iter().any(|action| matches!(action, Action::Unpack { .. })));
    let before = fs.dirs.clone();
    let (_, b) = fs.search("runtime-test-deadbeef");
    assert_eq!(a, b);
    assert_eq!(fs.dirs, before, "second pass must not re-extract");
    assert_eq!(
        fs.actions,
        vec![Action::Locate, Action::ProbeFile { place: Place::Sentinel { base: 0 } }]
    );
}

#[test]
fn first_run_takes_the_documented_steps() {
    let mut fs = FakeFs::new();
    fs.search("runtime-a");
    let tmp = Tmp { pid: 77, suffix: 1000 };
    let place = Place::Tmp { base: 0, tmp };
    assert_eq!(
        fs.actions,
        vec![
            Action::Locate,
            Action::ProbeFile { place: Place::Sentinel { base: 0 } },
            Action::ProbeFile { place: Place::Sentinel { base: 1 } },
            Action::CreateDirs { place: Place::Base { base: 0 } },
            Action::TakeStamp,
            Action::RemoveTree { place },
            Action::CreateDirs { place },
            Action::Unpack { place },
            Action::Rename { from: place, to: Place::Target { base: 0 } },
            Action::List { place: Place::Base { base: 0 } },
        ]
    );
    assert!(!fs.dirs.keys().any(|dir| dir.starts_with("/tmp")), "the fallback stays untouched");
}

#[test]
fn read_only_base_create_probe_fails_cleanly() {
    let mut fs = FakeFs::new();
    fs.read_only = vec!["/home".to_string()];
    let (_, found) = fs.search("runtime-a");
    assert_eq!(found.as_deref(), Some("/tmp/nub/runtime-a"));
    assert!(!fs.dirs.keys().any(|dir| dir.starts_with("/home")));
    let (_, again) = fs.search("runtime-a");
    assert_eq!(again, found);
    assert_eq!(fs.actions.len(), 3);
}

#[test]
fn no_writable_base_gives_none() {
    let mut fs = FakeFs::new();
    fs.read_only = vec!["/".to_string()];
    let (_, found) = fs.search("runtime-a");
    assert_eq!(found, None);
    assert!(fs.dirs.is_empty());
}

#[test]
fn blob_that_does_not_unpack_leaves_nothing_behind() {
    let mut fs = FakeFs::new();
    fs.unpack_works = false;
    let (_, found) = fs.search("runtime-a");
    assert_eq!(found, None);
    let left: Vec<&String> = fs.dirs.keys().collect();
    assert_eq!(left, vec!["/home/u/.cache/nub", "/tmp/nub"]);
    let unpacked: Vec<&Action> =
        fs.actions.iter().filter(|action| matches!(action, Action::Unpack { .. })).collect();
    assert_eq!(unpacked.len(), 2);
}

#[test]
fn loser_of_a_race_adopts_the_winners_directory() {
    let mut fs = FakeFs::new();
    fs.rival = Some("/home/u/.cache/nub/runtime-a".to_string());
    let (_, found) = fs.search("runtime-a");
    assert_eq!(found.as_deref(), Some("/home/u/.cache/nub/runtime-a"));
    assert!(!fs.dirs.keys().any(|dir| dir.ends_with(".tmp")));
    assert!(!fs.actions.iter().any(|action| matches!(action, Action::List { .. })));
}

#[test]
fn empty_leftover_directory_is_not_trusted() {
    let mut fs = FakeFs::new();
    fs.replaces_leftovers = true;
    fs.dirs.insert("/home/u/.cache/nub/runtime-a".to_string(), (NOW, false));
    let (_, found) = fs.search("runtime-a");
    assert_eq!(found.as_deref(), Some("/home/u/.cache/nub/runtime-a"));
    assert!(fs.dirs["/home/u/.cache/nub/runtime-a"].1, "the leftover must be replaced");
    assert!(fs.actions.iter().any(|action| matches!(action, Action::Unpack { .. })));
}

#[test]
fn leftover_that_cannot_be_replaced_is_not_given_out() {
    let mut fs = FakeFs::new();
    fs.dirs.insert("/home/u/.cache/nub/runtime-a".to_string(), (NOW, false));
    let (_, found) = fs.search("runtime-a");
    assert_eq!(found.as_deref(), Some("/tmp/nub/runtime-a"));
    assert!(fs.dirs["/tmp/nub/runtime-a"].1);
    assert!(!fs.dirs.keys().any(|dir| dir.ends_with(".tmp")));
    let probes: Vec<&Action> = fs
        .actions
        .iter()
        .filter(|action| **action == Action::ProbeFile { place: Place::Sentinel { base: 0 } })
        .collect();
    assert_eq!(probes.len(), 2);
    // The next search finds the copy that this one has made.
    let (_, again) = fs.search("runtime-a");
    assert_eq!(again, found);
    assert_eq!(fs.actions.len(), 3);

    let mut fs = FakeFs::new();
    fs.dirs.insert("/home/u/.cache/nub/runtime-a".to_string(), (NOW, false));
    fs.dirs.insert("/tmp/nub/runtime-a".to_string(), (NOW, false));
    assert_eq!(fs.search("runtime-a").1, None);
}

#[test]
fn version_that_was_swept_is_published_anew() {
    let mut fs = FakeFs::new();
    let old = "/home/u/.cache/nub/runtime-old".to_string();
    fs.dirs.insert(old.clone(), (NOW - 40 * DAY, true));
    fs.search("runtime-new");
    assert!(!fs.dirs.contains_key(&old));
    let (_, found) = fs.search("runtime-old");
    assert_eq!(found, Some(old.clone()));
    assert!(fs.dirs[&old].1);
    assert!(fs.dirs.contains_key("/home/u/.cache/nub/runtime-new"));
}

#[test]
fn fallback_copy_is_found_by_the_second_probe() {
    let mut fs = FakeFs::new();
    fs.dirs.insert("/tmp/nub/runtime-a".to_string(), (NOW, true));
    let (_, found) = fs.search("runtime-a");
    assert_eq!(found.as_deref(), Some("/tmp/nub/runtime-a"));
    assert_eq!(fs.actions.len(), 3);
}

#[test]
fn answer_is_kept_once_it_is_known() {
    let mut fs = FakeFs::new();
    let (mut run, found) = fs.search("runtime-a");
    for yes in [true, false] {
        extract_once(&mut run, Event::Answered { yes });
        extract_once(&mut run, Event::Located { cache_dir: None, temp_dir: path("/elsewhere") });
        match ensure_runtime(&run) {
            Demand::Ready { runtime } => assert_eq!(runtime.map(|path| text(&path)), found),
            Demand::Perform { .. } => panic!("the search is over"),
        }
    }
}

#[test]
fn unasked_events_change_nothing() {
    let mut run = Extraction::new(key("runtime-a"));
    extract_once(&mut run, Event::Answered { yes: true });
    assert_eq!(ensure_runtime(&run), Demand::Perform { action: Action::Locate });
    extract_once(&mut run, Event::Located { cache_dir: None, temp_dir: path("/tmp") });
    let probe = Demand::Perform { action: Action::ProbeFile { place: Place::Sentinel { base: 0 } } };
    assert_eq!(ensure_runtime(&run), probe);
    extract_once(&mut run, Event::Listed { listing: None });
    extract_once(&mut run, Event::Described { meta: None });
    assert_eq!(ensure_runtime(&run), probe);
}

#[test]
fn gc_evicts_stale_keeps_current_and_tmp() {
    let mut fs = FakeFs::new();
    let home = "/home/u/.cache/nub";
    fs.dirs.insert(format!("{}/runtime-old", home), (NOW - 40 * DAY, true));
    fs.dirs.insert(format!("{}/.runtime-old.123.tmp", home), (NOW - 40 * DAY, false));
    fs.dirs.insert(format!("{}/runtime-new", home), (NOW - DAY, true));
    fs.dirs.insert(format!("{}/other", home), (NOW - 40 * DAY, false));
    let (_, found) = fs.search("runtime-cur");
    let current = format!("{}/runtime-cur", home);
    assert_eq!(found.as_deref(), Some(current.as_str()));
    assert!(fs.dirs.contains_key(&current), "current version must survive GC");
    assert!(
        !fs.dirs.contains_key(&format!("{}/runtime-old", home)),
        "a >30d sibling must be evicted"
    );
    assert!(
        fs.dirs.contains_key(&format!("{}/.runtime-old.123.tmp", home)),
        "an in-progress .tmp dir must never be touched"
    );
    assert!(fs.dirs.contains_key(&format!("{}/runtime-new", home)));
    assert!(fs.dirs.contains_key(&format!("{}/other", home)));
}

fn sweep_names() -> Vec<Vec<u8>> {
    let names = [".runtime-old.1.2.tmp", "runtime-cur", "runtime-", "runtim", "runtime-x"];
    names.iter().map(|name| name.as_bytes().to_vec()).collect()
}

fn inspect(modified: Option<i128>, is_dir: bool) -> SweepPhase {
    let phase = SweepPhase::Inspecting { at: 2, now: NOW };
    let meta = Some(EntryMeta { is_dir, modified });
    gc_stale(&key("runtime-cur"), &sweep_names(), phase, Reply::Described { meta })
}

#[test]
fn sweep_asks_only_for_other_versions() {
    let cur = key("runtime-cur");
    let names = sweep_names();
    let first = gc_stale(&cur, &names, SweepPhase::Listing, Reply::Listed { now: Some(NOW) });
    assert_eq!(first, SweepPhase::Inspecting { at: 2, now: NOW });
    let second = gc_stale(&cur, &names, first, Reply::Described { meta: None });
    assert_eq!(second, SweepPhase::Inspecting { at: 4, now: NOW });
    let end = gc_stale(&cur, &names, second, Reply::Described { meta: None });
    assert_eq!(end, SweepPhase::Swept);
    assert_eq!(gc_stale(&cur, &names, end, Reply::Answer { yes: true }), SweepPhase::Swept);
    let failed = gc_stale(&cur, &names, SweepPhase::Listing, Reply::Listed { now: None });
    assert_eq!(failed, SweepPhase::Swept);
}

#[test]
fn sweep_evicts_past_the_age_limit_only() {
    let spared = SweepPhase::Inspecting { at: 4, now: NOW };
    let evicted = SweepPhase::Evicting { at: 2, now: NOW };
    assert_eq!(MAX_AGE, 30 * DAY);
    assert_eq!(inspect(Some(NOW - 30 * DAY), true), spared);
    assert_eq!(inspect(Some(NOW - 30 * DAY - 1), true), evicted);
    assert_eq!(inspect(Some(NOW + 40 * DAY), true), spared);
    assert_eq!(inspect(Some(-5), true), evicted);
    assert_eq!(inspect(Some(i128::MIN), true), evicted);
    assert_eq!(inspect(Some(NOW - 40 * DAY), false), spared);
    assert_eq!(inspect(None, true), spared);
}

#[test]
fn sweep_goes_on_after_a_failed_removal() {
    let cur = key("runtime-cur");
    let evicting = SweepPhase::Evicting { at: 2, now: NOW };
    for yes in [true, false] {
        assert_eq!(
            gc_stale(&cur, &sweep_names(), evicting, Reply::Answer { yes }),
            SweepPhase::Inspecting { at: 4, now: NOW }
        );
    }
    let beyond = SweepPhase::Evicting { at: usize::MAX, now: NOW };
    assert_eq!(
        gc_stale(&cur, &sweep_names(), beyond, Reply::Answer { yes: true }),
        SweepPhase::Swept
    );
}

#[test]
fn attempt_ends_where_the_documentation_says() {
    let cur = key("runtime-cur");
    let step = |phase: AttemptPhase, reply: Reply| try_extract(&cur, &Vec::new(), phase, reply);
    let (yes, no) = (Reply::Answer { yes: true }, Reply::Answer { yes: false });
    let tmp = Tmp { pid: 9, suffix: 0x9E37_79B9_7F4A_7C15 };
    assert_eq!(step(AttemptPhase::CreatingBase, no), AttemptPhase::Over { usable: false });
    assert_eq!(step(AttemptPhase::CreatingBase, yes), AttemptPhase::Stamping);
    let stamp = Stamp { pid: 9, clock: None, tick: 1 };
    assert_eq!(
        step(AttemptPhase::Stamping, Reply::Stamped { stamp }),
        AttemptPhase::Clearing { tmp }
    );
    assert_eq!(step(AttemptPhase::Clearing { tmp }, no), AttemptPhase::CreatingTmp { tmp });
    assert_eq!(step(AttemptPhase::CreatingTmp { tmp }, no), AttemptPhase::Over { usable: false });
    assert_eq!(step(AttemptPhase::Unpacking { tmp }, no), AttemptPhase::Discarding { tmp });
    assert_eq!(step(AttemptPhase::Discarding { tmp }, yes), AttemptPhase::Over { usable: false });
    assert_eq!(
        step(AttemptPhase::Publishing { tmp }, yes),
        AttemptPhase::Sweeping { sweep: SweepPhase::Listing }
    );
    assert_eq!(step(AttemptPhase::Publishing { tmp }, no), AttemptPhase::Withdrawing { tmp });
    assert_eq!(step(AttemptPhase::Withdrawing { tmp }, no), AttemptPhase::Adopting);
    assert_eq!(step(AttemptPhase::Adopting, yes), AttemptPhase::Over { usable: true });
    assert_eq!(step(AttemptPhase::Adopting, no), AttemptPhase::Over { usable: false });
    let sweeping = AttemptPhase::Sweeping { sweep: SweepPhase::Listing };
    assert_eq!(step(sweeping, Reply::Listed { now: None }), AttemptPhase::Over { usable: true });
}

#[test]
fn searches_side_by_side_publish_only_complete_copies() {
    for offset in 0..12usize {
        let mut fs = FakeFs::new();
        fs.dirs.insert("/home/u/.cache/nub/runtime-old".to_string(), (NOW - 31 * DAY, true));
        let mut runs = Vec::new();
        for name in ["runtime-a", "runtime-a", "runtime-b"] {
            runs.push(Extraction::new(key(name)));
        }
        let mut turn = 0usize;
        let mut ended = [false; 3];
        while ended.iter().any(|end| !end) {
            // The first search runs ahead by `offset` steps, then all take turns.
            let n = if turn < offset { 0 } else { turn % 3 };
            turn += 1;
            match ensure_runtime(&runs[n]) {
                Demand::Ready { runtime } => {
                    ended[n] = true;
                    let dir = text(&runtime.unwrap());
                    assert!(fs.dirs[&dir].1, "{} must be complete", dir);
                }
                Demand::Perform { action } => {
                    let event = fs.perform(&runs[n], action);
                    extract_once(&mut runs[n], event);
                }
            }
            for (dir, (_, complete)) in &fs.dirs {
                if dir.contains("/runtime-") {
                    assert!(*complete, "{} must be complete", dir);
                }
            }
        }
        let left: Vec<&String> = fs.dirs.keys().collect();
        assert_eq!(
            left,
            vec![
                "/home/u/.cache/nub",
                "/home/u/.cache/nub/runtime-a",
                "/home/u/.cache/nub/runtime-b"
            ]
        );
    }
}
