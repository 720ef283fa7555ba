use runtime_cache::{
    base_candidates, extract_once, rand_suffix, CacheKey, CachePath, Event, Extraction, Place, Tmp,
};

fn path(text: &str) -> CachePath {
    let mut parts = vec![b"/".to_vec()];
    for part in text.split('/') {
        if !part.is_empty() {
            parts.push(part.as_bytes().to_vec());
        }
    }
    CachePath { parts }
}

fn key(text: &str) -> Option<CacheKey> {
    CacheKey::new(&text.as_bytes().to_vec())
}

fn located(text: &str) -> Extraction {
    let mut run = Extraction::new(key(text).unwrap());
    let event =
        Event::Located { cache_dir: Some(path("/home/u/.cache/nub")), temp_dir: path("/tmp") };
    extract_once(&mut run, event);
    run
}

#[test]
fn suffix_mixes_clock_and_tick() {
    assert_eq!(rand_suffix(None, 0), 0);
    assert_eq!(rand_suffix(Some(5), 0), 5);
    assert_eq!(rand_suffix(None, 1), 0x9E37_79B9_7F4A_7C15);
    assert_eq!(rand_suffix(None, 2), 0x3C6E_F372_FE94_F82A);
    assert_eq!(rand_suffix(Some(0xFF), 1), 0x9E37_79B9_7F4A_7CEA);
    assert_eq!(rand_suffix(None, u64::MAX), 0x61C8_8646_80B5_83EB);
}

#[test]
fn suffix_takes_the_low_bits_of_the_clock() {
    assert_eq!(rand_suffix(Some(0x1_0000_0000_0000_0007), 0), 7);
    assert_eq!(rand_suffix(Some(u128::MAX), 0), u64::MAX);
}

#[test]
fn suffixes_of_one_clock_reading_differ() {
    let mut seen = Vec::new();
    for tick in 0..1000u64 {
        let suffix = rand_suffix(Some(1_700_000_000_000_000_000), tick);
        assert!(!seen.contains(&suffix));
        seen.push(suffix);
    }
    assert_ne!(rand_suffix(Some(1), 3), rand_suffix(Some(2), 3));
}

#[test]
fn key_must_name_a_version() {
    assert!(key("runtime-test-deadbeef").is_some());
    assert!(key("runtime-").is_some());
    assert!(key("").is_none());
    assert!(key("runtime").is_none());
    assert!(key("Runtime-1").is_none());
    assert!(key("runtime-1/2").is_none());
    assert!(key("runtime-1\\2").is_none());
    assert!(key("runtime-1\0").is_none());
    assert_eq!(key("runtime-1.2.3-0badf00d").unwrap().as_name(), b"runtime-1.2.3-0badf00d");
}

#[test]
fn places_have_the_documented_paths() {
    let run = located("runtime-0.1.0-deadbeef");
    let home = "/home/u/.cache/nub";
    assert_eq!(run.path_of(Place::Base { base: 0 }), Some(path(home)));
    assert_eq!(run.path_of(Place::Base { base: 1 }), Some(path("/tmp/nub")));
    assert_eq!(
        run.path_of(Place::Target { base: 0 }),
        Some(path("/home/u/.cache/nub/runtime-0.1.0-deadbeef"))
    );
    assert_eq!(
        run.path_of(Place::Sentinel { base: 1 }),
        Some(path("/tmp/nub/runtime-0.1.0-deadbeef/preload.mjs"))
    );
    let tmp = Tmp { pid: 4100, suffix: 18446744073709551615 };
    assert_eq!(
        run.path_of(Place::Tmp { base: 0, tmp }),
        Some(path("/home/u/.cache/nub/.runtime-0.1.0-deadbeef.4100.18446744073709551615.tmp"))
    );
    let tmp = Tmp { pid: 0, suffix: 10 };
    assert_eq!(
        run.path_of(Place::Tmp { base: 1, tmp }),
        Some(path("/tmp/nub/.runtime-0.1.0-deadbeef.0.10.tmp"))
    );
}

#[test]
fn unknown_places_have_no_path() {
    let run = located("runtime-a");
    assert_eq!(run.path_of(Place::Base { base: 2 }), None);
    assert_eq!(run.path_of(Place::Target { base: usize::MAX }), None);
    assert_eq!(run.path_of(Place::Sibling { base: 0, at: 0 }), None);
    let fresh = Extraction::new(key("runtime-a").unwrap());
    assert_eq!(fresh.path_of(Place::Base { base: 0 }), None);
}

#[test]
fn builds_of_different_processes_have_different_paths() {
    let run = located("runtime-a");
    let place = |pid: u32, suffix: u64| run.path_of(Place::Tmp { base: 0, tmp: Tmp { pid, suffix } });
    assert_ne!(place(1, 23), place(12, 3));
    assert_ne!(place(1, 2), place(2, 1));
    assert_eq!(place(7, 8), place(7, 8));
}

#[test]
fn candidates_come_in_order_of_priority() {
    let cache = path("/home/u/.cache/nub");
    assert_eq!(
        base_candidates(Some(cache.clone()), &path("/tmp")),
        vec![cache, path("/tmp/nub")]
    );
    assert_eq!(base_candidates(None, &path("/var/tmp")), vec![path("/var/tmp/nub")]);
}

#[test]
fn candidates_are_not_listed_twice() {
    assert_eq!(base_candidates(Some(path("/tmp/nub")), &path("/tmp")), vec![path("/tmp/nub")]);
    assert_eq!(
        base_candidates(Some(path("/tmp/nub/nub")), &path("/tmp")),
        vec![path("/tmp/nub/nub"), path("/tmp/nub")]
    );
}

#[test]
fn paths_are_compared_by_their_components() {
    assert!(path("/a/b").same(&path("/a/b")));
    assert!(!path("/a/b").same(&path("/a/c")));
    assert!(!path("/a/b").same(&path("/a")));
    assert!(!path("/a/b").same(&path("/ab")));
    assert_eq!(path("/a").join(&b"b".to_vec()), path("/a/b"));
}
