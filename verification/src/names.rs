//! The names that the cache gives to its directories.

use vstd::prelude::*;

use crate::path::{append_name, copy_name, starts_with};

verus! {

/// The byte `.`.
pub const DOT: u8 = 0x2e;

/// The byte `/`.
pub const SLASH: u8 = 0x2f;

/// The byte `\`.
pub const BACKSLASH: u8 = 0x5c;

/// The byte `0`.
pub const ZERO: u8 = 0x30;

/// ASCII text as bytes.
pub open spec fn ascii(text: Seq<char>) -> Seq<u8> {
    text.map_values(|c: char| c as u8)
}

/// The bytes of ASCII text.
fn ascii_bytes(text: &str) -> (bytes: Vec<u8>)
    requires
        vstd::string::is_ascii(text),
    ensures
        bytes@ == ascii(text@),
{
    proof {
        vstd::string::is_ascii_spec_bytes(text);
    }
    let bytes = vstd::slice::slice_to_vec(text.as_bytes());
    assert(bytes@ =~= ascii(text@));
    bytes
}

/// `runtime-`, which every published version's directory name begins with.
pub open spec fn version_prefix() -> Seq<u8> {
    ascii("runtime-"@)
}

/// `preload.mjs`, the file whose presence marks a complete extraction.
pub open spec fn sentinel_name() -> Seq<u8> {
    ascii("preload.mjs"@)
}

/// `nub`, the cache's directory under the system's temporary directory.
pub open spec fn temp_base_name() -> Seq<u8> {
    ascii("nub"@)
}

/// Returns `runtime-`.
pub fn version_prefix_bytes() -> (name: Vec<u8>)
    ensures
        name@ == version_prefix(),
{
    proof {
        reveal_strlit("runtime-");
    }
    ascii_bytes("runtime-")
}

/// Returns `preload.mjs`.
pub fn sentinel_bytes() -> (name: Vec<u8>)
    ensures
        name@ == sentinel_name(),
{
    proof {
        reveal_strlit("preload.mjs");
    }
    ascii_bytes("preload.mjs")
}

/// Returns `nub`.
pub fn temp_base_bytes() -> (name: Vec<u8>)
    ensures
        name@ == temp_base_name(),
{
    proof {
        reveal_strlit("nub");
    }
    ascii_bytes("nub")
}

/// Whether `byte` can stand inside a single file name.
pub open spec fn is_name_byte(byte: u8) -> bool {
    byte != SLASH && byte != BACKSLASH && byte != 0
}

/// Whether `key` can name a published version: it begins with `runtime-` and is
/// a single file name.
pub open spec fn is_cache_key(key: Seq<u8>) -> bool {
    &&& version_prefix().is_prefix_of(key)
    &&& forall|i: int| 0 <= i < key.len() ==> is_name_byte(#[trigger] key[i])
}

/// The directory name of one published version, `runtime-<version>-<hash>`.
#[derive(Debug, PartialEq, Eq)]
pub struct CacheKey {
    name: Vec<u8>,
}

impl View for CacheKey {
    type V = Seq<u8>;

    closed spec fn view(&self) -> Seq<u8> {
        self.name@
    }
}

impl CacheKey {
    #[verifier::type_invariant]
    spec fn inv(self) -> bool {
        is_cache_key(self.name@)
    }

    /// Takes `name` as a key, or returns `None` where it cannot be one.
    pub fn new(name: &Vec<u8>) -> (key: Option<CacheKey>)
        ensures
            key is Some <==> is_cache_key(name@),
            key matches Some(key) ==> key@ == name@,
            key is Some <==> {
                &&& name@.len() >= 8
                &&& name@.take(8) == seq![0x72u8, 0x75, 0x6e, 0x74, 0x69, 0x6d, 0x65, 0x2d]
                &&& !name@.contains(0x2f) && !name@.contains(0x5c) && !name@.contains(0)
            },
    {
        proof {
            key_is_a_version_name(name@);
        }
        let prefix = version_prefix_bytes();
        if !starts_with(name, &prefix) {
            return None;
        }
        let mut i: usize = 0;
        while i < name.len()
            invariant
                i <= name.len(),
                forall|k: int| 0 <= k < i ==> is_name_byte(#[trigger] name@[k]),
            decreases name.len() - i,
        {
            let byte: u8 = name[i];
            if byte == SLASH || byte == BACKSLASH || byte == 0 {
                assert(!is_name_byte(name@[i as int]));
                return None;
            }
            i = i + 1;
        }
        Some(CacheKey { name: copy_name(name) })
    }

    /// The key as a file name.
    pub fn as_name(&self) -> (name: &Vec<u8>)
        ensures
            name@ == self@,
            is_cache_key(self@),
            self@.len() >= 8,
            self@.take(8) == seq![0x72u8, 0x75, 0x6e, 0x74, 0x69, 0x6d, 0x65, 0x2d],
    {
        proof {
            use_type_invariant(self);
            key_is_a_version_name(self@);
        }
        &self.name
    }
}

/// The decimal digit for `n`.
pub open spec fn digit(n: nat) -> u8
    recommends
        n < 10,
{
    (ZERO + n) as u8
}

/// `n` in decimal, without leading zeros.
pub open spec fn decimal(n: nat) -> Seq<u8>
    decreases n,
{
    if n < 10 {
        seq![digit(n)]
    } else {
        decimal(n / 10).push(digit(n % 10))
    }
}

/// Writes `n` in decimal.
pub fn write_decimal(n: u64) -> (text: Vec<u8>)
    ensures
        text@ == decimal(n as nat),
    decreases n,
{
    let last: u8 = ZERO + (n % 10) as u8;
    if n < 10 {
        let text: Vec<u8> = vec![last];
        assert(text@ =~= decimal(n as nat));
        text
    } else {
        let mut text = write_decimal(n / 10);
        text.push(last);
        text
    }
}

/// `.tmp`, which the name of every directory under construction ends with.
pub open spec fn tmp_extension() -> Seq<u8> {
    ascii(".tmp"@)
}

/// The name of the directory that version `key` is built in before it is
/// published: `.<key>.<pid>.<suffix>.tmp`.
pub open spec fn tmp_name(key: Seq<u8>, pid: u32, suffix: u64) -> Seq<u8> {
    seq![DOT] + key + seq![DOT] + decimal(pid as nat) + seq![DOT] + decimal(suffix as nat)
        + tmp_extension()
}

/// Writes the name of the directory that version `key` is built in.
pub fn write_tmp_name(key: &Vec<u8>, pid: u32, suffix: u64) -> (name: Vec<u8>)
    ensures
        name@ == tmp_name(key@, pid, suffix),
{
    let mut name: Vec<u8> = vec![DOT];
    append_name(&mut name, key);
    name.push(DOT);
    append_name(&mut name, &write_decimal(pid as u64));
    name.push(DOT);
    append_name(&mut name, &write_decimal(suffix));
    proof {
        reveal_strlit(".tmp");
    }
    append_name(&mut name, &ascii_bytes(".tmp"));
    assert(name@ =~= tmp_name(key@, pid, suffix));
    name
}

/// Whether no byte of `text` is a dot.
spec fn dotless(text: Seq<u8>) -> bool {
    forall|i: int| 0 <= i < text.len() ==> #[trigger] text[i] != DOT
}

proof fn lemma_decimal_dotless(n: nat)
    ensures
        dotless(decimal(n)),
    decreases n,
{
    if n >= 10 {
        lemma_decimal_dotless(n / 10);
    }
}

proof fn lemma_decimal_injective(m: nat, n: nat)
    requires
        decimal(m) == decimal(n),
    ensures
        m == n,
    decreases m,
{
    lemma_decimal_nonempty(m / 10);
    lemma_decimal_nonempty(n / 10);
    assert(decimal(m).last() == digit(m % 10));
    assert(decimal(n).last() == digit(n % 10));
    if m >= 10 && n >= 10 {
        assert(decimal(m).drop_last() =~= decimal(m / 10));
        assert(decimal(n).drop_last() =~= decimal(n / 10));
        lemma_decimal_injective(m / 10, n / 10);
    }
}

proof fn lemma_decimal_nonempty(n: nat)
    ensures
        decimal(n).len() > 0,
    decreases n,
{
    if n >= 10 {
        lemma_decimal_nonempty(n / 10);
    }
}

/// Text that ends in a dot and a dotless part can be split there in one way only.
proof fn lemma_last_dot_splits(a: Seq<u8>, x: Seq<u8>, b: Seq<u8>, y: Seq<u8>)
    requires
        a + seq![DOT] + x == b + seq![DOT] + y,
        dotless(x),
        dotless(y),
    ensures
        a == b,
        x == y,
{
    let left = a + seq![DOT] + x;
    let right = b + seq![DOT] + y;
    assert(left.len() == a.len() + 1 + x.len());
    assert(right.len() == b.len() + 1 + y.len());
    assert(left[a.len() as int] == DOT);
    assert(right[b.len() as int] == DOT);
    if a.len() < b.len() {
        assert(left[b.len() as int] == x[b.len() - a.len() - 1]);
    }
    if b.len() < a.len() {
        assert(right[a.len() as int] == y[a.len() - b.len() - 1]);
    }
    assert(a =~= left.subrange(0, a.len() as int));
    assert(b =~= right.subrange(0, a.len() as int));
    assert(x =~= left.subrange(a.len() as int + 1, left.len() as int));
    assert(y =~= right.subrange(a.len() as int + 1, left.len() as int));
}

/// Directories under construction are kept apart: two of them have the same name
/// only where version, process and suffix are the same.
pub proof fn tmp_names_distinct(
    key1: Seq<u8>,
    pid1: u32,
    suffix1: u64,
    key2: Seq<u8>,
    pid2: u32,
    suffix2: u64,
)
    requires
        tmp_name(key1, pid1, suffix1) == tmp_name(key2, pid2, suffix2),
    ensures
        key1 == key2,
        pid1 == pid2,
        suffix1 == suffix2,
{
    let (p1, p2) = (decimal(pid1 as nat), decimal(pid2 as nat));
    let (s1, s2) = (decimal(suffix1 as nat), decimal(suffix2 as nat));
    lemma_decimal_dotless(pid1 as nat);
    lemma_decimal_dotless(pid2 as nat);
    lemma_decimal_dotless(suffix1 as nat);
    lemma_decimal_dotless(suffix2 as nat);
    let (k1, k2) = (seq![DOT] + key1, seq![DOT] + key2);
    reveal_strlit(".tmp");
    let (n1, n2) = (tmp_name(key1, pid1, suffix1), tmp_name(key2, pid2, suffix2));
    let (f1, f2) = (k1 + seq![DOT] + p1, k2 + seq![DOT] + p2);
    let (g1, g2) = (f1 + seq![DOT] + s1, f2 + seq![DOT] + s2);
    assert(n1 =~= g1 + tmp_extension());
    assert(n2 =~= g2 + tmp_extension());
    assert(g1 =~= n1.subrange(0, n1.len() - 4));
    assert(g2 =~= n2.subrange(0, n2.len() - 4));
    lemma_last_dot_splits(f1, s1, f2, s2);
    lemma_last_dot_splits(k1, p1, k2, p2);
    lemma_decimal_injective(pid1 as nat, pid2 as nat);
    lemma_decimal_injective(suffix1 as nat, suffix2 as nat);
    assert(key1 =~= k1.subrange(1, k1.len() as int));
    assert(key2 =~= k2.subrange(1, k2.len() as int));
}

/// The name of a directory under construction never begins with `runtime-`, so it
/// is never the name of a published version.
pub proof fn tmp_name_is_no_version(key: Seq<u8>, pid: u32, suffix: u64)
    ensures
        !version_prefix().is_prefix_of(tmp_name(key, pid, suffix)),
{
    let name = tmp_name(key, pid, suffix);
    reveal_strlit("runtime-");
    assert(name[0] == DOT);
    if version_prefix().is_prefix_of(name) {
        assert(name.subrange(0, version_prefix().len() as int)[0] == version_prefix()[0]);
    }
}

/// ASCII text is told by the code of each character, in the order of the text.
pub proof fn ascii_keeps_every_character(text: Seq<char>)
    ensures
        ascii(text).len() == text.len(),
        forall|i: int| 0 <= i < text.len() ==> #[trigger] ascii(text)[i] == text[i] as u8,
{
}

/// The names that never change, byte by byte: `runtime-`, `preload.mjs`, `nub` and
/// `.tmp`.
pub proof fn fixed_names()
    ensures
        version_prefix() == seq![0x72u8, 0x75, 0x6e, 0x74, 0x69, 0x6d, 0x65, 0x2d],
        sentinel_name() == seq![
            0x70u8, 0x72, 0x65, 0x6c, 0x6f, 0x61, 0x64, 0x2e, 0x6d, 0x6a, 0x73,
        ],
        temp_base_name() == seq![0x6eu8, 0x75, 0x62],
        tmp_extension() == seq![0x2eu8, 0x74, 0x6d, 0x70],
{
    reveal_strlit("runtime-");
    reveal_strlit("preload.mjs");
    reveal_strlit("nub");
    reveal_strlit(".tmp");
    assert(version_prefix() =~= seq![0x72u8, 0x75, 0x6e, 0x74, 0x69, 0x6d, 0x65, 0x2d]);
    assert(sentinel_name() =~= seq![
        0x70u8, 0x72, 0x65, 0x6c, 0x6f, 0x61, 0x64, 0x2e, 0x6d, 0x6a, 0x73,
    ]);
    assert(temp_base_name() =~= seq![0x6eu8, 0x75, 0x62]);
    assert(tmp_extension() =~= seq![0x2eu8, 0x74, 0x6d, 0x70]);
}

/// A name can be a key exactly where its first eight bytes are `runtime-` and it holds
/// no `/`, no `\\` and no zero byte. Nothing else is asked of what follows the eight.
pub proof fn key_is_a_version_name(name: Seq<u8>)
    ensures
        is_cache_key(name) <==> {
            &&& name.len() >= 8
            &&& name.take(8) == seq![0x72u8, 0x75, 0x6e, 0x74, 0x69, 0x6d, 0x65, 0x2d]
            &&& !name.contains(0x2f) && !name.contains(0x5c) && !name.contains(0)
        },
{
    fixed_names();
    if is_cache_key(name) {
        assert(name.take(8) =~= name.subrange(0, 8));
        assert forall|i: int| 0 <= i < name.len() implies #[trigger] name[i] != 0x2f && name[i]
            != 0x5c && name[i] != 0 by {
            assert(is_name_byte(name[i]));
        }
    }
    if name.len() >= 8 && name.take(8) == version_prefix() && !name.contains(0x2f)
        && !name.contains(0x5c) && !name.contains(0) {
        assert(name.take(8) =~= name.subrange(0, 8));
        assert forall|i: int| 0 <= i < name.len() implies is_name_byte(#[trigger] name[i]) by {
            assert(name.contains(name[i]));
        }
    }
}

/// The number that a run of decimal digits stands for.
pub open spec fn decimal_value(text: Seq<u8>) -> int
    decreases text.len(),
{
    if text.len() == 0 {
        0
    } else {
        10 * decimal_value(text.drop_last()) + (text.last() - 0x30)
    }
}

/// A number written in decimal reads back as the same number. It is written in digits
/// alone, in at least one, and does not begin with a zero unless it is zero. And ten
/// times the number, with a digit more, is written as the number with that digit behind.
pub proof fn decimal_reads_back(n: nat)
    ensures
        decimal_value(decimal(n)) == n,
        decimal(n).len() > 0,
        forall|i: int| 0 <= i < decimal(n).len() ==> 0x30 <= #[trigger] decimal(n)[i] <= 0x39,
        n > 0 ==> decimal(n)[0] != 0x30,
        n < 10 ==> decimal(n) == seq![(0x30 + n) as u8],
        n > 0 ==> forall|d: nat|
            d < 10 ==> #[trigger] decimal(10 * n + d) == decimal(n).push((0x30 + d) as u8),
    decreases n,
{
    lemma_decimal_nonempty(n);
    if n < 10 {
        assert(decimal(n).drop_last() =~= Seq::empty());
        assert(decimal_value(decimal(n).drop_last()) == 0);
    } else {
        decimal_reads_back(n / 10);
        assert(decimal(n).drop_last() =~= decimal(n / 10));
        assert(decimal(n)[0] == decimal(n / 10)[0]);
    }
    if n > 0 {
        assert forall|d: nat| d < 10 implies #[trigger] decimal(10 * n + d) == decimal(n).push(
            (0x30 + d) as u8,
        ) by {
            let m: nat = 10 * n + d;
            assert(m / 10 == n && m % 10 == d);
        }
    }
}

/// The name of a directory under construction, byte by byte: a dot, the whole key, a
/// dot, the process in decimal, a dot, the suffix in decimal, and `.tmp`.
pub proof fn tmp_name_spelled_out(key: Seq<u8>, pid: u32, suffix: u64)
    ensures
        tmp_name(key, pid, suffix) == seq![0x2eu8] + key + seq![0x2eu8] + decimal(pid as nat)
            + seq![0x2eu8] + decimal(suffix as nat) + seq![0x2eu8, 0x74, 0x6d, 0x70],
        decimal_value(decimal(pid as nat)) == pid,
        decimal_value(decimal(suffix as nat)) == suffix,
{
    fixed_names();
    decimal_reads_back(pid as nat);
    decimal_reads_back(suffix as nat);
    assert(tmp_name(key, pid, suffix) =~= seq![0x2eu8] + key + seq![0x2eu8] + decimal(pid as nat)
        + seq![0x2eu8] + decimal(suffix as nat) + seq![0x2eu8, 0x74, 0x6d, 0x70]);
}

} // verus!
