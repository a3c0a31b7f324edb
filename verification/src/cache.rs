//! The on-disk cache of compiled inline shaders: the registry of shader
//! names, the hash of a shader source, the decimal form in which the hash is
//! stored, and the decisions that choose between a cached binary and a fresh
//! compilation.

use vstd::prelude::*;
use vstd::std_specs::hash::DefaultHasherAdditionalSpecFns;
use vstd::string::StringSliceAdditionalSpecFns;
use std::collections::hash_map::DefaultHasher;
use std::hash::Hasher;

verus! {

/// The names under which inline shaders are cached.
pub struct NameSet {
    names: Vec<String>,
}

impl View for NameSet {
    type V = Set<Seq<char>>;

    closed spec fn view(&self) -> Set<Seq<char>> {
        Set::new(|s: Seq<char>| exists|i: int| 0 <= i < self.names@.len() && self.names@[i]@ == s)
    }
}

impl NameSet {
    /// An empty registry.
    pub fn new() -> (r: Self)
        ensures
            r@ == Set::<Seq<char>>::empty(),
    {
        let r = NameSet { names: Vec::new() };
        assert(r@ =~= Set::<Seq<char>>::empty());
        r
    }

    /// Whether `name` is registered.
    pub fn contains(&self, name: &str) -> (b: bool)
        ensures
            b == self@.contains(name@),
    {
        let owned = name.to_owned();
        let mut i: usize = 0;
        while i < self.names.len()
            invariant
                i <= self.names@.len(),
                owned@ == name@,
                forall|j: int| 0 <= j < i ==> self.names@[j]@ != name@,
            decreases self.names@.len() - i,
        {
            if self.names[i] == owned {
                assert(self@.contains(name@));
                return true;
            }
            i = i + 1;
        }
        false
    }
}

/// The registry held in `slot`, created empty the first time it is asked for.
pub fn get_name_set(slot: &mut Option<NameSet>) -> (r: &NameSet)
    ensures
        match *old(slot) {
            Some(names) => *r == names,
            None => r@ == Set::<Seq<char>>::empty(),
        },
        *final(slot) == Some(*r),
{
    if slot.is_none() {
        *slot = Some(NameSet::new());
    }
    slot.as_ref().unwrap()
}

/// Why the cache cannot serve a shader.
#[derive(Debug, PartialEq, Eq, Structural)]
pub enum CacheError {
    /// Another inline shader was already cached under the same name.
    DuplicateName,
    /// The stored hash is not a decimal `u64`.
    StoredHashUnreadable,
}

/// What hashing `content` twice, as `str` hashes itself, writes into a hasher:
/// the bytes, a 0xff byte, the bytes again and a 0xff byte again.
pub open spec fn source_hash_writes(content: Seq<u8>) -> Seq<Seq<u8>> {
    seq![content, seq![0xffu8], content, seq![0xffu8]]
}

/// The hash under which a shader source is cached.
pub fn shader_source_hash(content: &str) -> (h: u64)
    ensures
        h == DefaultHasher::spec_finish(source_hash_writes(content.spec_bytes())),
{
    let bytes = content.as_bytes();
    let end: [u8; 1] = [0xffu8];
    let end_slice: &[u8] = &end;
    assert(end_slice@ =~= seq![0xffu8]);
    let mut hasher = DefaultHasher::new();
    hasher.write(bytes);
    hasher.write(end_slice);
    hasher.write(bytes);
    hasher.write(end_slice);
    assert(hasher@ =~= source_hash_writes(content.spec_bytes()));
    hasher.finish()
}

/// The hash under which the shader `name` is cached; the name must not be
/// registered already.
pub fn shader_cache_key(names: &NameSet, name: &str, content: &str) -> (h: u64)
    requires
        !names@.contains(name@),
    ensures
        h == DefaultHasher::spec_finish(source_hash_writes(content.spec_bytes())),
{
    shader_source_hash(content)
}

/// Refuses a name that the registry already holds, and otherwise gives the
/// hash under which the shader is cached.
pub fn checked_shader_cache_key(names: &NameSet, name: &str, content: &str) -> (r: Result<u64, CacheError>)
    ensures
        r is Err <==> names@.contains(name@),
        r is Err ==> r == Err::<u64, CacheError>(CacheError::DuplicateName),
        r matches Ok(h) ==> h == DefaultHasher::spec_finish(source_hash_writes(content.spec_bytes())),
{
    if names.contains(name) {
        Err(CacheError::DuplicateName)
    } else {
        Ok(shader_cache_key(names, name, content))
    }
}

/// The decimal digits of `n`, most significant first, with no leading zero.
pub open spec fn decimal(n: nat) -> Seq<u8>
    decreases n,
{
    if n < 10 {
        seq![(48 + n) as u8]
    } else {
        decimal(n / 10).push((48 + n % 10) as u8)
    }
}

/// Writes `n` in decimal, as the hash file stores it.
pub fn decimal_digits(n: u64) -> (v: Vec<u8>)
    ensures
        v@ == decimal(n as nat),
    decreases n,
{
    if n < 10 {
        let mut v: Vec<u8> = Vec::new();
        v.push(48u8 + n as u8);
        v
    } else {
        let mut v = decimal_digits(n / 10);
        v.push(48u8 + (n % 10) as u8);
        v
    }
}

pub open spec fn is_digit(b: u8) -> bool {
    48 <= b <= 57
}

/// The number that the decimal digits `s` write.
pub open spec fn digits_value(s: Seq<u8>) -> nat
    decreases s.len(),
{
    if s.len() == 0 {
        0
    } else {
        digits_value(s.drop_last()) * 10 + (s.last() - 48) as nat
    }
}

/// `s` without the `+` sign that may lead it (a lone `+` is kept).
pub open spec fn unsigned_digits(s: Seq<u8>) -> Seq<u8> {
    if s.len() > 1 && s[0] == 43u8 { s.drop_first() } else { s }
}

/// What reading `s` as a `u64` gives: an optional `+` sign, then at least
/// one decimal digit and nothing else, with a value that fits in a `u64`.
pub open spec fn parse_u64(s: Seq<u8>) -> Option<u64> {
    let d = unsigned_digits(s);
    if d.len() > 0 && (forall|i: int| 0 <= i < d.len() ==> is_digit(#[trigger] d[i]))
        && digits_value(d) <= u64::MAX {
        Some(digits_value(d) as u64)
    } else {
        None
    }
}

proof fn lemma_digits_value_grows(s: Seq<u8>, i: int, j: int)
    requires
        0 <= i <= j <= s.len(),
        forall|k: int| 0 <= k < s.len() ==> is_digit(#[trigger] s[k]),
    ensures
        digits_value(s.take(i)) <= digits_value(s.take(j)),
    decreases j - i,
{
    if i < j {
        lemma_digits_value_grows(s, i, j - 1);
        assert(s.take(j).drop_last() =~= s.take(j - 1));
    }
}

/// Reads the stored hash `s` as a `u64`, as `parse_u64` says.
pub fn parse_decimal_u64(s: &[u8]) -> (r: Option<u64>)
    ensures
        r == parse_u64(s@),
{
    let start: usize = if s.len() > 1 && s[0] == 43u8 { 1 } else { 0 };
    let ghost d = unsigned_digits(s@);
    assert(d =~= s@.skip(start as int));
    if start == s.len() {
        return None;
    }
    let mut value: u64 = 0;
    let mut i: usize = start;
    while i < s.len()
        invariant
            start <= i <= s@.len(),
            s@.len() == s.len(),
            d == s@.skip(start as int),
            d == unsigned_digits(s@),
            value as nat == digits_value(d.take(i - start)),
            forall|k: int| 0 <= k < i - start ==> is_digit(#[trigger] d[k]),
        decreases s@.len() - i,
    {
        let b = s[i];
        assert(d[i - start] == b);
        if b < 48u8 || b > 57u8 {
            assert(!is_digit(d[i - start]));
            return None;
        }
        assert(d.take(i - start + 1).drop_last() =~= d.take(i - start));
        assert(d.take(i - start + 1).last() == b);
        assert(is_digit(d[i - start]));
        let digit = (b - 48u8) as u64;
        match value.checked_mul(10) {
            None => {
                proof {
                    lemma_overflow_persists(d, i - start);
                }
                return None;
            },
            Some(tens) => match tens.checked_add(digit) {
                None => {
                    proof {
                        lemma_overflow_persists(d, i - start);
                    }
                    return None;
                },
                Some(next) => {
                    value = next;
                },
            },
        }
        i = i + 1;
    }
    assert(d.take(i - start) =~= d);
    Some(value)
}

/// Once a prefix of digits overflows, the whole digit string does, or it
/// holds a non-digit.
proof fn lemma_overflow_persists(d: Seq<u8>, i: int)
    requires
        0 <= i < d.len(),
        forall|k: int| 0 <= k <= i ==> is_digit(#[trigger] d[k]),
        digits_value(d.take(i + 1)) > u64::MAX,
    ensures
        parse_u64_digits_fails(d),
{
    if forall|k: int| 0 <= k < d.len() ==> is_digit(#[trigger] d[k]) {
        lemma_digits_value_grows(d, i + 1, d.len() as int);
        assert(d.take(d.len() as int) =~= d);
    }
}

/// The digit string `d` is not a decimal `u64`.
pub open spec fn parse_u64_digits_fails(d: Seq<u8>) -> bool {
    !(d.len() > 0 && (forall|i: int| 0 <= i < d.len() ==> is_digit(#[trigger] d[i]))
        && digits_value(d) <= u64::MAX)
}

/// The decimal digits of `n` read back as `n`.
proof fn lemma_decimal_value(n: nat)
    ensures
        decimal(n).len() > 0,
        forall|i: int| 0 <= i < decimal(n).len() ==> is_digit(#[trigger] decimal(n)[i]),
        digits_value(decimal(n)) == n,
    decreases n,
{
    if n >= 10 {
        lemma_decimal_value(n / 10);
        let d = decimal(n);
        assert(d.drop_last() =~= decimal(n / 10));
        assert(d.last() == (48 + n % 10) as u8);
        assert((n / 10) * 10 + n % 10 == n) by (nonlinear_arith);
        assert(digits_value(d) == digits_value(d.drop_last()) * 10 + (d.last() - 48) as nat);
        assert((d.last() - 48) as nat == n % 10);
        assert forall|i: int| 0 <= i < d.len() implies is_digit(#[trigger] d[i]) by {
            if i < d.len() - 1 {
                assert(d[i] == decimal(n / 10)[i]);
            }
        }
    } else {
        let d = decimal(n);
        assert(d.drop_last() =~= Seq::<u8>::empty());
        assert(digits_value(d) == digits_value(d.drop_last()) * 10 + (d.last() - 48) as nat);
        assert(digits_value(d.drop_last()) == 0);
    }
}

/// A hash written in decimal reads back as the same hash.
pub proof fn lemma_stored_hash_reads_back(n: u64)
    ensures
        parse_u64(decimal(n as nat)) == Some(n),
{
    lemma_decimal_value(n as nat);
    let d = decimal(n as nat);
    assert(is_digit(d[0]));
    assert(unsigned_digits(d) == d);
}

/// What the cache learns at one step of its lookup.
pub enum CacheEvent {
    /// Whether a compiled binary is stored for the shader's name.
    BinaryExists(bool),
    /// Whether a hash is stored beside that binary.
    HashFileExists(bool),
    /// The text of the stored hash.
    StoredHash(Vec<u8>),
}

/// What the cache does next.
#[derive(Debug, PartialEq, Eq, Structural)]
pub enum CacheAction {
    /// Look whether a hash is stored beside the binary.
    CheckHashFile,
    /// Read the stored hash.
    ReadStoredHash,
    /// Return the stored binary.
    UseCachedBinary,
    /// Compile the shader, store the hash and the binary, and return the binary;
    /// when `write_hash_first` holds the hash is also stored before compiling.
    Compile { write_hash_first: bool },
}

/// The next action of the cache lookup after `event`, for a source whose hash is `hash`.
pub open spec fn cache_action(event: CacheEvent, hash: u64) -> CacheAction {
    match event {
        CacheEvent::BinaryExists(exists) => if exists {
            CacheAction::CheckHashFile
        } else {
            CacheAction::Compile { write_hash_first: false }
        },
        CacheEvent::HashFileExists(exists) => if exists {
            CacheAction::ReadStoredHash
        } else {
            CacheAction::Compile { write_hash_first: true }
        },
        CacheEvent::StoredHash(text) => if parse_u64(text@) == Some(hash) {
            CacheAction::UseCachedBinary
        } else {
            CacheAction::Compile { write_hash_first: false }
        },
    }
}

/// The event can be acted on: a stored hash reads as a decimal `u64`.
pub open spec fn readable_event(event: CacheEvent) -> bool {
    match event {
        CacheEvent::StoredHash(text) => parse_u64(text@) is Some,
        _ => true,
    }
}

/// Decides the next step of the cache lookup, as `cache_action` says.
pub fn next_cache_action(event: &CacheEvent, hash: u64) -> (a: CacheAction)
    requires
        readable_event(*event),
    ensures
        a == cache_action(*event, hash),
{
    match event {
        CacheEvent::BinaryExists(exists) => if *exists {
            CacheAction::CheckHashFile
        } else {
            CacheAction::Compile { write_hash_first: false }
        },
        CacheEvent::HashFileExists(exists) => if *exists {
            CacheAction::ReadStoredHash
        } else {
            CacheAction::Compile { write_hash_first: true }
        },
        CacheEvent::StoredHash(text) => match parse_decimal_u64(text.as_slice()) {
            Some(stored) => if stored == hash {
                CacheAction::UseCachedBinary
            } else {
                CacheAction::Compile { write_hash_first: false }
            },
            None => CacheAction::Compile { write_hash_first: false },
        },
    }
}

/// Refuses a stored hash that is not a decimal `u64`, and otherwise decides
/// the next step of the cache lookup.
pub fn checked_next_cache_action(event: &CacheEvent, hash: u64) -> (r: Result<CacheAction, CacheError>)
    ensures
        r is Err <==> !readable_event(*event),
        r is Err ==> r == Err::<CacheAction, CacheError>(CacheError::StoredHashUnreadable),
        r matches Ok(a) ==> a == cache_action(*event, hash),
{
    if let CacheEvent::StoredHash(text) = event {
        if parse_decimal_u64(text.as_slice()).is_none() {
            return Err(CacheError::StoredHashUnreadable);
        }
    }
    Ok(next_cache_action(event, hash))
}

/// A stored hash that the cache wrote for the same source serves the stored binary.
pub proof fn lemma_cache_serves_unchanged_source(stored: Vec<u8>, hash: u64)
    requires
        stored@ == decimal(hash as nat),
    ensures
        cache_action(CacheEvent::StoredHash(stored), hash) == CacheAction::UseCachedBinary,
{
    lemma_stored_hash_reads_back(hash);
}

/// A stored hash that the cache wrote for another hash sends the shader to the compiler.
pub proof fn lemma_cache_recompiles_changed_source(stored: Vec<u8>, stored_for: u64, hash: u64)
    requires
        stored@ == decimal(stored_for as nat),
        stored_for != hash,
    ensures
        cache_action(CacheEvent::StoredHash(stored), hash) == (CacheAction::Compile { write_hash_first: false }),
{
    lemma_stored_hash_reads_back(stored_for);
}

/// The cache serves its stored binary only after reading a stored hash that
/// is the source's own hash; finding a binary, or a hash file, never serves it.
pub proof fn lemma_cache_serves_only_matching_hash(event: CacheEvent, hash: u64)
    ensures
        cache_action(event, hash) == CacheAction::UseCachedBinary ==> (event matches CacheEvent::StoredHash(text)
            && parse_u64(text@) == Some(hash)),
{
}

/// Finding a stored binary always leads to a look for its stored hash, and
/// whether a binary or a hash file exists is decided without the hash.
pub proof fn lemma_cache_checks_hash_before_binary(exists: bool, hash: u64, other: u64)
    ensures
        cache_action(CacheEvent::BinaryExists(true), hash) == CacheAction::CheckHashFile,
        cache_action(CacheEvent::HashFileExists(true), hash) == CacheAction::ReadStoredHash,
        cache_action(CacheEvent::BinaryExists(exists), hash) == cache_action(CacheEvent::BinaryExists(exists), other),
        cache_action(CacheEvent::HashFileExists(exists), hash) == cache_action(CacheEvent::HashFileExists(exists), other),
{
}

/// The hasher is fed the whole source: the bytes written are the source, a
/// 0xff byte, the source again and a 0xff byte, as `str` hashes itself twice.
pub proof fn lemma_hash_reads_whole_source(content: Seq<u8>)
    ensures
        source_hash_writes(content).len() == 4,
        source_hash_writes(content)[0] == content,
        source_hash_writes(content)[1] == seq![0xffu8],
        source_hash_writes(content)[2] == content,
        source_hash_writes(content)[3] == seq![0xffu8],
        source_hash_writes(content).flatten() == content + seq![0xffu8] + content + seq![0xffu8],
{
    let w = source_hash_writes(content);
    let ff = seq![0xffu8];
    assert(w.drop_last() =~= seq![content, ff, content]);
    assert(w.drop_last().drop_last() =~= seq![content, ff]);
    assert(w.drop_last().drop_last().drop_last() =~= seq![content]);
    assert(w.drop_last().drop_last().drop_last().drop_last() =~= Seq::<Seq<u8>>::empty());
    reveal_with_fuel(Seq::flatten, 5);
    assert(seq![content].flatten() =~= content);
    assert(w.flatten() =~= content + ff + content + ff);
}

/// Two sources that differ anywhere feed the hasher differently.
pub proof fn lemma_hash_writes_tell_sources_apart(c1: Seq<u8>, c2: Seq<u8>)
    ensures
        source_hash_writes(c1) == source_hash_writes(c2) ==> c1 == c2,
{
    if source_hash_writes(c1) == source_hash_writes(c2) {
        assert(source_hash_writes(c1)[0] == source_hash_writes(c2)[0]);
    }
}

} // verus!
