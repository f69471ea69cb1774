//! Full object ids stored once, with small numeric aliases handed through the graph's data
//! structures in their place.
use vstd::prelude::*;
use crate::chunk::NONE;
use rustc_hash::{FxBuildHasher, FxHashMap};

verus! {

/// A git object id, the 20 bytes of a SHA-1 read as three big-endian words: bytes 0..8, 8..16
/// and 16..20.
#[derive(Clone, Copy, Debug, PartialEq, Eq, Hash, Structural)]
pub struct Oid {
    pub prefix: u64,
    pub middle: u64,
    pub suffix: u32,
}

/// Bytes `from..from + 8` of `b` as a big-endian word.
pub open spec fn be_word(b: Seq<u8>, from: int) -> u64 {
    ((b[from] as u64) << 56u64) | ((b[from + 1] as u64) << 48u64) | ((b[from + 2] as u64) << 40u64)
        | ((b[from + 3] as u64) << 32u64) | ((b[from + 4] as u64) << 24u64) | ((b[from + 5] as u64) << 16u64)
        | ((b[from + 6] as u64) << 8u64) | (b[from + 7] as u64)
}

/// The id whose bytes are `b`.
pub open spec fn oid_from_bytes(b: Seq<u8>) -> Oid {
    Oid {
        prefix: be_word(b, 0),
        middle: be_word(b, 8),
        suffix: ((b[16] as u32) << 24u32) | ((b[17] as u32) << 16u32) | ((b[18] as u32) << 8u32) | (b[19] as u32),
    }
}

/// Byte `i` of an id.
pub open spec fn oid_byte(o: Oid, i: int) -> u8 {
    if i < 8 {
        ((o.prefix >> ((56 - 8 * i) as u64)) & 0xffu64) as u8
    } else if i < 16 {
        ((o.middle >> ((56 - 8 * (i - 8)) as u64)) & 0xffu64) as u8
    } else {
        ((o.suffix >> ((24 - 8 * (i - 16)) as u32)) & 0xffu32) as u8
    }
}

fn word_from(b: &[u8; 20], from: usize) -> (w: u64)
    requires
        from + 8 <= 20,
    ensures
        w == be_word(b@, from as int),
{
    ((b[from] as u64) << 56u64) | ((b[from + 1] as u64) << 48u64) | ((b[from + 2] as u64) << 40u64)
        | ((b[from + 3] as u64) << 32u64) | ((b[from + 4] as u64) << 24u64) | ((b[from + 5] as u64) << 16u64)
        | ((b[from + 6] as u64) << 8u64) | (b[from + 7] as u64)
}

impl Oid {
    /// The all-zero id.
    pub fn zero() -> (o: Oid)
        ensures
            o == (Oid { prefix: 0, middle: 0, suffix: 0 }),
    {
        Oid { prefix: 0, middle: 0, suffix: 0 }
    }

    pub fn from_bytes(bytes: [u8; 20]) -> (o: Oid)
        ensures
            o == oid_from_bytes(bytes@),
    {
        Oid {
            prefix: word_from(&bytes, 0),
            middle: word_from(&bytes, 8),
            suffix: ((bytes[16] as u32) << 24u32) | ((bytes[17] as u32) << 16u32) | ((bytes[18] as u32) << 8u32)
                | (bytes[19] as u32),
        }
    }

    pub fn as_bytes(&self) -> (b: [u8; 20])
        ensures
            forall|i: int| 0 <= i < 20 ==> b@[i] == #[trigger] oid_byte(*self, i),
    {
        let mut b = [0u8; 20];
        let mut i: usize = 0;
        while i < 20
            invariant
                i <= 20,
                forall|j: int| 0 <= j < i ==> b@[j] == #[trigger] oid_byte(*self, j),
            decreases 20 - i,
        {
            let byte = if i < 8 {
                ((self.prefix >> ((56 - 8 * i) as u64)) & 0xffu64) as u8
            } else if i < 16 {
                ((self.middle >> ((56 - 8 * (i - 8)) as u64)) & 0xffu64) as u8
            } else {
                ((self.suffix >> ((24 - 8 * (i - 16)) as u32)) & 0xffu32) as u8
            };
            b[i] = byte;
            i = i + 1;
        }
        b
    }

    pub fn is_zero(&self) -> (z: bool)
        ensures
            z == (*self == Oid { prefix: 0, middle: 0, suffix: 0 }),
    {
        self.prefix == 0 && self.middle == 0 && self.suffix == 0
    }
}

/// The first eight bytes of an id, big-endian.
pub open spec fn oid_fingerprint(oid: Oid) -> u64 {
    oid.prefix
}

fn fingerprint(oid: &Oid) -> (f: u64)
    ensures
        f == oid_fingerprint(*oid),
{
    oid.prefix
}

#[verifier::external_type_specification]
#[verifier::external_body]
pub struct ExFxBuildHasher(FxBuildHasher);

// ---- FxHashMap<u64, u32>: fingerprint to first alias ----

/// `FxHashMap::default`: an empty map.
#[verifier::external_body]
fn aliases_new() -> (r: FxHashMap<u64, u32>)
    ensures
        r@.dom() == Set::<u64>::empty(),
{
    FxHashMap::default()
}

/// `HashMap::get` on an `FxHashMap`: the value under `key`, if there is one.
#[verifier::external_body]
fn aliases_get(m: &FxHashMap<u64, u32>, key: u64) -> (r: Option<u32>)
    ensures
        r matches Some(v) ==> m@.contains_key(key) && v == m@[key],
        r is None ==> !m@.contains_key(key),
{
    m.get(&key).copied()
}

/// `HashMap::insert` on an `FxHashMap`: maps `key` to `value`.
#[verifier::external_body]
fn aliases_insert(m: &mut FxHashMap<u64, u32>, key: u64, value: u32)
    ensures
        final(m)@ == old(m)@.insert(key, value),
{
    m.insert(key, value);
}

/// `HashMap::reserve` on an `FxHashMap`: room for more entries, the entries unchanged.
#[verifier::external_body]
fn aliases_reserve(m: &mut FxHashMap<u64, u32>, additional: usize)
    ensures
        final(m)@ == old(m)@,
{
    m.reserve(additional);
}

// ---- FxHashMap<u64, CollisionBucket>: fingerprint to the other aliases that share it ----

/// `FxHashMap::default`: an empty map.
#[verifier::external_body]
fn buckets_new() -> (r: FxHashMap<u64, CollisionBucket>)
    ensures
        r@.dom() == Set::<u64>::empty(),
{
    FxHashMap::default()
}

/// `HashMap::get` on an `FxHashMap`: a reference to the value under `key`, if there is one.
#[verifier::external_body]
fn buckets_get(m: &FxHashMap<u64, CollisionBucket>, key: u64) -> (r: Option<&CollisionBucket>)
    ensures
        r matches Some(v) ==> m@.contains_key(key) && *v == m@[key],
        r is None ==> !m@.contains_key(key),
{
    m.get(&key)
}

/// `HashMap::remove` on an `FxHashMap`: takes out the value under `key`, if there is one.
#[verifier::external_body]
fn buckets_remove(m: &mut FxHashMap<u64, CollisionBucket>, key: u64) -> (r: Option<CollisionBucket>)
    ensures
        final(m)@ == old(m)@.remove(key),
        r matches Some(v) ==> old(m)@.contains_key(key) && v == old(m)@[key],
        r is None ==> !old(m)@.contains_key(key),
{
    m.remove(&key)
}

/// `HashMap::insert` on an `FxHashMap`: maps `key` to `value`.
#[verifier::external_body]
fn buckets_insert(m: &mut FxHashMap<u64, CollisionBucket>, key: u64, value: CollisionBucket)
    ensures
        final(m)@ == old(m)@.insert(key, value),
{
    m.insert(key, value);
}

/// `HashMap::len` on an `FxHashMap`: the number of entries.
#[verifier::external_body]
fn buckets_len(m: &FxHashMap<u64, CollisionBucket>) -> (n: usize)
    ensures
        n == m@.dom().len(),
{
    m.len()
}

// ---- FxHashMap<Oid, u32>: exact ids of a crowded fingerprint ----

/// `FxHashMap::default`: an empty map.
#[verifier::external_body]
fn exact_new() -> (r: FxHashMap<Oid, u32>)
    ensures
        r@.dom() == Set::<Oid>::empty(),
{
    FxHashMap::default()
}

/// `HashMap::get` on an `FxHashMap`: the value under `key`, if there is one.
#[verifier::external_body]
fn exact_get(m: &FxHashMap<Oid, u32>, key: &Oid) -> (r: Option<u32>)
    ensures
        r matches Some(v) ==> m@.contains_key(*key) && v == m@[*key],
        r is None ==> !m@.contains_key(*key),
{
    m.get(key).copied()
}

/// `HashMap::insert` on an `FxHashMap`: maps `key` to `value`.
#[verifier::external_body]
fn exact_insert(m: &mut FxHashMap<Oid, u32>, key: Oid, value: u32)
    ensures
        final(m)@ == old(m)@.insert(key, value),
{
    m.insert(key, value);
}

/// The aliases that share one fingerprint with the first alias stored for it: a short list, or an
/// exact map once the list is full.
#[derive(Debug)]
pub enum CollisionBucket {
    Few(Vec<u32>),
    Many(FxHashMap<Oid, u32>),
}

/// Whether `bucket` records alias `a`.
pub open spec fn bucket_has(bucket: CollisionBucket, oids: Seq<Oid>, a: int) -> bool {
    match bucket {
        CollisionBucket::Few(v) => v@.contains(a as u32),
        CollisionBucket::Many(m) => m@.contains_key(oids[a]) && m@[oids[a]] == a,
    }
}

/// Every alias `bucket` records names a stored id with fingerprint `f`.
pub open spec fn bucket_ok(bucket: CollisionBucket, oids: Seq<Oid>, f: u64) -> bool {
    match bucket {
        CollisionBucket::Few(v) => forall|i: int|
            0 <= i < v@.len() ==> (#[trigger] v@[i]) < oids.len() && oid_fingerprint(oids[v@[i] as int]) == f,
        CollisionBucket::Many(m) => forall|o: Oid|
            #[trigger] m@.contains_key(o) ==> m@[o] < oids.len() && oids[m@[o] as int] == o && oid_fingerprint(o) == f,
    }
}

proof fn lemma_bucket_grow(bucket: CollisionBucket, oids: Seq<Oid>, f: u64, o: Oid)
    requires
        bucket_ok(bucket, oids, f),
    ensures
        bucket_ok(bucket, oids.push(o), f),
        forall|a: int| 0 <= a < oids.len() ==> bucket_has(bucket, oids, a) == #[trigger] bucket_has(bucket, oids.push(o), a),
{
    match bucket {
        CollisionBucket::Few(v) => {
            assert forall|i: int| 0 <= i < v@.len() implies (#[trigger] v@[i]) < oids.push(o).len()
                && oid_fingerprint(oids.push(o)[v@[i] as int]) == f by {
                assert(oids.push(o)[v@[i] as int] == oids[v@[i] as int]);
            }
        },
        CollisionBucket::Many(m) => {
            assert forall|o2: Oid| #[trigger] m@.contains_key(o2) implies m@[o2] < oids.push(o).len()
                && oids.push(o)[m@[o2] as int] == o2 && oid_fingerprint(o2) == f by {
                assert(oids.push(o)[m@[o2] as int] == oids[m@[o2] as int]);
            }
            assert forall|a: int| 0 <= a < oids.len() implies bucket_has(bucket, oids, a) == #[trigger] bucket_has(bucket, oids.push(o), a) by {
                assert(oids.push(o)[a] == oids[a]);
            }
        },
    }
}

impl CollisionBucket {
    /// The alias in this bucket that stores `oid`.
    fn find(&self, oids: &Vec<Oid>, oid: Oid) -> (r: Option<u32>)
        requires
            oids@.len() <= NONE,
        ensures
            r matches Some(a) ==> a < oids@.len() && oids@[a as int] == oid,
            r is None ==> forall|a: int| 0 <= a < oids@.len() && #[trigger] bucket_has(*self, oids@, a) ==> oids@[a] != oid,
    {
        match self {
            CollisionBucket::Few(aliases) => {
                let mut i: usize = 0;
                while i < aliases.len()
                    invariant
                        i <= aliases@.len(),
                        forall|j: int| 0 <= j < i ==> (#[trigger] aliases@[j]) >= oids@.len() || oids@[aliases@[j] as int] != oid,
                    decreases aliases@.len() - i,
                {
                    let alias = aliases[i];
                    if (alias as usize) < oids.len() && oids[alias as usize] == oid {
                        return Some(alias);
                    }
                    i = i + 1;
                }
                proof {
                    assert forall|a: int| 0 <= a < oids@.len() && #[trigger] bucket_has(*self, oids@, a) implies oids@[a] != oid by {
                        let j = choose|j: int| 0 <= j < aliases@.len() && aliases@[j] == a as u32;
                        assert(aliases@[j] == a as u32);
                        assert(aliases@[j] as int == a);
                    }
                }
                None
            },
            CollisionBucket::Many(aliases) => {
                let r = exact_get(aliases, &oid);
                proof {
                    if r is None {
                        assert forall|a: int| 0 <= a < oids@.len() && #[trigger] bucket_has(*self, oids@, a) implies oids@[a] != oid by {
                        }
                    }
                }
                match r {
                    Some(a) => {
                        if (a as usize) < oids.len() && oids[a as usize] == oid {
                            Some(a)
                        } else {
                            None
                        }
                    },
                    None => None,
                }
            },
        }
    }
}

impl CollisionBucket {
    /// Records `alias` for `oid`; a full list becomes an exact map.
    fn push(&mut self, oids: &Vec<Oid>, oid: Oid, alias: u32)
        requires
            bucket_ok(*old(self), oids@, oid_fingerprint(oid)),
            (alias as int) < oids@.len(),
            oids@[alias as int] == oid,
            oids@.no_duplicates(),
            oids@.len() <= NONE,
        ensures
            bucket_ok(*final(self), oids@, oid_fingerprint(oid)),
            bucket_has(*final(self), oids@, alias as int),
            forall|a: int| 0 <= a < oids@.len() && #[trigger] bucket_has(*old(self), oids@, a) ==> bucket_has(*final(self), oids@, a),
    {
        let ghost f = oid_fingerprint(oid);
        let roomy = match self {
            CollisionBucket::Few(aliases) => aliases.len() < 8,
            CollisionBucket::Many(_) => false,
        };
        match self {
            CollisionBucket::Few(aliases) => {
                if roomy {
                    let ghost before = aliases@;
                    aliases.push(alias);
                    proof {
                        assert(aliases@[before.len() as int] == alias);
                        assert forall|a: int| 0 <= a < oids@.len() && before.contains(a as u32) implies #[trigger] aliases@.contains(a as u32) by {
                            let j = choose|j: int| 0 <= j < before.len() && before[j] == a as u32;
                            assert(aliases@[j] == a as u32);
                        }
                    }
                    return;
                }
            },
            CollisionBucket::Many(aliases) => {
                exact_insert(aliases, oid, alias);
                proof {
                    assert forall|a: int| 0 <= a < oids@.len() && #[trigger] bucket_has(*old(self), oids@, a) implies bucket_has(*self, oids@, a) by {
                        if oids@[a] == oid {
                            assert(a == alias as int);
                        }
                    }
                }
                return;
            },
        }
        let exact = match self {
            CollisionBucket::Few(aliases) => exact_from(aliases, oids, oid, alias),
            CollisionBucket::Many(_) => exact_new(),
        };
        *self = CollisionBucket::Many(exact);
    }
}

/// The exact map of a full list: every listed alias under its id, and `alias` under `oid`.
fn exact_from(aliases: &Vec<u32>, oids: &Vec<Oid>, oid: Oid, alias: u32) -> (exact: FxHashMap<Oid, u32>)
    requires
        forall|j: int| 0 <= j < aliases@.len() ==> (#[trigger] aliases@[j]) < oids@.len()
            && oid_fingerprint(oids@[aliases@[j] as int]) == oid_fingerprint(oid),
        (alias as int) < oids@.len(),
        oids@[alias as int] == oid,
        oids@.no_duplicates(),
        oids@.len() <= NONE,
    ensures
        bucket_ok(CollisionBucket::Many(exact), oids@, oid_fingerprint(oid)),
        bucket_has(CollisionBucket::Many(exact), oids@, alias as int),
        forall|a: int| 0 <= a < oids@.len() && aliases@.contains(a as u32) ==> #[trigger] bucket_has(CollisionBucket::Many(exact), oids@, a),
{
    let ghost f = oid_fingerprint(oid);
    let mut exact = exact_new();
    let mut i: usize = 0;
    while i < aliases.len()
        invariant
            i <= aliases@.len(),
            oids@.no_duplicates(),
            forall|j: int| 0 <= j < aliases@.len() ==> (#[trigger] aliases@[j]) < oids@.len()
                && oid_fingerprint(oids@[aliases@[j] as int]) == f,
            forall|j: int| 0 <= j < i ==> exact@.contains_key(oids@[#[trigger] aliases@[j] as int])
                && exact@[oids@[aliases@[j] as int]] == aliases@[j],
            forall|o: Oid| #[trigger] exact@.contains_key(o) ==> exact@[o] < oids@.len()
                && oids@[exact@[o] as int] == o && oid_fingerprint(o) == f,
        decreases aliases@.len() - i,
    {
        let existing = aliases[i];
        if (existing as usize) < oids.len() {
            let existing_oid = oids[existing as usize];
            exact_insert(&mut exact, existing_oid, existing);
            proof {
                assert forall|j: int| 0 <= j < i implies exact@.contains_key(oids@[#[trigger] aliases@[j] as int])
                    && exact@[oids@[aliases@[j] as int]] == aliases@[j] by {
                    if oids@[aliases@[j] as int] == existing_oid {
                        assert(aliases@[j] as int == existing as int);
                    }
                }
            }
        }
        i = i + 1;
    }
    exact_insert(&mut exact, oid, alias);
    proof {
        let v = aliases@;
        assert forall|a: int| 0 <= a < oids@.len() && v.contains(a as u32) implies #[trigger] bucket_has(CollisionBucket::Many(exact), oids@, a) by {
            let j = choose|j: int| 0 <= j < v.len() && v[j] == a as u32;
            assert(v[j] == a as u32);
            assert(v[j] as int == a);
            if oids@[a] == oid {
                assert(a == alias as int);
            }
        }
    }
    exact
}

/// Looking up `oid`: the ids unchanged and its alias when it is stored, else the ids with `oid`
/// appended and the next alias.
pub open spec fn alias_lookup(oids: Seq<Oid>, oid: Oid) -> (Seq<Oid>, int) {
    match oids.index_of_first(oid) {
        Some(a) => (oids, a),
        None => (oids.push(oid), oids.len() as int),
    }
}

/// Every id stored once, each alias a `u32`, and every stored id reachable from its fingerprint.
pub struct Oids {
    pub zero: Oid,
    pub oids: Vec<Oid>,
    aliases: FxHashMap<u64, u32>,
    alias_collisions: FxHashMap<u64, CollisionBucket>,
    pub sorted_aliases: Vec<u32>,
    pub stashes: Vec<u32>,
}

impl Oids {
    pub closed spec fn wf(&self) -> bool {
        let oids = self.oids@;
        &&& self.zero == (Oid { prefix: 0, middle: 0, suffix: 0 })
        &&& oids.no_duplicates()
        &&& oids.len() <= NONE
        &&& forall|f: u64| #[trigger] self.aliases@.contains_key(f) ==> self.aliases@[f] < oids.len()
            && oid_fingerprint(oids[self.aliases@[f] as int]) == f
        &&& forall|f: u64| #[trigger] self.alias_collisions@.contains_key(f) ==> self.aliases@.contains_key(f)
            && bucket_ok(self.alias_collisions@[f], oids, f)
            && exists|a: int| 0 <= a < oids.len() && a != self.aliases@[f] && #[trigger] bucket_has(self.alias_collisions@[f], oids, a)
        &&& forall|a: int| 0 <= a < oids.len() ==> {
            let f = #[trigger] oid_fingerprint(oids[a]);
            &&& self.aliases@.contains_key(f)
            &&& (self.aliases@[f] == a || (self.alias_collisions@.contains_key(f) && bucket_has(self.alias_collisions@[f], oids, a)))
        }
    }

    /// The stored ids; an id's alias is its position.
    pub closed spec fn stored(&self) -> Seq<Oid> {
        self.oids@
    }

    /// The aliases in graph order.
    pub closed spec fn sorted(&self) -> Seq<u32> {
        self.sorted_aliases@
    }

    pub closed spec fn stash_aliases(&self) -> Seq<u32> {
        self.stashes@
    }

    pub closed spec fn zero_id(&self) -> Oid {
        self.zero
    }

    /// The fingerprints shared by more than one stored id, as far as buckets record them.
    pub closed spec fn crowded_fingerprints(&self) -> Set<u64> {
        self.alias_collisions@.dom()
    }

    /// How many fingerprints have a collision bucket.
    pub fn collision_bucket_count(&self) -> (n: usize)
        ensures
            n == self.crowded_fingerprints().len(),
    {
        buckets_len(&self.alias_collisions)
    }
}

impl Default for Oids {
    fn default() -> (o: Oids)
        ensures
            o.wf(),
            o.stored() == Seq::<Oid>::empty(),
            o.sorted() == seq![NONE],
            o.stash_aliases() == Seq::<u32>::empty(),
    {
        let mut sorted_aliases = Vec::new();
        sorted_aliases.push(NONE);
        Oids {
            zero: Oid::zero(),
            oids: Vec::new(),
            aliases: aliases_new(),
            alias_collisions: buckets_new(),
            sorted_aliases,
            stashes: Vec::new(),
        }
    }
}

impl Oids {
    /// Makes room for `additional` more ids.
    pub fn reserve_aliases(&mut self, additional: usize)
        requires
            old(self).wf(),
        ensures
            final(self).wf(),
            final(self).stored() == old(self).stored(),
            final(self).sorted() == old(self).sorted(),
            final(self).stash_aliases() == old(self).stash_aliases(),
            final(self).zero_id() == old(self).zero_id(),
            final(self).crowded_fingerprints() == old(self).crowded_fingerprints(),
    {
        self.oids.reserve(additional);
        aliases_reserve(&mut self.aliases, additional);
    }

    /// The alias of `oid`, assigned on first sight: refs, commits, tags and stashes share one
    /// namespace of aliases.
    pub fn get_alias_by_oid(&mut self, oid: Oid) -> (alias: u32)
        requires
            old(self).wf(),
            old(self).stored().len() < NONE,
        ensures
            final(self).wf(),
            (final(self).stored(), alias as int) == alias_lookup(old(self).stored(), oid),
            final(self).sorted() == old(self).sorted(),
            final(self).stash_aliases() == old(self).stash_aliases(),
            final(self).zero_id() == old(self).zero_id(),
    {
        let ghost old_oids = self.oids@;
        proof {
            old_oids.index_of_first_ensures(oid);
        }
        let fingerprint = fingerprint(&oid);
        let known = aliases_get(&self.aliases, fingerprint);
        if let Some(alias) = known {
            if (alias as usize) < self.oids.len() && self.oids[alias as usize] == oid {
                proof {
                    lemma_unique_index(old_oids, oid, alias as int);
                }
                return alias;
            }
            if let Some(bucket) = buckets_get(&self.alias_collisions, fingerprint) {
                if let Some(alias) = bucket.find(&self.oids, oid) {
                    proof {
                        lemma_unique_index(old_oids, oid, alias as int);
                    }
                    return alias;
                }
            }
        }
        proof {
            if old_oids.contains(oid) {
                let a = choose|a: int| 0 <= a < old_oids.len() && old_oids[a] == oid;
                assert(oid_fingerprint(old_oids[a]) == fingerprint);
            }
        }

        let alias = self.oids.len() as u32;
        self.oids.push(oid);
        let ghost oids = self.oids@;
        proof {
            assert(oids[alias as int] == oid);
            assert(oids.no_duplicates()) by {
                assert forall|i: int, j: int| 0 <= i < oids.len() && 0 <= j < oids.len() && i != j implies oids[i] != oids[j] by {
                    if i < old_oids.len() && j < old_oids.len() {
                        assert(old_oids[i] != old_oids[j]);
                    } else if i < old_oids.len() {
                        assert(old_oids[i] != oid);
                    } else {
                        assert(old_oids[j] != oid);
                    }
                }
            }
        }

        let ghost old_buckets = self.alias_collisions@;
        if known.is_some() {
            match buckets_remove(&mut self.alias_collisions, fingerprint) {
                Some(mut bucket) => {
                    proof {
                        lemma_bucket_grow(bucket, old_oids, fingerprint, oid);
                    }
                    bucket.push(&self.oids, oid, alias);
                    buckets_insert(&mut self.alias_collisions, fingerprint, bucket);
                },
                None => {
                    let mut fresh = Vec::new();
                    fresh.push(alias);
                    proof {
                        assert(fresh@[0] == alias);
                    }
                    buckets_insert(&mut self.alias_collisions, fingerprint, CollisionBucket::Few(fresh));
                },
            }
        } else {
            aliases_insert(&mut self.aliases, fingerprint, alias);
        }
        proof {
            assert forall|f: u64| #[trigger] old_buckets.contains_key(f) implies bucket_ok(old_buckets[f], oids, f)
                && forall|a: int| 0 <= a < old_oids.len() ==> bucket_has(old_buckets[f], old_oids, a) == #[trigger] bucket_has(old_buckets[f], oids, a) by {
                lemma_bucket_grow(old_buckets[f], old_oids, f, oid);
            }
            assert forall|f: u64| #[trigger] self.aliases@.contains_key(f) implies self.aliases@[f] < oids.len()
                && oid_fingerprint(oids[self.aliases@[f] as int]) == f by {
                if f != fingerprint || known.is_some() {
                    assert(oids[self.aliases@[f] as int] == old_oids[self.aliases@[f] as int]);
                }
            }
            assert forall|a: int| 0 <= a < oids.len() implies {
                let f = #[trigger] oid_fingerprint(oids[a]);
                &&& self.aliases@.contains_key(f)
                &&& (self.aliases@[f] == a || (self.alias_collisions@.contains_key(f) && bucket_has(self.alias_collisions@[f], oids, a)))
            } by {
                if a < old_oids.len() {
                    assert(oids[a] == old_oids[a]);
                    let f = oid_fingerprint(oids[a]);
                    if old_buckets.contains_key(f) {
                        assert(bucket_has(old_buckets[f], old_oids, a) == bucket_has(old_buckets[f], oids, a));
                    }
                }
            }
            assert(oids =~= old_oids.push(oid));
        }
        alias
    }

    /// The alias of `oid`, if it has one.
    pub fn get_existing_alias(&self, oid: Oid) -> (r: Option<u32>)
        requires
            self.wf(),
        ensures
            r matches Some(a) ==> self.stored().index_of_first(oid) == Some(a as int),
            r is None ==> !self.stored().contains(oid),
    {
        let ghost oids = self.oids@;
        proof {
            oids.index_of_first_ensures(oid);
        }
        let fingerprint = fingerprint(&oid);
        let Some(alias) = aliases_get(&self.aliases, fingerprint) else {
            proof {
                if oids.contains(oid) {
                    let a = choose|a: int| 0 <= a < oids.len() && oids[a] == oid;
                    assert(oid_fingerprint(oids[a]) == fingerprint);
                }
            }
            return None;
        };
        if (alias as usize) < self.oids.len() && self.oids[alias as usize] == oid {
            proof {
                lemma_unique_index(oids, oid, alias as int);
            }
            return Some(alias);
        }
        let r = match buckets_get(&self.alias_collisions, fingerprint) {
            Some(bucket) => bucket.find(&self.oids, oid),
            None => None,
        };
        proof {
            match r {
                Some(a) => lemma_unique_index(oids, oid, a as int),
                None => {
                    if oids.contains(oid) {
                        let a = choose|a: int| 0 <= a < oids.len() && oids[a] == oid;
                        assert(oid_fingerprint(oids[a]) == fingerprint);
                    }
                },
            }
        }
        r
    }

    /// The alias at row `idx` of the sorted graph.
    pub fn get_alias_by_idx(&self, idx: usize) -> (alias: u32)
        requires
            idx < self.sorted().len(),
        ensures
            alias == self.sorted()[idx as int],
    {
        self.sorted_aliases[idx]
    }

    /// The id of `alias`, or the zero id when no id has it.
    pub fn get_oid_by_alias(&self, alias: u32) -> (oid: &Oid)
        ensures
            *oid == if (alias as int) < self.stored().len() { self.stored()[alias as int] } else { self.zero_id() },
    {
        if (alias as usize) < self.oids.len() {
            &self.oids[alias as usize]
        } else {
            &self.zero
        }
    }

    /// The id at row `idx` of the sorted graph, or the zero id.
    pub fn get_oid_by_idx(&self, idx: usize) -> (oid: &Oid)
        ensures
            *oid == ({
                let alias = if idx < self.sorted().len() { self.sorted()[idx as int] } else { NONE };
                if (alias as int) < self.stored().len() { self.stored()[alias as int] } else { self.zero_id() }
            }),
    {
        let alias = if idx < self.sorted_aliases.len() { self.sorted_aliases[idx] } else { NONE };
        self.get_oid_by_alias(alias)
    }

    pub fn get_sorted_aliases(&self) -> (aliases: &Vec<u32>)
        ensures
            aliases@ == self.sorted(),
    {
        &self.sorted_aliases
    }

    pub fn append_sorted_alias(&mut self, alias: u32)
        requires
            old(self).wf(),
        ensures
            final(self).wf(),
            final(self).sorted() == old(self).sorted().push(alias),
            final(self).stored() == old(self).stored(),
            final(self).stash_aliases() == old(self).stash_aliases(),
            final(self).zero_id() == old(self).zero_id(),
    {
        self.sorted_aliases.push(alias);
    }

    pub fn get_commit_count(&self) -> (n: usize)
        ensures
            n == self.sorted().len(),
    {
        self.sorted_aliases.len()
    }

    pub fn is_zero(&self, oid: &Oid) -> (z: bool)
        ensures
            z == (self.zero_id() == *oid),
    {
        self.zero == *oid
    }
}

proof fn lemma_unique_index(oids: Seq<Oid>, oid: Oid, a: int)
    requires
        oids.no_duplicates(),
        0 <= a < oids.len(),
        oids[a] == oid,
    ensures
        oids.index_of_first(oid) == Some(a),
        alias_lookup(oids, oid) == (oids, a),
{
    oids.index_of_first_ensures(oid);
    let f = oids.index_of_first(oid).unwrap();
    if f != a {
        assert(oids[f] == oids[a]);
    }
}

/// Looking up an id never stores an id twice.
pub proof fn lemma_lookup_keeps_ids_distinct(oids: Seq<Oid>, oid: Oid)
    requires
        oids.no_duplicates(),
    ensures
        alias_lookup(oids, oid).0.no_duplicates(),
        alias_lookup(oids, oid).0.len() <= oids.len() + 1,
{
    oids.index_of_first_ensures(oid);
    if oids.index_of_first(oid) is None {
        let s = oids.push(oid);
        assert forall|i: int, j: int| 0 <= i < s.len() && 0 <= j < s.len() && i != j implies s[i] != s[j] by {
            if i < oids.len() && j < oids.len() {
                assert(oids[i] != oids[j]);
            } else if i < oids.len() {
                assert(oids[i] != oid);
            } else {
                assert(oids[j] != oid);
            }
        }
    }
}

/// An alias names the id it was handed out for.
pub proof fn lemma_alias_names_its_id(oids: Seq<Oid>, oid: Oid)
    requires
        oids.no_duplicates(),
    ensures
        0 <= alias_lookup(oids, oid).1 < alias_lookup(oids, oid).0.len(),
        alias_lookup(oids, oid).0[alias_lookup(oids, oid).1] == oid,
        forall|i: int| 0 <= i < oids.len() ==> alias_lookup(oids, oid).0[i] == #[trigger] oids[i],
{
    oids.index_of_first_ensures(oid);
}

/// Asking again for the alias of an id gives the same alias and stores nothing.
pub proof fn lemma_alias_stable(oids: Seq<Oid>, oid: Oid)
    requires
        oids.no_duplicates(),
    ensures
        alias_lookup(alias_lookup(oids, oid).0, oid) == alias_lookup(oids, oid),
{
    lemma_lookup_keeps_ids_distinct(oids, oid);
    lemma_alias_names_its_id(oids, oid);
    let (s1, a1) = alias_lookup(oids, oid);
    lemma_unique_index(s1, oid, a1);
}

/// Distinct ids get distinct aliases, even when their fingerprints agree.
pub proof fn lemma_distinct_ids_distinct_aliases(oids: Seq<Oid>, first: Oid, second: Oid)
    requires
        oids.no_duplicates(),
        first != second,
    ensures
        ({
            let (s1, a1) = alias_lookup(oids, first);
            let (s2, a2) = alias_lookup(s1, second);
            &&& a1 != a2
            &&& alias_lookup(s2, first) == (s2, a1)
        }),
{
    lemma_lookup_keeps_ids_distinct(oids, first);
    lemma_alias_names_its_id(oids, first);
    let (s1, a1) = alias_lookup(oids, first);
    lemma_lookup_keeps_ids_distinct(s1, second);
    lemma_alias_names_its_id(s1, second);
    let (s2, a2) = alias_lookup(s1, second);
    assert(s2[a1] == first);
    lemma_unique_index(s2, first, a1);
}

/// Once an id has been given an alias, looking it up without storing finds that alias.
pub proof fn lemma_stored_id_is_found(oids: Seq<Oid>, oid: Oid)
    requires
        oids.no_duplicates(),
    ensures
        alias_lookup(oids, oid).0.index_of_first(oid) == Some(alias_lookup(oids, oid).1),
{
    lemma_lookup_keeps_ids_distinct(oids, oid);
    lemma_alias_names_its_id(oids, oid);
    let (s1, a1) = alias_lookup(oids, oid);
    lemma_unique_index(s1, oid, a1);
}

/// Looking up `ids` one after another, starting from the stored `oids`: the ids stored at the
/// end and the alias each lookup gave.
pub open spec fn alias_run(oids: Seq<Oid>, ids: Seq<Oid>) -> (Seq<Oid>, Seq<int>)
    decreases ids.len(),
{
    if ids.len() == 0 {
        (oids, Seq::empty())
    } else {
        let (stored, aliases) = alias_run(oids, ids.drop_last());
        let (after, alias) = alias_lookup(stored, ids.last());
        (after, aliases.push(alias))
    }
}

/// The ids of `ids` that `oids` does not hold, each once, in the order they first appear.
pub open spec fn fresh_ids(oids: Seq<Oid>, ids: Seq<Oid>) -> Seq<Oid>
    decreases ids.len(),
{
    if ids.len() == 0 {
        Seq::empty()
    } else {
        let earlier = fresh_ids(oids, ids.drop_last());
        let id = ids.last();
        if oids.contains(id) || earlier.contains(id) {
            earlier
        } else {
            earlier.push(id)
        }
    }
}

/// Over a run of lookups, new ids are stored after the old ones in the order they are first
/// seen, so their aliases count up from the number stored; each alias names the id it was
/// given for and is the alias a later lookup finds; and two lookups give the same alias exactly
/// when they asked for the same id.
pub proof fn lemma_alias_run(oids: Seq<Oid>, ids: Seq<Oid>)
    requires
        oids.no_duplicates(),
    ensures
        ({
            let (stored, aliases) = alias_run(oids, ids);
            &&& stored == oids + fresh_ids(oids, ids)
            &&& stored.no_duplicates()
            &&& forall|x: Oid| stored.contains(x) <==> oids.contains(x) || ids.contains(x)
            &&& aliases.len() == ids.len()
            &&& forall|i: int| 0 <= i < ids.len() ==> {
                &&& 0 <= #[trigger] aliases[i] < stored.len()
                &&& stored[aliases[i]] == ids[i]
                &&& stored.index_of_first(ids[i]) == Some(aliases[i])
            }
            &&& forall|i: int, j: int| 0 <= i < ids.len() && 0 <= j < ids.len() ==>
                (#[trigger] aliases[i] == #[trigger] aliases[j] <==> ids[i] == ids[j])
        }),
    decreases ids.len(),
{
    let (stored, aliases) = alias_run(oids, ids);
    if ids.len() == 0 {
        assert(stored =~= oids + fresh_ids(oids, ids));
    } else {
        let before = ids.drop_last();
        let id = ids.last();
        lemma_alias_run(oids, before);
        let (s0, a0) = alias_run(oids, before);
        let f0 = fresh_ids(oids, before);
        lemma_lookup_keeps_ids_distinct(s0, id);
        lemma_alias_names_its_id(s0, id);
        lemma_stored_id_is_found(s0, id);
        s0.index_of_first_ensures(id);
        assert(s0.contains(id) <==> oids.contains(id) || f0.contains(id)) by {
            if f0.contains(id) {
                let k = choose|k: int| 0 <= k < f0.len() && f0[k] == id;
                assert(s0[oids.len() + k] == id);
            }
            if oids.contains(id) {
                let k = choose|k: int| 0 <= k < oids.len() && oids[k] == id;
                assert(s0[k] == id);
            }
            if s0.contains(id) {
                let k = choose|k: int| 0 <= k < s0.len() && s0[k] == id;
                if k < oids.len() {
                    assert(oids[k] == id);
                } else {
                    assert(f0[k - oids.len()] == id);
                }
            }
        }
        if !s0.contains(id) {
            assert(stored =~= oids + fresh_ids(oids, ids));
        } else {
            assert(stored == s0);
        }
        assert forall|x: Oid| stored.contains(x) <==> oids.contains(x) || ids.contains(x) by {
            if ids.contains(x) {
                let k = choose|k: int| 0 <= k < ids.len() && ids[k] == x;
                if k < before.len() {
                    assert(before[k] == x);
                    assert(s0.contains(x));
                    let m = choose|m: int| 0 <= m < s0.len() && s0[m] == x;
                    assert(stored[m] == x);
                } else {
                    assert(x == id);
                    assert(stored[alias_lookup(s0, id).1] == x);
                }
            }
            if oids.contains(x) {
                assert(s0.contains(x));
                let m = choose|m: int| 0 <= m < s0.len() && s0[m] == x;
                assert(stored[m] == x);
            }
            if stored.contains(x) {
                let m = choose|m: int| 0 <= m < stored.len() && stored[m] == x;
                if m < s0.len() {
                    assert(s0[m] == x);
                    assert(s0.contains(x));
                    if before.contains(x) {
                        let k = choose|k: int| 0 <= k < before.len() && before[k] == x;
                        assert(ids[k] == x);
                    }
                } else {
                    assert(x == id);
                    assert(ids[ids.len() - 1] == x);
                }
            }
        }
        assert forall|i: int| 0 <= i < ids.len() implies {
            &&& 0 <= #[trigger] aliases[i] < stored.len()
            &&& stored[aliases[i]] == ids[i]
            &&& stored.index_of_first(ids[i]) == Some(aliases[i])
        } by {
            if i < before.len() {
                assert(aliases[i] == a0[i]);
                assert(ids[i] == before[i]);
                assert(stored[a0[i]] == s0[a0[i]]);
            }
            lemma_unique_index(stored, ids[i], aliases[i]);
        }
        assert forall|i: int, j: int| 0 <= i < ids.len() && 0 <= j < ids.len() implies
            (#[trigger] aliases[i] == #[trigger] aliases[j] <==> ids[i] == ids[j]) by {
            assert(stored[aliases[i]] == ids[i]);
            assert(stored[aliases[j]] == ids[j]);
            assert(stored.index_of_first(ids[i]) == Some(aliases[i]));
            assert(stored.index_of_first(ids[j]) == Some(aliases[j]));
        }
    }
}

impl Oids {
    /// Ids whose fingerprints all differ never need a collision bucket.
    pub proof fn lemma_unique_fingerprints_need_no_buckets(&self)
        requires
            self.wf(),
            forall|i: int, j: int| 0 <= i < self.stored().len() && 0 <= j < self.stored().len() && i != j
                ==> oid_fingerprint(#[trigger] self.stored()[i]) != oid_fingerprint(#[trigger] self.stored()[j]),
        ensures
            self.crowded_fingerprints() == Set::<u64>::empty(),
    {
        assert forall|f: u64| !#[trigger] self.alias_collisions@.contains_key(f) by {
            if self.alias_collisions@.contains_key(f) {
                let a = choose|a: int| 0 <= a < self.oids@.len() && a != self.aliases@[f]
                    && #[trigger] bucket_has(self.alias_collisions@[f], self.oids@, a);
                let b = self.aliases@[f] as int;
                match self.alias_collisions@[f] {
                    CollisionBucket::Few(v) => {
                        let j = choose|j: int| 0 <= j < v@.len() && v@[j] == a as u32;
                        assert(v@[j] == a as u32);
                        assert(v@[j] as int == a);
                    },
                    CollisionBucket::Many(m) => {},
                }
                assert(oid_fingerprint(self.oids@[a]) == f);
                assert(oid_fingerprint(self.oids@[b]) == f);
                assert(a != b);
                assert(oid_fingerprint(self.stored()[a]) != oid_fingerprint(self.stored()[b]));
            }
        }
        assert(self.crowded_fingerprints() =~= Set::<u64>::empty());
    }
}

} // verus!
