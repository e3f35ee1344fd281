//! String interning: every distinct string gets a 16-bit identifier, in
//! the order in which the strings are first seen.
use std::collections::HashMap;

use vstd::prelude::*;

use crate::constraints::MAX_UNIQUE_STRINGS;
use crate::error::{ErrorView, ProtocolError};

verus! {

broadcast use vstd::std_specs::hash::group_hash_axioms;

/// The identifier of an interned string.
#[derive(Debug, Clone, Copy, PartialEq, Eq, Hash)]
pub struct StringId {
    pub value: u16,
}

impl View for StringId {
    type V = u16;

    open spec fn view(&self) -> u16 {
        self.value
    }
}

impl StringId {
    pub fn new(value: u16) -> (r: Self)
        ensures
            r@ == value,
    {
        StringId { value }
    }

    pub fn value(self) -> (r: u16)
        ensures
            r == self@,
    {
        self.value
    }
}

/// The bucket key of a string: a polynomial hash modulo a prime.
pub open spec fn str_hash(s: Seq<char>) -> u64
    decreases s.len(),
{
    if s.len() == 0 {
        0
    } else {
        ((str_hash(s.drop_last()) as int * 31 + s.last() as u32 as int) % 1_000_000_007) as u64
    }
}

/// The names of the builtin numeric types, interned first in every pool.
pub open spec fn builtin_names() -> Seq<Seq<char>> {
    seq![
        seq!['u', '8'],
        seq!['u', '1', '6'],
        seq!['u', '3', '2'],
        seq!['u', '6', '4'],
        seq!['u', '1', '2', '8'],
        seq!['i', '8'],
        seq!['i', '1', '6'],
        seq!['i', '3', '2'],
        seq!['i', '6', '4'],
        seq!['i', '1', '2', '8'],
        seq!['f', '3', '2'],
        seq!['f', '6', '4'],
    ]
}

/// Two different builtin names differ.
proof fn lemma_builtin_distinct_pair(i: int, j: int)
    requires
        0 <= i < j < 12,
    ensures
        builtin_names()[i] != builtin_names()[j],
{
    let names = builtin_names();
        if i == 0 && j == 1 {
            assert(names[0].len() != names[1].len());
        } else if i == 0 && j == 2 {
            assert(names[0].len() != names[2].len());
        } else if i == 0 && j == 3 {
            assert(names[0].len() != names[3].len());
        } else if i == 0 && j == 4 {
            assert(names[0].len() != names[4].len());
        } else if i == 0 && j == 5 {
            assert(names[0][0] != names[5][0]);
        } else if i == 0 && j == 6 {
            assert(names[0].len() != names[6].len());
        } else if i == 0 && j == 7 {
            assert(names[0].len() != names[7].len());
        } else if i == 0 && j == 8 {
            assert(names[0].len() != names[8].len());
        } else if i == 0 && j == 9 {
            assert(names[0].len() != names[9].len());
        } else if i == 0 && j == 10 {
            assert(names[0].len() != names[10].len());
        } else if i == 0 && j == 11 {
            assert(names[0].len() != names[11].len());
        } else if i == 1 && j == 2 {
            assert(names[1][1] != names[2][1]);
        } else if i == 1 && j == 3 {
            assert(names[1][1] != names[3][1]);
        } else if i == 1 && j == 4 {
            assert(names[1].len() != names[4].len());
        } else if i == 1 && j == 5 {
            assert(names[1].len() != names[5].len());
        } else if i == 1 && j == 6 {
            assert(names[1][0] != names[6][0]);
        } else if i == 1 && j == 7 {
            assert(names[1][0] != names[7][0]);
        } else if i == 1 && j == 8 {
            assert(names[1][0] != names[8][0]);
        } else if i == 1 && j == 9 {
            assert(names[1].len() != names[9].len());
        } else if i == 1 && j == 10 {
            assert(names[1][0] != names[10][0]);
        } else if i == 1 && j == 11 {
            assert(names[1][0] != names[11][0]);
        } else if i == 2 && j == 3 {
            assert(names[2][1] != names[3][1]);
        } else if i == 2 && j == 4 {
            assert(names[2].len() != names[4].len());
        } else if i == 2 && j == 5 {
            assert(names[2].len() != names[5].len());
        } else if i == 2 && j == 6 {
            assert(names[2][0] != names[6][0]);
        } else if i == 2 && j == 7 {
            assert(names[2][0] != names[7][0]);
        } else if i == 2 && j == 8 {
            assert(names[2][0] != names[8][0]);
        } else if i == 2 && j == 9 {
            assert(names[2].len() != names[9].len());
        } else if i == 2 && j == 10 {
            assert(names[2][0] != names[10][0]);
        } else if i == 2 && j == 11 {
            assert(names[2][0] != names[11][0]);
        } else if i == 3 && j == 4 {
            assert(names[3].len() != names[4].len());
        } else if i == 3 && j == 5 {
            assert(names[3].len() != names[5].len());
        } else if i == 3 && j == 6 {
            assert(names[3][0] != names[6][0]);
        } else if i == 3 && j == 7 {
            assert(names[3][0] != names[7][0]);
        } else if i == 3 && j == 8 {
            assert(names[3][0] != names[8][0]);
        } else if i == 3 && j == 9 {
            assert(names[3].len() != names[9].len());
        } else if i == 3 && j == 10 {
            assert(names[3][0] != names[10][0]);
        } else if i == 3 && j == 11 {
            assert(names[3][0] != names[11][0]);
        } else if i == 4 && j == 5 {
            assert(names[4].len() != names[5].len());
        } else if i == 4 && j == 6 {
            assert(names[4].len() != names[6].len());
        } else if i == 4 && j == 7 {
            assert(names[4].len() != names[7].len());
        } else if i == 4 && j == 8 {
            assert(names[4].len() != names[8].len());
        } else if i == 4 && j == 9 {
            assert(names[4][0] != names[9][0]);
        } else if i == 4 && j == 10 {
            assert(names[4].len() != names[10].len());
        } else if i == 4 && j == 11 {
            assert(names[4].len() != names[11].len());
        } else if i == 5 && j == 6 {
            assert(names[5].len() != names[6].len());
        } else if i == 5 && j == 7 {
            assert(names[5].len() != names[7].len());
        } else if i == 5 && j == 8 {
            assert(names[5].len() != names[8].len());
        } else if i == 5 && j == 9 {
            assert(names[5].len() != names[9].len());
        } else if i == 5 && j == 10 {
            assert(names[5].len() != names[10].len());
        } else if i == 5 && j == 11 {
            assert(names[5].len() != names[11].len());
        } else if i == 6 && j == 7 {
            assert(names[6][1] != names[7][1]);
        } else if i == 6 && j == 8 {
            assert(names[6][1] != names[8][1]);
        } else if i == 6 && j == 9 {
            assert(names[6].len() != names[9].len());
        } else if i == 6 && j == 10 {
            assert(names[6][0] != names[10][0]);
        } else if i == 6 && j == 11 {
            assert(names[6][0] != names[11][0]);
        } else if i == 7 && j == 8 {
            assert(names[7][1] != names[8][1]);
        } else if i == 7 && j == 9 {
            assert(names[7].len() != names[9].len());
        } else if i == 7 && j == 10 {
            assert(names[7][0] != names[10][0]);
        } else if i == 7 && j == 11 {
            assert(names[7][0] != names[11][0]);
        } else if i == 8 && j == 9 {
            assert(names[8].len() != names[9].len());
        } else if i == 8 && j == 10 {
            assert(names[8][0] != names[10][0]);
        } else if i == 8 && j == 11 {
            assert(names[8][0] != names[11][0]);
        } else if i == 9 && j == 10 {
            assert(names[9].len() != names[10].len());
        } else if i == 9 && j == 11 {
            assert(names[9].len() != names[11].len());
        } else if i == 10 && j == 11 {
            assert(names[10][1] != names[11][1]);
        }
}

/// The `k`-th builtin name is new to the pool of the names before it.
proof fn lemma_builtin_prefix(k: int)
    requires
        0 <= k < 12,
    ensures
        !builtin_names().take(k).contains(builtin_names()[k]),
        builtin_names().take(k).push(builtin_names()[k]) =~= builtin_names().take(k + 1),
{
    let names = builtin_names();
    if names.take(k).contains(names[k]) {
        let i = choose|i: int| 0 <= i < k && names.take(k)[i] == names[k];
        lemma_builtin_distinct_pair(i, k);
    }
}

/// Where a string sits in a pool, if it is there.
pub open spec fn pool_position(pool: Seq<Seq<char>>, s: Seq<char>) -> Option<int> {
    if pool.contains(s) {
        Some(choose|i: int| 0 <= i < pool.len() && pool[i] == s)
    } else {
        None
    }
}

/// Interning `s` into a pool: the position of `s` when it is there, else
/// `s` goes at the end, unless the pool is full.
pub open spec fn spec_intern(pool: Seq<Seq<char>>, s: Seq<char>) -> Result<
    (Seq<Seq<char>>, u16),
    ErrorView,
> {
    match pool_position(pool, s) {
        Some(i) => Ok((pool, i as u16)),
        None => if pool.len() >= MAX_UNIQUE_STRINGS {
            Err(ErrorView::TooManyUniqueStrings)
        } else {
            Ok((pool.push(s), pool.len() as u16))
        },
    }
}

/// The pool after interning a string, whether or not interning succeeds.
pub open spec fn intern_pool(pool: Seq<Seq<char>>, s: Seq<char>) -> Seq<Seq<char>> {
    match spec_intern(pool, s) {
        Ok((p, _)) => p,
        Err(_) => pool,
    }
}

/// Interning finds the string: the identifier it gives is where the string
/// sits in the pool it leaves, and that pool extends the one it was given.
pub proof fn lemma_intern_finds(pool: Seq<Seq<char>>, s: Seq<char>)
    requires
        pool.len() <= MAX_UNIQUE_STRINGS,
    ensures
        spec_intern(pool, s) matches Ok((p, id)) ==> {
            &&& id < p.len()
            &&& p[id as int] == s
            &&& pool.is_prefix_of(p)
            &&& p.len() <= MAX_UNIQUE_STRINGS
        },
{
    if pool.contains(s) {
        let i = choose|i: int| 0 <= i < pool.len() && pool[i] == s;
        assert(i as u16 == i);
        assert(pool =~= pool.subrange(0, pool.len() as int));
    } else if pool.len() < MAX_UNIQUE_STRINGS {
        assert(pool =~= pool.push(s).subrange(0, pool.len() as int));
    }
}

/// Interning a string a second time gives the same identifier and leaves
/// the pool as the first interning left it.
pub proof fn lemma_intern_idempotent(pool: Seq<Seq<char>>, s: Seq<char>)
    ensures
        match spec_intern(pool, s) {
            Ok((p, id)) => spec_intern(p, s) == Ok::<(Seq<Seq<char>>, u16), ErrorView>((p, id)),
            Err(_) => true,
        },
{
    if !pool.contains(s) && pool.len() < MAX_UNIQUE_STRINGS {
        let p = pool.push(s);
        assert(p[pool.len() as int] == s);
        assert(p.contains(s));
        let j = choose|j: int| 0 <= j < p.len() && p[j] == s;
        if j < pool.len() {
            assert(pool[j] == s);
            assert(pool.contains(s));
        }
        assert(j == pool.len());
    }
}

/// No string occurs twice.
pub open spec fn pool_distinct(pool: Seq<Seq<char>>) -> bool {
    forall|i: int, j: int| 0 <= i < j < pool.len() ==> pool[i] != pool[j]
}

/// A set of distinct strings, each with the 16-bit identifier of its
/// position.
pub struct StringPool {
    strings: Vec<String>,
    buckets: HashMap<u64, Vec<u16>>,
}

impl View for StringPool {
    type V = Seq<Seq<char>>;

    closed spec fn view(&self) -> Seq<Seq<char>> {
        self.strings@.map_values(|s: String| s@)
    }
}

impl StringPool {
    /// The strings are distinct, at most [`MAX_UNIQUE_STRINGS`], and each
    /// is found in the bucket of its hash.
    pub closed spec fn wf(&self) -> bool {
        &&& self.strings.len() <= MAX_UNIQUE_STRINGS
        &&& pool_distinct(self@)
        &&& forall|i: int|
            0 <= i < self.strings.len() ==> {
                let h = str_hash(#[trigger] self.strings@[i]@);
                &&& self.buckets@.contains_key(h)
                &&& self.buckets@[h]@.contains(i as u16)
            }
        &&& forall|h: u64, k: int|
            #![trigger self.buckets@[h]@[k]]
            self.buckets@.contains_key(h) && 0 <= k < self.buckets@[h]@.len() ==> {
                &&& self.buckets@[h]@[k] < self.strings.len()
                &&& str_hash(self.strings@[self.buckets@[h]@[k] as int]@) == h
            }
    }

    /// Whether an identifier names a string of this pool.
    pub open spec fn contains_id(&self, id: StringId) -> bool {
        id@ < self@.len()
    }

    /// An empty pool.
    fn empty() -> (r: Self)
        ensures
            r.wf(),
            r@ == Seq::<Seq<char>>::empty(),
    {
        let r = StringPool { strings: Vec::new(), buckets: HashMap::new() };
        assert(r@ =~= Seq::<Seq<char>>::empty());
        r
    }

    pub fn len(&self) -> (r: usize)
        ensures
            r == self@.len(),
    {
        self.strings.len()
    }

    /// The identifier of `s`, interning it when it is new.
    pub fn get_id(&mut self, s: &str) -> (r: Result<StringId, ProtocolError>)
        requires
            old(self).wf(),
        ensures
            final(self).wf(),
            old(self)@.is_prefix_of(final(self)@),
            match spec_intern(old(self)@, s@) {
                Ok((pool, id)) => r matches Ok(rid) && rid@ == id && final(self)@ == pool,
                Err(e) => r matches Err(re) && re@ == e && final(self)@ == old(self)@,
            },
    {
        let h = hash_str(s);
        let owned = s.to_owned();
        let ghost pool = self@;
        match self.buckets.get(&h) {
            Some(bucket) => {
                let mut k: usize = 0;
                while k < bucket.len()
                    invariant
                        self.wf(),
                        self@ == pool,
                        h == str_hash(s@),
                        owned@ == s@,
                        self.buckets@.contains_key(h),
                        *bucket == self.buckets@[h],
                        0 <= k <= bucket.len(),
                        forall|j: int|
                            0 <= j < k ==> self.strings@[bucket@[j] as int]@ != s@,
                    decreases bucket.len() - k,
                {
                    let id = bucket[k];
                    assert(bucket@[k as int] == self.buckets@[h]@[k as int]);
                    if self.strings[id as usize] == owned {
                        proof {
                            assert(pool[id as int] == s@);
                            assert(pool.contains(s@));
                            let c = choose|i: int| 0 <= i < pool.len() && pool[i] == s@;
                            assert(c == id as int);
                        }
                        return Ok(StringId { value: id });
                    }
                    k = k + 1;
                }
                proof {
                    if pool.contains(s@) {
                        let i = choose|i: int| 0 <= i < pool.len() && pool[i] == s@;
                        assert(self.strings@[i]@ == s@);
                        assert(self.buckets@[h]@.contains(i as u16));
                        let k2 = choose|k2: int|
                            0 <= k2 < self.buckets@[h]@.len() && self.buckets@[h]@[k2] == i as u16;
                        assert(self.strings@[bucket@[k2] as int]@ != s@);
                    }
                }
            },
            None => {
                proof {
                    if pool.contains(s@) {
                        let i = choose|i: int| 0 <= i < pool.len() && pool[i] == s@;
                        assert(self.strings@[i]@ == s@);
                    }
                }
            },
        }
        if self.strings.len() >= MAX_UNIQUE_STRINGS {
            return Err(ProtocolError::TooManyUniqueStrings);
        }
        let id = self.strings.len() as u16;
        let ghost old_strings = self.strings@;
        let ghost old_buckets = self.buckets@;
        self.strings.push(owned);
        let mut bucket = match self.buckets.remove(&h) {
            Some(b) => b,
            None => Vec::new(),
        };
        assert(old_buckets.contains_key(h) ==> bucket@ == old_buckets[h]@);
        bucket.push(id);
        self.buckets.insert(h, bucket);
        proof {
            assert(self@ =~= pool.push(s@));
            assert(pool =~= self@.subrange(0, pool.len() as int));
            assert forall|i: int|
                0 <= i < self.strings.len() implies {
                let hh = str_hash(#[trigger] self.strings@[i]@);
                &&& self.buckets@.contains_key(hh)
                &&& self.buckets@[hh]@.contains(i as u16)
            } by {
                let hh = str_hash(self.strings@[i]@);
                if i < old_strings.len() {
                    assert(self.strings@[i] == old_strings[i]);
                    assert(old_buckets.contains_key(hh));
                    assert(old_buckets[hh]@.contains(i as u16));
                    if hh == h {
                        let k2 = choose|k2: int|
                            0 <= k2 < old_buckets[h]@.len() && old_buckets[h]@[k2] == i as u16;
                        assert(self.buckets@[h]@[k2] == i as u16);
                    }
                } else {
                    assert(self.buckets@[h]@[self.buckets@[h]@.len() - 1] == id);
                }
            }
            assert forall|hh: u64, k: int|
                self.buckets@.contains_key(hh) && 0 <= k
                    < self.buckets@[hh]@.len() implies #[trigger] self.buckets@[hh]@[k]
                < self.strings.len() && str_hash(
                self.strings@[self.buckets@[hh]@[k] as int]@,
            ) == hh by {
                if hh != h {
                    assert(old_buckets[hh]@[k] == self.buckets@[hh]@[k]);
                } else if k < self.buckets@[h]@.len() - 1 {
                    assert(old_buckets[h]@[k] == self.buckets@[hh]@[k]);
                }
            }
        }
        Ok(StringId { value: id })
    }

    /// The string with identifier `id`.
    pub fn get_string(&self, id: StringId) -> (r: &str)
        requires
            self.contains_id(id),
        ensures
            r@ == self@[id@ as int],
    {
        self.strings[id.value() as usize].as_str()
    }

    /// A second pool with the same strings under the same identifiers.
    pub fn duplicate(&self) -> (r: Self)
        requires
            self.wf(),
        ensures
            r.wf(),
            r@ == self@,
    {
        let mut out = StringPool::empty();
        let n = self.strings.len();
        let mut i: usize = 0;
        while i < n
            invariant
                self.wf(),
                out.wf(),
                n == self@.len(),
                0 <= i <= n,
                out@ == self@.take(i as int),
            decreases n - i,
        {
            let ghost before = out@;
            let ghost s = self@[i as int];
            proof {
                assert(self.strings@[i as int]@ == s);
                if before.contains(s) {
                    let j = choose|j: int| 0 <= j < before.len() && before[j] == s;
                    assert(self@[j] == self@[i as int]);
                }
                assert(pool_position(before, s) is None);
            }
            let _ = out.get_id(self.strings[i].as_str());
            assert(out@ =~= self@.take(i as int + 1));
            i += 1;
        }
        assert(self@.take(n as int) =~= self@);
        out
    }
}

/// Growing a pool twice grows it once.
pub proof fn lemma_prefix_trans(a: Seq<Seq<char>>, b: Seq<Seq<char>>, c: Seq<Seq<char>>)
    requires
        a.is_prefix_of(b),
        b.is_prefix_of(c),
    ensures
        a.is_prefix_of(c),
{
    assert(a =~= c.subrange(0, a.len() as int));
}

/// The bucket key of a string.
fn hash_str(s: &str) -> (r: u64)
    ensures
        r == str_hash(s@),
{
    let mut h: u64 = 0;
    for c in it: s.chars()
        invariant
            it.seq() == s@,
            h == str_hash(it.seq().take(it.index() as int)),
            h < 1_000_000_007,
    {
        proof {
            let p = it.seq().take(it.index() + 1);
            assert(p.drop_last() =~= it.seq().take(it.index() as int));
        }
        h = (h * 31 + c as u32 as u64) % 1_000_000_007;
    }
    assert(s@.take(s@.len() as int) =~= s@);
    h
}

impl Default for StringPool {
    /// A pool that holds the names of the builtin numeric types, in order.
    fn default() -> (r: Self)
        ensures
            r.wf(),
            r@ == builtin_names(),
    {
        let mut pool = StringPool::empty();
        assert(pool@ =~= builtin_names().take(0));
        proof {
            reveal_strlit("u8");
            assert("u8"@ =~= builtin_names()[0]);
            lemma_builtin_prefix(0);
        }
        let _ = pool.get_id("u8");
        proof {
            reveal_strlit("u16");
            assert("u16"@ =~= builtin_names()[1]);
            lemma_builtin_prefix(1);
        }
        let _ = pool.get_id("u16");
        proof {
            reveal_strlit("u32");
            assert("u32"@ =~= builtin_names()[2]);
            lemma_builtin_prefix(2);
        }
        let _ = pool.get_id("u32");
        proof {
            reveal_strlit("u64");
            assert("u64"@ =~= builtin_names()[3]);
            lemma_builtin_prefix(3);
        }
        let _ = pool.get_id("u64");
        proof {
            reveal_strlit("u128");
            assert("u128"@ =~= builtin_names()[4]);
            lemma_builtin_prefix(4);
        }
        let _ = pool.get_id("u128");
        proof {
            reveal_strlit("i8");
            assert("i8"@ =~= builtin_names()[5]);
            lemma_builtin_prefix(5);
        }
        let _ = pool.get_id("i8");
        proof {
            reveal_strlit("i16");
            assert("i16"@ =~= builtin_names()[6]);
            lemma_builtin_prefix(6);
        }
        let _ = pool.get_id("i16");
        proof {
            reveal_strlit("i32");
            assert("i32"@ =~= builtin_names()[7]);
            lemma_builtin_prefix(7);
        }
        let _ = pool.get_id("i32");
        proof {
            reveal_strlit("i64");
            assert("i64"@ =~= builtin_names()[8]);
            lemma_builtin_prefix(8);
        }
        let _ = pool.get_id("i64");
        proof {
            reveal_strlit("i128");
            assert("i128"@ =~= builtin_names()[9]);
            lemma_builtin_prefix(9);
        }
        let _ = pool.get_id("i128");
        proof {
            reveal_strlit("f32");
            assert("f32"@ =~= builtin_names()[10]);
            lemma_builtin_prefix(10);
        }
        let _ = pool.get_id("f32");
        proof {
            reveal_strlit("f64");
            assert("f64"@ =~= builtin_names()[11]);
            lemma_builtin_prefix(11);
        }
        let _ = pool.get_id("f64");
        assert(builtin_names().take(12) =~= builtin_names());
        pool
    }
}

/// Interning a string into a pool.
pub trait StringPoolIntern {
    fn intern(&self, pool: &mut StringPool) -> Result<StringId, ProtocolError>
        requires
            old(pool).wf(),
    ;
}

impl StringPoolIntern for String {
    fn intern(&self, pool: &mut StringPool) -> (r: Result<StringId, ProtocolError>)
        ensures
            final(pool).wf(),
            old(pool)@.is_prefix_of(final(pool)@),
            match spec_intern(old(pool)@, self@) {
                Ok((p, id)) => r matches Ok(rid) && rid@ == id && final(pool)@ == p,
                Err(e) => r matches Err(re) && re@ == e && final(pool)@ == old(pool)@,
            },
    {
        pool.get_id(self.as_str())
    }
}

impl StringPoolIntern for str {
    fn intern(&self, pool: &mut StringPool) -> (r: Result<StringId, ProtocolError>)
        ensures
            final(pool).wf(),
            old(pool)@.is_prefix_of(final(pool)@),
            match spec_intern(old(pool)@, self@) {
                Ok((p, id)) => r matches Ok(rid) && rid@ == id && final(pool)@ == p,
                Err(e) => r matches Err(re) && re@ == e && final(pool)@ == old(pool)@,
            },
    {
        pool.get_id(self)
    }
}

/// Looking up the string of an identifier.
pub trait StringPoolResolver {
    fn resolve<'a>(&self, pool: &'a StringPool) -> &'a str;
}

/// The string that an identifier names in a pool; empty when the pool has
/// no such string.
pub open spec fn resolved(pool: Seq<Seq<char>>, id: u16) -> Seq<char> {
    if (id as int) < pool.len() {
        pool[id as int]
    } else {
        ""@
    }
}

impl StringPoolResolver for StringId {
    fn resolve<'a>(&self, pool: &'a StringPool) -> (r: &'a str)
        ensures
            r@ == resolved(pool@, self@),
    {
        if self.value() as usize >= pool.len() {
            return "";
        }
        pool.get_string(*self)
    }
}

} // verus!
