use vstd::prelude::*;
use vstd::string::StrSliceExecFns;

verus! {

/// One attribute as it appears in a model: key text and value text.
pub type AttrV = (Seq<char>, Seq<char>);

/// Whether the key `k` occurs among the pairs `s`.
pub open spec fn has_key(s: Seq<AttrV>, k: Seq<char>) -> bool {
    exists|i: int| 0 <= i < s.len() && #[trigger] s[i].0 == k
}

/// No key occurs twice among the pairs `s`.
pub open spec fn keys_unique(s: Seq<AttrV>) -> bool {
    forall|i: int, j: int| 0 <= i < s.len() && 0 <= j < s.len() && i != j ==> #[trigger] s[i].0 != #[trigger] s[j].0
}

/// The position of key `k` among the pairs `s`, if it is there.
pub open spec fn key_index(s: Seq<AttrV>, k: Seq<char>) -> int
    decreases s.len(),
{
    if s.len() == 0 {
        -1
    } else if s.last().0 == k {
        s.len() - 1
    } else {
        key_index(s.drop_last(), k)
    }
}

/// Inserting `(k, v)`: an existing key keeps its place and takes the new value,
/// a new key goes to the end.
pub open spec fn insert_pair(s: Seq<AttrV>, k: Seq<char>, v: Seq<char>) -> Seq<AttrV> {
    let i = key_index(s, k);
    if i >= 0 {
        s.update(i, (k, v))
    } else {
        s.push((k, v))
    }
}

/// Inserting every pair of `ins` in order, the later ones last.
pub open spec fn insert_all(s: Seq<AttrV>, ins: Seq<AttrV>) -> Seq<AttrV>
    decreases ins.len(),
{
    if ins.len() == 0 {
        s
    } else {
        insert_pair(insert_all(s, ins.drop_last()), ins.last().0, ins.last().1)
    }
}

/// The pairs as a map from key to value.
pub open spec fn pairs_map(s: Seq<AttrV>) -> Map<Seq<char>, Seq<char>>
    decreases s.len(),
{
    if s.len() == 0 {
        Map::empty()
    } else {
        pairs_map(s.drop_last()).insert(s.last().0, s.last().1)
    }
}

pub proof fn lemma_key_index(s: Seq<AttrV>, k: Seq<char>)
    ensures
        -1 <= key_index(s, k) < s.len(),
        key_index(s, k) >= 0 ==> s[key_index(s, k)].0 == k,
        key_index(s, k) >= 0 <==> has_key(s, k),
    decreases s.len(),
{
    if s.len() > 0 {
        lemma_key_index(s.drop_last(), k);
        if s.last().0 != k {
            if has_key(s, k) {
                let i = choose|i: int| 0 <= i < s.len() && #[trigger] s[i].0 == k;
                assert(s.drop_last()[i].0 == k);
            }
            if key_index(s, k) >= 0 {
                assert(s[key_index(s, k)] == s.drop_last()[key_index(s, k)]);
            }
        } else {
            assert(s[s.len() - 1].0 == k);
        }
    }
}

pub proof fn lemma_insert_pair(s: Seq<AttrV>, k: Seq<char>, v: Seq<char>)
    requires
        keys_unique(s),
    ensures
        keys_unique(insert_pair(s, k, v)),
        has_key(insert_pair(s, k, v), k),
        forall|j: Seq<char>| #[trigger] has_key(insert_pair(s, k, v), j) <==> (has_key(s, j) || j == k),
        pairs_map(insert_pair(s, k, v)) == pairs_map(s).insert(k, v),
{
    lemma_key_index(s, k);
    let r = insert_pair(s, k, v);
    let i = key_index(s, k);
    if i >= 0 {
        assert(r[i].0 == k);
        assert forall|j: Seq<char>| #[trigger] has_key(r, j) <==> (has_key(s, j) || j == k) by {
            if has_key(s, j) {
                let m = choose|m: int| 0 <= m < s.len() && #[trigger] s[m].0 == j;
                assert(r[m].0 == j);
            }
            if has_key(r, j) {
                let m = choose|m: int| 0 <= m < r.len() && #[trigger] r[m].0 == j;
                assert(m == i || s[m].0 == j);
            }
        }
        lemma_pairs_map_update(s, i, v);
    } else {
        assert(r[s.len() as int].0 == k);
        assert forall|j: Seq<char>| #[trigger] has_key(r, j) <==> (has_key(s, j) || j == k) by {
            if has_key(s, j) {
                let m = choose|m: int| 0 <= m < s.len() && #[trigger] s[m].0 == j;
                assert(r[m].0 == j);
            }
            if has_key(r, j) {
                let m = choose|m: int| 0 <= m < r.len() && #[trigger] r[m].0 == j;
                if m < s.len() {
                    assert(s[m].0 == j);
                }
            }
        }
        assert(r.drop_last() == s);
    }
}

/// Overwriting the value at a key's one position changes the map at that key only.
proof fn lemma_pairs_map_update(s: Seq<AttrV>, i: int, v: Seq<char>)
    requires
        keys_unique(s),
        0 <= i < s.len(),
    ensures
        pairs_map(s.update(i, (s[i].0, v))) == pairs_map(s).insert(s[i].0, v),
    decreases s.len(),
{
    let k = s[i].0;
    let r = s.update(i, (k, v));
    if i == s.len() - 1 {
        assert(r.drop_last() == s.drop_last());
        assert(pairs_map(s).insert(k, v) == pairs_map(s.drop_last()).insert(k, v));
    } else {
        assert(keys_unique(s.drop_last()));
        lemma_pairs_map_update(s.drop_last(), i, v);
        assert(r.drop_last() == s.drop_last().update(i, (k, v)));
        assert(s.last().0 != k);
        assert(pairs_map(r) =~= pairs_map(s).insert(k, v));
    }
}

/// The configurator `f` may be handed an empty map.
pub open spec fn takes_empty<F: FnOnce(AttrMap) -> AttrMap>(f: F) -> bool {
    forall|m: AttrMap| m@.len() == 0 ==> #[trigger] f.requires((m,))
}

/// Handed an empty map, the configurator `f` may give back a map with the pairs
/// `s`.
pub open spec fn configures<F: FnOnce(AttrMap) -> AttrMap>(f: F, s: Seq<AttrV>) -> bool {
    exists|m: AttrMap, out: AttrMap| m@.len() == 0 && #[trigger] f.ensures((m,), out) && out@ == s
}

/// A map from static keys to string values in which each key occurs once. It keeps
/// the order in which keys were first inserted; inserting a key that is already
/// there replaces its value.
#[derive(Debug)]
pub struct AttrMap {
    pairs: Vec<(&'static str, String)>,
}

impl AttrMap {
    /// The pairs in order, as text.
    pub closed spec fn view(&self) -> Seq<AttrV> {
        self.pairs@.map_values(|p: (&'static str, String)| (p.0@, p.1@))
    }

    /// No key occurs twice.
    #[verifier::type_invariant]
    pub open spec fn inv(&self) -> bool {
        keys_unique(self@)
    }

    /// The contents as a map from key to value.
    pub open spec fn as_map(&self) -> Map<Seq<char>, Seq<char>> {
        pairs_map(self@)
    }

    pub fn new() -> (r: AttrMap)
        ensures
            r@ == Seq::<AttrV>::empty(),
    {
        let r = AttrMap { pairs: Vec::new() };
        assert(r@ =~= Seq::<AttrV>::empty());
        r
    }

    pub fn len(&self) -> (r: usize)
        ensures
            r == self@.len(),
    {
        self.pairs.len()
    }

    /// The key of the pair at position `i`.
    pub fn key_at(&self, i: usize) -> (r: &'static str)
        requires
            i < self@.len(),
        ensures
            r@ == self@[i as int].0,
    {
        self.pairs[i].0
    }

    /// The value of the pair at position `i`.
    pub fn value_at(&self, i: usize) -> (r: &String)
        requires
            i < self@.len(),
        ensures
            r@ == self@[i as int].1,
    {
        &self.pairs[i].1
    }

    /// Moves the pairs out, leaving the map empty.
    fn take_pairs(&mut self) -> (r: Vec<(&'static str, String)>)
        ensures
            r@ == old(self).pairs@,
            final(self)@.len() == 0,
    {
        let mut m = AttrMap { pairs: Vec::new() };
        std::mem::swap(self, &mut m);
        let AttrMap { pairs } = m;
        pairs
    }

    /// Hands this map to the configurator `f`, which inserts pairs into it, and
    /// returns what `f` gives back.
    pub fn extend_with<F: FnOnce(AttrMap) -> AttrMap>(self, f: F) -> (r: AttrMap)
        requires
            f.requires((self,)),
        ensures
            f.ensures((self,), r),
    {
        f(self)
    }

    /// A map built by handing an empty one to the configurator `f`.
    pub fn configured<F: FnOnce(AttrMap) -> AttrMap>(f: F) -> (r: AttrMap)
        requires
            takes_empty(f),
        ensures
            configures(f, r@),
    {
        let m = AttrMap::new();
        let r = m.extend_with(f);
        r
    }

    /// Set `key` to `value`, replacing an earlier value of the same key.
    pub fn insert(&mut self, key: &'static str, value: String)
        ensures
            final(self)@ == insert_pair(old(self)@, key@, value@),
            final(self).as_map() == old(self).as_map().insert(key@, value@),
    {
        proof {
            use_type_invariant(&*self);
        }
        let ghost before = self@;
        let n = self.pairs.len();
        let mut i: usize = 0;
        let mut found = false;
        while i < n
            invariant_except_break
                !found,
            invariant
                n == before.len(),
                before == self@,
                0 <= i <= n,
                forall|j: int| 0 <= j < i ==> #[trigger] before[j].0 != key@,
            ensures
                found ==> i < n && before[i as int].0 == key@,
                !found ==> i == n,
                forall|j: int| 0 <= j < i ==> #[trigger] before[j].0 != key@,
            decreases n - i,
        {
            if str_eq(self.pairs[i].0, key) {
                found = true;
                break;
            }
            i = i + 1;
        }
        proof {
            lemma_insert_pair(before, key@, value@);
            lemma_key_index(before, key@);
            if found {
                if key_index(before, key@) != i {
                    assert(before[key_index(before, key@)].0 == key@);
                }
            } else {
                assert(!has_key(before, key@));
            }
        }
        let mut pairs = self.take_pairs();
        if found {
            pairs.set(i, (key, value));
            proof {
                assert(pairs@.map_values(|p: (&'static str, String)| (p.0@, p.1@)) =~= before.update(i as int, (key@, value@)));
            }
        } else {
            pairs.push((key, value));
            proof {
                assert(pairs@.map_values(|p: (&'static str, String)| (p.0@, p.1@)) =~= before.push((key@, value@)));
            }
        }
        *self = AttrMap { pairs };
    }
}

/// Whether two strings hold the same characters.
pub fn str_eq(a: &str, b: &str) -> (r: bool)
    ensures
        r == (a@ == b@),
{
    let n = a.unicode_len();
    if n != b.unicode_len() {
        return false;
    }
    let mut i: usize = 0;
    while i < n
        invariant
            n == a@.len(),
            n == b@.len(),
            0 <= i <= n,
            forall|j: int| 0 <= j < i ==> a@[j] == b@[j],
        decreases n - i,
    {
        if a.get_char(i) != b.get_char(i) {
            return false;
        }
        i = i + 1;
    }
    assert(a@ =~= b@);
    true
}

} // verus!
