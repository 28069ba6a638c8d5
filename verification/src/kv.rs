//! The datagram key/value handler: a request with `=` stores the text
//! after the first `=` under the key before it (the `version` key is
//! protected); a request without `=` retrieves the key's value, empty
//! when the key is unknown. The store behaves as a map from key to
//! value.

use vstd::prelude::*;
use vstd::string::{StrSliceExecFns, StringExecFns};
use crate::text::str_eq;

verus! {

/// One stored pair.
struct Entry {
    key: String,
    val: String,
}

impl DeepView for Entry {
    type V = (Seq<char>, Seq<char>);

    closed spec fn deep_view(&self) -> (Seq<char>, Seq<char>) {
        (self.key@, self.val@)
    }
}

/// No two pairs share a key.
spec fn distinct_keys(s: Seq<(Seq<char>, Seq<char>)>) -> bool {
    forall|i: int, j: int| 0 <= i < j < s.len() ==> (#[trigger] s[i]).0 != (#[trigger] s[j]).0
}

/// The map the pairs denote; on duplicate keys the later pair wins.
spec fn map_of(s: Seq<(Seq<char>, Seq<char>)>) -> Map<Seq<char>, Seq<char>>
    decreases s.len(),
{
    if s.len() == 0 {
        Map::empty()
    } else {
        map_of(s.drop_last()).insert(s.last().0, s.last().1)
    }
}

/// With distinct keys, the map reads back exactly the pairs.
proof fn lemma_map_of_props(s: Seq<(Seq<char>, Seq<char>)>)
    requires
        distinct_keys(s),
    ensures
        forall|m: Seq<char>|
            #[trigger] map_of(s).contains_key(m) <==> (exists|i: int|
                0 <= i < s.len() && (#[trigger] s[i]).0 == m),
        forall|i: int|
            0 <= i < s.len() ==> map_of(s).contains_key((#[trigger] s[i]).0) && map_of(s)[s[i].0]
                == s[i].1,
    decreases s.len(),
{
    if s.len() > 0 {
        let s2 = s.drop_last();
        assert(forall|i: int| 0 <= i < s2.len() ==> s2[i] == s[i]);
        lemma_map_of_props(s2);
        assert(map_of(s) == map_of(s2).insert(s.last().0, s.last().1));
        assert forall|m: Seq<char>| #[trigger] map_of(s).contains_key(m) implies (exists|i: int|
            0 <= i < s.len() && (#[trigger] s[i]).0 == m) by {
            if m != s.last().0 {
                assert(map_of(s2).contains_key(m));
                let i = choose|i: int| 0 <= i < s2.len() && (#[trigger] s2[i]).0 == m;
                assert(s[i].0 == m);
            } else {
                assert(s[s.len() - 1].0 == m);
            }
        }
        assert forall|i: int| 0 <= i < s.len() implies map_of(s).contains_key(
            (#[trigger] s[i]).0,
        ) && map_of(s)[s[i].0] == s[i].1 by {
            if i < s.len() - 1 {
                assert(s[i] == s2[i]);
                assert(s[i].0 != s.last().0);
            } else {
                assert(s[i] == s.last());
            }
        }
    }
}

/// Replacing the value at a key's slot is inserting over that key.
proof fn lemma_map_of_update(s: Seq<(Seq<char>, Seq<char>)>, i: int, k: Seq<char>, v: Seq<char>)
    requires
        distinct_keys(s),
        0 <= i < s.len(),
        s[i].0 == k,
    ensures
        distinct_keys(s.update(i, (k, v))),
        map_of(s.update(i, (k, v))) == map_of(s).insert(k, v),
{
    let s2 = s.update(i, (k, v));
    assert(forall|j: int| 0 <= j < s.len() ==> (#[trigger] s2[j]).0 == s[j].0);
    lemma_map_of_props(s);
    lemma_map_of_props(s2);
    assert forall|m: Seq<char>|
        #[trigger] map_of(s2).contains_key(m) == map_of(s).insert(k, v).contains_key(m) by {
        if map_of(s2).contains_key(m) {
            let j = choose|j: int| 0 <= j < s2.len() && s2[j].0 == m;
            assert(s[j].0 == m);
        }
        if m == k {
            assert(s2[i].0 == m);
        } else if map_of(s).contains_key(m) {
            let j = choose|j: int| 0 <= j < s.len() && s[j].0 == m;
            assert(s2[j].0 == m);
        }
    }
    assert forall|m: Seq<char>| map_of(s2).contains_key(m) implies map_of(s2)[m] == map_of(
        s,
    ).insert(k, v)[m] by {
        if m == k {
            assert(map_of(s2)[m] == s2[i].1);
        } else {
            let j = choose|j: int| 0 <= j < s2.len() && s2[j].0 == m;
            assert(j != i);
            assert(s[j] == s2[j]);
            assert(map_of(s)[m] == s[j].1);
        }
    }
    assert(map_of(s2) =~= map_of(s).insert(k, v));
}

/// Appending a fresh key is inserting it.
proof fn lemma_map_of_push(s: Seq<(Seq<char>, Seq<char>)>, k: Seq<char>, v: Seq<char>)
    requires
        distinct_keys(s),
        forall|j: int| 0 <= j < s.len() ==> (#[trigger] s[j]).0 != k,
    ensures
        distinct_keys(s.push((k, v))),
        map_of(s.push((k, v))) == map_of(s).insert(k, v),
{
    let s2 = s.push((k, v));
    assert(s2.drop_last() =~= s);
    assert(s2.last() == (k, v));
    assert forall|i: int, j: int| 0 <= i < j < s2.len() implies (#[trigger] s2[i]).0 != (
    #[trigger] s2[j]).0 by {
        if j == s2.len() - 1 {
            assert(s2[i] == s[i]);
        }
    }
}

/// The position of the first `=` in `s`, if any.
pub open spec fn first_eq(s: Seq<char>) -> Option<int>
    decreases s.len(),
{
    if s.len() == 0 {
        Option::None
    } else if s[0] == '=' {
        Option::Some(0int)
    } else {
        match first_eq(s.drop_first()) {
            Option::Some(i) => Option::Some(i + 1),
            Option::None => Option::None,
        }
    }
}

/// A scan that stops at the first hit finds `first_eq`.
proof fn lemma_first_eq_hit(s: Seq<char>, i: int)
    requires
        0 <= i < s.len(),
        s[i] == '=',
        forall|j: int| 0 <= j < i ==> s[j] != '=',
    ensures
        first_eq(s) == Option::Some(i),
    decreases i,
{
    if i > 0 {
        let s2 = s.drop_first();
        assert(forall|j: int| 0 <= j < s2.len() ==> s2[j] == s[j + 1]);
        lemma_first_eq_hit(s2, i - 1);
    }
}

/// A scan that finds nothing means there is no `=` at all.
proof fn lemma_first_eq_miss(s: Seq<char>)
    requires
        forall|j: int| 0 <= j < s.len() ==> s[j] != '=',
    ensures
        first_eq(s) is None,
    decreases s.len(),
{
    if s.len() > 0 {
        let s2 = s.drop_first();
        assert(forall|j: int| 0 <= j < s2.len() ==> s2[j] == s[j + 1]);
        lemma_first_eq_miss(s2);
    }
}

/// Finds the first `=` of `s`, scanning left to right.
fn find_eq(s: &str) -> (r: Option<usize>)
    ensures
        match r {
            Option::Some(i) => first_eq(s@) == Option::Some(i as int) && i < s@.len(),
            Option::None => first_eq(s@) is None,
        },
{
    let len = s.unicode_len();
    for i in 0..len
        invariant
            len == s@.len(),
            forall|j: int| 0 <= j < i ==> s@[j] != '=',
    {
        if s.get_char(i) == '=' {
            proof {
                lemma_first_eq_hit(s@, i as int);
            }
            return Some(i);
        }
    }
    proof {
        lemma_first_eq_miss(s@);
    }
    None
}

/// The store behind the handler: insertion-ordered pairs under a map
/// view, no key twice.
pub struct KvStore {
    entries: Vec<Entry>,
}

impl View for KvStore {
    type V = Map<Seq<char>, Seq<char>>;

    closed spec fn view(&self) -> Map<Seq<char>, Seq<char>> {
        map_of(self.entries.deep_view())
    }
}

impl KvStore {
    /// Well-formed: no key stored twice. `new` establishes it and every
    /// operation keeps it.
    pub closed spec fn wf(self) -> bool {
        distinct_keys(self.entries.deep_view())
    }

    /// An empty store.
    pub fn new() -> (r: KvStore)
        ensures
            r@ == Map::<Seq<char>, Seq<char>>::empty(),
            r.wf(),
    {
        KvStore { entries: Vec::new() }
    }

    /// Stores `val` under `key`, replacing any prior value.
    pub fn put(&mut self, key: &str, val: &str)
        requires
            old(self).wf(),
        ensures
            final(self)@ == old(self)@.insert(key@, val@),
            final(self).wf(),
    {
        let n = self.entries.len();
        let ghost s0 = self.entries.deep_view();
        for i in 0..n
            invariant
                self == old(self),
                n == self.entries.len(),
                s0 == self.entries.deep_view(),
                distinct_keys(s0),
                forall|j: int| 0 <= j < i ==> (#[trigger] s0[j]).0 != key@,
        {
            if str_eq(self.entries[i].key.as_str(), key) {
                assert(s0[i as int].0 == key@);
                self.entries[i] = Entry { key: String::from_str(key), val: String::from_str(val) };
                proof {
                    assert(self.entries.deep_view() =~= s0.update(i as int, (key@, val@)));
                    lemma_map_of_update(s0, i as int, key@, val@);
                }
                return ;
            }
        }
        self.entries.push(Entry { key: String::from_str(key), val: String::from_str(val) });
        proof {
            assert(self.entries.deep_view() =~= s0.push((key@, val@)));
            lemma_map_of_push(s0, key@, val@);
        }
    }

    /// Looks `key` up: its value when present, nothing otherwise.
    pub fn lookup(&self, key: &str) -> (r: Option<String>)
        requires
            self.wf(),
        ensures
            match r {
                Option::Some(v) => self@.contains_key(key@) && v@ == self@[key@],
                Option::None => !self@.contains_key(key@),
            },
    {
        proof {
            lemma_map_of_props(self.entries.deep_view());
        }
        let ghost s0 = self.entries.deep_view();
        let n = self.entries.len();
        for i in 0..n
            invariant
                s0 == self.entries.deep_view(),
                distinct_keys(s0),
                self@ == map_of(s0),
                n == self.entries.len(),
                forall|j: int| 0 <= j < i ==> (#[trigger] s0[j]).0 != key@,
        {
            if str_eq(self.entries[i].key.as_str(), key) {
                assert(s0[i as int].0 == key@);
                proof {
                    lemma_map_of_props(s0);
                }
                return Some(self.entries[i].val.clone());
            }
        }
        proof {
            if self@.contains_key(key@) {
                let j = choose|j: int| 0 <= j < s0.len() && s0[j].0 == key@;
            }
        }
        None
    }
}

/// Handles one trimmed request line against the store.
///
/// A request holding `=` is an insert: the key is everything before the
/// first `=`, the value everything after it. It answers nothing, and the
/// `version` key is left untouched. A request without `=` is a retrieve:
/// it answers the stored value, or empty text for an unknown key.
pub fn get_response(request: &str, store: &mut KvStore) -> (r: Option<String>)
    requires
        old(store).wf(),
    ensures
        final(store).wf(),
        match first_eq(request@) {
            Option::Some(i) => {
                let key = request@.subrange(0, i);
                let val = request@.subrange(i + 1, request@.len() as int);
                &&& r is None
                &&& (key == "version"@ ==> final(store)@ == old(store)@)
                &&& (key != "version"@ ==> final(store)@ == old(store)@.insert(key, val))
            },
            Option::None => {
                &&& final(store)@ == old(store)@
                &&& (r matches Some(v) && v@ == (if old(store)@.contains_key(request@) {
                    old(store)@[request@]
                } else {
                    Seq::<char>::empty()
                }))
            },
        },
{
    let len = request.unicode_len();
    match find_eq(request) {
        Option::Some(i) => {
            let key = request.substring_char(0, i);
            let val = request.substring_char(i + 1, len);
            if !str_eq(key, "version") {
                store.put(key, val);
            }
            None
        },
        Option::None => {
            match store.lookup(request) {
                Option::Some(v) => Some(v),
                Option::None => Some(String::new()),
            }
        },
    }
}

} // verus!
