//! Maps and sets keyed by text, kept in the order of insertion.

use crate::text::{same, texts};
use vstd::prelude::*;

verus! {

/// Whether `s` is among `v`.
pub fn has_text(v: &Vec<String>, s: &str) -> (r: bool)
    ensures
        r == texts(v@).contains(s@),
{
    position_of(v, s).is_some()
}

/// The first place of `s` in `v`.
pub fn position_of(v: &Vec<String>, s: &str) -> (r: Option<usize>)
    ensures
        match r {
            Some(i) => i < v.len() && v@[i as int]@ == s@ && texts(v@).contains(s@) && forall|k: int|
                0 <= k < i ==> (#[trigger] v@[k])@ != s@,
            None => !texts(v@).contains(s@),
        },
{
    let mut i: usize = 0;
    while i < v.len()
        invariant
            i <= v.len(),
            forall|k: int| 0 <= k < i ==> (#[trigger] v@[k])@ != s@,
        decreases v.len() - i,
    {
        if same(v[i].as_str(), s) {
            assert(texts(v@)[i as int] == s@);
            return Some(i);
        }
        i = i + 1;
    }
    proof {
        if texts(v@).contains(s@) {
            let k = choose|k: int| 0 <= k < texts(v@).len() && texts(v@)[k] == s@;
            assert(v@[k]@ == s@);
        }
    }
    None
}

/// A map from text to text.
pub struct TextMap {
    keys: Vec<String>,
    values: Vec<String>,
}

impl TextMap {
    /// No key is held twice, and each has its value.
    pub closed spec fn wf(&self) -> bool {
        &&& self.keys.len() == self.values.len()
        &&& texts(self.keys@).no_duplicates()
    }

    pub closed spec fn view(&self) -> Map<Seq<char>, Seq<char>> {
        Map::new(
            |k: Seq<char>| texts(self.keys@).contains(k),
            |k: Seq<char>| texts(self.values@)[texts(self.keys@).index_of(k)],
        )
    }

    pub fn new() -> (r: Self)
        ensures
            r.wf(),
            r@ == Map::<Seq<char>, Seq<char>>::empty(),
    {
        let r = TextMap { keys: Vec::new(), values: Vec::new() };
        assert(r@ =~= Map::<Seq<char>, Seq<char>>::empty());
        r
    }

    /// The value held for `key`.
    pub fn get(&self, key: &str) -> (r: Option<String>)
        requires
            self.wf(),
        ensures
            match r {
                Some(v) => self@.contains_key(key@) && self@[key@] == v@,
                None => !self@.contains_key(key@),
            },
    {
        match position_of(&self.keys, key) {
            Some(i) => {
                proof {
                    let ks = texts(self.keys@);
                    assert(ks[i as int] == key@);
                    assert(ks.index_of(key@) == i as int);
                    assert(texts(self.values@)[i as int] == self.values@[i as int]@);
                }
                Some(self.values[i].clone())
            },
            None => None,
        }
    }

    /// Whether `key` is held.
    pub fn has(&self, key: &str) -> (r: bool)
        requires
            self.wf(),
        ensures
            r == self@.contains_key(key@),
    {
        has_text(&self.keys, key)
    }

    /// Puts `value` under `key`, over any earlier value.
    pub fn put(&mut self, key: &str, value: &str)
        requires
            old(self).wf(),
        ensures
            final(self).wf(),
            final(self)@ == old(self)@.insert(key@, value@),
    {
        let ghost before = self@;
        let ghost ks = texts(self.keys@);
        let ghost vs = texts(self.values@);
        match position_of(&self.keys, key) {
            Some(i) => {
                let v = value.to_owned();
                self.values.set(i, v);
                proof {
                    assert(ks[i as int] == key@);
                    assert(texts(self.values@) =~= vs.update(i as int, value@));
                    assert forall|k: Seq<char>| #[trigger] self@.contains_key(k) implies self@[k]
                        == before.insert(key@, value@)[k] by {
                        let j = ks.index_of(k);
                        assert(ks[j] == k);
                        if k != key@ {
                            assert(j != i);
                        } else {
                            assert(j == i as int);
                        }
                    }
                    assert(self@ =~= before.insert(key@, value@));
                }
            },
            None => {
                let k0 = key.to_owned();
                let v0 = value.to_owned();
                self.keys.push(k0);
                self.values.push(v0);
                proof {
                    crate::text::lemma_texts_push(old(self).keys@, k0);
                    crate::text::lemma_texts_push(old(self).values@, v0);
                    lemma_pushed(ks, vs, key@, value@);
                    let nk = texts(self.keys@);
                    assert(self@.dom() =~= before.insert(key@, value@).dom()) by {
                        assert forall|k: Seq<char>| nk.contains(k) <==> (ks.contains(k) || k
                            == key@) by {
                            lemma_push_contains(ks, key@, k);
                        }
                    }
                    assert(self@ =~= before.insert(key@, value@));
                }
            },
        }
    }

    /// Puts `value` under `key` unless a value is there already.
    pub fn put_if_absent(&mut self, key: &str, value: &str)
        requires
            old(self).wf(),
        ensures
            final(self).wf(),
            final(self)@ == if old(self)@.contains_key(key@) {
                old(self)@
            } else {
                old(self)@.insert(key@, value@)
            },
    {
        if !self.has(key) {
            self.put(key, value);
        }
    }
}

proof fn lemma_push_contains(ks: Seq<Seq<char>>, key: Seq<char>, k: Seq<char>)
    ensures
        ks.push(key).contains(k) <==> (ks.contains(k) || k == key),
{
    let nk = ks.push(key);
    if ks.contains(k) {
        let j = choose|j: int| 0 <= j < ks.len() && ks[j] == k;
        assert(nk[j] == k);
    }
    assert(nk[ks.len() as int] == key);
}

proof fn lemma_pushed(
    ks: Seq<Seq<char>>,
    vs: Seq<Seq<char>>,
    key: Seq<char>,
    value: Seq<char>,
)
    requires
        ks.len() == vs.len(),
        ks.no_duplicates(),
        !ks.contains(key),
    ensures
        ks.push(key).no_duplicates(),
        ks.push(key).index_of(key) == ks.len(),
        forall|k: Seq<char>|
            ks.contains(k) ==> ks.push(key).index_of(k) == #[trigger] ks.index_of(k)
                && 0 <= ks.index_of(k) < ks.len(),
        vs.push(value)[ks.len() as int] == value,
{
    let nk = ks.push(key);
    assert(nk.no_duplicates()) by {
        assert forall|i: int, j: int| 0 <= i < nk.len() && 0 <= j < nk.len() && i != j implies nk[i]
            != nk[j] by {
            if i < ks.len() {
                assert(ks.contains(ks[i]));
            }
            if j < ks.len() {
                assert(ks.contains(ks[j]));
            }
        }
    }
    assert(nk[ks.len() as int] == key);
    assert(nk.contains(key));
    assert(nk[nk.index_of(key)] == key);
    assert forall|k: Seq<char>| ks.contains(k) implies nk.index_of(k) == #[trigger] ks.index_of(k)
        && 0 <= ks.index_of(k) < ks.len() by {
        let j = ks.index_of(k);
        assert(ks[j] == k);
        assert(nk[j] == k);
        assert(nk.contains(k));
        assert(nk[nk.index_of(k)] == k);
    }
}

} // verus!
