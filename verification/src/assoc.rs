//! Maps keyed by text, kept as lists of key/value pairs in the order their
//! keys were first set; setting a key again replaces its value in place.

use crate::geopackage::{first_where, lemma_first_where};
use crate::text::str_eq;
use vstd::prelude::*;

verus! {

/// The pair has key `key`.
pub open spec fn key_of<V>(key: Seq<char>) -> spec_fn((Seq<char>, V)) -> bool {
    |p: (Seq<char>, V)| p.0 == key
}

/// The position of `key`.
pub open spec fn assoc_index<V>(s: Seq<(Seq<char>, V)>, key: Seq<char>) -> Option<int> {
    first_where(s, key_of::<V>(key))
}

/// The value of `key`.
pub open spec fn assoc_get<V>(s: Seq<(Seq<char>, V)>, key: Seq<char>) -> Option<V> {
    match assoc_index(s, key) {
        Some(i) => Some(s[i].1),
        None => None,
    }
}

/// The pairs after setting `key` to `v`: an existing pair is updated in
/// place, a new key goes last.
pub open spec fn assoc_insert<V>(s: Seq<(Seq<char>, V)>, key: Seq<char>, v: V) -> Seq<(Seq<char>, V)> {
    match assoc_index(s, key) {
        Some(i) => s.update(i, (key, v)),
        None => s.push((key, v)),
    }
}

/// The keys, in order.
pub open spec fn assoc_keys<V>(s: Seq<(Seq<char>, V)>) -> Seq<Seq<char>> {
    s.map_values(|p: (Seq<char>, V)| p.0)
}

/// Reading a key gives back what was last set for it, and setting one key
/// leaves the others as they were.
pub proof fn law_assoc_insert_get<V>(s: Seq<(Seq<char>, V)>, key: Seq<char>, v: V, other: Seq<char>)
    ensures
        assoc_get(assoc_insert(s, key, v), key) == Some(v),
        other != key ==> assoc_get(assoc_insert(s, key, v), other) == assoc_get(s, other),
{
    let e = assoc_insert(s, key, v);
    lemma_first_where(s, key_of::<V>(key));
    lemma_first_where(e, key_of::<V>(key));
    lemma_first_where(s, key_of::<V>(other));
    lemma_first_where(e, key_of::<V>(other));
    match assoc_index(s, key) {
        Some(k) => {
            assert(key_of::<V>(key)(e[k]));
            assert forall|j: int| 0 <= j < k implies !key_of::<V>(key)(e[j]) by {
                assert(e[j] == s[j]);
            }
            if other != key {
                assert forall|j: int| 0 <= j < e.len() && j != k implies e[j] == s[j] by {}
                assert(!key_of::<V>(other)(e[k]));
                assert(!key_of::<V>(other)(s[k]));
                match assoc_index(s, other) {
                    Some(i) => {
                        assert(key_of::<V>(other)(e[i]));
                        assert forall|j: int| 0 <= j < i implies !key_of::<V>(other)(e[j]) by {
                            if j != k {
                                assert(e[j] == s[j]);
                            }
                        }
                    },
                    None => {
                        assert forall|j: int| 0 <= j < e.len() implies !key_of::<V>(other)(e[j]) by {
                            if j != k {
                                assert(e[j] == s[j]);
                            }
                        }
                    },
                }
            }
        },
        None => {
            assert(key_of::<V>(key)(e[s.len() as int]));
            assert forall|j: int| 0 <= j < s.len() implies !key_of::<V>(key)(e[j]) by {
                assert(e[j] == s[j]);
            }
            if other != key {
                match assoc_index(s, other) {
                    Some(i) => {
                        assert(e[i] == s[i]);
                        assert forall|j: int| 0 <= j < i implies !key_of::<V>(other)(e[j]) by {
                            assert(e[j] == s[j]);
                        }
                    },
                    None => {
                        assert forall|j: int| 0 <= j < e.len() implies !key_of::<V>(other)(e[j]) by {
                            if j < s.len() {
                                assert(e[j] == s[j]);
                            }
                        }
                    },
                }
            }
        },
    }
}

/// The views of a list of text pairs.
pub open spec fn text_pairs_view(v: Seq<(String, String)>) -> Seq<(Seq<char>, Seq<char>)> {
    v.map_values(|p: (String, String)| (p.0@, p.1@))
}

/// The views of a list of text/flag pairs.
pub open spec fn flag_pairs_view(v: Seq<(String, bool)>) -> Seq<(Seq<char>, bool)> {
    v.map_values(|p: (String, bool)| (p.0@, p.1))
}

/// The position of `key` in a list of text pairs.
pub fn text_pair_index(pairs: &Vec<(String, String)>, key: &str) -> (r: Option<usize>)
    ensures
        match r {
            Some(i) => assoc_index(text_pairs_view(pairs@), key@) == Some(i as int) && i < pairs.len(),
            None => assoc_index(text_pairs_view(pairs@), key@) is None,
        },
{
    let ghost o = text_pairs_view(pairs@);
    let ghost pred = key_of::<Seq<char>>(key@);
    proof {
        lemma_first_where(o, pred);
    }
    let mut i: usize = 0;
    while i < pairs.len()
        invariant
            i <= pairs.len(),
            o == text_pairs_view(pairs@),
            pred == key_of::<Seq<char>>(key@),
            forall|j: int| 0 <= j < i ==> !pred(#[trigger] o[j]),
            match first_where(o, pred) {
                Some(k) => 0 <= k < o.len() && pred(o[k]) && forall|j: int| 0 <= j < k ==> !pred(o[j]),
                None => forall|j: int| 0 <= j < o.len() ==> !pred(o[j]),
            },
        decreases pairs.len() - i,
    {
        assert(o[i as int] == (pairs@[i as int].0@, pairs@[i as int].1@));
        if str_eq(pairs[i].0.as_str(), key) {
            assert(pred(o[i as int]));
            return Some(i);
        }
        i += 1;
    }
    None
}

/// The value of `key` in a list of text pairs.
pub fn text_pair_get<'a>(pairs: &'a Vec<(String, String)>, key: &str) -> (r: Option<&'a String>)
    ensures
        match r {
            Some(v) => assoc_get(text_pairs_view(pairs@), key@) == Some(v@),
            None => assoc_get(text_pairs_view(pairs@), key@) is None,
        },
{
    match text_pair_index(pairs, key) {
        Some(i) => {
            assert(text_pairs_view(pairs@)[i as int] == (pairs@[i as int].0@, pairs@[i as int].1@));
            Some(&pairs[i].1)
        },
        None => None,
    }
}

/// Sets `key` to `v` in a list of text pairs (see [`assoc_insert`]).
pub fn text_pair_set(pairs: &mut Vec<(String, String)>, key: String, v: String)
    ensures
        text_pairs_view(final(pairs)@) == assoc_insert(text_pairs_view(old(pairs)@), key@, v@),
{
    let ghost o = text_pairs_view(pairs@);
    let ghost kv = (key@, v@);
    match text_pair_index(pairs, key.as_str()) {
        Some(i) => {
            pairs.set(i, (key, v));
            assert(text_pairs_view(pairs@) =~= o.update(i as int, kv));
        },
        None => {
            pairs.push((key, v));
            assert(text_pairs_view(pairs@) =~= o.push(kv));
        },
    }
}

/// The position of `key` in a list of text/flag pairs.
pub fn flag_pair_index(pairs: &Vec<(String, bool)>, key: &str) -> (r: Option<usize>)
    ensures
        match r {
            Some(i) => assoc_index(flag_pairs_view(pairs@), key@) == Some(i as int) && i < pairs.len(),
            None => assoc_index(flag_pairs_view(pairs@), key@) is None,
        },
{
    let ghost o = flag_pairs_view(pairs@);
    let ghost pred = key_of::<bool>(key@);
    proof {
        lemma_first_where(o, pred);
    }
    let mut i: usize = 0;
    while i < pairs.len()
        invariant
            i <= pairs.len(),
            o == flag_pairs_view(pairs@),
            pred == key_of::<bool>(key@),
            forall|j: int| 0 <= j < i ==> !pred(#[trigger] o[j]),
            match first_where(o, pred) {
                Some(k) => 0 <= k < o.len() && pred(o[k]) && forall|j: int| 0 <= j < k ==> !pred(o[j]),
                None => forall|j: int| 0 <= j < o.len() ==> !pred(o[j]),
            },
        decreases pairs.len() - i,
    {
        assert(o[i as int] == (pairs@[i as int].0@, pairs@[i as int].1));
        if str_eq(pairs[i].0.as_str(), key) {
            assert(pred(o[i as int]));
            return Some(i);
        }
        i += 1;
    }
    None
}

/// The flag of `key` in a list of text/flag pairs.
pub fn flag_pair_get(pairs: &Vec<(String, bool)>, key: &str) -> (r: Option<bool>)
    ensures
        r == assoc_get(flag_pairs_view(pairs@), key@),
{
    match flag_pair_index(pairs, key) {
        Some(i) => {
            assert(flag_pairs_view(pairs@)[i as int] == (pairs@[i as int].0@, pairs@[i as int].1));
            Some(pairs[i].1)
        },
        None => None,
    }
}

/// Sets `key` to `v` in a list of text/flag pairs (see [`assoc_insert`]).
pub fn flag_pair_set(pairs: &mut Vec<(String, bool)>, key: String, v: bool)
    ensures
        flag_pairs_view(final(pairs)@) == assoc_insert(flag_pairs_view(old(pairs)@), key@, v),
{
    let ghost o = flag_pairs_view(pairs@);
    let ghost kv = (key@, v);
    match flag_pair_index(pairs, key.as_str()) {
        Some(i) => {
            pairs.set(i, (key, v));
            assert(flag_pairs_view(pairs@) =~= o.update(i as int, kv));
        },
        None => {
            pairs.push((key, v));
            assert(flag_pairs_view(pairs@) =~= o.push(kv));
        },
    }
}

} // verus!
