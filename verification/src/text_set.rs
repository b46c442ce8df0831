//! Sets of paths held as duplicate-free lists of strings, paths compared as `Path` compares
//! them (by components).
use vstd::prelude::*;

use crate::paths::{components, components_of};
use crate::text::{chars_of, eq_chars, string_from, vviews};

verus! {

broadcast use vstd::seq_lib::group_seq_properties;

/// The texts of a list of strings.
pub open spec fn texts(v: Seq<String>) -> Seq<Seq<char>> {
    v.map_values(|s: String| s@)
}

/// The comparison key of a path: its components, as `Path` compares paths.
pub open spec fn path_key(p: Seq<char>) -> Seq<Seq<char>> {
    components(p)
}

/// The keys of a list of paths.
pub open spec fn keys(v: Seq<String>) -> Seq<Seq<Seq<char>>> {
    v.map_values(|s: String| path_key(s@))
}

/// The set of keys of a list of paths.
pub open spec fn key_set(v: Seq<String>) -> Set<Seq<Seq<char>>> {
    keys(v).to_set()
}

pub proof fn lemma_key_set_empty(v: Seq<String>)
    ensures
        key_set(v).is_empty() <==> v.len() == 0,
{
    if v.len() > 0 {
        assert(key_set(v).contains(path_key(v[0]@))) by {
            assert(keys(v)[0] == path_key(v[0]@));
        }
    } else {
        assert(key_set(v) =~= Set::<Seq<Seq<char>>>::empty()) by {
            assert forall|x: Seq<Seq<char>>| !key_set(v).contains(x) by {
                if keys(v).contains(x) {
                    let k = choose|k: int| 0 <= k < keys(v).len() && keys(v)[k] == x;
                }
            }
        }
    }
}

/// The texts of a list, without those whose path equals a path of key `k`.
pub open spec fn without_key(t: Seq<Seq<char>>, k: Seq<Seq<char>>) -> Seq<Seq<char>> {
    t.filter(|x: Seq<char>| path_key(x) != k)
}

fn same_parts(a: &Vec<Vec<char>>, b: &Vec<Vec<char>>) -> (r: bool)
    ensures
        r == (vviews(a@) == vviews(b@)),
{
    if a.len() != b.len() {
        assert(vviews(a@).len() != vviews(b@).len());
        return false;
    }
    let mut i: usize = 0;
    while i < a.len()
        invariant
            a@.len() == b@.len(),
            i <= a@.len(),
            forall|j: int| 0 <= j < i ==> a@[j]@ == b@[j]@,
        decreases a@.len() - i,
    {
        if !eq_chars(&a[i], &b[i]) {
            assert(vviews(a@)[i as int] != vviews(b@)[i as int]);
            return false;
        }
        i = i + 1;
    }
    assert(vviews(a@) =~= vviews(b@));
    true
}

fn key_of(path: &str) -> (r: Vec<Vec<char>>)
    ensures
        vviews(r@) == path_key(path@),
{
    components_of(&chars_of(path))
}

/// The list without the path that equals `path`.
pub fn remove_path(v: &Vec<String>, path: &str) -> (r: Vec<String>)
    requires
        keys(v@).no_duplicates(),
    ensures
        keys(r@).no_duplicates(),
        key_set(r@) == key_set(v@).remove(path_key(path@)),
        texts(r@) == without_key(texts(v@), path_key(path@)),
{
    let pk = key_of(path);
    let mut r: Vec<String> = Vec::new();
    let mut i: usize = 0;
    while i < v.len()
        invariant
            i <= v.len(),
            vviews(pk@) == path_key(path@),
            keys(v@).no_duplicates(),
            keys(r@).no_duplicates(),
            forall|x: Seq<Seq<char>>|
                keys(r@).contains(x) <==> (keys(v@.take(i as int)).contains(x) && x != path_key(
                    path@,
                )),
            texts(r@) == without_key(texts(v@.take(i as int)), path_key(path@)),
        decreases v.len() - i,
    {
        let ghost pre = keys(v@.take(i as int));
        let ghost now = keys(v@.take(i + 1));
        assert(now =~= pre.push(path_key(v@[i as int]@)));
        let ghost tnow = texts(v@.take(i + 1));
        assert(tnow.drop_last() =~= texts(v@.take(i as int)));
        assert(tnow.last() == v@[i as int]@);
        proof {
            reveal(Seq::filter);
        }
        let k = key_of(v[i].as_str());
        if !same_parts(&k, &pk) {
            let ghost before = keys(r@);
            proof {
                if before.contains(path_key(v@[i as int]@)) {
                    let m = choose|m: int| 0 <= m < pre.len() && pre[m] == path_key(v@[i as int]@);
                    assert(keys(v@)[m] == keys(v@)[i as int]);
                }
            }
            let ghost tbefore = texts(r@);
            r.push(string_from(v[i].as_str()));
            assert(keys(r@) =~= before.push(path_key(v@[i as int]@)));
            assert(texts(r@) =~= tbefore.push(v@[i as int]@));
        }
        i = i + 1;
    }
    assert(v@.take(v.len() as int) =~= v@);
    assert(key_set(r@) =~= key_set(v@).remove(path_key(path@)));
    r
}

/// The list with `path` added, unless an equal path is already there (which is kept).
pub fn insert_path(v: &Vec<String>, path: &str) -> (r: Vec<String>)
    requires
        keys(v@).no_duplicates(),
    ensures
        keys(r@).no_duplicates(),
        key_set(r@) == key_set(v@).insert(path_key(path@)),
        key_set(v@).contains(path_key(path@)) ==> texts(r@) == texts(v@),
        !key_set(v@).contains(path_key(path@)) ==> texts(r@) == texts(v@).push(path@),
{
    let pk = key_of(path);
    let mut r: Vec<String> = Vec::new();
    let mut found = false;
    let mut i: usize = 0;
    while i < v.len()
        invariant
            i <= v.len(),
            vviews(pk@) == path_key(path@),
            keys(v@).no_duplicates(),
            keys(r@) == keys(v@.take(i as int)),
            texts(r@) == texts(v@.take(i as int)),
            found <==> keys(v@.take(i as int)).contains(path_key(path@)),
        decreases v.len() - i,
    {
        let ghost pre = keys(v@.take(i as int));
        let ghost now = keys(v@.take(i + 1));
        assert(now =~= pre.push(path_key(v@[i as int]@)));
        let ghost tpre = texts(v@.take(i as int));
        assert(texts(v@.take(i + 1)) =~= tpre.push(v@[i as int]@));
        let k = key_of(v[i].as_str());
        if same_parts(&k, &pk) {
            found = true;
        }
        r.push(string_from(v[i].as_str()));
        assert(keys(r@) =~= now);
        assert(texts(r@) =~= texts(v@.take(i + 1)));
        i = i + 1;
    }
    assert(v@.take(v.len() as int) =~= v@);
    if !found {
        let ghost before = keys(r@);
        let ghost tbefore = texts(r@);
        r.push(string_from(path));
        assert(keys(r@) =~= before.push(path_key(path@)));
        assert(texts(r@) =~= tbefore.push(path@));
    }
    assert(key_set(r@) =~= key_set(v@).insert(path_key(path@)));
    r
}

} // verus!
