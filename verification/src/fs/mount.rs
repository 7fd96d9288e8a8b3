use vstd::prelude::*;
use crate::fs::text::chars_of;

verus! {

/// What is known of a mount point: the device, the path it is mounted at,
/// and the name of the driver.
pub struct MountInfo {
    /// The name of the device.
    pub device: String,
    /// The path the device is mounted at.
    pub target: String,
    /// The name of the driver of its file system.
    pub driver: String,
}

/// Whether no two entries of the table `v` have the same key.
pub open spec fn keys_unique<T>(v: Seq<(String, T)>) -> bool {
    forall|i: int, j: int|
        0 <= i < v.len() && 0 <= j < v.len() && i != j ==> (#[trigger] v[i]).0@ != (#[trigger] v[j]).0@
}

/// Whether entry `i` of the table `v` has the key `k`.
pub open spec fn has_key<T>(v: Seq<(String, T)>, k: Seq<char>, i: int) -> bool {
    0 <= i < v.len() && v[i].0@ == k
}

/// The place of the entry of the table `v` keyed `k`, where there is one.
pub open spec fn key_index<T>(v: Seq<(String, T)>, k: Seq<char>) -> Option<int> {
    if exists|i: int| has_key(v, k, i) {
        Some(choose|i: int| has_key(v, k, i))
    } else {
        None
    }
}

/// In a table whose keys are unique, the entry with a key is the one found.
pub proof fn lemma_key_index<T>(v: Seq<(String, T)>, k: Seq<char>, i: int)
    requires
        keys_unique(v),
        has_key(v, k, i),
    ensures
        key_index(v, k) == Some(i),
{
    let c = choose|j: int| has_key(v, k, j);
    assert(has_key(v, k, c));
    assert(v[c].0@ == v[i].0@);
}

/// The place that [`key_index`] gives holds the key.
pub proof fn lemma_key_index_has<T>(v: Seq<(String, T)>, k: Seq<char>)
    ensures
        key_index(v, k) matches Some(i) ==> has_key(v, k, i),
{
    if exists|i: int| has_key(v, k, i) {
        let c = choose|i: int| has_key(v, k, i);
        assert(has_key(v, k, c));
    }
}

/// The place of the entry of `v` keyed `k`.
pub fn find_key<T>(v: &Vec<(String, T)>, k: &str) -> (r: Option<usize>)
    requires
        keys_unique(v@),
    ensures
        match r {
            Some(i) => key_index(v@, k@) == Some(i as int),
            None => key_index(v@, k@) is None,
        },
{
    let key = k.to_owned();
    let mut i: usize = 0;
    while i < v.len()
        invariant
            key@ == k@,
            i <= v@.len(),
            keys_unique(v@),
            forall|j: int| 0 <= j < i ==> !has_key(v@, k@, j),
        decreases v@.len() - i,
    {
        if v[i].0 == key {
            proof {
                lemma_key_index(v@, k@, i as int);
            }
            return Some(i);
        }
        i = i + 1;
    }
    None
}

/// Whether `new` is the table `old` with the entry keyed `k` set to a value
/// of which `holds` holds: in its place where there is one, at the end
/// where there is none.
pub open spec fn key_set<T>(old: Seq<(String, T)>, new: Seq<(String, T)>, k: Seq<char>, holds: spec_fn(T) -> bool) -> bool {
    match key_index(old, k) {
        Some(i) => {
            &&& new.len() == old.len()
            &&& new[i].0@ == k
            &&& holds(new[i].1)
            &&& forall|j: int| 0 <= j < old.len() && j != i ==> new[j] == old[j]
        },
        None => {
            &&& new.len() == old.len() + 1
            &&& new.drop_last() == old
            &&& new.last().0@ == k
            &&& holds(new.last().1)
        },
    }
}

/// Sets the entry of `v` keyed `k` to `val`: in its place where there is
/// one, at the end where there is none.
pub fn insert_key<T>(v: &mut Vec<(String, T)>, k: String, val: T)
    requires
        keys_unique(old(v)@),
    ensures
        keys_unique(final(v)@),
        match key_index(old(v)@, k@) {
            Some(i) => final(v)@ == old(v)@.update(i, (k, val)),
            None => final(v)@ == old(v)@.push((k, val)),
        },
{
    let ghost key = k@;
    proof {
        lemma_key_index_has(old(v)@, key);
    }
    match find_key(v, k.as_str()) {
        Some(i) => {
            v.set(i, (k, val));
            proof {
                let w = v@;
                assert(has_key(old(v)@, key, i as int));
                assert forall|a: int, b: int|
                    0 <= a < w.len() && 0 <= b < w.len() && a != b implies (#[trigger] w[a]).0@ != (
                #[trigger] w[b]).0@ by {
                    if a != i && b != i {
                        assert(w[a] == old(v)@[a] && w[b] == old(v)@[b]);
                    } else if a == i {
                        assert(w[b] == old(v)@[b]);
                        assert(old(v)@[a] == old(v)@[i as int]);
                    } else {
                        assert(w[a] == old(v)@[a]);
                        assert(old(v)@[b] == old(v)@[i as int]);
                    }
                }
            }
        },
        None => {
            v.push((k, val));
            proof {
                let w = v@;
                let n = old(v)@.len() as int;
                assert forall|a: int, b: int|
                    0 <= a < w.len() && 0 <= b < w.len() && a != b implies (#[trigger] w[a]).0@ != (
                #[trigger] w[b]).0@ by {
                    if a != n && b != n {
                        assert(w[a] == old(v)@[a] && w[b] == old(v)@[b]);
                    } else if a == n {
                        assert(w[b] == old(v)@[b]);
                        assert(!has_key(old(v)@, key, b));
                    } else {
                        assert(w[a] == old(v)@[a]);
                        assert(!has_key(old(v)@, key, a));
                    }
                }
            }
        },
    }
}

/// Removes the entry of `v` keyed `k`, where there is one.
pub fn remove_key<T>(v: &mut Vec<(String, T)>, k: &str)
    requires
        keys_unique(old(v)@),
    ensures
        keys_unique(final(v)@),
        match key_index(old(v)@, k@) {
            Some(i) => final(v)@ == old(v)@.remove(i),
            None => final(v)@ == old(v)@,
        },
{
    proof {
        lemma_key_index_has(old(v)@, k@);
    }
    match find_key(v, k) {
        Some(i) => {
            let _ = v.remove(i);
            assert(v@ == old(v)@.remove(i as int));
            proof {
                let w = old(v)@.remove(i as int);
                assert forall|a: int, b: int|
                    0 <= a < w.len() && 0 <= b < w.len() && a != b implies (#[trigger] w[a]).0@ != (
                #[trigger] w[b]).0@ by {
                    let a0 = if a < i { a } else { a + 1 };
                    let b0 = if b < i { b } else { b + 1 };
                    assert(w[a] == old(v)@[a0]);
                    assert(w[b] == old(v)@[b0]);
                }
            }
        },
        None => {},
    }
}

/// Whether entry `i` of the table `v` has the longest key that is a prefix
/// of `p`.
pub open spec fn is_longest_prefix<T>(v: Seq<(String, T)>, p: Seq<char>, i: int) -> bool {
    &&& 0 <= i < v.len()
    &&& v[i].0@.is_prefix_of(p)
    &&& forall|j: int|
        0 <= j < v.len() && (#[trigger] v[j]).0@.is_prefix_of(p) ==> v[j].0@.len() <= v[i].0@.len()
}

/// The place of the entry of `v` whose key is the longest prefix of `p`,
/// where a key is a prefix of it.
pub open spec fn longest_prefix<T>(v: Seq<(String, T)>, p: Seq<char>) -> Option<int> {
    if exists|i: int| is_longest_prefix(v, p, i) {
        Some(choose|i: int| is_longest_prefix(v, p, i))
    } else {
        None
    }
}

/// In a table whose keys are unique, the entry with the longest prefix is
/// the one found.
pub proof fn lemma_longest_prefix<T>(v: Seq<(String, T)>, p: Seq<char>, i: int)
    requires
        keys_unique(v),
        is_longest_prefix(v, p, i),
    ensures
        longest_prefix(v, p) == Some(i),
{
    let c = choose|j: int| is_longest_prefix(v, p, j);
    assert(is_longest_prefix(v, p, c));
    assert(v[c].0@.len() == v[i].0@.len());
    assert(v[c].0@ =~= v[i].0@) by {
        assert(v[c].0@ =~= p.subrange(0, v[c].0@.len() as int));
        assert(v[i].0@ =~= p.subrange(0, v[i].0@.len() as int));
    }
}

/// The place that [`longest_prefix`] gives has the longest prefix.
pub proof fn lemma_longest_prefix_has<T>(v: Seq<(String, T)>, p: Seq<char>)
    ensures
        longest_prefix(v, p) matches Some(i) ==> is_longest_prefix(v, p, i),
{
    if exists|i: int| is_longest_prefix(v, p, i) {
        let c = choose|i: int| is_longest_prefix(v, p, i);
        assert(is_longest_prefix(v, p, c));
    }
}

/// Whether `a` is a prefix of `b`.
pub fn is_prefix(a: &Vec<char>, b: &Vec<char>) -> (r: bool)
    ensures
        r == a@.is_prefix_of(b@),
{
    if a.len() > b.len() {
        return false;
    }
    let mut i: usize = 0;
    while i < a.len()
        invariant
            a@.len() <= b@.len(),
            i <= a@.len(),
            forall|j: int| 0 <= j < i ==> a@[j] == b@[j],
        decreases a@.len() - i,
    {
        if a[i] != b[i] {
            return false;
        }
        i = i + 1;
    }
    assert(b@.subrange(0, a@.len() as int) =~= a@);
    true
}

/// The place of the entry of `v` whose key is the longest prefix of `path`.
pub fn longest_prefix_index<T>(v: &Vec<(String, T)>, path: &Vec<char>) -> (r: Option<usize>)
    requires
        keys_unique(v@),
    ensures
        match r {
            Some(i) => longest_prefix(v@, path@) == Some(i as int),
            None => longest_prefix(v@, path@) is None,
        },
{
    let mut best: Option<usize> = None;
    let mut best_len: usize = 0;
    let mut i: usize = 0;
    while i < v.len()
        invariant
            i <= v@.len(),
            keys_unique(v@),
            match best {
                Some(b) => {
                    &&& b < i
                    &&& v@[b as int].0@.is_prefix_of(path@)
                    &&& best_len == v@[b as int].0@.len()
                    &&& forall|j: int|
                        0 <= j < i && (#[trigger] v@[j]).0@.is_prefix_of(path@) ==> v@[j].0@.len()
                            <= best_len
                },
                None => forall|j: int| 0 <= j < i ==> !(#[trigger] v@[j]).0@.is_prefix_of(path@),
            },
        decreases v@.len() - i,
    {
        let key = chars_of(v[i].0.as_str());
        if is_prefix(&key, path) {
            match best {
                None => {
                    best = Some(i);
                    best_len = key.len();
                },
                Some(b) => {
                    if key.len() >= best_len {
                        best = Some(i);
                        best_len = key.len();
                    }
                },
            }
        }
        i = i + 1;
    }
    match best {
        Some(b) => {
            proof {
                lemma_longest_prefix(v@, path@, b as int);
            }
        },
        None => {
            assert(!exists|j: int| is_longest_prefix(v@, path@, j));
        },
    }
    best
}

/// `s` without the slashes it starts with.
pub open spec fn trim_slashes(s: Seq<char>) -> Seq<char>
    decreases s.len(),
{
    if s.len() > 0 && s[0] == '/' {
        trim_slashes(s.drop_first())
    } else {
        s
    }
}

/// The parts of `s` between slashes after its first `n` characters: the
/// parts done and the part under way; empty parts are kept.
pub open spec fn split_upto(s: Seq<char>, n: nat) -> (Seq<Seq<char>>, Seq<char>)
    decreases n,
{
    if n == 0 {
        (Seq::empty(), Seq::empty())
    } else {
        let (done, cur) = split_upto(s, (n - 1) as nat);
        if s[n - 1] == '/' {
            (done.push(cur), Seq::empty())
        } else {
            (done, cur.push(s[n - 1]))
        }
    }
}

/// The parts of `s` between slashes, empty ones kept: one more than the
/// slashes of `s`.
pub open spec fn split_slash(s: Seq<char>) -> Seq<Seq<char>> {
    let (done, cur) = split_upto(s, s.len());
    done.push(cur)
}

/// The parts of the path `p` below the mount point `mount`: what follows
/// the mount point, without the slashes it starts with, split at slashes.
pub open spec fn relative_parts(p: Seq<char>, mount: Seq<char>) -> Seq<Seq<char>> {
    split_slash(trim_slashes(p.subrange(mount.len() as int, p.len() as int)))
}

/// The parts of `path` from place `start` on, as [`relative_parts`]
/// describes.
pub fn relative_components(path: &Vec<char>, start: usize) -> (parts: Vec<Vec<char>>)
    requires
        start <= path@.len(),
    ensures
        parts@.len() == split_slash(trim_slashes(path@.subrange(start as int, path@.len() as int))).len(),
        forall|i: int|
            0 <= i < parts@.len() ==> (#[trigger] parts@[i])@ == split_slash(
                trim_slashes(path@.subrange(start as int, path@.len() as int)),
            )[i],
{
    let n = path.len();
    let mut j = start;
    while j < n && path[j] == '/'
        invariant
            n == path@.len(),
            start <= j <= n,
            trim_slashes(path@.subrange(start as int, n as int)) == trim_slashes(
                path@.subrange(j as int, n as int),
            ),
        decreases n - j,
    {
        assert(path@.subrange(j as int, n as int).drop_first() =~= path@.subrange(j + 1, n as int));
        j = j + 1;
    }
    let ghost s = path@.subrange(j as int, n as int);
    assert(trim_slashes(s) == s);
    let mut parts: Vec<Vec<char>> = Vec::new();
    let mut cur: Vec<char> = Vec::new();
    let mut i = j;
    while i < n
        invariant
            n == path@.len(),
            j <= i <= n,
            s == path@.subrange(j as int, n as int),
            ({
                let (done, c) = split_upto(s, (i - j) as nat);
                &&& parts@.len() == done.len()
                &&& forall|k: int| 0 <= k < parts@.len() ==> (#[trigger] parts@[k])@ == done[k]
                &&& cur@ == c
            }),
        decreases n - i,
    {
        let c = path[i];
        assert(s[(i + 1 - j) - 1] == c);
        if c == '/' {
            parts.push(cur);
            cur = Vec::new();
        } else {
            cur.push(c);
        }
        i = i + 1;
    }
    parts.push(cur);
    parts
}

/// Whether the parts of a path name the root: none, or one empty part.
pub open spec fn is_root(parts: Seq<Seq<char>>) -> bool {
    parts.len() == 0 || (parts.len() == 1 && parts[0].len() == 0)
}

/// Whether the parts `parts` name the root (see [`is_root`]).
pub fn is_root_path(parts: &Vec<Vec<char>>) -> (r: bool)
    ensures
        r == is_root(parts@.map_values(|p: Vec<char>| p@)),
{
    parts.len() == 0 || (parts.len() == 1 && parts[0].len() == 0)
}

/// The first `n` of the parts `parts` joined with slashes.
pub open spec fn join_slash(parts: Seq<Seq<char>>, n: nat) -> Seq<char>
    decreases n,
{
    if n == 0 {
        Seq::empty()
    } else if n == 1 {
        parts[0]
    } else {
        join_slash(parts, (n - 1) as nat) + seq!['/'] + parts[n - 1]
    }
}

/// The first `n` of the parts `parts` joined with slashes.
pub fn join_components(parts: &Vec<Vec<char>>, n: usize) -> (s: Vec<char>)
    requires
        n <= parts@.len(),
    ensures
        s@ == join_slash(parts@.map_values(|p: Vec<char>| p@), n as nat),
{
    let ghost ps = parts@.map_values(|p: Vec<char>| p@);
    let mut s: Vec<char> = Vec::new();
    let mut k: usize = 0;
    while k < n
        invariant
            n <= parts@.len(),
            ps == parts@.map_values(|p: Vec<char>| p@),
            k <= n,
            s@ == join_slash(ps, k as nat),
        decreases n - k,
    {
        if k > 0 {
            s.push('/');
        }
        let part = &parts[k];
        let mut i: usize = 0;
        let ghost before = s@;
        while i < part.len()
            invariant
                i <= part@.len(),
                s@ == before + part@.subrange(0, i as int),
            decreases part@.len() - i,
        {
            s.push(part[i]);
            i = i + 1;
        }
        assert(part@.subrange(0, part@.len() as int) =~= part@);
        k = k + 1;
    }
    s
}

} // verus!
