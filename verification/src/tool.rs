//! Tool descriptions and the name-indexed tool registry an agent dispatches
//! through.
use vstd::prelude::*;

use crate::error::Error;
use crate::text::{
    chars_of, lemma_text_le_transitive, lemma_text_lt_asymmetric, lemma_text_lt_irreflexive,
    lemma_text_lt_transitive, lemma_text_trichotomy, text_equal, text_le, text_less, text_lt,
};

verus! {

/// The wire description of a tool, handed to a provider so the model knows
/// the tool exists and how to call it.
#[derive(Debug, Clone)]
pub struct ToolSpec {
    /// Unique tool name (usually the source function name).
    pub name: String,
    /// Human/model-readable description (usually the function's doc comment).
    pub description: String,
    /// JSON Schema describing the tool's parameters (an `object` schema).
    pub parameters: serde_json::Value,
}

/// The names of `entries`, in order.
pub open spec fn names_of<T>(entries: Seq<(String, T)>) -> Seq<Seq<char>> {
    entries.map_values(|e: (String, T)| e.0@)
}

/// Every name orders strictly before every later one (so no name repeats).
pub open spec fn strictly_sorted(names: Seq<Seq<char>>) -> bool {
    forall|a: int, b: int| 0 <= a < b < names.len() ==> text_lt(#[trigger] names[a], #[trigger] names[b])
}

/// Every name orders before or equal to every later one.
pub open spec fn sorted(names: Seq<Seq<char>>) -> bool {
    forall|a: int, b: int| 0 <= a < b < names.len() ==> text_le(#[trigger] names[a], #[trigger] names[b])
}

/// `name` is carried by two different entries.
pub open spec fn is_duplicate_name<T>(entries: Seq<(String, T)>, name: Seq<char>) -> bool {
    exists|i: int, j: int|
        0 <= i < j < entries.len() && #[trigger] entries[i].0@ == name && #[trigger] entries[j].0@ == name
}

/// The entries' names are pairwise distinct.
pub open spec fn names_distinct<T>(entries: Seq<(String, T)>) -> bool {
    forall|i: int, j: int| 0 <= i < j < entries.len() ==> #[trigger] entries[i].0@ != #[trigger] entries[j].0@
}

/// `p` lists every index below `n` exactly once.
pub open spec fn is_index_permutation(p: Seq<int>, n: nat) -> bool {
    &&& p.len() == n
    &&& forall|k: int| 0 <= k < n ==> 0 <= #[trigger] p[k] < n
    &&& forall|a: int, b: int| 0 <= a < b < n ==> #[trigger] p[a] != #[trigger] p[b]
}

/// `out` holds the items of `inp`, each exactly once, in some order.
pub open spec fn rearranges<T>(out: Seq<T>, inp: Seq<T>) -> bool {
    exists|p: Seq<int>|
        {
            &&& is_index_permutation(p, inp.len())
            &&& out.len() == inp.len()
            &&& forall|k: int| 0 <= k < out.len() ==> #[trigger] out[k] == inp[p[k]]
            &&& forall|j: int| 0 <= j < inp.len() ==> #[trigger] lists(p, j)
        }
}

/// A registry keeps every tool it was built from: each input entry is held,
/// and each held entry came from the input.
pub proof fn lemma_registry_keeps_every_tool<T>(held: Seq<(String, T)>, input: Seq<(String, T)>)
    requires
        rearranges(held, input),
    ensures
        held.len() == input.len(),
        forall|i: int| 0 <= i < input.len() ==> held.contains(#[trigger] input[i]),
        forall|k: int| 0 <= k < held.len() ==> input.contains(#[trigger] held[k]),
{
    let p = choose|p: Seq<int>|
        {
            &&& is_index_permutation(p, input.len())
            &&& held.len() == input.len()
            &&& forall|k: int| 0 <= k < held.len() ==> #[trigger] held[k] == input[p[k]]
            &&& forall|j: int| 0 <= j < input.len() ==> #[trigger] lists(p, j)
        };
    assert forall|i: int| 0 <= i < input.len() implies held.contains(#[trigger] input[i]) by {
        assert(lists(p, i));
        let k = choose|k: int| 0 <= k < p.len() && #[trigger] p[k] == i;
        assert(held[k] == input[p[k]]);
    }
    assert forall|k: int| 0 <= k < held.len() implies input.contains(#[trigger] held[k]) by {
        assert(held[k] == input[p[k]]);
    }
}

/// `j` occurs somewhere in `p`.
pub open spec fn lists(p: Seq<int>, j: int) -> bool {
    exists|k: int| 0 <= k < p.len() && #[trigger] p[k] == j
}

/// The message of the error for a repeated tool name.
pub open spec fn duplicate_message(name: Seq<char>) -> Seq<char> {
    "duplicate tool name `"@ + name + "`"@
}

/// In a sorted list, two equal names far apart force equal neighbours.
proof fn lemma_equal_neighbours(keys: Seq<Seq<char>>, a: int, b: int)
    requires
        sorted(keys),
        0 <= a < b < keys.len(),
        keys[a] == keys[b],
    ensures
        keys[a] == keys[a + 1],
{
    if a + 1 < b {
        assert(text_le(keys[a + 1], keys[b]));
    }
    assert(text_le(keys[a], keys[a + 1]));
    lemma_text_lt_asymmetric(keys[a], keys[a + 1]);
    lemma_text_lt_irreflexive(keys[a]);
}

/// A sorted list with no equal neighbours is strictly sorted.
proof fn lemma_strict_from_neighbours(keys: Seq<Seq<char>>)
    requires
        sorted(keys),
        forall|q: int| 0 <= q < keys.len() - 1 ==> #[trigger] keys[q] != keys[q + 1],
    ensures
        strictly_sorted(keys),
{
    assert forall|a: int, b: int| 0 <= a < b < keys.len() implies text_lt(
        #[trigger] keys[a],
        #[trigger] keys[b],
    ) by {
        if keys[a] == keys[b] {
            lemma_equal_neighbours(keys, a, b);
        }
    }
}

/// `sorted` holds `input` reordered by `perm`, and is sorted by name.
spec fn sorted_rearrangement<T>(sorted_: Seq<(String, T)>, input: Seq<(String, T)>, perm: Seq<int>) -> bool {
    &&& is_index_permutation(perm, input.len())
    &&& sorted_.len() == input.len()
    &&& (forall|j: int| 0 <= j < input.len() ==> #[trigger] lists(perm, j))
    &&& (forall|k: int| 0 <= k < sorted_.len() ==> #[trigger] sorted_[k] == input[perm[k]])
    &&& sorted(names_of(sorted_))
}

/// Two equal names in the input meet as neighbours once sorted.
proof fn lemma_duplicate_meets<T>(input: Seq<(String, T)>, sorted_: Seq<(String, T)>, perm: Seq<int>, x: int, y: int)
    -> (lo: int)
    requires
        sorted_rearrangement(sorted_, input, perm),
        0 <= x < y < input.len(),
        input[x].0@ == input[y].0@,
    ensures
        0 <= lo < sorted_.len() - 1,
        names_of(sorted_)[lo] == input[x].0@,
        names_of(sorted_)[lo + 1] == input[x].0@,
{
    let keys = names_of(sorted_);
    assert(lists(perm, x) && lists(perm, y));
    let kx = choose|kk: int| 0 <= kk < perm.len() && #[trigger] perm[kk] == x;
    let ky = choose|kk: int| 0 <= kk < perm.len() && #[trigger] perm[kk] == y;
    assert(kx != ky);
    let lo = if kx < ky { kx } else { ky };
    let hi = if kx < ky { ky } else { kx };
    assert(keys[kx] == sorted_[kx].0@);
    assert(keys[ky] == sorted_[ky].0@);
    lemma_equal_neighbours(keys, lo, hi);
    lo
}

/// The first pair of equal neighbours names the least duplicated name.
proof fn lemma_repeat_is_least_duplicate<T>(input: Seq<(String, T)>, sorted_: Seq<(String, T)>, perm: Seq<int>, k: int)
    requires
        sorted_rearrangement(sorted_, input, perm),
        1 <= k < sorted_.len(),
        names_of(sorted_)[k - 1] == names_of(sorted_)[k],
        forall|q: int| 1 <= q < k ==> #[trigger] names_of(sorted_)[q - 1] != names_of(sorted_)[q],
    ensures
        is_duplicate_name(input, names_of(sorted_)[k - 1]),
        forall|d2: Seq<char>| is_duplicate_name(input, d2) ==> text_le(names_of(sorted_)[k - 1], d2),
        !names_distinct(input),
{
    let keys = names_of(sorted_);
    let d = keys[k - 1];
    let a = perm[k - 1];
    let b = perm[k];
    assert(sorted_[k - 1] == input[a]);
    assert(sorted_[k] == input[b]);
    assert(a != b);
    if a < b {
        assert(input[a].0@ == d && input[b].0@ == d);
    } else {
        assert(input[b].0@ == d && input[a].0@ == d);
    }
    assert(is_duplicate_name(input, d));
    assert forall|d2: Seq<char>| is_duplicate_name(input, d2) implies text_le(d, d2) by {
        let (x, y) = choose|x: int, y: int|
            0 <= x < y < input.len() && #[trigger] input[x].0@ == d2 && #[trigger] input[y].0@ == d2;
        let lo = lemma_duplicate_meets(input, sorted_, perm, x, y);
        if lo + 1 < k {
            assert(keys[(lo + 1) - 1] != keys[lo + 1]);
        } else if lo + 1 > k {
            assert(text_le(keys[k - 1], keys[lo]));
        }
    }
}

/// Without equal neighbours the names are distinct and strictly sorted.
proof fn lemma_no_repeat_distinct<T>(input: Seq<(String, T)>, sorted_: Seq<(String, T)>, perm: Seq<int>)
    requires
        sorted_rearrangement(sorted_, input, perm),
        forall|q: int| 1 <= q < sorted_.len() ==> #[trigger] names_of(sorted_)[q - 1] != names_of(sorted_)[q],
    ensures
        names_distinct(input),
        strictly_sorted(names_of(sorted_)),
        rearranges(sorted_, input),
{
    let keys = names_of(sorted_);
    assert forall|q: int| 0 <= q < keys.len() - 1 implies #[trigger] keys[q] != keys[q + 1] by {
        assert(keys[(q + 1) - 1] != keys[q + 1]);
    }
    lemma_strict_from_neighbours(keys);
    assert forall|x: int, y: int| 0 <= x < y < input.len() implies #[trigger] input[x].0@
        != #[trigger] input[y].0@ by {
        if input[x].0@ == input[y].0@ {
            let lo = lemma_duplicate_meets(input, sorted_, perm, x, y);
            assert(keys[(lo + 1) - 1] != keys[lo + 1]);
        }
    }
}

/// Sorts `entries` by name (stable insertion sort), also handing back each
/// entry's name as characters and, as a ghost, where each entry came from.
fn sort_by_name<T>(entries: Vec<(String, T)>) -> (r: (Vec<(String, T)>, Vec<Vec<char>>, Ghost<Seq<int>>))
    ensures
        sorted_rearrangement(r.0@, entries@, r.2@),
        r.1@.len() == r.0@.len(),
        forall|k: int| 0 <= k < r.1@.len() ==> #[trigger] r.1@[k]@ == r.0@[k].0@,
{
    let ghost input = entries@;
    let n: usize = entries.len();
    let mut src = entries;
    let mut sorted_entries: Vec<(String, T)> = Vec::new();
    let mut keys: Vec<Vec<char>> = Vec::new();
    let ghost mut perm: Seq<int> = Seq::empty();
    let mut i: usize = 0;
    assert(input.skip(0) =~= input);
    while i < n
        invariant
            n == input.len(),
            i <= n,
            src@ == input.skip(i as int),
            sorted_entries@.len() == i,
            keys@.len() == i,
            forall|k: int| 0 <= k < i ==> #[trigger] keys@[k]@ == sorted_entries@[k].0@,
            perm.len() == i,
            forall|k: int| 0 <= k < i ==> 0 <= #[trigger] perm[k] < i,
            forall|a: int, b: int| 0 <= a < b < i ==> #[trigger] perm[a] != #[trigger] perm[b],
            forall|j: int| 0 <= j < i ==> #[trigger] lists(perm, j),
            forall|k: int| 0 <= k < i ==> #[trigger] sorted_entries@[k] == input[perm[k]],
            forall|a: int, b: int| 0 <= a < b < i ==> text_le(#[trigger] keys@[a]@, #[trigger] keys@[b]@),
        decreases n - i,
    {
        let e = src.remove(0);
        assert(input.skip(i as int).drop_first() =~= input.skip(i + 1));
        let key = chars_of(e.0.as_str());
        let mut p: usize = 0;
        while p < keys.len() && !text_less(&key, &keys[p])
            invariant
                p <= keys@.len(),
                forall|q: int| 0 <= q < p ==> text_le(#[trigger] keys@[q]@, key@),
            decreases keys@.len() - p,
        {
            proof {
                lemma_text_trichotomy(key@, keys@[p as int]@);
            }
            p = p + 1;
        }
        let ghost old_keys = keys@;
        let ghost old_entries = sorted_entries@;
        let ghost old_perm = perm;
        assert forall|q: int| p <= q < old_keys.len() implies text_lt(key@, #[trigger] old_keys[q]@) by {
            if q > p {
                assert(text_le(old_keys[p as int]@, old_keys[q]@));
                if old_keys[p as int]@ != old_keys[q]@ {
                    lemma_text_lt_transitive(key@, old_keys[p as int]@, old_keys[q]@);
                }
            }
        }
        sorted_entries.insert(p, e);
        keys.insert(p, key);
        proof {
            perm = old_perm.insert(p as int, i as int);
            lemma_insert_keeps_order(old_keys.map_values(|k: Vec<char>| k@), key@, p as int);
            assert forall|a: int, b: int| 0 <= a < b < i + 1 implies text_le(
                #[trigger] keys@[a]@,
                #[trigger] keys@[b]@,
            ) by {
                let nk = old_keys.map_values(|k: Vec<char>| k@).insert(p as int, key@);
                assert(keys@[a]@ == nk[a]);
                assert(keys@[b]@ == nk[b]);
            }
            assert forall|k: int| 0 <= k < i + 1 implies #[trigger] keys@[k]@ == sorted_entries@[k].0@ by {
                if k < p {
                    assert(keys@[k] == old_keys[k]);
                } else if k > p {
                    assert(keys@[k] == old_keys[k - 1]);
                }
            }
            assert forall|k: int| 0 <= k < i + 1 implies #[trigger] sorted_entries@[k] == input[perm[k]] by {
                if k < p {
                    assert(sorted_entries@[k] == old_entries[k]);
                } else if k > p {
                    assert(sorted_entries@[k] == old_entries[k - 1]);
                } else {
                    assert(input.skip(i as int)[0] == input[i as int]);
                }
            }
            lemma_insert_keeps_permutation(old_perm, p as int, i as int);
        }
        i = i + 1;
    }
    proof {
        let keyv = names_of(sorted_entries@);
        assert forall|a: int, b: int| 0 <= a < b < keyv.len() implies text_le(
            #[trigger] keyv[a],
            #[trigger] keyv[b],
        ) by {
            assert(text_le(keys@[a]@, keys@[b]@));
        }
    }
    (sorted_entries, keys, Ghost(perm))
}

/// Inserting `key` after everything not above it keeps a sorted list sorted.
proof fn lemma_insert_keeps_order(keys: Seq<Seq<char>>, key: Seq<char>, p: int)
    requires
        0 <= p <= keys.len(),
        sorted(keys),
        forall|q: int| 0 <= q < p ==> text_le(#[trigger] keys[q], key),
        forall|q: int| p <= q < keys.len() ==> text_lt(key, #[trigger] keys[q]),
    ensures
        sorted(keys.insert(p, key)),
{
    let nk = keys.insert(p, key);
    assert forall|a: int, b: int| 0 <= a < b < nk.len() implies text_le(#[trigger] nk[a], #[trigger] nk[b]) by {
        if a < p && b > p {
            assert(nk[a] == keys[a]);
            assert(nk[b] == keys[b - 1]);
            lemma_text_le_transitive(keys[a], key, keys[b - 1]);
        } else if a > p {
            assert(nk[a] == keys[a - 1]);
            assert(nk[b] == keys[b - 1]);
        } else if b < p {
            assert(nk[a] == keys[a]);
            assert(nk[b] == keys[b]);
        } else if a == p {
            assert(nk[b] == keys[b - 1]);
        } else {
            assert(nk[a] == keys[a]);
        }
    }
}

/// Inserting the fresh index `i` into a permutation of `0..i` gives one of `0..i + 1`.
proof fn lemma_insert_keeps_permutation(perm: Seq<int>, p: int, i: int)
    requires
        0 <= p <= perm.len(),
        perm.len() == i,
        forall|k: int| 0 <= k < i ==> 0 <= #[trigger] perm[k] < i,
        forall|a: int, b: int| 0 <= a < b < i ==> #[trigger] perm[a] != #[trigger] perm[b],
        forall|j: int| 0 <= j < i ==> #[trigger] lists(perm, j),
    ensures
        ({
            let np = perm.insert(p, i);
            &&& np.len() == i + 1
            &&& forall|k: int| 0 <= k < i + 1 ==> 0 <= #[trigger] np[k] < i + 1
            &&& forall|a: int, b: int| 0 <= a < b < i + 1 ==> #[trigger] np[a] != #[trigger] np[b]
            &&& forall|j: int| 0 <= j < i + 1 ==> #[trigger] lists(np, j)
        }),
{
    let np = perm.insert(p, i);
    assert forall|k: int| 0 <= k < i + 1 implies 0 <= #[trigger] np[k] < i + 1 by {
        if k < p {
            assert(np[k] == perm[k]);
        } else if k > p {
            assert(np[k] == perm[k - 1]);
        }
    }
    assert forall|a: int, b: int| 0 <= a < b < i + 1 implies #[trigger] np[a] != #[trigger] np[b] by {
        if a < p {
            assert(np[a] == perm[a]);
        } else if a > p {
            assert(np[a] == perm[a - 1]);
        }
        if b < p {
            assert(np[b] == perm[b]);
        } else if b > p {
            assert(np[b] == perm[b - 1]);
        }
    }
    assert forall|j: int| 0 <= j < i + 1 implies #[trigger] lists(np, j) by {
        if j == i {
            assert(np[p] == j);
        } else {
            assert(lists(perm, j));
            let k0 = choose|k: int| 0 <= k < perm.len() && #[trigger] perm[k] == j;
            if k0 < p {
                assert(np[k0] == j);
            } else {
                assert(np[k0 + 1] == j);
            }
        }
    }
}

/// The first position whose name repeats its predecessor's, if any.
fn first_repeat(keys: &Vec<Vec<char>>) -> (r: Option<usize>)
    ensures
        match r {
            Some(k) => 1 <= k < keys@.len() && keys@[k - 1]@ == keys@[k as int]@
                && forall|q: int| 1 <= q < k ==> #[trigger] keys@[q - 1]@ != keys@[q]@,
            None => forall|q: int| 1 <= q < keys@.len() ==> #[trigger] keys@[q - 1]@ != keys@[q]@,
        },
{
    let mut k: usize = 1;
    while k < keys.len()
        invariant
            1 <= k,
            forall|q: int| 1 <= q < k && q < keys@.len() ==> #[trigger] keys@[q - 1]@ != keys@[q]@,
        decreases keys@.len() - k,
    {
        if text_equal(&keys[k - 1], &keys[k]) {
            return Some(k);
        }
        k = k + 1;
    }
    None
}

/// Splits `(name, tool)` entries into the names and the tools, in order.
fn unzip_entries<T>(entries: Vec<(String, T)>) -> (r: (Vec<String>, Vec<T>))
    ensures
        r.0@.len() == entries@.len(),
        r.1@.len() == entries@.len(),
        forall|k: int| 0 <= k < entries@.len() ==> #[trigger] r.0@[k] == entries@[k].0 && r.1@[k] == entries@[k].1,
{
    let ghost input = entries@;
    let n: usize = entries.len();
    let mut rest = entries;
    let mut names: Vec<String> = Vec::new();
    let mut tools: Vec<T> = Vec::new();
    let mut i: usize = 0;
    assert(input.skip(0) =~= input);
    while i < n
        invariant
            n == input.len(),
            i <= n,
            rest@ == input.skip(i as int),
            names@.len() == i,
            tools@.len() == i,
            forall|k: int| 0 <= k < i ==> #[trigger] names@[k] == input[k].0 && tools@[k] == input[k].1,
        decreases n - i,
    {
        let (name, tool) = rest.remove(0);
        assert(input.skip(i as int).drop_first() =~= input.skip(i + 1));
        names.push(name);
        tools.push(tool);
        i = i + 1;
    }
    (names, tools)
}

/// An agent's tool set, indexed by name: the entries are sorted by name and
/// the names are unique. `T` is whatever handle the caller keeps per tool.
pub struct ToolRegistry<T> {
    names: Vec<String>,
    tools: Vec<T>,
    keys: Vec<Vec<char>>,
}

impl<T> ToolRegistry<T> {
    #[verifier::type_invariant]
    spec fn well_formed(self) -> bool {
        &&& self.tools@.len() == self.names@.len()
        &&& self.keys@.len() == self.names@.len()
        &&& forall|k: int| 0 <= k < self.keys@.len() ==> #[trigger] self.keys@[k]@ == self.names@[k]@
        &&& strictly_sorted(names_of(self.entries()))
    }

    /// The entries, each tool with its name, sorted by name.
    pub closed spec fn entries(self) -> Seq<(String, T)> {
        Seq::new(self.names@.len(), |k: int| (self.names@[k], self.tools@[k]))
    }

    /// Builds a registry from `(name, tool)` entries, sorting them by name.
    ///
    /// Fails with [`Error::Config`] when two entries share a name; the error
    /// names the least such name.
    pub fn new(entries: Vec<(String, T)>) -> (r: Result<Self, Error>)
        ensures
            r is Ok <==> names_distinct(entries@),
            r matches Ok(reg) ==> rearranges(reg.entries(), entries@),
            r matches Ok(reg) ==> strictly_sorted(names_of(reg.entries())),
            r matches Err(e) ==> exists|d: Seq<char>|
                {
                    &&& is_duplicate_name(entries@, d)
                    &&& (forall|d2: Seq<char>| is_duplicate_name(entries@, d2) ==> text_le(d, d2))
                    &&& e matches Error::Config(m) && m@ == duplicate_message(d)
                    &&& e matches Error::Config(m) && m@ == "duplicate tool name `"@ + d + "`"@
                },
    {
        let ghost input = entries@;
        let (sorted_entries, keys, Ghost(perm)) = sort_by_name(entries);
        let ghost keyv = names_of(sorted_entries@);
        proof {
            assert forall|a: int| 0 <= a < keys@.len() implies #[trigger] keyv[a] == keys@[a]@ by {}
        }
        match first_repeat(&keys) {
            Some(k) => {
                let mut m = String::from_str("duplicate tool name `");
                m.append(sorted_entries[k - 1].0.as_str());
                m.append("`");
                proof {
                    let d = keyv[k - 1];
                    assert(keyv[k as int] == d);
                    lemma_repeat_is_least_duplicate(input, sorted_entries@, perm, k as int);
                }
                Err(Error::Config(m))
            },
            None => {
                proof {
                    lemma_no_repeat_distinct(input, sorted_entries@, perm);
                }
                let ghost held = sorted_entries@;
                let (names, tools) = unzip_entries(sorted_entries);
                proof {
                    let zipped = Seq::new(names@.len(), |k: int| (names@[k], tools@[k]));
                    assert(zipped =~= held);
                    assert forall|k: int| 0 <= k < keys@.len() implies #[trigger] keys@[k]@ == names@[k]@ by {
                        assert(keyv[k] == held[k].0@);
                    }
                }
                let reg = ToolRegistry { names, tools, keys };
                assert(reg.entries() =~= held);
                Ok(reg)
            },
        }
    }

    /// The index of the entry named `name`, if there is one.
    pub fn position(&self, name: &str) -> (r: Option<usize>)
        ensures
            match r {
                Some(i) => i < self.entries().len() && self.entries()[i as int].0@ == name@,
                None => forall|k: int| 0 <= k < self.entries().len() ==> #[trigger] self.entries()[k].0@ != name@,
            },
    {
        proof {
            use_type_invariant(self);
        }
        let key = chars_of(name);
        let mut lo: usize = 0;
        let mut hi: usize = self.keys.len();
        while lo < hi
            invariant
                hi <= self.keys@.len(),
                lo <= hi,
                key@ == name@,
                self.keys@.len() == self.entries().len(),
                forall|k: int| 0 <= k < self.keys@.len() ==> #[trigger] self.keys@[k]@ == self.entries()[k].0@,
                strictly_sorted(names_of(self.entries())),
                forall|q: int| 0 <= q < lo ==> text_lt(#[trigger] self.keys@[q]@, key@),
                forall|q: int| hi <= q < self.keys@.len() ==> text_lt(key@, #[trigger] self.keys@[q]@),
            decreases hi - lo,
        {
            let mid: usize = lo + (hi - lo) / 2;
            let ghost names = names_of(self.entries());
            if text_less(&self.keys[mid], &key) {
                proof {
                    assert forall|q: int| 0 <= q < mid + 1 implies text_lt(#[trigger] self.keys@[q]@, key@) by {
                        if q < mid {
                            assert(text_lt(names[q], names[mid as int]));
                            lemma_text_lt_transitive(self.keys@[q]@, self.keys@[mid as int]@, key@);
                        }
                    }
                }
                lo = mid + 1;
            } else if text_less(&key, &self.keys[mid]) {
                proof {
                    assert forall|q: int| mid <= q < self.keys@.len() implies text_lt(key@, #[trigger] self.keys@[q]@) by {
                        if q > mid {
                            assert(text_lt(names[mid as int], names[q]));
                            lemma_text_lt_transitive(key@, self.keys@[mid as int]@, self.keys@[q]@);
                        }
                    }
                }
                hi = mid;
            } else {
                proof {
                    lemma_text_trichotomy(key@, self.keys@[mid as int]@);
                    assert(self.keys@[mid as int]@ == self.entries()[mid as int].0@);
                }
                return Some(mid);
            }
        }
        proof {
            assert forall|k: int| 0 <= k < self.entries().len() implies #[trigger] self.entries()[k].0@ != name@ by {
                assert(self.keys@[k]@ == self.entries()[k].0@);
                lemma_text_lt_irreflexive(key@);
            }
        }
        None
    }

    /// Looks up a tool by name.
    pub fn get(&self, name: &str) -> (r: Option<&T>)
        ensures
            match r {
                Some(t) => exists|i: int|
                    0 <= i < self.entries().len() && self.entries()[i].0@ == name@ && *t == self.entries()[i].1,
                None => forall|k: int| 0 <= k < self.entries().len() ==> #[trigger] self.entries()[k].0@ != name@,
            },
    {
        proof {
            use_type_invariant(self);
        }
        match self.position(name) {
            Some(i) => Some(&self.tools[i]),
            None => None,
        }
    }

    /// The tool stored at `index` (as found by [`ToolRegistry::position`]),
    /// if the registry has that many.
    pub fn tool(&self, index: usize) -> (r: Option<&T>)
        ensures
            match r {
                Some(t) => index < self.entries().len() && *t == self.entries()[index as int].1,
                None => index >= self.entries().len(),
            },
    {
        proof {
            use_type_invariant(self);
        }
        if index < self.tools.len() {
            Some(&self.tools[index])
        } else {
            None
        }
    }

    /// The tools, sorted by name.
    pub fn as_slice(&self) -> (r: &[T])
        ensures
            r@ == self.entries().map_values(|e: (String, T)| e.1),
    {
        proof {
            use_type_invariant(self);
        }
        let r = self.tools.as_slice();
        assert(r@ =~= self.entries().map_values(|e: (String, T)| e.1));
        r
    }

    /// The tools' names, sorted.
    pub fn names(&self) -> (r: &[String])
        ensures
            r@ == self.entries().map_values(|e: (String, T)| e.0),
    {
        let r = self.names.as_slice();
        assert(r@ =~= self.entries().map_values(|e: (String, T)| e.0));
        r
    }

    /// How many tools the registry holds.
    pub fn len(&self) -> (r: usize)
        ensures
            r == self.entries().len(),
    {
        self.names.len()
    }
}

} // verus!
