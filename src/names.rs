use vstd::prelude::*;

verus! {

/// The lower-case form of a string: the identity under which names compare.
pub uninterp spec fn lower_of(s: Seq<char>) -> Seq<char>;

/// Whether two names denote the same identity, ignoring letter case.
pub open spec fn same_name(a: Seq<char>, b: Seq<char>) -> bool {
    lower_of(a) == lower_of(b)
}

/// Relies on str::to_lowercase: the result depends on the characters alone.
#[verifier::external_body]
pub(crate) fn lowercase(s: &String) -> (r: String)
    ensures
        r@ == lower_of(s@),
{
    s.to_lowercase()
}

/// A player known to the list: an identifier and a name.
#[derive(Debug)]
pub struct Player {
    pub id: i32,
    pub name: String,
}

/// Whether some player of `players` is named `name`, ignoring case.
pub open spec fn has_player(players: Seq<Player>, name: Seq<char>) -> bool {
    exists|i: int| 0 <= i < players.len() && same_name(#[trigger] players[i].name@, name)
}

/// Whether no key before index `i` equals the key at `i`.
pub open spec fn first_of_key(keys: Seq<String>, i: int) -> bool {
    forall|j: int| 0 <= j < i ==> (#[trigger] keys[j])@ != keys[i]@
}

/// The index of the first of `keys` equal to `key`.
pub fn find_by_key(keys: &Vec<String>, key: &String) -> (r: Option<usize>)
    ensures
        r is None <==> forall|j: int| 0 <= j < keys@.len() ==> (#[trigger] keys@[j])@ != key@,
        r matches Some(i) ==> i < keys@.len() && keys@[i as int]@ == key@ && first_of_key(
            keys@,
            i as int,
        ),
{
    let mut i: usize = 0;
    while i < keys.len()
        invariant
            0 <= i <= keys@.len(),
            forall|j: int| 0 <= j < i ==> (#[trigger] keys@[j])@ != key@,
        decreases keys@.len() - i,
    {
        if keys[i] == *key {
            return Some(i);
        }
        i += 1;
    }
    None
}

/// The lower-case forms of `names`, one for one.
pub(crate) fn keys_of(names: &Vec<String>) -> (r: Vec<String>)
    ensures
        r@.len() == names@.len(),
        forall|i: int| 0 <= i < names@.len() ==> (#[trigger] r@[i])@ == lower_of(names@[i]@),
{
    let mut out: Vec<String> = Vec::new();
    let mut i: usize = 0;
    while i < names.len()
        invariant
            0 <= i <= names@.len(),
            out@.len() == i,
            forall|k: int| 0 <= k < i ==> (#[trigger] out@[k])@ == lower_of(names@[k]@),
        decreases names@.len() - i,
    {
        out.push(lowercase(&names[i]));
        i += 1;
    }
    out
}

/// Looks up, ignoring case, the identifier of the player called `name`.
pub fn find_player(players: &Vec<Player>, name: &String) -> (r: Option<i32>)
    ensures
        r.is_none() <==> !has_player(players@, name@),
        r matches Some(id) ==> exists|i: int|
            0 <= i < players@.len() && same_name(#[trigger] players@[i].name@, name@)
                && players@[i].id == id,
{
    let mut names: Vec<String> = Vec::new();
    let mut i: usize = 0;
    while i < players.len()
        invariant
            0 <= i <= players@.len(),
            names@.len() == i,
            forall|k: int| 0 <= k < i ==> (#[trigger] names@[k]) == players@[k].name,
        decreases players@.len() - i,
    {
        names.push(players[i].name.clone());
        i += 1;
    }
    let keys = keys_of(&names);
    match find_by_key(&keys, &lowercase(name)) {
        Some(k) => {
            assert(same_name(players@[k as int].name@, name@));
            Some(players[k].id)
        },
        None => {
            assert forall|j: int| 0 <= j < players@.len() implies !same_name(
                #[trigger] players@[j].name@,
                name@,
            ) by {
                assert(keys@[j]@ != lower_of(name@));
            }
            None
        },
    }
}

/// Whether the names of `s` are pairwise distinct, ignoring case.
pub open spec fn distinct_names(s: Seq<String>) -> bool {
    forall|i: int, j: int|
        0 <= i < s.len() && 0 <= j < s.len() && i != j ==> !same_name(
            #[trigger] s[i]@,
            #[trigger] s[j]@,
        )
}

/// Whether `s` holds a name equal to `name` ignoring case.
pub open spec fn holds_name(s: Seq<String>, name: Seq<char>) -> bool {
    exists|i: int| 0 <= i < s.len() && same_name(#[trigger] s[i]@, name)
}

/// Whether every name of `r` is, letter for letter, one of `names`.
pub open spec fn drawn_from(r: Seq<String>, names: Seq<String>) -> bool {
    forall|i: int|
        #![trigger r[i]]
        0 <= i < r.len() ==> exists|j: int| #![trigger names[j]] 0 <= j < names.len() && r[i]@ == names[j]@
}

/// Whether `r` lists, in increasing order, exactly the indices at which a
/// key occurs for the first time.
pub open spec fn first_occurrences(r: Seq<usize>, keys: Seq<String>) -> bool {
    &&& forall|a: int| 0 <= a < r.len() ==> (#[trigger] r[a]) < keys.len() && first_of_key(keys, r[a] as int)
    &&& forall|a: int, b: int| 0 <= a < b < r.len() ==> (#[trigger] r[a]) < (#[trigger] r[b])
    &&& forall|i: int| 0 <= i < keys.len() && first_of_key(keys, i) ==> exists|a: int| 0 <= a < r.len() && (#[trigger] r[a]) == i
}

/// The indices at which a key of `keys` occurs for the first time.
pub fn dedup_by_keys(keys: &Vec<String>) -> (r: Vec<usize>)
    ensures
        first_occurrences(r@, keys@),
{
    let mut out: Vec<usize> = Vec::new();
    let mut i: usize = 0;
    while i < keys.len()
        invariant
            0 <= i <= keys@.len(),
            forall|a: int| 0 <= a < out@.len() ==> (#[trigger] out@[a]) < i && first_of_key(keys@, out@[a] as int),
            forall|a: int, b: int| 0 <= a < b < out@.len() ==> (#[trigger] out@[a]) < (#[trigger] out@[b]),
            forall|k: int| 0 <= k < i && first_of_key(keys@, k) ==> exists|a: int| 0 <= a < out@.len() && (#[trigger] out@[a]) == k,
        decreases keys@.len() - i,
    {
        let ghost before = out@;
        match find_by_key(keys, &keys[i]) {
            Some(f) => {
                if f == i {
                    out.push(i);
                    assert(out@[before.len() as int] == i);
                    assert forall|k: int| 0 <= k < i + 1 && first_of_key(keys@, k) implies exists|a: int| 0 <= a < out@.len() && (#[trigger] out@[a]) == k by {
                        if k < i {
                            let a = choose|a: int| 0 <= a < before.len() && before[a] == k;
                            assert(out@[a] == before[a]);
                        } else {
                            assert(out@[before.len() as int] == k);
                        }
                    }
                } else {
                    assert(!first_of_key(keys@, i as int)) by {
                        if f < i {
                            assert(keys@[f as int]@ == keys@[i as int]@);
                        } else {
                            assert(first_of_key(keys@, f as int));
                            assert(keys@[i as int]@ == keys@[f as int]@);
                        }
                    }
                }
            },
            None => {
                assert(keys@[i as int]@ != keys@[i as int]@);
            },
        }
        i += 1;
    }
    out
}

/// Some index `i <= j` holds the first occurrence of the key at `j`.
proof fn lemma_first_occurrence(keys: Seq<String>, j: int)
    requires
        0 <= j < keys.len(),
    ensures
        exists|i: int| 0 <= i <= j && first_of_key(keys, i) && (#[trigger] keys[i])@ == keys[j]@,
    decreases j,
{
    if !first_of_key(keys, j) {
        let k = choose|k: int| 0 <= k < j && (#[trigger] keys[k])@ == keys[j]@;
        lemma_first_occurrence(keys, k);
        let i = choose|i: int| 0 <= i <= k && first_of_key(keys, i) && (#[trigger] keys[i])@ == keys[k]@;
        assert(0 <= i <= j && first_of_key(keys, i) && keys[i]@ == keys[j]@);
    } else {
        assert(first_of_key(keys, j) && keys[j]@ == keys[j]@);
    }
}

/// Collapses names that differ only by letter case to the first of them,
/// keeping the order in which they first occur.
pub fn dedup_names(names: &Vec<String>) -> (r: Vec<String>)
    ensures
        distinct_names(r@),
        drawn_from(r@, names@),
        forall|j: int| 0 <= j < names@.len() ==> holds_name(r@, (#[trigger] names@[j])@),
{
    let keys = keys_of(names);
    let firsts = dedup_by_keys(&keys);
    let mut out: Vec<String> = Vec::new();
    let mut a: usize = 0;
    while a < firsts.len()
        invariant
            0 <= a <= firsts@.len(),
            keys@.len() == names@.len(),
            forall|i: int| 0 <= i < names@.len() ==> (#[trigger] keys@[i])@ == lower_of(names@[i]@),
            first_occurrences(firsts@, keys@),
            out@.len() == a,
            forall|b: int| 0 <= b < a ==> (#[trigger] out@[b]) == names@[firsts@[b] as int],
            drawn_from(out@, names@),
        decreases firsts@.len() - a,
    {
        let ghost before = out@;
        let ghost j = firsts@[a as int] as int;
        out.push(names[firsts[a]].clone());
        assert forall|x: int| 0 <= x < out@.len() implies exists|k: int|
            0 <= k < names@.len() && (#[trigger] out@[x])@ == names@[k]@ by {
            if x < before.len() {
                assert(out@[x] == before[x]);
            } else {
                assert(out@[x] == names@[j]);
            }
        }
        a += 1;
    }
    assert forall|x: int, y: int|
        0 <= x < out@.len() && 0 <= y < out@.len() && x != y implies !same_name(
        #[trigger] out@[x]@,
        #[trigger] out@[y]@,
    ) by {
        let (lo, hi) = if x < y { (x, y) } else { (y, x) };
        assert(firsts@[lo] < firsts@[hi]);
        assert(first_of_key(keys@, firsts@[hi] as int));
        assert(keys@[firsts@[lo] as int]@ != keys@[firsts@[hi] as int]@);
    }
    assert forall|j: int| 0 <= j < names@.len() implies holds_name(out@, (#[trigger] names@[j])@) by {
        lemma_first_occurrence(keys@, j);
        let i = choose|i: int| 0 <= i <= j && first_of_key(keys@, i) && (#[trigger] keys@[i])@ == keys@[j]@;
        let a = choose|a: int| 0 <= a < firsts@.len() && (#[trigger] firsts@[a]) == i;
        assert(out@[a] == names@[i]);
        assert(same_name(out@[a]@, names@[j]@));
    }
    out
}

} // verus!
