use crate::py2cpp::text::{lemma_push_to_set, lex_lt, lemma_lex_irreflexive, lemma_lex_total, lemma_lex_transitive, str_lt, str_eq};
use crate::py2cpp::types::{Library, libraries_view};
use vstd::prelude::*;
use vstd::string::*;

verus! {

/// Names in strictly increasing order: sorted, with no name twice.
pub open spec fn sorted_unique(names: Seq<Seq<char>>) -> bool {
    forall|i: int, j: int| 0 <= i < j < names.len() ==> lex_lt(#[trigger] names[i], #[trigger] names[j])
}

impl Library {
    /// One library for each name, in the order given.
    pub fn get_libraries(names: &[&str]) -> (r: Vec<Library>)
        ensures
            libraries_view(r@) == names@.map_values(|s: &str| s@),
    {
        let mut libraries: Vec<Library> = Vec::new();
        let mut i: usize = 0;
        while i < names.len()
            invariant
                i <= names@.len(),
                libraries_view(libraries@) =~= names@.take(i as int).map_values(|s: &str| s@),
            decreases names@.len() - i,
        {
            let name = String::from_str(names[i]);
            proof {
                assert(names@.take(i + 1) =~= names@.take(i as int).push(names@[i as int]));
                assert(libraries_view(libraries@.push(Library { name })) =~= libraries_view(libraries@).push(name@));
            }
            libraries.push(Library { name });
            i = i + 1;
        }
        assert(names@.take(names@.len() as int) =~= names@);
        libraries
    }
}

/// Puts `library` into its place in `libraries`, unless a library of that
/// name is there already.
fn insert_sorted(libraries: &mut Vec<Library>, library: Library)
    requires
        sorted_unique(libraries_view(old(libraries)@)),
    ensures
        sorted_unique(libraries_view(final(libraries)@)),
        libraries_view(final(libraries)@).to_set() == libraries_view(old(libraries)@).to_set().insert(
            library@,
        ),
{
    let ghost before = libraries_view(libraries@);
    let n = libraries.len();
    let mut j: usize = 0;
    while j < n && str_lt(libraries[j].name.as_str(), library.name.as_str())
        invariant
            n == libraries@.len(),
            before == libraries_view(libraries@),
            j <= n,
            forall|k: int| 0 <= k < j ==> lex_lt(#[trigger] before[k], library@),
        decreases n - j,
    {
        j = j + 1;
    }
    if j < n && str_eq(libraries[j].name.as_str(), library.name.as_str()) {
        proof {
            assert(before.to_set().insert(library@) =~= before.to_set()) by {
                assert(before[j as int] == library@);
                assert(before.to_set().contains(before[j as int]));
            }
        }
        return ;
    }
    let ghost name = library@;
    libraries.insert(j, library);
    proof {
        let after = libraries_view(libraries@);
        assert(after =~= before.insert(j as int, name));
        if j < n {
            lemma_lex_total(before[j as int], name);
        }
        assert forall|a: int, b: int| 0 <= a < b < after.len() implies lex_lt(
            #[trigger] after[a],
            #[trigger] after[b],
        ) by {
            if b < j {
            } else if b == j {
            } else if a < j {
                // after[a] < name < before[j] <= after[b]
                if b - 1 > j {
                    lemma_lex_transitive(name, before[j as int], before[b - 1]);
                }
                lemma_lex_transitive(after[a], name, after[b]);
            } else if a == j {
                if b - 1 > j {
                    lemma_lex_transitive(name, before[j as int], before[b - 1]);
                }
            } else {
            }
        }
        assert(after.to_set() =~= before.to_set().insert(name)) by {
            assert forall|x: Seq<char>| after.to_set().contains(x) implies before.to_set().insert(
                name,
            ).contains(x) by {
                let k = choose|k: int| 0 <= k < after.len() && after[k] == x;
                if k < j {
                    assert(before[k] == x);
                } else if k > j {
                    assert(before[k - 1] == x);
                }
            }
            assert forall|x: Seq<char>| before.to_set().insert(name).contains(x) implies after.to_set().contains(
                x,
            ) by {
                if x == name {
                    assert(after[j as int] == x);
                } else {
                    let k = choose|k: int| 0 <= k < before.len() && before[k] == x;
                    if k < j {
                        assert(after[k] == x);
                    } else {
                        assert(after[k + 1] == x);
                    }
                }
            }
        }
    }
}

/// The libraries ordered by name, each name once: `sort` followed by `dedup`.
pub fn sort_unique(libraries: &Vec<Library>) -> (r: Vec<Library>)
    ensures
        sorted_unique(libraries_view(r@)),
        libraries_view(r@).to_set() == libraries_view(libraries@).to_set(),
{
    let ghost all = libraries_view(libraries@);
    let mut result: Vec<Library> = Vec::new();
    let mut i: usize = 0;
    proof {
        assert(libraries_view(result@).to_set() =~= all.take(0).to_set());
    }
    while i < libraries.len()
        invariant
            all == libraries_view(libraries@),
            i <= libraries@.len(),
            sorted_unique(libraries_view(result@)),
            libraries_view(result@).to_set() == all.take(i as int).to_set(),
        decreases libraries@.len() - i,
    {
        let library = Library { name: libraries[i].name.clone() };
        insert_sorted(&mut result, library);
        proof {
            assert(all.take(i + 1) =~= all.take(i as int).push(all[i as int]));
            lemma_push_to_set(all.take(i as int), all[i as int]);
        }
        i = i + 1;
    }
    proof {
        assert(all.take(libraries@.len() as int) =~= all);
    }
    result
}

/// The names of `names` ordered, each once.
pub open spec fn sorted_set(names: Seq<Seq<char>>) -> Seq<Seq<char>> {
    choose|s: Seq<Seq<char>>| sorted_unique(s) && s.to_set() == names.to_set()
}

proof fn lemma_sorted_prefix(a: Seq<Seq<char>>, b: Seq<Seq<char>>, n: nat)
    requires
        sorted_unique(a),
        sorted_unique(b),
        a.to_set() == b.to_set(),
        n <= a.len(),
        n <= b.len(),
    ensures
        forall|i: int| 0 <= i < n ==> #[trigger] a[i] == b[i],
    decreases n,
{
    if n > 0 {
        lemma_sorted_prefix(a, b, (n - 1) as nat);
        let i = n - 1;
        if a[i] != b[i] {
            assert(b.to_set().contains(a[i]));
            let j = choose|j: int| 0 <= j < b.len() && b[j] == a[i];
            assert(a.to_set().contains(b[i]));
            let j2 = choose|j2: int| 0 <= j2 < a.len() && a[j2] == b[i];
            lemma_lex_irreflexive(a[i]);
            lemma_lex_irreflexive(b[i]);
            if j < i {
                assert(a[j] == b[j]);
                assert(lex_lt(a[j], a[i]));
            } else if j2 < i {
                assert(a[j2] == b[j2]);
                assert(lex_lt(b[j2], b[i]));
            } else {
                assert(lex_lt(b[i], b[j]));
                assert(lex_lt(a[i], a[j2]));
                lemma_lex_transitive(b[i], a[i], b[i]);
            }
        }
    }
}

/// Two orderings of names without repetition that hold the same names are
/// the same: the order that `sort_unique` gives is determined by the names
/// alone.
pub proof fn lemma_sorted_unique_determined(a: Seq<Seq<char>>, b: Seq<Seq<char>>)
    requires
        sorted_unique(a),
        sorted_unique(b),
        a.to_set() == b.to_set(),
    ensures
        a == b,
{
    let n = if a.len() <= b.len() { a.len() } else { b.len() };
    lemma_sorted_prefix(a, b, n);
    if a.len() < b.len() {
        let x = b[a.len() as int];
        assert(a.to_set().contains(x));
        let j = choose|j: int| 0 <= j < a.len() && a[j] == x;
        assert(a[j] == b[j]);
        assert(lex_lt(b[j], b[a.len() as int]));
        lemma_lex_irreflexive(x);
    } else if b.len() < a.len() {
        let x = a[b.len() as int];
        assert(b.to_set().contains(x));
        let j = choose|j: int| 0 <= j < b.len() && b[j] == x;
        assert(a[j] == b[j]);
        assert(lex_lt(a[j], a[b.len() as int]));
        lemma_lex_irreflexive(x);
    }
    assert(a =~= b);
}

/// What `sort_unique` gives is the sorted set of the names.
pub proof fn lemma_sorted_set(names: Seq<Seq<char>>, r: Seq<Seq<char>>)
    requires
        sorted_unique(r),
        r.to_set() == names.to_set(),
    ensures
        r == sorted_set(names),
{
    let s = sorted_set(names);
    assert(sorted_unique(s) && s.to_set() == names.to_set());
    lemma_sorted_unique_determined(r, s);
}

} // verus!
