//! Association lists of text keys and text values whose keys are unique:
//! the shape of every name-to-value mapping of an environment.
use vstd::prelude::*;

verus! {

/// The view of a list of string pairs.
pub open spec fn pairs_view(s: Seq<(String, String)>) -> Seq<(Seq<char>, Seq<char>)> {
    s.map_values(|p: (String, String)| (p.0@, p.1@))
}

/// No key occurs twice.
pub open spec fn unique_keys(m: Seq<(Seq<char>, Seq<char>)>) -> bool {
    forall|i: int, j: int|
        0 <= i < m.len() && 0 <= j < m.len() && #[trigger] m[i].0 == #[trigger] m[j].0 ==> i == j
}

pub open spec fn has_key(m: Seq<(Seq<char>, Seq<char>)>, k: Seq<char>) -> bool {
    exists|i: int| 0 <= i < m.len() && #[trigger] m[i].0 == k
}

/// The pair `(k, v)` is in the list.
pub open spec fn has_entry(m: Seq<(Seq<char>, Seq<char>)>, k: Seq<char>, v: Seq<char>) -> bool {
    exists|i: int| 0 <= i < m.len() && #[trigger] m[i] == (k, v)
}

/// The value of `k` set to `v`: in place where `k` is present, at the end
/// where it is not.
pub open spec fn upsert_spec(m: Seq<(Seq<char>, Seq<char>)>, k: Seq<char>, v: Seq<char>) -> Seq<
    (Seq<char>, Seq<char>),
> {
    if has_key(m, k) {
        let i = choose|i: int| 0 <= i < m.len() && #[trigger] m[i].0 == k;
        m.update(i, (k, v))
    } else {
        m.push((k, v))
    }
}

/// Each entry of `entries` set in turn, later ones winning.
pub open spec fn upsert_all(
    m: Seq<(Seq<char>, Seq<char>)>,
    entries: Seq<(Seq<char>, Seq<char>)>,
) -> Seq<(Seq<char>, Seq<char>)>
    decreases entries.len(),
{
    if entries.len() == 0 {
        m
    } else {
        let prev = upsert_all(m, entries.drop_last());
        upsert_spec(prev, entries.last().0, entries.last().1)
    }
}

pub proof fn lemma_upsert_facts(m: Seq<(Seq<char>, Seq<char>)>, k: Seq<char>, v: Seq<char>)
    requires
        unique_keys(m),
    ensures
        unique_keys(upsert_spec(m, k, v)),
        has_entry(upsert_spec(m, k, v), k, v),
        forall|k2: Seq<char>, v2: Seq<char>|
            k2 != k && has_entry(m, k2, v2) ==> has_entry(#[trigger] upsert_spec(m, k, v), k2, v2),
        forall|k2: Seq<char>|
            #[trigger] has_key(upsert_spec(m, k, v), k2) <==> (has_key(m, k2) || k2 == k),
{
    let r = upsert_spec(m, k, v);
    if has_key(m, k) {
        let i = choose|i: int| 0 <= i < m.len() && #[trigger] m[i].0 == k;
        assert(r[i] == (k, v));
        assert forall|k2: Seq<char>, v2: Seq<char>|
            k2 != k && has_entry(m, k2, v2) implies has_entry(r, k2, v2) by {
            let j = choose|j: int| 0 <= j < m.len() && #[trigger] m[j] == (k2, v2);
            assert(r[j] == (k2, v2));
        }
        assert forall|k2: Seq<char>| (has_key(m, k2) || k2 == k) implies #[trigger] has_key(r, k2) by {
            if k2 == k {
                assert(r[i].0 == k2);
            } else if has_key(m, k2) {
                let j = choose|j: int| 0 <= j < m.len() && #[trigger] m[j].0 == k2;
                assert(r[j].0 == k2);
            }
        }
        assert forall|k2: Seq<char>| #[trigger] has_key(r, k2) implies (has_key(m, k2) || k2 == k) by {
            let j = choose|j: int| 0 <= j < r.len() && #[trigger] r[j].0 == k2;
            if j != i {
                assert(m[j].0 == k2);
            }
        }
    } else {
        assert(r[m.len() as int] == (k, v));
        assert forall|k2: Seq<char>, v2: Seq<char>|
            k2 != k && has_entry(m, k2, v2) implies has_entry(r, k2, v2) by {
            let j = choose|j: int| 0 <= j < m.len() && #[trigger] m[j] == (k2, v2);
            assert(r[j] == (k2, v2));
        }
        assert forall|k2: Seq<char>| (has_key(m, k2) || k2 == k) implies #[trigger] has_key(r, k2) by {
            if k2 == k {
                assert(r[m.len() as int].0 == k2);
            } else if has_key(m, k2) {
                let j = choose|j: int| 0 <= j < m.len() && #[trigger] m[j].0 == k2;
                assert(r[j].0 == k2);
            }
        }
        assert forall|k2: Seq<char>| #[trigger] has_key(r, k2) implies (has_key(m, k2) || k2 == k) by {
            let j = choose|j: int| 0 <= j < r.len() && #[trigger] r[j].0 == k2;
            if j < m.len() {
                assert(m[j].0 == k2);
            }
        }
    }
}

pub proof fn lemma_upsert_all_identity(m: Seq<(Seq<char>, Seq<char>)>)
    requires
        unique_keys(m),
    ensures
        upsert_all(seq![], m) == m,
    decreases m.len(),
{
    if m.len() > 0 {
        let p = m.drop_last();
        let last = m.last();
        assert(unique_keys(p)) by {
            assert forall|i: int, j: int|
                0 <= i < p.len() && 0 <= j < p.len() && #[trigger] p[i].0 == #[trigger] p[j].0 implies i == j by {
                assert(m[i].0 == m[j].0);
            }
        }
        lemma_upsert_all_identity(p);
        assert(!has_key(p, last.0)) by {
            if has_key(p, last.0) {
                let j = choose|j: int| 0 <= j < p.len() && #[trigger] p[j].0 == last.0;
                assert(m[j].0 == m[m.len() - 1].0);
            }
        }
        assert(p.push(last) =~= m);
    }
}

/// Whether two texts are equal.
pub fn text_eq(a: &str, b: &str) -> (r: bool)
    ensures
        r == (a@ == b@),
{
    let n = a.unicode_len();
    if n != b.unicode_len() {
        return false;
    }
    let mut i: usize = 0;
    while i < n
        invariant
            n == a@.len() == b@.len(),
            i <= n,
            a@.subrange(0, i as int) == b@.subrange(0, i as int),
        decreases n - i,
    {
        if a.get_char(i) != b.get_char(i) {
            return false;
        }
        proof {
            assert(a@.subrange(0, i + 1) =~= a@.subrange(0, i as int).push(a@[i as int]));
            assert(b@.subrange(0, i + 1) =~= b@.subrange(0, i as int).push(b@[i as int]));
        }
        i = i + 1;
    }
    proof {
        assert(a@ =~= a@.subrange(0, n as int));
        assert(b@ =~= b@.subrange(0, n as int));
    }
    true
}

/// Sets the value of `k` to `v`, in place where `k` is present and at the
/// end where it is not.
pub fn upsert(m: &mut Vec<(String, String)>, k: String, v: String)
    requires
        unique_keys(pairs_view(old(m)@)),
    ensures
        pairs_view(final(m)@) == upsert_spec(pairs_view(old(m)@), k@, v@),
        unique_keys(pairs_view(final(m)@)),
{
    let ghost before = pairs_view(m@);
    proof {
        lemma_upsert_facts(before, k@, v@);
    }
    let mut i: usize = 0;
    while i < m.len()
        invariant
            m@ == old(m)@,
            before == pairs_view(m@),
            unique_keys(before),
            i <= m@.len(),
            forall|j: int| 0 <= j < i ==> before[j].0 != k@,
        decreases m@.len() - i,
    {
        if text_eq(m[i].0.as_str(), k.as_str()) {
            proof {
                assert(before[i as int].0 == k@);
                let c = choose|c: int| 0 <= c < before.len() && #[trigger] before[c].0 == k@;
                assert(c == i);
            }
            m.set(i, (k, v));
            proof {
                assert(pairs_view(m@) =~= before.update(i as int, (k@, v@)));
            }
            return;
        }
        i = i + 1;
    }
    proof {
        assert(!has_key(before, k@));
    }
    m.push((k, v));
    proof {
        assert(pairs_view(m@) =~= before.push((k@, v@)));
    }
}

} // verus!
