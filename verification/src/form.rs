//! The form value store: a durable map from input id to the entered value,
//! shared across a whole workflow session and untouched by history
//! truncation.
//!
//! The store is read at text level: [`fv_view`] projects the entries to
//! their character sequences, and [`vlookup`] / [`vstore`] are the
//! mathematical reading and writing of that projection.

use vstd::prelude::*;
use crate::strutil::str_eq;

verus! {

/// The entries of the store, read at text level.
pub open spec fn fv_view(s: Seq<(String, String)>) -> Seq<(Seq<char>, Seq<char>)> {
    s.map(|i: int, p: (String, String)| (p.0@, p.1@))
}

/// First value bound to key `k` at or after position `i`, if any.
pub open spec fn vlookup_from(m: Seq<(Seq<char>, Seq<char>)>, k: Seq<char>, i: int) -> Option<
    Seq<char>,
>
    decreases m.len() - i,
{
    if i < 0 || i >= m.len() {
        None
    } else if m[i].0 == k {
        Some(m[i].1)
    } else {
        vlookup_from(m, k, i + 1)
    }
}

/// The value bound to key `k`, if any.
pub open spec fn vlookup(m: Seq<(Seq<char>, Seq<char>)>, k: Seq<char>) -> Option<Seq<char>> {
    vlookup_from(m, k, 0)
}

/// The store after binding `k` to `v`: the first entry for `k` is
/// overwritten, or a new entry is appended when none exists.
pub open spec fn vstore(m: Seq<(Seq<char>, Seq<char>)>, k: Seq<char>, v: Seq<char>) -> Seq<
    (Seq<char>, Seq<char>),
>
    decreases m.len(),
{
    if m.len() == 0 {
        seq![(k, v)]
    } else if m[0].0 == k {
        seq![(k, v)] + m.drop_first()
    } else {
        seq![m[0]] + vstore(m.drop_first(), k, v)
    }
}

/// Writing binds exactly the written key: reading it back gives the new
/// value, and every other key reads as before.
pub proof fn lemma_vstore_vlookup(
    m: Seq<(Seq<char>, Seq<char>)>,
    k: Seq<char>,
    v: Seq<char>,
    q: Seq<char>,
)
    ensures
        vlookup(vstore(m, k, v), q) == if q == k {
            Some(v)
        } else {
            vlookup(m, q)
        },
    decreases m.len(),
{
    let s = vstore(m, k, v);
    if m.len() == 0 {
        assert(s == seq![(k, v)]);
        assert(s[0].0 == k);
        if q != k {
            assert(vlookup_from(s, q, 1) is None);
        }
    } else if m[0].0 == k {
        assert(s == seq![(k, v)] + m.drop_first());
        assert(s[0] == (k, v));
        if q != k {
            assert(s.drop_first() =~= m.drop_first());
            lemma_vlookup_from_shift(s, s.drop_first(), q);
            lemma_vlookup_from_shift(m, m.drop_first(), q);
        }
    } else {
        let rest = vstore(m.drop_first(), k, v);
        assert(s == seq![m[0]] + rest);
        assert(s[0] == m[0]);
        lemma_vstore_vlookup(m.drop_first(), k, v, q);
        if q == m[0].0 {
            assert(vlookup(s, q) == Some(s[0].1));
            assert(vlookup(m, q) == Some(m[0].1));
        } else {
            assert(s.drop_first() =~= rest);
            lemma_vlookup_from_shift(s, s.drop_first(), q);
            lemma_vlookup_from_shift(m, m.drop_first(), q);
        }
    }
}

/// Looking past an unequal head entry reads the tail.
proof fn lemma_vlookup_from_shift(
    m: Seq<(Seq<char>, Seq<char>)>,
    t: Seq<(Seq<char>, Seq<char>)>,
    q: Seq<char>,
)
    requires
        m.len() >= 1,
        t == m.drop_first(),
        m[0].0 != q,
    ensures
        vlookup(m, q) == vlookup(t, q),
    decreases m.len(),
{
    lemma_vlookup_from_offset(m, t, q, 0);
}

/// `vlookup_from` on the tail mirrors `vlookup_from` shifted by one.
proof fn lemma_vlookup_from_offset(
    m: Seq<(Seq<char>, Seq<char>)>,
    t: Seq<(Seq<char>, Seq<char>)>,
    q: Seq<char>,
    i: int,
)
    requires
        m.len() >= 1,
        t == m.drop_first(),
        m[0].0 != q,
        0 <= i <= t.len(),
    ensures
        vlookup_from(m, q, i + 1) == vlookup_from(t, q, i),
    decreases t.len() - i,
{
    if i < t.len() {
        assert(m[i + 1] == t[i]);
        lemma_vlookup_from_offset(m, t, q, i + 1);
    }
}

/// Writing a key that sits at position `i`, with no earlier entry for it,
/// overwrites exactly that entry.
pub proof fn lemma_vstore_found(
    m: Seq<(Seq<char>, Seq<char>)>,
    k: Seq<char>,
    v: Seq<char>,
    i: int,
)
    requires
        0 <= i < m.len(),
        m[i].0 == k,
        forall|j: int| 0 <= j < i ==> m[j].0 != k,
    ensures
        vstore(m, k, v) == m.update(i, (k, v)),
    decreases m.len(),
{
    if i == 0 {
        assert(vstore(m, k, v) =~= m.update(0, (k, v)));
    } else {
        let t = m.drop_first();
        assert(forall|j: int| 0 <= j < i - 1 ==> t[j] == m[j + 1] && #[trigger] t[j].0 != k);
        assert(t[i - 1] == m[i]);
        lemma_vstore_found(t, k, v, i - 1);
        assert(vstore(m, k, v) =~= m.update(i, (k, v))) by {
            assert(vstore(m, k, v) == seq![m[0]] + t.update(i - 1, (k, v)));
        }
    }
}

/// Writing a key no entry holds appends a new entry.
pub proof fn lemma_vstore_fresh(m: Seq<(Seq<char>, Seq<char>)>, k: Seq<char>, v: Seq<char>)
    requires
        forall|j: int| 0 <= j < m.len() ==> m[j].0 != k,
    ensures
        vstore(m, k, v) == m.push((k, v)),
    decreases m.len(),
{
    if m.len() == 0 {
        assert(vstore(m, k, v) =~= m.push((k, v)));
    } else {
        let t = m.drop_first();
        assert(forall|j: int| 0 <= j < t.len() ==> t[j] == m[j + 1] && #[trigger] t[j].0 != k);
        lemma_vstore_fresh(t, k, v);
        assert(vstore(m, k, v) =~= m.push((k, v)));
    }
}

/// Writing back the value a key already reads leaves the store unchanged.
pub proof fn lemma_vstore_same(m: Seq<(Seq<char>, Seq<char>)>, k: Seq<char>, v: Seq<char>)
    requires
        vlookup(m, k) == Some(v),
    ensures
        vstore(m, k, v) == m,
    decreases m.len(),
{
    if m.len() > 0 {
        if m[0].0 == k {
            assert(vlookup(m, k) == Some(m[0].1));
            assert(m[0] == (k, v));
            assert(vstore(m, k, v) =~= m);
        } else {
            let t = m.drop_first();
            lemma_vlookup_from_shift(m, t, k);
            lemma_vstore_same(t, k, v);
            assert(vstore(m, k, v) =~= m);
        }
    }
}

/// Reads the value stored for id `k`, if any.
pub fn form_get<'a>(form: &'a Vec<(String, String)>, k: &str) -> (r: Option<&'a String>)
    ensures
        match r {
            Some(v) => vlookup(fv_view(form@), k@) == Some(v@),
            None => vlookup(fv_view(form@), k@) is None,
        },
{
    let ghost m = fv_view(form@);
    let n = form.len();
    let mut i: usize = 0;
    while i < n
        invariant
            n == form@.len(),
            i <= n,
            m == fv_view(form@),
            vlookup(m, k@) == vlookup_from(m, k@, i as int),
        decreases n - i,
    {
        proof {
            assert(m[i as int] == (form@[i as int].0@, form@[i as int].1@));
        }
        if str_eq(form[i].0.as_str(), k) {
            return Some(&form[i].1);
        }
        i += 1;
    }
    None
}

/// Stores `v` for id `k`, overwriting an existing entry or appending one.
pub fn form_set(form: &mut Vec<(String, String)>, k: &str, v: &str)
    ensures
        fv_view(final(form)@) == vstore(fv_view(old(form)@), k@, v@),
{
    let ghost m = fv_view(form@);
    let n = form.len();
    let mut i: usize = 0;
    while i < n
        invariant
            n == form@.len(),
            i <= n,
            form == old(form),
            m == fv_view(form@),
            forall|j: int| 0 <= j < i ==> m[j].0 != k@,
        decreases n - i,
    {
        proof {
            assert(m[i as int] == (form@[i as int].0@, form@[i as int].1@));
        }
        if str_eq(form[i].0.as_str(), k) {
            form[i].1 = v.to_owned();
            proof {
                lemma_vstore_found(m, k@, v@, i as int);
                assert(fv_view(form@) =~= m.update(i as int, (k@, v@)));
            }
            return ;
        }
        i += 1;
    }
    form.push((k.to_owned(), v.to_owned()));
    proof {
        lemma_vstore_fresh(m, k@, v@);
        assert(fv_view(form@) =~= m.push((k@, v@)));
    }
}

} // verus!
