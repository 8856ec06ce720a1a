//! Lookup by name in vectors of (name, value) pairs, shared by the
//! declaration model, the dependency graph and the plan builder.

use vstd::prelude::*;

verus! {

/// First index in `s` holding a pair whose name reads `name`, or -1.
pub open spec fn find_key_at<T>(s: Seq<(String, T)>, name: Seq<char>) -> int
    decreases s.len(),
{
    if s.len() == 0 {
        -1
    } else if s[0].0@ == name {
        0
    } else {
        let rest = find_key_at(s.drop_first(), name);
        if rest == -1 {
            -1
        } else {
            rest + 1
        }
    }
}

/// True when no two entries of `s` share a name.
pub open spec fn keys_unique<T>(s: Seq<(String, T)>) -> bool {
    forall|i: int, j: int| 0 <= i < j < s.len() ==> s[i].0@ != s[j].0@
}

/// If names before `at` differ from `name` and entry `at` carries `name`,
/// then `at` is the first index found for `name`.
pub proof fn lemma_find_key_at_found<T>(s: Seq<(String, T)>, name: Seq<char>, at: int)
    requires
        0 <= at < s.len(),
        s[at].0@ == name,
        forall|k: int| 0 <= k < at ==> s[k].0@ != name,
    ensures
        find_key_at(s, name) == at,
    decreases s.len(),
{
    if at > 0 {
        lemma_find_key_at_found(s.drop_first(), name, at - 1);
    }
}

/// If no entry of `s` carries `name`, the search reports -1.
pub proof fn lemma_find_key_at_absent<T>(s: Seq<(String, T)>, name: Seq<char>)
    requires
        forall|k: int| 0 <= k < s.len() ==> s[k].0@ != name,
    ensures
        find_key_at(s, name) == -1,
    decreases s.len(),
{
    if s.len() > 0 {
        lemma_find_key_at_absent(s.drop_first(), name);
    }
}

/// A found index carries the name and is the first to do so.
pub proof fn lemma_find_key_at_spec<T>(s: Seq<(String, T)>, name: Seq<char>)
    ensures
        find_key_at(s, name) == -1 ==> forall|k: int| 0 <= k < s.len() ==> s[k].0@ != name,
        find_key_at(s, name) != -1 ==> {
            let at = find_key_at(s, name);
            &&& 0 <= at < s.len()
            &&& s[at].0@ == name
            &&& forall|k: int| 0 <= k < at ==> s[k].0@ != name
        },
    decreases s.len(),
{
    if s.len() > 0 {
        lemma_find_key_at_spec(s.drop_first(), name);
        if s[0].0@ != name {
            let rest = find_key_at(s.drop_first(), name);
            if rest == -1 {
                assert forall|k: int| 0 <= k < s.len() implies s[k].0@ != name by {
                    if k > 0 {
                        assert(s[k] == s.drop_first()[k - 1]);
                    }
                }
            } else {
                assert(s[rest + 1] == s.drop_first()[rest]);
                assert forall|k: int| 0 <= k < rest + 1 implies s[k].0@ != name by {
                    if k > 0 {
                        assert(s[k] == s.drop_first()[k - 1]);
                    }
                }
            }
        }
    }
}

/// Finds the first entry named `name`, reporting its index.
pub fn find_key<T>(v: &Vec<(String, T)>, name: &String) -> (r: Option<usize>)
    ensures
        match r {
            Some(i) => i == find_key_at(v@, name@) && i < v@.len() && v@[i as int].0@ == name@,
            None => find_key_at(v@, name@) == -1,
        },
{
    let n = v.len();
    let mut i: usize = 0;
    while i < n
        invariant
            n == v@.len(),
            0 <= i <= n,
            forall|k: int| 0 <= k < i ==> v@[k].0@ != name@,
        decreases n - i,
    {
        if v[i].0 == *name {
            proof {
                lemma_find_key_at_found(v@, name@, i as int);
            }
            return Some(i);
        }
        i = i + 1;
    }
    proof {
        lemma_find_key_at_absent(v@, name@);
    }
    None
}

/// Strict lexicographic order on character sequences, by code point: the
/// order a name-keyed map iterates in.
pub open spec fn seq_char_lt(a: Seq<char>, b: Seq<char>) -> bool
    decreases a.len(),
{
    if b.len() == 0 {
        false
    } else if a.len() == 0 {
        true
    } else if a[0] != b[0] {
        (a[0] as u32) < (b[0] as u32)
    } else {
        seq_char_lt(a.drop_first(), b.drop_first())
    }
}

/// Distinct characters have distinct code points.
proof fn lemma_char_ne_u32(c1: char, c2: char)
    requires
        c1 != c2,
    ensures
        c1 as u32 != c2 as u32,
{
}

/// Nothing is lexicographically below itself.
pub proof fn lemma_seq_char_lt_irrefl(a: Seq<char>)
    ensures
        !seq_char_lt(a, a),
    decreases a.len(),
{
    if a.len() > 0 {
        lemma_seq_char_lt_irrefl(a.drop_first());
    }
}

/// Distinct sequences are ordered one way or the other.
pub proof fn lemma_seq_char_lt_total(a: Seq<char>, b: Seq<char>)
    requires
        a != b,
    ensures
        seq_char_lt(a, b) || seq_char_lt(b, a),
    decreases a.len(),
{
    if a.len() == 0 && b.len() == 0 {
        assert(a =~= b);
        assert(false);
    } else if a.len() == 0 {
        assert(seq_char_lt(a, b));
    } else if b.len() == 0 {
        assert(seq_char_lt(b, a));
    } else if a[0] == b[0] {
        assert(a.drop_first() != b.drop_first()) by {
            if a.drop_first() == b.drop_first() {
                assert(a.drop_first().len() == a.len() - 1);
                assert(b.drop_first().len() == b.len() - 1);
                assert forall|k: int| 0 <= k < a.len() implies a[k] == b[k] by {
                    if k > 0 {
                        assert(a[k] == a.drop_first()[k - 1]);
                        assert(b[k] == b.drop_first()[k - 1]);
                    }
                }
                assert(a =~= b);
            }
        }
        lemma_seq_char_lt_total(a.drop_first(), b.drop_first());
    } else {
        lemma_char_ne_u32(a[0], b[0]);
        if (a[0] as u32) < (b[0] as u32) {
            assert(seq_char_lt(a, b));
        } else {
            assert(seq_char_lt(b, a));
        }
    }
}

/// The lexicographic order is transitive.
pub proof fn lemma_seq_char_lt_trans(a: Seq<char>, b: Seq<char>, c: Seq<char>)
    requires
        seq_char_lt(a, b),
        seq_char_lt(b, c),
    ensures
        seq_char_lt(a, c),
    decreases a.len() + b.len() + c.len(),
{
    if a.len() > 0 && b.len() > 0 && c.len() > 0 && a[0] == b[0] && b[0] == c[0] {
        lemma_seq_char_lt_trans(a.drop_first(), b.drop_first(), c.drop_first());
    }
}

/// Decides the lexicographic order of two names.
pub fn str_lt(a: &String, b: &String) -> (r: bool)
    ensures
        r == seq_char_lt(a@, b@),
{
    let an = a.as_str().unicode_len();
    let bn = b.as_str().unicode_len();
    let mut i: usize = 0;
    proof {
        assert(a@.skip(0) =~= a@);
        assert(b@.skip(0) =~= b@);
    }
    while i < an && i < bn
        invariant
            an == a@.len(),
            bn == b@.len(),
            0 <= i <= an,
            i <= bn,
            seq_char_lt(a@, b@) == seq_char_lt(a@.skip(i as int), b@.skip(i as int)),
        decreases an - i,
    {
        let ca = a.as_str().get_char(i);
        let cb = b.as_str().get_char(i);
        if ca as u32 != cb as u32 {
            proof {
                assert(a@.skip(i as int)[0] == ca);
                assert(b@.skip(i as int)[0] == cb);
                assert(ca != cb);
            }
            return (ca as u32) < (cb as u32);
        }
        proof {
            assert(a@.skip(i as int)[0] == ca);
            assert(b@.skip(i as int)[0] == cb);
            assert(a@.skip(i as int).drop_first() =~= a@.skip(i + 1));
            assert(b@.skip(i as int).drop_first() =~= b@.skip(i + 1));
        }
        i = i + 1;
    }
    proof {
        assert(i == an || i == bn);
    }
    if an < bn {
        proof {
            assert(a@.skip(i as int).len() == 0);
            assert(b@.skip(i as int).len() > 0);
        }
        true
    } else {
        proof {
            assert(b@.skip(i as int).len() == 0);
        }
        false
    }
}

/// The entries stand in strictly increasing name order; such a sequence
/// has unique names.
pub open spec fn keys_sorted<T>(s: Seq<(String, T)>) -> bool {
    forall|i: int, j: int|
        0 <= i < j < s.len() ==> seq_char_lt((#[trigger] s[i]).0@, (#[trigger] s[j]).0@)
}

/// Strictly increasing names are unique.
pub proof fn lemma_keys_sorted_unique<T>(s: Seq<(String, T)>)
    requires
        keys_sorted(s),
    ensures
        keys_unique(s),
{
    assert forall|i: int, j: int| 0 <= i < j < s.len() implies s[i].0@ != s[j].0@ by {
        if s[i].0@ == s[j].0@ {
            lemma_seq_char_lt_irrefl(s[i].0@);
        }
    }
}

/// Where a new name belongs in a name-sorted sequence: after every
/// strictly smaller name.
pub open spec fn sorted_insert_pos<T>(s: Seq<(String, T)>, name: Seq<char>) -> int
    decreases s.len(),
{
    if s.len() == 0 {
        0
    } else if seq_char_lt(s[0].0@, name) {
        1 + sorted_insert_pos(s.drop_first(), name)
    } else {
        0
    }
}

/// The insertion position splits the sequence into strictly smaller names
/// before it and not-smaller names from it on.
pub proof fn lemma_sorted_insert_pos_spec<T>(s: Seq<(String, T)>, name: Seq<char>)
    requires
        keys_sorted(s),
    ensures
        0 <= sorted_insert_pos(s, name) <= s.len(),
        forall|k: int|
            0 <= k < sorted_insert_pos(s, name) ==> seq_char_lt((#[trigger] s[k]).0@, name),
        forall|k: int|
            sorted_insert_pos(s, name) <= k < s.len() ==> !seq_char_lt((#[trigger] s[k]).0@, name),
    decreases s.len(),
{
    if s.len() > 0 {
        assert(keys_sorted(s.drop_first())) by {
            assert forall|i: int, j: int|
                0 <= i < j < s.drop_first().len() implies seq_char_lt(
                (#[trigger] s.drop_first()[i]).0@,
                (#[trigger] s.drop_first()[j]).0@,
            ) by {
                assert(s.drop_first()[i] == s[i + 1]);
                assert(s.drop_first()[j] == s[j + 1]);
            }
        }
        lemma_sorted_insert_pos_spec(s.drop_first(), name);
        assert(forall|k: int| 0 <= k < s.len() - 1 ==> #[trigger] s.drop_first()[k] == s[k + 1]);
        if seq_char_lt(s[0].0@, name) {
            let pos = 1 + sorted_insert_pos(s.drop_first(), name);
            assert forall|k: int| 0 <= k < pos implies seq_char_lt(
                (#[trigger] s[k]).0@,
                name,
            ) by {
                if k > 0 {
                    assert(s[k] == s.drop_first()[k - 1]);
                }
            }
            assert forall|k: int| pos <= k < s.len() implies !seq_char_lt(
                (#[trigger] s[k]).0@,
                name,
            ) by {
                assert(s[k] == s.drop_first()[k - 1]);
            }
        } else {
            assert forall|k: int| 0 <= k < s.len() implies !seq_char_lt(
                (#[trigger] s[k]).0@,
                name,
            ) by {
                if k > 0 {
                    assert(seq_char_lt(s[0].0@, s[k].0@));
                    if seq_char_lt(s[k].0@, name) {
                        lemma_seq_char_lt_trans(s[0].0@, s[k].0@, name);
                    }
                }
            }
        }
    }
}

/// Inserts `value` under `name` into a name-sorted sequence, replacing in
/// place any entry of that name, else placing it before the first larger
/// name. The sequence stays sorted.
pub fn sorted_insert<T>(v: &mut Vec<(String, T)>, name: String, value: T)
    requires
        keys_sorted(old(v)@),
    ensures
        keys_sorted(final(v)@),
        ({
            let at = find_key_at(old(v)@, name@);
            if at == -1 {
                final(v)@ == old(v)@.insert(sorted_insert_pos(old(v)@, name@), (name, value))
            } else {
                final(v)@ == old(v)@.update(at, (name, value))
            }
        }),
{
    let ghost orig = v@;
    let n = v.len();
    let mut i: usize = 0;
    while i < n
        invariant
            n == orig.len(),
            orig == old(v)@,
            keys_sorted(orig),
            v@ == orig,
            0 <= i <= n,
            forall|k: int| 0 <= k < i ==> seq_char_lt((#[trigger] orig[k]).0@, name@),
        decreases n - i,
    {
        if !str_lt(&v[i].0, &name) {
            if v[i].0 == name {
                proof {
                    assert forall|k: int| 0 <= k < i implies (#[trigger] orig[k]).0@ != name@ by {
                        lemma_seq_char_lt_irrefl(name@);
                    }
                    lemma_find_key_at_found(orig, name@, i as int);
                }
                let ghost at: int = i as int;
                v.set(i, (name, value));
                proof {
                    assert(v@ == orig.update(at, (name, value)));
                    assert forall|p: int, q: int|
                        0 <= p < q < v@.len() implies seq_char_lt(
                        (#[trigger] v@[p]).0@,
                        (#[trigger] v@[q]).0@,
                    ) by {
                        if p != at && q != at {
                            assert(v@[p] == orig[p]);
                            assert(v@[q] == orig[q]);
                        } else if p == at {
                            assert(v@[p].0@ == orig[at].0@);
                            assert(v@[q] == orig[q]);
                        } else {
                            assert(v@[q].0@ == orig[at].0@);
                            assert(v@[p] == orig[p]);
                        }
                    }
                }
                return ;
            }
            proof {
                lemma_seq_char_lt_total(orig[i as int].0@, name@);
                assert(seq_char_lt(name@, orig[i as int].0@));
                assert forall|k: int| 0 <= k < orig.len() implies (#[trigger] orig[k]).0@
                    != name@ by {
                    if k < i {
                        lemma_seq_char_lt_irrefl(name@);
                    } else if k == i {
                    } else {
                        if orig[k].0@ == name@ {
                            assert(seq_char_lt(orig[i as int].0@, orig[k].0@));
                            lemma_seq_char_lt_trans(name@, orig[i as int].0@, orig[k].0@);
                            lemma_seq_char_lt_irrefl(name@);
                        }
                    }
                }
                lemma_find_key_at_absent(orig, name@);
                assert(sorted_insert_pos(orig, name@) == i as int) by {
                    lemma_sorted_insert_pos_spec(orig, name@);
                    let pos = sorted_insert_pos(orig, name@);
                    if pos < i {
                        assert(seq_char_lt(orig[pos].0@, name@));
                        assert(!seq_char_lt(orig[pos].0@, name@));
                    }
                    if pos > i {
                        assert(seq_char_lt(orig[i as int].0@, name@));
                    }
                }
            }
            v.insert(i, (name, value));
            proof {
                assert forall|p: int, q: int|
                    0 <= p < q < v@.len() implies seq_char_lt(
                    (#[trigger] v@[p]).0@,
                    (#[trigger] v@[q]).0@,
                ) by {
                    let iv: int = i as int;
                    if q < iv {
                        assert(v@[p] == orig[p]);
                        assert(v@[q] == orig[q]);
                    } else if q == iv {
                        assert(v@[p] == orig[p]);
                        assert(v@[q].0@ == name@);
                    } else {
                        assert(v@[q] == orig[q - 1]);
                        if p < iv {
                            assert(v@[p] == orig[p]);
                            if q - 1 == iv - 1 && p <= q - 1 && p < iv {
                            }
                            if p <= q - 1 {
                                if p < q - 1 {
                                    assert(seq_char_lt(orig[p].0@, orig[q - 1].0@));
                                } else {
                                    assert(p == q - 1);
                                    assert(seq_char_lt(orig[p].0@, name@));
                                    assert(seq_char_lt(name@, orig[q - 1].0@));
                                    lemma_seq_char_lt_trans(orig[p].0@, name@, orig[q - 1].0@);
                                }
                            }
                        } else if p == iv {
                            assert(v@[p].0@ == name@);
                            assert(!seq_char_lt(orig[q - 1].0@, name@)) by {
                                lemma_sorted_insert_pos_spec(orig, name@);
                            }
                            assert(orig[q - 1].0@ != name@);
                            lemma_seq_char_lt_total(name@, orig[q - 1].0@);
                        } else {
                            assert(v@[p] == orig[p - 1]);
                        }
                    }
                }
            }
            return ;
        }
        i = i + 1;
    }
    proof {
        assert forall|k: int| 0 <= k < orig.len() implies (#[trigger] orig[k]).0@ != name@ by {
            lemma_seq_char_lt_irrefl(name@);
        }
        lemma_find_key_at_absent(orig, name@);
        assert(sorted_insert_pos(orig, name@) == orig.len()) by {
            lemma_sorted_insert_pos_spec(orig, name@);
            let pos = sorted_insert_pos(orig, name@);
            if pos < orig.len() {
                assert(seq_char_lt(orig[pos].0@, name@));
            }
        }
    }
    let ghost endpos = orig.len() as int;
    v.push((name, value));
    proof {
        assert(v@ =~= orig.insert(endpos, (name, value)));
        assert forall|p: int, q: int|
            0 <= p < q < v@.len() implies seq_char_lt(
            (#[trigger] v@[p]).0@,
            (#[trigger] v@[q]).0@,
        ) by {
            if q < endpos {
                assert(v@[p] == orig[p]);
                assert(v@[q] == orig[q]);
            } else {
                assert(v@[p] == orig[p]);
                assert(v@[q].0@ == name@);
            }
        }
    }
}

} // verus!
