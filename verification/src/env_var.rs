use vstd::prelude::*;
use vstd::string::*;

verus! {

/// The separator between the entries of a `Path` value.
pub const PATH_SEPARATOR: char = ';';

/// The entries of a `Path` value: the pieces between separators, empty
/// pieces included, as `str::split` yields them (an empty value has one
/// empty entry).
pub open spec fn path_entries(s: Seq<char>) -> Seq<Seq<char>>
    decreases s.len(),
{
    if s.len() == 0 {
        seq![Seq::<char>::empty()]
    } else {
        let r = path_entries(s.drop_last());
        if s.last() == PATH_SEPARATOR {
            r.push(Seq::<char>::empty())
        } else {
            r.update(r.len() - 1, r.last().push(s.last()))
        }
    }
}

/// `value` with `path` appended as a new last entry: a separator is put in
/// between unless `value` is empty or already ends with one.
pub open spec fn with_entry(value: Seq<char>, path: Seq<char>) -> Seq<char> {
    if value.len() > 0 && value.last() != PATH_SEPARATOR {
        value.push(PATH_SEPARATOR) + path
    } else {
        value + path
    }
}

/// `s` holds no separator.
pub open spec fn free_of_separator(s: Seq<char>) -> bool {
    forall|i: int| 0 <= i < s.len() ==> s[i] != PATH_SEPARATOR
}

/// A value always has at least one entry.
pub proof fn lemma_path_entries_nonempty(s: Seq<char>)
    ensures
        path_entries(s).len() >= 1,
    decreases s.len(),
{
    if s.len() > 0 {
        lemma_path_entries_nonempty(s.drop_last());
    }
}

proof fn lemma_contains_last(s: Seq<Seq<char>>, x: Seq<char>)
    requires
        s.len() >= 1,
    ensures
        s.contains(x) <==> (s.drop_last().contains(x) || s.last() == x),
{
    if s.contains(x) {
        let w = choose|w: int| 0 <= w < s.len() && s[w] == x;
        if w < s.len() - 1 {
            assert(s.drop_last()[w] == x);
        }
    }
    if s.drop_last().contains(x) {
        let w = choose|w: int| 0 <= w < s.drop_last().len() && s.drop_last()[w] == x;
        assert(s[w] == x);
    }
    if s.last() == x {
        assert(s[s.len() - 1] == x);
    }
}

/// Characters without a separator only lengthen the last entry.
proof fn lemma_entries_of_append(a: Seq<char>, b: Seq<char>)
    requires
        free_of_separator(b),
    ensures
        path_entries(a + b) == path_entries(a).update(
            path_entries(a).len() - 1,
            path_entries(a).last() + b,
        ),
    decreases b.len(),
{
    lemma_path_entries_nonempty(a);
    let e = path_entries(a);
    if b.len() == 0 {
        assert(a + b =~= a);
        assert(e.last() + b =~= e.last());
        assert(e.update(e.len() - 1, e.last() + b) =~= e);
    } else {
        let b0 = b.drop_last();
        assert(free_of_separator(b0));
        lemma_entries_of_append(a, b0);
        assert((a + b).drop_last() =~= a + b0);
        assert((a + b).last() == b.last());
        assert(e.last() + b0 + seq![b.last()] =~= e.last() + b);
        assert((e.last() + b0).push(b.last()) =~= e.last() + b);
        assert(path_entries(a + b) =~= e.update(e.len() - 1, e.last() + b));
    }
}

/// The prefix that `with_entry` puts before `path` ends in an empty entry.
proof fn lemma_prefix_ends_empty(value: Seq<char>)
    ensures
        ({
            let a = if value.len() > 0 && value.last() != PATH_SEPARATOR {
                value.push(PATH_SEPARATOR)
            } else {
                value
            };
            &&& path_entries(a).last() == Seq::<char>::empty()
            &&& forall|x: Seq<char>|
                path_entries(value).contains(x) && x.len() > 0 ==> path_entries(a).drop_last().contains(
                    x,
                )
        }),
{
    lemma_path_entries_nonempty(value);
    let e = path_entries(value);
    if value.len() > 0 && value.last() != PATH_SEPARATOR {
        let a = value.push(PATH_SEPARATOR);
        assert(a.drop_last() =~= value);
        assert(path_entries(a) == e.push(Seq::<char>::empty()));
        assert(path_entries(a).drop_last() =~= e);
    } else if value.len() > 0 {
        assert forall|x: Seq<char>|
            path_entries(value).contains(x) && x.len() > 0 implies path_entries(
            value,
        ).drop_last().contains(x) by {
            lemma_contains_last(e, x);
        }
    } else {
        assert forall|x: Seq<char>|
            path_entries(value).contains(x) && x.len() > 0 implies path_entries(
            value,
        ).drop_last().contains(x) by {
            let w = choose|w: int| 0 <= w < e.len() && e[w] == x;
            assert(e[w] == Seq::<char>::empty());
        }
    }
}

/// Adding a separator-free entry makes it an entry of the new value, so a
/// second call with the same entry changes nothing; every non-empty entry
/// of the old value stays an entry.
pub proof fn lemma_added_entry_is_found(value: Seq<char>, path: Seq<char>)
    requires
        free_of_separator(path),
    ensures
        path_entries(with_entry(value, path)).contains(path),
        forall|x: Seq<char>|
            path_entries(value).contains(x) && x.len() > 0 ==> path_entries(
                with_entry(value, path),
            ).contains(x),
{
    let a = if value.len() > 0 && value.last() != PATH_SEPARATOR {
        value.push(PATH_SEPARATOR)
    } else {
        value
    };
    assert(with_entry(value, path) == a + path);
    lemma_prefix_ends_empty(value);
    lemma_entries_of_append(a, path);
    lemma_path_entries_nonempty(a);
    let e = path_entries(a);
    let n = path_entries(a + path);
    assert(Seq::<char>::empty() + path =~= path);
    assert(n.last() == path);
    lemma_contains_last(n, path);
    assert(n.drop_last() =~= e.drop_last());
    assert forall|x: Seq<char>|
        path_entries(value).contains(x) && x.len() > 0 implies n.contains(x) by {
        lemma_contains_last(n, x);
    }
}

/// The entries joined back together, with a separator between each two.
pub open spec fn join_entries(e: Seq<Seq<char>>) -> Seq<char>
    decreases e.len(),
{
    if e.len() <= 1 {
        if e.len() == 0 {
            Seq::<char>::empty()
        } else {
            e[0]
        }
    } else {
        join_entries(e.drop_last()).push(PATH_SEPARATOR) + e.last()
    }
}

/// Lengthening the last entry lengthens the joined value by the same
/// characters.
proof fn lemma_join_extend_last(e: Seq<Seq<char>>, c: char)
    requires
        e.len() >= 1,
    ensures
        join_entries(e.update(e.len() - 1, e.last().push(c))) == join_entries(e).push(c),
{
    let u = e.update(e.len() - 1, e.last().push(c));
    if e.len() == 1 {
        assert(u[0] == e[0].push(c));
    } else {
        assert(u.drop_last() =~= e.drop_last());
        assert(u.last() == e.last().push(c));
        assert(join_entries(e.drop_last()).push(PATH_SEPARATOR) + e.last().push(c) =~= (
        join_entries(e.drop_last()).push(PATH_SEPARATOR) + e.last()).push(c));
    }
}

/// The entries of a value hold no separator, and joining them with
/// separators gives the value back: they are exactly the pieces between
/// its separators.
pub proof fn lemma_entries_rejoin(s: Seq<char>)
    ensures
        join_entries(path_entries(s)) == s,
        forall|j: int|
            0 <= j < path_entries(s).len() ==> free_of_separator(#[trigger] path_entries(s)[j]),
    decreases s.len(),
{
    lemma_path_entries_nonempty(s);
    if s.len() == 0 {
        assert(join_entries(path_entries(s)) =~= s);
    } else {
        let p = s.drop_last();
        let c = s.last();
        lemma_entries_rejoin(p);
        lemma_path_entries_nonempty(p);
        let e = path_entries(p);
        assert(p.push(c) =~= s);
        if c == PATH_SEPARATOR {
            let n = e.push(Seq::<char>::empty());
            assert(n.drop_last() =~= e);
            assert(join_entries(n) =~= join_entries(e).push(PATH_SEPARATOR) + Seq::<char>::empty());
            assert(join_entries(n) =~= s);
            assert forall|j: int| 0 <= j < n.len() implies free_of_separator(#[trigger] n[j]) by {
                if j < e.len() {
                    assert(n[j] == e[j]);
                }
            }
        } else {
            let n = e.update(e.len() - 1, e.last().push(c));
            lemma_join_extend_last(e, c);
            assert forall|j: int| 0 <= j < n.len() implies free_of_separator(#[trigger] n[j]) by {
                if j < e.len() - 1 {
                    assert(n[j] == e[j]);
                } else {
                    assert(free_of_separator(e[e.len() - 1]));
                    assert forall|q: int| 0 <= q < n[j].len() implies n[j][q] != PATH_SEPARATOR by {
                        if q < e.last().len() {
                            assert(n[j][q] == e.last()[q]);
                        }
                    }
                }
            }
        }
    }
}

/// The last entry of a value is empty exactly when the value is empty or
/// ends with a separator.
pub proof fn lemma_last_entry_empty(s: Seq<char>)
    ensures
        (path_entries(s).last() == Seq::<char>::empty()) <==> (s.len() == 0 || s.last()
            == PATH_SEPARATOR),
{
    if s.len() > 0 && s.last() != PATH_SEPARATOR {
        lemma_path_entries_nonempty(s.drop_last());
        let e = path_entries(s.drop_last());
        assert(path_entries(s).last() == e.last().push(s.last()));
        assert(path_entries(s).last().len() > 0);
    }
}

/// The entries of the value with an added separator-free entry are the old
/// entries, less an empty last one, followed by the new entry: no empty
/// entry is made, and none but a trailing one is lost.
pub proof fn lemma_with_entry_entries(value: Seq<char>, path: Seq<char>)
    requires
        free_of_separator(path),
    ensures
        path_entries(with_entry(value, path)) == (if path_entries(value).last()
            == Seq::<char>::empty() {
            path_entries(value).drop_last()
        } else {
            path_entries(value)
        }).push(path),
{
    let a = if value.len() > 0 && value.last() != PATH_SEPARATOR {
        value.push(PATH_SEPARATOR)
    } else {
        value
    };
    assert(with_entry(value, path) == a + path);
    lemma_prefix_ends_empty(value);
    lemma_entries_of_append(a, path);
    lemma_path_entries_nonempty(a);
    lemma_last_entry_empty(value);
    let e = path_entries(a);
    assert(Seq::<char>::empty() + path =~= path);
    assert(path_entries(a + path) =~= e.drop_last().push(path));
    if value.len() > 0 && value.last() != PATH_SEPARATOR {
        assert(a.drop_last() =~= value);
        assert(e == path_entries(value).push(Seq::<char>::empty()));
        assert(e.drop_last() =~= path_entries(value));
    }
}

/// The characters of `s`.
fn chars_of(s: &str) -> (v: Vec<char>)
    ensures
        v@ == s@,
{
    let mut v: Vec<char> = Vec::new();
    for c in it: s.chars()
        invariant
            v@ == it.seq().take(it.index()),
    {
        v.push(c);
    }
    proof {
        broadcast use vstd::string::axiom_spec_iter;

    }
    assert(v@ =~= s@);
    v
}

/// Whether `v[start..end]` is `p`.
fn piece_equals(v: &Vec<char>, start: usize, end: usize, p: &Vec<char>) -> (b: bool)
    requires
        start <= end <= v@.len(),
    ensures
        b == (v@.subrange(start as int, end as int) == p@),
{
    if end - start != p.len() {
        return false;
    }
    let mut j: usize = 0;
    while j < p.len()
        invariant
            j <= p@.len(),
            end - start == p@.len(),
            start <= end <= v@.len(),
            forall|k: int| 0 <= k < j ==> v@[start + k] == p@[k],
        decreases p@.len() - j,
    {
        if v[start + j] != p[j] {
            assert(v@.subrange(start as int, end as int)[j as int] != p@[j as int]);
            return false;
        }
        j += 1;
    }
    assert(v@.subrange(start as int, end as int) =~= p@);
    true
}

/// Whether `path` is one of the entries of `value`.
pub fn has_path_entry(value: &str, path: &str) -> (found: bool)
    ensures
        found == path_entries(value@).contains(path@),
{
    let v = chars_of(value);
    let p = chars_of(path);
    let mut found = false;
    let mut start: usize = 0;
    let mut i: usize = 0;
    assert(v@.take(0) =~= Seq::<char>::empty());
    assert(v@.subrange(0, 0) =~= Seq::<char>::empty());
    while i < v.len()
        invariant
            i <= v@.len(),
            start <= i,
            path_entries(v@.take(i as int)).len() >= 1,
            path_entries(v@.take(i as int)).last() == v@.subrange(start as int, i as int),
            found == path_entries(v@.take(i as int)).drop_last().contains(p@),
        decreases v@.len() - i,
    {
        let ghost prev = path_entries(v@.take(i as int));
        let ghost t = v@.take(i + 1);
        assert(t.drop_last() =~= v@.take(i as int));
        assert(t.last() == v@[i as int]);
        if v[i] == PATH_SEPARATOR {
            if piece_equals(&v, start, i, &p) {
                found = true;
            }
            proof {
                lemma_contains_last(prev, p@);
                assert(path_entries(t) == prev.push(Seq::<char>::empty()));
                assert(path_entries(t).drop_last() =~= prev);
                assert(v@.subrange(i + 1, i + 1) =~= Seq::<char>::empty());
            }
            start = i + 1;
        } else {
            proof {
                let u = path_entries(t);
                assert(u == prev.update(prev.len() - 1, prev.last().push(v@[i as int])));
                assert(u.drop_last() =~= prev.drop_last());
                assert(v@.subrange(start as int, i + 1) =~= v@.subrange(start as int, i as int).push(
                    v@[i as int],
                ));
            }
        }
        i += 1;
    }
    let last_matches = piece_equals(&v, start, v.len(), &p);
    proof {
        assert(v@.take(v@.len() as int) =~= v@);
        lemma_contains_last(path_entries(v@), p@);
    }
    found || last_matches
}

/// The `Path` value with `path` added as a new last entry, or `None` when
/// `path` is already one of its entries.
pub fn path_with_entry(value: &str, path: &str) -> (r: Option<String>)
    ensures
        match r {
            Some(updated) => !path_entries(value@).contains(path@) && updated@ == with_entry(
                value@,
                path@,
            ),
            None => path_entries(value@).contains(path@),
        },
{
    if has_path_entry(value, path) {
        return None;
    }
    let mut updated = value.to_owned();
    let v = chars_of(value);
    if v.len() > 0 && v[v.len() - 1] != PATH_SEPARATOR {
        let sep = ";";
        proof {
            reveal_strlit(";");
        }
        updated.append(sep);
        assert(updated@ =~= value@.push(PATH_SEPARATOR));
    }
    updated.append(path);
    Some(updated)
}

} // verus!
