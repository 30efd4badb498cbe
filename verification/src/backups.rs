//! Choosing which hourly backups to delete: of the files in the backup
//! directory named `db_*.json`, all but the `MAX_BACKUPS` greatest names.
use vstd::prelude::*;
use crate::persistence::MAX_BACKUPS;

verus! {

/// `a` sorts before `b` character by character, by code point, a proper
/// prefix first: the order of file names as bytes of UTF-8.
pub open spec fn lex_less(a: Seq<char>, b: Seq<char>) -> bool
    decreases a.len(),
{
    if a.len() == 0 {
        b.len() > 0
    } else if b.len() == 0 {
        false
    } else if a[0] != b[0] {
        (a[0] as u32) < (b[0] as u32)
    } else {
        lex_less(a.drop_first(), b.drop_first())
    }
}

/// No name sorts before itself.
pub proof fn lemma_lex_irreflexive(a: Seq<char>)
    ensures
        !lex_less(a, a),
    decreases a.len(),
{
    if a.len() > 0 {
        lemma_lex_irreflexive(a.drop_first());
    }
}

/// Of two different names, one sorts before the other, and not both ways.
pub proof fn lemma_lex_total(a: Seq<char>, b: Seq<char>)
    ensures
        a != b ==> (lex_less(a, b) || lex_less(b, a)),
        !(lex_less(a, b) && lex_less(b, a)),
    decreases a.len(),
{
    if a.len() > 0 && b.len() > 0 {
        lemma_lex_total(a.drop_first(), b.drop_first());
        if a[0] != b[0] {
            vstd::utf8::char_u32_cast(a[0], a[0] as u32);
            vstd::utf8::char_u32_cast(b[0], b[0] as u32);
        }
        if a[0] == b[0] && a != b {
            assert(a.drop_first() != b.drop_first()) by {
                if a.drop_first() == b.drop_first() {
                    assert(a =~= seq![a[0]] + a.drop_first());
                    assert(b =~= seq![b[0]] + b.drop_first());
                }
            }
        }
    } else if a.len() == 0 && b.len() == 0 {
        assert(a =~= b);
    }
}

/// The order of names is transitive.
pub proof fn lemma_lex_transitive(a: Seq<char>, b: Seq<char>, c: Seq<char>)
    requires
        lex_less(a, b),
        lex_less(b, c),
    ensures
        lex_less(a, c),
    decreases a.len(),
{
    if a.len() > 0 && b.len() > 0 && c.len() > 0 && a[0] == b[0] && b[0] == c[0] {
        lemma_lex_transitive(a.drop_first(), b.drop_first(), c.drop_first());
    }
}

/// Whether `a` sorts before `b`.
pub fn lex_less_chars(a: &Vec<char>, b: &Vec<char>) -> (r: bool)
    ensures
        r == lex_less(a@, b@),
{
    let la = a.len();
    let lb = b.len();
    let mut i: usize = 0;
    assert(a@.skip(0) =~= a@);
    assert(b@.skip(0) =~= b@);
    while i < la && i < lb
        invariant
            la == a@.len(),
            lb == b@.len(),
            i <= la,
            i <= lb,
            lex_less(a@, b@) == lex_less(a@.skip(i as int), b@.skip(i as int)),
        decreases la - i,
    {
        if a[i] != b[i] {
            assert(a@.skip(i as int)[0] == a@[i as int]);
            assert(b@.skip(i as int)[0] == b@[i as int]);
            return (a[i] as u32) < (b[i] as u32);
        }
        assert(a@.skip(i as int).drop_first() =~= a@.skip(i as int + 1));
        assert(b@.skip(i as int).drop_first() =~= b@.skip(i as int + 1));
        i = i + 1;
    }
    i < lb
}

/// Whether a file name is that of a backup: it starts with `db_` and ends
/// with `.json`.
pub open spec fn is_backup_name(s: Seq<char>) -> bool {
    &&& s.len() >= 3
    &&& s.take(3) == "db_"@
    &&& s.len() >= 5
    &&& s.skip(s.len() - 5) == ".json"@
}

/// Whether `v` holds `p` starting at position `at`.
fn holds_at(v: &Vec<char>, at: usize, p: &str) -> (r: bool)
    requires
        at + p@.len() <= v@.len(),
    ensures
        r == (v@.subrange(at as int, at + p@.len()) == p@),
{
    let pc = crate::text::chars_of(p);
    let n = pc.len();
    let vl = v.len();
    for i in 0..n
        invariant
            n == p@.len(),
            vl == v@.len(),
            pc@ == p@,
            at + n <= v@.len(),
            forall|j: int| 0 <= j < i ==> v@[at + j] == p@[j],
    {
        if v[at + i] != pc[i] {
            assert(v@.subrange(at as int, at + n)[i as int] != p@[i as int]);
            return false;
        }
    }
    assert(v@.subrange(at as int, at + n) =~= p@);
    true
}

/// Whether a file name is that of a backup.
pub fn backup_file(name: &Vec<char>) -> (r: bool)
    ensures
        r == is_backup_name(name@),
{
    proof {
        reveal_strlit("db_");
        reveal_strlit(".json");
    }
    let n = name.len();
    if n < 5 {
        return false;
    }
    let head = holds_at(name, 0, "db_");
    let tail = holds_at(name, n - 5, ".json");
    assert(name@.subrange(0, 3) =~= name@.take(3));
    assert(name@.subrange(n - 5, n as int) =~= name@.skip(n - 5));
    head && tail
}

/// Entry `a` of `names` comes before entry `b`: its name sorts first, or the
/// names are equal and `a` stands first.
pub open spec fn name_before(names: Seq<Seq<char>>, a: int, b: int) -> bool {
    lex_less(names[a], names[b]) || (names[a] == names[b] && a < b)
}

/// The order of entries is a strict total order.
pub proof fn lemma_name_before(names: Seq<Seq<char>>, a: int, b: int, c: int)
    ensures
        !name_before(names, a, a),
        a != b ==> (name_before(names, a, b) || name_before(names, b, a)),
        !(name_before(names, a, b) && name_before(names, b, a)),
        name_before(names, a, b) && name_before(names, b, c) ==> name_before(names, a, c),
{
    lemma_lex_irreflexive(names[a]);
    lemma_lex_total(names[a], names[b]);
    if lex_less(names[a], names[b]) && lex_less(names[b], names[c]) {
        lemma_lex_transitive(names[a], names[b], names[c]);
    }
}

/// Whether entry `a` comes before entry `b`.
fn entry_before(rows: &Vec<Vec<char>>, a: usize, b: usize) -> (r: bool)
    requires
        a < rows@.len(),
        b < rows@.len(),
    ensures
        r == name_before(crate::text::char_rows(rows@), a as int, b as int),
{
    let ghost rv = crate::text::char_rows(rows@);
    proof {
        lemma_lex_total(rv[a as int], rv[b as int]);
        lemma_lex_irreflexive(rv[a as int]);
    }
    if lex_less_chars(&rows[a], &rows[b]) {
        true
    } else if lex_less_chars(&rows[b], &rows[a]) {
        false
    } else {
        a < b
    }
}

/// The number of backup names among the first `n` names.
pub open spec fn backup_count(names: Seq<Seq<char>>, n: int) -> nat
    decreases n,
{
    if n <= 0 {
        0
    } else if is_backup_name(names[n - 1]) {
        backup_count(names, n - 1) + 1
    } else {
        backup_count(names, n - 1)
    }
}

/// How many backups to delete out of `count`: those beyond `MAX_BACKUPS`.
pub open spec fn prune_count(count: nat) -> nat {
    if count > MAX_BACKUPS {
        (count - MAX_BACKUPS) as nat
    } else {
        0
    }
}

/// The views of a list of strings.
pub open spec fn name_views(names: Seq<String>) -> Seq<Seq<char>> {
    names.map_values(|s: String| s@)
}

/// The positions in `names` of the backups to delete: every file named
/// `db_*.json` but the `MAX_BACKUPS` greatest by name, smallest name first.
/// Each position names a backup, they are in order, and every backup kept
/// sorts after every one deleted.
pub fn backups_to_prune(names: &Vec<String>) -> (r: Vec<usize>)
    ensures
        r@.len() == prune_count(backup_count(name_views(names@), names@.len() as int)),
        forall|p: int| 0 <= p < r@.len() ==> r@[p] < names@.len() && is_backup_name(names@[r@[p] as int]@),
        forall|p: int, q: int|
            0 <= p < q < r@.len() ==> name_before(name_views(names@), r@[p] as int, r@[q] as int),
        forall|k: usize|
            k < names@.len() && is_backup_name(names@[k as int]@) && !r@.contains(k) ==> forall|p: int|
                0 <= p < r@.len() ==> name_before(name_views(names@), r@[p] as int, k as int),
{
    let ghost nv = name_views(names@);
    let n = names.len();
    let mut rows: Vec<Vec<char>> = Vec::new();
    let mut found: Vec<usize> = Vec::new();
    for k in 0..n
        invariant
            n == names@.len(),
            nv == name_views(names@),
            rows@.len() == k,
            forall|j: int| 0 <= j < k ==> (#[trigger] rows@[j])@ == nv[j],
            found@.len() == backup_count(nv, k as int),
            forall|p: int| 0 <= p < found@.len() ==> found@[p] < k && is_backup_name(nv[found@[p] as int]),
            forall|j: usize| j < k && is_backup_name(nv[j as int]) ==> #[trigger] found@.contains(j),
            forall|p: int, q: int| 0 <= p < q < found@.len() ==> found@[p] < found@[q],
    {
        let row = crate::text::chars_of(names[k].as_str());
        assert(nv[k as int] == names@[k as int]@);
        if backup_file(&row) {
            let ghost old_found = found@;
            found.push(k);
            proof {
                assert forall|j: usize| j < k + 1 && is_backup_name(nv[j as int]) implies #[trigger] found@.contains(j) by {
                    if j == k {
                        assert(found@[found@.len() - 1] == k);
                    } else {
                        assert(old_found.contains(j));
                        let p = choose|p: int| 0 <= p < old_found.len() && old_found[p] == j;
                        assert(found@[p] == j);
                    }
                }
            }
        } else {
            proof {
                assert forall|j: usize| j < k + 1 && is_backup_name(nv[j as int]) implies #[trigger] found@.contains(j) by {
                    assert(j != k);
                }
            }
        }
        rows.push(row);
    }
    assert(crate::text::char_rows(rows@) =~= nv);
    let m = found.len();
    let mut sorted: Vec<usize> = Vec::new();
    for i in 0..m
        invariant
            n == names@.len(),
            nv == name_views(names@),
            rows@.len() == n,
            crate::text::char_rows(rows@) == nv,
            m == found@.len(),
            forall|p: int| 0 <= p < found@.len() ==> found@[p] < n && is_backup_name(nv[found@[p] as int]),
            forall|p: int, q: int| 0 <= p < q < found@.len() ==> found@[p] < found@[q],
            sorted@.len() == i,
            forall|p: int| 0 <= p < sorted@.len() ==> sorted@[p] < n && is_backup_name(nv[sorted@[p] as int]),
            i < m ==> forall|p: int| 0 <= p < sorted@.len() ==> sorted@[p] < found@[i as int],
            forall|t: int| 0 <= t < i ==> sorted@.contains(#[trigger] found@[t]),
            forall|p: int, q: int|
                0 <= p < q < sorted@.len() ==> name_before(nv, sorted@[p] as int, sorted@[q] as int),
    {
        let x = found[i];
        let mut j: usize = 0;
        while j < sorted.len() && entry_before(&rows, sorted[j], x)
            invariant
                n == names@.len(),
                rows@.len() == n,
                crate::text::char_rows(rows@) == nv,
                x < n,
                sorted@.len() == i,
                forall|p: int| 0 <= p < sorted@.len() ==> sorted@[p] < n,
                j <= sorted@.len(),
                forall|p: int| 0 <= p < j ==> name_before(nv, sorted@[p] as int, x as int),
            decreases sorted@.len() - j,
        {
            j = j + 1;
        }
        proof {
            assert forall|q: int| j <= q < sorted@.len() implies name_before(
                nv,
                x as int,
                sorted@[q] as int,
            ) by {
                lemma_name_before(nv, sorted@[j as int] as int, sorted@[q] as int, x as int);
                lemma_name_before(nv, sorted@[q] as int, x as int, sorted@[q] as int);
            }
        }
        let ghost old_sorted = sorted@;
        sorted.insert(j, x);
        proof {
            assert(sorted@ == old_sorted.insert(j as int, x));
            assert forall|p: int| 0 <= p < sorted@.len() implies sorted@[p] < n && is_backup_name(
                nv[sorted@[p] as int],
            ) && (i + 1 < m ==> sorted@[p] < found@[i + 1]) by {
                if p < j {
                    assert(sorted@[p] == old_sorted[p]);
                } else if p > j {
                    assert(sorted@[p] == old_sorted[p - 1]);
                }
            }
            assert forall|t: int| 0 <= t < i + 1 implies sorted@.contains(#[trigger] found@[t]) by {
                if t == i {
                    assert(sorted@[j as int] == x);
                } else {
                    let p = choose|p: int| 0 <= p < old_sorted.len() && old_sorted[p] == found@[t];
                    if p < j {
                        assert(sorted@[p] == found@[t]);
                    } else {
                        assert(sorted@[p + 1] == found@[t]);
                    }
                }
            }
        }
    }
    let drop: usize = if m > MAX_BACKUPS { m - MAX_BACKUPS } else { 0 };
    let mut r: Vec<usize> = Vec::new();
    for p in 0..drop
        invariant
            drop <= m,
            sorted@.len() == m,
            r@ == sorted@.take(p as int),
    {
        r.push(sorted[p]);
        assert(r@ =~= sorted@.take(p as int + 1));
    }
    proof {
        assert forall|k: usize|
            k < names@.len() && is_backup_name(names@[k as int]@) && !r@.contains(k) implies forall|p: int|
                0 <= p < r@.len() ==> name_before(nv, r@[p] as int, k as int) by {
            assert(nv[k as int] == names@[k as int]@);
            assert(found@.contains(k));
            let t = choose|t: int| 0 <= t < found@.len() && found@[t] == k;
            assert(sorted@.contains(found@[t]));
            let s = choose|s: int| 0 <= s < sorted@.len() && sorted@[s] == k;
            if s < drop {
                assert(r@[s] == k);
            }
            assert forall|p: int| 0 <= p < r@.len() implies name_before(nv, r@[p] as int, k as int) by {
                assert(r@[p] == sorted@[p]);
            }
        }
        assert forall|p: int| 0 <= p < r@.len() implies r@[p] < names@.len() && is_backup_name(names@[r@[p] as int]@) by {
            assert(r@[p] == sorted@[p]);
            assert(nv[r@[p] as int] == names@[r@[p] as int]@);
        }
    }
    r
}

} // verus!
