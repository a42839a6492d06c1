//! Listing a directory of the host file system for the import dialog:
//! folders first, then files, each group in case-insensitive name order.
use vstd::prelude::*;

use crate::storage::{ascii_lowered, is_ascii_text, lowercase, lowercase_text};
use vstd::set_lib::{lemma_int_range, lemma_len_subset, set_int_range};

verus! {

/// An entry of a host directory.
pub struct DirEntry {
    pub name: String,
    pub path: String,
    pub is_dir: bool,
    pub size: u64,
}

impl Clone for DirEntry {
    fn clone(&self) -> (r: Self)
        ensures
            r == *self,
    {
        DirEntry { name: self.name.clone(), path: self.path.clone(), is_dir: self.is_dir, size: self.size }
    }
}

/// The length of the longest common prefix of two texts.
pub open spec fn common_prefix_len(a: Seq<char>, b: Seq<char>) -> nat
    decreases a.len(),
{
    if a.len() == 0 || b.len() == 0 || a[0] != b[0] {
        0
    } else {
        1 + common_prefix_len(a.drop_first(), b.drop_first())
    }
}

/// Text order: character by character, by code point, a proper prefix
/// first. Comparing UTF-8 bytes, as `str` does, gives the same order.
pub open spec fn text_before(a: Seq<char>, b: Seq<char>) -> bool {
    let i = common_prefix_len(a, b) as int;
    (i == a.len() && i < b.len()) || (i < a.len() && i < b.len() && (a[i] as int) < (b[i] as int))
}

/// What the common prefix length is: the first position where the texts
/// differ or one of them ends.
pub proof fn lemma_common_prefix(a: Seq<char>, b: Seq<char>)
    ensures
        common_prefix_len(a, b) <= a.len(),
        common_prefix_len(a, b) <= b.len(),
        forall|j: int| 0 <= j < common_prefix_len(a, b) ==> #[trigger] a[j] == b[j],
        common_prefix_len(a, b) < a.len() && common_prefix_len(a, b) < b.len() ==> a[common_prefix_len(
            a,
            b,
        ) as int] != b[common_prefix_len(a, b) as int],
    decreases a.len(),
{
    if !(a.len() == 0 || b.len() == 0 || a[0] != b[0]) {
        lemma_common_prefix(a.drop_first(), b.drop_first());
        assert forall|j: int| 0 <= j < common_prefix_len(a, b) implies #[trigger] a[j] == b[j] by {
            if j > 0 {
                assert(a[j] == a.drop_first()[j - 1]);
                assert(b[j] == b.drop_first()[j - 1]);
            }
        }
    }
}

/// The common prefix length is the first position where the texts differ
/// or one ends.
pub proof fn lemma_common_prefix_at(a: Seq<char>, b: Seq<char>, i: int)
    requires
        0 <= i <= a.len(),
        i <= b.len(),
        forall|j: int| 0 <= j < i ==> #[trigger] a[j] == b[j],
        i == a.len() || i == b.len() || a[i] != b[i],
    ensures
        common_prefix_len(a, b) == i,
{
    lemma_common_prefix(a, b);
    let c = common_prefix_len(a, b) as int;
    if c < i {
        assert(a[c] == b[c]);
    } else if c > i {
        assert(a[i] == b[i]);
    }
}

/// Text order is irreflexive.
pub proof fn lemma_text_before_irreflexive(a: Seq<char>)
    ensures
        !text_before(a, a),
{
    lemma_common_prefix_at(a, a, a.len() as int);
}

/// Any two distinct texts are ordered one way or the other.
pub proof fn lemma_text_before_total(a: Seq<char>, b: Seq<char>)
    requires
        a != b,
    ensures
        text_before(a, b) || text_before(b, a),
{
    lemma_common_prefix(a, b);
    let i = common_prefix_len(a, b) as int;
    lemma_common_prefix_at(b, a, i);
    if i == a.len() && i == b.len() {
        assert(a =~= b);
    }
}

/// Text order is transitive.
pub proof fn lemma_text_before_transitive(a: Seq<char>, b: Seq<char>, c: Seq<char>)
    requires
        text_before(a, b),
        text_before(b, c),
    ensures
        text_before(a, c),
{
    lemma_common_prefix(a, b);
    lemma_common_prefix(b, c);
    let i = common_prefix_len(a, b) as int;
    let j = common_prefix_len(b, c) as int;
    let m = if i < j {
        i
    } else {
        j
    };
    assert forall|k: int| 0 <= k < m implies #[trigger] a[k] == c[k] by {
        assert(a[k] == b[k]);
        assert(b[k] == c[k]);
    }
    if i < j {
        if i < a.len() {
            assert(b[i] == c[i]);
        }
        lemma_common_prefix_at(a, c, i);
    } else if j < i {
        assert(a[j] == b[j]);
        lemma_common_prefix_at(a, c, j);
    } else {
        lemma_common_prefix_at(a, c, i);
    }
}

/// Entry order: folders before files, then text order of the keys, then
/// the position in the input. `d` tells which entries are folders, `k` holds
/// their keys.
pub open spec fn entry_before(d: Seq<bool>, k: Seq<Seq<char>>, i: int, j: int) -> bool {
    (d[i] && !d[j]) || (d[i] == d[j] && (text_before(k[i], k[j]) || (k[i] == k[j] && i < j)))
}

proof fn lemma_entry_before_transitive(d: Seq<bool>, k: Seq<Seq<char>>, a: int, b: int, c: int)
    requires
        entry_before(d, k, a, b),
        entry_before(d, k, b, c),
    ensures
        entry_before(d, k, a, c),
{
    if d[a] == d[b] && d[b] == d[c] {
        if text_before(k[a], k[b]) && text_before(k[b], k[c]) {
            lemma_text_before_transitive(k[a], k[b], k[c]);
        }
    }
}

proof fn lemma_entry_before_total(d: Seq<bool>, k: Seq<Seq<char>>, a: int, b: int)
    requires
        a != b,
    ensures
        entry_before(d, k, a, b) || entry_before(d, k, b, a),
{
    if k[a] != k[b] {
        lemma_text_before_total(k[a], k[b]);
    }
}

/// `p` lists the positions `0..n` once each, in entry order.
pub open spec fn sorted_positions(d: Seq<bool>, k: Seq<Seq<char>>, p: Seq<usize>, n: int) -> bool {
    &&& p.len() == n
    &&& forall|a: int| 0 <= a < p.len() ==> #[trigger] p[a] < n
    &&& forall|a: int, b: int| 0 <= a < b < p.len() ==> entry_before(d, k, #[trigger] p[a] as int, #[trigger] p[b] as int)
}

/// Whether the entries are folders.
pub open spec fn folder_flags(entries: Seq<DirEntry>) -> Seq<bool> {
    entries.map_values(|e: DirEntry| e.is_dir)
}

/// The listing of `entries` in the order of the keys `k`.
pub open spec fn is_listing(entries: Seq<DirEntry>, k: Seq<Seq<char>>, r: Seq<DirEntry>) -> bool {
    exists|p: Seq<usize>|
        sorted_positions(folder_flags(entries), k, p, entries.len() as int) && r.len() == p.len() && forall|
            a: int,
        |
            0 <= a < r.len() ==> #[trigger] r[a] == entries[p[a] as int]
}

fn chars_of(s: &str) -> (r: Vec<char>)
    ensures
        r@ == s@,
{
    let n = s.unicode_len();
    let mut out: Vec<char> = Vec::new();
    let mut i: usize = 0;
    while i < n
        invariant
            i <= n,
            n == s@.len(),
            out@ == s@.take(i as int),
        decreases n - i,
    {
        out.push(s.get_char(i));
        assert(s@.take(i + 1) == s@.take(i as int).push(s@[i as int]));
        i = i + 1;
    }
    assert(s@.take(n as int) == s@);
    out
}

fn text_less(a: &Vec<char>, b: &Vec<char>) -> (r: bool)
    ensures
        r == text_before(a@, b@),
{
    let mut i: usize = 0;
    while i < a.len() && i < b.len() && a[i] == b[i]
        invariant
            i <= a.len(),
            i <= b.len(),
            forall|j: int| 0 <= j < i ==> #[trigger] a@[j] == b@[j],
        decreases a.len() - i,
    {
        i = i + 1;
    }
    proof {
        lemma_common_prefix_at(a@, b@, i as int);
    }
    (i == a.len() && i < b.len()) || (i < a.len() && i < b.len() && a[i] < b[i])
}

fn same_chars(a: &Vec<char>, b: &Vec<char>) -> (r: bool)
    ensures
        r == (a@ == b@),
{
    if a.len() != b.len() {
        return false;
    }
    let mut i: usize = 0;
    while i < a.len()
        invariant
            i <= a.len(),
            a.len() == b.len(),
            forall|j: int| 0 <= j < i ==> #[trigger] a@[j] == b@[j],
        decreases a.len() - i,
    {
        if a[i] != b[i] {
            return false;
        }
        i = i + 1;
    }
    assert(a@ =~= b@);
    true
}

fn goes_before(entries: &Vec<DirEntry>, key_chars: &Vec<Vec<char>>, a: usize, b: usize) -> (r: bool)
    requires
        a < entries.len(),
        b < entries.len(),
        key_chars.len() == entries.len(),
    ensures
        r == ((entries@[a as int].is_dir && !entries@[b as int].is_dir) || (entries@[a as int].is_dir
            == entries@[b as int].is_dir && text_before(key_chars@[a as int]@, key_chars@[b as int]@))),
{
    let da = entries[a].is_dir;
    let db = entries[b].is_dir;
    (da && !db) || (da == db && text_less(&key_chars[a], &key_chars[b]))
}

/// Lists entries in the order of the given keys (one per entry): folders
/// before files, each group in text order of the keys, entries with equal
/// keys in their input order.
pub fn sort_entries_by_keys(entries: &Vec<DirEntry>, keys: &Vec<String>) -> (r: Vec<DirEntry>)
    requires
        keys.len() == entries.len(),
    ensures
        is_listing(entries@, keys@.map_values(|s: String| s@), r@),
{
    let n = entries.len();
    let ghost d = folder_flags(entries@);
    let ghost k = keys@.map_values(|s: String| s@);
    let mut key_chars: Vec<Vec<char>> = Vec::new();
    let mut i: usize = 0;
    while i < n
        invariant
            i <= n,
            n == entries.len(),
            n == keys.len(),
            k == keys@.map_values(|s: String| s@),
            key_chars@.len() == i,
            forall|j: int| 0 <= j < i ==> #[trigger] key_chars@[j]@ == k[j],
        decreases n - i,
    {
        key_chars.push(chars_of(keys[i].as_str()));
        i = i + 1;
    }
    let mut p: Vec<usize> = Vec::new();
    let mut m: usize = 0;
    while m < n
        invariant
            m <= n,
            n == entries.len(),
            key_chars@.len() == n,
            d == folder_flags(entries@),
            k.len() == n,
            forall|j: int| 0 <= j < n ==> #[trigger] key_chars@[j]@ == k[j],
            sorted_positions(d, k, p@, m as int),
        decreases n - m,
    {
        // the first position whose entry comes after entry `m`
        let mut pos: usize = 0;
        while pos < p.len() && !goes_before(entries, &key_chars, m, p[pos])
            invariant
                pos <= p.len(),
                m < n,
                n == entries.len(),
                key_chars@.len() == n,
                d == folder_flags(entries@),
                k.len() == n,
                forall|j: int| 0 <= j < n ==> #[trigger] key_chars@[j]@ == k[j],
                sorted_positions(d, k, p@, m as int),
                forall|a: int| 0 <= a < pos ==> !entry_before(d, k, m as int, #[trigger] p@[a] as int),
            decreases p.len() - pos,
        {
            proof {
                let q = p@[pos as int] as int;
                assert(q < m);
                assert(d[m as int] == entries@[m as int].is_dir);
                assert(d[q] == entries@[q].is_dir);
            }
            pos = pos + 1;
        }
        proof {
            if pos < p.len() {
                let q = p@[pos as int] as int;
                assert(q < m);
                assert(d[m as int] == entries@[m as int].is_dir);
                assert(d[q] == entries@[q].is_dir);
                assert(entry_before(d, k, m as int, q));
            }
        }
        let ghost old_p = p@;
        p.insert(pos, m);
        proof {
            let np = p@;
            assert(np == old_p.insert(pos as int, m));
            assert forall|a: int| 0 <= a < np.len() implies #[trigger] np[a] < m + 1 by {
                if a < pos {
                    assert(np[a] == old_p[a]);
                } else if a > pos {
                    assert(np[a] == old_p[a - 1]);
                }
            }
            assert forall|a: int, b: int| 0 <= a < b < np.len() implies entry_before(
                d,
                k,
                #[trigger] np[a] as int,
                #[trigger] np[b] as int,
            ) by {
                let pa = np[a] as int;
                let pb = np[b] as int;
                if a < pos && b < pos {
                    assert(np[a] == old_p[a] && np[b] == old_p[b]);
                } else if a < pos && b == pos {
                    assert(np[a] == old_p[a]);
                    assert(!entry_before(d, k, m as int, old_p[a] as int));
                    lemma_entry_before_total(d, k, pa, m as int);
                } else if a < pos && b > pos {
                    assert(np[a] == old_p[a] && np[b] == old_p[b - 1]);
                } else if a == pos {
                    assert(np[b] == old_p[b - 1]);
                    let q = old_p[pos as int] as int;
                    if b - 1 > pos {
                        lemma_entry_before_transitive(d, k, m as int, q, pb);
                    }
                } else {
                    assert(np[a] == old_p[a - 1] && np[b] == old_p[b - 1]);
                }
            }
        }
        m = m + 1;
    }
    let mut out: Vec<DirEntry> = Vec::new();
    let mut t: usize = 0;
    while t < n
        invariant
            t <= n,
            n == entries.len(),
            sorted_positions(d, k, p@, n as int),
            out@.len() == t,
            forall|a: int| 0 <= a < t ==> #[trigger] out@[a] == entries@[p@[a] as int],
        decreases n - t,
    {
        out.push(entries[p[t]].clone());
        t = t + 1;
    }
    assert(sorted_positions(folder_flags(entries@), keys@.map_values(|s: String| s@), p@, entries@.len() as int));
    out
}

/// Lists the entries of a host directory: folders first, then files, each
/// group by lowercase name, entries with the same lowercase name in their
/// input order.
pub fn sort_dir_entries(entries: Vec<DirEntry>) -> (r: Vec<DirEntry>)
    ensures
        is_listing(entries@, entries@.map_values(|e: DirEntry| lowercase(e.name@)), r@),
        (forall|j: int| 0 <= j < entries@.len() ==> is_ascii_text(#[trigger] entries@[j].name@))
            ==> is_listing(entries@, entries@.map_values(|e: DirEntry| ascii_lowered(e.name@)), r@),
{
    let mut keys: Vec<String> = Vec::new();
    let mut i: usize = 0;
    while i < entries.len()
        invariant
            i <= entries.len(),
            keys@.len() == i,
            forall|j: int| 0 <= j < i ==> (#[trigger] keys@[j])@ == lowercase(entries@[j].name@),
            forall|j: int|
                0 <= j < i && is_ascii_text(entries@[j].name@) ==> (#[trigger] keys@[j])@
                    == ascii_lowered(entries@[j].name@),
        decreases entries.len() - i,
    {
        keys.push(lowercase_text(entries[i].name.as_str()));
        i = i + 1;
    }
    let r = sort_entries_by_keys(&entries, &keys);
    assert(keys@.map_values(|s: String| s@) =~= entries@.map_values(|e: DirEntry| lowercase(e.name@)));
    proof {
        if forall|j: int| 0 <= j < entries@.len() ==> is_ascii_text(#[trigger] entries@[j].name@) {
            assert(keys@.map_values(|s: String| s@) =~= entries@.map_values(
                |e: DirEntry| ascii_lowered(e.name@),
            ));
        }
    }
    r
}

/// In a listing every folder comes before every file.
pub proof fn lemma_listing_folders_first(entries: Seq<DirEntry>, k: Seq<Seq<char>>, r: Seq<DirEntry>, a: int, b: int)
    requires
        is_listing(entries, k, r),
        0 <= a < b < r.len(),
    ensures
        r[b].is_dir ==> r[a].is_dir,
{
    let p = choose|p: Seq<usize>|
        sorted_positions(folder_flags(entries), k, p, entries.len() as int) && r.len() == p.len()
            && forall|x: int| 0 <= x < r.len() ==> #[trigger] r[x] == entries[p[x] as int];
    assert(r[a] == entries[p[a] as int] && r[b] == entries[p[b] as int]);
    assert(entry_before(folder_flags(entries), k, p[a] as int, p[b] as int));
}

/// A listing loses no entry: it is as long as the directory, and every
/// entry of the directory stands somewhere in it.
pub proof fn lemma_listing_keeps_every_entry(entries: Seq<DirEntry>, k: Seq<Seq<char>>, r: Seq<DirEntry>, j: int)
    requires
        is_listing(entries, k, r),
        0 <= j < entries.len(),
    ensures
        r.len() == entries.len(),
        exists|a: int| 0 <= a < r.len() && r[a] == entries[j],
{
    let d = folder_flags(entries);
    let n = entries.len() as int;
    let p = choose|p: Seq<usize>|
        sorted_positions(d, k, p, n) && r.len() == p.len()
            && forall|x: int| 0 <= x < r.len() ==> #[trigger] r[x] == entries[p[x] as int];
    let pi = p.map_values(|x: usize| x as int);
    assert forall|a: int, b: int| 0 <= a < pi.len() && 0 <= b < pi.len() && a != b implies pi[a]
        != pi[b] by {
        let (x, y) = if a < b {
            (a, b)
        } else {
            (b, a)
        };
        assert(entry_before(d, k, p[x] as int, p[y] as int));
        if pi[a] == pi[b] {
            lemma_text_before_irreflexive(k[p[x] as int]);
        }
    }
    pi.unique_seq_to_set();
    let range = set_int_range(0, n);
    lemma_int_range(0, n);
    if !pi.to_set().contains(j) {
        assert(pi.to_set().subset_of(range.remove(j))) by {
            assert forall|x: int| pi.to_set().contains(x) implies range.remove(j).contains(x) by {
                let a = choose|a: int| 0 <= a < pi.len() && pi[a] == x;
                assert(p[a] < n);
            }
        }
        lemma_len_subset(pi.to_set(), range.remove(j));
        assert(false);
    }
    let a = choose|a: int| 0 <= a < pi.len() && pi[a] == j;
    assert(r[a] == entries[j]);
}

} // verus!
