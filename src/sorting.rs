//! Files as the browser lists them, and the orders it can list them in.

use vstd::prelude::*;
use core::cmp::Ordering;
use vstd::multiset::Multiset;

verus! {

broadcast use vstd::seq_lib::group_to_multiset_ensures;

/// A file of the listed directory.
pub struct FileInfo {
    /// Where the file is.
    pub path: String,
    /// Its name within the directory.
    pub name: String,
    pub is_folder: bool,
    /// Creation time, in nanoseconds from the Unix epoch (negative before it).
    pub ctime: i128,
    /// Modification time, in nanoseconds from the Unix epoch.
    pub mtime: i128,
    /// Size in bytes.
    pub size: u64,
}

/// The orders in which files can be listed.
#[derive(PartialEq, Eq, Structural, Clone, Copy, Debug)]
pub enum Sorting {
    Name,
    Ctime,
    Mtime,
    Size,
    Natural,
}

/// The natural order of two names, in which runs of digits compare by value
/// (`rfc1` < `rfc822` < `rfc2086`) and whitespace is skipped.
pub uninterp spec fn natural_order(a: Seq<char>, b: Seq<char>) -> Ordering;

/// Relies on `natord::compare`, which compares two strings in natural order;
/// its result depends on the characters of the two strings alone.
pub assume_specification[ natord::compare ](left: &str, right: &str) -> (r: Ordering)
    ensures
        r == natural_order(left@, right@),
;

/// The order of two integers.
pub open spec fn int_order(x: int, y: int) -> Ordering {
    if x < y {
        Ordering::Less
    } else if x > y {
        Ordering::Greater
    } else {
        Ordering::Equal
    }
}

/// The lexicographic order of two character sequences, by code point (the
/// order of their UTF-8 bytes).
pub open spec fn lex_order(a: Seq<char>, b: Seq<char>) -> Ordering
    decreases a.len(),
{
    if a.len() == 0 {
        if b.len() == 0 {
            Ordering::Equal
        } else {
            Ordering::Less
        }
    } else if b.len() == 0 {
        Ordering::Greater
    } else if (a[0] as u32) < (b[0] as u32) {
        Ordering::Less
    } else if (a[0] as u32) > (b[0] as u32) {
        Ordering::Greater
    } else {
        lex_order(a.drop_first(), b.drop_first())
    }
}

/// The order of two files under `s`.
pub open spec fn file_order(a: FileInfo, b: FileInfo, s: Sorting) -> Ordering {
    match s {
        Sorting::Name => lex_order(a.name@, b.name@),
        Sorting::Ctime => int_order(a.ctime as int, b.ctime as int),
        Sorting::Mtime => int_order(a.mtime as int, b.mtime as int),
        Sorting::Size => int_order(a.size as int, b.size as int),
        Sorting::Natural => natural_order(a.name@, b.name@),
    }
}

/// No file of `fs` comes after the next one under `s`.
pub open spec fn sorted(fs: Seq<FileInfo>, s: Sorting) -> bool {
    forall|k: int| 0 <= k < fs.len() - 1 ==> #[trigger] file_order(fs[k], fs[k + 1], s) != Ordering::Greater
}

proof fn lemma_lex_antisymmetric(a: Seq<char>, b: Seq<char>)
    ensures
        lex_order(a, b) == Ordering::Greater ==> lex_order(b, a) == Ordering::Less,
    decreases a.len(),
{
    if a.len() > 0 && b.len() > 0 && (a[0] as u32) == (b[0] as u32) {
        lemma_lex_antisymmetric(a.drop_first(), b.drop_first());
    }
}

proof fn lemma_file_order_antisymmetric(a: FileInfo, b: FileInfo, s: Sorting)
    requires
        s != Sorting::Natural,
    ensures
        file_order(a, b, s) == Ordering::Greater ==> file_order(b, a, s) == Ordering::Less,
{
    if s == Sorting::Name {
        lemma_lex_antisymmetric(a.name@, b.name@);
    }
}

proof fn lemma_lex_transitive(a: Seq<char>, b: Seq<char>, c: Seq<char>)
    ensures
        lex_order(a, b) != Ordering::Greater && lex_order(b, c) != Ordering::Greater ==> lex_order(a, c)
            != Ordering::Greater,
        lex_order(a, b) == Ordering::Less && lex_order(b, c) != Ordering::Greater ==> lex_order(a, c)
            == Ordering::Less,
    decreases a.len(),
{
    if a.len() > 0 && b.len() > 0 && c.len() > 0 {
        lemma_lex_transitive(a.drop_first(), b.drop_first(), c.drop_first());
    }
}

/// Under every order but the natural one, comparison is a total preorder:
/// `a` before or with `b` before or with `c` puts `a` before or with `c`,
/// strictly when `a` was strictly before `b`.
proof fn lemma_file_order_transitive(a: FileInfo, b: FileInfo, c: FileInfo, s: Sorting)
    requires
        s != Sorting::Natural,
    ensures
        file_order(a, b, s) != Ordering::Greater && file_order(b, c, s) != Ordering::Greater
            ==> file_order(a, c, s) != Ordering::Greater,
        file_order(a, b, s) == Ordering::Less && file_order(b, c, s) != Ordering::Greater
            ==> file_order(a, c, s) == Ordering::Less,
{
    if s == Sorting::Name {
        lemma_lex_transitive(a.name@, b.name@, c.name@);
    }
}

fn int_cmp(x: i128, y: i128) -> (r: Ordering)
    ensures
        r == int_order(x as int, y as int),
{
    if x < y {
        Ordering::Less
    } else if x > y {
        Ordering::Greater
    } else {
        Ordering::Equal
    }
}

/// Compares two files by name, character by character.
pub fn name(file1: &FileInfo, file2: &FileInfo) -> (r: Ordering)
    ensures
        r == lex_order(file1.name@, file2.name@),
{
    let a = file1.name.as_str();
    let b = file2.name.as_str();
    let la = a.unicode_len();
    let lb = b.unicode_len();
    let mut i: usize = 0;
    assert(a@.skip(0) =~= a@ && b@.skip(0) =~= b@);
    while i < la && i < lb
        invariant
            la == a@.len(),
            lb == b@.len(),
            i <= la,
            i <= lb,
            a@ == file1.name@,
            b@ == file2.name@,
            lex_order(a@, b@) == lex_order(a@.skip(i as int), b@.skip(i as int)),
        decreases la - i,
    {
        let ca = a.get_char(i);
        let cb = b.get_char(i);
        assert(a@.skip(i as int)[0] == ca && b@.skip(i as int)[0] == cb);
        if (ca as u32) < (cb as u32) {
            return Ordering::Less;
        }
        if (ca as u32) > (cb as u32) {
            return Ordering::Greater;
        }
        assert(a@.skip(i as int).drop_first() =~= a@.skip(i + 1));
        assert(b@.skip(i as int).drop_first() =~= b@.skip(i + 1));
        i += 1;
    }
    assert(a@.skip(i as int).len() == la - i);
    if la == lb {
        Ordering::Equal
    } else if i == la {
        Ordering::Less
    } else {
        Ordering::Greater
    }
}

/// Compares two files by creation time.
pub fn ctime(file1: &FileInfo, file2: &FileInfo) -> (r: Ordering)
    ensures
        r == int_order(file1.ctime as int, file2.ctime as int),
{
    int_cmp(file1.ctime, file2.ctime)
}

/// Compares two files by modification time.
pub fn mtime(file1: &FileInfo, file2: &FileInfo) -> (r: Ordering)
    ensures
        r == int_order(file1.mtime as int, file2.mtime as int),
{
    int_cmp(file1.mtime, file2.mtime)
}

/// Compares two files by size.
pub fn size(file1: &FileInfo, file2: &FileInfo) -> (r: Ordering)
    ensures
        r == int_order(file1.size as int, file2.size as int),
{
    int_cmp(file1.size as i128, file2.size as i128)
}

/// Compares two files by name in natural order.
pub fn natural(file1: &FileInfo, file2: &FileInfo) -> (r: Ordering)
    ensures
        r == natural_order(file1.name@, file2.name@),
{
    natord::compare(file1.name.as_str(), file2.name.as_str())
}

/// Compares two files under `sorting`.
pub fn compare_files(file1: &FileInfo, file2: &FileInfo, sorting: Sorting) -> (r: Ordering)
    ensures
        r == file_order(*file1, *file2, sorting),
{
    match sorting {
        Sorting::Name => name(file1, file2),
        Sorting::Ctime => ctime(file1, file2),
        Sorting::Mtime => mtime(file1, file2),
        Sorting::Size => size(file1, file2),
        Sorting::Natural => natural(file1, file2),
    }
}

/// `out` holds the files of `orig` at the places `p` gives (`out[k]` is
/// `orig[p[k]]`), and files that compare equal under `s` appear in `out` in
/// the order they had in `orig`.
pub open spec fn stable_with(orig: Seq<FileInfo>, out: Seq<FileInfo>, s: Sorting, p: Seq<int>) -> bool {
    &&& p.len() == out.len()
    &&& forall|k: int| 0 <= k < out.len() ==> 0 <= #[trigger] p[k] < orig.len() && out[k] == orig[p[k]]
    &&& forall|k: int, l: int|
        0 <= k < l < out.len() && #[trigger] file_order(out[k], out[l], s) == Ordering::Equal ==> p[k] < p[l]
}

/// `out` is a stable arrangement of `orig` under `s`.
pub open spec fn stable(orig: Seq<FileInfo>, out: Seq<FileInfo>, s: Sorting) -> bool {
    exists|p: Seq<int>| stable_with(orig, out, s, p)
}

/// No file of `fs` comes after a later one under `s`.
pub open spec fn sorted_all(fs: Seq<FileInfo>, s: Sorting) -> bool {
    forall|k: int, l: int| 0 <= k < l < fs.len() ==> #[trigger] file_order(fs[k], fs[l], s) != Ordering::Greater
}

/// Sorts `files` under `sorting` by insertion: the result holds the same
/// files. Every order but the natural one is a total preorder, and there the
/// result is sorted and stable: files that compare equal keep their order.
/// The natural order is taken as the outside comparison gives it, of which
/// nothing more is known.
pub fn sort_files(files: &mut Vec<FileInfo>, sorting: &Sorting)
    ensures
        final(files)@.to_multiset() == old(files)@.to_multiset(),
        *sorting != Sorting::Natural ==> sorted(final(files)@, *sorting),
        *sorting != Sorting::Natural ==> sorted_all(final(files)@, *sorting),
        *sorting != Sorting::Natural ==> stable(old(files)@, final(files)@, *sorting),
{
    let s = *sorting;
    let ghost orig = old(files)@;
    let ghost mut p: Seq<int> = Seq::empty();
    let mut out: Vec<FileInfo> = Vec::new();
    assert(out@.to_multiset() =~= Multiset::empty());
    assert(files@ =~= orig.subrange(0, orig.len() as int));
    while files.len() > 0
        invariant
            out@.to_multiset().add(files@.to_multiset()) == orig.to_multiset(),
            s == *sorting,
            out@.len() + files@.len() == orig.len(),
            files@ == orig.subrange(out@.len() as int, orig.len() as int),
            s != Sorting::Natural ==> sorted_all(out@, s),
            s != Sorting::Natural ==> stable_with(orig, out@, s, p),
            s != Sorting::Natural ==> forall|k: int| 0 <= k < out@.len() ==> #[trigger] p[k] < out@.len(),
        decreases files@.len(),
    {
        let ghost before = files@;
        let ghost m = out@.len() as int;
        let x = files.remove(0);
        proof {
            vstd::seq_lib::to_multiset_contains(before, x);
            vstd::seq_lib::to_multiset_remove(before, 0);
            assert(files@ =~= orig.subrange(m + 1, orig.len() as int));
            assert(x == orig[m]);
        }
        assert(before[0] == x && before.contains(x));
        assert(before.to_multiset().count(x) > 0);
        assert(files@.to_multiset() == before.to_multiset().remove(x));
        let mut pos: usize = out.len();
        loop
            invariant
                pos <= out@.len(),
                pos < out@.len() ==> file_order(out@[pos as int], x, s) == Ordering::Greater,
            ensures
                pos <= out@.len(),
                pos < out@.len() ==> file_order(out@[pos as int], x, s) == Ordering::Greater,
                pos > 0 ==> file_order(out@[pos - 1], x, s) != Ordering::Greater,
            decreases pos,
        {
            if pos == 0 {
                break;
            }
            let c = compare_files(&out[pos - 1], &x, s);
            if !matches!(c, Ordering::Greater) {
                break;
            }
            pos -= 1;
        }
        let ghost prev = out@;
        let ghost q = p;
        out.insert(pos, x);
        proof {
            p = q.insert(pos as int, m);
            vstd::seq_lib::to_multiset_insert(prev, pos as int, x);
            assert(out@.to_multiset() == prev.to_multiset().insert(x));
            assert(out@.to_multiset().add(files@.to_multiset()) =~= prev.to_multiset().add(before.to_multiset()));
            if s != Sorting::Natural {
                let n = out@;
                let ps = pos as int;
                if ps < prev.len() {
                    lemma_file_order_antisymmetric(prev[ps], x, s);
                }
                // Everything after the new file is strictly after it.
                assert forall|l: int| ps < l < n.len() implies #[trigger] file_order(x, n[l], s) == Ordering::Less by {
                    assert(n[l] == prev[l - 1]);
                    if l - 1 > ps {
                        assert(file_order(prev[ps], prev[l - 1], s) != Ordering::Greater);
                    }
                    lemma_file_order_transitive(x, prev[ps], prev[l - 1], s);
                }
                // Everything before it is before or with it.
                assert forall|k: int| 0 <= k < ps implies #[trigger] file_order(n[k], x, s) != Ordering::Greater by {
                    assert(n[k] == prev[k]);
                    if k < ps - 1 {
                        assert(file_order(prev[k], prev[ps - 1], s) != Ordering::Greater);
                    }
                    lemma_file_order_transitive(prev[k], prev[ps - 1], x, s);
                }
                assert forall|k: int, l: int| 0 <= k < l < n.len() implies #[trigger] file_order(n[k], n[l], s)
                    != Ordering::Greater by {
                    if l < ps {
                        assert(file_order(prev[k], prev[l], s) != Ordering::Greater);
                    } else if l == ps {
                        assert(file_order(n[k], x, s) != Ordering::Greater);
                    } else if k < ps {
                        assert(file_order(prev[k], prev[l - 1], s) != Ordering::Greater);
                    } else if k == ps {
                        assert(file_order(x, n[l], s) == Ordering::Less);
                    } else {
                        assert(file_order(prev[k - 1], prev[l - 1], s) != Ordering::Greater);
                    }
                }
                assert forall|k: int| 0 <= k < n.len() implies 0 <= #[trigger] p[k] < orig.len() && n[k] == orig[p[k]]
                    && p[k] < n.len() by {
                    if k < ps {
                        assert(q[k] == p[k]);
                    } else if k > ps {
                        assert(q[k - 1] == p[k]);
                    }
                }
                assert forall|k: int, l: int|
                    0 <= k < l < n.len() && #[trigger] file_order(n[k], n[l], s) == Ordering::Equal implies p[k] < p[l] by {
                    if l < ps {
                        assert(file_order(prev[k], prev[l], s) == Ordering::Equal);
                    } else if l == ps {
                        assert(q[k] < m);
                    } else if k < ps {
                        assert(file_order(prev[k], prev[l - 1], s) == Ordering::Equal);
                    } else if k == ps {
                        assert(file_order(x, n[l], s) == Ordering::Less);
                    } else {
                        assert(file_order(prev[k - 1], prev[l - 1], s) == Ordering::Equal);
                    }
                }
            }
        }
    }
    assert(files@.to_multiset() =~= Multiset::empty());
    assert(out@.to_multiset() =~= orig.to_multiset());
    proof {
        if s != Sorting::Natural {
            assert(stable_with(orig, out@, s, p));
            assert forall|k: int| 0 <= k < out@.len() - 1 implies #[trigger] file_order(out@[k], out@[k + 1], s)
                != Ordering::Greater by {
                assert(file_order(out@[k], out@[k + 1], s) != Ordering::Greater);
            }
        }
    }
    *files = out;
}

} // verus!
