use vstd::prelude::*;
use vstd::utf8::encode_utf8;

verus! {

/// The bytes of a name, as its UTF-8 encoding.
pub open spec fn name_bytes(name: String) -> Seq<u8> {
    encode_utf8(name@)
}

/// `s` ends with `suffix`.
pub open spec fn has_suffix(s: Seq<u8>, suffix: Seq<u8>) -> bool {
    suffix.len() <= s.len() && s.subrange(s.len() - suffix.len(), s.len() as int) == suffix
}

/// A directory entry is a page when its name ends in `.jpg` or `.png`.
pub open spec fn is_page_name(name: Seq<u8>) -> bool {
    has_suffix(name, seq![46u8, 106u8, 112u8, 103u8]) || has_suffix(
        name,
        seq![46u8, 112u8, 110u8, 103u8],
    )
}

/// Byte-wise lexicographic order: `a` sorts strictly before `b`.
pub open spec fn bytes_lt(a: Seq<u8>, b: Seq<u8>) -> bool
    decreases a.len(),
{
    if a.len() == 0 {
        b.len() > 0
    } else if b.len() == 0 {
        false
    } else if a[0] != b[0] {
        a[0] < b[0]
    } else {
        bytes_lt(a.drop_first(), b.drop_first())
    }
}

/// No name in `names` sorts strictly before one that precedes it.
pub open spec fn names_sorted(names: Seq<String>) -> bool {
    forall|i: int, j: int|
        0 <= i < j < names.len() ==> !bytes_lt(
            name_bytes(#[trigger] names[j]),
            name_bytes(#[trigger] names[i]),
        )
}

/// The page entries of a directory listing.
pub open spec fn page_entries(entries: Seq<String>) -> Seq<String> {
    entries.filter(|e: String| is_page_name(name_bytes(e)))
}

proof fn lemma_bytes_lt_asymmetric(a: Seq<u8>, b: Seq<u8>)
    ensures
        !(bytes_lt(a, b) && bytes_lt(b, a)),
    decreases a.len(),
{
    if a.len() > 0 && b.len() > 0 && a[0] == b[0] {
        lemma_bytes_lt_asymmetric(a.drop_first(), b.drop_first());
    }
}

proof fn lemma_bytes_lt_transitive(a: Seq<u8>, b: Seq<u8>, c: Seq<u8>)
    requires
        bytes_lt(a, b),
        bytes_lt(b, c),
    ensures
        bytes_lt(a, c),
    decreases a.len(),
{
    if a.len() > 0 && b.len() > 0 && c.len() > 0 && a[0] == b[0] && b[0] == c[0] {
        lemma_bytes_lt_transitive(a.drop_first(), b.drop_first(), c.drop_first());
    }
}

/// Past an equal prefix the order is decided by what follows.
proof fn lemma_bytes_lt_skip(a: Seq<u8>, b: Seq<u8>, k: int)
    requires
        0 <= k <= a.len(),
        k <= b.len(),
        a.subrange(0, k) == b.subrange(0, k),
    ensures
        bytes_lt(a, b) == bytes_lt(a.subrange(k, a.len() as int), b.subrange(k, b.len() as int)),
    decreases k,
{
    if k > 0 {
        assert(a[0] == a.subrange(0, k)[0]);
        assert(b[0] == b.subrange(0, k)[0]);
        let a1 = a.drop_first();
        let b1 = b.drop_first();
        assert(a1.subrange(0, k - 1) =~= a.subrange(0, k).drop_first());
        assert(b1.subrange(0, k - 1) =~= b.subrange(0, k).drop_first());
        lemma_bytes_lt_skip(a1, b1, k - 1);
        assert(a1.subrange(k - 1, a1.len() as int) =~= a.subrange(k, a.len() as int));
        assert(b1.subrange(k - 1, b1.len() as int) =~= b.subrange(k, b.len() as int));
    } else {
        assert(a.subrange(0, a.len() as int) =~= a);
        assert(b.subrange(0, b.len() as int) =~= b);
    }
}

/// Whether `a` sorts strictly before `b`, byte by byte.
fn bytes_less(a: &[u8], b: &[u8]) -> (r: bool)
    ensures
        r == bytes_lt(a@, b@),
{
    let mut k: usize = 0;
    while k < a.len() && k < b.len()
        invariant
            k <= a@.len(),
            k <= b@.len(),
            a@.subrange(0, k as int) == b@.subrange(0, k as int),
        decreases a@.len() - k,
    {
        if a[k] != b[k] {
            proof {
                lemma_bytes_lt_skip(a@, b@, k as int);
                let ra = a@.subrange(k as int, a@.len() as int);
                let rb = b@.subrange(k as int, b@.len() as int);
                assert(ra[0] == a@[k as int] && rb[0] == b@[k as int]);
            }
            return a[k] < b[k];
        }
        assert(a@.subrange(0, k + 1) =~= a@.subrange(0, k as int).push(a@[k as int]));
        assert(b@.subrange(0, k + 1) =~= b@.subrange(0, k as int).push(b@[k as int]));
        k += 1;
    }
    proof {
        lemma_bytes_lt_skip(a@, b@, k as int);
    }
    k < b.len()
}

fn ends_with_bytes(s: &[u8], suffix: &[u8]) -> (r: bool)
    ensures
        r == has_suffix(s@, suffix@),
{
    if suffix.len() > s.len() {
        return false;
    }
    let n = s.len();
    let off = n - suffix.len();
    let mut k: usize = 0;
    while k < suffix.len()
        invariant
            n == s@.len(),
            off + suffix@.len() == s@.len(),
            k <= suffix@.len(),
            forall|i: int| 0 <= i < k ==> s@[off + i] == suffix@[i],
        decreases suffix@.len() - k,
    {
        if s[off + k] != suffix[k] {
            assert(s@.subrange(off as int, s@.len() as int)[k as int] != suffix@[k as int]);
            return false;
        }
        k += 1;
    }
    assert(s@.subrange(off as int, s@.len() as int) =~= suffix@);
    true
}

/// Whether a directory entry names a page image (`.jpg` or `.png`).
pub fn is_page_file(name: &String) -> (r: bool)
    ensures
        r == is_page_name(name_bytes(*name)),
{
    let bytes = name.as_str().as_bytes();
    let jpg: [u8; 4] = [46u8, 106u8, 112u8, 103u8];
    let png: [u8; 4] = [46u8, 112u8, 110u8, 103u8];
    assert(jpg@ =~= seq![46u8, 106u8, 112u8, 103u8]);
    assert(png@ =~= seq![46u8, 112u8, 110u8, 103u8]);
    ends_with_bytes(bytes, jpg.as_slice()) || ends_with_bytes(bytes, png.as_slice())
}

/// The pages of a directory listing: the entries named `*.jpg` or `*.png`,
/// sorted by name byte-wise.
pub fn page_files(entries: Vec<String>) -> (r: Vec<String>)
    ensures
        names_sorted(r@),
        r@.to_multiset() == page_entries(entries@).to_multiset(),
{
    broadcast use vstd::seq_lib::group_to_multiset_ensures;

    let mut out: Vec<String> = Vec::new();
    let mut i: usize = 0;
    while i < entries.len()
        invariant
            i <= entries@.len(),
            names_sorted(out@),
            out@.to_multiset() == page_entries(entries@.take(i as int)).to_multiset(),
        decreases entries@.len() - i,
    {
        let name = entries[i].clone();
        let is_page = is_page_file(&name);
        proof {
            reveal(Seq::filter);
            assert(entries@.take(i + 1).drop_last() =~= entries@.take(i as int));
            assert(entries@.take(i + 1).last() == entries@[i as int]);
            assert(page_entries(entries@.take(i + 1)) == if is_page {
                page_entries(entries@.take(i as int)).push(name)
            } else {
                page_entries(entries@.take(i as int))
            });
        }
        if is_page {
            let key = name.as_str().as_bytes();
            let mut p: usize = 0;
            while p < out.len() && !bytes_less(key, out[p].as_str().as_bytes())
                invariant
                    p <= out@.len(),
                    key@ == name_bytes(name),
                    forall|j: int| 0 <= j < p ==> !bytes_lt(name_bytes(name), name_bytes(#[trigger] out@[j])),
                decreases out@.len() - p,
            {
                p += 1;
            }
            let ghost before = out@;
            out.insert(p, name);
            proof {
                vstd::seq_lib::to_multiset_insert(before, p as int, name);
                assert(out@.to_multiset() == before.to_multiset().insert(name));
                let prev = page_entries(entries@.take(i as int));
                prev.to_multiset_ensures();
                assert(prev.push(name).to_multiset() == prev.to_multiset().insert(name));
                assert forall|a: int, b: int| 0 <= a < b < out@.len() implies !bytes_lt(
                    name_bytes(#[trigger] out@[b]),
                    name_bytes(#[trigger] out@[a]),
                ) by {
                    let x = name_bytes(name);
                    if b == p {
                        assert(out@[a] == before[a]);
                    } else if a == p {
                        assert(out@[b] == before[b - 1]);
                        assert(bytes_lt(x, name_bytes(before[p as int])));
                        if bytes_lt(name_bytes(before[b - 1]), x) {
                            lemma_bytes_lt_transitive(name_bytes(before[b - 1]), x, name_bytes(before[p as int]));
                            if b - 1 == p {
                                lemma_bytes_lt_asymmetric(x, name_bytes(before[p as int]));
                            }
                        }
                    } else {
                        let a0 = if a < p { a } else { a - 1 };
                        let b0 = if b < p { b } else { b - 1 };
                        assert(out@[a] == before[a0]);
                        assert(out@[b] == before[b0]);
                    }
                }
            }
        }
        i += 1;
    }
    assert(entries@.take(entries@.len() as int) =~= entries@);
    out
}

} // verus!
