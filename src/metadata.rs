use vstd::prelude::*;
use vstd::seq_lib::lemma_multiset_commutative;

verus! {

/// How many documents the recent list shows.
pub const MAX_RECENT_DOCUMENTS: usize = 8;

/// Bookkeeping for one document, keyed by its path.
#[derive(Clone, Debug)]
pub struct ComicMetadata {
    /// When the document was last opened, in seconds since the epoch.
    pub last_time_opened: u64,
    pub title: String,
    /// How many chunks were known when it was last closed (may grow).
    pub chunk_count: usize,
    /// The reading position when it was last closed.
    pub last_seen_chunk: usize,
    pub path: String,
    /// An encoded preview image.
    pub thumbnail: Option<Vec<u8>>,
}

impl ComicMetadata {
    /// The record of a document opened for the first time at `now`: titled
    /// by its path, with nothing read yet.
    pub fn for_new_document(path: &str, now: u64) -> (r: ComicMetadata)
        ensures
            r.path@ == path@,
            r.title@ == path@,
            r.last_time_opened == now,
            r.chunk_count == 0,
            r.last_seen_chunk == 0,
            r.thumbnail is None,
    {
        ComicMetadata {
            last_time_opened: now,
            title: path.to_string(),
            chunk_count: 0,
            last_seen_chunk: 0,
            path: path.to_string(),
            thumbnail: None,
        }
    }

    /// The record saved when a document closes at `now` with `chunk_count`
    /// chunks reported and the reader at chunk `position`, kept inside
    /// `[0, chunk_count)` when there are chunks.
    pub fn on_close(self, chunk_count: usize, position: usize, now: u64) -> (r: ComicMetadata)
        ensures
            r.path == self.path,
            r.title == self.title,
            r.thumbnail == self.thumbnail,
            r.last_time_opened == now,
            r.chunk_count == chunk_count,
            chunk_count == 0 ==> r.last_seen_chunk == 0,
            chunk_count > 0 ==> r.last_seen_chunk == if position < chunk_count {
                position
            } else {
                (chunk_count - 1) as usize
            },
    {
        let last_seen_chunk = if chunk_count == 0 {
            0
        } else if position < chunk_count {
            position
        } else {
            chunk_count - 1
        };
        ComicMetadata {
            last_time_opened: now,
            title: self.title,
            chunk_count,
            last_seen_chunk,
            path: self.path,
            thumbnail: self.thumbnail,
        }
    }
}

/// A stored preview: none when the stored bytes are empty.
pub fn thumbnail_from_blob(blob: Vec<u8>) -> (r: Option<Vec<u8>>)
    ensures
        blob@.len() == 0 ==> r is None,
        blob@.len() > 0 ==> r == Some(blob),
{
    if blob.len() == 0 {
        None
    } else {
        Some(blob)
    }
}

/// Most recently opened first.
pub open spec fn newest_first(records: Seq<ComicMetadata>) -> bool {
    forall|i: int, j: int|
        0 <= i < j < records.len() ==> #[trigger] records[i].last_time_opened
            >= #[trigger] records[j].last_time_opened
}

/// The recent-documents list: at most `MAX_RECENT_DOCUMENTS` of `records`,
/// most recently opened first, and none left out that was opened later than
/// one kept.
pub fn recent_documents(records: Vec<ComicMetadata>) -> (r: Vec<ComicMetadata>)
    ensures
        r@.len() == if records@.len() < MAX_RECENT_DOCUMENTS {
            records@.len()
        } else {
            MAX_RECENT_DOCUMENTS as nat
        },
        newest_first(r@),
        r@.to_multiset().subset_of(records@.to_multiset()),
        r@.len() > 0 ==> forall|x: ComicMetadata|
            records@.to_multiset().count(x) > r@.to_multiset().count(x)
                ==> x.last_time_opened <= r@.last().last_time_opened,
{
    broadcast use vstd::seq_lib::group_to_multiset_ensures;
    broadcast use vstd::multiset::group_multiset_axioms;

    let ghost all = records@;
    let mut rest = records;
    let mut out: Vec<ComicMetadata> = Vec::new();
    while rest.len() > 0
        invariant
            newest_first(out@),
            out@.to_multiset().add(rest@.to_multiset()) == all.to_multiset(),
            out@.len() + rest@.len() == all.len(),
        decreases rest@.len(),
    {
        let ghost before_rest = rest@;
        let x = rest.pop().unwrap();
        proof {
            assert(before_rest =~= rest@.push(x));
        }
        let mut p: usize = 0;
        while p < out.len() && out[p].last_time_opened >= x.last_time_opened
            invariant
                p <= out@.len(),
                forall|j: int| 0 <= j < p ==> #[trigger] out@[j].last_time_opened >= x.last_time_opened,
            decreases out@.len() - p,
        {
            p += 1;
        }
        let ghost before = out@;
        out.insert(p, x);
        proof {
            vstd::seq_lib::to_multiset_insert(before, p as int, x);
            rest@.to_multiset_ensures();
            assert forall|a: int, b: int| 0 <= a < b < out@.len() implies #[trigger] out@[a].last_time_opened
                >= #[trigger] out@[b].last_time_opened by {
                if a == p {
                    assert(out@[b] == before[b - 1]);
                    if b - 1 > p {
                        assert(before[p as int].last_time_opened >= before[b - 1].last_time_opened);
                    }
                } else if b == p {
                    assert(out@[a] == before[a]);
                } else {
                    let a0 = if a < p { a } else { a - 1 };
                    let b0 = if b < p { b } else { b - 1 };
                    assert(out@[a] == before[a0]);
                    assert(out@[b] == before[b0]);
                }
            }
        }
    }
    let ghost sorted = out@;
    let keep = if out.len() < MAX_RECENT_DOCUMENTS { out.len() } else { MAX_RECENT_DOCUMENTS };
    out.truncate(keep);
    proof {
        let rest_s = sorted.subrange(keep as int, sorted.len() as int);
        assert(sorted =~= out@ + rest_s);
        lemma_multiset_commutative(out@, rest_s);
        assert(rest@.len() == 0);
        assert(rest@.to_multiset() =~= vstd::multiset::Multiset::empty());
        assert(sorted.to_multiset() == all.to_multiset());
        if out@.len() > 0 {
            assert forall|x: ComicMetadata|
                all.to_multiset().count(x) > out@.to_multiset().count(x) implies x.last_time_opened
                <= out@.last().last_time_opened by {
                assert(rest_s.to_multiset().count(x) > 0);
                rest_s.to_multiset_ensures();
                assert(rest_s.contains(x));
                let j = choose|j: int| 0 <= j < rest_s.len() && rest_s[j] == x;
                assert(sorted[keep - 1].last_time_opened >= sorted[keep + j].last_time_opened);
            }
        }
    }
    out
}

} // verus!
