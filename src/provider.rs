use vstd::prelude::*;
use crate::chunk::Chunk;
use crate::fifo::{holds_key, inserted, FifoCache};
use crate::image::GrayImage;
use crate::listing::{names_sorted, page_entries, page_files};
use crate::segment::{get_chunks_from_image, page_chunks};

verus! {

/// How many decoded pages a provider keeps resident.
pub const PAGE_CACHE_CAPACITY: usize = 3;

/// What the file system reports a document path to be.
#[derive(Clone, Copy, Debug, PartialEq, Eq, Structural)]
pub enum PathKind {
    Missing,
    File,
    Directory,
}

/// Why a document could not be opened.
#[derive(Clone, Copy, Debug, PartialEq, Eq, Structural)]
pub enum ProviderError {
    /// The backend cannot read the document at this path.
    CannotOpen,
    /// No backend claims the path.
    NoSuitableProvider,
}

/// The page a chunk index falls on: `ends[p]` is one past the last chunk
/// produced by pages `0..=p`. Every chunk lies on a page already indexed,
/// pages in order, and the last end is the number of chunks.
pub open spec fn index_valid(chunks: Seq<Chunk>, ends: Seq<usize>) -> bool {
    &&& (ends.len() == 0 ==> chunks.len() == 0)
    &&& (ends.len() > 0 ==> ends[ends.len() - 1] == chunks.len())
    &&& forall|p: int| 0 <= p < ends.len() ==> #[trigger] ends[p] <= chunks.len()
    &&& forall|i: int, p: int|
        0 <= i < chunks.len() && 0 <= p < ends.len() ==> (i < #[trigger] ends[p] <==> #[trigger] chunks[i].texture_index <= p)
}

/// Chunks in page order, each from a page below `pages`.
pub open spec fn cache_usable(chunks: Seq<Chunk>, pages: nat) -> bool {
    &&& forall|i: int| 0 <= i < chunks.len() ==> #[trigger] chunks[i].texture_index < pages
    &&& forall|i: int, j: int|
        0 <= i < j < chunks.len() ==> #[trigger] chunks[i].texture_index <= #[trigger] chunks[j].texture_index
}

/// How many pages a stored chunk list accounts for: up to the page of its last chunk.
pub open spec fn pages_covered(chunks: Seq<Chunk>) -> nat {
    if chunks.len() == 0 {
        0
    } else {
        (chunks.last().texture_index + 1) as nat
    }
}

/// The chunk count a provider reports: exact once every page is segmented,
/// otherwise the chunks so far plus one placeholder while pages remain.
pub open spec fn reported_count(chunks: nat, pages_indexed: nat, page_count: nat) -> nat {
    if pages_indexed == page_count {
        chunks
    } else if page_count > 0 {
        chunks + 1
    } else {
        0
    }
}

/// Whether a stored chunk list is usable for a document of `pages` pages.
fn cache_fits(chunks: &Vec<Chunk>, pages: usize) -> (r: bool)
    ensures
        r == cache_usable(chunks@, pages as nat),
{
    let mut i: usize = 0;
    while i < chunks.len()
        invariant
            i <= chunks@.len(),
            forall|a: int| 0 <= a < i ==> #[trigger] chunks@[a].texture_index < pages,
            forall|a: int, b: int|
                0 <= a < b < i ==> #[trigger] chunks@[a].texture_index <= #[trigger] chunks@[b].texture_index,
        decreases chunks@.len() - i,
    {
        if chunks[i].texture_index >= pages {
            return false;
        }
        if i > 0 && chunks[i - 1].texture_index > chunks[i].texture_index {
            assert(!(chunks@[i - 1].texture_index <= chunks@[i as int].texture_index));
            return false;
        }
        proof {
            assert forall|a: int, b: int| 0 <= a < b < i + 1 implies #[trigger] chunks@[a].texture_index
                <= #[trigger] chunks@[b].texture_index by {
                if b == i && a < i - 1 {
                    assert(chunks@[a].texture_index <= chunks@[i - 1].texture_index);
                }
            }
        }
        i += 1;
    }
    true
}

/// The page ends of a chunk list in page order covering pages `0..pages`.
fn page_ends_of(chunks: &Vec<Chunk>, pages: usize) -> (r: Vec<usize>)
    requires
        forall|i: int| 0 <= i < chunks@.len() ==> #[trigger] chunks@[i].texture_index < pages,
        forall|a: int, b: int|
            0 <= a < b < chunks@.len() ==> #[trigger] chunks@[a].texture_index <= #[trigger] chunks@[b].texture_index,
    ensures
        index_valid(chunks@, r@),
        r@.len() == pages,
{
    let n = chunks.len();
    let mut ends: Vec<usize> = Vec::new();
    let mut j: usize = 0;
    let mut p: usize = 0;
    while p < pages
        invariant
            n == chunks@.len(),
            p <= pages,
            j <= n,
            ends@.len() == p,
            p > 0 ==> ends@[p - 1] == j,
            forall|i: int| 0 <= i < j ==> #[trigger] chunks@[i].texture_index < p,
            forall|i: int| j <= i < n ==> #[trigger] chunks@[i].texture_index >= p,
            forall|q: int| 0 <= q < p ==> #[trigger] ends@[q] <= j,
            forall|i: int, q: int|
                0 <= i < n && 0 <= q < p ==> (i < #[trigger] ends@[q] <==> #[trigger] chunks@[i].texture_index <= q),
            forall|i: int| 0 <= i < chunks@.len() ==> #[trigger] chunks@[i].texture_index < pages,
            forall|a: int, b: int|
                0 <= a < b < chunks@.len() ==> #[trigger] chunks@[a].texture_index <= #[trigger] chunks@[b].texture_index,
        decreases pages - p,
    {
        let ghost j0 = j;
        while j < n && chunks[j].texture_index <= p
            invariant
                n == chunks@.len(),
                j0 <= j <= n,
                forall|i: int| 0 <= i < j ==> #[trigger] chunks@[i].texture_index <= p,
                forall|i: int| j <= i < n ==> #[trigger] chunks@[i].texture_index >= p,
            decreases n - j,
        {
            j += 1;
        }
        proof {
            assert forall|i: int| j <= i < n implies #[trigger] chunks@[i].texture_index > p by {
                assert(chunks@[j as int].texture_index <= chunks@[i].texture_index);
            }
        }
        ends.push(j);
        p += 1;
    }
    proof {
        if n > 0 {
            assert(chunks@[0].texture_index < pages);
            if j < n {
                assert(chunks@[j as int].texture_index < pages);
            }
        }
    }
    ends
}

/// A count as a `usize`, saturating at `usize::MAX`.
pub open spec fn capped(n: nat) -> usize {
    if n > usize::MAX {
        usize::MAX
    } else {
        n as usize
    }
}

/// A document backend reading a directory of page images. Pages are
/// segmented strictly in order, one at a time, as they are first decoded.
pub struct DirChunkProvider<P> {
    document_path: Option<String>,
    files: Vec<String>,
    chunks: Vec<Chunk>,
    /// For each segmented page, one past the index of its last chunk.
    chunk_index: Vec<usize>,
    images: FifoCache<P>,
    last_queried_chunk: usize,
}

impl<P> DirChunkProvider<P> {
    /// The path of the open document, if one is open.
    pub closed spec fn document(&self) -> Option<Seq<char>> {
        match self.document_path {
            Some(p) => Some(p@),
            None => None,
        }
    }

    /// The page files of the open document, in reading order.
    pub closed spec fn pages(&self) -> Seq<String> {
        self.files@
    }

    /// Every chunk found so far, in reading order.
    pub closed spec fn chunk_list(&self) -> Seq<Chunk> {
        self.chunks@
    }

    /// How many pages, from the first, have been segmented.
    pub closed spec fn pages_indexed(&self) -> nat {
        self.chunk_index@.len()
    }

    /// The ends of each segmented page's chunks.
    pub closed spec fn page_ends(&self) -> Seq<usize> {
        self.chunk_index@
    }

    /// The decoded pages resident in the cache, oldest loaded first.
    pub closed spec fn cached_pages(&self) -> Seq<(usize, P)> {
        self.images@
    }

    pub closed spec fn last_queried(&self) -> usize {
        self.last_queried_chunk
    }

    /// The state right after opening the document at `path` with directory
    /// listing `entries` and stored chunk list `cached`.
    pub open spec fn opened_as(
        &self,
        path: Seq<char>,
        entries: Seq<String>,
        cached: Option<Vec<Chunk>>,
    ) -> bool {
        &&& self.document() == Some(path)
        &&& names_sorted(self.pages())
        &&& self.pages().to_multiset() == page_entries(entries).to_multiset()
        &&& self.cached_pages().len() == 0
        &&& self.last_queried() == 0
        &&& match cached {
            Some(c) => if cache_usable(c@, self.pages().len()) {
                &&& self.chunk_list() == c@
                &&& self.pages_indexed() == pages_covered(c@)
            } else {
                &&& self.chunk_list().len() == 0
                &&& self.pages_indexed() == 0
            },
            None => {
                &&& self.chunk_list().len() == 0
                &&& self.pages_indexed() == 0
            },
        }
    }

    pub closed spec fn wf(&self) -> bool {
        &&& self.images.wf()
        &&& self.images.spec_capacity() == PAGE_CACHE_CAPACITY
        &&& self.chunk_index@.len() <= self.files@.len()
        &&& index_valid(self.chunks@, self.chunk_index@)
    }

    pub fn new() -> (r: DirChunkProvider<P>)
        ensures
            r.wf(),
            r.document() is None,
            r.pages().len() == 0,
            r.chunk_list().len() == 0,
            r.pages_indexed() == 0,
            r.cached_pages().len() == 0,
            r.last_queried() == 0,
    {
        DirChunkProvider {
            document_path: None,
            files: Vec::new(),
            chunks: Vec::new(),
            chunk_index: Vec::new(),
            images: FifoCache::new(PAGE_CACHE_CAPACITY),
            last_queried_chunk: 0,
        }
    }

    /// Every page has been segmented.
    pub fn done_processing(&self) -> (r: bool)
        ensures
            r == (self.pages_indexed() == self.pages().len()),
    {
        self.chunk_index.len() == self.files.len()
    }

    /// The number of chunks known, plus one placeholder while pages remain
    /// to be segmented.
    pub fn chunk_count(&self) -> (r: usize)
        ensures
            r == capped(reported_count(self.chunk_list().len(), self.pages_indexed(), self.pages().len())),
    {
        if self.done_processing() {
            self.chunks.len()
        } else if self.files.len() > 0 {
            if self.chunks.len() < usize::MAX {
                self.chunks.len() + 1
            } else {
                usize::MAX
            }
        } else {
            0
        }
    }

    /// The chunk at `index`, if it is known yet. The index is remembered as
    /// the reading position.
    pub fn get_chunk(&mut self, index: usize) -> (r: Option<Chunk>)
        requires
            old(self).wf(),
        ensures
            final(self).wf(),
            r == (if index < old(self).chunk_list().len() {
                Some(old(self).chunk_list()[index as int])
            } else {
                None
            }),
            final(self).last_queried() == index,
            final(self).document() == old(self).document(),
            final(self).pages() == old(self).pages(),
            final(self).chunk_list() == old(self).chunk_list(),
            final(self).pages_indexed() == old(self).pages_indexed(),
            final(self).page_ends() == old(self).page_ends(),
            final(self).cached_pages() == old(self).cached_pages(),
    {
        self.last_queried_chunk = index;
        if index < self.chunks.len() {
            Some(self.chunks[index])
        } else {
            None
        }
    }

    /// The page whose segmentation may make chunk `index` known: the next
    /// page not yet segmented, when `index` lies beyond the chunks found.
    pub fn page_needed_for(&self, index: usize) -> (r: Option<usize>)
        ensures
            r == (if index >= self.chunk_list().len() && self.pages_indexed() < self.pages().len() {
                Some(self.pages_indexed() as usize)
            } else {
                None
            }),
    {
        if index >= self.chunks.len() && self.chunk_index.len() < self.files.len() {
            Some(self.chunk_index.len())
        } else {
            None
        }
    }

    /// The file holding page `index`.
    pub fn page_file(&self, index: usize) -> (r: Option<&String>)
        ensures
            r == (if index < self.pages().len() {
                Some(&self.pages()[index as int])
            } else {
                None
            }),
    {
        if index < self.files.len() {
            Some(&self.files[index])
        } else {
            None
        }
    }

    /// The number of pages in the open document.
    pub fn page_count(&self) -> (r: usize)
        ensures
            r == self.pages().len(),
    {
        self.files.len()
    }

    /// Page `index` must be decoded before it can be handed out.
    pub fn page_missing(&self, index: usize) -> (r: bool)
        ensures
            r == (index < self.pages().len() && !holds_key(self.cached_pages(), index)),
    {
        index < self.files.len() && !self.images.contains_key(index)
    }

    /// The decoded page `index`, if it is resident.
    pub fn get_image(&self, index: usize) -> (r: Option<&P>)
        requires
            self.wf(),
        ensures
            r is None <==> !holds_key(self.cached_pages(), index),
            forall|i: int|
                0 <= i < self.cached_pages().len() && #[trigger] self.cached_pages()[i].0 == index
                    ==> r == Some(&self.cached_pages()[i].1),
    {
        self.images.get(index)
    }

    /// The chunks of segmented page `page`, as a range of chunk indices.
    pub fn page_chunk_range(&self, page: usize) -> (r: Option<(usize, usize)>)
        requires
            self.wf(),
        ensures
            page >= self.pages_indexed() ==> r is None,
            page < self.pages_indexed() ==> r == Some((
                if page == 0 { 0usize } else { self.page_ends()[page - 1] },
                self.page_ends()[page as int],
            )),
            r matches Some((lo, hi)) ==> lo <= hi <= self.chunk_list().len() && forall|i: int|
                lo <= i < hi ==> #[trigger] self.chunk_list()[i].texture_index == page,
    {
        if page >= self.chunk_index.len() {
            return None;
        }
        let hi = self.chunk_index[page];
        let lo = if page == 0 { 0 } else { self.chunk_index[page - 1] };
        proof {
            if page > 0 {
                if lo > hi {
                    assert(self.chunks@[hi as int].texture_index <= page - 1);
                    assert(!(self.chunks@[hi as int].texture_index <= page));
                }
            }
            assert forall|i: int| lo <= i < hi implies #[trigger] self.chunks@[i].texture_index == page by {
                assert(self.chunks@[i].texture_index <= page);
                if page > 0 {
                    assert(!(self.chunks@[i].texture_index <= page - 1));
                }
            }
        }
        Some((lo, hi))
    }

    /// The index of the chunk last asked for.
    pub fn last_queried_chunk(&self) -> (r: usize)
        ensures
            r == self.last_queried(),
    {
        self.last_queried_chunk
    }

    /// Appends the chunks of the next page to segment, `page`.
    fn index_page(&mut self, page: usize, found: Vec<Chunk>)
        requires
            old(self).wf(),
            page == old(self).pages_indexed(),
            page < old(self).pages().len(),
            forall|i: int| 0 <= i < found@.len() ==> #[trigger] found@[i].texture_index == page,
        ensures
            final(self).wf(),
            final(self).chunk_list() == old(self).chunk_list() + found@,
            final(self).pages_indexed() == old(self).pages_indexed() + 1,
            final(self).document() == old(self).document(),
            final(self).pages() == old(self).pages(),
            final(self).cached_pages() == old(self).cached_pages(),
            final(self).last_queried() == old(self).last_queried(),
    {
        let ghost old_chunks = self.chunks@;
        let ghost old_ends = self.chunk_index@;
        let mut k: usize = 0;
        while k < found.len()
            invariant
                k <= found@.len(),
                self.chunks@ == old_chunks + found@.take(k as int),
                self.chunk_index@ == old_ends,
                self.files == old(self).files,
                self.document_path == old(self).document_path,
                self.images == old(self).images,
                self.last_queried_chunk == old(self).last_queried_chunk,
                self.files@.len() > page,
                forall|i: int| 0 <= i < found@.len() ==> #[trigger] found@[i].texture_index == page,
            decreases found@.len() - k,
        {
            self.chunks.push(found[k]);
            assert(found@.take(k + 1) =~= found@.take(k as int).push(found@[k as int]));
            k += 1;
        }
        assert(found@.take(found@.len() as int) =~= found@);
        let n = self.chunks.len();
        self.chunk_index.push(n);
        proof {
            let chunks = self.chunks@;
            let ends = self.chunk_index@;
            let m = old_chunks.len();
            assert forall|i: int, p: int|
                0 <= i < chunks.len() && 0 <= p < ends.len() implies (i < #[trigger] ends[p] <==> #[trigger] chunks[i].texture_index <= p) by {
                if i < m {
                    assert(chunks[i] == old_chunks[i]);
                    if p < old_ends.len() {
                        assert(ends[p] == old_ends[p]);
                    } else {
                        assert(i < old_ends[old_ends.len() - 1]);
                    }
                } else {
                    assert(chunks[i] == found@[i - m]);
                    if p < old_ends.len() {
                        assert(ends[p] == old_ends[p]);
                    }
                }
            }
            assert forall|p: int| 0 <= p < ends.len() implies #[trigger] ends[p] <= chunks.len() by {
                if p < old_ends.len() {
                    assert(ends[p] == old_ends[p]);
                }
            }
        }
    }

    /// Stores decoded page `index`, with its luminance `luma`. When it is the
    /// next page to segment, its chunks are found and appended, tagged with
    /// the page's index. The cache keeps `PAGE_CACHE_CAPACITY` pages and
    /// evicts the one loaded first. A page outside the document is ignored.
    pub fn insert_page(&mut self, index: usize, page: P, luma: &GrayImage)
        requires
            old(self).wf(),
        ensures
            final(self).wf(),
            final(self).document() == old(self).document(),
            final(self).pages() == old(self).pages(),
            final(self).last_queried() == old(self).last_queried(),
            index >= old(self).pages().len() ==> {
                &&& final(self).chunk_list() == old(self).chunk_list()
                &&& final(self).pages_indexed() == old(self).pages_indexed()
                &&& final(self).cached_pages() == old(self).cached_pages()
            },
            index < old(self).pages().len() ==> final(self).cached_pages() == inserted(
                old(self).cached_pages(),
                PAGE_CACHE_CAPACITY as nat,
                index,
                page,
            ),
            index < old(self).pages().len() && index == old(self).pages_indexed() ==> {
                &&& final(self).chunk_list() == old(self).chunk_list() + page_chunks(luma@, index)
                &&& final(self).pages_indexed() == old(self).pages_indexed() + 1
            },
            index < old(self).pages().len() && index != old(self).pages_indexed() ==> {
                &&& final(self).chunk_list() == old(self).chunk_list()
                &&& final(self).pages_indexed() == old(self).pages_indexed()
            },
    {
        if index >= self.files.len() {
            return;
        }
        if index == self.chunk_index.len() {
            let mut found = get_chunks_from_image(luma);
            let ghost base = found@;
            let mut k: usize = 0;
            while k < found.len()
                invariant
                    k <= found@.len(),
                    found@.len() == base.len(),
                    base == page_chunks(luma@, 0),
                    forall|i: int| 0 <= i < k ==> #[trigger] found@[i] == (Chunk { texture_index: index, ..base[i] }),
                    forall|i: int| k <= i < found@.len() ==> #[trigger] found@[i] == base[i],
                decreases found@.len() - k,
            {
                let mut c = found[k];
                c.texture_index = index;
                found.set(k, c);
                k += 1;
            }
            assert(found@ =~= page_chunks(luma@, index));
            self.index_page(index, found);
        }
        self.images.insert(index, page);
    }

    /// Records that page `index` could not be decoded: when it is the next
    /// page to segment, it counts as segmented with no chunks, so that
    /// processing goes on with the following pages.
    pub fn skip_page(&mut self, index: usize)
        requires
            old(self).wf(),
        ensures
            final(self).wf(),
            final(self).document() == old(self).document(),
            final(self).pages() == old(self).pages(),
            final(self).cached_pages() == old(self).cached_pages(),
            final(self).last_queried() == old(self).last_queried(),
            final(self).chunk_list() == old(self).chunk_list(),
            final(self).pages_indexed() == if index < old(self).pages().len() && index
                == old(self).pages_indexed() {
                old(self).pages_indexed() + 1
            } else {
                old(self).pages_indexed()
            },
    {
        if index < self.files.len() && index == self.chunk_index.len() {
            self.index_page(index, Vec::new());
            assert(self.chunks@ =~= old(self).chunks@);
        }
    }

    /// This backend reads directories.
    pub fn can_open(&self, kind: PathKind) -> (r: bool)
        ensures
            r == (kind == PathKind::Directory),
    {
        kind == PathKind::Directory
    }

    /// Opens the directory at `path`, whose listing is `entries`. Its pages
    /// are the entries named `*.jpg` or `*.png`, in byte order of their
    /// names. A usable stored chunk list (in page order, each chunk on a page
    /// of the document) is taken as the chunks of the pages it covers, which
    /// are then not segmented again; otherwise segmentation starts from the
    /// first page. Anything but a directory is refused, and nothing changes.
    pub fn open(
        &mut self,
        path: &str,
        kind: PathKind,
        entries: Vec<String>,
        cached_chunks: Option<Vec<Chunk>>,
    ) -> (r: Result<(), ProviderError>)
        requires
            old(self).wf(),
        ensures
            final(self).wf(),
            kind != PathKind::Directory ==> r == Err::<(), ProviderError>(ProviderError::CannotOpen)
                && *final(self) == *old(self),
            kind == PathKind::Directory ==> r is Ok && final(self).opened_as(path@, entries@, cached_chunks),
    {
        if kind != PathKind::Directory {
            return Err(ProviderError::CannotOpen);
        }
        self.files = page_files(entries);
        self.images.clear();
        self.last_queried_chunk = 0;
        self.chunks = Vec::new();
        self.chunk_index = Vec::new();
        if let Some(chunks) = cached_chunks {
            if cache_fits(&chunks, self.files.len()) {
                let covered = if chunks.len() == 0 {
                    0
                } else {
                    chunks[chunks.len() - 1].texture_index + 1
                };
                self.chunk_index = page_ends_of(&chunks, covered);
                self.chunks = chunks;
            }
        }
        self.document_path = Some(path.to_string());
        Ok(())
    }

    /// Closes the open document: pages, chunks and cached images are
    /// dropped. Nothing happens when no document is open.
    pub fn unload(&mut self)
        requires
            old(self).wf(),
        ensures
            final(self).wf(),
            old(self).document() is None ==> *final(self) == *old(self),
            old(self).document() is Some ==> {
                &&& final(self).document() is None
                &&& final(self).pages().len() == 0
                &&& final(self).chunk_list().len() == 0
                &&& final(self).pages_indexed() == 0
                &&& final(self).cached_pages().len() == 0
                &&& final(self).last_queried() == old(self).last_queried()
            },
    {
        if self.document_path.is_none() {
            return;
        }
        self.files = Vec::new();
        self.images.clear();
        self.chunks = Vec::new();
        self.chunk_index = Vec::new();
        self.document_path = None;
    }

    /// A copy of every chunk found so far, in reading order.
    pub fn all_chunks(&self) -> (r: Vec<Chunk>)
        ensures
            r@ == self.chunk_list(),
    {
        let mut out: Vec<Chunk> = Vec::new();
        let mut i: usize = 0;
        while i < self.chunks.len()
            invariant
                i <= self.chunks@.len(),
                out@ == self.chunks@.take(i as int),
            decreases self.chunks@.len() - i,
        {
            out.push(self.chunks[i]);
            assert(self.chunks@.take(i + 1) =~= self.chunks@.take(i as int).push(self.chunks@[i as int]));
            i += 1;
        }
        assert(self.chunks@.take(self.chunks@.len() as int) =~= self.chunks@);
        out
    }
}

impl<P> Default for DirChunkProvider<P> {
    fn default() -> (r: DirChunkProvider<P>)
        ensures
            r.wf(),
            r.document() is None,
            r.pages().len() == 0,
            r.chunk_list().len() == 0,
            r.pages_indexed() == 0,
            r.cached_pages().len() == 0,
            r.last_queried() == 0,
    {
        DirChunkProvider::new()
    }
}

/// Pages are segmented strictly in order: whatever was asked of a provider,
/// the pages that have produced chunks are a prefix `0..k` of the document
/// (`k` the pages segmented), and the chunks run page by page in page order.
pub proof fn lemma_segmented_prefix<P>(provider: DirChunkProvider<P>)
    requires
        provider.wf(),
    ensures
        provider.pages_indexed() <= provider.pages().len(),
        forall|i: int|
            0 <= i < provider.chunk_list().len() ==> #[trigger] provider.chunk_list()[i].texture_index
                < provider.pages_indexed(),
        forall|i: int, j: int|
            0 <= i < j < provider.chunk_list().len() ==> #[trigger] provider.chunk_list()[i].texture_index
                <= #[trigger] provider.chunk_list()[j].texture_index,
{
    let chunks = provider.chunk_list();
    let ends = provider.page_ends();
    assert forall|i: int| 0 <= i < chunks.len() implies #[trigger] chunks[i].texture_index
        < provider.pages_indexed() by {
        assert(i < ends[ends.len() - 1]);
    }
    assert forall|i: int, j: int| 0 <= i < j < chunks.len() implies #[trigger] chunks[i].texture_index
        <= #[trigger] chunks[j].texture_index by {
        let q = chunks[j].texture_index as int;
        assert(i < ends[ends.len() - 1]);
        assert(j < ends[q]);
        assert(i < ends[q]);
    }
}

} // verus!
