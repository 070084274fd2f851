use vstd::prelude::*;
use crate::chunk::Chunk;
use crate::fifo::holds_key;
use crate::provider::{capped, reported_count, DirChunkProvider, PathKind, ProviderError};

verus! {

/// Holds the document backends in order of preference, opens a document
/// with the first one that claims its path, and forwards everything else to
/// the backend that opened the current document.
pub struct MetaProvider<P> {
    providers: Vec<DirChunkProvider<P>>,
    current_provider_index: usize,
}

impl<P> MetaProvider<P> {
    /// The backends, in order of preference.
    pub closed spec fn backends(&self) -> Seq<DirChunkProvider<P>> {
        self.providers@
    }

    pub closed spec fn current_index(&self) -> nat {
        self.current_provider_index as nat
    }

    /// The backend in use.
    pub open spec fn active(&self) -> DirChunkProvider<P> {
        self.backends()[self.current_index() as int]
    }

    pub closed spec fn wf(&self) -> bool {
        &&& self.current_provider_index < self.providers@.len()
        &&& forall|i: int| 0 <= i < self.providers@.len() ==> #[trigger] self.providers@[i].wf()
    }

    /// A registry of the one backend there is: directories of page images.
    pub fn new() -> (r: MetaProvider<P>)
        ensures
            r.wf(),
            r.backends().len() == 1,
            r.current_index() == 0,
            r.active().document() is None,
            r.active().chunk_list().len() == 0,
            r.active().pages().len() == 0,
            r.active().pages_indexed() == 0,
    {
        let mut providers: Vec<DirChunkProvider<P>> = Vec::new();
        providers.push(DirChunkProvider::new());
        MetaProvider { providers, current_provider_index: 0 }
    }

    pub fn current_provider(&self) -> (r: &DirChunkProvider<P>)
        requires
            self.wf(),
        ensures
            *r == self.active(),
            r.wf(),
    {
        &self.providers[self.current_provider_index]
    }

    /// The backend in use, to load pages into.
    pub fn current_provider_mut(&mut self) -> (r: &mut DirChunkProvider<P>)
        requires
            old(self).wf(),
        ensures
            *r == old(self).active(),
            r.wf(),
            final(self).current_index() == old(self).current_index(),
            final(self).backends() == old(self).backends().update(
                old(self).current_index() as int,
                *final(r),
            ),
    {
        let i = self.current_provider_index;
        &mut self.providers[i]
    }

    /// Some backend can open a path of this kind.
    pub fn can_open(&self, kind: PathKind) -> (r: bool)
        requires
            self.wf(),
        ensures
            r == (kind == PathKind::Directory),
    {
        let mut i: usize = 0;
        while i < self.providers.len()
            invariant
                self.wf(),
                i <= self.providers@.len(),
                i > 0 ==> kind != PathKind::Directory,
            decreases self.providers@.len() - i,
        {
            if self.providers[i].can_open(kind) {
                return true;
            }
            i += 1;
        }
        assert(self.providers@[0].wf());
        false
    }

    /// Opens the document at `path` with the first backend that claims it,
    /// which becomes the backend in use. When none does, nothing changes and
    /// the error says so.
    pub fn open(
        &mut self,
        path: &str,
        kind: PathKind,
        entries: Vec<String>,
        cached_chunks: Option<Vec<Chunk>>,
    ) -> (r: Result<(), ProviderError>)
        requires
            old(self).wf(),
        ensures
            final(self).wf(),
            kind != PathKind::Directory ==> r == Err::<(), ProviderError>(
                ProviderError::NoSuitableProvider,
            ) && *final(self) == *old(self),
            kind == PathKind::Directory ==> {
                &&& r is Ok
                &&& final(self).current_index() == 0
                &&& final(self).active().opened_as(path@, entries@, cached_chunks)
                &&& forall|i: int|
                    0 < i < final(self).backends().len() ==> #[trigger] final(self).backends()[i]
                        == old(self).backends()[i]
            },
    {
        let mut index: usize = 0;
        while index < self.providers.len() && !self.providers[index].can_open(kind)
            invariant
                old(self).wf(),
                *self == *old(self),
                index <= self.providers@.len(),
                index > 0 ==> kind != PathKind::Directory,
            decreases self.providers@.len() - index,
        {
            index += 1;
        }
        if index >= self.providers.len() {
            assert(self.providers@[0].wf());
            return Err(ProviderError::NoSuitableProvider);
        }
        self.current_provider_index = index;
        let r = self.providers[index].open(path, kind, entries, cached_chunks);
        proof {
            assert forall|i: int| 0 <= i < self.providers@.len() implies #[trigger] self.providers@[i].wf() by {
                if i != index {
                    assert(self.providers@[i] == old(self).providers@[i]);
                }
            }
        }
        r
    }

    /// The reading position's chunk, if known yet; see `DirChunkProvider::get_chunk`.
    pub fn get_chunk(&mut self, index: usize) -> (r: Option<Chunk>)
        requires
            old(self).wf(),
        ensures
            final(self).wf(),
            r == (if index < old(self).active().chunk_list().len() {
                Some(old(self).active().chunk_list()[index as int])
            } else {
                None
            }),
            final(self).current_index() == old(self).current_index(),
            final(self).active().last_queried() == index,
            final(self).active().document() == old(self).active().document(),
            final(self).active().pages() == old(self).active().pages(),
            final(self).active().chunk_list() == old(self).active().chunk_list(),
            final(self).active().pages_indexed() == old(self).active().pages_indexed(),
            final(self).active().cached_pages() == old(self).active().cached_pages(),
    {
        let i = self.current_provider_index;
        let r = self.providers[i].get_chunk(index);
        proof {
            assert forall|k: int| 0 <= k < self.providers@.len() implies #[trigger] self.providers@[k].wf() by {
                if k != i {
                    assert(self.providers@[k] == old(self).providers@[k]);
                }
            }
        }
        r
    }

    pub fn chunk_count(&self) -> (r: usize)
        requires
            self.wf(),
        ensures
            r == capped(reported_count(
                self.active().chunk_list().len(),
                self.active().pages_indexed(),
                self.active().pages().len(),
            )),
    {
        self.providers[self.current_provider_index].chunk_count()
    }

    pub fn done_processing(&self) -> (r: bool)
        requires
            self.wf(),
        ensures
            r == (self.active().pages_indexed() == self.active().pages().len()),
    {
        self.providers[self.current_provider_index].done_processing()
    }

    pub fn get_image(&self, index: usize) -> (r: Option<&P>)
        requires
            self.wf(),
        ensures
            r is None <==> !holds_key(self.active().cached_pages(), index),
            forall|i: int|
                0 <= i < self.active().cached_pages().len() && #[trigger] self.active().cached_pages()[i].0
                    == index ==> r == Some(&self.active().cached_pages()[i].1),
    {
        self.providers[self.current_provider_index].get_image(index)
    }

    /// Closes the current document, if one is open.
    pub fn unload(&mut self)
        requires
            old(self).wf(),
        ensures
            final(self).wf(),
            final(self).current_index() == old(self).current_index(),
            old(self).active().document() is None ==> final(self).backends() == old(self).backends(),
            old(self).active().document() is Some ==> {
                &&& final(self).active().document() is None
                &&& final(self).active().pages().len() == 0
                &&& final(self).active().chunk_list().len() == 0
                &&& final(self).active().pages_indexed() == 0
                &&& final(self).active().cached_pages().len() == 0
            },
    {
        let i = self.current_provider_index;
        self.providers[i].unload();
        proof {
            if old(self).active().document() is None {
                assert(self.providers@ =~= old(self).providers@);
            }
            assert forall|k: int| 0 <= k < self.providers@.len() implies #[trigger] self.providers@[k].wf() by {
                if k != i {
                    assert(self.providers@[k] == old(self).providers@[k]);
                }
            }
        }
    }
}

} // verus!
