//! Pages and blocks of memory.

use crate::gguf::types::{blocks_for, div_ceil};
use vstd::prelude::*;

verus! {

/// Where memory lies.
#[derive(Debug, Clone, Copy, PartialEq, Eq, Hash, Structural)]
pub enum MemRegion {
    Host,
    Device,
    /// Shared by host and device.
    Unified,
}

impl MemRegion {
    pub fn name(&self) -> (r: &'static str)
        ensures
            r@ == self.spec_name(),
    {
        match self {
            MemRegion::Host => "host",
            MemRegion::Device => "device",
            MemRegion::Unified => "unified",
        }
    }

    pub open spec fn spec_name(self) -> Seq<char> {
        match self {
            MemRegion::Host => "host"@,
            MemRegion::Device => "device"@,
            MemRegion::Unified => "unified"@,
        }
    }
}

/// One page.
#[derive(Debug, Clone, Copy, PartialEq, Eq, Structural)]
pub struct MemoryPage {
    pub id: u64,
    pub size: usize,
    pub region: MemRegion,
    /// Offset in the block.
    pub offset: usize,
    pub ref_count: usize,
}

impl MemoryPage {
    /// A page at offset zero with one reference.
    pub fn new(id: u64, size: usize, region: MemRegion) -> (r: Self)
        ensures
            r == (MemoryPage { id, size, region, offset: 0, ref_count: 1 }),
    {
        MemoryPage { id, size, region, offset: 0, ref_count: 1 }
    }
}

/// A contiguous allocation, cut into pages.
#[derive(Debug)]
pub struct MemoryBlock {
    pub name: String,
    pub pages: Vec<MemoryPage>,
    pub total_size: usize,
    pub region: MemRegion,
}

/// A block with its collections as sequences.
#[verifier::ext_equal]
pub struct BlockView {
    pub name: Seq<char>,
    pub pages: Seq<MemoryPage>,
    pub total_size: usize,
    pub region: MemRegion,
}

impl View for MemoryBlock {
    type V = BlockView;

    open spec fn view(&self) -> BlockView {
        BlockView {
            name: self.name@,
            pages: self.pages@,
            total_size: self.total_size,
            region: self.region,
        }
    }
}

/// The bytes of a page, in every region.
pub const PAGE_SIZE: usize = 4096;

/// Page `i` of a block: full, but for what is left over in the last one.
pub open spec fn page_of(size: usize, region: MemRegion, i: int) -> MemoryPage {
    let n = div_ceil(size as nat, PAGE_SIZE as nat);
    MemoryPage {
        id: i as u64,
        size: (if i == n - 1 && size % PAGE_SIZE != 0 {
            size % PAGE_SIZE
        } else {
            PAGE_SIZE
        }) as usize,
        region,
        offset: (PAGE_SIZE * i) as usize,
        ref_count: 1,
    }
}

/// A new block: as many pages as its size takes, one behind the other.
pub open spec fn block_of(name: Seq<char>, size: usize, region: MemRegion) -> BlockView {
    BlockView {
        name,
        pages: Seq::new(
            div_ceil(size as nat, PAGE_SIZE as nat),
            |i: int| page_of(size, region, i),
        ),
        total_size: size,
        region,
    }
}

impl BlockView {
    /// The block with one more reference to each page.
    pub open spec fn shared(self) -> BlockView {
        BlockView {
            pages: self.pages.map_values(
                |p: MemoryPage| MemoryPage { ref_count: (p.ref_count + 1) as usize, ..p },
            ),
            ..self
        }
    }

    /// The block with one reference less to each page that has one.
    pub open spec fn unshared(self) -> BlockView {
        BlockView { pages: self.pages.map_values(|p: MemoryPage| one_less(p)), ..self }
    }

    /// No page is referred to.
    pub open spec fn unused(self) -> bool {
        forall|i: int| 0 <= i < self.pages.len() ==> (#[trigger] self.pages[i]).ref_count == 0
    }

    /// The references to the first page.
    pub open spec fn refs(self) -> int {
        if self.pages.len() > 0 {
            self.pages[0].ref_count as int
        } else {
            0
        }
    }
}

/// A page with one reference less, if it has one.
pub open spec fn one_less(p: MemoryPage) -> MemoryPage {
    MemoryPage {
        ref_count: (if p.ref_count > 0 {
            p.ref_count - 1
        } else {
            0
        }) as usize,
        ..p
    }
}

impl Clone for MemoryBlock {
    fn clone(&self) -> (r: Self)
        ensures
            r@ == self@,
    {
        let r = MemoryBlock {
            name: self.name.clone(),
            pages: self.pages.clone(),
            total_size: self.total_size,
            region: self.region,
        };
        assert(r@ =~= self@);
        r
    }
}

impl MemoryBlock {
    pub fn new(name: &str, size: usize, region: MemRegion) -> (r: Self)
        ensures
            r@ == block_of(name@, size, region),
    {
        let n: usize = blocks_for(size, PAGE_SIZE);
        let mut pages: Vec<MemoryPage> = Vec::new();
        let mut i: usize = 0;
        while i < n
            invariant
                i <= n,
                n == div_ceil(size as nat, PAGE_SIZE as nat),
                pages@ == Seq::new(i as nat, |i: int| page_of(size, region, i)),
            decreases n - i,
        {
            let mut page = MemoryPage::new(
                i as u64,
                if i == n - 1 && size % PAGE_SIZE != 0 {
                    size % PAGE_SIZE
                } else {
                    PAGE_SIZE
                },
                region,
            );
            page.offset = PAGE_SIZE * i;
            pages.push(page);
            i += 1;
            assert(pages@ =~= Seq::new(i as nat, |i: int| page_of(size, region, i)));
        }
        MemoryBlock { name: name.to_string(), pages, total_size: size, region }
    }

    pub fn num_pages(&self) -> (r: usize)
        ensures
            r == self.pages@.len(),
    {
        self.pages.len()
    }

    /// Adds a reference to every page.
    pub fn add_ref(&mut self)
        requires
            forall|i: int|
                0 <= i < old(self).pages@.len() ==> (#[trigger] old(self).pages@[i]).ref_count
                    < usize::MAX,
        ensures
            final(self)@ == old(self)@.shared(),
    {
        let mut i: usize = 0;
        let n: usize = self.pages.len();
        while i < n
            invariant
                i <= n,
                n == self.pages@.len(),
                n == old(self).pages@.len(),
                self.name == old(self).name,
                self.total_size == old(self).total_size,
                self.region == old(self).region,
                forall|j: int|
                    0 <= j < n ==> (#[trigger] old(self).pages@[j]).ref_count < usize::MAX,
                forall|j: int| i <= j < n ==> #[trigger] self.pages@[j] == old(self).pages@[j],
                forall|j: int|
                    0 <= j < i ==> #[trigger] self.pages@[j] == old(self)@.shared().pages[j],
            decreases n - i,
        {
            let mut page = self.pages[i];
            assert(page == old(self).pages@[i as int]);
            page.ref_count = page.ref_count + 1;
            self.pages.set(i, page);
            i += 1;
        }
        assert(self@ =~= old(self)@.shared());
    }

    /// Takes a reference off every page. Says whether none is left.
    pub fn release(&mut self) -> (r: bool)
        ensures
            final(self)@ == old(self)@.unshared(),
            r == old(self)@.unshared().unused(),
    {
        let mut all_zero = true;
        let mut i: usize = 0;
        let n: usize = self.pages.len();
        while i < n
            invariant
                i <= n,
                n == self.pages@.len(),
                n == old(self).pages@.len(),
                self.name == old(self).name,
                self.total_size == old(self).total_size,
                self.region == old(self).region,
                forall|j: int| i <= j < n ==> #[trigger] self.pages@[j] == old(self).pages@[j],
                forall|j: int|
                    0 <= j < i ==> #[trigger] self.pages@[j] == old(self)@.unshared().pages[j],
                all_zero == forall|j: int|
                    0 <= j < i ==> (#[trigger] old(self)@.unshared().pages[j]).ref_count == 0,
            decreases n - i,
        {
            let mut page = self.pages[i];
            assert(page == old(self).pages@[i as int]);
            page.ref_count = page.ref_count.saturating_sub(1);
            self.pages.set(i, page);
            assert(page == old(self)@.unshared().pages[i as int]);
            if page.ref_count > 0 {
                all_zero = false;
            }
            i += 1;
        }
        assert(self@ =~= old(self)@.unshared());
        all_zero
    }
}

/// The sizes of leading pages together.
pub open spec fn page_bytes(pages: Seq<MemoryPage>) -> nat
    decreases pages.len(),
{
    if pages.len() == 0 {
        0
    } else {
        page_bytes(pages.drop_last()) + pages.last().size as nat
    }
}

/// The pages of a new block hold exactly its bytes, and each starts where the one
/// ahead of it ends.
pub proof fn pages_cover_block(name: Seq<char>, size: usize, region: MemRegion, n: nat)
    requires
        n <= block_of(name, size, region).pages.len(),
    ensures
        ({
            let pages = block_of(name, size, region).pages;
            &&& n < pages.len() ==> pages[n as int].offset == page_bytes(pages.take(n as int))
            &&& n == pages.len() ==> page_bytes(pages) == size
        }),
    decreases n,
{
    let pages = block_of(name, size, region).pages;
    if n > 0 {
        pages_cover_block(name, size, region, (n - 1) as nat);
        assert(pages.take(n as int).drop_last() =~= pages.take(n - 1));
        assert(n == pages.len() ==> pages.take(n as int) =~= pages);
    }
}

/// A block that was shared and released again is as it was.
pub proof fn release_undoes_share(b: BlockView)
    requires
        forall|i: int| 0 <= i < b.pages.len() ==> (#[trigger] b.pages[i]).ref_count < usize::MAX,
    ensures
        b.shared().unshared() == b,
{
    assert(b.shared().unshared().pages =~= b.pages);
}

} // verus!
