use vstd::prelude::*;

use crate::error::StorageError;
use crate::ERASED_BYTE;

verus! {

/// Runtime configuration of a [`VirtualFlash`], chosen once at construction.
#[derive(Debug, Clone, Copy, PartialEq, Eq, Structural)]
pub struct FlashConfig {
    /// When set, a write may only clear bits (1 -> 0) relative to the bytes
    /// currently stored; setting a bit back requires an erase first.
    pub enforce_flash_bits: bool,
    /// When set, the I/O shell forces every write to stable storage before
    /// returning.  The in-memory device model ignores it.
    pub durable: bool,
}

/// Mathematical model of a [`VirtualFlash`]: a flat byte array split into
/// `page_count` pages of `page_size` bytes each.
#[verifier::ext_equal]
pub ghost struct FlashView {
    pub image: Seq<u8>,
    pub page_count: nat,
    pub page_size: nat,
    pub enforce_flash_bits: bool,
}

impl FlashView {
    /// The device image covers exactly its pages, back to back.
    pub open spec fn wf(self) -> bool {
        self.image.len() == self.page_count * self.page_size
    }

    /// `(page, offset, len)` addresses a byte range that lies inside one page.
    pub open spec fn in_bounds(self, page: int, offset: int, len: int) -> bool {
        &&& 0 <= page < self.page_count
        &&& 0 <= offset
        &&& 0 <= len
        &&& offset + len <= self.page_size
    }

    /// Absolute position of `offset` within `page` in the flat image.
    pub open spec fn spec_addr(self, page: int, offset: int) -> int {
        page * self.page_size + offset
    }

    /// The `len` bytes stored at `offset` within `page`.
    pub open spec fn read_spec(self, page: int, offset: int, len: int) -> Seq<u8> {
        self.image.subrange(self.spec_addr(page, offset), self.spec_addr(page, offset) + len)
    }

    /// The device after `data` is stored at `offset` within `page`; every
    /// byte outside the addressed range is unchanged.
    pub open spec fn write_spec(self, page: int, offset: int, data: Seq<u8>) -> FlashView {
        let base = self.spec_addr(page, offset);
        FlashView {
            image: Seq::new(
                self.image.len(),
                |i: int|
                    if base <= i < base + data.len() {
                        data[i - base]
                    } else {
                        self.image[i]
                    },
            ),
            ..self
        }
    }

    /// The device after `page` is erased: the whole page reads as
    /// `ERASED_BYTE`, every other page is unchanged.
    pub open spec fn erase_spec(self, page: int) -> FlashView {
        self.write_spec(page, 0, Seq::new(self.page_size, |i: int| ERASED_BYTE))
    }

    /// Storing `data` at `offset` within `page` would need to set at least
    /// one bit that is currently cleared.
    pub open spec fn write_violates(self, page: int, offset: int, data: Seq<u8>) -> bool {
        let base = self.spec_addr(page, offset);
        exists|i: int|
            0 <= i < data.len() && (self.image[base + i] & data[i]) != data[i]
    }
}

/// A fresh device image: every byte in the erased state.
pub open spec fn fresh_image(page_count: nat, page_size: nat) -> Seq<u8> {
    Seq::new(page_count * page_size, |i: int| ERASED_BYTE)
}

/// An emulated NOR-flash device: a fixed grid of fixed-size pages held as
/// one contiguous byte array.  Addressing is purely arithmetic
/// (`page * page_size + offset`); there is no page table or metadata.
///
/// The device itself is an in-memory model; an unverified shell persists the
/// image to a backing file and hands it back in at construction.
pub struct VirtualFlash {
    image: Vec<u8>,
    page_count: usize,
    page_size: usize,
    enforce_flash_bits: bool,
}

impl View for VirtualFlash {
    type V = FlashView;

    closed spec fn view(&self) -> FlashView {
        FlashView {
            image: self.image@,
            page_count: self.page_count as nat,
            page_size: self.page_size as nat,
            enforce_flash_bits: self.enforce_flash_bits,
        }
    }
}

impl VirtualFlash {
    /// A fresh device of `page_count` pages of `page_size` bytes, fully
    /// erased.
    pub fn new(page_count: usize, page_size: usize, config: FlashConfig) -> (r: VirtualFlash)
        requires
            page_count * page_size <= usize::MAX,
        ensures
            r@.wf(),
            r@.page_count == page_count,
            r@.page_size == page_size,
            r@.enforce_flash_bits == config.enforce_flash_bits,
            r@.image == fresh_image(page_count as nat, page_size as nat),
    {
        let total = page_count * page_size;
        let image = vec![ERASED_BYTE; total];
        proof {
            assert(image@ =~= fresh_image(page_count as nat, page_size as nat));
        }
        VirtualFlash { image, page_count, page_size, enforce_flash_bits: config.enforce_flash_bits }
    }

    /// Adopts `existing` as the device image when its size matches
    /// `page_count * page_size` exactly; any mismatch (including no prior
    /// image at all) reinitializes the device to the erased state.  The
    /// operation never partially initializes: the result is either the prior
    /// content, whole, or a fully erased image.
    pub fn open_or_create(
        existing: Option<Vec<u8>>,
        page_count: usize,
        page_size: usize,
        config: FlashConfig,
    ) -> (r: VirtualFlash)
        requires
            page_count * page_size <= usize::MAX,
        ensures
            r@.wf(),
            r@.page_count == page_count,
            r@.page_size == page_size,
            r@.enforce_flash_bits == config.enforce_flash_bits,
            match existing {
                Option::Some(content) => if content@.len() == page_count * page_size {
                    r@.image == content@
                } else {
                    r@.image == fresh_image(page_count as nat, page_size as nat)
                },
                Option::None => r@.image == fresh_image(page_count as nat, page_size as nat),
            },
    {
        let total = page_count * page_size;
        match existing {
            Option::Some(content) => {
                if content.len() == total {
                    VirtualFlash {
                        image: content,
                        page_count,
                        page_size,
                        enforce_flash_bits: config.enforce_flash_bits,
                    }
                } else {
                    Self::new(page_count, page_size, config)
                }
            },
            Option::None => Self::new(page_count, page_size, config),
        }
    }

    /// The fixed page count; no failure mode.
    pub fn page_count(&self) -> (r: usize)
        ensures
            r == self@.page_count,
    {
        self.page_count
    }

    /// The fixed page size; no failure mode.
    pub fn page_size(&self) -> (r: usize)
        ensures
            r == self@.page_size,
    {
        self.page_size
    }

    /// The raw device image, for the I/O shell to persist.
    pub fn image(&self) -> (r: &Vec<u8>)
        ensures
            r@ == self@.image,
    {
        &self.image
    }

    /// True exactly when `(page, offset, len)` addresses a byte range inside
    /// one page.  The mutating operations require this; callers that cannot
    /// establish it statically check here first.
    pub fn ensure_bounds(&self, page: usize, offset: usize, len: usize) -> (r: bool)
        ensures
            r == self@.in_bounds(page as int, offset as int, len as int),
    {
        page < self.page_count && offset <= self.page_size && len <= self.page_size - offset
    }

    /// Absolute position of `offset` within `page` in the flat image.
    fn addr(&self, page: usize, offset: usize) -> (r: usize)
        requires
            self@.wf(),
            page < self@.page_count,
            offset <= self@.page_size,
        ensures
            r == self@.spec_addr(page as int, offset as int),
            r + self@.page_size - offset <= self@.image.len(),
    {
        proof {
            lemma_page_start_bound(
                self@.page_count as int,
                self@.page_size as int,
                page as int,
            );
            vstd::std_specs::vec::axiom_spec_len(&self.image);
        }
        page * self.page_size + offset
    }

    /// Fills `len` bytes starting at flat position `start` with the erased
    /// byte value.
    fn write_ff_range(&mut self, start: usize, len: usize)
        requires
            start + len <= old(self)@.image.len(),
        ensures
            final(self)@.image.len() == old(self)@.image.len(),
            final(self)@.page_count == old(self)@.page_count,
            final(self)@.page_size == old(self)@.page_size,
            final(self)@.enforce_flash_bits == old(self)@.enforce_flash_bits,
            forall|j: int|
                start <= j < start + len ==> final(self)@.image[j] == ERASED_BYTE,
            forall|j: int|
                0 <= j < final(self)@.image.len() && !(start <= j < start + len)
                    ==> final(self)@.image[j] == old(self)@.image[j],
    {
        proof {
            vstd::std_specs::vec::axiom_spec_len(&self.image);
        }
        let mut i: usize = 0;
        while i < len
            invariant
                i <= len,
                start + len <= self@.image.len(),
                self@.image.len() <= usize::MAX,
                self@.image.len() == old(self)@.image.len(),
                self@.page_count == old(self)@.page_count,
                self@.page_size == old(self)@.page_size,
                self@.enforce_flash_bits == old(self)@.enforce_flash_bits,
                forall|j: int| start <= j < start + i ==> self@.image[j] == ERASED_BYTE,
                forall|j: int|
                    0 <= j < self@.image.len() && !(start <= j < start + i)
                        ==> self@.image[j] == old(self)@.image[j],
            decreases len - i,
        {
            self.image[start + i] = ERASED_BYTE;
            i += 1;
        }
    }

    /// Fills the whole of `page` with the erased byte value; all other pages
    /// keep their content.
    pub fn erase(&mut self, page: usize)
        requires
            old(self)@.wf(),
            page < old(self)@.page_count,
        ensures
            final(self)@.wf(),
            final(self)@ == old(self)@.erase_spec(page as int),
    {
        let start = self.addr(page, 0);
        let ghost pre = self@;
        self.write_ff_range(start, self.page_size);
        proof {
            assert(self@.image =~= pre.erase_spec(page as int).image);
            assert(self@ =~= pre.erase_spec(page as int));
        }
    }

    /// Copies the bytes stored at `offset` within `page` into `data`,
    /// filling it completely; `data` keeps its length.
    pub fn read(&self, page: usize, offset: usize, data: &mut Vec<u8>)
        requires
            self@.wf(),
            self@.in_bounds(page as int, offset as int, old(data)@.len() as int),
        ensures
            final(data)@.len() == old(data)@.len(),
            final(data)@ == self@.read_spec(page as int, offset as int, old(data)@.len() as int),
    {
        let pos = self.addr(page, offset);
        let len = data.len();
        proof {
            vstd::std_specs::vec::axiom_spec_len(&self.image);
        }
        let mut i: usize = 0;
        while i < len
            invariant
                i <= len,
                data@.len() == len,
                self@.wf(),
                self@.in_bounds(page as int, offset as int, len as int),
                pos == self@.spec_addr(page as int, offset as int),
                pos + len <= self@.image.len(),
                self@.image.len() <= usize::MAX,
                forall|j: int| 0 <= j < i ==> data@[j] == self@.image[pos + j],
            decreases len - i,
        {
            let b = self.image[pos + i];
            data[i] = b;
            i += 1;
        }
        proof {
            assert(data@ =~= self@.read_spec(page as int, offset as int, len as int));
        }
    }

    /// Stores `data` at `offset` within `page`; every byte outside the
    /// addressed range keeps its value.
    ///
    /// Under flash-bit enforcement the current bytes are compared first:
    /// if storing `data` would set any bit that is presently cleared the
    /// write is refused with `FlashBitViolation` and the device is left
    /// untouched.  Enforcement off, or no such bit, and the write succeeds.
    pub fn write(&mut self, page: usize, offset: usize, data: &[u8]) -> (r: Result<
        (),
        StorageError,
    >)
        requires
            old(self)@.wf(),
            old(self)@.in_bounds(page as int, offset as int, data@.len() as int),
        ensures
            final(self)@.wf(),
            final(self)@.page_count == old(self)@.page_count,
            final(self)@.page_size == old(self)@.page_size,
            final(self)@.enforce_flash_bits == old(self)@.enforce_flash_bits,
            match r {
                Result::Ok(u) => {
                    &&& final(self)@ == old(self)@.write_spec(page as int, offset as int, data@)
                    &&& !(old(self)@.enforce_flash_bits && old(self)@.write_violates(
                        page as int,
                        offset as int,
                        data@,
                    ))
                },
                Result::Err(e) => {
                    &&& e == StorageError::FlashBitViolation
                    &&& old(self)@.enforce_flash_bits
                    &&& old(self)@.write_violates(page as int, offset as int, data@)
                    &&& final(self)@ == old(self)@
                },
            },
    {
        let pos = self.addr(page, offset);
        let len = data.len();
        proof {
            vstd::std_specs::vec::axiom_spec_len(&self.image);
        }
        if self.enforce_flash_bits {
            let mut i: usize = 0;
            while i < len
                invariant
                    i <= len,
                    len == data@.len(),
                    self == old(self),
                    self@.wf(),
                    pos == self@.spec_addr(page as int, offset as int),
                    pos + len <= self@.image.len(),
                    self@.image.len() <= usize::MAX,
                    self@.enforce_flash_bits,
                    forall|j: int|
                        0 <= j < i ==> (self@.image[pos + j] & data@[j]) == data@[j],
                decreases len - i,
            {
                let old_b = self.image[pos + i];
                let new_b = data[i];
                if (old_b & new_b) != new_b {
                    return Result::Err(StorageError::FlashBitViolation);
                }
                i += 1;
            }
        }
        let ghost pre = self@;
        let mut i: usize = 0;
        while i < len
            invariant
                i <= len,
                len == data@.len(),
                self@.image.len() == pre.image.len(),
                self@.page_count == pre.page_count,
                self@.page_size == pre.page_size,
                self@.enforce_flash_bits == pre.enforce_flash_bits,
                pos == pre.spec_addr(page as int, offset as int),
                pos + len <= pre.image.len(),
                pre.image.len() <= usize::MAX,
                forall|j: int| 0 <= j < i ==> self@.image[pos + j] == data@[j],
                forall|j: int|
                    0 <= j < self@.image.len() && !(pos <= j < pos + i)
                        ==> self@.image[j] == pre.image[j],
            decreases len - i,
        {
            self.image[pos + i] = data[i];
            i += 1;
        }
        proof {
            assert(self@.image =~= pre.write_spec(page as int, offset as int, data@).image);
            assert(self@ =~= pre.write_spec(page as int, offset as int, data@));
        }
        Result::Ok(())
    }
}

/// Pages are disjoint: a page's bytes end no later than the image does.
proof fn lemma_page_start_bound(page_count: int, page_size: int, page: int)
    requires
        0 <= page < page_count,
        0 <= page_size,
    ensures
        page * page_size + page_size <= page_count * page_size,
{
    assert(page * page_size + page_size <= page_count * page_size) by (nonlinear_arith)
        requires
            0 <= page < page_count,
            0 <= page_size,
    ;
}

/// Writing a range and reading it back returns the written bytes unchanged.
pub proof fn lemma_write_then_read(v: FlashView, page: int, offset: int, data: Seq<u8>)
    requires
        v.wf(),
        v.in_bounds(page, offset, data.len() as int),
    ensures
        v.write_spec(page, offset, data).read_spec(page, offset, data.len() as int) == data,
{
    lemma_page_start_bound(v.page_count as int, v.page_size as int, page);
    assert(v.write_spec(page, offset, data).read_spec(page, offset, data.len() as int) =~= data);
}

/// Reading a whole page right after erasing it returns `page_size` bytes
/// that all equal the erased byte value.
pub proof fn lemma_erase_then_read(v: FlashView, page: int)
    requires
        v.wf(),
        0 <= page < v.page_count,
    ensures
        v.erase_spec(page).read_spec(page, 0, v.page_size as int) == Seq::new(
            v.page_size,
            |i: int| ERASED_BYTE,
        ),
{
    lemma_page_start_bound(v.page_count as int, v.page_size as int, page);
    assert(v.erase_spec(page).read_spec(page, 0, v.page_size as int) =~= Seq::new(
        v.page_size,
        |i: int| ERASED_BYTE,
    ));
}

/// A write within a freshly erased page can never violate the flash-bit
/// rule: every stored byte is fully set, so any byte may be written.
pub proof fn lemma_write_after_erase_never_violates(
    v: FlashView,
    page: int,
    offset: int,
    data: Seq<u8>,
)
    requires
        v.wf(),
        v.in_bounds(page, offset, data.len() as int),
    ensures
        !v.erase_spec(page).write_violates(page, offset, data),
{
    lemma_page_start_bound(v.page_count as int, v.page_size as int, page);
    let erased = v.erase_spec(page);
    let base = erased.spec_addr(page, offset);
    assert forall|i: int| 0 <= i < data.len() implies (erased.image[base + i] & data[i])
        == data[i] by {
        assert(erased.image[base + i] == ERASED_BYTE);
        let b = data[i];
        assert((ERASED_BYTE & b) == b) by (bit_vector);
    }
}

} // verus!
