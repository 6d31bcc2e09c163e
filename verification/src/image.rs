//! The memory image: what is known of the target's address space, and of the modules loaded
//! into it. Everything else sees the target through it.
//!
//! An image is a list of regions and a list of module records. A read is answered by the
//! first region that covers the whole request; a request that no region covers is out of
//! range.

use vstd::prelude::*;
use vstd::slice::slice_subrange;
use crate::named::{find_named, first_named, Named, names_of};
use crate::text::copy_bytes;

verus! {

/// Why a read was not answered with bytes. Each variant names the span that was asked for.
#[derive(Clone, Copy, PartialEq, Eq, Debug, Structural)]
pub enum AccessError {
    /// Nothing is mapped there, or the span leaves the address space. A span of no bytes
    /// stands for an address that was never read: a null pointer, or a sum that overflowed.
    OutOfRange { addr: u64, len: u64 },
    /// The target refused the read.
    Denied { addr: u64, len: u64 },
}

/// A span of the target's address space and what a read of it gave.
#[derive(Debug)]
pub enum Region {
    /// Bytes as they were read, starting at `base`.
    Mapped { base: u64, bytes: Vec<u8> },
    /// `len` bytes from `base` on that could not be read.
    Unreadable { base: u64, len: u64, denied: bool },
}

pub enum RegionView {
    Mapped { base: u64, bytes: Seq<u8> },
    Unreadable { base: u64, len: u64, denied: bool },
}

impl View for Region {
    type V = RegionView;

    open spec fn view(&self) -> RegionView {
        match *self {
            Region::Mapped { base, bytes } => RegionView::Mapped { base, bytes: bytes@ },
            Region::Unreadable { base, len, denied } => RegionView::Unreadable {
                base,
                len,
                denied,
            },
        }
    }
}

impl RegionView {
    pub open spec fn start(self) -> int {
        match self {
            RegionView::Mapped { base, .. } => base as int,
            RegionView::Unreadable { base, .. } => base as int,
        }
    }

    pub open spec fn span(self) -> int {
        match self {
            RegionView::Mapped { bytes, .. } => bytes.len() as int,
            RegionView::Unreadable { len, .. } => len as int,
        }
    }

    /// Whether the region holds all of the `len` bytes from `addr` on.
    pub open spec fn covers(self, addr: u64, len: nat) -> bool {
        self.start() <= addr && addr + len <= self.start() + self.span()
    }

    /// What a covered read of `len` bytes at `addr` gives.
    pub open spec fn answer(self, addr: u64, len: nat) -> Result<Seq<u8>, AccessError> {
        match self {
            RegionView::Mapped { base, bytes } => Ok(
                bytes.subrange(addr - base, addr - base + len),
            ),
            RegionView::Unreadable { denied, .. } => if denied {
                Err(AccessError::Denied { addr, len: len as u64 })
            } else {
                Err(AccessError::OutOfRange { addr, len: len as u64 })
            },
        }
    }
}

impl Region {
    /// What the region, which covers the request, answers.
    fn answer(&self, addr: u64, len: usize) -> (answer: Result<Vec<u8>, AccessError>)
        requires
            self@.covers(addr, len as nat),
        ensures
            match answer {
                Ok(bytes) => self@.answer(addr, len as nat) == Ok::<Seq<u8>, AccessError>(bytes@),
                Err(e) => self@.answer(addr, len as nat) == Err::<Seq<u8>, AccessError>(e),
            },
    {
        match self {
            Region::Mapped { base, bytes } => {
                let size = bytes.len();
                let start = (addr - *base) as usize;
                assert(start + len <= size);
                let part = slice_subrange(bytes.as_slice(), start, start + len);
                Ok(copy_bytes(part))
            },
            Region::Unreadable { denied, .. } => {
                if *denied {
                    Err(AccessError::Denied { addr, len: len as u64 })
                } else {
                    Err(AccessError::OutOfRange { addr, len: len as u64 })
                }
            },
        }
    }

    /// Whether the region holds all of the `len` bytes from `addr` on.
    pub fn holds(&self, addr: u64, len: u64) -> (held: bool)
        ensures
            held == self@.covers(addr, len as nat),
    {
        match self {
            Region::Mapped { base, bytes } => *base <= addr && addr - *base <= bytes.len() as u64
                && len <= bytes.len() as u64 - (addr - *base),
            Region::Unreadable { base, len: span, .. } => *base <= addr && addr - *base <= *span
                && len <= *span - (addr - *base),
        }
    }
}

pub open spec fn region_views(regions: Seq<Region>) -> Seq<RegionView> {
    Seq::new(regions.len(), |i: int| regions[i]@)
}

/// The first region from `from` on that covers the `len` bytes at `addr`.
pub open spec fn first_covering(regions: Seq<RegionView>, addr: u64, len: nat, from: int)
    -> Option<int>
    decreases regions.len() - from,
{
    if from < 0 || from >= regions.len() {
        None
    } else if regions[from].covers(addr, len) {
        Some(from)
    } else {
        first_covering(regions, addr, len, from + 1)
    }
}

/// A symbol that a module exports.
#[derive(Debug)]
pub struct Export {
    pub name: Vec<u8>,
    pub address: u64,
}

pub struct ExportView {
    pub name: Seq<u8>,
    pub address: u64,
}

impl View for Export {
    type V = ExportView;

    open spec fn view(&self) -> ExportView {
        ExportView { name: self.name@, address: self.address }
    }
}

impl Named for Export {
    open spec fn name_bytes(&self) -> Seq<u8> {
        self.name@
    }

    fn name(&self) -> (name: &Vec<u8>) {
        &self.name
    }
}

pub open spec fn export_views(exports: Seq<Export>) -> Seq<ExportView> {
    Seq::new(exports.len(), |i: int| exports[i]@)
}

pub open spec fn export_names(exports: Seq<ExportView>) -> Seq<Seq<u8>> {
    Seq::new(exports.len(), |i: int| exports[i].name)
}

/// A module loaded into the target.
#[derive(Debug)]
pub struct ModuleRecord {
    pub name: Vec<u8>,
    pub base: u64,
    pub size: u64,
    pub exports: Vec<Export>,
}

pub struct ModuleRecordView {
    pub name: Seq<u8>,
    pub base: u64,
    pub size: u64,
    pub exports: Seq<ExportView>,
}

impl View for ModuleRecord {
    type V = ModuleRecordView;

    open spec fn view(&self) -> ModuleRecordView {
        ModuleRecordView {
            name: self.name@,
            base: self.base,
            size: self.size,
            exports: export_views(self.exports@),
        }
    }
}

impl Named for ModuleRecord {
    open spec fn name_bytes(&self) -> Seq<u8> {
        self.name@
    }

    fn name(&self) -> (name: &Vec<u8>) {
        &self.name
    }
}

impl ModuleRecordView {
    /// The address of the first export called `symbol`.
    pub open spec fn export(self, symbol: Seq<u8>) -> Option<u64> {
        match first_named(export_names(self.exports), symbol) {
            Some(i) => Some(self.exports[i].address),
            None => None,
        }
    }
}

impl ModuleRecord {
    /// The address of the export called `symbol`.
    pub fn export(&self, symbol: &[u8]) -> (address: Option<u64>)
        ensures
            address == self@.export(symbol@),
    {
        assert(names_of(self.exports@) =~= export_names(self@.exports));
        match find_named(&self.exports, symbol) {
            Some(i) => Some(self.exports[i].address),
            None => None,
        }
    }
}

pub open spec fn record_views(records: Seq<ModuleRecord>) -> Seq<ModuleRecordView> {
    Seq::new(records.len(), |i: int| records[i]@)
}

pub open spec fn record_names(records: Seq<ModuleRecordView>) -> Seq<Seq<u8>> {
    Seq::new(records.len(), |i: int| records[i].name)
}

/// What is known of the target.
#[derive(Debug)]
pub struct MemoryImage {
    /// Whether the target could be reached at all when the image was taken.
    pub available: bool,
    pub modules: Vec<ModuleRecord>,
    pub regions: Vec<Region>,
}

pub struct ImageView {
    pub available: bool,
    pub modules: Seq<ModuleRecordView>,
    pub regions: Seq<RegionView>,
}

impl View for MemoryImage {
    type V = ImageView;

    open spec fn view(&self) -> ImageView {
        ImageView {
            available: self.available,
            modules: record_views(self.modules@),
            regions: region_views(self.regions@),
        }
    }
}

impl ImageView {
    /// The image with `region` recorded behind its regions.
    pub open spec fn with_region(self, region: RegionView) -> ImageView {
        ImageView { regions: self.regions.push(region), ..self }
    }

    /// Whether some region covers the `len` bytes at `addr`, readable or not.
    pub open spec fn knows(self, addr: u64, len: nat) -> bool {
        first_covering(self.regions, addr, len, 0) is Some
    }

    /// What a read of `len` bytes at `addr` gives.
    pub open spec fn read(self, addr: u64, len: nat) -> Result<Seq<u8>, AccessError> {
        match first_covering(self.regions, addr, len, 0) {
            Some(i) => self.regions[i].answer(addr, len),
            None => Err(AccessError::OutOfRange { addr, len: len as u64 }),
        }
    }

    /// The first module called `name`.
    pub open spec fn find_module(self, name: Seq<u8>) -> Option<ModuleRecordView> {
        match first_named(record_names(self.modules), name) {
            Some(i) => Some(self.modules[i]),
            None => None,
        }
    }
}

/// The first region that covers a request is a region of the list, and covers it.
pub proof fn lemma_first_covering(regions: Seq<RegionView>, addr: u64, len: nat, from: int)
    requires
        0 <= from,
    ensures
        match first_covering(regions, addr, len, from) {
            Some(i) => from <= i < regions.len() && regions[i].covers(addr, len),
            None => forall|k: int| from <= k < regions.len() ==> !regions[k].covers(addr, len),
        },
    decreases regions.len() - from,
{
    if from < regions.len() && !regions[from].covers(addr, len) {
        lemma_first_covering(regions, addr, len, from + 1);
    }
}

/// A read that succeeds gives as many bytes as were asked for.
pub proof fn lemma_read_len(image: ImageView, addr: u64, len: nat)
    ensures
        image.read(addr, len) matches Ok(bytes) ==> bytes.len() == len,
{
    lemma_first_covering(image.regions, addr, len, 0);
}

impl MemoryImage {
    /// An image of a reachable target of which nothing is known yet.
    pub fn new() -> (image: MemoryImage)
        ensures
            image@ == (ImageView { available: true, modules: Seq::empty(), regions: Seq::empty() }),
    {
        let image = MemoryImage { available: true, modules: Vec::new(), regions: Vec::new() };
        assert(image@.modules =~= Seq::empty());
        assert(image@.regions =~= Seq::empty());
        image
    }

    /// The module called `name`.
    pub fn find_module(&self, name: &[u8]) -> (record: Option<&ModuleRecord>)
        ensures
            match record {
                Some(r) => self@.find_module(name@) == Some(r@),
                None => self@.find_module(name@) is None,
            },
    {
        assert(names_of(self.modules@) =~= record_names(self@.modules));
        match find_named(&self.modules, name) {
            Some(i) => Some(&self.modules[i]),
            None => None,
        }
    }

    /// Reads `len` bytes at `addr`.
    pub fn read(&self, addr: u64, len: usize) -> (answer: Result<Vec<u8>, AccessError>)
        ensures
            match answer {
                Ok(bytes) => self@.read(addr, len as nat) == Ok::<Seq<u8>, AccessError>(bytes@),
                Err(e) => self@.read(addr, len as nat) == Err::<Seq<u8>, AccessError>(e),
            },
    {
        let mut i: usize = 0;
        while i < self.regions.len()
            invariant
                i <= self.regions@.len(),
                first_covering(self@.regions, addr, len as nat, i as int) == first_covering(
                    self@.regions,
                    addr,
                    len as nat,
                    0,
                ),
            decreases self.regions@.len() - i,
        {
            assert(self@.regions[i as int] == self.regions@[i as int]@);
            if self.regions[i].holds(addr, len as u64) {
                return self.regions[i].answer(addr, len);
            }
            i += 1;
        }
        Err(AccessError::OutOfRange { addr, len: len as u64 })
    }

    /// Whether some region covers the `len` bytes at `addr`.
    pub fn knows(&self, addr: u64, len: u64) -> (known: bool)
        ensures
            known == self@.knows(addr, len as nat),
    {
        let mut i: usize = 0;
        while i < self.regions.len()
            invariant
                i <= self.regions@.len(),
                first_covering(self@.regions, addr, len as nat, i as int) == first_covering(
                    self@.regions,
                    addr,
                    len as nat,
                    0,
                ),
            decreases self.regions@.len() - i,
        {
            assert(self@.regions[i as int] == self.regions@[i as int]@);
            if self.regions[i].holds(addr, len) {
                return true;
            }
            i += 1;
        }
        false
    }

    /// Records a module of the target, behind those already recorded.
    pub fn record_module(&mut self, record: ModuleRecord)
        ensures
            final(self)@ == (ImageView {
                modules: old(self)@.modules.push(record@),
                ..old(self)@
            }),
    {
        self.modules.push(record);
        assert(self@.modules =~= old(self)@.modules.push(record@));
        assert(self@.regions =~= old(self)@.regions);
    }

    /// Records bytes that were read at `base`, behind the regions already recorded.
    pub fn record_bytes(&mut self, base: u64, bytes: Vec<u8>)
        ensures
            final(self)@ == old(self)@.with_region(RegionView::Mapped { base, bytes: bytes@ }),
    {
        self.regions.push(Region::Mapped { base, bytes });
        assert(self@.regions =~= old(self)@.regions.push(
            RegionView::Mapped { base, bytes: bytes@ },
        ));
        assert(self@.modules =~= old(self)@.modules);
    }

    /// Records that the `len` bytes at `base` could not be read, behind the regions already
    /// recorded.
    pub fn record_fault(&mut self, base: u64, len: u64, denied: bool)
        ensures
            final(self)@ == old(self)@.with_region(RegionView::Unreadable { base, len, denied }),
    {
        self.regions.push(Region::Unreadable { base, len, denied });
        assert(self@.regions =~= old(self)@.regions.push(
            RegionView::Unreadable { base, len, denied },
        ));
        assert(self@.modules =~= old(self)@.modules);
    }
}

/// A region recorded behind the others is found where none before it covers the request, and
/// changes nothing where one does.
pub proof fn lemma_first_covering_push(
    regions: Seq<RegionView>,
    region: RegionView,
    addr: u64,
    len: nat,
    from: int,
)
    requires
        0 <= from <= regions.len(),
    ensures
        first_covering(regions.push(region), addr, len, from) == match first_covering(
            regions,
            addr,
            len,
            from,
        ) {
            Some(i) => Some(i),
            None => if region.covers(addr, len) {
                Some(regions.len() as int)
            } else {
                None
            },
        },
    decreases regions.len() - from,
{
    let longer = regions.push(region);
    if from < regions.len() {
        assert(longer[from] == regions[from]);
        if !regions[from].covers(addr, len) {
            lemma_first_covering_push(regions, region, addr, len, from + 1);
        }
    } else {
        assert(longer[from] == region);
        assert(first_covering(longer, addr, len, from + 1) is None);
    }
}

/// What the image answered before a region was recorded, it answers after: a new region
/// never changes a read that an older region covers.
pub proof fn lemma_read_stable(image: ImageView, region: RegionView, addr: u64, len: nat)
    requires
        image.knows(addr, len),
    ensures
        image.with_region(region).read(addr, len) == image.read(addr, len),
{
    lemma_first_covering_push(image.regions, region, addr, len, 0);
    lemma_first_covering(image.regions, addr, len, 0);
    let i = first_covering(image.regions, addr, len, 0)->0;
    assert(image.regions.push(region)[i] == image.regions[i]);
}

/// Once a region that covers a request is recorded, the image knows the request.
pub proof fn lemma_recorded_is_known(image: ImageView, region: RegionView, addr: u64, len: nat)
    requires
        region.covers(addr, len),
    ensures
        image.with_region(region).knows(addr, len),
{
    lemma_first_covering_push(image.regions, region, addr, len, 0);
}

} // verus!
