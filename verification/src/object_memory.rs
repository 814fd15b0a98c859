//! A memory over a loaded executable: its writable segments copied out and writable, its
//! other segments read from the file, a stack at `0x3000_0000`, and memory-mapped devices.

use vstd::prelude::*;

use object::{Object, ObjectSegment};

use crate::isa::Fault;
use crate::le::{
    from_le, le_bytes, lemma_from_le_small, lemma_le_bytes_small, splice, u16_from_le, u16_to_le,
    u32_from_le, u32_to_le,
};
use crate::memory::{
    device_for, device_read, device_write, dispatch_read_8, dispatch_write_8, in_span, widen16,
    widen8, AddressSpace, MMIO,
};

verus! {

pub const STACK_MEM_BASE: u32 = 0x3000_0000;

/// A loadable segment of an executable.
#[derive(Debug, Clone)]
pub struct Segment {
    /// Its address in memory.
    pub address: u64,
    /// Its size in memory.
    pub size: u64,
    /// Whether the program may write it.
    pub writable: bool,
    /// Its bytes in the file (possibly fewer than `size`), or `None` when they cannot be read.
    pub data: Option<Vec<u8>>,
}

/// A segment as plain values: address, size, writable, bytes in the file.
pub type SegmentView = (u64, u64, bool, Option<Seq<u8>>);

impl View for Segment {
    type V = SegmentView;

    open spec fn view(&self) -> SegmentView {
        (
            self.address,
            self.size,
            self.writable,
            match self.data {
                Some(d) => Some(d@),
                None => None,
            },
        )
    }
}

/// An executable as plain values: its entry point and its segments.
#[derive(Debug, Clone)]
pub struct ObjectImage {
    pub entry: u64,
    pub segments: Vec<Segment>,
}

impl View for ObjectImage {
    type V = (u64, Seq<SegmentView>);

    open spec fn view(&self) -> (u64, Seq<SegmentView>) {
        (self.entry, self.segments@.map_values(|s: Segment| s@))
    }
}

/// What `object` reads from the bytes of an executable file, if it can read them.
pub uninterp spec fn object_image(bytes: Seq<u8>) -> Option<(u64, Seq<SegmentView>)>;

/// `object::File::parse` on the bytes of an executable file, with its entry point and its
/// segments (address, size, permission to write, file contents) copied out; a file that
/// `object` cannot parse gives `ObjectError`. What a parse gives is named, not stated.
#[verifier::external_body]
fn parse_object_file(bytes: &[u8]) -> (r: Result<ObjectImage, Fault>)
    ensures
        match r {
            Ok(img) => object_image(bytes@) == Some(img@),
            Err(e) => object_image(bytes@) is None && e == Fault::ObjectError,
        },
{
    let file = object::File::parse(bytes).map_err(|_| Fault::ObjectError)?;
    let mut segments = Vec::new();
    for s in file.segments() {
        segments.push(Segment {
            address: s.address(),
            size: s.size(),
            writable: s.permissions().writable(),
            data: s.data().ok().map(|d| d.to_vec()),
        });
    }
    Ok(ObjectImage { entry: file.entry(), segments })
}

impl ObjectImage {
    /// Reads an executable file.
    pub fn parse(bytes: &[u8]) -> (r: Result<ObjectImage, Fault>)
        ensures
            match r {
                Ok(img) => object_image(bytes@) == Some(img@),
                Err(e) => object_image(bytes@) is None && e == Fault::ObjectError,
            },
    {
        parse_object_file(bytes)
    }
}

/// A segment whose address and size are 32-bit and whose end is within the address space,
/// and which, when writable, has readable file contents.
pub open spec fn segment_ok(s: SegmentView) -> bool {
    &&& s.0 <= u32::MAX
    &&& s.1 <= u32::MAX
    &&& s.0 + s.1 <= u32::MAX
    &&& s.2 ==> s.3 is Some
}

pub open spec fn image_ok(segs: Seq<SegmentView>) -> bool {
    forall|j: int| 0 <= j < segs.len() ==> segment_ok(#[trigger] segs[j])
}

/// `d` cut or padded with zeros to `n` bytes.
pub open spec fn pad(d: Seq<u8>, n: nat) -> Seq<u8> {
    Seq::new(n, |i: int| if i < d.len() { d[i] } else { 0u8 })
}

/// The writable segments of `segs`, in order, as (start, end, bytes) with the file contents
/// padded to the segment's size.
pub open spec fn writable_of(segs: Seq<SegmentView>) -> Seq<(u32, u32, Seq<u8>)>
    decreases segs.len(),
{
    if segs.len() == 0 {
        Seq::empty()
    } else {
        let rest = writable_of(segs.drop_last());
        let s = segs.last();
        if s.2 {
            rest.push((s.0 as u32, (s.0 + s.1) as u32, pad(s.3.unwrap_or(Seq::empty()), s.1 as nat)))
        } else {
            rest
        }
    }
}

/// Whether `width` bytes at `addr` lie in `[start, end)`.
pub open spec fn hits(span: (u32, u32), addr: u32, width: u32) -> bool {
    span.0 <= addr && addr + width <= span.1
}

/// `k` is the first of `spans` that holds the access.
pub open spec fn is_first_hit(spans: Seq<(u32, u32)>, addr: u32, width: u32, k: int) -> bool {
    &&& 0 <= k < spans.len()
    &&& hits(spans[k], addr, width)
    &&& forall|j: int| 0 <= j < k ==> !hits(#[trigger] spans[j], addr, width)
}

/// The first of `spans` that holds the access, if any does.
pub open spec fn first_hit(spans: Seq<(u32, u32)>, addr: u32, width: u32) -> Option<int> {
    if exists|k: int| is_first_hit(spans, addr, width, k) {
        Some(choose|k: int| is_first_hit(spans, addr, width, k))
    } else {
        None
    }
}

/// A search through `spans` for the access does not compute `end - (width - 1)` below zero
/// for a span that it looks at.
pub open spec fn search_ok(spans: Seq<(u32, u32)>, addr: u32, width: u32) -> bool {
    forall|j: int|
        0 <= j < spans.len() && (forall|i: int| 0 <= i < j ==> !hits(#[trigger] spans[i], addr, width))
            && spans[j].0 <= addr ==> #[trigger] spans[j].1 >= width - 1
}

/// The spans of the segments of an image.
pub open spec fn segment_spans(segs: Seq<SegmentView>) -> Seq<(u32, u32)> {
    segs.map_values(|s: SegmentView| (s.0 as u32, (s.0 + s.1) as u32))
}

/// The spans of writable segments.
pub open spec fn writable_spans(ws: Seq<(u32, u32, Seq<u8>)>) -> Seq<(u32, u32)> {
    ws.map_values(|w: (u32, u32, Seq<u8>)| (w.0, w.1))
}

pub proof fn lemma_first_hit_unique(spans: Seq<(u32, u32)>, addr: u32, width: u32, k: int)
    requires
        is_first_hit(spans, addr, width, k),
    ensures
        first_hit(spans, addr, width) == Some(k),
{
    let c = choose|k: int| is_first_hit(spans, addr, width, k);
    assert(is_first_hit(spans, addr, width, c));
    if c < k {
        assert(!hits(spans[c], addr, width));
    } else if k < c {
        assert(!hits(spans[k], addr, width));
    }
}

pub proof fn lemma_first_hit_some(spans: Seq<(u32, u32)>, addr: u32, width: u32)
    ensures
        first_hit(spans, addr, width) matches Some(k) ==> is_first_hit(spans, addr, width, k),
{
}

/// A segment that ends at or above address 3, so that the search for an access of up to
/// four bytes never reaches below zero, and that, when read-only with readable contents,
/// holds its whole size in the file.
pub open spec fn segment_served(s: SegmentView) -> bool {
    &&& s.0 + s.1 >= 3
    &&& !s.2 ==> match s.3 {
        Some(d) => d.len() >= s.1,
        None => true,
    }
}

pub open spec fn image_served(segs: Seq<SegmentView>) -> bool {
    forall|j: int| 0 <= j < segs.len() ==> segment_served(#[trigger] segs[j])
}

/// An access that one of `spans` holds has a first span that holds it.
pub proof fn lemma_hit_has_first(spans: Seq<(u32, u32)>, addr: u32, width: u32, k: int)
    requires
        0 <= k < spans.len(),
        hits(spans[k], addr, width),
    ensures
        first_hit(spans, addr, width) is Some,
    decreases k,
{
    if forall|i: int| 0 <= i < k ==> !hits(#[trigger] spans[i], addr, width) {
        assert(is_first_hit(spans, addr, width, k));
    } else {
        let i = choose|i: int| 0 <= i < k && hits(#[trigger] spans[i], addr, width);
        lemma_hit_has_first(spans, addr, width, i);
    }
}

/// Of a well-formed image whose segments are served, every writable segment ends at or
/// above address 3, and the span of every writable segment of the image is among them.
pub proof fn lemma_writable_of_spans(segs: Seq<SegmentView>)
    requires
        image_ok(segs),
        image_served(segs),
    ensures
        forall|k: int| 0 <= k < writable_of(segs).len() ==> #[trigger] writable_of(segs)[k].1 >= 3,
        forall|j: int|
            0 <= j < segs.len() && (#[trigger] segs[j]).2 ==> exists|k: int|
                0 <= k < writable_of(segs).len() && #[trigger] writable_spans(writable_of(segs))[k]
                    == segment_spans(segs)[j],
    decreases segs.len(),
{
    if segs.len() > 0 {
        let rest = segs.drop_last();
        assert forall|j: int| 0 <= j < rest.len() implies segment_ok(#[trigger] rest[j]) && segment_served(rest[j]) by {
            assert(rest[j] == segs[j]);
        }
        lemma_writable_of_spans(rest);
        let ws = writable_of(segs);
        let wr = writable_of(rest);
        let s = segs.last();
        assert(segment_ok(segs[segs.len() - 1]) && segment_served(segs[segs.len() - 1]));
        assert forall|j: int|
            0 <= j < segs.len() && (#[trigger] segs[j]).2 implies exists|k: int|
                0 <= k < ws.len() && #[trigger] writable_spans(ws)[k] == segment_spans(segs)[j] by {
            if j < segs.len() - 1 {
                assert(rest[j] == segs[j]);
                let k = choose|k: int|
                    0 <= k < wr.len() && #[trigger] writable_spans(wr)[k] == segment_spans(rest)[j];
                assert(ws[k] == wr[k]);
                assert(writable_spans(ws)[k] == segment_spans(segs)[j]);
            } else {
                let k = wr.len() as int;
                assert(writable_spans(ws)[k] == segment_spans(segs)[j]);
            }
        }
        assert forall|k: int| 0 <= k < ws.len() implies #[trigger] ws[k].1 >= 3 by {
            if k < wr.len() {
                assert(ws[k] == wr[k]);
            }
        }
    }
}

/// Where an access goes.
#[derive(Debug, Clone, Copy)]
pub enum Place {
    /// Into the writable segment with this index.
    Writable(usize),
    /// Into the segment of the image with this index.
    Segment(usize),
    /// Into the stack.
    Stack,
    /// Nowhere in memory: to a device, or a fault.
    Elsewhere,
}

#[derive(Debug)]
struct WritableSegment {
    start: u32,
    end: u32,
    data: Vec<u8>,
}

/// The writable segments as (start, end, bytes).
spec fn segments_view(ws: Seq<WritableSegment>) -> Seq<(u32, u32, Seq<u8>)> {
    ws.map_values(|w: WritableSegment| (w.start, w.end, w.data@))
}

/// Sets byte `i` of segment `j`; the spans and the sizes stay.
fn set_segment_byte(ws: &mut Vec<WritableSegment>, j: usize, i: usize, value: u8)
    requires
        j < old(ws)@.len(),
        i < old(ws)@[j as int].data@.len(),
    ensures
        segments_view(final(ws)@) == segments_view(old(ws)@).update(
            j as int,
            (old(ws)@[j as int].start, old(ws)@[j as int].end, old(ws)@[j as int].data@.update(i as int, value)),
        ),
        writable_spans(segments_view(final(ws)@)) == writable_spans(segments_view(old(ws)@)),
        forall|k: int|
            0 <= k < final(ws)@.len() ==> (#[trigger] final(ws)@[k]).data@.len() == old(ws)@[k].data@.len(),
{
    let ghost w0 = ws@;
    ws[j].data.set(i, value);
    assert(segments_view(ws@) =~= segments_view(w0).update(
        j as int,
        (w0[j as int].start, w0[j as int].end, w0[j as int].data@.update(i as int, value)),
    ));
    assert(writable_spans(segments_view(ws@)) =~= writable_spans(segments_view(w0)));
}

/// The memory of a loaded executable.
#[derive(Debug)]
pub struct ObjectMemory<'stack, D: MMIO> {
    loaded: Loaded,
    stack: &'stack mut [u8],
    mmio: Vec<D>,
}

/// The executable and the writable copies of its writable segments.
#[derive(Debug)]
struct Loaded {
    object: ObjectImage,
    writable_segments: Vec<WritableSegment>,
}

impl<'stack, D: MMIO> ObjectMemory<'stack, D> {
    /// The executable.
    pub closed spec fn image(&self) -> (u64, Seq<SegmentView>) {
        self.loaded.object@
    }

    /// The writable segments as (start, end, bytes).
    pub closed spec fn writable(&self) -> Seq<(u32, u32, Seq<u8>)> {
        self.loaded.writable_segments@.map_values(|w: WritableSegment| (w.start, w.end, w.data@))
    }

    /// The bytes of the stack.
    pub closed spec fn stack_view(&self) -> Seq<u8> {
        self.stack@
    }

    /// The devices, in the order in which they are asked.
    pub closed spec fn devices(&self) -> Seq<D> {
        self.mmio@
    }

    /// Every segment of the image fits in 32 bits, each writable segment holds exactly its
    /// size in bytes and spans what the image's writable segment spans, and the stack ends
    /// within the address space.
    pub open spec fn wf(&self) -> bool {
        &&& image_ok(self.image().1)
        &&& forall|j: int|
            0 <= j < self.writable().len() ==> #[trigger] self.writable()[j].0 <= self.writable()[j].1
                && self.writable()[j].2.len() == self.writable()[j].1 - self.writable()[j].0
        &&& self.stack_view().len() <= u32::MAX - STACK_MEM_BASE
        &&& writable_spans(self.writable()) == writable_spans(writable_of(self.image().1))
    }

    #[verifier::type_invariant]
    closed spec fn inv(&self) -> bool {
        self.wf()
    }

    /// Same executable, writable segments, stack and devices.
    pub open spec fn same_as(&self, other: Self) -> bool {
        &&& self.image() == other.image()
        &&& self.writable() == other.writable()
        &&& self.stack_view() == other.stack_view()
        &&& self.devices() == other.devices()
    }

    /// Where a read of `width` bytes at `addr` goes: the first writable segment that holds
    /// it, else the first segment of the image that does, else the stack, else elsewhere.
    pub open spec fn read_place(&self, addr: u32, width: u32) -> Place {
        match first_hit(writable_spans(self.writable()), addr, width) {
            Some(j) => Place::Writable(j as usize),
            None => match first_hit(segment_spans(self.image().1), addr, width) {
                Some(j) => Place::Segment(j as usize),
                None => if in_span(addr, width, STACK_MEM_BASE, self.stack_view().len()) {
                    Place::Stack
                } else {
                    Place::Elsewhere
                },
            },
        }
    }

    /// Where a write of `width` bytes at `addr` goes: the first writable segment that holds
    /// it, else the stack, else elsewhere.
    pub open spec fn write_place(&self, addr: u32, width: u32) -> Place {
        match first_hit(writable_spans(self.writable()), addr, width) {
            Some(j) => Place::Writable(j as usize),
            None => if in_span(addr, width, STACK_MEM_BASE, self.stack_view().len()) {
                Place::Stack
            } else {
                Place::Elsewhere
            },
        }
    }

    /// The reads this memory serves: the searches through the segments stay within
    /// the address space, and a segment that holds the read has the bytes in the file.
    pub open spec fn serves_read_spec(&self, addr: u32, width: u32) -> bool {
        &&& search_ok(writable_spans(self.writable()), addr, width)
        &&& first_hit(writable_spans(self.writable()), addr, width) is None ==> search_ok(
            segment_spans(self.image().1),
            addr,
            width,
        )
        &&& self.read_place(addr, width) matches Place::Segment(j) ==> match self.image().1[j as int].3 {
            Some(d) => addr - self.image().1[j as int].0 + width <= d.len(),
            None => true,
        }
    }

    /// The writes this memory serves: the search through the writable segments stays within
    /// the address space.
    pub open spec fn serves_write_spec(&self, addr: u32, width: u32) -> bool {
        search_ok(writable_spans(self.writable()), addr, width)
    }

    /// Reading `width` bytes at `addr`, from where `read_place` says: a segment of the image
    /// whose file contents cannot be read gives `ObjectError`; byte reads elsewhere go to the
    /// first device that answers the address; anything else faults.
    pub open spec fn read_spec(&self, after: Self, addr: u32, width: u32, r: Result<u32, Fault>) -> bool {
        match self.read_place(addr, width) {
            Place::Writable(j) => {
                let w = self.writable()[j as int];
                &&& r == Ok::<u32, Fault>(from_le(w.2.subrange(addr - w.0, addr - w.0 + width)) as u32)
                &&& after.same_as(*self)
            },
            Place::Segment(j) => {
                let s = self.image().1[j as int];
                &&& r == match s.3 {
                    Some(d) => Ok::<u32, Fault>(from_le(d.subrange(addr - s.0, addr - s.0 + width)) as u32),
                    None => Err(Fault::ObjectError),
                }
                &&& after.same_as(*self)
            },
            Place::Stack => {
                let i = addr - STACK_MEM_BASE;
                &&& r == Ok::<u32, Fault>(from_le(self.stack_view().subrange(i, i + width)) as u32)
                &&& after.same_as(*self)
            },
            Place::Elsewhere => if width == 1 && device_for(self.devices(), addr) is Some {
                &&& after.image() == self.image()
                &&& after.writable() == self.writable()
                &&& after.stack_view() == self.stack_view()
                &&& device_read(self.devices(), after.devices(), addr, r)
            } else {
                &&& r == Err::<u32, Fault>(Fault::InvalidAddress(addr))
                &&& after.same_as(*self)
            },
        }
    }

    /// Writing the low `width` bytes of `value` at `addr`, where `write_place` says: into a
    /// writable segment or the stack; byte writes elsewhere go to the first device that
    /// answers the address; anything else faults.
    pub open spec fn write_spec(
        &self,
        after: Self,
        addr: u32,
        width: u32,
        value: u32,
        r: Result<(), Fault>,
    ) -> bool {
        match self.write_place(addr, width) {
            Place::Writable(j) => {
                let w = self.writable()[j as int];
                &&& r is Ok
                &&& after.image() == self.image()
                &&& after.writable() == self.writable().update(
                    j as int,
                    (w.0, w.1, splice(w.2, addr - w.0, le_bytes(value as nat, width as nat))),
                )
                &&& after.stack_view() == self.stack_view()
                &&& after.devices() == self.devices()
            },
            Place::Stack => {
                &&& r is Ok
                &&& after.image() == self.image()
                &&& after.writable() == self.writable()
                &&& after.stack_view() == splice(
                    self.stack_view(),
                    addr - STACK_MEM_BASE,
                    le_bytes(value as nat, width as nat),
                )
                &&& after.devices() == self.devices()
            },
            _ => if width == 1 && device_for(self.devices(), addr) is Some {
                &&& after.image() == self.image()
                &&& after.writable() == self.writable()
                &&& after.stack_view() == self.stack_view()
                &&& device_write(self.devices(), after.devices(), addr, value as u8, r)
            } else {
                &&& r == Err::<(), Fault>(Fault::InvalidAddress(addr))
                &&& after.same_as(*self)
            },
        }
    }

    /// A memory over `object`: its writable segments are copied out, padded with zeros to
    /// their size; the stack is `stack` and the devices are `mmio`. It fails with
    /// `ObjectError` when a segment does not fit in 32 bits or a writable one has no readable
    /// contents.
    pub fn new(object: ObjectImage, stack: &'stack mut [u8], mmio: Vec<D>) -> (r: Result<
        Self,
        Fault,
    >)
        requires
            old(stack)@.len() <= u32::MAX - STACK_MEM_BASE,
        ensures
            image_ok(object@.1) <==> r is Ok,
            r is Err ==> r == Err::<Self, Fault>(Fault::ObjectError),
            r matches Ok(m) ==> m.image() == object@ && m.writable() == writable_of(object@.1)
                && m.stack_view() == old(stack)@ && m.devices() == mmio@,
    {
        let mut writable_segments: Vec<WritableSegment> = Vec::new();
        let ghost segs = object@.1;
        let mut j: usize = 0;
        while j < object.segments.len()
            invariant
                j <= segs.len(),
                segs == object@.1,
                segs.len() == object.segments@.len(),
                image_ok(segs.take(j as int)),
                writable_segments@.map_values(|w: WritableSegment| (w.start, w.end, w.data@))
                    == writable_of(segs.take(j as int)),
                forall|i: int|
                    0 <= i < writable_segments@.len() ==> #[trigger] writable_segments@[i].start
                        <= writable_segments@[i].end && writable_segments@[i].data@.len()
                        == writable_segments@[i].end - writable_segments@[i].start,
            decreases segs.len() - j,
        {
            let segment = &object.segments[j];
            assert(segs[j as int] == segment@);
            if segment.address > 0xFFFF_FFFFu64 || segment.size > 0xFFFF_FFFFu64 {
                assert(!segment_ok(segs[j as int]));
                return Err(Fault::ObjectError);
            }
            let start = segment.address as u32;
            let size = segment.size as u32;
            let end = match start.checked_add(size) {
                Some(e) => e,
                None => {
                    assert(!segment_ok(segs[j as int]));
                    return Err(Fault::ObjectError);
                },
            };
            assert(segs.take(j + 1).drop_last() =~= segs.take(j as int));
            if segment.writable {
                let file_data = match &segment.data {
                    Some(d) => d,
                    None => {
                        assert(!segment_ok(segs[j as int]));
                        return Err(Fault::ObjectError);
                    },
                };
                let mut data = vec![0u8; size as usize];
                let copy_len = if file_data.len() < data.len() {
                    file_data.len()
                } else {
                    data.len()
                };
                let mut i: usize = 0;
                while i < copy_len
                    invariant
                        i <= copy_len <= file_data@.len(),
                        copy_len <= data@.len(),
                        data@.len() == size,
                        forall|k: int| 0 <= k < i ==> data@[k] == file_data@[k],
                        forall|k: int| i <= k < data@.len() ==> data@[k] == 0u8,
                    decreases copy_len - i,
                {
                    data.set(i, file_data[i]);
                    i += 1;
                }
                assert(data@ =~= pad(file_data@, size as nat));
                writable_segments.push(WritableSegment { start, end, data });
            }
            assert(image_ok(segs.take(j + 1))) by {
                assert forall|k: int| 0 <= k < j + 1 implies segment_ok(#[trigger] segs.take(j + 1)[k]) by {
                    if k < j {
                        assert(segs.take(j + 1)[k] == segs.take(j as int)[k]);
                    }
                }
            }
            assert(writable_segments@.map_values(|w: WritableSegment| (w.start, w.end, w.data@))
                =~= writable_of(segs.take(j + 1)));
            j += 1;
        }
        assert(segs.take(j as int) =~= segs);
        Ok(ObjectMemory { loaded: Loaded { object, writable_segments }, stack, mmio })
    }

    /// The first writable segment that holds the access.
    fn find_writable(&self, addr: u32, width: u32) -> (r: Option<usize>)
        requires
            width == 1 || width == 2 || width == 4,
            search_ok(writable_spans(self.writable()), addr, width),
        ensures
            r == match first_hit(writable_spans(self.writable()), addr, width) {
                Some(j) => Some(j as usize),
                None => None::<usize>,
            },
    {
        let ghost spans = writable_spans(self.writable());
        let mut j: usize = 0;
        while j < self.loaded.writable_segments.len()
            invariant
                j <= spans.len(),
                spans == writable_spans(self.writable()),
                spans.len() == self.loaded.writable_segments@.len(),
                search_ok(spans, addr, width),
                width == 1 || width == 2 || width == 4,
                forall|i: int| 0 <= i < j ==> !hits(#[trigger] spans[i], addr, width),
            decreases spans.len() - j,
        {
            let seg = &self.loaded.writable_segments[j];
            assert(spans[j as int] == (seg.start, seg.end));
            if addr >= seg.start {
                assert(spans[j as int].1 >= width - 1);
                if addr < seg.end - (width - 1) {
                    proof {
                        lemma_first_hit_unique(spans, addr, width, j as int);
                    }
                    return Some(j);
                }
            }
            j += 1;
        }
        assert(first_hit(spans, addr, width) is None) by {
            if exists|k: int| is_first_hit(spans, addr, width, k) {
                let k = choose|k: int| is_first_hit(spans, addr, width, k);
                assert(!hits(spans[k], addr, width));
            }
        }
        None
    }

    /// The first segment of the image that holds the access.
    fn find_segment(&self, addr: u32, width: u32) -> (r: Option<usize>)
        requires
            width == 1 || width == 2 || width == 4,
            image_ok(self.image().1),
            search_ok(segment_spans(self.image().1), addr, width),
        ensures
            r == match first_hit(segment_spans(self.image().1), addr, width) {
                Some(j) => Some(j as usize),
                None => None::<usize>,
            },
    {
        let ghost spans = segment_spans(self.image().1);
        let mut j: usize = 0;
        while j < self.loaded.object.segments.len()
            invariant
                j <= spans.len(),
                spans == segment_spans(self.image().1),
                spans.len() == self.loaded.object.segments@.len(),
                image_ok(self.image().1),
                search_ok(spans, addr, width),
                width == 1 || width == 2 || width == 4,
                forall|i: int| 0 <= i < j ==> !hits(#[trigger] spans[i], addr, width),
            decreases spans.len() - j,
        {
            let seg = &self.loaded.object.segments[j];
            assert(self.image().1[j as int] == seg@);
            assert(segment_ok(self.image().1[j as int]));
            let start = seg.address as u32;
            let end = start + seg.size as u32;
            assert(spans[j as int] == (start, end));
            if addr >= start {
                assert(spans[j as int].1 >= width - 1);
                if addr < end - (width - 1) {
                    proof {
                        lemma_first_hit_unique(spans, addr, width, j as int);
                    }
                    return Some(j);
                }
            }
            j += 1;
        }
        assert(first_hit(spans, addr, width) is None) by {
            if exists|k: int| is_first_hit(spans, addr, width, k) {
                let k = choose|k: int| is_first_hit(spans, addr, width, k);
                assert(!hits(spans[k], addr, width));
            }
        }
        None
    }

    #[inline(always)]
    fn stack_top(&self) -> (r: u32)
        ensures
            r == STACK_MEM_BASE + self.stack_view().len(),
            self.wf(),
    {
        proof {
            use_type_invariant(self);
        }
        STACK_MEM_BASE + self.stack.len() as u32
    }

    /// Where a read goes.
    fn locate_read(&self, addr: u32, width: u32) -> (p: Place)
        requires
            width == 1 || width == 2 || width == 4,
            self.serves_read_spec(addr, width),
        ensures
            p == self.read_place(addr, width),
            self.wf(),
            self.writable().len() <= usize::MAX,
            self.image().1.len() <= usize::MAX,
    {
        let _ = self.loaded.writable_segments.len();
        let _ = self.loaded.object.segments.len();
        let top = self.stack_top();
        match self.find_writable(addr, width) {
            Some(j) => Place::Writable(j),
            None => match self.find_segment(addr, width) {
                Some(j) => Place::Segment(j),
                None => if addr >= STACK_MEM_BASE && addr < top - (width - 1) {
                    Place::Stack
                } else {
                    Place::Elsewhere
                },
            },
        }
    }

    /// Where a write goes.
    fn locate_write(&self, addr: u32, width: u32) -> (p: Place)
        requires
            width == 1 || width == 2 || width == 4,
            self.serves_write_spec(addr, width),
        ensures
            p == self.write_place(addr, width),
            self.wf(),
            self.writable().len() <= usize::MAX,
            self.image().1.len() <= usize::MAX,
    {
        let _ = self.loaded.writable_segments.len();
        let _ = self.loaded.object.segments.len();
        let top = self.stack_top();
        match self.find_writable(addr, width) {
            Some(j) => Place::Writable(j),
            None => if addr >= STACK_MEM_BASE && addr < top - (width - 1) {
                Place::Stack
            } else {
                Place::Elsewhere
            },
        }
    }
}

impl<'stack, D: MMIO> ObjectMemory<'stack, D> {
    proof fn lemma_places(&self, addr: u32, width: u32)
        requires
            self.wf(),
            self.writable().len() <= usize::MAX,
            self.image().1.len() <= usize::MAX,
        ensures
            self.read_place(addr, width) matches Place::Writable(j) ==> j < self.writable().len()
                && self.writable()[j as int].0 <= addr && addr + width <= self.writable()[j as int].1,
            self.write_place(addr, width) matches Place::Writable(j) ==> j < self.writable().len()
                && self.writable()[j as int].0 <= addr && addr + width <= self.writable()[j as int].1,
            self.read_place(addr, width) matches Place::Segment(j) ==> j < self.image().1.len()
                && self.image().1[j as int].0 <= addr && addr + width <= self.image().1[j as int].0
                + self.image().1[j as int].1,
    {
        let ws = writable_spans(self.writable());
        let ss = segment_spans(self.image().1);
        lemma_first_hit_some(ws, addr, width);
        lemma_first_hit_some(ss, addr, width);
        if let Some(j) = first_hit(ss, addr, width) {
            assert(segment_ok(self.image().1[j]));
        }
    }

    /// Sets byte `i` of writable segment `j`.
    fn set_writable_byte(&mut self, j: usize, i: usize, value: u8)
        requires
            j < old(self).writable().len(),
            i < old(self).writable()[j as int].2.len(),
        ensures
            final(self).writable() == old(self).writable().update(
                j as int,
                (
                    old(self).writable()[j as int].0,
                    old(self).writable()[j as int].1,
                    old(self).writable()[j as int].2.update(i as int, value),
                ),
            ),
            final(self).image() == old(self).image(),
            final(self).stack_view() == old(self).stack_view(),
            final(self).devices() == old(self).devices(),
    {
        proof {
            use_type_invariant(&*self);
        }
        let mut loaded = Loaded { object: ObjectImage { entry: 0, segments: Vec::new() }, writable_segments: Vec::new() };
        assert(segments_view(loaded.writable_segments@) =~= writable_of(loaded.object@.1));
        core::mem::swap(&mut loaded, &mut self.loaded);
        set_segment_byte(&mut loaded.writable_segments, j, i, value);
        core::mem::swap(&mut loaded, &mut self.loaded);
    }
}

impl<'stack, D: MMIO> ObjectMemory<'stack, D> {
    /// The image is well formed and its segments are served, and the writable segments span
    /// what the image's writable segments span. Then every access of one, two or four bytes
    /// is served, and every access keeps this so.
    pub open spec fn serves_all(&self) -> bool {
        &&& image_ok(self.image().1)
        &&& image_served(self.image().1)
        &&& self.image().1.len() <= usize::MAX
        &&& writable_spans(self.writable()) == writable_spans(writable_of(self.image().1))
    }

    /// A memory that `serves_all` serves every access of one, two or four bytes.
    pub proof fn lemma_serves_all(&self, addr: u32, width: u32)
        requires
            self.serves_all(),
            width == 1 || width == 2 || width == 4,
        ensures
            self.serves_read_spec(addr, width),
            self.serves_write_spec(addr, width),
    {
        let segs = self.image().1;
        let ws = writable_spans(self.writable());
        let ss = segment_spans(segs);
        lemma_writable_of_spans(segs);
        assert forall|j: int| 0 <= j < ws.len() implies #[trigger] ws[j].1 >= 3 by {
            assert(ws[j] == writable_spans(writable_of(segs))[j]);
        }
        assert forall|j: int| 0 <= j < ss.len() implies #[trigger] ss[j].1 >= 3 by {
            assert(segment_ok(segs[j]) && segment_served(segs[j]));
        }
        lemma_first_hit_some(ws, addr, width);
        lemma_first_hit_some(ss, addr, width);
        if let Some(k) = first_hit(ss, addr, width) {
            if first_hit(ws, addr, width) is None {
                assert(segment_ok(segs[k]) && segment_served(segs[k]));
                if segs[k].2 {
                    let w = choose|w: int|
                        0 <= w < writable_of(segs).len() && #[trigger] writable_spans(writable_of(segs))[w]
                            == segment_spans(segs)[k];
                    lemma_hit_has_first(ws, addr, width, w);
                }
            }
        }
    }

    /// A read keeps `serves_all`.
    pub proof fn lemma_read_keeps(&self, after: Self, addr: u32, width: u32, r: Result<u32, Fault>)
        requires
            self.serves_all(),
            self.read_spec(after, addr, width, r),
        ensures
            after.serves_all(),
    {
    }

    /// A write keeps `serves_all`.
    pub proof fn lemma_write_keeps(
        &self,
        after: Self,
        addr: u32,
        width: u32,
        value: u32,
        r: Result<(), Fault>,
    )
        requires
            self.serves_all(),
            self.write_spec(after, addr, width, value, r),
        ensures
            after.serves_all(),
    {
        if let Place::Writable(j) = self.write_place(addr, width) {
            assert(writable_spans(after.writable()) =~= writable_spans(self.writable()));
        }
    }

    /// Every run over a memory that `serves_all` is served, for any number of steps.
    pub proof fn lemma_served_for(regs: Seq<u32>, pc: u32, m: Self, n: nat)
        requires
            m.serves_all(),
        ensures
            crate::run::served_for(regs, pc, m, n),
    {
        let p = |m: Self| m.serves_all();
        assert forall|m: Self, m2: Self, a: u32, w: u32, v: Result<u32, Fault>|
            p(m) && #[trigger] m.read_outcome(m2, a, w, v) implies p(m2) by {
            m.lemma_read_keeps(m2, a, w, v);
        }
        assert forall|m: Self, m2: Self, a: u32, w: u32, x: u32, r: Result<(), Fault>|
            p(m) && #[trigger] m.write_outcome(m2, a, w, x, r) implies p(m2) by {
            m.lemma_write_keeps(m2, a, w, x, r);
        }
        assert forall|m: Self, a: u32, w: u32|
            p(m) && (w == 1 || w == 2 || w == 4) implies #[trigger] m.serves_read(a, w)
                && m.serves_write(a, w) by {
            m.lemma_serves_all(a, w);
        }
        crate::run::lemma_served_for_under(p, regs, pc, m, n);
    }

    /// The number of writable segments; the memory is well formed.
    pub fn writable_segment_count(&self) -> (r: usize)
        ensures
            r == self.writable().len(),
            self.wf(),
    {
        proof {
            use_type_invariant(self);
        }
        self.loaded.writable_segments.len()
    }

    /// Whether this memory `serves_all`: every segment ends at or above address 3, and
    /// every read-only segment with readable contents holds its whole size in the file.
    pub fn can_serve_all(&self) -> (r: bool)
        ensures
            r == self.serves_all(),
    {
        proof {
            use_type_invariant(self);
        }
        let segments = &self.loaded.object.segments;
        let ghost segs = self.image().1;
        assert(segs.len() == segments@.len());
        let mut j: usize = 0;
        while j < segments.len()
            invariant
                j <= segments@.len(),
                segs == self.image().1,
                segs.len() == segments@.len(),
                image_ok(segs),
                forall|k: int| 0 <= k < segs.len() ==> #[trigger] segs[k] == segments@[k]@,
                forall|k: int| 0 <= k < j ==> segment_served(#[trigger] segs[k]),
            decreases segments@.len() - j,
        {
            let s = &segments[j];
            assert(segs[j as int] == s@);
            assert(segment_ok(segs[j as int]));
            let end = s.address + s.size;
            if end < 3 {
                assert(!segment_served(segs[j as int]));
                return false;
            }
            if !s.writable {
                if let Some(d) = &s.data {
                    if (d.len() as u64) < s.size {
                        assert(!segment_served(segs[j as int]));
                        return false;
                    }
                }
            }
            assert(segment_served(segs[j as int]));
            j += 1;
        }
        true
    }
}

impl<'stack, D: MMIO> AddressSpace for ObjectMemory<'stack, D> {
    open spec fn spec_instr_start(&self) -> u32 {
        self.image().0 as u32
    }

    open spec fn spec_stack_top(&self) -> u32 {
        (STACK_MEM_BASE + self.stack_view().len()) as u32
    }

    open spec fn serves_read(&self, addr: u32, width: u32) -> bool {
        self.serves_read_spec(addr, width)
    }

    open spec fn serves_write(&self, addr: u32, width: u32) -> bool {
        self.serves_write_spec(addr, width)
    }

    open spec fn read_outcome(&self, after: Self, addr: u32, width: u32, r: Result<u32, Fault>) -> bool {
        self.read_spec(after, addr, width, r)
    }

    open spec fn write_outcome(
        &self,
        after: Self,
        addr: u32,
        width: u32,
        value: u32,
        r: Result<(), Fault>,
    ) -> bool {
        self.write_spec(after, addr, width, value, r)
    }

    #[inline(always)]
    fn instr_start(&self) -> (r: u32) {
        #[verifier::truncate]
        (self.loaded.object.entry as u32)
    }

    #[inline(always)]
    fn stack_top(&self) -> (r: u32) {
        ObjectMemory::stack_top(self)
    }

    fn read_8(&mut self, addr: u32) -> (r: Result<u8, Fault>) {
        let place = self.locate_read(addr, 1);
        proof {
            self.lemma_places(addr, 1);
        }
        match place {
            Place::Writable(j) => {
                let seg = &self.loaded.writable_segments[j];
                let i = (addr - seg.start) as usize;
                proof {
                    lemma_from_le_small(self.writable()[j as int].2.subrange(i as int, i + 1));
                }
                Ok(seg.data[i])
            },
            Place::Segment(j) => {
                let seg = &self.loaded.object.segments[j];
                assert(self.image().1[j as int] == seg@);
                let i = (addr - seg.address as u32) as usize;
                match &seg.data {
                    Some(d) => {
                        proof {
                            lemma_from_le_small(d@.subrange(i as int, i + 1));
                        }
                        Ok(d[i])
                    },
                    None => Err(Fault::ObjectError),
                }
            },
            Place::Stack => {
                let i = (addr - STACK_MEM_BASE) as usize;
                proof {
                    lemma_from_le_small(self.stack_view().subrange(i as int, i + 1));
                }
                Ok(self.stack[i])
            },
            Place::Elsewhere => {
                let mut mmio: Vec<D> = Vec::new();
                core::mem::swap(&mut mmio, &mut self.mmio);
                let r = dispatch_read_8(&mut mmio, addr);
                core::mem::swap(&mut mmio, &mut self.mmio);
                match r {
                    Some(v) => v,
                    None => Err(Fault::InvalidAddress(addr)),
                }
            },
        }
    }

    fn read_16(&mut self, addr: u32) -> (r: Result<u16, Fault>) {
        let place = self.locate_read(addr, 2);
        proof {
            self.lemma_places(addr, 2);
        }
        match place {
            Place::Writable(j) => {
                let seg = &self.loaded.writable_segments[j];
                let i = (addr - seg.start) as usize;
                assert(self.writable()[j as int].2.subrange(i as int, i + 2) =~= seq![seg.data@[i as int], seg.data@[i + 1]]);
                Ok(u16_from_le(seg.data[i], seg.data[i + 1]))
            },
            Place::Segment(j) => {
                let seg = &self.loaded.object.segments[j];
                assert(self.image().1[j as int] == seg@);
                let i = (addr - seg.address as u32) as usize;
                match &seg.data {
                    Some(d) => {
                        assert(d@.subrange(i as int, i + 2) =~= seq![d@[i as int], d@[i + 1]]);
                        Ok(u16_from_le(d[i], d[i + 1]))
                    },
                    None => Err(Fault::ObjectError),
                }
            },
            Place::Stack => {
                let i = (addr - STACK_MEM_BASE) as usize;
                assert(self.stack_view().subrange(i as int, i + 2) =~= seq![self.stack@[i as int], self.stack@[i + 1]]);
                Ok(u16_from_le(self.stack[i], self.stack[i + 1]))
            },
            Place::Elsewhere => Err(Fault::InvalidAddress(addr)),
        }
    }

    fn read_32(&mut self, addr: u32) -> (r: Result<u32, Fault>) {
        let place = self.locate_read(addr, 4);
        proof {
            self.lemma_places(addr, 4);
        }
        match place {
            Place::Writable(j) => {
                let seg = &self.loaded.writable_segments[j];
                let i = (addr - seg.start) as usize;
                assert(self.writable()[j as int].2.subrange(i as int, i + 4) =~= seq![
                    seg.data@[i as int],
                    seg.data@[i + 1],
                    seg.data@[i + 2],
                    seg.data@[i + 3],
                ]);
                Ok(u32_from_le(seg.data[i], seg.data[i + 1], seg.data[i + 2], seg.data[i + 3]))
            },
            Place::Segment(j) => {
                let seg = &self.loaded.object.segments[j];
                assert(self.image().1[j as int] == seg@);
                let i = (addr - seg.address as u32) as usize;
                match &seg.data {
                    Some(d) => {
                        assert(d@.subrange(i as int, i + 4) =~= seq![d@[i as int], d@[i + 1], d@[i + 2], d@[i + 3]]);
                        Ok(u32_from_le(d[i], d[i + 1], d[i + 2], d[i + 3]))
                    },
                    None => Err(Fault::ObjectError),
                }
            },
            Place::Stack => {
                let i = (addr - STACK_MEM_BASE) as usize;
                assert(self.stack_view().subrange(i as int, i + 4) =~= seq![
                    self.stack@[i as int],
                    self.stack@[i + 1],
                    self.stack@[i + 2],
                    self.stack@[i + 3],
                ]);
                Ok(u32_from_le(self.stack[i], self.stack[i + 1], self.stack[i + 2], self.stack[i + 3]))
            },
            Place::Elsewhere => Err(Fault::InvalidAddress(addr)),
        }
    }

    fn write_8(&mut self, addr: u32, value: u8) -> (r: Result<(), Fault>) {
        proof {
            lemma_le_bytes_small(value as nat);
        }
        let place = self.locate_write(addr, 1);
        proof {
            self.lemma_places(addr, 1);
        }
        match place {
            Place::Writable(j) => {
                let i = (addr - self.loaded.writable_segments[j].start) as usize;
                self.set_writable_byte(j, i, value);
                assert(self.writable()[j as int].2 =~= splice(old(self).writable()[j as int].2, i as int, seq![value]));
                assert(self.writable() =~= old(self).writable().update(j as int, (old(self).writable()[j as int].0, old(self).writable()[j as int].1, splice(old(self).writable()[j as int].2, i as int, seq![value]))));
                Ok(())
            },
            Place::Stack => {
                let i = (addr - STACK_MEM_BASE) as usize;
                self.stack[i] = value;
                assert(self.stack_view() =~= splice(old(self).stack_view(), i as int, seq![value]));
                Ok(())
            },
            _ => {
                let mut mmio: Vec<D> = Vec::new();
                core::mem::swap(&mut mmio, &mut self.mmio);
                let r = dispatch_write_8(&mut mmio, addr, value);
                core::mem::swap(&mut mmio, &mut self.mmio);
                match r {
                    Some(v) => v,
                    None => Err(Fault::InvalidAddress(addr)),
                }
            },
        }
    }

    fn write_16(&mut self, addr: u32, value: u16) -> (r: Result<(), Fault>) {
        let (b0, b1) = u16_to_le(value);
        let place = self.locate_write(addr, 2);
        proof {
            self.lemma_places(addr, 2);
        }
        match place {
            Place::Writable(j) => {
                let i = (addr - self.loaded.writable_segments[j].start) as usize;
                self.set_writable_byte(j, i, b0);
                self.set_writable_byte(j, i + 1, b1);
                let ghost w = old(self).writable()[j as int];
                assert(self.writable()[j as int].2 =~= splice(w.2, i as int, seq![b0, b1]));
                assert(self.writable() =~= old(self).writable().update(j as int, (w.0, w.1, splice(w.2, i as int, seq![b0, b1]))));
                Ok(())
            },
            Place::Stack => {
                let i = (addr - STACK_MEM_BASE) as usize;
                self.stack[i] = b0;
                self.stack[i + 1] = b1;
                assert(self.stack_view() =~= splice(old(self).stack_view(), i as int, seq![b0, b1]));
                Ok(())
            },
            _ => Err(Fault::InvalidAddress(addr)),
        }
    }

    fn write_32(&mut self, addr: u32, value: u32) -> (r: Result<(), Fault>) {
        let (b0, b1, b2, b3) = u32_to_le(value);
        let place = self.locate_write(addr, 4);
        proof {
            self.lemma_places(addr, 4);
        }
        match place {
            Place::Writable(j) => {
                let i = (addr - self.loaded.writable_segments[j].start) as usize;
                self.set_writable_byte(j, i, b0);
                self.set_writable_byte(j, i + 1, b1);
                self.set_writable_byte(j, i + 2, b2);
                self.set_writable_byte(j, i + 3, b3);
                let ghost w = old(self).writable()[j as int];
                assert(self.writable()[j as int].2 =~= splice(w.2, i as int, seq![b0, b1, b2, b3]));
                assert(self.writable() =~= old(self).writable().update(j as int, (w.0, w.1, splice(w.2, i as int, seq![b0, b1, b2, b3]))));
                Ok(())
            },
            Place::Stack => {
                let i = (addr - STACK_MEM_BASE) as usize;
                self.stack[i] = b0;
                self.stack[i + 1] = b1;
                self.stack[i + 2] = b2;
                self.stack[i + 3] = b3;
                assert(self.stack_view() =~= splice(old(self).stack_view(), i as int, seq![b0, b1, b2, b3]));
                Ok(())
            },
            _ => Err(Fault::InvalidAddress(addr)),
        }
    }
}

} // verus!
