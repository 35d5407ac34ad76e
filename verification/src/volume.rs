//! The volume that a device in emergency download mode is offered as.

use vstd::prelude::*;

use crate::buffer::{frozen, with_capacity, Buffer};
use crate::session::{programmer_images, VolumeError, VolumeErrorModel};
use crate::text::same_text;

verus! {

/// The target to upload the Firehose programmer to.
///
/// The device only accepts this while it is still in Sahara mode, which is the
/// state it enters emergency download mode in. Once the programmer is running
/// the device switches to the Firehose protocol and this target can no longer be
/// used.
pub const TARGET_PROGRAMMER: &'static str = "programmer";

/// The largest programmer image that is accepted, in bytes.
pub const PROGRAMMER_MAX_SIZE: usize = 16 * 1024 * 1024;

/// What a target of a volume can do.
#[derive(Debug)]
pub struct VolumeTargetInfo {
    pub name: String,
    pub readable: bool,
    pub writable: bool,
    pub seekable: bool,
    pub size: Option<u64>,
    pub blocksize: Option<u32>,
}

/// What a [`VolumeTargetInfo`] stands for.
#[verifier::ext_equal]
pub struct TargetInfoModel {
    pub name: Seq<char>,
    pub readable: bool,
    pub writable: bool,
    pub seekable: bool,
    pub size: Option<u64>,
    pub blocksize: Option<u32>,
}

impl View for VolumeTargetInfo {
    type V = TargetInfoModel;

    open spec fn view(&self) -> TargetInfoModel {
        TargetInfoModel {
            name: self.name@,
            readable: self.readable,
            writable: self.writable,
            seekable: self.seekable,
            size: self.size,
            blocksize: self.blocksize,
        }
    }
}

impl Clone for VolumeTargetInfo {
    fn clone(&self) -> (r: Self)
        ensures
            r@ == self@,
    {
        VolumeTargetInfo {
            name: self.name.clone(),
            readable: self.readable,
            writable: self.writable,
            seekable: self.seekable,
            size: self.size,
            blocksize: self.blocksize,
        }
    }
}

/// The target to upload the programmer to: it can be written from the start to
/// the end and nothing else.
pub open spec fn programmer_target() -> TargetInfoModel {
    TargetInfoModel {
        name: TARGET_PROGRAMMER@,
        readable: false,
        writable: true,
        seekable: false,
        size: None,
        blocksize: None,
    }
}

/// Why a write to the programmer target is refused.
#[derive(Clone, Copy, Debug, PartialEq, Eq, Structural)]
pub enum WriteError {
    /// The write does not start where the last one ended.
    InvalidOffset,
    /// The programmer would become too big.
    TooBig,
}

impl WriteError {
    /// The error in words.
    pub open spec fn words(self) -> Seq<char> {
        match self {
            WriteError::InvalidOffset => "Invalid offset"@,
            WriteError::TooBig => "Programmer too big"@,
        }
    }

    /// The error in words.
    pub fn message(self) -> (r: &'static str)
        ensures
            r@ == self.words(),
    {
        match self {
            WriteError::InvalidOffset => "Invalid offset",
            WriteError::TooBig => "Programmer too big",
        }
    }
}

/// The memory that is set aside for a programmer image: as much as the client
/// announced, or 1 MiB if it announced nothing, within the largest image that is
/// accepted.
pub open spec fn capacity_for(size_hint: Option<u64>) -> nat {
    let wish = match size_hint {
        Some(n) => n as nat,
        None => 1024 * 1024,
    };
    if wish < PROGRAMMER_MAX_SIZE {
        wish
    } else {
        PROGRAMMER_MAX_SIZE as nat
    }
}

/// The memory that is set aside for a programmer image, in bytes.
pub fn buffer_capacity(size_hint: Option<u64>) -> (r: usize)
    ensures
        r == capacity_for(size_hint),
{
    let wish: u64 = match size_hint {
        Some(n) => n,
        None => 1024 * 1024,
    };
    if wish < PROGRAMMER_MAX_SIZE as u64 {
        wish as usize
    } else {
        PROGRAMMER_MAX_SIZE
    }
}

/// A programmer image that is being uploaded.
#[derive(Debug)]
pub struct ProgrammerTarget {
    data: Buffer,
}

/// What `image` becomes when `data` is written at `offset`.
pub open spec fn written(image: Seq<u8>, data: Seq<u8>, offset: int) -> Result<
    Seq<u8>,
    WriteError,
> {
    if offset != image.len() {
        Err(WriteError::InvalidOffset)
    } else if image.len() + data.len() > PROGRAMMER_MAX_SIZE {
        Err(WriteError::TooBig)
    } else {
        Ok(image + data)
    }
}

impl View for ProgrammerTarget {
    type V = Seq<u8>;

    closed spec fn view(&self) -> Seq<u8> {
        self.data@.bytes
    }
}

impl ProgrammerTarget {
    /// Whether the image is no bigger than what is accepted.
    pub open spec fn wf(&self) -> bool {
        self@.len() <= PROGRAMMER_MAX_SIZE
    }

    /// The memory that was asked for when the target was made, in bytes.
    pub closed spec fn reserved(&self) -> nat {
        self.data@.reserved
    }

    /// An image of which nothing has been written yet. `size_hint` is the size
    /// that the client announced.
    pub fn new(size_hint: Option<u64>) -> (r: ProgrammerTarget)
        ensures
            r@ == Seq::<u8>::empty(),
            r.reserved() == capacity_for(size_hint),
            r.wf(),
    {
        ProgrammerTarget { data: with_capacity(buffer_capacity(size_hint)) }
    }

    /// Writes `data` at `offset`, and says how many bytes were taken. A write
    /// that is refused changes nothing.
    pub fn write(&mut self, data: &[u8], offset: u64) -> (r: Result<u64, WriteError>)
        requires
            old(self).wf(),
        ensures
            final(self).wf(),
            final(self).reserved() == old(self).reserved(),
            match written(old(self)@, data@, offset as int) {
                Ok(image) => r == Ok::<u64, WriteError>(data@.len() as u64) && final(self)@
                    == image && r->Ok_0 == data@.len(),
                Err(e) => r == Err::<u64, WriteError>(e) && final(self)@ == old(self)@,
            },
    {
        let len: usize = self.data.len();
        if offset != len as u64 {
            Err(WriteError::InvalidOffset)
        } else if data.len() > PROGRAMMER_MAX_SIZE - len {
            Err(WriteError::TooBig)
        } else {
            self.data.push_slice(data);
            Ok(data.len() as u64)
        }
    }

    /// Takes the image out, to be handed to the session. What is written next
    /// starts a new one.
    pub fn take_image(&mut self) -> (r: bytes::Bytes)
        ensures
            frozen(r) == old(self)@,
            final(self)@ == Seq::<u8>::empty(),
            final(self).reserved() == old(self).reserved(),
            final(self).wf(),
    {
        self.data.take()
    }
}

/// The volume of a device, with the target to upload the programmer to.
#[derive(Debug)]
pub struct QdlVolume {
    targets: [VolumeTargetInfo; 1],
}

impl View for QdlVolume {
    type V = Seq<TargetInfoModel>;

    closed spec fn view(&self) -> Seq<TargetInfoModel> {
        target_models(self.targets@)
    }
}

/// What several [`VolumeTargetInfo`]s stand for.
pub open spec fn target_models(targets: Seq<VolumeTargetInfo>) -> Seq<TargetInfoModel> {
    targets.map_values(|t: VolumeTargetInfo| t@)
}

impl QdlVolume {
    /// Whether the volume has the one target that it is made with.
    pub open spec fn wf(&self) -> bool {
        self@ == seq![programmer_target()]
    }

    /// The volume of a device.
    pub fn new() -> (r: QdlVolume)
        ensures
            r.wf(),
    {
        let r = QdlVolume {
            targets: [
                VolumeTargetInfo {
                    name: TARGET_PROGRAMMER.to_owned(),
                    readable: false,
                    writable: true,
                    seekable: false,
                    size: None,
                    blocksize: None,
                },
            ],
        };
        assert(r@ == seq![programmer_target()]);
        r
    }

    /// The targets of the volume, and whether there are no others.
    pub fn targets(&self) -> (r: (&[VolumeTargetInfo], bool))
        ensures
            target_models(r.0@) == self@,
            r.1,
    {
        (self.targets.as_slice(), true)
    }

    /// Opens a target for an image of which the client announced the `length`.
    pub fn open(&self, target: &str, length: Option<u64>) -> (r: Result<
        (VolumeTargetInfo, ProgrammerTarget),
        VolumeError,
    >)
        requires
            self.wf(),
        ensures
            match r {
                Ok((info, image)) => {
                    &&& target@ == TARGET_PROGRAMMER@
                    &&& info@ == programmer_target()
                    &&& info.name@ == "programmer"@
                    &&& !info.readable && info.writable && !info.seekable
                    &&& info.size is None && info.blocksize is None
                    &&& image@ == Seq::<u8>::empty()
                    &&& image.reserved() == capacity_for(length)
                    &&& image.wf()
                },
                Err(e) => target@ != TARGET_PROGRAMMER@ && e@
                    == VolumeErrorModel::UnknownTargetRequested,
            },
    {
        if !same_text(target, TARGET_PROGRAMMER) {
            return Err(VolumeError::UnknownTargetRequested);
        }
        assert(self@[0] == self.targets@[0]@);
        Ok((self.targets[0].clone(), ProgrammerTarget::new(length)))
    }

    /// There is nothing left to commit: an image takes effect when it has been
    /// uploaded.
    pub fn commit(&self) -> (r: Result<(), VolumeError>)
        ensures
            r is Ok,
    {
        Ok(())
    }
}

/// All the bytes of `chunks`, in order.
pub open spec fn joined(chunks: Seq<Seq<u8>>) -> Seq<u8>
    decreases chunks.len(),
{
    if chunks.len() == 0 {
        Seq::empty()
    } else {
        joined(chunks.drop_last()) + chunks.last()
    }
}

/// A write that a client asks for.
pub struct WriteRequest {
    pub data: Seq<u8>,
    pub offset: int,
}

/// What is left of `image` when a write was taken or refused.
pub open spec fn after_write(image: Seq<u8>, request: WriteRequest) -> Seq<u8> {
    match written(image, request.data, request.offset) {
        Ok(next) => next,
        Err(_) => image,
    }
}

/// The image after `requests`, whether they were taken or refused.
pub open spec fn image_after(requests: Seq<WriteRequest>) -> Seq<u8>
    decreases requests.len(),
{
    if requests.len() == 0 {
        Seq::empty()
    } else {
        after_write(image_after(requests.drop_last()), requests.last())
    }
}

/// Whether request `i` is taken.
pub open spec fn is_taken(requests: Seq<WriteRequest>, i: int) -> bool {
    written(image_after(requests.take(i)), requests[i].data, requests[i].offset) is Ok
}

/// The data of the requests that are taken, in order.
pub open spec fn taken(requests: Seq<WriteRequest>) -> Seq<Seq<u8>>
    decreases requests.len(),
{
    if requests.len() == 0 {
        Seq::empty()
    } else {
        let before = taken(requests.drop_last());
        if is_taken(requests, requests.len() - 1) {
            before.push(requests.last().data)
        } else {
            before
        }
    }
}

/// `chunks`, each to be written where the one before ends.
pub open spec fn in_sequence(chunks: Seq<Seq<u8>>) -> Seq<WriteRequest> {
    Seq::new(
        chunks.len(),
        |i: int| WriteRequest { data: chunks[i], offset: joined(chunks.take(i)).len() as int },
    )
}

/// An image is what was taken, in order, and holds no byte of a write that was
/// refused, however many are refused in between. It is never bigger than what is
/// accepted.
pub proof fn law_image_is_what_was_taken(requests: Seq<WriteRequest>)
    ensures
        image_after(requests) == joined(taken(requests)),
        image_after(requests).len() <= PROGRAMMER_MAX_SIZE,
    decreases requests.len(),
{
    if requests.len() > 0 {
        let front = requests.drop_last();
        law_image_is_what_was_taken(front);
        assert(requests.take(requests.len() - 1) == front);
        assert(taken(front).push(requests.last().data).drop_last() == taken(front));
    }
}

/// A write is taken exactly if it starts where the image ends and the image does
/// not become too big.
pub proof fn law_what_follows_and_fits_is_taken(requests: Seq<WriteRequest>, i: int)
    requires
        0 <= i < requests.len(),
    ensures
        is_taken(requests, i) <==> ({
            let end = joined(taken(requests.take(i))).len();
            requests[i].offset == end && end + requests[i].data.len() <= PROGRAMMER_MAX_SIZE
        }),
{
    law_image_is_what_was_taken(requests.take(i));
}

/// Chunks that are written one behind the other make up the image, each of them
/// taken, if they are not too big together.
pub proof fn law_image_is_what_was_written(chunks: Seq<Seq<u8>>)
    requires
        joined(chunks).len() <= PROGRAMMER_MAX_SIZE,
    ensures
        image_after(in_sequence(chunks)) == joined(chunks),
        taken(in_sequence(chunks)) == chunks,
    decreases chunks.len(),
{
    let requests = in_sequence(chunks);
    if chunks.len() == 0 {
        assert(taken(requests) == chunks);
    } else {
        let front = chunks.drop_last();
        assert(forall|i: int| 0 <= i < front.len() ==> front.take(i) == chunks.take(i));
        assert(in_sequence(front) == requests.drop_last());
        law_image_is_what_was_written(front);
        assert(chunks.take(chunks.len() - 1) == front);
        assert(requests.take(requests.len() - 1) == in_sequence(front));
        assert(front.push(chunks.last()) == chunks);
    }
}

/// The device is handed what was taken, as a single image.
pub proof fn law_device_gets_what_was_taken(requests: Seq<WriteRequest>)
    ensures
        programmer_images(image_after(requests)) == seq![Some(joined(taken(requests)))],
{
    law_image_is_what_was_taken(requests);
}

/// A chunk that was accepted is not accepted again at the same offset, unless it
/// is empty.
pub proof fn law_no_chunk_counts_twice(image: Seq<u8>, data: Seq<u8>, offset: int)
    requires
        written(image, data, offset) is Ok,
        data.len() > 0,
    ensures
        written(written(image, data, offset)->Ok_0, data, offset) == Err::<Seq<u8>, WriteError>(
            WriteError::InvalidOffset,
        ),
{
}

/// No write makes an image bigger than what is accepted.
pub proof fn law_image_stays_within_bounds(image: Seq<u8>, data: Seq<u8>, offset: int)
    ensures
        written(image, data, offset) matches Ok(next) ==> next.len() <= PROGRAMMER_MAX_SIZE
            && image.is_prefix_of(next),
{
    if let Ok(next) = written(image, data, offset) {
        assert(next.subrange(0, image.len() as int) == image);
    }
}

/// A write is taken exactly if it starts where the image ends and the image stays
/// within 16 MiB. The image then ends in what was written and is otherwise what it
/// was. A write at another place is refused for that, whatever its size.
pub proof fn law_write_puts_the_data_at_the_end(image: Seq<u8>, data: Seq<u8>, offset: int)
    ensures
        offset != image.len() ==> written(image, data, offset) == Err::<Seq<u8>, WriteError>(
            WriteError::InvalidOffset,
        ),
        offset == image.len() && image.len() + data.len() > 16777216 ==> written(
            image,
            data,
            offset,
        ) == Err::<Seq<u8>, WriteError>(WriteError::TooBig),
        offset == image.len() && image.len() + data.len() <= 16777216 ==> {
            let r = written(image, data, offset);
            &&& r is Ok
            &&& r->Ok_0.len() == image.len() + data.len()
            &&& r->Ok_0.take(image.len() as int) == image
            &&& r->Ok_0.skip(image.len() as int) == data
        },
{
    if let Ok(next) = written(image, data, offset) {
        assert(next.take(image.len() as int) == image);
        assert(next.skip(image.len() as int) == data);
    }
}

/// As much memory is asked for as was announced, within 16 MiB, and 1 MiB where
/// nothing was announced.
pub proof fn law_memory_follows_the_announcement(n: u64)
    ensures
        capacity_for(None) == 1048576,
        n <= 16777216 ==> capacity_for(Some(n)) == n,
        n > 16777216 ==> capacity_for(Some(n)) == 16777216,
{
}

/// The target for the programmer can be written and nothing else, and has no size of
/// its own; refusals read as their words; and a target stands for what it is.
pub proof fn law_programmer_target_is_for_writing(info: VolumeTargetInfo)
    ensures
        programmer_target().name == "programmer"@,
        programmer_target().writable,
        !programmer_target().readable,
        !programmer_target().seekable,
        programmer_target().size is None,
        programmer_target().blocksize is None,
        WriteError::InvalidOffset.words() == "Invalid offset"@,
        WriteError::TooBig.words() == "Programmer too big"@,
        info@.name == info.name@,
        info@.readable == info.readable,
        info@.writable == info.writable,
        info@.seekable == info.seekable,
        info@.size == info.size,
        info@.blocksize == info.blocksize,
{
}

/// Several targets stand, in order, for what each is.
pub proof fn law_targets_stand_for_themselves(targets: Seq<VolumeTargetInfo>)
    ensures
        target_models(targets).len() == targets.len(),
        forall|i: int| 0 <= i < targets.len() ==> #[trigger] target_models(targets)[i] == targets[i]@,
{
}

} // verus!
