//! The session with a device in emergency download mode.
//!
//! A session carries state across the phases of the protocol, so the device is
//! opened once, when the first upload asks for it, and then kept open.

use vstd::prelude::*;

use crate::buffer::{frozen, frozen_to_vec};

verus! {

/// The storage of a device.
#[derive(Clone, Copy, Debug, PartialEq, Eq, Structural)]
pub enum StorageType {
    Emmc,
    Ufs,
    Nand,
    Nvme,
    Spinor,
}

/// How a device is reached.
#[derive(Clone, Copy, Debug, PartialEq, Eq, Structural)]
pub enum Backend {
    Usb,
    Serial,
}

/// What is needed to set up a Firehose channel to a device.
#[derive(Clone, Copy, Debug, PartialEq, Eq, Structural)]
pub struct SessionParameters {
    pub storage: StorageType,
    pub sector_size: usize,
}

/// How a device is opened.
#[derive(Clone, Copy, Debug, PartialEq, Eq, Structural)]
pub struct DeviceSetup {
    pub backend: Backend,
    pub storage_type: StorageType,
    pub storage_sector_size: usize,
    /// Whether the device accepts writes to its storage and quietly drops them.
    pub bypass_storage: bool,
    pub reset_on_drop: bool,
}

/// What went wrong in a session.
#[derive(Debug)]
pub enum QdlError {
    /// There is no session any more.
    SessionGone,
    /// The session did not answer; the text says why.
    NoResponse(String),
    /// The device could not be opened; the text says why.
    Open(String),
    /// The device was opened, and then failed; the text says why.
    Failure(String),
}

/// What went wrong with a volume.
#[derive(Debug)]
pub enum VolumeError {
    /// The volume has no such target.
    UnknownTargetRequested,
    /// The fault is the server's.
    Internal(String),
    /// The fault is the device's.
    Failure(String),
}

/// What a [`QdlError`] stands for.
pub enum QdlErrorModel {
    SessionGone,
    NoResponse(Seq<char>),
    Open(Seq<char>),
    Failure(Seq<char>),
}

/// What a [`VolumeError`] stands for.
pub enum VolumeErrorModel {
    UnknownTargetRequested,
    Internal(Seq<char>),
    Failure(Seq<char>),
}

impl View for QdlError {
    type V = QdlErrorModel;

    open spec fn view(&self) -> QdlErrorModel {
        match self {
            QdlError::SessionGone => QdlErrorModel::SessionGone,
            QdlError::NoResponse(text) => QdlErrorModel::NoResponse(text@),
            QdlError::Open(text) => QdlErrorModel::Open(text@),
            QdlError::Failure(text) => QdlErrorModel::Failure(text@),
        }
    }
}

impl View for VolumeError {
    type V = VolumeErrorModel;

    open spec fn view(&self) -> VolumeErrorModel {
        match self {
            VolumeError::UnknownTargetRequested => VolumeErrorModel::UnknownTargetRequested,
            VolumeError::Internal(text) => VolumeErrorModel::Internal(text@),
            VolumeError::Failure(text) => VolumeErrorModel::Failure(text@),
        }
    }
}

impl QdlErrorModel {
    /// The error in words.
    pub open spec fn words(self) -> Seq<char> {
        match self {
            QdlErrorModel::SessionGone => "qdl session is gone"@,
            QdlErrorModel::NoResponse(text) => "qdl session did not respond: "@ + text,
            QdlErrorModel::Open(text) => "Failed to open device: "@ + text,
            QdlErrorModel::Failure(text) => "qdl failure: "@ + text,
        }
    }

    /// The error as one of the volume: the server's where the session is at
    /// fault, the device's otherwise.
    pub open spec fn of_volume(self) -> VolumeErrorModel {
        match self {
            QdlErrorModel::SessionGone | QdlErrorModel::NoResponse(_) => {
                VolumeErrorModel::Internal(self.words())
            },
            QdlErrorModel::Open(_) | QdlErrorModel::Failure(_) => {
                VolumeErrorModel::Failure(self.words())
            },
        }
    }
}

impl QdlError {
    /// The error in words.
    pub fn message(&self) -> (r: String)
        ensures
            r@ == self@.words(),
    {
        match self {
            QdlError::SessionGone => "qdl session is gone".to_owned(),
            QdlError::NoResponse(text) => "qdl session did not respond: ".to_owned().concat(
                text.as_str(),
            ),
            QdlError::Open(text) => "Failed to open device: ".to_owned().concat(text.as_str()),
            QdlError::Failure(text) => "qdl failure: ".to_owned().concat(text.as_str()),
        }
    }
}

impl From<QdlError> for VolumeError {
    fn from(e: QdlError) -> (r: Self)
        ensures
            r@ == e@.of_volume(),
            match e {
                QdlError::SessionGone | QdlError::NoResponse(_) => r is Internal,
                QdlError::Open(_) | QdlError::Failure(_) => r is Failure,
            },
    {
        let text = e.message();
        match e {
            QdlError::SessionGone => VolumeError::Internal(text),
            QdlError::NoResponse(_) => VolumeError::Internal(text),
            QdlError::Open(_) => VolumeError::Failure(text),
            QdlError::Failure(_) => VolumeError::Failure(text),
        }
    }
}

impl vstd::std_specs::convert::FromSpecImpl<QdlError> for VolumeError {
    open spec fn obeys_from_spec() -> bool {
        false
    }

    open spec fn from_spec(e: QdlError) -> Self {
        arbitrary()
    }
}

/// How the device of a session is opened.
pub fn open_device(parameters: &SessionParameters) -> (r: DeviceSetup)
    ensures
        r == device_setup(*parameters),
        r.backend == Backend::Usb,
        r.storage_type == parameters.storage,
        r.storage_sector_size == parameters.sector_size,
        !r.bypass_storage,
        !r.reset_on_drop,
{
    DeviceSetup {
        backend: Backend::Usb,
        storage_type: parameters.storage,
        storage_sector_size: parameters.sector_size,
        bypass_storage: false,
        reset_on_drop: false,
    }
}

/// How the device of a session is opened: over USB, so that writes to its
/// storage take effect, and without being reset at the end.
pub open spec fn device_setup(parameters: SessionParameters) -> DeviceSetup {
    DeviceSetup {
        backend: Backend::Usb,
        storage_type: parameters.storage,
        storage_sector_size: parameters.sector_size,
        bypass_storage: false,
        reset_on_drop: false,
    }
}

/// The images that are handed to the device when it asks for one.
pub open spec fn programmer_images(data: Seq<u8>) -> Seq<Option<Seq<u8>>> {
    seq![Some(data)]
}

/// What several images stand for.
pub open spec fn image_models(images: Seq<Option<Vec<u8>>>) -> Seq<Option<Seq<u8>>> {
    images.map_values(
        |i: Option<Vec<u8>>|
            match i {
                Some(v) => Some(v@),
                None => None,
            },
    )
}

/// An upload that waits for the device to be opened.
#[derive(Debug)]
pub struct PendingUpload {
    data: bytes::Bytes,
}

impl PendingUpload {
    /// The image that is to be uploaded.
    pub closed spec fn image(&self) -> Seq<u8> {
        frozen(self.data)
    }
}

/// How an upload begins.
#[derive(Debug)]
pub enum Upload {
    /// Open the device first, and tell [`Session::device_opened`].
    OpenFirst(DeviceSetup, PendingUpload),
    /// Hand these images to the device, which is open.
    Run(Vec<Option<Vec<u8>>>),
}

/// A session with one device.
#[derive(Debug)]
pub struct Session {
    parameters: SessionParameters,
    device_open: bool,
}

/// What a [`Session`] stands for.
pub struct SessionModel {
    pub parameters: SessionParameters,
    pub device_open: bool,
}

impl View for Session {
    type V = SessionModel;

    closed spec fn view(&self) -> SessionModel {
        SessionModel { parameters: self.parameters, device_open: self.device_open }
    }
}

impl SessionModel {
    /// The session once opening the device has worked out, or has not.
    pub open spec fn opened(self, ok: bool) -> SessionModel {
        SessionModel { device_open: self.device_open || ok, ..self }
    }

    /// The session after an upload: the device is asked to open unless it is open.
    pub open spec fn next(self, attempt: Attempt) -> SessionModel {
        if self.device_open {
            self
        } else {
            self.opened(attempt.opening is Ok)
        }
    }

    /// The reply to an upload.
    pub open spec fn reply(self, attempt: Attempt) -> Result<(), QdlErrorModel> {
        if self.device_open {
            run_outcome(attempt.run)
        } else {
            match attempt.opening {
                Err(text) => Err(QdlErrorModel::Open(text)),
                Ok(_) => run_outcome(attempt.run),
            }
        }
    }
}

/// How the device takes an upload: whether it opens, if it is asked to, and whether
/// it takes the images, if they are handed to it. The texts say why not.
pub struct Attempt {
    pub opening: Result<(), Seq<char>>,
    pub run: Result<(), Seq<char>>,
}

/// The outcome of an upload whose images were handed to the device.
pub open spec fn run_outcome(run: Result<(), Seq<char>>) -> Result<(), QdlErrorModel> {
    match run {
        Ok(_) => Ok(()),
        Err(text) => Err(QdlErrorModel::Failure(text)),
    }
}

/// What an outcome with a text stands for.
pub open spec fn text_model(r: Result<(), String>) -> Result<(), Seq<char>> {
    match r {
        Ok(_) => Ok(()),
        Err(text) => Err(text@),
    }
}

/// What a reply stands for.
pub open spec fn reply_model(r: Result<(), QdlError>) -> Result<(), QdlErrorModel> {
    match r {
        Ok(_) => Ok(()),
        Err(e) => Err(e@),
    }
}

fn images_of(data: &bytes::Bytes) -> (r: Vec<Option<Vec<u8>>>)
    ensures
        image_models(r@) == programmer_images(frozen(*data)),
        r@.len() == 1,
        r@[0] is Some,
        r@[0]->0@ == frozen(*data),
{
    let mut images: Vec<Option<Vec<u8>>> = Vec::new();
    images.push(Some(frozen_to_vec(data)));
    assert(image_models(images@) == programmer_images(frozen(*data)));
    images
}

impl Session {
    /// A session whose device has not been opened yet.
    pub fn new(parameters: SessionParameters) -> (r: Session)
        ensures
            r@ == (SessionModel { parameters, device_open: false }),
    {
        Session { parameters, device_open: false }
    }

    /// Begins to upload the programmer `data`. Everything is treated as a single
    /// image.
    pub fn send_programmer(&self, data: bytes::Bytes) -> (r: Upload)
        ensures
            match r {
                Upload::OpenFirst(setup, pending) => {
                    &&& !self@.device_open
                    &&& setup == device_setup(self@.parameters)
                    &&& setup.backend == Backend::Usb
                    &&& setup.storage_type == self@.parameters.storage
                    &&& setup.storage_sector_size == self@.parameters.sector_size
                    &&& !setup.bypass_storage
                    &&& !setup.reset_on_drop
                    &&& pending.image() == frozen(data)
                },
                Upload::Run(images) => {
                    &&& self@.device_open
                    &&& images@.len() == 1
                    &&& images@[0] is Some
                    &&& images@[0]->0@ == frozen(data)
                    &&& image_models(images@) == programmer_images(frozen(data))
                },
            },
    {
        if self.device_open {
            Upload::Run(images_of(&data))
        } else {
            Upload::OpenFirst(open_device(&self.parameters), PendingUpload { data })
        }
    }

    /// Takes note of whether the device could be opened, and goes on with the
    /// upload if it could.
    pub fn device_opened(
        &mut self,
        pending: PendingUpload,
        opened: Result<(), String>,
    ) -> (r: Result<Vec<Option<Vec<u8>>>, QdlError>)
        ensures
            final(self)@ == old(self)@.opened(opened is Ok),
            match opened {
                Ok(_) => {
                    &&& r is Ok
                    &&& image_models(r->Ok_0@) == programmer_images(pending.image())
                    &&& r->Ok_0@.len() == 1
                    &&& r->Ok_0@[0] is Some
                    &&& r->Ok_0@[0]->0@ == pending.image()
                },
                Err(text) => {
                    &&& r is Err
                    &&& r->Err_0@ == QdlErrorModel::Open(text@)
                    &&& r->Err_0 == QdlError::Open(text)
                },
            },
    {
        match opened {
            Ok(_) => {
                self.device_open = true;
                Ok(images_of(&pending.data))
            },
            Err(text) => Err(QdlError::Open(text)),
        }
    }
}

/// The outcome of an upload that the device took, or failed to take.
pub fn upload_result(run: Result<(), String>) -> (r: Result<(), QdlError>)
    ensures
        reply_model(r) == run_outcome(text_model(run)),
        match run {
            Ok(_) => r is Ok,
            Err(text) => r == Err::<(), QdlError>(QdlError::Failure(text)),
        },
{
    match run {
        Ok(_) => Ok(()),
        Err(text) => Err(QdlError::Failure(text)),
    }
}

/// A session after uploads that the device took as `attempts` say.
pub open spec fn session_after(
    parameters: SessionParameters,
    attempts: Seq<Attempt>,
) -> SessionModel
    decreases attempts.len(),
{
    if attempts.len() == 0 {
        SessionModel { parameters, device_open: false }
    } else {
        session_after(parameters, attempts.drop_last()).next(attempts.last())
    }
}

/// The replies to uploads that the device took as `attempts` say, in order.
pub open spec fn replies(parameters: SessionParameters, attempts: Seq<Attempt>) -> Seq<
    Result<(), QdlErrorModel>,
>
    decreases attempts.len(),
{
    if attempts.len() == 0 {
        Seq::empty()
    } else {
        let front = attempts.drop_last();
        replies(parameters, front).push(session_after(parameters, front).reply(attempts.last()))
    }
}

/// The device is opened once: no upload has it opened before the first, each tries
/// to until one could, and none does after that.
pub proof fn law_device_is_opened_once(parameters: SessionParameters, attempts: Seq<Attempt>)
    ensures
        session_after(parameters, attempts).parameters == parameters,
        session_after(parameters, attempts).device_open <==> exists|i: int|
            0 <= i < attempts.len() && (#[trigger] attempts[i]).opening is Ok,
    decreases attempts.len(),
{
    if attempts.len() > 0 {
        let front = attempts.drop_last();
        law_device_is_opened_once(parameters, front);
        assert(forall|i: int| 0 <= i < front.len() ==> front[i] == attempts[i]);
        if session_after(parameters, front).device_open {
            let i = choose|i: int| 0 <= i < front.len() && (#[trigger] front[i]).opening is Ok;
            assert(attempts[i].opening is Ok);
        } else if attempts.last().opening is Ok {
            assert(attempts[attempts.len() - 1].opening is Ok);
        }
    }
}

/// Every upload gets one reply, in the order in which they came, and one that goes
/// wrong does not end the session: the reply to an upload is that of the session
/// which the uploads before it left behind.
pub proof fn law_every_upload_gets_one_reply(parameters: SessionParameters, attempts: Seq<Attempt>)
    ensures
        replies(parameters, attempts).len() == attempts.len(),
        forall|i: int|
            0 <= i < attempts.len() ==> #[trigger] replies(parameters, attempts)[i]
                == session_after(parameters, attempts.take(i)).reply(attempts[i]),
    decreases attempts.len(),
{
    if attempts.len() > 0 {
        let front = attempts.drop_last();
        law_every_upload_gets_one_reply(parameters, front);
        assert forall|i: int| 0 <= i < attempts.len() implies #[trigger] replies(
            parameters,
            attempts,
        )[i] == session_after(parameters, attempts.take(i)).reply(attempts[i]) by {
            if i < front.len() {
                assert(replies(parameters, attempts)[i] == replies(parameters, front)[i]);
                assert(front.take(i) == attempts.take(i));
            } else {
                assert(attempts.take(i) == front);
            }
        }
    }
}

/// What came of handing an upload to the session.
#[derive(Debug)]
pub enum Delivery {
    /// The session did not take it.
    NotTaken,
    /// The session took it and went away; the text says how that was noticed.
    NoReply(String),
    /// The session answered.
    Replied(Result<(), QdlError>),
}

/// The outcome of an upload that was handed to the session.
pub fn delivery_result(delivery: Delivery) -> (r: Result<(), QdlError>)
    ensures
        match delivery {
            Delivery::NotTaken => {
                &&& r is Err
                &&& r->Err_0@ == QdlErrorModel::SessionGone
                &&& r->Err_0 == QdlError::SessionGone
            },
            Delivery::NoReply(text) => {
                &&& r is Err
                &&& r->Err_0@ == QdlErrorModel::NoResponse(text@)
                &&& r->Err_0 == QdlError::NoResponse(text)
            },
            Delivery::Replied(reply) => r == reply,
        },
{
    match delivery {
        Delivery::NotTaken => Err(QdlError::SessionGone),
        Delivery::NoReply(text) => Err(QdlError::NoResponse(text)),
        Delivery::Replied(reply) => reply,
    }
}

/// Whatever the storage, a device is opened over USB, in such a way that writes to
/// its storage take effect and it is not reset at the end, with the storage type and
/// the sector size of its session.
pub proof fn law_device_is_opened_for_writing(parameters: SessionParameters)
    ensures
        device_setup(parameters).backend == Backend::Usb,
        device_setup(parameters).storage_type == parameters.storage,
        device_setup(parameters).storage_sector_size == parameters.sector_size,
        !device_setup(parameters).bypass_storage,
        !device_setup(parameters).reset_on_drop,
{
}

/// The device is handed one image, which is the whole of what was uploaded.
pub proof fn law_upload_is_one_image(data: Seq<u8>, images: Seq<Option<Vec<u8>>>)
    ensures
        programmer_images(data).len() == 1,
        programmer_images(data)[0] == Some(data),
        image_models(images).len() == images.len(),
        forall|i: int|
            0 <= i < images.len() ==> match images[i] {
                Some(v) => #[trigger] image_models(images)[i] == Some(v@),
                None => image_models(images)[i] is None,
            },
{
}

/// Each error reads as its own words with the text that it carries behind them.
pub proof fn law_errors_read_as_their_words(text: Seq<char>)
    ensures
        QdlErrorModel::SessionGone.words() == "qdl session is gone"@,
        QdlErrorModel::NoResponse(text).words() == "qdl session did not respond: "@ + text,
        QdlErrorModel::Open(text).words() == "Failed to open device: "@ + text,
        QdlErrorModel::Failure(text).words() == "qdl failure: "@ + text,
{
}

/// A session that is gone or silent is the server's fault, a device that does not
/// open or fails is the device's, and either way a client reads the same words.
pub proof fn law_fault_is_the_servers_or_the_devices(e: QdlErrorModel)
    ensures
        e is SessionGone || e is NoResponse ==> e.of_volume() == VolumeErrorModel::Internal(
            e.words(),
        ),
        e is Open || e is Failure ==> e.of_volume() == VolumeErrorModel::Failure(e.words()),
{
}

/// Errors and replies stand for what they carry.
pub proof fn law_errors_stand_for_their_parts(
    e: QdlError,
    v: VolumeError,
    reply: Result<(), QdlError>,
    outcome: Result<(), String>,
)
    ensures
        e is SessionGone ==> e@ is SessionGone,
        e matches QdlError::NoResponse(t) ==> e@ == QdlErrorModel::NoResponse(t@),
        e matches QdlError::Open(t) ==> e@ == QdlErrorModel::Open(t@),
        e matches QdlError::Failure(t) ==> e@ == QdlErrorModel::Failure(t@),
        v is UnknownTargetRequested ==> v@ is UnknownTargetRequested,
        v matches VolumeError::Internal(t) ==> v@ == VolumeErrorModel::Internal(t@),
        v matches VolumeError::Failure(t) ==> v@ == VolumeErrorModel::Failure(t@),
        reply is Ok <==> reply_model(reply) is Ok,
        reply matches Err(x) ==> reply_model(reply) == Err::<(), QdlErrorModel>(x@),
        outcome is Ok <==> text_model(outcome) is Ok,
        outcome matches Err(t) ==> text_model(outcome) == Err::<(), Seq<char>>(t@),
{
}

/// An upload is answered by why the device did not open if neither it nor any upload
/// before it could have it opened, and by what the device made of the images
/// otherwise.
pub proof fn law_reply_tells_what_happened(
    parameters: SessionParameters,
    attempts: Seq<Attempt>,
    i: int,
)
    requires
        0 <= i < attempts.len(),
    ensures
        ({
            let opened = exists|j: int| 0 <= j <= i && (#[trigger] attempts[j]).opening is Ok;
            &&& opened ==> replies(parameters, attempts)[i] == match attempts[i].run {
                Ok(_) => Ok::<(), QdlErrorModel>(()),
                Err(text) => Err(QdlErrorModel::Failure(text)),
            }
            &&& !opened ==> replies(parameters, attempts)[i] == Err::<(), QdlErrorModel>(
                QdlErrorModel::Open(attempts[i].opening->Err_0),
            )
        }),
{
    let front = attempts.take(i);
    law_every_upload_gets_one_reply(parameters, attempts);
    law_device_is_opened_once(parameters, front);
    assert(forall|j: int| 0 <= j < i ==> front[j] == attempts[j]);
    if exists|j: int| 0 <= j < front.len() && (#[trigger] front[j]).opening is Ok {
        let j = choose|j: int| 0 <= j < front.len() && (#[trigger] front[j]).opening is Ok;
        assert(attempts[j].opening is Ok);
    }
    if exists|j: int| 0 <= j <= i && (#[trigger] attempts[j]).opening is Ok {
        let j = choose|j: int| 0 <= j <= i && (#[trigger] attempts[j]).opening is Ok;
        if j < i {
            assert(front[j].opening is Ok);
        }
    } else {
        assert(!(attempts[i].opening is Ok));
    }
}

} // verus!
