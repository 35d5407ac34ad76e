use boardswarm_qdl::session::{
    delivery_result, open_device, upload_result, Backend, Delivery, DeviceSetup, QdlError,
    Session, SessionParameters, StorageType, Upload, VolumeError,
};

const PARAMETERS: SessionParameters = SessionParameters {
    storage: StorageType::Ufs,
    sector_size: 4096,
};

const SETUP: DeviceSetup = DeviceSetup {
    backend: Backend::Usb,
    storage_type: StorageType::Ufs,
    storage_sector_size: 4096,
    bypass_storage: false,
    reset_on_drop: false,
};

fn image(bytes: &[u8]) -> bytes::Bytes {
    bytes::Bytes::copy_from_slice(bytes)
}

#[test]
fn devices_are_opened_so_that_writes_take_effect() {
    assert_eq!(open_device(&PARAMETERS), SETUP);
    let nand = SessionParameters { storage: StorageType::Nand, sector_size: 1 };
    assert_eq!(
        open_device(&nand),
        DeviceSetup { storage_type: StorageType::Nand, storage_sector_size: 1, ..SETUP }
    );
}

#[test]
fn the_device_is_opened_by_the_first_upload_that_can() {
    let mut session = Session::new(PARAMETERS);

    let pending = match session.send_programmer(image(&[1, 2, 3])) {
        Upload::OpenFirst(setup, pending) => {
            assert_eq!(setup, SETUP);
            pending
        }
        other => panic!("{other:?}"),
    };
    let e = session.device_opened(pending, Err("busy".to_string())).unwrap_err();
    assert_eq!(e.message(), "Failed to open device: busy");

    let pending = match session.send_programmer(image(&[4, 5])) {
        Upload::OpenFirst(_, pending) => pending,
        other => panic!("{other:?}"),
    };
    let images = session.device_opened(pending, Ok(())).unwrap();
    assert_eq!(images, vec![Some(vec![4, 5])]);

    for _ in 0..2 {
        match session.send_programmer(image(&[6])) {
            Upload::Run(images) => assert_eq!(images, vec![Some(vec![6])]),
            other => panic!("{other:?}"),
        }
    }
}

#[test]
fn what_the_device_says_is_passed_on() {
    assert!(upload_result(Ok(())).is_ok());
    let e = upload_result(Err("no image wanted".to_string())).unwrap_err();
    assert!(matches!(&e, QdlError::Failure(t) if t == "no image wanted"));
    assert_eq!(e.message(), "qdl failure: no image wanted");
}

#[test]
fn deliveries_that_go_wrong_are_told_apart() {
    assert!(delivery_result(Delivery::Replied(Ok(()))).is_ok());
    assert!(matches!(
        delivery_result(Delivery::Replied(Err(QdlError::Open("x".to_string())))),
        Err(QdlError::Open(t)) if t == "x"
    ));
    let e = delivery_result(Delivery::NotTaken).unwrap_err();
    assert!(matches!(e, QdlError::SessionGone));
    assert_eq!(e.message(), "qdl session is gone");
    let e = delivery_result(Delivery::NoReply("channel closed".to_string())).unwrap_err();
    assert!(matches!(&e, QdlError::NoResponse(t) if t == "channel closed"));
    assert_eq!(e.message(), "qdl session did not respond: channel closed");
}

#[test]
fn faults_are_put_on_the_server_or_on_the_device() {
    assert!(matches!(
        VolumeError::from(QdlError::SessionGone),
        VolumeError::Internal(t) if t == "qdl session is gone"
    ));
    assert!(matches!(
        VolumeError::from(QdlError::NoResponse("x".to_string())),
        VolumeError::Internal(t) if t == "qdl session did not respond: x"
    ));
    assert!(matches!(
        VolumeError::from(QdlError::Open("y".to_string())),
        VolumeError::Failure(t) if t == "Failed to open device: y"
    ));
    assert!(matches!(
        VolumeError::from(QdlError::Failure("z".to_string())),
        VolumeError::Failure(t) if t == "qdl failure: z"
    ));
}
