use boardswarm_qdl::provider::{
    candidate_name, react, session_parameters, DeviceEvent, ProviderError, Reaction,
    StorageRequest, UsbDevice, PROVIDER,
};
use boardswarm_qdl::session::{SessionParameters, StorageType};

const DEVICE: UsbDevice = UsbDevice {
    vendor: Some(0x05c6),
    model: Some(0x9008),
    busnum: Some(1),
    devnum: Some(12),
};

#[test]
fn devices_in_download_mode_are_offered() {
    assert_eq!(PROVIDER, "qdl");
    assert_eq!(candidate_name(&DEVICE), Some("qdl 1/12".to_string()));
}

#[test]
fn other_devices_are_not_offered() {
    for device in [
        UsbDevice { vendor: Some(0x05c7), ..DEVICE },
        UsbDevice { vendor: None, ..DEVICE },
        UsbDevice { model: Some(0x900e), ..DEVICE },
        UsbDevice { model: None, ..DEVICE },
        UsbDevice { busnum: None, ..DEVICE },
        UsbDevice { devnum: None, ..DEVICE },
    ] {
        assert_eq!(candidate_name(&device), None);
    }
}

#[test]
fn volumes_at_different_places_have_different_names() {
    let name = |busnum, devnum| {
        candidate_name(&UsbDevice { busnum: Some(busnum), devnum: Some(devnum), ..DEVICE }).unwrap()
    };
    assert_ne!(name(1, 12), name(11, 2));
    assert_ne!(name(1, 12), name(1, 2));
    assert_eq!(name(u64::MAX, 0), "qdl 18446744073709551615/0");
}

#[test]
fn storage_defaults_to_emmc() {
    assert_eq!(StorageRequest::Absent.storage(), Ok(StorageType::Emmc));
    assert_eq!(StorageRequest::Unknown.storage(), Err(ProviderError::UnknownStorage));
    assert_eq!(StorageRequest::Known(StorageType::Nvme).storage(), Ok(StorageType::Nvme));
}

#[test]
fn sessions_take_the_sector_size_that_is_given() {
    assert_eq!(
        session_parameters(StorageRequest::Absent, None, Some(512)),
        Ok(SessionParameters { storage: StorageType::Emmc, sector_size: 512 })
    );
    assert_eq!(
        session_parameters(StorageRequest::Known(StorageType::Ufs), Some(8192), Some(4096)),
        Ok(SessionParameters { storage: StorageType::Ufs, sector_size: 8192 })
    );
    assert_eq!(
        session_parameters(StorageRequest::Known(StorageType::Spinor), None, None),
        Err(ProviderError::NoSectorSize(StorageType::Spinor))
    );
    assert_eq!(
        session_parameters(StorageRequest::Unknown, Some(512), None),
        Err(ProviderError::UnknownStorage)
    );
}

#[test]
fn each_event_has_its_reaction() {
    let stranger = UsbDevice { model: Some(1), ..DEVICE };
    for _ in 0..2 {
        assert!(matches!(
            react(&DeviceEvent::Added { device: DEVICE, matches: true }),
            Reaction::Register { name } if name == "qdl 1/12"
        ));
        assert!(matches!(
            react(&DeviceEvent::Added { device: DEVICE, matches: false }),
            Reaction::Ignore
        ));
        assert!(matches!(
            react(&DeviceEvent::Added { device: stranger, matches: true }),
            Reaction::Ignore
        ));
        assert!(matches!(react(&DeviceEvent::Removed), Reaction::Remove));
    }
}
