use boardswarm_qdl::session::VolumeError;
use boardswarm_qdl::volume::{
    buffer_capacity, ProgrammerTarget, QdlVolume, WriteError, PROGRAMMER_MAX_SIZE,
    TARGET_PROGRAMMER,
};

#[test]
fn the_programmer_is_the_only_target() {
    assert_eq!(TARGET_PROGRAMMER, "programmer");
    let volume = QdlVolume::new();
    let (targets, exhaustive) = volume.targets();
    assert!(exhaustive);
    assert_eq!(targets.len(), 1);
    assert_eq!(targets[0].name, "programmer");
    assert!(!targets[0].readable);
    assert!(targets[0].writable);
    assert!(!targets[0].seekable);
    assert_eq!(targets[0].size, None);
    assert_eq!(targets[0].blocksize, None);
    assert!(volume.commit().is_ok());
}

#[test]
fn other_targets_are_unknown() {
    let volume = QdlVolume::new();
    for name in ["", "lun0", "Programmer", "programmer "] {
        assert!(matches!(
            volume.open(name, None),
            Err(VolumeError::UnknownTargetRequested)
        ));
    }
}

#[test]
fn an_image_is_what_was_written() {
    let (info, mut target) = QdlVolume::new().open("programmer", Some(6)).unwrap();
    assert_eq!(info.name, "programmer");
    assert!(info.writable && !info.readable);
    assert_eq!(target.write(&[1, 2, 3], 0), Ok(3));
    assert_eq!(target.write(&[], 3), Ok(0));
    assert_eq!(target.write(&[4, 5], 3), Ok(2));
    assert_eq!(target.take_image(), &[1u8, 2, 3, 4, 5][..]);
    // The next image starts from nothing
    assert_eq!(target.take_image(), &[][..]);
    assert_eq!(target.write(&[6], 0), Ok(1));
    assert_eq!(target.take_image(), &[6u8][..]);
}

#[test]
fn writes_have_to_follow_each_other() {
    let mut target = ProgrammerTarget::new(None);
    assert_eq!(target.write(&[1], 1), Err(WriteError::InvalidOffset));
    assert_eq!(target.write(&[1], 0), Ok(1));
    assert_eq!(target.write(&[1], 0), Err(WriteError::InvalidOffset));
    assert_eq!(target.write(&[1], u64::MAX), Err(WriteError::InvalidOffset));
    assert_eq!(target.take_image(), &[1u8][..]);
    assert_eq!(WriteError::InvalidOffset.message(), "Invalid offset");
}

#[test]
fn refused_writes_leave_no_trace() {
    let mut target = ProgrammerTarget::new(Some(4));
    let big = vec![9u8; PROGRAMMER_MAX_SIZE];
    assert_eq!(target.write(&[1, 2], 0), Ok(2));
    assert_eq!(target.write(&[8, 8], 1), Err(WriteError::InvalidOffset));
    assert_eq!(target.write(&big, 2), Err(WriteError::TooBig));
    assert_eq!(target.write(&[3], 2), Ok(1));
    assert_eq!(target.write(&[8], 2), Err(WriteError::InvalidOffset));
    assert_eq!(target.write(&[4, 5], 3), Ok(2));
    assert_eq!(target.take_image(), &[1u8, 2, 3, 4, 5][..]);
}

#[test]
fn images_have_a_largest_size() {
    assert_eq!(PROGRAMMER_MAX_SIZE, 16777216);
    let mut target = ProgrammerTarget::new(Some(u64::MAX));
    let half = vec![7u8; PROGRAMMER_MAX_SIZE / 2];
    let n = half.len() as u64;
    assert_eq!(target.write(&half, 0), Ok(n));
    assert_eq!(target.write(&half, n), Ok(n));
    assert_eq!(target.write(&[], 2 * n), Ok(0));
    assert_eq!(target.write(&[1], 2 * n), Err(WriteError::TooBig));
    assert_eq!(target.take_image().len(), PROGRAMMER_MAX_SIZE);
    assert_eq!(WriteError::TooBig.message(), "Programmer too big");

    let mut target = ProgrammerTarget::new(None);
    let all = vec![7u8; PROGRAMMER_MAX_SIZE + 1];
    assert_eq!(target.write(&all, 0), Err(WriteError::TooBig));
    assert_eq!(target.write(&all[1..], 0), Ok(PROGRAMMER_MAX_SIZE as u64));
}

#[test]
fn memory_is_set_aside_within_bounds() {
    assert_eq!(buffer_capacity(None), 1048576);
    assert_eq!(buffer_capacity(Some(0)), 0);
    assert_eq!(buffer_capacity(Some(12345)), 12345);
    assert_eq!(buffer_capacity(Some(16777216)), 16777216);
    assert_eq!(buffer_capacity(Some(16777217)), 16777216);
    assert_eq!(buffer_capacity(Some(u64::MAX)), 16777216);
}
