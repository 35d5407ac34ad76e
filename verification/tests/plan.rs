use boardswarm_qdl::plan::{
    can_plan_patch, can_plan_write, check_patch, check_program, check_target, patch_sector,
    patch_target, plan_patch, plan_write, program_len, target_name, PatchPlan, PlanError,
    TargetProblem, WritePlan,
};
use boardswarm_qdl::rawprogram::{Patch, Program};
use boardswarm_qdl::sectors::SectorProblem;

fn program(start_sector: &str) -> Program {
    Program {
        label: "xbl_a".to_string(),
        filename: "xbl.elf".to_string(),
        lun: 1,
        sector_size: 4096,
        num_sectors: 928,
        start_sector: start_sector.to_string(),
        file_sector_offset: 2,
    }
}

fn patch(start_sector: &str, value: &str) -> Patch {
    Patch {
        lun: 0,
        sector_size: 4096,
        start_sector: start_sector.to_string(),
        byte_offset: 24,
        size_in_bytes: 4,
        value: value.to_string(),
        what: "Update".to_string(),
    }
}

#[test]
fn targets_are_named_after_their_unit() {
    assert_eq!(target_name(0), "lun0");
    assert_eq!(target_name(10), "lun10");
    assert_eq!(target_name(255), "lun255");
}

#[test]
fn targets_have_to_line_up() {
    assert_eq!(check_target("lun0", Some(512), Some(1025), 512).unwrap(), Some(2));
    assert_eq!(check_target("lun0", Some(512), None, 512).unwrap(), None);
    let e = check_target("lun0", Some(4096), Some(1024), 512).unwrap_err();
    assert_eq!(e.target, "lun0");
    assert_eq!(e.problem, TargetProblem::SectorSize { reported: 4096, expected: 512 });
    let e = check_target("lun3", None, Some(1024), 512).unwrap_err();
    assert_eq!(e.target, "lun3");
    assert_eq!(e.problem, TargetProblem::NoSectorSize);
    // The sector size of a file may exceed what a target can report
    let e = check_target("lun0", Some(0), None, 1 << 32).unwrap_err();
    assert_eq!(e.problem, TargetProblem::SectorSize { reported: 0, expected: 1 << 32 });
}

#[test]
fn programs_are_written_where_they_belong() {
    let p = program("6");
    assert_eq!(program_len(&p), 928 * 4096);
    assert!(can_plan_write(&p, Some(4096), None));
    assert_eq!(
        plan_write(&p, Some(4096), None).unwrap(),
        WritePlan {
            start: 6,
            device_offset: 24576,
            file_offset: 8192,
            len: 3801088,
        }
    );
    let p = program("NUM_DISK_SECTORS-5.");
    assert!(can_plan_write(&p, Some(4096), Some(409600)));
    let plan = plan_write(&p, Some(4096), Some(409600)).unwrap();
    assert_eq!(plan.start, 95);
    assert_eq!(plan.device_offset, 95 * 4096);
}

#[test]
fn programs_that_do_not_fit_their_target_are_refused() {
    match plan_write(&program("6"), Some(512), None) {
        Err(PlanError::Target(e)) => {
            assert_eq!(e.target, "lun1");
            assert_eq!(e.problem, TargetProblem::SectorSize { reported: 512, expected: 4096 });
        }
        other => panic!("{other:?}"),
    }
    match plan_write(&program("NUM_DISK_SECTORS-5."), Some(4096), None) {
        Err(PlanError::Placement { label, cause }) => {
            assert_eq!(label, "xbl_a");
            assert_eq!(cause.expr, "NUM_DISK_SECTORS-5.");
            assert_eq!(cause.problem, SectorProblem::SizeUnknown);
        }
        other => panic!("{other:?}"),
    }
}

#[test]
fn overflowing_programs_are_noticed() {
    assert!(!can_plan_write(&program("18446744073709551615"), Some(4096), None));
    let mut p = program("0");
    p.num_sectors = u64::MAX;
    assert!(!can_plan_write(&p, None, None));
    let mut p = program("0");
    p.file_sector_offset = u64::MAX;
    assert!(!can_plan_write(&p, Some(4096), None));
    // Nothing is computed from the offset where the target does not suit
    assert!(can_plan_write(&p, None, None));
    assert!(can_plan_write(&program("NUM_DISK_SECTORS\u{2212}1"), Some(4096), Some(4096)));
    let mut p = program("0");
    p.sector_size = 0;
    assert!(!can_plan_write(&p, Some(0), Some(4096)));
    assert!(can_plan_write(&p, Some(0), None));
}

#[test]
fn patches_go_to_one_sector() {
    let p = patch("1", "NUM_DISK_SECTORS-1.");
    assert_eq!(patch_target(&p).unwrap(), "lun0");
    assert!(can_plan_patch(&p, Some(4096), Some(409600)));
    assert_eq!(
        plan_patch(&p, Some(4096), Some(409600)).unwrap(),
        PatchPlan {
            sector: 1,
            offset: 4096,
            sector_size: 4096,
            in_sector: 24,
            size: 4,
            value: 99,
        }
    );
    // The offset may lead into a later sector
    let mut p = patch("1", "7");
    p.byte_offset = 2 * 4096 + 4092;
    let plan = plan_patch(&p, Some(4096), None).unwrap();
    assert_eq!(plan.sector, 3);
    assert_eq!(plan.offset, 3 * 4096);
    assert_eq!(plan.in_sector, 4092);
}

#[test]
fn patches_that_cannot_be_applied_are_refused() {
    for n in [0, 9, u64::MAX] {
        let mut p = patch("1", "7");
        p.size_in_bytes = n;
        assert!(matches!(patch_target(&p), Err(PlanError::PatchSize(m)) if m == n));
        assert!(can_plan_patch(&p, None, None));
        assert!(matches!(plan_patch(&p, None, None), Err(PlanError::PatchSize(m)) if m == n));
    }
    assert!(matches!(
        plan_patch(&patch("1", "7"), None, None),
        Err(PlanError::Target(e)) if e.target == "lun0" && e.problem == TargetProblem::NoSectorSize
    ));
    assert!(matches!(
        plan_patch(&patch("x", "y"), Some(4096), None),
        Err(PlanError::Start(e)) if e.expr == "x" && e.problem == SectorProblem::Unsupported
    ));
    match plan_patch(&patch("1", "CRC32(2,16384)"), Some(4096), None) {
        Err(PlanError::Value { what, cause }) => {
            assert_eq!(what, "Update");
            assert_eq!(cause.problem, SectorProblem::NeedsChecksum);
        }
        other => panic!("{other:?}"),
    }
    let mut p = patch("1", "7");
    p.byte_offset = 4093;
    assert!(matches!(
        plan_patch(&p, Some(4096), None),
        Err(PlanError::Straddles { what }) if what == "Update"
    ));
}

#[test]
fn overflowing_patches_are_noticed() {
    assert!(!can_plan_patch(&patch("18446744073709551615", "7"), Some(4096), None));
    let mut p = patch("1", "7");
    p.byte_offset = u64::MAX;
    assert!(!can_plan_patch(&p, Some(4096), None));
    let mut p = patch("1", "7");
    p.sector_size = 0;
    assert!(!can_plan_patch(&p, Some(0), None));
    assert!(!can_plan_patch(&p, Some(0), Some(1)));
    assert!(can_plan_patch(&patch("1", "NUM_DISK_SECTORS\u{2212}1"), Some(4096), Some(4096)));
    assert!(can_plan_patch(&patch("NUM_DISK_SECTORS\u{2212}1", "1"), Some(4096), Some(4096)));
}

#[test]
fn patches_change_their_bytes_only() {
    let plan = PatchPlan {
        sector: 0,
        offset: 0,
        sector_size: 16,
        in_sector: 3,
        size: 4,
        value: 0x1122_3344_5566_7788,
    };
    let mut sector: Vec<u8> = (100..116).collect();
    patch_sector(&mut sector, &plan);
    assert_eq!(
        sector,
        [100, 101, 102, 0x88, 0x77, 0x66, 0x55, 107, 108, 109, 110, 111, 112, 113, 114, 115]
    );
    let once = sector.clone();
    patch_sector(&mut sector, &plan);
    assert_eq!(sector, once);

    let whole = PatchPlan { in_sector: 8, size: 8, ..plan };
    patch_sector(&mut sector, &whole);
    assert_eq!(sector[8..], plan.value.to_le_bytes());
    assert_eq!(sector[..8], once[..8]);
}

#[test]
fn a_sector_written_back_is_the_storage_patched_in_place() {
    let mut storage: Vec<u8> = (0..64).collect();
    let mut p = patch("1", "515");
    p.sector_size = 16;
    p.byte_offset = 20;
    p.size_in_bytes = 2;
    let plan = plan_patch(&p, Some(16), Some(64)).unwrap();
    let range = plan.offset as usize..(plan.offset + plan.sector_size) as usize;
    let mut sector = storage[range.clone()].to_vec();
    patch_sector(&mut sector, &plan);
    storage[range].copy_from_slice(&sector);
    for (i, b) in storage.iter().enumerate() {
        let expected = match i {
            36 => 3,
            37 => 2,
            _ => i as u8,
        };
        assert_eq!(*b, expected);
    }
}

#[test]
fn programs_that_suit_some_target_are_sound() {
    for start in ["0", "NUM_DISK_SECTORS", "NUM_DISK_SECTORS-5.", "NUM_DISK_SECTORS+5."] {
        assert!(check_program(&program(start)).is_ok());
    }
    // The last sector that an offset reaches, and one behind it
    assert!(check_program(&program("4503599627370495")).is_ok());
    assert!(check_program(&program("4503599627370496")).is_err());
    assert!(check_program(&program("NUM_DISK_SECTORS-4503599627370495")).is_ok());
    assert!(check_program(&program("NUM_DISK_SECTORS-4503599627370496")).is_err());
    // Sectors without a size leave only plain numbers
    let mut p = program("7");
    p.sector_size = 0;
    assert!(check_program(&p).is_ok());
    let mut p = program("NUM_DISK_SECTORS");
    p.sector_size = 0;
    assert!(matches!(check_program(&p), Err(PlanError::OutOfRange { name }) if name == "xbl_a"));
}

#[test]
fn programs_that_suit_no_target_are_told() {
    match check_program(&program("whatever")) {
        Err(PlanError::Placement { label, cause }) => {
            assert_eq!(label, "xbl_a");
            assert_eq!(cause.expr, "whatever");
            assert_eq!(cause.problem, SectorProblem::Unsupported);
        }
        other => panic!("{other:?}"),
    }
    let mut p = program("0");
    p.num_sectors = u64::MAX;
    assert!(matches!(check_program(&p), Err(PlanError::OutOfRange { .. })));
    let mut p = program("0");
    p.file_sector_offset = u64::MAX;
    assert!(matches!(check_program(&p), Err(PlanError::OutOfRange { .. })));
    let mut p = program("0");
    p.num_sectors = 1;
    p.sector_size = 1 << 32;
    assert!(matches!(check_program(&p), Err(PlanError::OutOfRange { .. })));
}

#[test]
fn patches_that_suit_some_target_are_sound() {
    assert!(check_patch(&patch("1", "7")).is_ok());
    assert!(check_patch(&patch("NUM_DISK_SECTORS-1.", "NUM_DISK_SECTORS-33.")).is_ok());
    assert!(check_patch(&patch("NUM_DISK_SECTORS+1.", "NUM_DISK_SECTORS-33.")).is_ok());
    assert!(check_patch(&patch("1", "18446744073709551615")).is_ok());
}

#[test]
fn patches_that_suit_no_target_are_told() {
    for n in [0, 9, 16] {
        let mut p = patch("whatever", "whatever");
        p.size_in_bytes = n;
        assert!(matches!(check_patch(&p), Err(PlanError::PatchSize(m)) if m == n));
    }
    assert!(matches!(
        check_patch(&patch("whatever", "CRC32(0)")),
        Err(PlanError::Start(e)) if e.expr == "whatever" && e.problem == SectorProblem::Unsupported
    ));
    match check_patch(&patch("NUM_DISK_SECTORS-1.", "CRC32(0)")) {
        Err(PlanError::Value { what, cause }) => {
            assert_eq!(what, "Update");
            assert_eq!(cause.problem, SectorProblem::NeedsChecksum);
        }
        other => panic!("{other:?}"),
    }
    let mut p = patch("NUM_DISK_SECTORS-1.", "7");
    p.byte_offset = 4096 + 4093;
    assert!(matches!(
        check_patch(&p),
        Err(PlanError::Straddles { what }) if what == "Update"
    ));
    p.byte_offset = 4096 + 4092;
    assert!(check_patch(&p).is_ok());
    p.byte_offset = u64::MAX - 4095;
    assert!(matches!(check_patch(&p), Ok(())));
    p.start_sector = "1".to_string();
    assert!(matches!(check_patch(&p), Err(PlanError::OutOfRange { name }) if name == "Update"));
    let mut p = patch("1", "7");
    p.sector_size = 0;
    assert!(matches!(check_patch(&p), Err(PlanError::OutOfRange { .. })));
    // Each expression alone has a value, but not on one and the same storage
    let p = patch("NUM_DISK_SECTORS+1", "NUM_DISK_SECTORS-4503599627370495");
    assert!(matches!(check_patch(&p), Err(PlanError::OutOfRange { .. })));
}
