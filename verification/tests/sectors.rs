use boardswarm_qdl::sectors::{can_resolve, eval_sectors, least_size, SectorProblem};
use boardswarm_qdl::text::NumberError;

#[test]
fn plain_sector_numbers() {
    assert_eq!(eval_sectors("0", None).unwrap(), 0);
    assert_eq!(eval_sectors("1234", None).unwrap(), 1234);
    // Size is only needed for expressions that refer to it
    assert_eq!(eval_sectors("6", None).unwrap(), 6);
}

#[test]
fn relative_to_end_of_disk() {
    // The trailing dot is how these are spelled in rawprogram files
    assert_eq!(eval_sectors("NUM_DISK_SECTORS-33.", Some(100)).unwrap(), 67);
    assert_eq!(eval_sectors("NUM_DISK_SECTORS-1.", Some(100)).unwrap(), 99);
    assert_eq!(eval_sectors("NUM_DISK_SECTORS", Some(100)).unwrap(), 100);
    assert_eq!(eval_sectors("NUM_DISK_SECTORS+2.", Some(100)).unwrap(), 102);
}

#[test]
fn needs_the_disk_size() {
    assert!(eval_sectors("NUM_DISK_SECTORS-33.", None).is_err());
}

#[test]
fn rejects_what_it_cannot_evaluate() {
    // The device computes these over its own storage
    assert!(eval_sectors("CRC32(2,16384)", Some(100)).is_err());
    assert!(eval_sectors("NUM_DISK_SECTORS-101.", Some(100)).is_err());
    assert!(eval_sectors("whatever", Some(100)).is_err());
}

#[test]
fn whitespace_and_dots_do_not_count() {
    assert_eq!(eval_sectors("  \t42\u{a0}\n", None).unwrap(), 42);
    assert_eq!(eval_sectors("42...", None).unwrap(), 42);
    assert_eq!(eval_sectors(" 42 . ", None).unwrap(), 42);
    assert_eq!(eval_sectors("+42", None).unwrap(), 42);
    assert_eq!(eval_sectors(" NUM_DISK_SECTORS - 33. ", Some(100)).unwrap(), 67);
    // Only one run of dots is taken off
    assert_eq!(problem("42. .", None), SectorProblem::Unsupported);
}

#[test]
fn plain_numbers_go_up_to_the_largest() {
    assert_eq!(eval_sectors("18446744073709551615", Some(1)).unwrap(), u64::MAX);
    assert_eq!(problem("18446744073709551616", Some(1)), SectorProblem::Unsupported);
}

fn problem(expr: &str, size: Option<u64>) -> SectorProblem {
    let e = eval_sectors(expr, size).unwrap_err();
    assert_eq!(e.expr, expr);
    e.problem
}

#[test]
fn each_problem_is_told_apart() {
    assert_eq!(problem("CRC32(2,16384)", None), SectorProblem::NeedsChecksum);
    assert_eq!(problem(" CRC32", Some(7)), SectorProblem::NeedsChecksum);
    assert_eq!(problem("", Some(7)), SectorProblem::Unsupported);
    assert_eq!(problem("num_disk_sectors", Some(7)), SectorProblem::Unsupported);
    assert_eq!(problem("NUM_DISK_SECTORS*2", None), SectorProblem::SizeUnknown);
    assert_eq!(
        problem("NUM_DISK_SECTORS-", Some(7)),
        SectorProblem::BadOffset(NumberError::Empty)
    );
    assert_eq!(
        problem("NUM_DISK_SECTORS-x", Some(7)),
        SectorProblem::BadOffset(NumberError::InvalidDigit)
    );
    assert_eq!(
        problem("NUM_DISK_SECTORS*18446744073709551616", Some(7)),
        SectorProblem::BadOffset(NumberError::TooLarge)
    );
    assert_eq!(problem("NUM_DISK_SECTORS*2", Some(7)), SectorProblem::UnsupportedOperator);
    assert_eq!(problem("NUM_DISK_SECTORS-8", Some(7)), SectorProblem::BeforeStart);
    assert_eq!(
        problem("NUM_DISK_SECTORS+1.", Some(u64::MAX)),
        SectorProblem::Overflow
    );
}

#[test]
fn offsets_may_have_a_sign_of_their_own() {
    assert_eq!(eval_sectors("NUM_DISK_SECTORS-+2", Some(7)).unwrap(), 5);
}

#[test]
fn operators_beyond_ascii_are_refused() {
    assert_eq!(
        problem("NUM_DISK_SECTORS\u{d7}2.", Some(100)),
        SectorProblem::UnsupportedOperator
    );
    assert_eq!(
        problem("NUM_DISK_SECTORS\u{2212}33.", Some(100)),
        SectorProblem::UnsupportedOperator
    );
    assert_eq!(
        problem("NUM_DISK_SECTORS\u{d7}", Some(100)),
        SectorProblem::BadOffset(NumberError::Empty)
    );
    // Without a size the operator is not looked at
    assert_eq!(problem("NUM_DISK_SECTORS\u{2212}33.", None), SectorProblem::SizeUnknown);
}

#[test]
fn mistakes_show_without_the_storage() {
    for expr in [
        "",
        "whatever",
        "CRC32(2,16384)",
        "NUM_DISK_SECTORS*2",
        "NUM_DISK_SECTORS\u{d7}2.",
        "NUM_DISK_SECTORS-",
        "NUM_DISK_SECTORS-x.",
        "NUM_DISK_SECTORS-18446744073709551616",
        "18446744073709551616",
    ] {
        assert!(!can_resolve(expr), "{expr:?}");
        for size in [1, 100, u64::MAX] {
            assert_eq!(problem(expr, Some(size)), problem(expr, Some(0)));
        }
    }
    for expr in [
        "0",
        "18446744073709551615",
        "NUM_DISK_SECTORS",
        "NUM_DISK_SECTORS-33.",
        "NUM_DISK_SECTORS-18446744073709551615.",
        "NUM_DISK_SECTORS+18446744073709551615.",
    ] {
        assert!(can_resolve(expr), "{expr:?}");
    }
}

#[test]
fn the_smallest_storage_is_known() {
    assert_eq!(least_size("1234"), 0);
    assert_eq!(least_size("NUM_DISK_SECTORS"), 0);
    assert_eq!(least_size("NUM_DISK_SECTORS+7."), 0);
    assert_eq!(least_size("NUM_DISK_SECTORS-33."), 33);
    assert_eq!(eval_sectors("NUM_DISK_SECTORS-33.", Some(33)).unwrap(), 0);
    assert_eq!(problem("NUM_DISK_SECTORS-33.", Some(32)), SectorProblem::BeforeStart);
    assert_eq!(least_size("NUM_DISK_SECTORS-18446744073709551615"), u64::MAX);
}
