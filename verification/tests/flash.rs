use boardswarm_qdl::flash::{Action, Event, Flash, FlashError};
use boardswarm_qdl::plan::PlanError;
use boardswarm_qdl::rawprogram::FileError;

fn entry(filename: &str, sectors: u64) -> String {
    format!(
        r#"<program SECTOR_SIZE_IN_BYTES="512" filename="{filename}" label="{filename}" num_partition_sectors="{sectors}" physical_partition_number="0" start_sector="1"/>"#
    )
}

fn rawprogram(entries: &[(&str, u64)]) -> String {
    let body: Vec<String> = entries.iter().map(|(f, n)| entry(f, *n)).collect();
    format!("<data>{}</data>", body.concat())
}

fn patchfile(values: &[u64]) -> String {
    let body: Vec<String> = values
        .iter()
        .map(|v| {
            format!(
                r#"<patch SECTOR_SIZE_IN_BYTES="512" byte_offset="0" filename="DISK" physical_partition_number="0" size_in_bytes="4" start_sector="1" value="{v}"/>"#
            )
        })
        .collect();
    format!("<patches>{}</patches>", body.concat())
}

// Runs to the end, and notes each action on the way.
fn run(
    programs: &[String],
    patches: &[String],
    present: &[&str],
    fails: Option<&str>,
) -> (Vec<String>, Result<(), FlashError>) {
    let mut log = Vec::new();
    let (mut flash, mut action) = Flash::new(programs.len(), patches.len());
    loop {
        let (note, event) = match action {
            Action::ReadProgramFile(i) => (
                format!("read program {i}"),
                Event::ProgramFile(programs[i].clone().into_bytes()),
            ),
            Action::CheckImage { file, name } => (
                format!("check {file} {name}"),
                Event::Image(present.contains(&name.as_str())),
            ),
            Action::ReadPatchFile(i) => (
                format!("read patch {i}"),
                Event::PatchFile(patches[i].clone().into_bytes()),
            ),
            Action::Write(i) => {
                let job = flash.job(i);
                (format!("write {} {}", job.file, job.program.filename), Event::Done)
            }
            Action::Apply(i) => (format!("apply {}", flash.patch(i).value), Event::Done),
            Action::Finish => return (log, Ok(())),
            Action::Fail(e) => return (log, Err(e)),
        };
        let event = if fails == Some(note.as_str()) { Event::Failed } else { event };
        log.push(note);
        action = flash.step(event);
    }
}

#[test]
fn everything_is_checked_and_then_flashed() {
    let programs = [
        rawprogram(&[("a", 1), ("", 3), ("b", 2), ("c", 0)]),
        rawprogram(&[]),
        rawprogram(&[("d", 1)]),
    ];
    let patches = [patchfile(&[7, 8]), patchfile(&[9])];
    let (log, r) = run(&programs, &patches, &["a", "b", "d"], None);
    assert!(r.is_ok());
    assert_eq!(
        log,
        [
            "read program 0",
            "check 0 a",
            "check 0 b",
            "read program 1",
            "read program 2",
            "check 2 d",
            "read patch 0",
            "read patch 1",
            "write 0 a",
            "write 0 b",
            "write 2 d",
            "apply 7",
            "apply 8",
            "apply 9",
        ]
    );
}

#[test]
fn a_typo_in_the_last_file_leaves_the_device_alone() {
    let programs = [rawprogram(&[("a", 1)])];
    let patches = [patchfile(&[7]), "<patches>".to_string()];
    let (log, r) = run(&programs, &patches, &["a"], None);
    assert_eq!(log, ["read program 0", "check 0 a", "read patch 0", "read patch 1"]);
    assert!(matches!(
        r,
        Err(FlashError::PatchFile { file: 1, cause: FileError::Xml(_) })
    ));
}

fn mistyped_patch(size: &str, start: &str, value: &str) -> String {
    format!(
        r#"<patches><patch SECTOR_SIZE_IN_BYTES="512" byte_offset="8" filename="DISK" physical_partition_number="0" size_in_bytes="{size}" start_sector="{start}" value="{value}" what="x"/></patches>"#
    )
}

#[test]
fn a_mistyped_patch_in_the_last_file_leaves_the_device_alone() {
    let programs = [rawprogram(&[("a", 1)])];
    for (size, start, value) in [
        ("16", "1", "7"),
        ("0", "1", "7"),
        ("4", "whatever", "7"),
        ("4", "1", "whatever"),
        ("4", "1", "CRC32(2,16384)"),
        ("4", "NUM_DISK_SECTORS\u{d7}2.", "7"),
        ("4", "18446744073709551615", "7"),
    ] {
        let patches = [patchfile(&[7]), mistyped_patch(size, start, value)];
        let (log, r) = run(&programs, &patches, &["a"], None);
        assert_eq!(log, ["read program 0", "check 0 a", "read patch 0", "read patch 1"]);
        assert!(matches!(r, Err(FlashError::BadPatch { file: 1, .. })));
    }
    let patches = [patchfile(&[7]), mistyped_patch("16", "1", "7")];
    assert!(matches!(
        run(&programs, &patches, &["a"], None).1,
        Err(FlashError::BadPatch { fault: PlanError::PatchSize(16), .. })
    ));
}

#[test]
fn a_mistyped_program_in_the_last_file_leaves_the_device_alone() {
    let typo = rawprogram(&[("b", 1)]).replace("start_sector=\"1\"", "start_sector=\"whatever\"");
    let programs = [rawprogram(&[("a", 1)]), typo];
    let (log, r) = run(&programs, &[], &["a", "b"], None);
    assert_eq!(log, ["read program 0", "check 0 a", "read program 1"]);
    assert!(matches!(
        r,
        Err(FlashError::BadProgram { file: 1, fault: PlanError::Placement { label, .. } })
            if label == "b"
    ));
}

#[test]
fn mistyped_placeholders_do_not_matter() {
    let typo = rawprogram(&[("", 1)]).replace("start_sector=\"1\"", "start_sector=\"whatever\"");
    let (log, r) = run(&[rawprogram(&[("a", 1)]), typo], &[], &["a"], None);
    assert_eq!(log, ["read program 0", "check 0 a", "read program 1", "write 0 a"]);
    assert!(r.is_ok());
}

#[test]
fn a_bad_rawprogram_file_stops_the_run() {
    let programs = [rawprogram(&[("a", 1)]), "<data><program/></data>".to_string()];
    let (log, r) = run(&programs, &[], &["a"], None);
    assert_eq!(log, ["read program 0", "check 0 a", "read program 1"]);
    assert!(matches!(
        r,
        Err(FlashError::ProgramFile { file: 1, cause: FileError::Entry(_) })
    ));
}

#[test]
fn a_missing_image_stops_the_run() {
    let programs = [rawprogram(&[("a", 1), ("b", 1)]), rawprogram(&[("c", 1)])];
    let (log, r) = run(&programs, &[patchfile(&[7])], &["a", "c"], None);
    assert_eq!(log, ["read program 0", "check 0 a", "check 0 b"]);
    assert!(matches!(
        r,
        Err(FlashError::MissingImage { file: 0, name }) if name == "b"
    ));
}

#[test]
fn files_that_ask_for_nothing_are_an_error() {
    let (log, r) = run(&[], &[], &[], None);
    assert!(log.is_empty());
    assert!(matches!(r, Err(FlashError::NothingToFlash)));
    let (log, r) = run(&[rawprogram(&[("", 1), ("x", 0)])], &[patchfile(&[])], &[], None);
    assert_eq!(log, ["read program 0", "read patch 0"]);
    assert!(matches!(r, Err(FlashError::NothingToFlash)));
}

#[test]
fn patches_alone_are_enough() {
    let (log, r) = run(&[], &[patchfile(&[7])], &[], None);
    assert_eq!(log, ["read patch 0", "apply 7"]);
    assert!(r.is_ok());
}

#[test]
fn an_action_that_fails_is_the_last_one() {
    let programs = [rawprogram(&[("a", 1), ("b", 1)])];
    let patches = [patchfile(&[7])];
    let all = run(&programs, &patches, &["a", "b"], None).0;
    for (i, note) in all.iter().enumerate() {
        let (log, r) = run(&programs, &patches, &["a", "b"], Some(note));
        assert_eq!(log, all[..i + 1]);
        assert!(matches!(r, Err(FlashError::ActionFailed)));
    }
}

#[test]
fn events_out_of_turn_are_refused() {
    let (mut flash, action) = Flash::new(1, 0);
    assert!(matches!(action, Action::ReadProgramFile(0)));
    assert!(matches!(
        flash.step(Event::Done),
        Action::Fail(FlashError::OutOfTurn)
    ));
    // The run is over
    assert!(matches!(
        flash.step(Event::ProgramFile(rawprogram(&[("a", 1)]).into_bytes())),
        Action::Fail(FlashError::OutOfTurn)
    ));
    assert!(matches!(
        flash.step(Event::Failed),
        Action::Fail(FlashError::OutOfTurn)
    ));
}
