//! The order in which a device is flashed.
//!
//! Every file is read, every image is looked for and every entry that no target
//! could carry out is refused before the device is touched, so that a typo in the
//! last file does not leave a half flashed board behind.

use vstd::prelude::*;

use crate::plan::{
    check_patch, check_program, patch_fault, patch_sound, program_fault, program_sound, PlanError,
    PlanErrorModel,
};
use crate::rawprogram::{
    file_patches, file_programs, parse_patches, parse_programs, patch_models, program_models,
    FileError, FileErrorModel, Patch, PatchModel, Program, ProgramModel,
};

verus! {

/// A program to write, and the number of the rawprogram file that it comes from.
#[derive(Debug)]
pub struct Job {
    pub file: usize,
    pub program: Program,
}

/// Why a device is not flashed.
#[derive(Debug)]
pub enum FlashError {
    /// A rawprogram file cannot be used.
    ProgramFile { file: usize, cause: FileError },
    /// A rawprogram file asks for something that no target could carry out.
    BadProgram { file: usize, fault: PlanError },
    /// An image that a rawprogram file needs does not exist.
    MissingImage { file: usize, name: String },
    /// A patch file cannot be used.
    PatchFile { file: usize, cause: FileError },
    /// A patch file asks for something that no target could carry out.
    BadPatch { file: usize, fault: PlanError },
    /// The files ask for nothing.
    NothingToFlash,
    /// An action failed.
    ActionFailed,
    /// An event came that answers no action.
    OutOfTurn,
}

/// What is to be done next. Files are known by their number. Each action but the
/// last two may also be answered by [`Event::Failed`].
#[derive(Debug)]
pub enum Action {
    /// Read this rawprogram file; the answer is [`Event::ProgramFile`].
    ReadProgramFile(usize),
    /// See whether the image `name` exists next to this rawprogram file; the
    /// answer is [`Event::Image`].
    CheckImage { file: usize, name: String },
    /// Read this patch file; the answer is [`Event::PatchFile`].
    ReadPatchFile(usize),
    /// Write this job; the answer is [`Event::Done`].
    Write(usize),
    /// Apply this patch; the answer is [`Event::Done`].
    Apply(usize),
    /// The device has been flashed.
    Finish,
    /// The device is not flashed.
    Fail(FlashError),
}

/// What came of an [`Action`].
#[derive(Debug)]
pub enum Event {
    /// The contents of the rawprogram file.
    ProgramFile(Vec<u8>),
    /// Whether the image exists.
    Image(bool),
    /// The contents of the patch file.
    PatchFile(Vec<u8>),
    /// The device has been written.
    Done,
    /// The action failed.
    Failed,
}

#[derive(Clone, Copy, Debug, PartialEq, Eq, Structural)]
enum Stage {
    ReadProgramFile(usize),
    CheckImage(usize),
    ReadPatchFile(usize),
    Write(usize),
    Apply(usize),
    Stopped,
}

/// How far flashing a device has come.
#[derive(Debug)]
pub struct Flash {
    programs: usize,
    patches: usize,
    stage: Stage,
    /// The programs of the file at hand whose images have not been checked yet.
    pending: Vec<Program>,
    to_program: Vec<Job>,
    to_patch: Vec<Patch>,
}

/// What [`Flash`] waits for.
pub enum StageModel {
    ReadProgramFile(nat),
    CheckImage(nat),
    ReadPatchFile(nat),
    Write(nat),
    Apply(nat),
    Stopped,
}

/// What a [`FlashError`] stands for.
pub enum FlashErrorModel {
    ProgramFile { file: nat, cause: FileErrorModel },
    BadProgram { file: nat, fault: PlanErrorModel },
    MissingImage { file: nat, name: Seq<char> },
    PatchFile { file: nat, cause: FileErrorModel },
    BadPatch { file: nat, fault: PlanErrorModel },
    NothingToFlash,
    ActionFailed,
    OutOfTurn,
}

/// What an [`Action`] stands for.
pub enum ActionModel {
    ReadProgramFile(nat),
    CheckImage { file: nat, name: Seq<char> },
    ReadPatchFile(nat),
    Write(nat),
    Apply(nat),
    Finish,
    Fail(FlashErrorModel),
}

/// What an [`Event`] stands for.
pub enum EventModel {
    ProgramFile(Seq<u8>),
    Image(bool),
    PatchFile(Seq<u8>),
    Done,
    Failed,
}

/// What a [`Flash`] stands for.
#[verifier::ext_equal]
pub struct FlashModel {
    pub programs: nat,
    pub patches: nat,
    pub stage: StageModel,
    pub pending: Seq<ProgramModel>,
    pub to_program: Seq<(nat, ProgramModel)>,
    pub to_patch: Seq<PatchModel>,
}

impl View for FlashError {
    type V = FlashErrorModel;

    open spec fn view(&self) -> FlashErrorModel {
        match self {
            FlashError::ProgramFile { file, cause } => FlashErrorModel::ProgramFile {
                file: *file as nat,
                cause: cause@,
            },
            FlashError::BadProgram { file, fault } => FlashErrorModel::BadProgram {
                file: *file as nat,
                fault: fault@,
            },
            FlashError::MissingImage { file, name } => FlashErrorModel::MissingImage {
                file: *file as nat,
                name: name@,
            },
            FlashError::PatchFile { file, cause } => FlashErrorModel::PatchFile {
                file: *file as nat,
                cause: cause@,
            },
            FlashError::BadPatch { file, fault } => FlashErrorModel::BadPatch {
                file: *file as nat,
                fault: fault@,
            },
            FlashError::NothingToFlash => FlashErrorModel::NothingToFlash,
            FlashError::ActionFailed => FlashErrorModel::ActionFailed,
            FlashError::OutOfTurn => FlashErrorModel::OutOfTurn,
        }
    }
}

impl View for Action {
    type V = ActionModel;

    open spec fn view(&self) -> ActionModel {
        match self {
            Action::ReadProgramFile(i) => ActionModel::ReadProgramFile(*i as nat),
            Action::CheckImage { file, name } => ActionModel::CheckImage {
                file: *file as nat,
                name: name@,
            },
            Action::ReadPatchFile(i) => ActionModel::ReadPatchFile(*i as nat),
            Action::Write(i) => ActionModel::Write(*i as nat),
            Action::Apply(i) => ActionModel::Apply(*i as nat),
            Action::Finish => ActionModel::Finish,
            Action::Fail(e) => ActionModel::Fail(e@),
        }
    }
}

impl View for Event {
    type V = EventModel;

    open spec fn view(&self) -> EventModel {
        match self {
            Event::ProgramFile(data) => EventModel::ProgramFile(data@),
            Event::Image(found) => EventModel::Image(*found),
            Event::PatchFile(data) => EventModel::PatchFile(data@),
            Event::Done => EventModel::Done,
            Event::Failed => EventModel::Failed,
        }
    }
}

/// What several [`Job`]s stand for.
pub open spec fn job_models(jobs: Seq<Job>) -> Seq<(nat, ProgramModel)> {
    jobs.map_values(|j: Job| (j.file as nat, j.program@))
}

impl View for Flash {
    type V = FlashModel;

    closed spec fn view(&self) -> FlashModel {
        FlashModel {
            programs: self.programs as nat,
            patches: self.patches as nat,
            stage: match self.stage {
                Stage::ReadProgramFile(i) => StageModel::ReadProgramFile(i as nat),
                Stage::CheckImage(i) => StageModel::CheckImage(i as nat),
                Stage::ReadPatchFile(i) => StageModel::ReadPatchFile(i as nat),
                Stage::Write(i) => StageModel::Write(i as nat),
                Stage::Apply(i) => StageModel::Apply(i as nat),
                Stage::Stopped => StageModel::Stopped,
            },
            pending: program_models(self.pending@),
            to_program: job_models(self.to_program@),
            to_patch: patch_models(self.to_patch@),
        }
    }
}

/// Whether an entry stands for a partition that is not being flashed.
pub open spec fn is_placeholder(p: ProgramModel) -> bool {
    p.filename.len() == 0 || p.num_sectors == 0
}

/// The entries that are no placeholders.
pub open spec fn wanted(ps: Seq<ProgramModel>) -> Seq<ProgramModel>
    decreases ps.len(),
{
    if ps.len() == 0 {
        Seq::empty()
    } else if is_placeholder(ps.last()) {
        wanted(ps.drop_last())
    } else {
        wanted(ps.drop_last()).push(ps.last())
    }
}

/// What is wrong with the first of `ps` that can be written to no target.
pub open spec fn first_program_fault(ps: Seq<ProgramModel>) -> Option<PlanErrorModel>
    decreases ps.len(),
{
    if ps.len() == 0 {
        None
    } else {
        match first_program_fault(ps.drop_last()) {
            Some(e) => Some(e),
            None => if program_sound(ps.last()) {
                None
            } else {
                Some(program_fault(ps.last()))
            },
        }
    }
}

/// What is wrong with the first of `ps` that can be applied to no target.
pub open spec fn first_patch_fault(ps: Seq<PatchModel>) -> Option<PlanErrorModel>
    decreases ps.len(),
{
    if ps.len() == 0 {
        None
    } else {
        match first_patch_fault(ps.drop_last()) {
            Some(e) => Some(e),
            None => if patch_sound(ps.last()) {
                None
            } else {
                Some(patch_fault(ps.last()))
            },
        }
    }
}

impl FlashModel {
    /// Whether the stage is one that can be reached.
    pub open spec fn wf(self) -> bool {
        match self.stage {
            StageModel::ReadProgramFile(i) => i < self.programs && self.pending.len() == 0,
            StageModel::CheckImage(i) => i < self.programs && self.pending.len() > 0,
            StageModel::ReadPatchFile(i) => i < self.patches && self.pending.len() == 0,
            StageModel::Write(i) => i < self.to_program.len(),
            StageModel::Apply(i) => i < self.to_patch.len(),
            StageModel::Stopped => true,
        }
    }

    /// Flashing, about to start with `programs` rawprogram files and `patches`
    /// patch files.
    pub open spec fn start(programs: nat, patches: nat) -> (FlashModel, ActionModel) {
        FlashModel {
            programs,
            patches,
            stage: StageModel::Stopped,
            pending: Seq::empty(),
            to_program: Seq::empty(),
            to_patch: Seq::empty(),
        }.next_program_file(0)
    }

    pub open spec fn fail(self, error: FlashErrorModel) -> (FlashModel, ActionModel) {
        (FlashModel { stage: StageModel::Stopped, ..self }, ActionModel::Fail(error))
    }

    /// On to rawprogram file `i`, or to the patch files behind the last one.
    pub open spec fn next_program_file(self, i: nat) -> (FlashModel, ActionModel) {
        if i < self.programs {
            (
                FlashModel { stage: StageModel::ReadProgramFile(i), ..self },
                ActionModel::ReadProgramFile(i),
            )
        } else {
            self.next_patch_file(0)
        }
    }

    /// On to the next image of rawprogram file `i`, or to the next file behind
    /// the last one.
    pub open spec fn next_image(self, i: nat) -> (FlashModel, ActionModel) {
        if self.pending.len() > 0 {
            (
                FlashModel { stage: StageModel::CheckImage(i), ..self },
                ActionModel::CheckImage { file: i, name: self.pending[0].filename },
            )
        } else {
            self.next_program_file(i + 1)
        }
    }

    /// On to patch file `i`, or to the device behind the last one.
    pub open spec fn next_patch_file(self, i: nat) -> (FlashModel, ActionModel) {
        if i < self.patches {
            (
                FlashModel { stage: StageModel::ReadPatchFile(i), ..self },
                ActionModel::ReadPatchFile(i),
            )
        } else if self.to_program.len() == 0 && self.to_patch.len() == 0 {
            self.fail(FlashErrorModel::NothingToFlash)
        } else {
            self.next_write(0)
        }
    }

    /// On to job `i`, or to the patches behind the last one.
    pub open spec fn next_write(self, i: nat) -> (FlashModel, ActionModel) {
        if i < self.to_program.len() {
            (FlashModel { stage: StageModel::Write(i), ..self }, ActionModel::Write(i))
        } else {
            self.next_apply(0)
        }
    }

    /// On to patch `i`, or to the end behind the last one.
    pub open spec fn next_apply(self, i: nat) -> (FlashModel, ActionModel) {
        if i < self.to_patch.len() {
            (FlashModel { stage: StageModel::Apply(i), ..self }, ActionModel::Apply(i))
        } else {
            (FlashModel { stage: StageModel::Stopped, ..self }, ActionModel::Finish)
        }
    }

    /// What follows `event`.
    pub open spec fn step(self, event: EventModel) -> (FlashModel, ActionModel)
        recommends
            self.wf(),
    {
        match (self.stage, event) {
            (StageModel::ReadProgramFile(i), EventModel::ProgramFile(data)) => match file_programs(
                data,
            ) {
                Err(cause) => self.fail(FlashErrorModel::ProgramFile { file: i, cause }),
                Ok(ps) => match first_program_fault(wanted(ps)) {
                    Some(fault) => self.fail(FlashErrorModel::BadProgram { file: i, fault }),
                    None => FlashModel { pending: wanted(ps), ..self }.next_image(i),
                },
            },
            (StageModel::CheckImage(i), EventModel::Image(found)) => if found {
                FlashModel {
                    pending: self.pending.drop_first(),
                    to_program: self.to_program.push((i, self.pending[0])),
                    ..self
                }.next_image(i)
            } else {
                self.fail(
                    FlashErrorModel::MissingImage { file: i, name: self.pending[0].filename },
                )
            },
            (StageModel::ReadPatchFile(i), EventModel::PatchFile(data)) => match file_patches(
                data,
            ) {
                Err(cause) => self.fail(FlashErrorModel::PatchFile { file: i, cause }),
                Ok(ps) => match first_patch_fault(ps) {
                    Some(fault) => self.fail(FlashErrorModel::BadPatch { file: i, fault }),
                    None => FlashModel { to_patch: self.to_patch + ps, ..self }.next_patch_file(
                        i + 1,
                    ),
                },
            },
            (StageModel::Write(i), EventModel::Done) => self.next_write(i + 1),
            (StageModel::Apply(i), EventModel::Done) => self.next_apply(i + 1),
            (StageModel::Stopped, _) => self.fail(FlashErrorModel::OutOfTurn),
            (_, EventModel::Failed) => self.fail(FlashErrorModel::ActionFailed),
            (_, _) => self.fail(FlashErrorModel::OutOfTurn),
        }
    }
}

/// The entries of `programs` that are no placeholders.
fn keep_wanted(programs: Vec<Program>) -> (r: Vec<Program>)
    ensures
        program_models(r@) == wanted(program_models(programs@)),
{
    let mut out: Vec<Program> = Vec::new();
    assert(program_models(out@) == Seq::<ProgramModel>::empty());
    let ghost all = programs@;
    assert(program_models(all.take(0)) == Seq::<ProgramModel>::empty());
    for p in it: programs
        invariant
            it.seq() == all,
            program_models(out@) == wanted(program_models(all.take(it.index()))),
    {
        let ghost seen = program_models(all.take(it.index() + 1));
        assert(seen.drop_last() == program_models(all.take(it.index())));
        assert(seen.last() == p@);
        if !(p.filename.as_str().is_empty() || p.num_sectors == 0) {
            let ghost before = out@;
            out.push(p);
            assert(program_models(out@) == program_models(before).push(p@));
        }
    }
    assert(all.take(all.len() as int) == all);
    out
}

/// What is wrong with the first of `programs` that can be written to no target.
fn check_programs(programs: &Vec<Program>) -> (r: Option<PlanError>)
    ensures
        first_program_fault(program_models(programs@)) == match r {
            Some(e) => Some(e@),
            None => None,
        },
{
    let n: usize = programs.len();
    let mut i: usize = 0;
    let ghost all = program_models(programs@);
    while i < n
        invariant
            i <= n == programs@.len(),
            all == program_models(programs@),
            first_program_fault(all.take(i as int)) is None,
        decreases n - i,
    {
        assert(all.take(i + 1).drop_last() == all.take(i as int));
        assert(all.take(i + 1).last() == programs@[i as int]@);
        if let Err(e) = check_program(&programs[i]) {
            proof {
                lemma_program_fault_stays(all, i + 1);
            }
            return Some(e);
        }
        i += 1;
    }
    assert(all.take(n as int) == all);
    None
}

/// What is wrong with the first of `patches` that can be applied to no target.
fn check_patches(patches: &Vec<Patch>) -> (r: Option<PlanError>)
    ensures
        first_patch_fault(patch_models(patches@)) == match r {
            Some(e) => Some(e@),
            None => None,
        },
{
    let n: usize = patches.len();
    let mut i: usize = 0;
    let ghost all = patch_models(patches@);
    while i < n
        invariant
            i <= n == patches@.len(),
            all == patch_models(patches@),
            first_patch_fault(all.take(i as int)) is None,
        decreases n - i,
    {
        assert(all.take(i + 1).drop_last() == all.take(i as int));
        assert(all.take(i + 1).last() == patches@[i as int]@);
        if let Err(e) = check_patch(&patches[i]) {
            proof {
                lemma_patch_fault_stays(all, i + 1);
            }
            return Some(e);
        }
        i += 1;
    }
    assert(all.take(n as int) == all);
    None
}

proof fn lemma_program_fault_stays(ps: Seq<ProgramModel>, i: int)
    requires
        0 <= i <= ps.len(),
        first_program_fault(ps.take(i)) is Some,
    ensures
        first_program_fault(ps) == first_program_fault(ps.take(i)),
    decreases ps.len() - i,
{
    if i < ps.len() {
        assert(ps.take(i + 1).drop_last() == ps.take(i));
        lemma_program_fault_stays(ps, i + 1);
    } else {
        assert(ps.take(i) == ps);
    }
}

proof fn lemma_patch_fault_stays(ps: Seq<PatchModel>, i: int)
    requires
        0 <= i <= ps.len(),
        first_patch_fault(ps.take(i)) is Some,
    ensures
        first_patch_fault(ps) == first_patch_fault(ps.take(i)),
    decreases ps.len() - i,
{
    if i < ps.len() {
        assert(ps.take(i + 1).drop_last() == ps.take(i));
        lemma_patch_fault_stays(ps, i + 1);
    } else {
        assert(ps.take(i) == ps);
    }
}

impl Flash {
    /// Whether the stage is one that can be reached.
    pub open spec fn wf(&self) -> bool {
        self@.wf()
    }

    fn fail(&mut self, error: FlashError) -> (r: Action)
        requires
            old(self).wf(),
        ensures
            (final(self)@, r@) == old(self)@.fail(error@),
            final(self).wf(),
    {
        self.stage = Stage::Stopped;
        Action::Fail(error)
    }

    fn next_program_file(&mut self, i: usize) -> (r: Action)
        requires
            i <= old(self)@.programs,
            old(self)@.pending.len() == 0,
        ensures
            (final(self)@, r@) == old(self)@.next_program_file(i as nat),
            final(self).wf(),
    {
        if i < self.programs {
            self.stage = Stage::ReadProgramFile(i);
            Action::ReadProgramFile(i)
        } else {
            self.next_patch_file(0)
        }
    }

    fn next_image(&mut self, i: usize) -> (r: Action)
        requires
            i < old(self)@.programs,
        ensures
            (final(self)@, r@) == old(self)@.next_image(i as nat),
            final(self).wf(),
    {
        if self.pending.len() > 0 {
            self.stage = Stage::CheckImage(i);
            Action::CheckImage { file: i, name: self.pending[0].filename.clone() }
        } else {
            self.next_program_file(i + 1)
        }
    }

    fn next_patch_file(&mut self, i: usize) -> (r: Action)
        requires
            i <= old(self)@.patches,
            old(self)@.pending.len() == 0,
        ensures
            (final(self)@, r@) == old(self)@.next_patch_file(i as nat),
            final(self).wf(),
    {
        if i < self.patches {
            self.stage = Stage::ReadPatchFile(i);
            Action::ReadPatchFile(i)
        } else if self.to_program.len() == 0 && self.to_patch.len() == 0 {
            self.stage = Stage::Stopped;
            Action::Fail(FlashError::NothingToFlash)
        } else {
            self.next_write(0)
        }
    }

    fn next_write(&mut self, i: usize) -> (r: Action)
        ensures
            (final(self)@, r@) == old(self)@.next_write(i as nat),
            final(self).wf(),
    {
        if i < self.to_program.len() {
            self.stage = Stage::Write(i);
            Action::Write(i)
        } else {
            self.next_apply(0)
        }
    }

    fn next_apply(&mut self, i: usize) -> (r: Action)
        ensures
            (final(self)@, r@) == old(self)@.next_apply(i as nat),
            final(self).wf(),
    {
        if i < self.to_patch.len() {
            self.stage = Stage::Apply(i);
            Action::Apply(i)
        } else {
            self.stage = Stage::Stopped;
            Action::Finish
        }
    }

    /// Starts flashing with `programs` rawprogram files and `patches` patch
    /// files, and says what is to be done first.
    pub fn new(programs: usize, patches: usize) -> (r: (Flash, Action))
        ensures
            (r.0@, r.1@) == FlashModel::start(programs as nat, patches as nat),
            r.0.wf(),
    {
        let mut flash = Flash {
            programs,
            patches,
            stage: Stage::Stopped,
            pending: Vec::new(),
            to_program: Vec::new(),
            to_patch: Vec::new(),
        };
        assert(flash@.pending == Seq::<ProgramModel>::empty());
        assert(flash@.to_program == Seq::<(nat, ProgramModel)>::empty());
        assert(flash@.to_patch == Seq::<PatchModel>::empty());
        let action = flash.next_program_file(0);
        (flash, action)
    }

    /// Takes note of what came of the last action, and says what is to be done
    /// next.
    pub fn step(&mut self, event: Event) -> (r: Action)
        requires
            old(self).wf(),
        ensures
            (final(self)@, r@) == old(self)@.step(event@),
            final(self).wf(),
    {
        match (self.stage, event) {
            (Stage::ReadProgramFile(i), Event::ProgramFile(data)) => match parse_programs(
                data.as_slice(),
            ) {
                Err(cause) => self.fail(FlashError::ProgramFile { file: i, cause }),
                Ok(programs) => {
                    let programs = keep_wanted(programs);
                    if let Some(fault) = check_programs(&programs) {
                        return self.fail(FlashError::BadProgram { file: i, fault });
                    }
                    self.pending = programs;
                    self.next_image(i)
                },
            },
            (Stage::CheckImage(i), Event::Image(found)) => {
                if found {
                    let ghost pending = self.pending@;
                    let ghost jobs = self.to_program@;
                    let program = self.pending.remove(0);
                    assert(program_models(self.pending@) == program_models(pending).drop_first());
                    self.to_program.push(Job { file: i, program });
                    assert(job_models(self.to_program@) == job_models(jobs).push(
                        (i as nat, program_models(pending)[0]),
                    ));
                    self.next_image(i)
                } else {
                    let name = self.pending[0].filename.clone();
                    self.fail(FlashError::MissingImage { file: i, name })
                }
            },
            (Stage::ReadPatchFile(i), Event::PatchFile(data)) => match parse_patches(
                data.as_slice(),
            ) {
                Err(cause) => self.fail(FlashError::PatchFile { file: i, cause }),
                Ok(patches) => {
                    if let Some(fault) = check_patches(&patches) {
                        return self.fail(FlashError::BadPatch { file: i, fault });
                    }
                    let mut patches = patches;
                    let ghost before = self.to_patch@;
                    let ghost more = patches@;
                    self.to_patch.append(&mut patches);
                    assert(patch_models(self.to_patch@) == patch_models(before) + patch_models(
                        more,
                    ));
                    self.next_patch_file(i + 1)
                },
            },
            (Stage::Write(i), Event::Done) => {
                let n: usize = self.to_program.len();
                assert(i < n);
                self.next_write(i + 1)
            },
            (Stage::Apply(i), Event::Done) => {
                let n: usize = self.to_patch.len();
                assert(i < n);
                self.next_apply(i + 1)
            },
            (Stage::Stopped, _) => self.fail(FlashError::OutOfTurn),
            (_, Event::Failed) => self.fail(FlashError::ActionFailed),
            (_, _) => self.fail(FlashError::OutOfTurn),
        }
    }

    /// The job to write.
    pub fn job(&self, i: usize) -> (r: &Job)
        requires
            i < self@.to_program.len(),
        ensures
            (r.file as nat, r.program@) == self@.to_program[i as int],
    {
        &self.to_program[i]
    }

    /// The patch to apply.
    pub fn patch(&self, i: usize) -> (r: &Patch)
        requires
            i < self@.to_patch.len(),
        ensures
            r@ == self@.to_patch[i as int],
    {
        &self.to_patch[i]
    }
}

/// Being something to write, as a property of programs: there is a file, and there
/// are sectors for it.
pub open spec fn to_be_written() -> spec_fn(ProgramModel) -> bool {
    |p: ProgramModel| p.filename.len() > 0 && p.num_sectors > 0
}

/// What is written of a rawprogram file are exactly its entries that have a file and
/// sectors, whatever else they say: none is left out, none is added or repeated, and
/// they keep their order.
pub proof fn law_wanted_is_all_that_can_be_written(ps: Seq<ProgramModel>)
    ensures
        wanted(ps) == ps.filter(to_be_written()),
    decreases ps.len(),
{
    reveal(Seq::filter);
    if ps.len() > 0 {
        law_wanted_is_all_that_can_be_written(ps.drop_last());
        assert(is_placeholder(ps.last()) == !to_be_written()(ps.last()));
    }
}

/// An entry is left out of what is written exactly if it has no file or no sectors.
pub proof fn law_placeholders_have_no_file_or_no_sectors(p: ProgramModel)
    ensures
        is_placeholder(p) <==> p.filename.len() == 0 || p.num_sectors == 0,
{
}

/// The first fault of a list is that of its first entry which suits no target; a
/// list without such an entry has none.
pub proof fn law_first_program_fault_is_the_first(ps: Seq<ProgramModel>)
    ensures
        match first_program_fault(ps) {
            None => forall|k: int| 0 <= k < ps.len() ==> program_sound(#[trigger] ps[k]),
            Some(fault) => exists|k: int|
                {
                    &&& 0 <= k < ps.len()
                    &&& !program_sound(#[trigger] ps[k])
                    &&& fault == program_fault(ps[k])
                    &&& forall|j: int| 0 <= j < k ==> program_sound(#[trigger] ps[j])
                },
        },
    decreases ps.len(),
{
    if ps.len() > 0 {
        let front = ps.drop_last();
        let last = ps.len() - 1;
        law_first_program_fault_is_the_first(front);
        assert(forall|k: int| 0 <= k < last ==> front[k] == ps[k]);
        assert(ps.last() == ps[last]);
        if let Some(fault) = first_program_fault(front) {
            let k = choose|k: int|
                {
                    &&& 0 <= k < front.len()
                    &&& !program_sound(#[trigger] front[k])
                    &&& fault == program_fault(front[k])
                    &&& forall|j: int| 0 <= j < k ==> program_sound(#[trigger] front[j])
                };
            assert(ps[k] == front[k]);
            assert forall|j: int| 0 <= j < k implies program_sound(#[trigger] ps[j]) by {
                assert(front[j] == ps[j]);
            }
        } else {
            assert forall|j: int| 0 <= j < last implies program_sound(#[trigger] ps[j]) by {
                assert(front[j] == ps[j]);
            }
        }
    }
}

/// The first fault of a list is that of its first patch which suits no target; a
/// list without such a patch has none.
pub proof fn law_first_patch_fault_is_the_first(ps: Seq<PatchModel>)
    ensures
        match first_patch_fault(ps) {
            None => forall|k: int| 0 <= k < ps.len() ==> patch_sound(#[trigger] ps[k]),
            Some(fault) => exists|k: int|
                {
                    &&& 0 <= k < ps.len()
                    &&& !patch_sound(#[trigger] ps[k])
                    &&& fault == patch_fault(ps[k])
                    &&& forall|j: int| 0 <= j < k ==> patch_sound(#[trigger] ps[j])
                },
        },
    decreases ps.len(),
{
    if ps.len() > 0 {
        let front = ps.drop_last();
        let last = ps.len() - 1;
        law_first_patch_fault_is_the_first(front);
        assert(forall|k: int| 0 <= k < last ==> front[k] == ps[k]);
        assert(ps.last() == ps[last]);
        if let Some(fault) = first_patch_fault(front) {
            let k = choose|k: int|
                {
                    &&& 0 <= k < front.len()
                    &&& !patch_sound(#[trigger] front[k])
                    &&& fault == patch_fault(front[k])
                    &&& forall|j: int| 0 <= j < k ==> patch_sound(#[trigger] front[j])
                };
            assert(ps[k] == front[k]);
            assert forall|j: int| 0 <= j < k implies patch_sound(#[trigger] ps[j]) by {
                assert(front[j] == ps[j]);
            }
        } else {
            assert forall|j: int| 0 <= j < last implies patch_sound(#[trigger] ps[j]) by {
                assert(front[j] == ps[j]);
            }
        }
    }
}

/// Actions, events and errors stand for what they name.
pub proof fn law_steps_stand_for_their_parts(a: Action, e: Event, x: FlashError)
    ensures
        a matches Action::ReadProgramFile(i) ==> a@ == ActionModel::ReadProgramFile(i as nat),
        a matches Action::CheckImage { file, name } ==> a@ == (ActionModel::CheckImage {
            file: file as nat,
            name: name@,
        }),
        a matches Action::ReadPatchFile(i) ==> a@ == ActionModel::ReadPatchFile(i as nat),
        a matches Action::Write(i) ==> a@ == ActionModel::Write(i as nat),
        a matches Action::Apply(i) ==> a@ == ActionModel::Apply(i as nat),
        a is Finish ==> a@ is Finish,
        a matches Action::Fail(y) ==> a@ == ActionModel::Fail(y@),
        e matches Event::ProgramFile(data) ==> e@ == EventModel::ProgramFile(data@),
        e matches Event::Image(found) ==> e@ == EventModel::Image(found),
        e matches Event::PatchFile(data) ==> e@ == EventModel::PatchFile(data@),
        e is Done ==> e@ is Done,
        e is Failed ==> e@ is Failed,
        x matches FlashError::ProgramFile { file, cause } ==> x@ == (FlashErrorModel::ProgramFile {
            file: file as nat,
            cause: cause@,
        }),
        x matches FlashError::BadProgram { file, fault } ==> x@ == (FlashErrorModel::BadProgram {
            file: file as nat,
            fault: fault@,
        }),
        x matches FlashError::MissingImage { file, name } ==> x@ == (FlashErrorModel::MissingImage {
            file: file as nat,
            name: name@,
        }),
        x matches FlashError::PatchFile { file, cause } ==> x@ == (FlashErrorModel::PatchFile {
            file: file as nat,
            cause: cause@,
        }),
        x matches FlashError::BadPatch { file, fault } ==> x@ == (FlashErrorModel::BadPatch {
            file: file as nat,
            fault: fault@,
        }),
        x is NothingToFlash ==> x@ is NothingToFlash,
        x is ActionFailed ==> x@ is ActionFailed,
        x is OutOfTurn ==> x@ is OutOfTurn,
{
}

} // verus!
