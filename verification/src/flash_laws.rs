//! What holds of every run of [`crate::flash`].

use vstd::prelude::*;

use crate::flash::{
    first_patch_fault, first_program_fault, law_first_patch_fault_is_the_first,
    law_first_program_fault_is_the_first, law_wanted_is_all_that_can_be_written, to_be_written,
    ActionModel, EventModel, FlashErrorModel, FlashModel, StageModel,
};
use crate::plan::{
    law_sound_patch_has_no_mistake, law_sound_program_has_no_mistake, patch_fault, patch_size_ok,
    patch_sound, program_fault, program_sound, straddles,
};
use crate::rawprogram::{
    file_patches, file_programs, FileErrorModel, PatchModel, ProgramModel,
};
use crate::sectors::resolvable;

verus! {

/// The world that a device is flashed in: the contents of the files, which image
/// exists next to which rawprogram file, and which actions work out.
pub struct World {
    pub program_files: Seq<Seq<u8>>,
    pub patch_files: Seq<Seq<u8>>,
    pub present: spec_fn(nat, Seq<char>) -> bool,
    pub works: spec_fn(ActionModel) -> bool,
}

/// What `a` comes to in `w`.
pub open spec fn answer(w: World, a: ActionModel) -> EventModel {
    if !(w.works)(a) {
        EventModel::Failed
    } else {
        match a {
            ActionModel::ReadProgramFile(i) => EventModel::ProgramFile(w.program_files[i as int]),
            ActionModel::CheckImage { file, name } => EventModel::Image((w.present)(file, name)),
            ActionModel::ReadPatchFile(i) => EventModel::PatchFile(w.patch_files[i as int]),
            _ => EventModel::Done,
        }
    }
}

/// Whether every action works out.
pub open spec fn nothing_fails(w: World) -> bool {
    forall|a: ActionModel| #[trigger] (w.works)(a)
}

/// Whether `a` touches the device.
pub open spec fn touches_device(a: ActionModel) -> bool {
    a is Write || a is Apply
}

/// Whether nothing follows `a`.
pub open spec fn is_last(a: ActionModel) -> bool {
    a is Finish || a is Fail
}

/// The state and the action after `n` answers.
pub open spec fn after(w: World, n: nat) -> (FlashModel, ActionModel)
    decreases n,
{
    if n == 0 {
        FlashModel::start(w.program_files.len(), w.patch_files.len())
    } else {
        let (m, a) = after(w, (n - 1) as nat);
        if is_last(a) {
            (m, a)
        } else {
            m.step(answer(w, a))
        }
    }
}

/// `ps` as jobs of rawprogram file `i`.
pub open spec fn jobs_of(i: nat, ps: Seq<ProgramModel>) -> Seq<(nat, ProgramModel)> {
    ps.map_values(|p: ProgramModel| (i, p))
}

/// What rawprogram file `i` asks to be written: its entries that have a file and
/// sectors for it.
pub open spec fn file_jobs(w: World, i: nat) -> Seq<ProgramModel> {
    file_programs(w.program_files[i as int])->Ok_0.filter(to_be_written())
}

/// What the first `n` rawprogram files ask to be written, in order.
pub open spec fn planned_jobs(w: World, n: nat) -> Seq<(nat, ProgramModel)>
    decreases n,
{
    if n == 0 {
        Seq::empty()
    } else {
        planned_jobs(w, (n - 1) as nat) + jobs_of((n - 1) as nat, file_jobs(w, (n - 1) as nat))
    }
}

/// What the first `n` patch files ask to be patched, in order.
pub open spec fn planned_patches(w: World, n: nat) -> Seq<PatchModel>
    decreases n,
{
    if n == 0 {
        Seq::empty()
    } else {
        planned_patches(w, (n - 1) as nat) + file_fixes(w, (n - 1) as nat)
    }
}

/// What patch file `i` asks to be patched.
pub open spec fn file_fixes(w: World, i: nat) -> Seq<PatchModel> {
    file_patches(w.patch_files[i as int])->Ok_0
}

/// Whether rawprogram file `i` is usable: it can be read, some target could carry
/// out each entry that it wants written, and its images exist.
pub open spec fn program_file_good(w: World, i: nat) -> bool {
    &&& file_programs(w.program_files[i as int]) is Ok
    &&& forall|k: int|
        0 <= k < file_jobs(w, i).len() ==> program_sound(#[trigger] file_jobs(w, i)[k])
    &&& forall|k: int|
        0 <= k < file_jobs(w, i).len() ==> (w.present)(i, #[trigger] file_jobs(w, i)[k].filename)
}

/// Whether patch file `i` is usable: it can be read, and some target could carry
/// out each of its patches.
pub open spec fn patch_file_good(w: World, i: nat) -> bool {
    &&& file_patches(w.patch_files[i as int]) is Ok
    &&& forall|k: int|
        0 <= k < file_fixes(w, i).len() ==> patch_sound(#[trigger] file_fixes(w, i)[k])
}

/// Whether the first `n` rawprogram files are usable and their images exist.
pub open spec fn programs_good(w: World, n: nat) -> bool {
    forall|i: nat| i < n ==> #[trigger] program_file_good(w, i)
}

/// Whether the first `n` patch files are usable.
pub open spec fn patches_good(w: World, n: nat) -> bool {
    forall|i: nat| i < n ==> #[trigger] patch_file_good(w, i)
}

/// Whether every file is usable and every image that is needed exists.
pub open spec fn all_good(w: World) -> bool {
    programs_good(w, w.program_files.len()) && patches_good(w, w.patch_files.len())
}

/// All that is to be written and patched.
pub open spec fn complete(w: World, m: FlashModel) -> bool {
    &&& all_good(w)
    &&& m.to_program == planned_jobs(w, w.program_files.len())
    &&& m.to_patch == planned_patches(w, w.patch_files.len())
    &&& m.to_program.len() + m.to_patch.len() > 0
}

/// Whether `e` is what is wrong first in `w`: everything before it is in order.
pub open spec fn explained(w: World, e: FlashErrorModel) -> bool {
    match e {
        FlashErrorModel::ProgramFile { file, cause } => {
            &&& file < w.program_files.len()
            &&& programs_good(w, file)
            &&& file_programs(w.program_files[file as int]) == Err::<
                Seq<ProgramModel>,
                FileErrorModel,
            >(cause)
        },
        FlashErrorModel::BadProgram { file, fault } => {
            &&& file < w.program_files.len()
            &&& programs_good(w, file)
            &&& file_programs(w.program_files[file as int]) is Ok
            &&& exists|k: int|
                {
                    &&& 0 <= k < file_jobs(w, file).len()
                    &&& !program_sound(#[trigger] file_jobs(w, file)[k])
                    &&& fault == program_fault(file_jobs(w, file)[k])
                    &&& forall|j: int|
                        0 <= j < k ==> program_sound(#[trigger] file_jobs(w, file)[j])
                }
        },
        FlashErrorModel::MissingImage { file, name } => {
            &&& file < w.program_files.len()
            &&& programs_good(w, file)
            &&& file_programs(w.program_files[file as int]) is Ok
            &&& !(w.present)(file, name)
            &&& exists|k: int|
                {
                    &&& 0 <= k < file_jobs(w, file).len()
                    &&& name == (#[trigger] file_jobs(w, file)[k]).filename
                    &&& forall|j: int|
                        0 <= j < k ==> (w.present)(file, #[trigger] file_jobs(w, file)[j].filename)
                }
        },
        FlashErrorModel::PatchFile { file, cause } => {
            &&& file < w.patch_files.len()
            &&& programs_good(w, w.program_files.len())
            &&& patches_good(w, file)
            &&& file_patches(w.patch_files[file as int]) == Err::<Seq<PatchModel>, FileErrorModel>(
                cause,
            )
        },
        FlashErrorModel::BadPatch { file, fault } => {
            &&& file < w.patch_files.len()
            &&& programs_good(w, w.program_files.len())
            &&& patches_good(w, file)
            &&& file_patches(w.patch_files[file as int]) is Ok
            &&& exists|k: int|
                {
                    &&& 0 <= k < file_fixes(w, file).len()
                    &&& !patch_sound(#[trigger] file_fixes(w, file)[k])
                    &&& fault == patch_fault(file_fixes(w, file)[k])
                    &&& forall|j: int|
                        0 <= j < k ==> patch_sound(#[trigger] file_fixes(w, file)[j])
                }
        },
        FlashErrorModel::NothingToFlash => {
            &&& all_good(w)
            &&& planned_jobs(w, w.program_files.len()).len() == 0
            &&& planned_patches(w, w.patch_files.len()).len() == 0
        },
        FlashErrorModel::ActionFailed => !nothing_fails(w),
        FlashErrorModel::OutOfTurn => false,
    }
}

/// What holds of every state and action of a run.
spec fn consistent(w: World, m: FlashModel, a: ActionModel) -> bool {
    &&& m.wf()
    &&& m.programs == w.program_files.len()
    &&& m.patches == w.patch_files.len()
    &&& match m.stage {
        StageModel::ReadProgramFile(i) => {
            &&& a == ActionModel::ReadProgramFile(i)
            &&& programs_good(w, i)
            &&& m.to_program == planned_jobs(w, i)
            &&& m.to_patch.len() == 0
        },
        StageModel::CheckImage(i) => {
            let jobs = file_jobs(w, i);
            let done = jobs.len() - m.pending.len();
            &&& a == (ActionModel::CheckImage { file: i, name: m.pending[0].filename })
            &&& programs_good(w, i)
            &&& file_programs(w.program_files[i as int]) is Ok
            &&& first_program_fault(jobs) is None
            &&& 0 <= done
            &&& m.pending == jobs.skip(done)
            &&& m.to_program == planned_jobs(w, i) + jobs_of(i, jobs.take(done))
            &&& forall|k: int| 0 <= k < done ==> (w.present)(i, #[trigger] jobs[k].filename)
            &&& m.to_patch.len() == 0
        },
        StageModel::ReadPatchFile(i) => {
            &&& a == ActionModel::ReadPatchFile(i)
            &&& programs_good(w, m.programs)
            &&& m.to_program == planned_jobs(w, m.programs)
            &&& patches_good(w, i)
            &&& m.to_patch == planned_patches(w, i)
        },
        StageModel::Write(i) => a == ActionModel::Write(i) && complete(w, m),
        StageModel::Apply(i) => a == ActionModel::Apply(i) && complete(w, m),
        StageModel::Stopped => match a {
            ActionModel::Fail(e) => explained(w, e),
            ActionModel::Finish => complete(w, m),
            _ => false,
        },
    }
}

/// There is no fault where every program is sound.
proof fn lemma_no_program_fault(ps: Seq<ProgramModel>)
    ensures
        first_program_fault(ps) is None <==> forall|k: int|
            0 <= k < ps.len() ==> program_sound(#[trigger] ps[k]),
    decreases ps.len(),
{
    if ps.len() > 0 {
        let front = ps.drop_last();
        lemma_no_program_fault(front);
        assert(forall|k: int| 0 <= k < front.len() ==> front[k] == ps[k]);
        assert(ps.last() == ps[ps.len() - 1]);
    }
}

/// There is no fault where every patch is sound.
proof fn lemma_no_patch_fault(ps: Seq<PatchModel>)
    ensures
        first_patch_fault(ps) is None <==> forall|k: int|
            0 <= k < ps.len() ==> patch_sound(#[trigger] ps[k]),
    decreases ps.len(),
{
    if ps.len() > 0 {
        let front = ps.drop_last();
        lemma_no_patch_fault(front);
        assert(forall|k: int| 0 <= k < front.len() ==> front[k] == ps[k]);
        assert(ps.last() == ps[ps.len() - 1]);
    }
}

proof fn lemma_next_patch_file(w: World, m: FlashModel, i: nat)
    requires
        m.programs == w.program_files.len(),
        m.patches == w.patch_files.len(),
        i <= m.patches,
        m.pending.len() == 0,
        programs_good(w, m.programs),
        m.to_program == planned_jobs(w, m.programs),
        patches_good(w, i),
        m.to_patch == planned_patches(w, i),
    ensures
        consistent(w, m.next_patch_file(i).0, m.next_patch_file(i).1),
{
}

proof fn lemma_next_program_file(w: World, m: FlashModel, i: nat)
    requires
        m.programs == w.program_files.len(),
        m.patches == w.patch_files.len(),
        i <= m.programs,
        m.pending.len() == 0,
        programs_good(w, i),
        m.to_program == planned_jobs(w, i),
        m.to_patch.len() == 0,
    ensures
        consistent(w, m.next_program_file(i).0, m.next_program_file(i).1),
{
    if i == m.programs {
        assert(m.to_patch == planned_patches(w, 0));
        lemma_next_patch_file(w, m, 0);
    }
}

#[verifier::rlimit(50)]
proof fn lemma_next_image(w: World, m: FlashModel, i: nat, done: int)
    requires
        m.programs == w.program_files.len(),
        m.patches == w.patch_files.len(),
        i < m.programs,
        programs_good(w, i),
        file_programs(w.program_files[i as int]) is Ok,
        first_program_fault(file_jobs(w, i)) is None,
        0 <= done <= file_jobs(w, i).len(),
        m.pending == file_jobs(w, i).skip(done),
        m.to_program == planned_jobs(w, i) + jobs_of(i, file_jobs(w, i).take(done)),
        forall|k: int|
            0 <= k < done ==> (w.present)(i, #[trigger] file_jobs(w, i)[k].filename),
        m.to_patch.len() == 0,
    ensures
        consistent(w, m.next_image(i).0, m.next_image(i).1),
{
    let jobs = file_jobs(w, i);
    if m.pending.len() == 0 {
        assert(jobs.take(done) == jobs);
        lemma_no_program_fault(jobs);
        assert(program_file_good(w, i));
        assert(m.to_program == planned_jobs(w, i + 1));
        lemma_next_program_file(w, m, i + 1);
    }
}

#[verifier::rlimit(50)]
proof fn lemma_step_program_file(w: World, m: FlashModel, a: ActionModel)
    requires
        consistent(w, m, a),
        m.stage is ReadProgramFile,
    ensures
        consistent(w, m.step(answer(w, a)).0, m.step(answer(w, a)).1),
{
    if let StageModel::ReadProgramFile(i) = m.stage {
        law_wanted_is_all_that_can_be_written(file_programs(w.program_files[i as int])->Ok_0);
        law_first_program_fault_is_the_first(file_jobs(w, i));
        if (w.works)(a) && file_programs(w.program_files[i as int]) is Ok && first_program_fault(
            file_jobs(w, i),
        ) is None {
            let m1 = FlashModel { pending: file_jobs(w, i), ..m };
            assert(m1.pending == file_jobs(w, i).skip(0));
            assert(m1.to_program == planned_jobs(w, i) + jobs_of(i, file_jobs(w, i).take(0)));
            lemma_next_image(w, m1, i, 0);
            assert(m.step(answer(w, a)) == m1.next_image(i));
        }
    }
}

#[verifier::rlimit(50)]
proof fn lemma_step_image(w: World, m: FlashModel, a: ActionModel)
    requires
        consistent(w, m, a),
        m.stage is CheckImage,
    ensures
        consistent(w, m.step(answer(w, a)).0, m.step(answer(w, a)).1),
{
    if let StageModel::CheckImage(i) = m.stage {
        let jobs = file_jobs(w, i);
        let done = jobs.len() - m.pending.len();
        assert(m.pending[0] == jobs[done]);
        if (w.works)(a) && (w.present)(i, m.pending[0].filename) {
            let m1 = FlashModel {
                pending: m.pending.drop_first(),
                to_program: m.to_program.push((i, m.pending[0])),
                ..m
            };
            assert(m1.pending == jobs.skip(done + 1));
            assert(jobs_of(i, jobs.take(done + 1)) == jobs_of(i, jobs.take(done)).push(
                (i, jobs[done]),
            ));
            assert(m1.to_program == planned_jobs(w, i) + jobs_of(i, jobs.take(done + 1)));
            lemma_next_image(w, m1, i, done + 1);
            assert(m.step(answer(w, a)) == m1.next_image(i));
        }
    }
}

#[verifier::rlimit(50)]
proof fn lemma_step_patch_file(w: World, m: FlashModel, a: ActionModel)
    requires
        consistent(w, m, a),
        m.stage is ReadPatchFile,
    ensures
        consistent(w, m.step(answer(w, a)).0, m.step(answer(w, a)).1),
{
    if let StageModel::ReadPatchFile(i) = m.stage {
        law_first_patch_fault_is_the_first(file_fixes(w, i));
        if (w.works)(a) && file_patches(w.patch_files[i as int]) is Ok && first_patch_fault(
            file_fixes(w, i),
        ) is None {
            let m1 = FlashModel { to_patch: m.to_patch + file_fixes(w, i), ..m };
            lemma_no_patch_fault(file_fixes(w, i));
            assert(patch_file_good(w, i));
            lemma_next_patch_file(w, m1, i + 1);
            assert(m.step(answer(w, a)) == m1.next_patch_file(i + 1));
        }
    }
}

proof fn lemma_step_consistent(w: World, m: FlashModel, a: ActionModel)
    requires
        consistent(w, m, a),
        !is_last(a),
    ensures
        consistent(w, m.step(answer(w, a)).0, m.step(answer(w, a)).1),
{
    match m.stage {
        StageModel::ReadProgramFile(_) => lemma_step_program_file(w, m, a),
        StageModel::CheckImage(_) => lemma_step_image(w, m, a),
        StageModel::ReadPatchFile(_) => lemma_step_patch_file(w, m, a),
        _ => {},
    }
}

#[verifier::rlimit(50)]
proof fn lemma_run_consistent(w: World, n: nat)
    ensures
        consistent(w, after(w, n).0, after(w, n).1),
    decreases n,
{
    if n == 0 {
        let m = FlashModel {
            programs: w.program_files.len(),
            patches: w.patch_files.len(),
            stage: StageModel::Stopped,
            pending: Seq::empty(),
            to_program: Seq::empty(),
            to_patch: Seq::empty(),
        };
        assert(m.to_program == planned_jobs(w, 0));
        lemma_next_program_file(w, m, 0);
    } else {
        lemma_run_consistent(w, (n - 1) as nat);
        let (m, a) = after(w, (n - 1) as nat);
        if !is_last(a) {
            lemma_step_consistent(w, m, a);
        }
    }
}

proof fn lemma_wanted_no_placeholder(ps: Seq<ProgramModel>)
    ensures
        forall|k: int|
            0 <= k < ps.filter(to_be_written()).len() ==> {
                let p = #[trigger] ps.filter(to_be_written())[k];
                p.filename.len() > 0 && p.num_sectors > 0
            },
    decreases ps.len(),
{
    reveal(Seq::filter);
    if ps.len() > 0 {
        let before = ps.drop_last().filter(to_be_written());
        let all = ps.filter(to_be_written());
        lemma_wanted_no_placeholder(ps.drop_last());
        assert forall|k: int| 0 <= k < all.len() implies {
            let p = #[trigger] all[k];
            p.filename.len() > 0 && p.num_sectors > 0
        } by {
            if k < before.len() {
                assert(all[k] == before[k]);
            } else {
                assert(to_be_written()(all[k]));
            }
        }
    }
}

proof fn lemma_planned_no_placeholder(w: World, n: nat)
    ensures
        forall|k: int|
            0 <= k < planned_jobs(w, n).len() ==> {
                let p = (#[trigger] planned_jobs(w, n)[k]).1;
                p.filename.len() > 0 && p.num_sectors > 0
            },
    decreases n,
{
    if n > 0 {
        lemma_planned_no_placeholder(w, (n - 1) as nat);
        lemma_wanted_no_placeholder(file_programs(w.program_files[n - 1])->Ok_0);
        let before = planned_jobs(w, (n - 1) as nat);
        let jobs = jobs_of((n - 1) as nat, file_jobs(w, (n - 1) as nat));
        assert forall|k: int| 0 <= k < planned_jobs(w, n).len() implies {
            let p = (#[trigger] planned_jobs(w, n)[k]).1;
            p.filename.len() > 0 && p.num_sectors > 0
        } by {
            if k < before.len() {
                assert(planned_jobs(w, n)[k] == before[k]);
            } else {
                assert(planned_jobs(w, n)[k] == jobs[k - before.len()]);
                assert(jobs[k - before.len()].1 == file_jobs(w, (n - 1) as nat)[k - before.len()]);
            }
        }
    }
}

/// The device is touched only after every rawprogram and patch file has been
/// read and found usable and every image that is needed exists. What is then
/// written is exactly what the files ask for, in their order, without the
/// placeholders.
pub proof fn law_device_is_touched_last(w: World, n: nat)
    requires
        touches_device(after(w, n).1),
    ensures
        all_good(w),
        after(w, n).0.to_program == planned_jobs(w, w.program_files.len()),
        after(w, n).0.to_patch == planned_patches(w, w.patch_files.len()),
        forall|k: int|
            0 <= k < after(w, n).0.to_program.len() ==> {
                let p = (#[trigger] after(w, n).0.to_program[k]).1;
                p.filename.len() > 0 && p.num_sectors > 0
            },
{
    lemma_run_consistent(w, n);
    lemma_planned_no_placeholder(w, w.program_files.len());
}

/// Where any file is unusable or any image that is needed is missing, the device
/// is never touched.
pub proof fn law_bad_input_leaves_the_device_alone(w: World, n: nat)
    requires
        !all_good(w),
    ensures
        !touches_device(after(w, n).1),
        !(after(w, n).1 is Finish),
{
    lemma_run_consistent(w, n);
}

/// A mistyped entry in a rawprogram file, one whose place no storage gives a value
/// to, leaves the device alone, whichever file it stands in.
pub proof fn law_mistyped_program_leaves_the_device_alone(w: World, i: nat, k: int, n: nat)
    requires
        i < w.program_files.len(),
        0 <= k < file_jobs(w, i).len(),
        !resolvable(file_jobs(w, i)[k].start_sector),
    ensures
        !touches_device(after(w, n).1),
        !(after(w, n).1 is Finish),
{
    law_sound_program_has_no_mistake(file_jobs(w, i)[k]);
    assert(!program_file_good(w, i));
    law_bad_input_leaves_the_device_alone(w, n);
}

/// A mistyped patch leaves the device alone, whichever file it stands in: one of a
/// size that is not supported, one whose place or value no storage gives a value
/// to, and one that straddles a sector boundary.
pub proof fn law_mistyped_patch_leaves_the_device_alone(w: World, i: nat, k: int, n: nat)
    requires
        i < w.patch_files.len(),
        0 <= k < file_fixes(w, i).len(),
        ({
            let p = file_fixes(w, i)[k];
            ||| !patch_size_ok(p)
            ||| !resolvable(p.start_sector)
            ||| !resolvable(p.value)
            ||| straddles(p)
        }),
    ensures
        !touches_device(after(w, n).1),
        !(after(w, n).1 is Finish),
{
    law_sound_patch_has_no_mistake(file_fixes(w, i)[k]);
    assert(!patch_file_good(w, i));
    law_bad_input_leaves_the_device_alone(w, n);
}

/// Once the device has been touched, flashing goes on to the end unless an action
/// fails: a run that fails for another reason has not touched the device before.
pub proof fn law_failure_comes_before_the_device(w: World, k: nat, n: nat)
    requires
        k <= n,
        after(w, n).1 matches ActionModel::Fail(e) && e != FlashErrorModel::ActionFailed,
    ensures
        !touches_device(after(w, k).1),
    decreases n - k,
{
    lemma_run_consistent(w, k);
    if k < n {
        law_failure_comes_before_the_device(w, k + 1, n);
        assert(after(w, k + 1) == {
            let (m, a) = after(w, k);
            if is_last(a) {
                (m, a)
            } else {
                m.step(answer(w, a))
            }
        });
        let (m, a) = after(w, k);
        if touches_device(a) {
            assert(after(w, k + 1).1 matches ActionModel::Fail(e) ==> e
                == FlashErrorModel::ActionFailed);
            lemma_finish_stays(w, k + 1, n);
        }
    }
}

/// Nothing follows the last action.
proof fn lemma_finish_stays(w: World, k: nat, n: nat)
    requires
        k <= n,
    ensures
        is_last(after(w, k).1) ==> after(w, n) == after(w, k),
    decreases n - k,
{
    if k < n {
        lemma_finish_stays(w, k, (n - 1) as nat);
    }
}

/// A state between stages.
spec fn resting(
    w: World,
    pending: Seq<ProgramModel>,
    to_program: Seq<(nat, ProgramModel)>,
    to_patch: Seq<PatchModel>,
) -> FlashModel {
    FlashModel {
        programs: w.program_files.len(),
        patches: w.patch_files.len(),
        stage: StageModel::Stopped,
        pending,
        to_program,
        to_patch,
    }
}

/// The number of answers that the first `i` rawprogram files take.
spec fn program_steps(w: World, i: nat) -> nat {
    i + planned_jobs(w, i).len()
}

/// A rawprogram file that is usable leads to its images.
#[verifier::rlimit(50)]
proof fn lemma_program_file_passes(w: World, i: nat, jobs: Seq<(nat, ProgramModel)>)
    requires
        nothing_fails(w),
        i < w.program_files.len(),
        program_file_good(w, i),
    ensures
        ({
            let (m, a) = resting(w, Seq::empty(), jobs, Seq::empty()).next_program_file(i);
            &&& !is_last(a)
            &&& m.step(answer(w, a)) == resting(
                w,
                file_jobs(w, i),
                jobs,
                Seq::empty(),
            ).next_image(i)
        }),
{
    lemma_no_program_fault(file_jobs(w, i));
    law_wanted_is_all_that_can_be_written(file_programs(w.program_files[i as int])->Ok_0);
}

/// An image that exists makes its program a job.
#[verifier::rlimit(50)]
proof fn lemma_image_passes(w: World, i: nat, m: FlashModel, jobs: Seq<(nat, ProgramModel)>)
    requires
        nothing_fails(w),
        m.pending.len() > 0,
        (w.present)(i, m.pending[0].filename),
        jobs == m.to_program.push((i, m.pending[0])),
        m.to_patch == Seq::<PatchModel>::empty(),
        m.programs == w.program_files.len(),
        m.patches == w.patch_files.len(),
    ensures
        ({
            let (n, a) = m.next_image(i);
            &&& !is_last(a)
            &&& n.step(answer(w, a)) == resting(
                w,
                m.pending.drop_first(),
                jobs,
                Seq::empty(),
            ).next_image(i)
        }),
{
}

#[verifier::rlimit(50)]
proof fn lemma_images_pass(w: World, i: nat, d: nat)
    requires
        nothing_fails(w),
        programs_good(w, w.program_files.len()),
        i < w.program_files.len(),
        d <= file_jobs(w, i).len(),
        after(w, program_steps(w, i)) == resting(
            w,
            Seq::empty(),
            planned_jobs(w, i),
            Seq::empty(),
        ).next_program_file(i),
    ensures
        after(w, program_steps(w, i) + 1 + d) == resting(
            w,
            file_jobs(w, i).skip(d as int),
            planned_jobs(w, i) + jobs_of(i, file_jobs(w, i).take(d as int)),
            Seq::empty(),
        ).next_image(i),
    decreases d,
{
    let jobs = file_jobs(w, i);
    assert(program_file_good(w, i));
    if d == 0 {
        lemma_program_file_passes(w, i, planned_jobs(w, i));
        assert(jobs.skip(0) == jobs);
        assert(planned_jobs(w, i) + jobs_of(i, jobs.take(0)) == planned_jobs(w, i));
        let n = program_steps(w, i);
        assert(after(w, n + 1) == after(w, n).0.step(answer(w, after(w, n).1)));
    } else {
        let e = (d - 1) as nat;
        lemma_images_pass(w, i, e);
        let n = program_steps(w, i) + 1 + e;
        let m = resting(
            w,
            jobs.skip(e as int),
            planned_jobs(w, i) + jobs_of(i, jobs.take(e as int)),
            Seq::empty(),
        );
        let grown = planned_jobs(w, i) + jobs_of(i, jobs.take(d as int));
        assert(m.pending[0] == jobs[e as int]);
        assert((w.present)(i, jobs[e as int].filename));
        assert(m.pending.drop_first() == jobs.skip(d as int));
        assert(grown == m.to_program.push((i, m.pending[0])));
        lemma_image_passes(w, i, m, grown);
        assert(after(w, n + 1) == after(w, n).0.step(answer(w, after(w, n).1)));
    }
}

proof fn lemma_program_files_pass(w: World, i: nat)
    requires
        nothing_fails(w),
        programs_good(w, w.program_files.len()),
        i <= w.program_files.len(),
    ensures
        after(w, program_steps(w, i)) == resting(
            w,
            Seq::empty(),
            planned_jobs(w, i),
            Seq::empty(),
        ).next_program_file(i),
    decreases i,
{
    if i > 0 {
        let j = (i - 1) as nat;
        let jobs = file_jobs(w, j);
        lemma_program_files_pass(w, j);
        lemma_images_pass(w, j, jobs.len());
        assert(jobs.skip(jobs.len() as int) == Seq::<ProgramModel>::empty());
        assert(jobs.take(jobs.len() as int) == jobs);
        assert(program_steps(w, i) == program_steps(w, j) + 1 + jobs.len());
    }
}

#[verifier::rlimit(50)]
proof fn lemma_patch_files_pass(w: World, i: nat)
    requires
        nothing_fails(w),
        all_good(w),
        i <= w.patch_files.len(),
    ensures
        after(w, program_steps(w, w.program_files.len()) + i) == resting(
            w,
            Seq::empty(),
            planned_jobs(w, w.program_files.len()),
            planned_patches(w, i),
        ).next_patch_file(i),
    decreases i,
{
    if i == 0 {
        lemma_program_files_pass(w, w.program_files.len());
    } else {
        let j = (i - 1) as nat;
        lemma_patch_files_pass(w, j);
        assert(patch_file_good(w, j));
        lemma_no_patch_fault(file_fixes(w, j));
        let n = program_steps(w, w.program_files.len()) + j;
        assert(after(w, n + 1) == after(w, n).0.step(answer(w, after(w, n).1)));
    }
}

/// The number of answers that come before the device is touched: one for each
/// file and one for each image.
pub open spec fn checking_steps(w: World) -> nat {
    w.program_files.len() + planned_jobs(w, w.program_files.len()).len() + w.patch_files.len()
}

proof fn lemma_writes_pass(w: World, k: nat)
    requires
        nothing_fails(w),
        all_good(w),
        planned_jobs(w, w.program_files.len()).len() + planned_patches(
            w,
            w.patch_files.len(),
        ).len() > 0,
        k <= planned_jobs(w, w.program_files.len()).len(),
    ensures
        after(w, checking_steps(w) + k) == resting(
            w,
            Seq::empty(),
            planned_jobs(w, w.program_files.len()),
            planned_patches(w, w.patch_files.len()),
        ).next_write(k),
    decreases k,
{
    if k == 0 {
        lemma_patch_files_pass(w, w.patch_files.len());
    } else {
        lemma_writes_pass(w, (k - 1) as nat);
        let n = checking_steps(w) + (k - 1) as nat;
        assert(after(w, n + 1) == after(w, n).0.step(answer(w, after(w, n).1)));
    }
}

proof fn lemma_patches_pass(w: World, k: nat)
    requires
        nothing_fails(w),
        all_good(w),
        planned_jobs(w, w.program_files.len()).len() + planned_patches(
            w,
            w.patch_files.len(),
        ).len() > 0,
        k <= planned_patches(w, w.patch_files.len()).len(),
    ensures
        after(
            w,
            checking_steps(w) + planned_jobs(w, w.program_files.len()).len() + k,
        ) == resting(
            w,
            Seq::empty(),
            planned_jobs(w, w.program_files.len()),
            planned_patches(w, w.patch_files.len()),
        ).next_apply(k),
    decreases k,
{
    let jobs = planned_jobs(w, w.program_files.len()).len();
    if k == 0 {
        lemma_writes_pass(w, jobs);
    } else {
        lemma_patches_pass(w, (k - 1) as nat);
        let n = checking_steps(w) + jobs + (k - 1) as nat;
        assert(after(w, n + 1) == after(w, n).0.step(answer(w, after(w, n).1)));
    }
}

/// Where every file is usable, every image that is needed exists, there is
/// something to flash and no action fails, every job is written once, in the order of the files, and
/// behind the last job every patch is applied once, in the order of the files.
pub proof fn law_good_input_is_flashed(w: World)
    requires
        nothing_fails(w),
        all_good(w),
        planned_jobs(w, w.program_files.len()).len() + planned_patches(
            w,
            w.patch_files.len(),
        ).len() > 0,
    ensures
        ({
            let jobs = planned_jobs(w, w.program_files.len()).len();
            let patches = planned_patches(w, w.patch_files.len()).len();
            let first = checking_steps(w);
            &&& forall|k: nat| k < first ==> !touches_device((#[trigger] after(w, k)).1)
            &&& forall|k: nat| k < jobs ==> (#[trigger] after(w, first + k)).1
                == ActionModel::Write(k)
            &&& forall|k: nat| k < patches ==> (#[trigger] after(w, first + jobs + k)).1
                == ActionModel::Apply(k)
            &&& after(w, first + jobs + patches).1 == ActionModel::Finish
        }),
{
    let jobs = planned_jobs(w, w.program_files.len()).len();
    let patches = planned_patches(w, w.patch_files.len()).len();
    let first = checking_steps(w);
    assert forall|k: nat| k < first implies !touches_device((#[trigger] after(w, k)).1) by {
        lemma_checking_does_not_touch(w, k);
    }
    assert forall|k: nat| k < jobs implies (#[trigger] after(w, first + k)).1
        == ActionModel::Write(k) by {
        lemma_writes_pass(w, k);
    }
    assert forall|k: nat| k < patches implies (#[trigger] after(w, first + jobs + k)).1
        == ActionModel::Apply(k) by {
        lemma_patches_pass(w, k);
    }
    lemma_patches_pass(w, patches);
}

/// Every answer before the device is touched is one for a file or an image.
#[verifier::rlimit(50)]
proof fn lemma_checking_does_not_touch(w: World, k: nat)
    requires
        nothing_fails(w),
        all_good(w),
        planned_jobs(w, w.program_files.len()).len() + planned_patches(
            w,
            w.patch_files.len(),
        ).len() > 0,
        k < checking_steps(w),
    ensures
        !touches_device(after(w, k).1),
    decreases checking_steps(w) - k,
{
    lemma_run_consistent(w, k);
    lemma_run_consistent(w, k + 1);
    let (m, a) = after(w, k);
    assert(after(w, k + 1) == if is_last(a) {
        (m, a)
    } else {
        m.step(answer(w, a))
    });
    if k + 1 < checking_steps(w) {
        lemma_checking_does_not_touch(w, k + 1);
        if touches_device(a) {
            lemma_finish_stays(w, k + 1, checking_steps(w));
            lemma_writes_pass(w, 0);
        }
    } else {
        lemma_writes_pass(w, 0);
        if touches_device(a) {
            assert(after(w, k + 1).1 != ActionModel::Write(0));
        }
    }
}

/// How much of a stage is left, first by kind of stage.
spec fn left(m: FlashModel) -> (nat, nat, nat) {
    match m.stage {
        StageModel::ReadProgramFile(i) => (3, (2 * (m.programs - i) + 1) as nat, 0),
        StageModel::CheckImage(i) => (3, (2 * (m.programs - i)) as nat, m.pending.len()),
        StageModel::ReadPatchFile(i) => (2, (m.patches - i) as nat, 0),
        StageModel::Write(i) => (1, (m.to_program.len() - i) as nat, 0),
        StageModel::Apply(i) => (0, (m.to_patch.len() - i) as nat, 0),
        StageModel::Stopped => (0, 0, 0),
    }
}

#[verifier::rlimit(50)]
proof fn lemma_run_ends(w: World, n: nat) -> (end: nat)
    ensures
        is_last(after(w, end).1),
    decreases left(after(w, n).0).0, left(after(w, n).0).1, left(after(w, n).0).2,
{
    lemma_run_consistent(w, n);
    lemma_run_consistent(w, n + 1);
    let (m, a) = after(w, n);
    if is_last(a) {
        n
    } else {
        assert(after(w, n + 1) == m.step(answer(w, a)));
        if is_last(after(w, n + 1).1) {
            n + 1
        } else {
            lemma_run_ends(w, n + 1)
        }
    }
}

/// Every run comes to an end, and where any file is unusable or any image that
/// is needed is missing, that end is an error.
pub proof fn law_every_run_ends(w: World)
    ensures
        exists|n: nat| is_last((#[trigger] after(w, n)).1),
        !all_good(w) ==> exists|n: nat| (#[trigger] after(w, n)).1 is Fail,
{
    let end = lemma_run_ends(w, 0);
    lemma_run_consistent(w, end);
    assert(is_last(after(w, end).1));
}

/// An action that fails ends the run: nothing is done after it, whatever comes.
pub proof fn law_failed_action_ends_the_run(m: FlashModel, event: EventModel)
    requires
        !(m.stage is Stopped),
    ensures
        m.step(EventModel::Failed).1 == ActionModel::Fail(FlashErrorModel::ActionFailed),
        m.step(EventModel::Failed).0.step(event).1 == ActionModel::Fail(FlashErrorModel::OutOfTurn),
{
}

/// `w`, with no action failing.
spec fn flawless(w: World) -> World {
    World { works: |a: ActionModel| true, ..w }
}

proof fn lemma_flawless_plan(w: World, n: nat)
    ensures
        planned_jobs(flawless(w), n) == planned_jobs(w, n),
        planned_patches(flawless(w), n) == planned_patches(w, n),
    decreases n,
{
    if n > 0 {
        lemma_flawless_plan(w, (n - 1) as nat);
    }
}

/// Up to the first action that fails, a run is the same as if none failed.
proof fn lemma_flawless_run(w: World, n: nat)
    ensures
        after(w, n).1 != ActionModel::Fail(FlashErrorModel::ActionFailed) ==> after(w, n) == after(
            flawless(w),
            n,
        ),
    decreases n,
{
    if n > 0 {
        lemma_flawless_run(w, (n - 1) as nat);
        lemma_run_consistent(w, (n - 1) as nat);
    }
}

/// Whatever fails, the device is touched in the order that the files give: job by
/// job, then patch by patch, none left out and none repeated.
pub proof fn law_device_is_touched_in_order(w: World, n: nat)
    requires
        touches_device(after(w, n).1),
    ensures
        ({
            let jobs = planned_jobs(w, w.program_files.len()).len();
            let patches = planned_patches(w, w.patch_files.len()).len();
            let k = n - checking_steps(w);
            &&& 0 <= k < jobs + patches
            &&& after(w, n).1 == if k < jobs {
                ActionModel::Write(k as nat)
            } else {
                ActionModel::Apply((k - jobs) as nat)
            }
        }),
{
    let v = flawless(w);
    lemma_flawless_run(w, n);
    lemma_flawless_plan(w, w.program_files.len());
    lemma_flawless_plan(w, w.patch_files.len());
    lemma_run_consistent(v, n);
    let jobs = planned_jobs(w, w.program_files.len()).len();
    let patches = planned_patches(w, w.patch_files.len()).len();
    let first = checking_steps(w);
    law_good_input_is_flashed(v);
    if n < first {
        assert(!touches_device(after(v, n).1));
    } else if n < first + jobs {
        assert(after(v, first + (n - first) as nat).1 == ActionModel::Write((n - first) as nat));
    } else if n < first + jobs + patches {
        let k = (n - first - jobs) as nat;
        assert(after(v, first + jobs + k).1 == ActionModel::Apply(k));
    } else {
        lemma_finish_stays(v, first + jobs + patches, n);
    }
}

/// Files that ask for nothing are an error, and not a finished run.
pub proof fn law_nothing_to_flash(w: World)
    requires
        nothing_fails(w),
        all_good(w),
        planned_jobs(w, w.program_files.len()).len() == 0,
        planned_patches(w, w.patch_files.len()).len() == 0,
    ensures
        after(w, checking_steps(w)).1 == ActionModel::Fail(FlashErrorModel::NothingToFlash),
{
    lemma_patch_files_pass(w, w.patch_files.len());
}

/// A run that fails tells what is wrong first: every file, entry and image before it
/// is in order. It fails for an action only if one fails, and never for its own
/// sake.
pub proof fn law_failure_tells_what_is_wrong_first(w: World, n: nat)
    ensures
        after(w, n).1 matches ActionModel::Fail(e) ==> explained(w, e),
{
    lemma_run_consistent(w, n);
}

proof fn lemma_flawless_before(w: World, k: nat, n: nat)
    requires
        k <= n,
        after(w, n).1 is Finish,
    ensures
        after(w, k) == after(flawless(w), k),
{
    lemma_finish_stays(w, k, n);
    lemma_flawless_run(w, k);
}

/// A run that finishes has written every job and applied every patch, each once and
/// in order: there is nothing that a finished run leaves out.
#[verifier::rlimit(50)]
pub proof fn law_finished_run_left_nothing_out(w: World, n: nat)
    requires
        after(w, n).1 is Finish,
    ensures
        ({
            let jobs = planned_jobs(w, w.program_files.len()).len();
            let patches = planned_patches(w, w.patch_files.len()).len();
            let first = checking_steps(w);
            &&& all_good(w)
            &&& n >= first + jobs + patches
            &&& after(w, n).0.to_program == planned_jobs(w, w.program_files.len())
            &&& after(w, n).0.to_patch == planned_patches(w, w.patch_files.len())
            &&& forall|k: nat| k < jobs ==> (#[trigger] after(w, first + k)).1
                == ActionModel::Write(k)
            &&& forall|k: nat| k < patches ==> (#[trigger] after(w, first + jobs + k)).1
                == ActionModel::Apply(k)
        }),
{
    let v = flawless(w);
    let jobs = planned_jobs(w, w.program_files.len()).len();
    let patches = planned_patches(w, w.patch_files.len()).len();
    let first = checking_steps(w);
    lemma_run_consistent(w, n);
    lemma_flawless_plan(w, w.program_files.len());
    lemma_flawless_plan(w, w.patch_files.len());
    lemma_flawless_before(w, n, n);
    lemma_run_consistent(v, n);
    law_good_input_is_flashed(v);
    if n < first + jobs + patches {
        lemma_finish_stays(v, n, first + jobs + patches);
        if n >= first + jobs {
            let k = (n - first - jobs) as nat;
            assert(after(v, first + jobs + k).1 == ActionModel::Apply(k));
        } else if n >= first {
            let k = (n - first) as nat;
            assert(after(v, first + k).1 == ActionModel::Write(k));
        } else {
            lemma_finish_stays(v, n, first);
            if jobs > 0 {
                assert(after(v, first + 0nat).1 == ActionModel::Write(0));
            } else {
                assert(after(v, first + jobs + 0nat).1 == ActionModel::Apply(0));
            }
        }
    }
    assert forall|k: nat| k < jobs implies (#[trigger] after(w, first + k)).1
        == ActionModel::Write(k) by {
        lemma_flawless_before(w, first + k, n);
    }
    assert forall|k: nat| k < patches implies (#[trigger] after(w, first + jobs + k)).1
        == ActionModel::Apply(k) by {
        lemma_flawless_before(w, first + jobs + k, n);
    }
}

/// Where nothing is wrong and no action fails, every rawprogram file is read, in
/// order, and behind it each image that it needs is looked for, next to it and in
/// order; then every patch file is read, in order.
#[verifier::rlimit(50)]
pub proof fn law_checks_go_in_order(w: World)
    requires
        nothing_fails(w),
        all_good(w),
    ensures
        forall|i: nat|
            i < w.program_files.len() ==> (#[trigger] after(
                w,
                i + planned_jobs(w, i).len(),
            )).1 == ActionModel::ReadProgramFile(i),
        forall|i: nat, d: nat|
            i < w.program_files.len() && d < file_jobs(w, i).len() ==> (#[trigger] after(
                w,
                i + planned_jobs(w, i).len() + 1 + d,
            )).1 == (ActionModel::CheckImage { file: i, name: file_jobs(w, i)[d as int].filename }),
        forall|i: nat|
            i < w.patch_files.len() ==> (#[trigger] after(
                w,
                w.program_files.len() + planned_jobs(w, w.program_files.len()).len() + i,
            )).1 == ActionModel::ReadPatchFile(i),
{
    assert forall|i: nat| i < w.program_files.len() implies (#[trigger] after(
        w,
        i + planned_jobs(w, i).len(),
    )).1 == ActionModel::ReadProgramFile(i) by {
        lemma_program_files_pass(w, i);
    }
    assert forall|i: nat, d: nat|
        i < w.program_files.len() && d < file_jobs(w, i).len() implies (#[trigger] after(
        w,
        i + planned_jobs(w, i).len() + 1 + d,
    )).1 == (ActionModel::CheckImage { file: i, name: file_jobs(w, i)[d as int].filename }) by {
        lemma_program_files_pass(w, i);
        lemma_images_pass(w, i, d);
        assert(file_jobs(w, i).skip(d as int)[0] == file_jobs(w, i)[d as int]);
    }
    assert forall|i: nat| i < w.patch_files.len() implies (#[trigger] after(
        w,
        w.program_files.len() + planned_jobs(w, w.program_files.len()).len() + i,
    )).1 == ActionModel::ReadPatchFile(i) by {
        lemma_patch_files_pass(w, i);
    }
}

/// An event that is no answer to the action at hand is refused, and so is every
/// event after the end.
pub proof fn law_events_out_of_turn_are_refused(m: FlashModel, event: EventModel)
    requires
        match event {
            EventModel::ProgramFile(_) => !(m.stage is ReadProgramFile),
            EventModel::Image(_) => !(m.stage is CheckImage),
            EventModel::PatchFile(_) => !(m.stage is ReadPatchFile),
            EventModel::Done => !(m.stage is Write) && !(m.stage is Apply),
            EventModel::Failed => m.stage is Stopped,
        },
    ensures
        m.step(event).1 == ActionModel::Fail(FlashErrorModel::OutOfTurn),
        m.step(event).0.stage is Stopped,
{
}

} // verus!
