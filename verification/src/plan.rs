//! What writing a program or applying a patch does to a target.

use vstd::arithmetic::div_mod::{
    lemma_div_multiples_vanish, lemma_fundamental_div_mod, lemma_mod_breakdown,
    lemma_mod_multiples_vanish,
};
use vstd::arithmetic::power::{lemma_pow0, lemma_pow_positive, pow};
use vstd::prelude::*;

use crate::rawprogram::{Patch, PatchModel, Program, ProgramModel};
use crate::sectors::{
    can_resolve, eval_sectors, least_size, lemma_value_grows, resolvable, sector_value, SectorError,
    SectorProblem,
};
use crate::text::{
    decimal, decimal_digits, decimal_text, law_decimal_text_is_the_shortest,
    law_decimal_text_reads_back, only_digits, NumberError,
};

verus! {

/// Why a target does not suit an entry.
#[derive(Clone, Copy, Debug, PartialEq, Eq, Structural)]
pub enum TargetProblem {
    /// The sectors of the target have another size than the entry expects.
    SectorSize { reported: u32, expected: u64 },
    /// The target does not report the size of its sectors.
    NoSectorSize,
}

/// A target that does not suit an entry, and why.
#[derive(Debug)]
pub struct TargetError {
    pub target: String,
    pub problem: TargetProblem,
}

/// Why an entry cannot be carried out.
#[derive(Debug)]
pub enum PlanError {
    /// The target does not suit the entry.
    Target(TargetError),
    /// Where the program called `label` goes cannot be resolved.
    Placement { label: String, cause: SectorError },
    /// Where the patch goes cannot be resolved.
    Start(SectorError),
    /// The value to patch in for `what` cannot be resolved.
    Value { what: String, cause: SectorError },
    /// Patches of this many bytes are not supported.
    PatchSize(u64),
    /// The patch for `what` does not lie within one sector.
    Straddles { what: String },
    /// The numbers of the entry called `name` suit no target at all.
    OutOfRange { name: String },
}

/// What a [`PlanError`] stands for.
pub enum PlanErrorModel {
    Target { target: Seq<char>, mismatch: TargetProblem },
    Placement { label: Seq<char>, expr: Seq<char>, problem: SectorProblem },
    Start { expr: Seq<char>, problem: SectorProblem },
    Value { what: Seq<char>, expr: Seq<char>, problem: SectorProblem },
    PatchSize(u64),
    Straddles { what: Seq<char> },
    OutOfRange { name: Seq<char> },
}

impl View for PlanError {
    type V = PlanErrorModel;

    open spec fn view(&self) -> PlanErrorModel {
        match self {
            PlanError::Target(e) => PlanErrorModel::Target {
                target: e.target@,
                mismatch: e.problem,
            },
            PlanError::Placement { label, cause } => PlanErrorModel::Placement {
                label: label@,
                expr: cause.expr@,
                problem: cause.problem,
            },
            PlanError::Start(cause) => PlanErrorModel::Start {
                expr: cause.expr@,
                problem: cause.problem,
            },
            PlanError::Value { what, cause } => PlanErrorModel::Value {
                what: what@,
                expr: cause.expr@,
                problem: cause.problem,
            },
            PlanError::PatchSize(n) => PlanErrorModel::PatchSize(*n),
            PlanError::Straddles { what } => PlanErrorModel::Straddles { what: what@ },
            PlanError::OutOfRange { name } => PlanErrorModel::OutOfRange { name: name@ },
        }
    }
}

/// Where a program goes: at most `len` bytes of its file, from `file_offset` on,
/// are written to the target from `device_offset` on.
#[derive(Clone, Copy, Debug, PartialEq, Eq, Structural)]
pub struct WritePlan {
    /// The sector that `device_offset` is the start of.
    pub start: u64,
    pub device_offset: u64,
    pub file_offset: u64,
    pub len: u64,
}

/// What a patch changes: the `size` low bytes of `value` go to `in_sector` within
/// the sector that starts at `offset` on the target.
#[derive(Clone, Copy, Debug, PartialEq, Eq, Structural)]
pub struct PatchPlan {
    pub sector: u64,
    pub offset: u64,
    pub sector_size: u64,
    pub in_sector: u64,
    pub size: u64,
    pub value: u64,
}

/// The name of the target for a logical unit.
pub open spec fn lun_target(lun: u8) -> Seq<char> {
    "lun"@ + decimal_digits(lun as nat)
}

/// The number of sectors of a target that reports `blocksize` and `size`, where
/// the sectors are expected to be of `sector_size` bytes.
pub open spec fn target_sectors(
    blocksize: Option<u32>,
    size: Option<u64>,
    sector_size: u64,
) -> Result<Option<u64>, TargetProblem> {
    match blocksize {
        None => Err(TargetProblem::NoSectorSize),
        Some(b) => if b == sector_size {
            match size {
                None => Ok(None),
                Some(n) => Ok(Some((n / sector_size) as u64)),
            }
        } else {
            Err(TargetProblem::SectorSize { reported: b, expected: sector_size })
        },
    }
}

/// Whether the sectors of a target can be counted: they cannot be if they are
/// empty although the target is not.
pub open spec fn sectors_countable(
    blocksize: Option<u32>,
    size: Option<u64>,
    sector_size: u64,
) -> bool {
    !(blocksize == Some(0u32) && sector_size == 0 && size is Some)
}

/// Whether everything that planning to write `p` computes is defined and fits.
pub open spec fn write_fits(p: ProgramModel, blocksize: Option<u32>, size: Option<u64>) -> bool {
    &&& p.num_sectors * p.sector_size <= u64::MAX
    &&& sectors_countable(blocksize, size, p.sector_size)
    &&& match target_sectors(blocksize, size, p.sector_size) {
        Err(_) => true,
        Ok(sectors) => {
            match sector_value(p.start_sector, sectors) {
                Err(_) => true,
                Ok(start) => {
                    &&& start * p.sector_size <= u64::MAX
                    &&& p.file_sector_offset * p.sector_size <= u64::MAX
                },
            }
        },
    }
}

/// How `p` is written to a target that reports `blocksize` and `size`.
pub open spec fn write_plan(p: ProgramModel, blocksize: Option<u32>, size: Option<u64>) -> Result<
    WritePlan,
    PlanErrorModel,
> {
    match target_sectors(blocksize, size, p.sector_size) {
        Err(mismatch) => Err(PlanErrorModel::Target { target: lun_target(p.lun), mismatch }),
        Ok(sectors) => match sector_value(p.start_sector, sectors) {
            Err(problem) => Err(
                PlanErrorModel::Placement { label: p.label, expr: p.start_sector, problem },
            ),
            Ok(start) => Ok(
                WritePlan {
                    start,
                    device_offset: (start * p.sector_size) as u64,
                    file_offset: (p.file_sector_offset * p.sector_size) as u64,
                    len: (p.num_sectors * p.sector_size) as u64,
                },
            ),
        },
    }
}

/// Whether a patch has a size that is supported.
pub open spec fn patch_size_ok(p: PatchModel) -> bool {
    1 <= p.size_in_bytes <= 8
}

/// Whether everything that planning to apply `p` computes is defined and fits.
pub open spec fn patch_fits(p: PatchModel, blocksize: Option<u32>, size: Option<u64>) -> bool {
    patch_size_ok(p) ==> {
        &&& sectors_countable(blocksize, size, p.sector_size)
        &&& match target_sectors(blocksize, size, p.sector_size) {
            Err(_) => true,
            Ok(sectors) => {
                match sector_value(p.start_sector, sectors) {
                    Err(_) => true,
                    Ok(start) => sector_value(p.value, sectors) is Ok ==> {
                        &&& p.sector_size != 0
                        &&& start * p.sector_size + p.byte_offset <= u64::MAX
                    },
                }
            },
        }
    }
}

/// How `p` is applied to a target that reports `blocksize` and `size`.
pub open spec fn patch_plan(p: PatchModel, blocksize: Option<u32>, size: Option<u64>) -> Result<
    PatchPlan,
    PlanErrorModel,
> {
    if !patch_size_ok(p) {
        Err(PlanErrorModel::PatchSize(p.size_in_bytes))
    } else {
        match target_sectors(blocksize, size, p.sector_size) {
            Err(mismatch) => Err(PlanErrorModel::Target { target: lun_target(p.lun), mismatch }),
            Ok(sectors) => match (
                sector_value(p.start_sector, sectors),
                sector_value(p.value, sectors),
            ) {
                (Err(problem), _) => Err(PlanErrorModel::Start { expr: p.start_sector, problem }),
                (Ok(_), Err(problem)) => Err(
                    PlanErrorModel::Value { what: p.what, expr: p.value, problem },
                ),
                (Ok(start), Ok(value)) => {
                    let at = start * p.sector_size + p.byte_offset;
                    let sector = at / (p.sector_size as int);
                    let in_sector = at % (p.sector_size as int);
                    if in_sector + p.size_in_bytes > p.sector_size {
                        Err(PlanErrorModel::Straddles { what: p.what })
                    } else {
                        Ok(
                            PatchPlan {
                                sector: sector as u64,
                                offset: (sector * p.sector_size) as u64,
                                sector_size: p.sector_size,
                                in_sector: in_sector as u64,
                                size: p.size_in_bytes,
                                value,
                            },
                        )
                    }
                },
            },
        }
    }
}

/// The name of the target for a logical unit.
pub fn target_name(lun: u8) -> (r: String)
    ensures
        r@ == lun_target(lun),
{
    "lun".to_owned().concat(decimal_text(lun as u64).as_str())
}

/// Checks that a target lines up with what a file expects it to be, and counts
/// its sectors where its size is known.
pub fn check_target(
    target: &str,
    blocksize: Option<u32>,
    size: Option<u64>,
    sector_size: u64,
) -> (r: Result<Option<u64>, TargetError>)
    requires
        sectors_countable(blocksize, size, sector_size),
    ensures
        match r {
            Ok(n) => target_sectors(blocksize, size, sector_size) == Ok::<
                Option<u64>,
                TargetProblem,
            >(n),
            Err(e) => target_sectors(blocksize, size, sector_size) == Err::<
                Option<u64>,
                TargetProblem,
            >(e.problem) && e.target@ == target@,
        },
{
    match blocksize {
        Some(b) => {
            if b as u64 != sector_size {
                return Err(
                    TargetError {
                        target: target.to_owned(),
                        problem: TargetProblem::SectorSize { reported: b, expected: sector_size },
                    },
                );
            }
        },
        None => {
            return Err(
                TargetError { target: target.to_owned(), problem: TargetProblem::NoSectorSize },
            );
        },
    }
    match size {
        Some(n) => Ok(Some(n / sector_size)),
        None => Ok(None),
    }
}

/// The number of bytes that `p` covers on its target.
pub fn program_len(p: &Program) -> (r: u64)
    requires
        p.num_sectors * p.sector_size <= u64::MAX,
    ensures
        r == p.num_sectors * p.sector_size,
{
    p.num_sectors * p.sector_size
}

/// Whether everything that [`plan_write`] computes is defined and fits.
pub fn can_plan_write(p: &Program, blocksize: Option<u32>, size: Option<u64>) -> (r: bool)
    ensures
        r == write_fits(p@, blocksize, size),
{
    if p.num_sectors.checked_mul(p.sector_size).is_none() {
        return false;
    }
    if blocksize.is_some() && blocksize.unwrap() == 0 && p.sector_size == 0 && size.is_some() {
        return false;
    }
    let sectors = match check_target("", blocksize, size, p.sector_size) {
        Err(_) => return true,
        Ok(n) => n,
    };
    match eval_sectors(p.start_sector.as_str(), sectors) {
        Err(_) => true,
        Ok(start) => start.checked_mul(p.sector_size).is_some() && p.file_sector_offset.checked_mul(
            p.sector_size,
        ).is_some(),
    }
}

/// How `p` is written to a target that reports `blocksize` and `size`.
pub fn plan_write(p: &Program, blocksize: Option<u32>, size: Option<u64>) -> (r: Result<
    WritePlan,
    PlanError,
>)
    requires
        write_fits(p@, blocksize, size),
    ensures
        match r {
            Ok(plan) => write_plan(p@, blocksize, size) == Ok::<WritePlan, PlanErrorModel>(plan),
            Err(e) => write_plan(p@, blocksize, size) == Err::<WritePlan, PlanErrorModel>(e@),
        },
{
    let target = target_name(p.lun);
    let sectors = match check_target(target.as_str(), blocksize, size, p.sector_size) {
        Ok(n) => n,
        Err(e) => return Err(PlanError::Target(e)),
    };
    let start = match eval_sectors(p.start_sector.as_str(), sectors) {
        Ok(n) => n,
        Err(cause) => return Err(PlanError::Placement { label: p.label.clone(), cause }),
    };
    Ok(
        WritePlan {
            start,
            device_offset: start * p.sector_size,
            file_offset: p.file_sector_offset * p.sector_size,
            len: program_len(p),
        },
    )
}

/// The target that `p` is applied to, if patches of its size are supported.
pub fn patch_target(p: &Patch) -> (r: Result<String, PlanError>)
    ensures
        match r {
            Ok(target) => patch_size_ok(p@) && target@ == lun_target(p.lun),
            Err(e) => !patch_size_ok(p@) && e@ == PlanErrorModel::PatchSize(p.size_in_bytes),
        },
{
    if p.size_in_bytes == 0 || p.size_in_bytes > 8 {
        return Err(PlanError::PatchSize(p.size_in_bytes));
    }
    Ok(target_name(p.lun))
}

/// Whether everything that [`plan_patch`] computes is defined and fits.
pub fn can_plan_patch(p: &Patch, blocksize: Option<u32>, size: Option<u64>) -> (r: bool)
    ensures
        r == patch_fits(p@, blocksize, size),
{
    if p.size_in_bytes == 0 || p.size_in_bytes > 8 {
        return true;
    }
    if blocksize.is_some() && blocksize.unwrap() == 0 && p.sector_size == 0 && size.is_some() {
        return false;
    }
    let sectors = match check_target("", blocksize, size, p.sector_size) {
        Err(_) => return true,
        Ok(n) => n,
    };
    let start: u64 = match eval_sectors(p.start_sector.as_str(), sectors) {
        Err(_) => return true,
        Ok(start) => start,
    };
    if eval_sectors(p.value.as_str(), sectors).is_err() {
        return true;
    }
    if p.sector_size == 0 {
        return false;
    }
    match start.checked_mul(p.sector_size) {
        None => false,
        Some(base) => base.checked_add(p.byte_offset).is_some(),
    }
}

/// How `p` is applied to a target that reports `blocksize` and `size`: the sector
/// that holds the value has to be read, modified and written back.
pub fn plan_patch(p: &Patch, blocksize: Option<u32>, size: Option<u64>) -> (r: Result<
    PatchPlan,
    PlanError,
>)
    requires
        patch_fits(p@, blocksize, size),
    ensures
        match r {
            Ok(plan) => patch_plan(p@, blocksize, size) == Ok::<PatchPlan, PlanErrorModel>(plan),
            Err(e) => patch_plan(p@, blocksize, size) == Err::<PatchPlan, PlanErrorModel>(e@),
        },
{
    let target = match patch_target(p) {
        Ok(t) => t,
        Err(e) => return Err(e),
    };
    let sectors = match check_target(target.as_str(), blocksize, size, p.sector_size) {
        Ok(n) => n,
        Err(e) => return Err(PlanError::Target(e)),
    };
    let start: u64 = match eval_sectors(p.start_sector.as_str(), sectors) {
        Ok(n) => n,
        Err(cause) => return Err(PlanError::Start(cause)),
    };
    let value: u64 = match eval_sectors(p.value.as_str(), sectors) {
        Ok(n) => n,
        Err(cause) => return Err(PlanError::Value { what: p.what.clone(), cause }),
    };
    assert(0 <= start * p.sector_size) by (nonlinear_arith);
    let at: u64 = start * p.sector_size + p.byte_offset;
    let sector: u64 = at / p.sector_size;
    let in_sector: u64 = at % p.sector_size;
    proof {
        lemma_fundamental_div_mod(at as int, p.sector_size as int);
        assert(sector * p.sector_size == p.sector_size * sector) by (nonlinear_arith);
    }
    if in_sector + p.size_in_bytes > p.sector_size {
        return Err(PlanError::Straddles { what: p.what.clone() });
    }
    Ok(
        PatchPlan {
            sector,
            offset: sector * p.sector_size,
            sector_size: p.sector_size,
            in_sector,
            size: p.size_in_bytes,
            value,
        },
    )
}

/// Whether `p` can be written to a target that reports `blocksize` and `size`.
pub open spec fn write_possible(
    p: ProgramModel,
    blocksize: Option<u32>,
    size: Option<u64>,
) -> bool {
    write_fits(p, blocksize, size) && write_plan(p, blocksize, size) is Ok
}

/// Whether there is a target that `p` can be written to.
pub open spec fn program_sound(p: ProgramModel) -> bool {
    exists|blocksize: Option<u32>, size: Option<u64>| write_possible(p, blocksize, size)
}

/// What is wrong with a program that can be written to no target.
pub open spec fn program_fault(p: ProgramModel) -> PlanErrorModel {
    if !resolvable(p.start_sector) {
        PlanErrorModel::Placement {
            label: p.label,
            expr: p.start_sector,
            problem: sector_value(p.start_sector, Some(0))->Err_0,
        }
    } else {
        PlanErrorModel::OutOfRange { name: p.label }
    }
}

/// Whether `p` can be applied to a target that reports `blocksize` and `size`.
pub open spec fn patch_possible(p: PatchModel, blocksize: Option<u32>, size: Option<u64>) -> bool {
    patch_fits(p, blocksize, size) && patch_plan(p, blocksize, size) is Ok
}

/// Whether there is a target that `p` can be applied to.
pub open spec fn patch_sound(p: PatchModel) -> bool {
    exists|blocksize: Option<u32>, size: Option<u64>| patch_possible(p, blocksize, size)
}

/// Whether a patch does not lie within one sector, wherever it starts.
pub open spec fn straddles(p: PatchModel) -> bool {
    p.sector_size > 0 && p.byte_offset % p.sector_size + p.size_in_bytes > p.sector_size
}

/// What is wrong with a patch that can be applied to no target.
pub open spec fn patch_fault(p: PatchModel) -> PlanErrorModel {
    if !patch_size_ok(p) {
        PlanErrorModel::PatchSize(p.size_in_bytes)
    } else if !resolvable(p.start_sector) {
        PlanErrorModel::Start {
            expr: p.start_sector,
            problem: sector_value(p.start_sector, Some(0))->Err_0,
        }
    } else if !resolvable(p.value) {
        PlanErrorModel::Value {
            what: p.what,
            expr: p.value,
            problem: sector_value(p.value, Some(0))->Err_0,
        }
    } else if straddles(p) {
        PlanErrorModel::Straddles { what: p.what }
    } else {
        PlanErrorModel::OutOfRange { name: p.what }
    }
}

/// Whether no smaller storage than one of `n` sectors gives `expr` a value.
spec fn least(expr: Seq<char>, n: u64) -> bool {
    &&& sector_value(expr, Some(n)) is Ok
    &&& forall|size: u64| size < n ==> sector_value(expr, Some(size)) is Err
}

/// Checks what can be checked of `p` without its target: that there is one that it
/// can be written to.
pub fn check_program(p: &Program) -> (r: Result<(), PlanError>)
    ensures
        match r {
            Ok(_) => program_sound(p@),
            Err(e) => !program_sound(p@) && e@ == program_fault(p@),
        },
{
    proof {
        law_sound_program_has_no_mistake(p@);
    }
    if let Err(cause) = eval_sectors(p.start_sector.as_str(), Some(0)) {
        if !can_resolve(p.start_sector.as_str()) {
            return Err(PlanError::Placement { label: p.label.clone(), cause });
        }
    }
    assert(resolvable(p@.start_sector));
    let sectors: u64 = least_size(p.start_sector.as_str());
    proof {
        lemma_least_target_suits_write(p@, sectors);
    }
    if p.sector_size <= u32::MAX as u64 {
        let blocksize: Option<u32> = Some(p.sector_size as u32);
        let size: Option<u64> = if p.sector_size == 0 {
            None
        } else {
            sectors.checked_mul(p.sector_size)
        };
        if (p.sector_size == 0 || size.is_some()) && can_plan_write(p, blocksize, size)
            && plan_write(p, blocksize, size).is_ok() {
            assert(write_possible(p@, blocksize, size));
            return Ok(());
        }
    }
    Err(PlanError::OutOfRange { name: p.label.clone() })
}

/// A program whose place no storage gives a value to can be written to no target.
pub proof fn law_sound_program_has_no_mistake(p: ProgramModel)
    ensures
        program_sound(p) ==> resolvable(p.start_sector),
{
    if program_sound(p) {
        let (blocksize, size) = choose|blocksize: Option<u32>, size: Option<u64>|
            write_possible(p, blocksize, size);
        let sectors = target_sectors(blocksize, size, p.sector_size)->Ok_0;
        lemma_resolved(p.start_sector, sectors);
    }
}

/// What has a value on a target is resolvable.
proof fn lemma_resolved(expr: Seq<char>, sectors: Option<u64>)
    requires
        sector_value(expr, sectors) is Ok,
    ensures
        resolvable(expr),
        sectors is None ==> sector_value(expr, Some(0)) == sector_value(expr, sectors),
{
    match sectors {
        Some(n) => {
            assert(sector_value(expr, Some(n)) is Ok);
        },
        None => {
            assert(sector_value(expr, Some(0u64)) is Ok);
        },
    }
}

/// A target with as few sectors as `p` needs suits `p` if any does.
proof fn lemma_least_target_suits_write(p: ProgramModel, sectors: u64)
    requires
        least(p.start_sector, sectors),
    ensures
        program_sound(p) ==> {
            &&& p.sector_size <= u32::MAX
            &&& p.sector_size == 0 ==> write_possible(p, Some(0), None)
            &&& p.sector_size > 0 ==> {
                &&& sectors * p.sector_size <= u64::MAX
                &&& write_possible(
                    p,
                    Some(p.sector_size as u32),
                    Some((sectors * p.sector_size) as u64),
                )
            }
        },
{
    if program_sound(p) {
        let (blocksize, size) = choose|blocksize: Option<u32>, size: Option<u64>|
            write_possible(p, blocksize, size);
        let reported = target_sectors(blocksize, size, p.sector_size)->Ok_0;
        lemma_resolved(p.start_sector, reported);
        if p.sector_size > 0 {
            lemma_fewer_sectors(p.sector_size, size, reported, sectors, p.start_sector);
            let start = sector_value(p.start_sector, Some(sectors))->Ok_0;
            let other = sector_value(p.start_sector, reported)->Ok_0;
            lemma_value_grows(
                p.start_sector,
                sectors,
                match reported {
                    Some(n) => n,
                    None => 0,
                },
            );
            assert(start * p.sector_size <= other * p.sector_size) by (nonlinear_arith)
                requires
                    start <= other,
            ;
        }
    }
}

/// A target that needs only `sectors` sectors fits where one of `size` does.
proof fn lemma_fewer_sectors(
    sector_size: u64,
    size: Option<u64>,
    reported: Option<u64>,
    sectors: u64,
    expr: Seq<char>,
)
    requires
        sector_size > 0,
        least(expr, sectors),
        sector_value(expr, reported) is Ok,
        reported == match size {
            Some(n) => Some((n / sector_size) as u64),
            None => None,
        },
    ensures
        sectors <= match reported {
            Some(n) => n,
            None => 0,
        },
        sectors * sector_size <= u64::MAX,
        (sectors * sector_size) / (sector_size as int) == sectors,
{
    let d = sector_size as int;
    lemma_resolved(expr, reported);
    match reported {
        Some(n) => {
            let s = size->0 as int;
            assert(sectors <= n);
            lemma_fundamental_div_mod(s, d);
            assert(sectors * d <= n * d) by (nonlinear_arith)
                requires
                    sectors <= n,
                    d > 0,
            ;
            assert(d * (s / d) == n * d) by (nonlinear_arith)
                requires
                    n == s / d,
            ;
            assert(0 <= s % d) by (nonlinear_arith)
                requires
                    d > 0,
            ;
        },
        None => {
            assert(sectors == 0);
        },
    }
    assert(sectors * d == d * sectors) by (nonlinear_arith);
    lemma_div_multiples_vanish(sectors as int, d);
}

/// Checks what can be checked of `p` without its target: that there is one that it
/// can be applied to.
pub fn check_patch(p: &Patch) -> (r: Result<(), PlanError>)
    ensures
        match r {
            Ok(_) => patch_sound(p@),
            Err(e) => !patch_sound(p@) && e@ == patch_fault(p@),
        },
{
    proof {
        law_sound_patch_has_no_mistake(p@);
    }
    if p.size_in_bytes == 0 || p.size_in_bytes > 8 {
        return Err(PlanError::PatchSize(p.size_in_bytes));
    }
    if let Err(cause) = eval_sectors(p.start_sector.as_str(), Some(0)) {
        if !can_resolve(p.start_sector.as_str()) {
            return Err(PlanError::Start(cause));
        }
    }
    assert(resolvable(p@.start_sector));
    if let Err(cause) = eval_sectors(p.value.as_str(), Some(0)) {
        if !can_resolve(p.value.as_str()) {
            return Err(PlanError::Value { what: p.what.clone(), cause });
        }
    }
    assert(resolvable(p@.value));
    if p.sector_size > 0 && p.size_in_bytes > p.sector_size - p.byte_offset % p.sector_size {
        return Err(PlanError::Straddles { what: p.what.clone() });
    }
    let for_start: u64 = least_size(p.start_sector.as_str());
    let for_value: u64 = least_size(p.value.as_str());
    let sectors: u64 = if for_start < for_value {
        for_value
    } else {
        for_start
    };
    proof {
        lemma_least_target_suits_patch(p@, for_start, for_value);
    }
    if 0 < p.sector_size && p.sector_size <= u32::MAX as u64 {
        let blocksize: Option<u32> = Some(p.sector_size as u32);
        let size: Option<u64> = sectors.checked_mul(p.sector_size);
        if size.is_some() && can_plan_patch(p, blocksize, size) && plan_patch(
            p,
            blocksize,
            size,
        ).is_ok() {
            assert(patch_possible(p@, blocksize, size));
            return Ok(());
        }
    }
    Err(PlanError::OutOfRange { name: p.what.clone() })
}

/// A patch of a size that is not supported, one whose place or value no storage
/// gives a value to, and one that straddles a sector boundary can be applied to no
/// target.
pub proof fn law_sound_patch_has_no_mistake(p: PatchModel)
    ensures
        patch_sound(p) ==> {
            &&& patch_size_ok(p)
            &&& resolvable(p.start_sector)
            &&& resolvable(p.value)
            &&& !straddles(p)
        },
{
    if patch_sound(p) {
        let (blocksize, size) = choose|blocksize: Option<u32>, size: Option<u64>|
            patch_possible(p, blocksize, size);
        let sectors = target_sectors(blocksize, size, p.sector_size)->Ok_0;
        lemma_resolved(p.start_sector, sectors);
        lemma_resolved(p.value, sectors);
        lemma_place_in_sector(p, sector_value(p.start_sector, sectors)->Ok_0);
    }
}

/// Where a patch lies in its sector does not depend on the start sector.
proof fn lemma_place_in_sector(p: PatchModel, start: u64)
    requires
        p.sector_size > 0,
    ensures
        (start * p.sector_size + p.byte_offset) % (p.sector_size as int) == p.byte_offset
            % p.sector_size,
{
    let d = p.sector_size as int;
    assert(start * d == d * start) by (nonlinear_arith);
    lemma_mod_multiples_vanish(start as int, p.byte_offset as int, d);
}

/// A target with as few sectors as `p` needs suits `p` if any does.
proof fn lemma_least_target_suits_patch(p: PatchModel, for_start: u64, for_value: u64)
    requires
        least(p.start_sector, for_start),
        least(p.value, for_value),
    ensures
        patch_sound(p) ==> ({
            let sectors = if for_start < for_value {
                for_value
            } else {
                for_start
            };
            &&& 0 < p.sector_size <= u32::MAX
            &&& sectors * p.sector_size <= u64::MAX
            &&& patch_possible(
                p,
                Some(p.sector_size as u32),
                Some((sectors * p.sector_size) as u64),
            )
        }),
{
    if patch_sound(p) {
        let (blocksize, size) = choose|blocksize: Option<u32>, size: Option<u64>|
            patch_possible(p, blocksize, size);
        let reported = target_sectors(blocksize, size, p.sector_size)->Ok_0;
        let n = match reported {
            Some(n) => n,
            None => 0,
        };
        let sectors = if for_start < for_value {
            for_value
        } else {
            for_start
        };
        lemma_resolved(p.start_sector, reported);
        lemma_resolved(p.value, reported);
        lemma_fewer_sectors(p.sector_size, size, reported, for_start, p.start_sector);
        lemma_fewer_sectors(p.sector_size, size, reported, for_value, p.value);
        lemma_value_grows(p.start_sector, for_start, sectors);
        lemma_value_grows(p.start_sector, sectors, n);
        lemma_value_grows(p.value, for_value, sectors);
        lemma_value_grows(p.value, sectors, n);
        let start = sector_value(p.start_sector, Some(sectors))->Ok_0;
        let other = sector_value(p.start_sector, reported)->Ok_0;
        assert(start * p.sector_size <= other * p.sector_size) by (nonlinear_arith)
            requires
                start <= other,
        ;
        lemma_place_in_sector(p, start);
        lemma_place_in_sector(p, other);
    }
}

/// The `n` low bytes of `v`, the lowest first.
pub open spec fn le_bytes(v: nat, n: nat) -> Seq<u8>
    decreases n,
{
    if n == 0 {
        Seq::empty()
    } else {
        seq![(v % 256) as u8] + le_bytes(v / 256, (n - 1) as nat)
    }
}

/// The number that `bytes` spell, the lowest first.
pub open spec fn le_value(bytes: Seq<u8>) -> nat
    decreases bytes.len(),
{
    if bytes.len() == 0 {
        0
    } else {
        bytes[0] as nat + 256 * le_value(bytes.drop_first())
    }
}

/// `sector` with a patch applied.
pub open spec fn patched(sector: Seq<u8>, plan: PatchPlan) -> Seq<u8> {
    sector.take(plan.in_sector as int) + le_bytes(plan.value as nat, plan.size as nat)
        + sector.skip(plan.in_sector + plan.size)
}

/// Applies a patch to the sector that it lies in.
pub fn patch_sector(sector: &mut Vec<u8>, plan: &PatchPlan)
    requires
        plan.size <= 8,
        plan.in_sector + plan.size <= old(sector)@.len(),
    ensures
        final(sector)@ == patched(old(sector)@, *plan),
{
    let len: usize = sector.len();
    let at: usize = plan.in_sector as usize;
    let size: usize = plan.size as usize;
    let mut v: u64 = plan.value;
    let mut i: usize = 0;
    let ghost before = sector@;
    let ghost tail = before.skip(at + size);
    while i < size
        invariant
            i <= size,
            at + size <= len == before.len() == sector@.len(),
            at == plan.in_sector,
            size == plan.size,
            tail == before.skip(at + size),
            forall|j: int| at + i <= j < before.len() ==> sector@[j] == before[j],
            patched(before, *plan) == sector@.take(at + i) + le_bytes(
                v as nat,
                (size - i) as nat,
            ) + tail,
        decreases size - i,
    {
        let b: u8 = (v % 256) as u8;
        let ghost was = sector@;
        sector.set(at + i, b);
        assert(sector@.take(at + i + 1) == was.take(at + i).push(b));
        assert(was.take(at + i) + le_bytes(v as nat, (size - i) as nat) + tail == sector@.take(
            at + i + 1,
        ) + le_bytes(v as nat / 256, (size - i - 1) as nat) + tail);
        v = v / 256;
        i += 1;
    }
    proof {
        assert(tail == sector@.skip(at + size));
        assert(sector@.take(at + size) + Seq::<u8>::empty() + sector@.skip(at + size) == sector@);
    }
}

/// The bytes that a patch writes are as many as it says.
proof fn lemma_le_bytes_len(v: nat, n: nat)
    ensures
        le_bytes(v, n).len() == n,
    decreases n,
{
    if n > 0 {
        lemma_le_bytes_len(v / 256, (n - 1) as nat);
    }
}

/// Bytes read back as the low bytes of the number that they were made of.
proof fn lemma_le_bytes_read_back(v: nat, n: nat)
    ensures
        le_value(le_bytes(v, n)) == v as int % pow(256, n),
    decreases n,
{
    if n == 0 {
        lemma_pow0(256);
    } else {
        let m = (n - 1) as nat;
        let tail = le_bytes(v / 256, m);
        lemma_le_bytes_read_back(v / 256, m);
        assert((seq![(v % 256) as u8] + tail).drop_first() == tail);
        lemma_pow_positive(256, m);
        lemma_mod_breakdown(v as int, 256, pow(256, m));
        reveal(pow);
        assert(pow(256, n) == 256 * pow(256, m));
    }
}

/// A patch changes the bytes that it is meant for and no others: the sector
/// keeps its length, the bytes before and behind the patch stay, and the bytes
/// in between read back, the lowest first, as the low bytes of the value.
pub proof fn law_patch_changes_only_its_bytes(sector: Seq<u8>, plan: PatchPlan)
    requires
        plan.in_sector + plan.size <= sector.len(),
    ensures
        patched(sector, plan).len() == sector.len(),
        forall|i: int|
            0 <= i < sector.len() && !(plan.in_sector <= i < plan.in_sector + plan.size)
                ==> patched(sector, plan)[i] == sector[i],
        le_value(
            patched(sector, plan).subrange(
                plan.in_sector as int,
                plan.in_sector + plan.size,
            ),
        ) == plan.value as int % pow(256, plan.size as nat),
{
    lemma_le_bytes_len(plan.value as nat, plan.size as nat);
    lemma_le_bytes_read_back(plan.value as nat, plan.size as nat);
    assert(patched(sector, plan).subrange(plan.in_sector as int, plan.in_sector + plan.size)
        == le_bytes(plan.value as nat, plan.size as nat));
}

/// `storage` after the sector that a patch lies in has been read, patched and
/// written back.
pub open spec fn written_back(storage: Seq<u8>, plan: PatchPlan) -> Seq<u8> {
    let end = plan.offset + plan.sector_size;
    storage.take(plan.offset as int) + patched(
        storage.subrange(plan.offset as int, end),
        plan,
    ) + storage.skip(end)
}

/// `storage` with the `size` low bytes of `value` at `at`.
pub open spec fn patched_in_place(storage: Seq<u8>, at: int, size: nat, value: nat) -> Seq<u8> {
    storage.take(at) + le_bytes(value, size) + storage.skip(at + size)
}

/// Reading a sector, patching it and writing it back comes to the same as patching
/// the storage in place.
pub proof fn law_written_back_is_in_place(storage: Seq<u8>, plan: PatchPlan)
    requires
        plan.in_sector + plan.size <= plan.sector_size,
        plan.offset + plan.sector_size <= storage.len(),
    ensures
        written_back(storage, plan) == patched_in_place(
            storage,
            plan.offset + plan.in_sector,
            plan.size as nat,
            plan.value as nat,
        ),
{
    lemma_le_bytes_len(plan.value as nat, plan.size as nat);
    assert(written_back(storage, plan) == patched_in_place(
        storage,
        plan.offset + plan.in_sector,
        plan.size as nat,
        plan.value as nat,
    ));
}

/// Applying a patch twice is applying it once.
pub proof fn law_patch_is_idempotent(sector: Seq<u8>, plan: PatchPlan)
    requires
        plan.in_sector + plan.size <= sector.len(),
    ensures
        patched(patched(sector, plan), plan) == patched(sector, plan),
{
    lemma_le_bytes_len(plan.value as nat, plan.size as nat);
    assert(patched(patched(sector, plan), plan) == patched(sector, plan));
}

/// A patch that is carried out lies within one sector, at the place that its
/// entry names: `byte_offset` bytes behind the start of the start sector.
pub proof fn law_patch_lies_in_one_sector(p: PatchModel, blocksize: Option<u32>, size: Option<u64>)
    requires
        patch_fits(p, blocksize, size),
    ensures
        patch_plan(p, blocksize, size) matches Ok(plan) ==> {
            let start = sector_value(
                p.start_sector,
                target_sectors(blocksize, size, p.sector_size)->Ok_0,
            )->Ok_0;
            &&& 1 <= plan.size <= 8
            &&& plan.in_sector + plan.size <= plan.sector_size
            &&& plan.sector_size == p.sector_size
            &&& blocksize == Some(plan.sector_size as u32)
            &&& plan.offset == plan.sector * plan.sector_size
            &&& plan.offset + plan.in_sector == start * p.sector_size + p.byte_offset
        },
{
    if let Ok(plan) = patch_plan(p, blocksize, size) {
        let start = sector_value(
            p.start_sector,
            target_sectors(blocksize, size, p.sector_size)->Ok_0,
        )->Ok_0;
        let at = start * p.sector_size + p.byte_offset;
        let d = p.sector_size as int;
        assert(0 <= start * p.sector_size) by (nonlinear_arith);
        lemma_fundamental_div_mod(at, d);
        assert(d * (at / d) == (at / d) * d) by (nonlinear_arith);
        assert(0 <= at / d <= at) by (nonlinear_arith)
            requires
                at >= 0,
                d > 0,
        ;
        assert(0 <= at % d < d) by (nonlinear_arith)
            requires
                d > 0,
        ;
    }
}

/// What a program covers starts at a sector of its target, is read from a sector
/// of its file, and is a whole number of sectors.
pub proof fn law_write_is_sector_aligned(p: ProgramModel, blocksize: Option<u32>, size: Option<u64>)
    requires
        write_fits(p, blocksize, size),
    ensures
        write_plan(p, blocksize, size) matches Ok(plan) ==> {
            &&& blocksize == Some(p.sector_size as u32)
            &&& plan.device_offset == plan.start * p.sector_size
            &&& plan.file_offset == p.file_sector_offset * p.sector_size
            &&& plan.len == p.num_sectors * p.sector_size
        },
{
    if let Ok(plan) = write_plan(p, blocksize, size) {
        assert(0 <= plan.start * p.sector_size) by (nonlinear_arith);
        assert(0 <= p.file_sector_offset * p.sector_size) by (nonlinear_arith);
        assert(0 <= p.num_sectors * p.sector_size) by (nonlinear_arith);
    }
}

/// The name of a target is `lun` and the number of the unit, which reads back and
/// has no needless zeros.
pub proof fn law_target_name_tells_the_unit(lun: u8)
    ensures
        "lun"@.is_prefix_of(lun_target(lun)),
        only_digits(lun_target(lun).skip(3)),
        decimal(lun_target(lun).skip(3), 255) == Ok::<nat, NumberError>(lun as nat),
        lun_target(lun)[3] == '0' ==> lun_target(lun).len() == 4,
{
    reveal_strlit("lun");
    let digits = decimal_digits(lun as nat);
    law_decimal_text_is_the_shortest(lun as nat);
    law_decimal_text_reads_back(lun as nat, 255);
    assert(lun_target(lun).skip(3) == digits);
    assert(lun_target(lun).subrange(0, 3) == "lun"@);
}

/// A target suits an entry exactly if it reports the sector size that the entry
/// expects. It then has as many sectors as fit wholly into its size, where that is
/// known.
pub proof fn law_target_is_checked_exactly(
    blocksize: Option<u32>,
    size: Option<u64>,
    sector_size: u64,
)
    ensures
        blocksize is None ==> target_sectors(blocksize, size, sector_size) == Err::<
            Option<u64>,
            TargetProblem,
        >(TargetProblem::NoSectorSize),
        blocksize is Some && blocksize->0 != sector_size ==> target_sectors(
            blocksize,
            size,
            sector_size,
        ) == Err::<Option<u64>, TargetProblem>(
            TargetProblem::SectorSize { reported: blocksize->0, expected: sector_size },
        ),
        blocksize is Some && blocksize->0 == sector_size && size is None ==> target_sectors(
            blocksize,
            size,
            sector_size,
        ) == Ok::<Option<u64>, TargetProblem>(None),
        blocksize is Some && blocksize->0 == sector_size && size is Some && sector_size > 0
            ==> target_sectors(blocksize, size, sector_size) is Ok && target_sectors(
            blocksize,
            size,
            sector_size,
        )->Ok_0 is Some && ({
            let n = target_sectors(blocksize, size, sector_size)->Ok_0->0;
            n * sector_size <= size->0 < n * sector_size + sector_size
        }),
{
    if blocksize is Some && blocksize->0 == sector_size && size is Some && sector_size > 0 {
        let s = size->0 as int;
        let d = sector_size as int;
        lemma_fundamental_div_mod(s, d);
        assert(d * (s / d) == (s / d) * d) by (nonlinear_arith);
        assert(0 <= s % d < d) by (nonlinear_arith)
            requires
                d > 0,
        ;
        assert(0 <= s / d <= s) by (nonlinear_arith)
            requires
                s >= 0,
                d > 0,
        ;
    }
}

/// The sectors that a target has, where it suits and its size is known.
pub open spec fn sectors_for(blocksize: Option<u32>, size: Option<u64>, sector_size: u64) -> Option<
    u64,
> {
    target_sectors(blocksize, size, sector_size)->Ok_0
}

/// A program is planned exactly if its target suits it and its place has a value
/// there. It then starts at the sector that its place names, wherever that is, and
/// is read from the sector of its file that its offset names. A program that is not
/// planned is refused for its target first and for its place otherwise.
pub proof fn law_program_goes_where_it_says(p: ProgramModel, blocksize: Option<u32>, size: Option<u64>)
    requires
        write_fits(p, blocksize, size),
    ensures
        ({
            let sectors = sectors_for(blocksize, size, p.sector_size);
            let start = sector_value(p.start_sector, sectors);
            let r = write_plan(p, blocksize, size);
            &&& blocksize is None ==> r == Err::<WritePlan, PlanErrorModel>(
                PlanErrorModel::Target {
                    target: lun_target(p.lun),
                    mismatch: TargetProblem::NoSectorSize,
                },
            )
            &&& blocksize is Some && blocksize->0 != p.sector_size ==> r == Err::<
                WritePlan,
                PlanErrorModel,
            >(
                PlanErrorModel::Target {
                    target: lun_target(p.lun),
                    mismatch: TargetProblem::SectorSize {
                        reported: blocksize->0,
                        expected: p.sector_size,
                    },
                },
            )
            &&& blocksize is Some && blocksize->0 == p.sector_size && start is Err ==> r == Err::<
                WritePlan,
                PlanErrorModel,
            >(
                PlanErrorModel::Placement {
                    label: p.label,
                    expr: p.start_sector,
                    problem: start->Err_0,
                },
            )
            &&& blocksize is Some && blocksize->0 == p.sector_size && start is Ok ==> r is Ok
            &&& r matches Ok(plan) ==> {
                &&& start == Ok::<u64, SectorProblem>(plan.start)
                &&& plan.device_offset == plan.start * p.sector_size
                &&& plan.file_offset == p.file_sector_offset * p.sector_size
                &&& plan.len == p.num_sectors * p.sector_size
            }
        }),
{
    law_write_is_sector_aligned(p, blocksize, size);
}

/// A program can be planned for a target exactly if nothing that has to be
/// computed exceeds 64 bits or divides by zero.
pub proof fn law_write_fits_unless_numbers_do_not(
    p: ProgramModel,
    blocksize: Option<u32>,
    size: Option<u64>,
)
    ensures
        write_fits(p, blocksize, size) <==> {
            let suits = blocksize is Some && blocksize->0 == p.sector_size;
            let start = sector_value(
                p.start_sector,
                sectors_for(blocksize, size, p.sector_size),
            );
            &&& p.num_sectors * p.sector_size <= 0xffff_ffff_ffff_ffff
            &&& suits && size is Some ==> p.sector_size > 0
            &&& suits && start is Ok ==> {
                &&& start->Ok_0 * p.sector_size <= 0xffff_ffff_ffff_ffff
                &&& p.file_sector_offset * p.sector_size <= 0xffff_ffff_ffff_ffff
            }
        },
{
}

/// A patch is planned exactly if its size is supported, its target suits it, its
/// place and its value have values there, and it does not straddle a sector
/// boundary. What is then patched in is the value of its own expression, in as many
/// bytes as it says, at the place that it names. A patch that is not planned is
/// refused for the first of these that does not hold.
pub proof fn law_patch_does_what_it_says(p: PatchModel, blocksize: Option<u32>, size: Option<u64>)
    requires
        patch_fits(p, blocksize, size),
    ensures
        ({
            let sectors = sectors_for(blocksize, size, p.sector_size);
            let start = sector_value(p.start_sector, sectors);
            let value = sector_value(p.value, sectors);
            let sized = 0 < p.size_in_bytes && p.size_in_bytes <= 8;
            let suits = sized && blocksize is Some && blocksize->0 == p.sector_size;
            let split = p.byte_offset % p.sector_size + p.size_in_bytes > p.sector_size;
            let r = patch_plan(p, blocksize, size);
            &&& !sized ==> r == Err::<PatchPlan, PlanErrorModel>(
                PlanErrorModel::PatchSize(p.size_in_bytes),
            )
            &&& sized && blocksize is None ==> r == Err::<PatchPlan, PlanErrorModel>(
                PlanErrorModel::Target {
                    target: lun_target(p.lun),
                    mismatch: TargetProblem::NoSectorSize,
                },
            )
            &&& sized && blocksize is Some && blocksize->0 != p.sector_size ==> r == Err::<
                PatchPlan,
                PlanErrorModel,
            >(
                PlanErrorModel::Target {
                    target: lun_target(p.lun),
                    mismatch: TargetProblem::SectorSize {
                        reported: blocksize->0,
                        expected: p.sector_size,
                    },
                },
            )
            &&& suits && start is Err ==> r == Err::<PatchPlan, PlanErrorModel>(
                PlanErrorModel::Start { expr: p.start_sector, problem: start->Err_0 },
            )
            &&& suits && start is Ok && value is Err ==> r == Err::<PatchPlan, PlanErrorModel>(
                PlanErrorModel::Value { what: p.what, expr: p.value, problem: value->Err_0 },
            )
            &&& suits && start is Ok && value is Ok && split ==> r == Err::<
                PatchPlan,
                PlanErrorModel,
            >(PlanErrorModel::Straddles { what: p.what })
            &&& suits && start is Ok && value is Ok && !split ==> r is Ok
            &&& r matches Ok(plan) ==> {
                &&& value == Ok::<u64, SectorProblem>(plan.value)
                &&& plan.size == p.size_in_bytes
                &&& plan.sector_size == p.sector_size
                &&& plan.offset == plan.sector * p.sector_size
                &&& plan.in_sector < p.sector_size
                &&& start is Ok
                &&& plan.offset + plan.in_sector == start->Ok_0 * p.sector_size + p.byte_offset
            }
        }),
{
    law_patch_lies_in_one_sector(p, blocksize, size);
    let sectors = sectors_for(blocksize, size, p.sector_size);
    if patch_size_ok(p) && blocksize is Some && blocksize->0 == p.sector_size && sector_value(
        p.start_sector,
        sectors,
    ) is Ok && sector_value(p.value, sectors) is Ok {
        lemma_place_in_sector(p, sector_value(p.start_sector, sectors)->Ok_0);
    }
}

/// A patch can be planned for a target exactly if it is of a size that is not
/// supported, or nothing that has to be computed exceeds 64 bits or divides by
/// zero.
pub proof fn law_patch_fits_unless_numbers_do_not(
    p: PatchModel,
    blocksize: Option<u32>,
    size: Option<u64>,
)
    ensures
        patch_fits(p, blocksize, size) <==> {
            let sized = 0 < p.size_in_bytes && p.size_in_bytes <= 8;
            let suits = sized && blocksize is Some && blocksize->0 == p.sector_size;
            let sectors = sectors_for(blocksize, size, p.sector_size);
            let start = sector_value(p.start_sector, sectors);
            let value = sector_value(p.value, sectors);
            &&& suits && size is Some ==> p.sector_size > 0
            &&& suits && start is Ok && value is Ok ==> {
                &&& p.sector_size > 0
                &&& start->Ok_0 * p.sector_size + p.byte_offset <= 0xffff_ffff_ffff_ffff
            }
        },
{
}

/// After a patch has been applied, the storage holds, at the place that the patch
/// names, the low bytes of the value of its expression, the lowest first, and every
/// other byte is what it was.
pub proof fn law_patched_storage_reads_as_the_value(
    p: PatchModel,
    blocksize: Option<u32>,
    size: Option<u64>,
    storage: Seq<u8>,
)
    requires
        patch_fits(p, blocksize, size),
        patch_plan(p, blocksize, size) is Ok,
        patch_plan(p, blocksize, size)->Ok_0.offset + p.sector_size <= storage.len(),
    ensures
        ({
            let sectors = sectors_for(blocksize, size, p.sector_size);
            let at = sector_value(p.start_sector, sectors)->Ok_0 * p.sector_size + p.byte_offset;
            let value = sector_value(p.value, sectors)->Ok_0;
            let now = written_back(storage, patch_plan(p, blocksize, size)->Ok_0);
            &&& now.len() == storage.len()
            &&& le_value(now.subrange(at, at + p.size_in_bytes)) == value as int % pow(
                256,
                p.size_in_bytes as nat,
            )
            &&& forall|i: int|
                0 <= i < storage.len() && !(at <= i < at + p.size_in_bytes) ==> #[trigger] now[i]
                    == storage[i]
        }),
{
    law_patch_does_what_it_says(p, blocksize, size);
    law_patch_lies_in_one_sector(p, blocksize, size);
    let plan = patch_plan(p, blocksize, size)->Ok_0;
    let sectors = sectors_for(blocksize, size, p.sector_size);
    let at = sector_value(p.start_sector, sectors)->Ok_0 * p.sector_size + p.byte_offset;
    law_written_back_is_in_place(storage, plan);
    lemma_le_bytes_len(plan.value as nat, plan.size as nat);
    lemma_le_bytes_read_back(plan.value as nat, plan.size as nat);
    let now = written_back(storage, plan);
    assert(now.subrange(at, at + p.size_in_bytes) == le_bytes(plan.value as nat, plan.size as nat));
}

/// A program can be written to some target exactly if its numbers fit into 64 bits,
/// its sector size is one that a target can report, and there is a size of storage
/// on which its place has a value within 64 bits of bytes.
pub proof fn law_which_programs_are_sound(p: ProgramModel)
    ensures
        program_sound(p) <==> {
            &&& p.num_sectors * p.sector_size <= 0xffff_ffff_ffff_ffff
            &&& {
                ||| p.sector_size == 0 && sector_value(p.start_sector, None) is Ok
                ||| {
                    &&& 0 < p.sector_size && p.sector_size <= 0xffff_ffff
                    &&& p.file_sector_offset * p.sector_size <= 0xffff_ffff_ffff_ffff
                    &&& exists|n: u64|
                        {
                            &&& (#[trigger] sector_value(p.start_sector, Some(n))) is Ok
                            &&& n * p.sector_size <= 0xffff_ffff_ffff_ffff
                            &&& sector_value(p.start_sector, Some(n))->Ok_0 * p.sector_size
                                <= 0xffff_ffff_ffff_ffff
                        }
                }
            }
        },
{
    if program_sound(p) {
        let (blocksize, size) = choose|blocksize: Option<u32>, size: Option<u64>|
            write_possible(p, blocksize, size);
        let reported = target_sectors(blocksize, size, p.sector_size)->Ok_0;
        lemma_resolved(p.start_sector, reported);
        if p.sector_size > 0 {
            let n = match reported {
                Some(n) => n,
                None => 0,
            };
            law_target_is_checked_exactly(blocksize, size, p.sector_size);
            assert(sector_value(p.start_sector, Some(n)) is Ok);
            assert(n * p.sector_size <= u64::MAX);
        }
    }
    if p.sector_size == 0 && sector_value(p.start_sector, None) is Ok {
        let start = sector_value(p.start_sector, None)->Ok_0;
        assert(start * 0 == 0) by (nonlinear_arith);
        assert(p.num_sectors * 0 == 0) by (nonlinear_arith);
        assert(p.file_sector_offset * 0 == 0) by (nonlinear_arith);
        assert(write_possible(p, Some(0), None));
    }
    if p.num_sectors * p.sector_size <= u64::MAX && 0 < p.sector_size <= u32::MAX
        && p.file_sector_offset * p.sector_size <= u64::MAX {
        if exists|n: u64|
            {
                &&& (#[trigger] sector_value(p.start_sector, Some(n))) is Ok
                &&& n * p.sector_size <= 0xffff_ffff_ffff_ffff
                &&& sector_value(p.start_sector, Some(n))->Ok_0 * p.sector_size
                    <= 0xffff_ffff_ffff_ffff
            } {
            let n = choose|n: u64|
                {
                    &&& (#[trigger] sector_value(p.start_sector, Some(n))) is Ok
                    &&& n * p.sector_size <= 0xffff_ffff_ffff_ffff
                    &&& sector_value(p.start_sector, Some(n))->Ok_0 * p.sector_size
                        <= 0xffff_ffff_ffff_ffff
                };
            lemma_size_of(n, p.sector_size);
            assert(write_possible(
                p,
                Some(p.sector_size as u32),
                Some((n * p.sector_size) as u64),
            ));
        }
    }
}

/// So many whole sectors are so many sectors.
proof fn lemma_size_of(n: u64, sector_size: u64)
    requires
        sector_size > 0,
        n * sector_size <= u64::MAX,
    ensures
        0 <= n * sector_size,
        ((n * sector_size) as u64 / sector_size) as u64 == n,
{
    let d = sector_size as int;
    assert(n * d == d * n) by (nonlinear_arith);
    assert(0 <= n * d) by (nonlinear_arith)
        requires
            d > 0,
    ;
    lemma_div_multiples_vanish(n as int, d);
}

/// A patch can be applied to some target exactly if its size is supported, it does
/// not straddle a sector boundary, its sector size is one that a target can report,
/// and there is one size of storage on which its place and its value have values,
/// the place within 64 bits of bytes.
pub proof fn law_which_patches_are_sound(p: PatchModel)
    ensures
        patch_sound(p) <==> {
            &&& 0 < p.size_in_bytes && p.size_in_bytes <= 8
            &&& 0 < p.sector_size && p.sector_size <= 0xffff_ffff
            &&& p.byte_offset % p.sector_size + p.size_in_bytes <= p.sector_size
            &&& exists|n: u64|
                {
                    &&& (#[trigger] sector_value(p.start_sector, Some(n))) is Ok
                    &&& sector_value(p.value, Some(n)) is Ok
                    &&& n * p.sector_size <= 0xffff_ffff_ffff_ffff
                    &&& sector_value(p.start_sector, Some(n))->Ok_0 * p.sector_size + p.byte_offset
                        <= 0xffff_ffff_ffff_ffff
                }
        },
{
    if patch_sound(p) {
        let (blocksize, size) = choose|blocksize: Option<u32>, size: Option<u64>|
            patch_possible(p, blocksize, size);
        let reported = target_sectors(blocksize, size, p.sector_size)->Ok_0;
        law_sound_patch_has_no_mistake(p);
        lemma_resolved(p.start_sector, reported);
        lemma_resolved(p.value, reported);
        let n = match reported {
            Some(n) => n,
            None => 0,
        };
        law_target_is_checked_exactly(blocksize, size, p.sector_size);
        assert(sector_value(p.start_sector, Some(n)) is Ok);
        assert(n * p.sector_size <= u64::MAX);
    }
    if 0 < p.size_in_bytes <= 8 && 0 < p.sector_size <= u32::MAX && p.byte_offset % p.sector_size
        + p.size_in_bytes <= p.sector_size {
        if exists|n: u64|
            {
                &&& (#[trigger] sector_value(p.start_sector, Some(n))) is Ok
                &&& sector_value(p.value, Some(n)) is Ok
                &&& n * p.sector_size <= 0xffff_ffff_ffff_ffff
                &&& sector_value(p.start_sector, Some(n))->Ok_0 * p.sector_size + p.byte_offset
                    <= 0xffff_ffff_ffff_ffff
            } {
            let n = choose|n: u64|
                {
                    &&& (#[trigger] sector_value(p.start_sector, Some(n))) is Ok
                    &&& sector_value(p.value, Some(n)) is Ok
                    &&& n * p.sector_size <= 0xffff_ffff_ffff_ffff
                    &&& sector_value(p.start_sector, Some(n))->Ok_0 * p.sector_size + p.byte_offset
                        <= 0xffff_ffff_ffff_ffff
                };
            lemma_size_of(n, p.sector_size);
            lemma_place_in_sector(p, sector_value(p.start_sector, Some(n))->Ok_0);
            assert(patch_possible(
                p,
                Some(p.sector_size as u32),
                Some((n * p.sector_size) as u64),
            ));
        }
    }
}

/// An entry that suits no target is refused for a mistake in its size or in an
/// expression, then for straddling a sector boundary, and otherwise for its
/// numbers, by the name that it has.
pub proof fn law_fault_tells_what_is_wrong(p: ProgramModel, q: PatchModel)
    ensures
        program_fault(p) == if resolvable(p.start_sector) {
            PlanErrorModel::OutOfRange { name: p.label }
        } else {
            PlanErrorModel::Placement {
                label: p.label,
                expr: p.start_sector,
                problem: sector_value(p.start_sector, Some(0))->Err_0,
            }
        },
        q.size_in_bytes == 0 || q.size_in_bytes > 8 ==> patch_fault(q)
            == PlanErrorModel::PatchSize(q.size_in_bytes),
        0 < q.size_in_bytes && q.size_in_bytes <= 8 ==> patch_fault(q) == if !resolvable(
            q.start_sector,
        ) {
            PlanErrorModel::Start {
                expr: q.start_sector,
                problem: sector_value(q.start_sector, Some(0))->Err_0,
            }
        } else if !resolvable(q.value) {
            PlanErrorModel::Value {
                what: q.what,
                expr: q.value,
                problem: sector_value(q.value, Some(0))->Err_0,
            }
        } else if q.sector_size > 0 && q.byte_offset % q.sector_size + q.size_in_bytes
            > q.sector_size {
            PlanErrorModel::Straddles { what: q.what }
        } else {
            PlanErrorModel::OutOfRange { name: q.what }
        },
{
}

/// An error stands for what it names.
pub proof fn law_plan_error_stands_for_its_parts(x: PlanError)
    ensures
        x matches PlanError::Target(e) ==> x@ == (PlanErrorModel::Target {
            target: e.target@,
            mismatch: e.problem,
        }),
        x matches PlanError::Placement { label, cause } ==> x@ == (PlanErrorModel::Placement {
            label: label@,
            expr: cause.expr@,
            problem: cause.problem,
        }),
        x matches PlanError::Start(cause) ==> x@ == (PlanErrorModel::Start {
            expr: cause.expr@,
            problem: cause.problem,
        }),
        x matches PlanError::Value { what, cause } ==> x@ == (PlanErrorModel::Value {
            what: what@,
            expr: cause.expr@,
            problem: cause.problem,
        }),
        x matches PlanError::PatchSize(n) ==> x@ == PlanErrorModel::PatchSize(n),
        x matches PlanError::Straddles { what } ==> x@ == (PlanErrorModel::Straddles {
            what: what@,
        }),
        x matches PlanError::OutOfRange { name } ==> x@ == (PlanErrorModel::OutOfRange {
            name: name@,
        }),
{
}

} // verus!
