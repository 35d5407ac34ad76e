//! Sector expressions, as rawprogram and patch files spell them.

use vstd::prelude::*;

use crate::text::{
    decimal, decimal_digits, law_decimal_text_reads_back, law_trim_ignores_padding,
    lemma_decimal_digits_are_digits, lemma_decimal_within, lemma_trimmed_ends,
    lemma_trimmed_fixpoint, lemma_trimmed_keeps_dot, lemma_trimmed_start_concat,
    lemma_trimmed_start_first, starts_with, trim, trim_end_dots, trimmed, trimmed_start,
    white_space, without_dots, Decimal, NumberError,
};

verus! {

/// Why a sector expression has no value.
#[derive(Clone, Copy, Debug, PartialEq, Eq, Structural)]
pub enum SectorProblem {
    /// Only the device can compute the checksum that the expression asks for.
    NeedsChecksum,
    /// The expression is neither a number nor relative to the size of the storage.
    Unsupported,
    /// The expression is relative to the size of the storage, which is not known.
    SizeUnknown,
    /// What follows the operator is not a number.
    BadOffset(NumberError),
    /// The operator is neither `-` nor `+`.
    UnsupportedOperator,
    /// The sector lies before the start of the storage.
    BeforeStart,
    /// The sector number does not fit.
    Overflow,
}

/// A sector expression that has no value, and why.
#[derive(Debug)]
pub struct SectorError {
    pub expr: String,
    pub problem: SectorProblem,
}

/// The word that stands for the size of the storage.
pub open spec fn disk_word() -> Seq<char> {
    "NUM_DISK_SECTORS"@
}

/// The part of an expression that counts: no whitespace around it and no
/// trailing dots.
pub open spec fn bare(expr: Seq<char>) -> Seq<char> {
    trimmed(without_dots(trimmed(expr)))
}

/// What stands behind the word for the size of the storage.
pub open spec fn behind_disk_word(expr: Seq<char>) -> Seq<char> {
    trimmed(bare(expr).skip(disk_word().len() as int))
}

/// The value of the size of the storage, `size`, with an operator and a number
/// behind it.
pub open spec fn offset_value(rest: Seq<char>, size: u64) -> Result<u64, SectorProblem> {
    if rest.len() == 0 {
        Ok(size)
    } else {
        match decimal(trimmed(rest.drop_first()), u64::MAX as nat) {
            Err(e) => Err(SectorProblem::BadOffset(e)),
            Ok(n) => if rest[0] == '-' {
                if n <= size {
                    Ok((size - n) as u64)
                } else {
                    Err(SectorProblem::BeforeStart)
                }
            } else if rest[0] == '+' {
                if size + n <= u64::MAX {
                    Ok((size + n) as u64)
                } else {
                    Err(SectorProblem::Overflow)
                }
            } else {
                Err(SectorProblem::UnsupportedOperator)
            },
        }
    }
}

/// The sector that `expr` names on a storage of `size` sectors.
pub open spec fn sector_value(expr: Seq<char>, size: Option<u64>) -> Result<u64, SectorProblem> {
    match decimal(bare(expr), u64::MAX as nat) {
        Ok(n) => Ok(n as u64),
        Err(_) => if "CRC32"@.is_prefix_of(bare(expr)) {
            Err(SectorProblem::NeedsChecksum)
        } else if !disk_word().is_prefix_of(bare(expr)) {
            Err(SectorProblem::Unsupported)
        } else {
            match size {
                None => Err(SectorProblem::SizeUnknown),
                Some(n) => offset_value(behind_disk_word(expr), n),
            }
        },
    }
}

/// Whether `expr` names a sector on a storage of some size.
pub open spec fn resolvable(expr: Seq<char>) -> bool {
    exists|size: u64| sector_value(expr, Some(size)) is Ok
}

fn bare_text(expr: &str) -> (r: &str)
    ensures
        r@ == bare(expr@),
{
    trim(trim_end_dots(trim(expr)))
}

/// What stands behind the word for the size of the storage, if `e` starts with it.
fn strip_disk_word(e: &str) -> (r: Option<&str>)
    ensures
        r is Some <==> disk_word().is_prefix_of(e@),
        r is Some ==> r->0@ == trimmed(e@.skip(disk_word().len() as int)),
{
    proof {
        reveal_strlit("NUM_DISK_SECTORS");
    }
    if starts_with(e, "NUM_DISK_SECTORS") {
        let n: usize = e.unicode_len();
        assert(e@.skip(16) == e@.subrange(16, e@.len() as int));
        Some(trim(e.substring_char(16, n)))
    } else {
        None
    }
}

fn eval_offset(rest: &str, size: u64) -> (r: Result<u64, SectorProblem>)
    ensures
        r == offset_value(rest@, size),
{
    if rest.is_empty() {
        return Ok(size);
    }
    let n: usize = rest.unicode_len();
    let op: char = rest.get_char(0);
    assert(rest@.drop_first() == rest@.subrange(1, n as int));
    match u64::from_decimal(trim(rest.substring_char(1, n))) {
        Err(e) => Err(SectorProblem::BadOffset(e)),
        Ok(k) => {
            if op == '-' {
                match size.checked_sub(k) {
                    Some(v) => Ok(v),
                    None => Err(SectorProblem::BeforeStart),
                }
            } else if op == '+' {
                match size.checked_add(k) {
                    Some(v) => Ok(v),
                    None => Err(SectorProblem::Overflow),
                }
            } else {
                Err(SectorProblem::UnsupportedOperator)
            }
        },
    }
}

/// Resolves a sector expression of a rawprogram or patch file.
///
/// An expression is either a plain number or an offset from the end of the
/// storage, spelled as `NUM_DISK_SECTORS-33.` with a trailing dot. Only the
/// latter needs the number of sectors of the storage.
pub fn eval_sectors(expr: &str, num_disk_sectors: Option<u64>) -> (r: Result<u64, SectorError>)
    ensures
        match r {
            Ok(v) => sector_value(expr@, num_disk_sectors) == Ok::<u64, SectorProblem>(v),
            Err(e) => sector_value(expr@, num_disk_sectors) == Err::<u64, SectorProblem>(e.problem)
                && e.expr@ == expr@,
        },
{
    let e = bare_text(expr);
    if let Ok(v) = u64::from_decimal(e) {
        return Ok(v);
    }
    let found: Result<u64, SectorProblem> = if starts_with(e, "CRC32") {
        Err(SectorProblem::NeedsChecksum)
    } else {
        match strip_disk_word(e) {
            None => Err(SectorProblem::Unsupported),
            Some(rest) => match num_disk_sectors {
                None => Err(SectorProblem::SizeUnknown),
                Some(size) => eval_offset(rest, size),
            },
        }
    };
    match found {
        Ok(v) => Ok(v),
        Err(problem) => Err(SectorError { expr: expr.to_owned(), problem }),
    }
}

/// Whether `expr` names a sector on a storage of some size. Where it does not, it
/// holds a mistake that can be told without knowing the storage.
pub fn can_resolve(expr: &str) -> (r: bool)
    ensures
        r == resolvable(expr@),
{
    proof {
        if resolvable(expr@) {
            let size = choose|size: u64| sector_value(expr@, Some(size)) is Ok;
            lemma_value_grows(expr@, 0, size);
            lemma_value_grows(expr@, size, u64::MAX);
        }
    }
    eval_sectors(expr, Some(0)).is_ok() || eval_sectors(expr, Some(u64::MAX)).is_ok()
}

/// The size of the smallest storage that `expr` names a sector on.
pub fn least_size(expr: &str) -> (r: u64)
    requires
        resolvable(expr@),
    ensures
        sector_value(expr@, Some(r)) is Ok,
        forall|size: u64| size < r ==> sector_value(expr@, Some(size)) is Err,
{
    proof {
        let size = choose|size: u64| sector_value(expr@, Some(size)) is Ok;
        lemma_value_grows(expr@, 0, size);
        lemma_value_grows(expr@, size, u64::MAX);
    }
    if eval_sectors(expr, Some(0)).is_ok() {
        return 0;
    }
    match eval_sectors(expr, Some(u64::MAX)) {
        Ok(v) => u64::MAX - v,
        Err(_) => 0,
    }
}

/// On a larger storage an expression names no earlier sector, and it does not lose
/// its value unless the sector number no longer fits.
pub proof fn lemma_value_grows(expr: Seq<char>, small: u64, large: u64)
    requires
        small <= large,
    ensures
        sector_value(expr, Some(small)) matches Ok(v) ==> match sector_value(expr, Some(large)) {
            Ok(w) => v <= w,
            Err(problem) => problem == SectorProblem::Overflow,
        },
        sector_value(expr, Some(small)) == Err::<u64, SectorProblem>(SectorProblem::Overflow)
            ==> sector_value(expr, Some(large)) == Err::<u64, SectorProblem>(
            SectorProblem::Overflow,
        ),
{
}

/// Where no storage gives an expression a value, the reason is the same on every
/// storage, and it is a mistake in the expression itself.
pub proof fn law_mistakes_show_without_the_storage(expr: Seq<char>, size: u64)
    requires
        !resolvable(expr),
    ensures
        sector_value(expr, Some(size)) == sector_value(expr, Some(0)),
        sector_value(expr, Some(size)) matches Err(problem) && (problem
            == SectorProblem::NeedsChecksum || problem == SectorProblem::Unsupported || problem
            == SectorProblem::UnsupportedOperator || problem is BadOffset),
{
    lemma_decimal_within(trimmed(behind_disk_word(expr).drop_first()), u64::MAX as nat);
    assert(sector_value(expr, Some(0u64)) is Err);
    assert(sector_value(expr, Some(size)) is Err);
    assert(sector_value(expr, Some(u64::MAX)) is Err);
}

/// An operator other than `-` and `+` is refused, whatever character it is.
pub proof fn law_other_operators_are_refused(expr: Seq<char>, size: Option<u64>)
    requires
        disk_word().is_prefix_of(bare(expr)),
        behind_disk_word(expr).len() > 0,
        behind_disk_word(expr)[0] != '-',
        behind_disk_word(expr)[0] != '+',
    ensures
        sector_value(expr, size) is Err,
{
    lemma_not_a_number(bare(expr));
}

/// Whitespace around an expression does not change its value.
pub proof fn law_padding_is_ignored(
    front: Seq<char>,
    expr: Seq<char>,
    back: Seq<char>,
    size: Option<u64>,
)
    requires
        forall|i: int| 0 <= i < front.len() ==> white_space(#[trigger] front[i]),
        forall|i: int| 0 <= i < back.len() ==> white_space(#[trigger] back[i]),
    ensures
        sector_value(front + expr + back, size) == sector_value(expr, size),
{
    law_trim_ignores_padding(front, expr, back);
}

/// Whether `expr` ends in a dot with whitespace behind it.
pub open spec fn ends_in_padded_dot(expr: Seq<char>) -> bool {
    &&& expr.len() > 0
    &&& white_space(expr.last())
    &&& trimmed(expr).len() > 0
    &&& trimmed(expr).last() == '.'
}

/// A dot put behind an expression does not change its value, unless the expression
/// already ends in a dot with whitespace behind it.
pub proof fn law_trailing_dot_is_ignored(expr: Seq<char>, size: Option<u64>)
    requires
        !ends_in_padded_dot(expr),
    ensures
        sector_value(expr.push('.'), size) == sector_value(expr, size),
{
    if expr.len() > 0 && white_space(expr.last()) {
        lemma_bare_padded_dot(expr);
    } else {
        lemma_trimmed_keeps_dot(expr);
        assert(trimmed(expr).push('.').drop_last() == trimmed(expr));
    }
}

proof fn lemma_bare_padded_dot(expr: Seq<char>)
    requires
        expr.len() > 0,
        white_space(expr.last()),
        !ends_in_padded_dot(expr),
    ensures
        bare(expr.push('.')) == bare(expr),
{
    let dot = seq!['.'];
    let t = trimmed_start(expr);
    assert(expr.push('.') == expr + dot);
    lemma_trimmed_start_concat(expr, dot);
    lemma_trimmed_start_first(expr);
    lemma_trimmed_ends(expr);
    lemma_trimmed_fixpoint(trimmed(expr));
    if t.len() > 0 {
        assert((t + dot).last() == '.');
        assert(t.last() == expr.last());
        assert((t + dot).drop_last() == t);
        assert(without_dots(t) == t);
        assert(trimmed_start(t) == t);
    } else {
        assert(t == Seq::<char>::empty());
        assert(trimmed_start(dot) == dot);
        assert(dot.drop_last() == t);
        assert(without_dots(t) == t);
    }
}

/// Text that neither starts nor ends in whitespace nor ends in a dot is bare.
proof fn lemma_bare_fixpoint(s: Seq<char>)
    requires
        s.len() > 0,
        !white_space(s[0]),
        !white_space(s.last()),
        s.last() != '.',
    ensures
        bare(s) == s,
{
    lemma_trimmed_fixpoint(s);
}

/// A plain number is its own value, whether or not the size of the storage is
/// known.
pub proof fn law_plain_number(n: u64, size: Option<u64>)
    ensures
        sector_value(decimal_digits(n as nat), size) == Ok::<u64, SectorProblem>(n),
        sector_value(decimal_digits(n as nat).push('.'), size) == Ok::<u64, SectorProblem>(n),
{
    let s = decimal_digits(n as nat);
    lemma_decimal_digits_are_digits(n as nat);
    law_decimal_text_reads_back(n as nat, u64::MAX as nat);
    lemma_bare_fixpoint(s);
    law_trailing_dot_is_ignored(s, size);
}

/// The size of the storage is only asked for where an expression refers to it:
/// a value that was found without it is the value for every size.
pub proof fn law_size_only_where_needed(expr: Seq<char>, size: Option<u64>)
    ensures
        sector_value(expr, None) is Ok ==> sector_value(expr, size) == sector_value(expr, None),
        sector_value(expr, None) is Err && sector_value(expr, size) is Ok ==> sector_value(expr, None)
            == Err::<u64, SectorProblem>(SectorProblem::SizeUnknown),
{
}

/// Expressions relative to the end of the storage: the bare word is its size,
/// and `NUM_DISK_SECTORS-k.` and `NUM_DISK_SECTORS+k.` lie `k` sectors before
/// and behind it.
pub proof fn law_relative_to_disk_end(k: u64, size: u64)
    ensures
        sector_value(disk_word(), Some(size)) == Ok::<u64, SectorProblem>(size),
        sector_value(
            (disk_word().push('-') + decimal_digits(k as nat)).push('.'),
            Some(size),
        ) == if k <= size {
            Ok::<u64, SectorProblem>((size - k) as u64)
        } else {
            Err(SectorProblem::BeforeStart)
        },
        sector_value(
            (disk_word().push('+') + decimal_digits(k as nat)).push('.'),
            Some(size),
        ) == if size + k <= u64::MAX {
            Ok::<u64, SectorProblem>((size + k) as u64)
        } else {
            Err(SectorProblem::Overflow)
        },
{
    reveal_strlit("NUM_DISK_SECTORS");
    lemma_bare_fixpoint(disk_word());
    lemma_not_a_number(disk_word());
    assert(disk_word().skip(16) == Seq::<char>::empty());
    lemma_trimmed_fixpoint(Seq::empty());
    lemma_disk_offset('-', k, Some(size));
    lemma_disk_offset('+', k, Some(size));
}

/// Expressions relative to the end of the storage have no value where its size
/// is not known.
pub proof fn law_relative_needs_size(k: u64)
    ensures
        sector_value(disk_word(), None) == Err::<u64, SectorProblem>(SectorProblem::SizeUnknown),
        sector_value((disk_word().push('-') + decimal_digits(k as nat)).push('.'), None) == Err::<
            u64,
            SectorProblem,
        >(SectorProblem::SizeUnknown),
        sector_value((disk_word().push('+') + decimal_digits(k as nat)).push('.'), None) == Err::<
            u64,
            SectorProblem,
        >(SectorProblem::SizeUnknown),
{
    reveal_strlit("NUM_DISK_SECTORS");
    lemma_bare_fixpoint(disk_word());
    lemma_not_a_number(disk_word());
    lemma_disk_offset('-', k, None);
    lemma_disk_offset('+', k, None);
}

/// A checksum over the storage is left to the device, whatever it is asked over.
pub proof fn law_checksum_is_refused(expr: Seq<char>, size: Option<u64>)
    requires
        "CRC32"@.is_prefix_of(bare(expr)),
    ensures
        sector_value(expr, size) == Err::<u64, SectorProblem>(SectorProblem::NeedsChecksum),
{
    reveal_strlit("CRC32");
    assert("CRC32"@[0] == 'C');
    assert(bare(expr)[0] == 'C');
}

/// Text that starts with the word for the size of the storage is neither a
/// number nor a checksum.
proof fn lemma_not_a_number(e: Seq<char>)
    requires
        disk_word().is_prefix_of(e),
    ensures
        decimal(e, u64::MAX as nat) is Err,
        !"CRC32"@.is_prefix_of(e),
{
    reveal_strlit("NUM_DISK_SECTORS");
    reveal_strlit("CRC32");
    assert(e[0] == disk_word()[0]);
    assert("CRC32"@[0] == 'C');
    if "CRC32"@.is_prefix_of(e) {
        assert(e.subrange(0, 5)[0] == 'C');
    }
}

proof fn lemma_disk_offset(op: char, k: u64, size: Option<u64>)
    requires
        op == '-' || op == '+',
    ensures
        ({
            let e = (disk_word().push(op) + decimal_digits(k as nat)).push('.');
            sector_value(e, size) == match size {
                Some(n) => offset_value(seq![op] + decimal_digits(k as nat), n),
                None => Err::<u64, SectorProblem>(SectorProblem::SizeUnknown),
            }
        }),
        decimal(trimmed((seq![op] + decimal_digits(k as nat)).drop_first()), u64::MAX as nat)
            == Ok::<nat, NumberError>(k as nat),
{
    reveal_strlit("NUM_DISK_SECTORS");
    let digits = decimal_digits(k as nat);
    let e = disk_word().push(op) + digits;
    lemma_decimal_digits_are_digits(k as nat);
    law_decimal_text_reads_back(k as nat, u64::MAX as nat);
    assert(e.last() == digits.last());
    lemma_bare_fixpoint(e);
    law_trailing_dot_is_ignored(e, size);
    assert(e.subrange(0, 16) == disk_word());
    lemma_not_a_number(e);
    let rest = seq![op] + digits;
    assert(e.skip(16) == rest);
    assert(rest.last() == digits.last());
    lemma_trimmed_fixpoint(rest);
    assert(rest.drop_first() == digits);
    lemma_trimmed_fixpoint(digits);
}

/// What counts of an expression: the text between the whitespace around it, without
/// the dots at its end, and without the whitespace before those.
pub open spec fn core_of(expr: Seq<char>) -> Seq<char> {
    trimmed(without_dots(trimmed(expr)))
}

/// What stands in `core` behind the 16 characters of `NUM_DISK_SECTORS`.
pub open spec fn rest_of(core: Seq<char>) -> Seq<char> {
    trimmed(core.skip(16))
}

/// The number that stands behind the operator in `rest`.
pub open spec fn operand_of(rest: Seq<char>) -> Result<nat, NumberError> {
    decimal(trimmed(rest.skip(1)), 0xffff_ffff_ffff_ffff)
}

/// An expression has the value `v` exactly if it is the number `v`, or if it is
/// relative to a storage of a known size and `v` is that size, or lies as many
/// sectors before or behind it as the number behind `-` or `+` says.
pub proof fn law_value_is_exact(expr: Seq<char>, size: Option<u64>, v: u64)
    ensures
        ({
            let core = core_of(expr);
            let rest = rest_of(core);
            sector_value(expr, size) == Ok::<u64, SectorProblem>(v) <==> {
                ||| decimal(core, 0xffff_ffff_ffff_ffff) == Ok::<nat, NumberError>(v as nat)
                ||| {
                    &&& "NUM_DISK_SECTORS"@.is_prefix_of(core)
                    &&& size matches Some(n)
                    &&& {
                        ||| rest.len() == 0 && v == n
                        ||| {
                            &&& rest.len() > 0
                            &&& operand_of(rest) matches Ok(k)
                            &&& (rest[0] == '-' && v + k == n) || (rest[0] == '+' && v == n + k)
                        }
                    }
                }
            }
        }),
{
    reveal_strlit("NUM_DISK_SECTORS");
    let core = core_of(expr);
    lemma_decimal_within(core, u64::MAX as nat);
    if "NUM_DISK_SECTORS"@.is_prefix_of(core) {
        lemma_not_a_number(core);
    }
    let rest = rest_of(core);
    if rest.len() > 0 {
        assert(rest.skip(1) == rest.drop_first());
    }
}

/// Why an expression has no value, for each reason exactly when it is given.
pub proof fn law_problem_is_exact(expr: Seq<char>, size: Option<u64>)
    ensures
        ({
            let core = core_of(expr);
            let rest = rest_of(core);
            let relative = "NUM_DISK_SECTORS"@.is_prefix_of(core);
            let shifted = relative && size is Some && rest.len() > 0;
            let r = sector_value(expr, size);
            &&& r == Err::<u64, SectorProblem>(SectorProblem::NeedsChecksum)
                <==> "CRC32"@.is_prefix_of(core)
            &&& r == Err::<u64, SectorProblem>(SectorProblem::Unsupported) <==> {
                &&& decimal(core, 0xffff_ffff_ffff_ffff) is Err
                &&& !"CRC32"@.is_prefix_of(core)
                &&& !relative
            }
            &&& r == Err::<u64, SectorProblem>(SectorProblem::SizeUnknown) <==> relative
                && size is None
            &&& (r is Err && r->Err_0 is BadOffset) <==> shifted && operand_of(rest) is Err
            &&& r matches Err(SectorProblem::BadOffset(e)) ==> operand_of(rest) == Err::<
                nat,
                NumberError,
            >(e)
            &&& r == Err::<u64, SectorProblem>(SectorProblem::UnsupportedOperator) <==> shifted
                && operand_of(rest) is Ok && rest[0] != '-' && rest[0] != '+'
            &&& r == Err::<u64, SectorProblem>(SectorProblem::BeforeStart) <==> shifted
                && operand_of(rest) is Ok && rest[0] == '-' && operand_of(rest)->Ok_0 > size->0
            &&& r == Err::<u64, SectorProblem>(SectorProblem::Overflow) <==> shifted
                && operand_of(rest) is Ok && rest[0] == '+' && size->0 + operand_of(rest)->Ok_0
                > 0xffff_ffff_ffff_ffff
        }),
{
    reveal_strlit("NUM_DISK_SECTORS");
    reveal_strlit("CRC32");
    let core = core_of(expr);
    if "NUM_DISK_SECTORS"@.is_prefix_of(core) {
        lemma_not_a_number(core);
    }
    if "CRC32"@.is_prefix_of(core) {
        law_checksum_is_refused(expr, size);
        assert(core[0] == "CRC32"@[0]);
    }
    let rest = rest_of(core);
    if rest.len() > 0 {
        assert(rest.skip(1) == rest.drop_first());
    }
}

/// An expression can be resolved exactly if it is a number, or relative to the size
/// of the storage with nothing behind the word, or with `-` or `+` and a number.
pub proof fn law_what_can_be_resolved(expr: Seq<char>)
    ensures
        ({
            let core = core_of(expr);
            let rest = rest_of(core);
            resolvable(expr) <==> {
                ||| decimal(core, 0xffff_ffff_ffff_ffff) is Ok
                ||| {
                    &&& "NUM_DISK_SECTORS"@.is_prefix_of(core)
                    &&& {
                        ||| rest.len() == 0
                        ||| {
                            &&& rest.len() > 0
                            &&& operand_of(rest) is Ok
                            &&& rest[0] == '-' || rest[0] == '+'
                        }
                    }
                }
            }
        }),
{
    reveal_strlit("NUM_DISK_SECTORS");
    let core = core_of(expr);
    let rest = rest_of(core);
    if "NUM_DISK_SECTORS"@.is_prefix_of(core) {
        lemma_not_a_number(core);
    }
    if rest.len() > 0 {
        assert(rest.skip(1) == rest.drop_first());
        lemma_decimal_within(trimmed(rest.skip(1)), u64::MAX as nat);
    }
    assert(sector_value(expr, Some(0u64)) is Ok ==> resolvable(expr));
    assert(sector_value(expr, Some(u64::MAX)) is Ok ==> resolvable(expr));
    if resolvable(expr) {
        let size = choose|size: u64| sector_value(expr, Some(size)) is Ok;
        assert(sector_value(expr, Some(size)) is Ok);
    }
}

} // verus!
