//! Rawprogram and patch files: what to write to a device and what to patch there.

use vstd::prelude::*;

use crate::text::{decimal, lemma_decimal_within, same_text};
use crate::xml::{
    attr, attr_number, attr_number_or, attr_parse, attr_parse_or, attr_text, called, elements,
    has_number, law_elements_are_all_of_that_name, named_elements, number_problem, parse_document,
    xml_children, Document, Element, ElementModel, EntryError, EntryErrorModel, NodeModel,
};

verus! {

/// A `<program>` entry of a rawprogram file.
#[derive(Debug)]
pub struct Program {
    pub label: String,
    pub filename: String,
    pub lun: u8,
    pub sector_size: u64,
    pub num_sectors: u64,
    pub start_sector: String,
    pub file_sector_offset: u64,
}

/// A `<patch>` entry of a patch file.
#[derive(Debug)]
pub struct Patch {
    pub lun: u8,
    pub sector_size: u64,
    pub start_sector: String,
    pub byte_offset: u64,
    pub size_in_bytes: u64,
    pub value: String,
    pub what: String,
}

/// A rawprogram or patch file that cannot be used.
#[derive(Debug)]
pub enum FileError {
    /// The file is not well-formed XML; the text says why.
    Xml(String),
    /// One of its entries cannot be used.
    Entry(EntryError),
}

/// What a [`Program`] stands for.
#[verifier::ext_equal]
pub struct ProgramModel {
    pub label: Seq<char>,
    pub filename: Seq<char>,
    pub lun: u8,
    pub sector_size: u64,
    pub num_sectors: u64,
    pub start_sector: Seq<char>,
    pub file_sector_offset: u64,
}

/// What a [`Patch`] stands for.
#[verifier::ext_equal]
pub struct PatchModel {
    pub lun: u8,
    pub sector_size: u64,
    pub start_sector: Seq<char>,
    pub byte_offset: u64,
    pub size_in_bytes: u64,
    pub value: Seq<char>,
    pub what: Seq<char>,
}

/// What a [`FileError`] stands for.
pub enum FileErrorModel {
    Xml(Seq<char>),
    Entry(EntryErrorModel),
}

impl View for Program {
    type V = ProgramModel;

    open spec fn view(&self) -> ProgramModel {
        ProgramModel {
            label: self.label@,
            filename: self.filename@,
            lun: self.lun,
            sector_size: self.sector_size,
            num_sectors: self.num_sectors,
            start_sector: self.start_sector@,
            file_sector_offset: self.file_sector_offset,
        }
    }
}

impl View for Patch {
    type V = PatchModel;

    open spec fn view(&self) -> PatchModel {
        PatchModel {
            lun: self.lun,
            sector_size: self.sector_size,
            start_sector: self.start_sector@,
            byte_offset: self.byte_offset,
            size_in_bytes: self.size_in_bytes,
            value: self.value@,
            what: self.what@,
        }
    }
}

impl View for FileError {
    type V = FileErrorModel;

    open spec fn view(&self) -> FileErrorModel {
        match self {
            FileError::Xml(text) => FileErrorModel::Xml(text@),
            FileError::Entry(e) => FileErrorModel::Entry(e@),
        }
    }
}

/// What several [`Program`]s stand for.
pub open spec fn program_models(programs: Seq<Program>) -> Seq<ProgramModel> {
    programs.map_values(|p: Program| p@)
}

/// What several [`Patch`]es stand for.
pub open spec fn patch_models(patches: Seq<Patch>) -> Seq<PatchModel> {
    patches.map_values(|p: Patch| p@)
}

/// The program that a `<program>` element describes, or the first thing that is
/// wrong with it. Only slot 0 is supported.
pub open spec fn program_of(e: ElementModel) -> Result<ProgramModel, EntryErrorModel> {
    let slot = attr_number_or(e, "slot"@, 0, u8::MAX as nat);
    let filename = attr_text(e, "filename"@);
    let lun = attr_number(e, "physical_partition_number"@, u8::MAX as nat);
    let sector_size = attr_number(e, "SECTOR_SIZE_IN_BYTES"@, u64::MAX as nat);
    let num_sectors = attr_number(e, "num_partition_sectors"@, u64::MAX as nat);
    let start_sector = attr_text(e, "start_sector"@);
    let offset = attr_number_or(e, "file_sector_offset"@, 0, u64::MAX as nat);
    if slot is Err {
        Err(slot->Err_0)
    } else if slot->Ok_0 != 0 {
        Err(EntryErrorModel::Slot(slot->Ok_0 as u8))
    } else if filename is Err {
        Err(filename->Err_0)
    } else if lun is Err {
        Err(lun->Err_0)
    } else if sector_size is Err {
        Err(sector_size->Err_0)
    } else if num_sectors is Err {
        Err(num_sectors->Err_0)
    } else if start_sector is Err {
        Err(start_sector->Err_0)
    } else if offset is Err {
        Err(offset->Err_0)
    } else {
        Ok(
            ProgramModel {
                label: if e.attributes.contains_key("label"@) {
                    e.attributes["label"@]
                } else {
                    "unnamed"@
                },
                filename: filename->Ok_0,
                lun: lun->Ok_0 as u8,
                sector_size: sector_size->Ok_0 as u64,
                num_sectors: num_sectors->Ok_0 as u64,
                start_sector: start_sector->Ok_0,
                file_sector_offset: offset->Ok_0 as u64,
            },
        )
    }
}

/// Whether a `<patch>` element is meant for the storage of the device, and not
/// for a file on the host.
pub open spec fn patches_disk(e: ElementModel) -> bool {
    e.attributes.contains_key("filename"@) && e.attributes["filename"@] == "DISK"@
}

/// The patch that a `<patch>` element describes, or the first thing that is
/// wrong with it.
pub open spec fn patch_of(e: ElementModel) -> Result<PatchModel, EntryErrorModel> {
    let lun = attr_number(e, "physical_partition_number"@, u8::MAX as nat);
    let sector_size = attr_number(e, "SECTOR_SIZE_IN_BYTES"@, u64::MAX as nat);
    let start_sector = attr_text(e, "start_sector"@);
    let byte_offset = attr_number(e, "byte_offset"@, u64::MAX as nat);
    let size = attr_number(e, "size_in_bytes"@, u64::MAX as nat);
    let value = attr_text(e, "value"@);
    if lun is Err {
        Err(lun->Err_0)
    } else if sector_size is Err {
        Err(sector_size->Err_0)
    } else if start_sector is Err {
        Err(start_sector->Err_0)
    } else if byte_offset is Err {
        Err(byte_offset->Err_0)
    } else if size is Err {
        Err(size->Err_0)
    } else if value is Err {
        Err(value->Err_0)
    } else {
        Ok(
            PatchModel {
                lun: lun->Ok_0 as u8,
                sector_size: sector_size->Ok_0 as u64,
                start_sector: start_sector->Ok_0,
                byte_offset: byte_offset->Ok_0 as u64,
                size_in_bytes: size->Ok_0 as u64,
                value: value->Ok_0,
                what: if e.attributes.contains_key("what"@) {
                    e.attributes["what"@]
                } else {
                    ""@
                },
            },
        )
    }
}

/// The programs that `es` describe, in order, or the first error among them.
pub open spec fn programs_of(es: Seq<ElementModel>) -> Result<Seq<ProgramModel>, EntryErrorModel>
    decreases es.len(),
{
    if es.len() == 0 {
        Ok(Seq::empty())
    } else {
        match programs_of(es.drop_last()) {
            Err(x) => Err(x),
            Ok(before) => match program_of(es.last()) {
                Err(x) => Err(x),
                Ok(p) => Ok(before.push(p)),
            },
        }
    }
}

/// The patches for the storage that `es` describe, in order, or the first error
/// among them. Patches for files on the host are not looked at.
pub open spec fn patches_of(es: Seq<ElementModel>) -> Result<Seq<PatchModel>, EntryErrorModel>
    decreases es.len(),
{
    if es.len() == 0 {
        Ok(Seq::empty())
    } else {
        match patches_of(es.drop_last()) {
            Err(x) => Err(x),
            Ok(before) => if patches_disk(es.last()) {
                match patch_of(es.last()) {
                    Err(x) => Err(x),
                    Ok(p) => Ok(before.push(p)),
                }
            } else {
                Ok(before)
            },
        }
    }
}

/// The programs of a document.
pub open spec fn document_programs(nodes: Seq<NodeModel>) -> Result<
    Seq<ProgramModel>,
    EntryErrorModel,
> {
    programs_of(named_elements(nodes, "program"@))
}

/// The patches of a document.
pub open spec fn document_patches(nodes: Seq<NodeModel>) -> Result<
    Seq<PatchModel>,
    EntryErrorModel,
> {
    patches_of(named_elements(nodes, "patch"@))
}

/// The programs of a rawprogram file that holds `data`.
pub open spec fn file_programs(data: Seq<u8>) -> Result<Seq<ProgramModel>, FileErrorModel> {
    match xml_children(data) {
        Err(text) => Err(FileErrorModel::Xml(text)),
        Ok(nodes) => match document_programs(nodes) {
            Err(x) => Err(FileErrorModel::Entry(x)),
            Ok(programs) => Ok(programs),
        },
    }
}

/// The patches of a patch file that holds `data`.
pub open spec fn file_patches(data: Seq<u8>) -> Result<Seq<PatchModel>, FileErrorModel> {
    match xml_children(data) {
        Err(text) => Err(FileErrorModel::Xml(text)),
        Ok(nodes) => match document_patches(nodes) {
            Err(x) => Err(FileErrorModel::Entry(x)),
            Ok(patches) => Ok(patches),
        },
    }
}

fn program_from(e: &Element) -> (r: Result<Program, EntryError>)
    ensures
        match r {
            Ok(p) => program_of(e@) == Ok::<ProgramModel, EntryErrorModel>(p@),
            Err(x) => program_of(e@) == Err::<ProgramModel, EntryErrorModel>(x@),
        },
{
    let slot: u8 = match attr_parse_or(e, "slot", 0u8) {
        Ok(v) => v,
        Err(x) => return Err(x),
    };
    if slot != 0 {
        return Err(EntryError::Slot(slot));
    }
    let label = match e.attribute("label") {
        Some(v) => v.to_owned(),
        None => "unnamed".to_owned(),
    };
    let filename = match attr(e, "filename") {
        Ok(v) => v.to_owned(),
        Err(x) => return Err(x),
    };
    let lun: u8 = match attr_parse(e, "physical_partition_number") {
        Ok(v) => v,
        Err(x) => return Err(x),
    };
    let sector_size: u64 = match attr_parse(e, "SECTOR_SIZE_IN_BYTES") {
        Ok(v) => v,
        Err(x) => return Err(x),
    };
    let num_sectors: u64 = match attr_parse(e, "num_partition_sectors") {
        Ok(v) => v,
        Err(x) => return Err(x),
    };
    let start_sector = match attr(e, "start_sector") {
        Ok(v) => v.to_owned(),
        Err(x) => return Err(x),
    };
    let file_sector_offset: u64 = match attr_parse_or(e, "file_sector_offset", 0u64) {
        Ok(v) => v,
        Err(x) => return Err(x),
    };
    Ok(
        Program {
            label,
            filename,
            lun,
            sector_size,
            num_sectors,
            start_sector,
            file_sector_offset,
        },
    )
}

fn patch_from(e: &Element) -> (r: Result<Patch, EntryError>)
    ensures
        match r {
            Ok(p) => patch_of(e@) == Ok::<PatchModel, EntryErrorModel>(p@),
            Err(x) => patch_of(e@) == Err::<PatchModel, EntryErrorModel>(x@),
        },
{
    let lun: u8 = match attr_parse(e, "physical_partition_number") {
        Ok(v) => v,
        Err(x) => return Err(x),
    };
    let sector_size: u64 = match attr_parse(e, "SECTOR_SIZE_IN_BYTES") {
        Ok(v) => v,
        Err(x) => return Err(x),
    };
    let start_sector = match attr(e, "start_sector") {
        Ok(v) => v.to_owned(),
        Err(x) => return Err(x),
    };
    let byte_offset: u64 = match attr_parse(e, "byte_offset") {
        Ok(v) => v,
        Err(x) => return Err(x),
    };
    let size_in_bytes: u64 = match attr_parse(e, "size_in_bytes") {
        Ok(v) => v,
        Err(x) => return Err(x),
    };
    let value = match attr(e, "value") {
        Ok(v) => v.to_owned(),
        Err(x) => return Err(x),
    };
    let what = match e.attribute("what") {
        Some(v) => v.to_owned(),
        None => "".to_owned(),
    };
    Ok(Patch { lun, sector_size, start_sector, byte_offset, size_in_bytes, value, what })
}

/// The programs of a document, in order.
pub fn programs_from_xml(xml: &Document) -> (r: Result<Vec<Program>, EntryError>)
    ensures
        match r {
            Ok(ps) => document_programs(xml@) == Ok::<Seq<ProgramModel>, EntryErrorModel>(
                program_models(ps@),
            ),
            Err(x) => document_programs(xml@) == Err::<Seq<ProgramModel>, EntryErrorModel>(x@),
        },
{
    let found = elements(xml, "program");
    let ghost es = named_elements(xml@, "program"@);
    assert(es == found@.map_values(|e: &Element| e@));
    let mut out: Vec<Program> = Vec::new();
    let n: usize = found.len();
    let mut i: usize = 0;
    assert(program_models(out@) == Seq::<ProgramModel>::empty());
    while i < n
        invariant
            i <= n == found@.len(),
            es == found@.map_values(|e: &Element| e@),
            programs_of(es.take(i as int)) == Ok::<Seq<ProgramModel>, EntryErrorModel>(
                program_models(out@),
            ),
            es == named_elements(xml@, "program"@),
        decreases n - i,
    {
        assert(es.take(i + 1).drop_last() == es.take(i as int));
        assert(es.take(i + 1).last() == found@[i as int]@);
        match program_from(found[i]) {
            Ok(p) => {
                let ghost before = out@;
                out.push(p);
                assert(program_models(out@) == program_models(before).push(p@));
            },
            Err(x) => {
                proof {
                    lemma_programs_first_error(es, i + 1);
                }
                return Err(x);
            },
        }
        i += 1;
    }
    assert(es.take(n as int) == es);
    Ok(out)
}

/// The patches of a document that are meant for the storage of the device, in
/// order.
pub fn patches_from_xml(xml: &Document) -> (r: Result<Vec<Patch>, EntryError>)
    ensures
        match r {
            Ok(ps) => document_patches(xml@) == Ok::<Seq<PatchModel>, EntryErrorModel>(
                patch_models(ps@),
            ),
            Err(x) => document_patches(xml@) == Err::<Seq<PatchModel>, EntryErrorModel>(x@),
        },
{
    let found = elements(xml, "patch");
    let ghost es = named_elements(xml@, "patch"@);
    assert(es == found@.map_values(|e: &Element| e@));
    let mut out: Vec<Patch> = Vec::new();
    let n: usize = found.len();
    let mut i: usize = 0;
    assert(patch_models(out@) == Seq::<PatchModel>::empty());
    while i < n
        invariant
            i <= n == found@.len(),
            es == found@.map_values(|e: &Element| e@),
            patches_of(es.take(i as int)) == Ok::<Seq<PatchModel>, EntryErrorModel>(
                patch_models(out@),
            ),
            es == named_elements(xml@, "patch"@),
        decreases n - i,
    {
        assert(es.take(i + 1).drop_last() == es.take(i as int));
        assert(es.take(i + 1).last() == found@[i as int]@);
        let e: &Element = found[i];
        let for_disk: bool = match e.attribute("filename") {
            Some(f) => same_text(f, "DISK"),
            None => false,
        };
        if for_disk {
            match patch_from(e) {
                Ok(p) => {
                    let ghost before = out@;
                    out.push(p);
                    assert(patch_models(out@) == patch_models(before).push(p@));
                },
                Err(x) => {
                    proof {
                        lemma_patches_first_error(es, i + 1);
                    }
                    return Err(x);
                },
            }
        }
        i += 1;
    }
    assert(es.take(n as int) == es);
    Ok(out)
}

proof fn lemma_programs_first_error(es: Seq<ElementModel>, i: int)
    requires
        0 <= i <= es.len(),
        programs_of(es.take(i)) is Err,
    ensures
        programs_of(es) == programs_of(es.take(i)),
    decreases es.len() - i,
{
    if i < es.len() {
        assert(es.take(i + 1).drop_last() == es.take(i));
        lemma_programs_first_error(es, i + 1);
    } else {
        assert(es.take(i) == es);
    }
}

proof fn lemma_patches_first_error(es: Seq<ElementModel>, i: int)
    requires
        0 <= i <= es.len(),
        patches_of(es.take(i)) is Err,
    ensures
        patches_of(es) == patches_of(es.take(i)),
    decreases es.len() - i,
{
    if i < es.len() {
        assert(es.take(i + 1).drop_last() == es.take(i));
        lemma_patches_first_error(es, i + 1);
    } else {
        assert(es.take(i) == es);
    }
}

/// The programs of a rawprogram file that holds `data`, in order.
pub fn parse_programs(data: &[u8]) -> (r: Result<Vec<Program>, FileError>)
    ensures
        match r {
            Ok(ps) => file_programs(data@) == Ok::<Seq<ProgramModel>, FileErrorModel>(
                program_models(ps@),
            ),
            Err(x) => file_programs(data@) == Err::<Seq<ProgramModel>, FileErrorModel>(x@),
        },
{
    let xml = match parse_document(data) {
        Ok(xml) => xml,
        Err(text) => return Err(FileError::Xml(text)),
    };
    match programs_from_xml(&xml) {
        Ok(programs) => Ok(programs),
        Err(x) => Err(FileError::Entry(x)),
    }
}

/// The patches of a patch file that holds `data`, in order.
pub fn parse_patches(data: &[u8]) -> (r: Result<Vec<Patch>, FileError>)
    ensures
        match r {
            Ok(ps) => file_patches(data@) == Ok::<Seq<PatchModel>, FileErrorModel>(
                patch_models(ps@),
            ),
            Err(x) => file_patches(data@) == Err::<Seq<PatchModel>, FileErrorModel>(x@),
        },
{
    let xml = match parse_document(data) {
        Ok(xml) => xml,
        Err(text) => return Err(FileError::Xml(text)),
    };
    match patches_from_xml(&xml) {
        Ok(patches) => Ok(patches),
        Err(x) => Err(FileError::Entry(x)),
    }
}

/// A file that can be used gives one program for each `<program>` element, in
/// order, placeholders among them, and each is meant for the supported slot.
pub proof fn law_one_program_per_element(es: Seq<ElementModel>)
    ensures
        programs_of(es) matches Ok(ps) ==> {
            &&& ps.len() == es.len()
            &&& forall|i: int|
                0 <= i < es.len() ==> program_of(#[trigger] es[i]) == Ok::<
                    ProgramModel,
                    EntryErrorModel,
                >(ps[i]) && attr_number_or(es[i], "slot"@, 0, u8::MAX as nat) == Ok::<
                    nat,
                    EntryErrorModel,
                >(0)
        },
    decreases es.len(),
{
    if es.len() > 0 {
        law_one_program_per_element(es.drop_last());
        if let Ok(ps) = programs_of(es) {
            assert forall|i: int| 0 <= i < es.len() implies program_of(#[trigger] es[i]) == Ok::<
                ProgramModel,
                EntryErrorModel,
            >(ps[i]) && attr_number_or(es[i], "slot"@, 0, u8::MAX as nat) == Ok::<
                nat,
                EntryErrorModel,
            >(0) by {
                if i < es.len() - 1 {
                    assert(es.drop_last()[i] == es[i]);
                }
            }
        }
    }
}

/// A file with an entry that cannot be used is refused as a whole, with the
/// first error that it holds.
pub proof fn law_first_bad_program_is_reported(es: Seq<ElementModel>)
    ensures
        programs_of(es) is Err <==> exists|i: int|
            0 <= i < es.len() && program_of(#[trigger] es[i]) is Err,
        programs_of(es) matches Err(x) ==> exists|i: int|
            {
                &&& 0 <= i < es.len()
                &&& program_of(#[trigger] es[i]) == Err::<ProgramModel, EntryErrorModel>(x)
                &&& forall|j: int| 0 <= j < i ==> program_of(#[trigger] es[j]) is Ok
            },
    decreases es.len(),
{
    if es.len() > 0 {
        let front = es.drop_last();
        let last = es.len() - 1;
        law_first_bad_program_is_reported(front);
        assert(forall|i: int| 0 <= i < last ==> front[i] == es[i]);
        if let Err(x) = programs_of(front) {
            let i = choose|i: int|
                {
                    &&& 0 <= i < front.len()
                    &&& program_of(#[trigger] front[i]) == Err::<ProgramModel, EntryErrorModel>(x)
                    &&& forall|j: int| 0 <= j < i ==> program_of(#[trigger] front[j]) is Ok
                };
            assert(es[i] == front[i]);
            assert forall|j: int| 0 <= j < i implies program_of(#[trigger] es[j]) is Ok by {
                assert(es[j] == front[j]);
            }
        } else {
            assert forall|j: int| 0 <= j < last implies program_of(#[trigger] es[j]) is Ok by {
                assert(es[j] == front[j]);
            }
            assert(es[last] == es.last());
        }
    }
}

/// Whether a `<patch>` element makes its file unusable.
pub open spec fn bad_patch(e: ElementModel) -> bool {
    patches_disk(e) && patch_of(e) is Err
}

/// A file with a patch for the storage that cannot be used is refused as a whole,
/// with the first error that it holds.
pub proof fn law_first_bad_patch_is_reported(es: Seq<ElementModel>)
    ensures
        patches_of(es) is Err <==> exists|i: int| 0 <= i < es.len() && bad_patch(#[trigger] es[i]),
        patches_of(es) matches Err(x) ==> exists|i: int|
            {
                &&& 0 <= i < es.len()
                &&& bad_patch(#[trigger] es[i])
                &&& patch_of(es[i])->Err_0 == x
                &&& forall|j: int| 0 <= j < i ==> !bad_patch(#[trigger] es[j])
            },
    decreases es.len(),
{
    if es.len() > 0 {
        let front = es.drop_last();
        let last = es.len() - 1;
        law_first_bad_patch_is_reported(front);
        assert(forall|i: int| 0 <= i < last ==> front[i] == es[i]);
        if let Err(x) = patches_of(front) {
            let i = choose|i: int|
                {
                    &&& 0 <= i < front.len()
                    &&& bad_patch(#[trigger] front[i])
                    &&& patch_of(front[i])->Err_0 == x
                    &&& forall|j: int| 0 <= j < i ==> !bad_patch(#[trigger] front[j])
                };
            assert(es[i] == front[i]);
            assert forall|j: int| 0 <= j < i implies !bad_patch(#[trigger] es[j]) by {
                assert(es[j] == front[j]);
            }
        } else {
            assert forall|j: int| 0 <= j < last implies !bad_patch(#[trigger] es[j]) by {
                assert(es[j] == front[j]);
            }
            assert(es[last] == es.last());
        }
    }
}

/// Patches for files on the host count for nothing, whatever they hold: leaving
/// one out changes nothing.
pub proof fn law_host_patches_are_skipped(
    before: Seq<ElementModel>,
    e: ElementModel,
    behind: Seq<ElementModel>,
)
    requires
        !patches_disk(e),
    ensures
        patches_of(before.push(e) + behind) == patches_of(before + behind),
    decreases behind.len(),
{
    if behind.len() == 0 {
        assert(before.push(e) + behind == before.push(e));
        assert(before + behind == before);
        assert(before.push(e).drop_last() == before);
    } else {
        let front = behind.drop_last();
        law_host_patches_are_skipped(before, e, front);
        assert((before.push(e) + behind).drop_last() == before.push(e) + front);
        assert((before + behind).drop_last() == before + front);
        assert((before.push(e) + behind).last() == behind.last());
        assert((before + behind).last() == behind.last());
    }
}

/// A program, a patch and an error stand for what they hold.
pub proof fn law_entries_stand_for_their_parts(p: Program, q: Patch, x: FileError)
    ensures
        p@.label == p.label@,
        p@.filename == p.filename@,
        p@.lun == p.lun,
        p@.sector_size == p.sector_size,
        p@.num_sectors == p.num_sectors,
        p@.start_sector == p.start_sector@,
        p@.file_sector_offset == p.file_sector_offset,
        q@.lun == q.lun,
        q@.sector_size == q.sector_size,
        q@.start_sector == q.start_sector@,
        q@.byte_offset == q.byte_offset,
        q@.size_in_bytes == q.size_in_bytes,
        q@.value == q.value@,
        q@.what == q.what@,
        x matches FileError::Xml(t) ==> x@ == FileErrorModel::Xml(t@),
        x matches FileError::Entry(e) ==> x@ == FileErrorModel::Entry(e@),
{
}

/// The programs and patches of a list stand, in order, for what each holds.
pub proof fn law_lists_stand_for_their_entries(ps: Seq<Program>, qs: Seq<Patch>)
    ensures
        program_models(ps).len() == ps.len(),
        forall|i: int| 0 <= i < ps.len() ==> #[trigger] program_models(ps)[i] == ps[i]@,
        patch_models(qs).len() == qs.len(),
        forall|i: int| 0 <= i < qs.len() ==> #[trigger] patch_models(qs)[i] == qs[i]@,
{
}

/// Whether an attribute that may be left out is left out, empty or a number.
pub open spec fn may_be_number(e: ElementModel, name: Seq<char>, max: nat) -> bool {
    !e.attributes.contains_key(name) || e.attributes[name].len() == 0 || has_number(e, name, max)
}

/// The number that an attribute stands for, which is 0 where it is left out or
/// empty.
pub open spec fn number_or_zero(e: ElementModel, name: Seq<char>, max: nat) -> nat {
    if e.attributes.contains_key(name) && e.attributes[name].len() > 0 {
        decimal(e.attributes[name], max)->Ok_0
    } else {
        0
    }
}

/// The text that an attribute holds, or `default` where it is left out.
pub open spec fn text_or(e: ElementModel, name: Seq<char>, default: Seq<char>) -> Seq<char> {
    if e.attributes.contains_key(name) {
        e.attributes[name]
    } else {
        default
    }
}

/// A `<program>` element describes a program exactly if it is for slot 0, has every
/// attribute that is needed, and its numbers are numbers. Each field of the program
/// is then what the attribute of its name holds.
pub proof fn law_program_is_what_its_element_says(e: ElementModel)
    ensures
        program_of(e) is Ok <==> {
            &&& may_be_number(e, "slot"@, 255)
            &&& number_or_zero(e, "slot"@, 255) == 0
            &&& e.attributes.contains_key("filename"@)
            &&& has_number(e, "physical_partition_number"@, 255)
            &&& has_number(e, "SECTOR_SIZE_IN_BYTES"@, 0xffff_ffff_ffff_ffff)
            &&& has_number(e, "num_partition_sectors"@, 0xffff_ffff_ffff_ffff)
            &&& e.attributes.contains_key("start_sector"@)
            &&& may_be_number(e, "file_sector_offset"@, 0xffff_ffff_ffff_ffff)
        },
        program_of(e) matches Ok(p) ==> {
            &&& p.label == text_or(e, "label"@, "unnamed"@)
            &&& p.filename == e.attributes["filename"@]
            &&& decimal(e.attributes["physical_partition_number"@], 255)->Ok_0 == p.lun
            &&& decimal(e.attributes["SECTOR_SIZE_IN_BYTES"@], 0xffff_ffff_ffff_ffff)->Ok_0
                == p.sector_size
            &&& decimal(e.attributes["num_partition_sectors"@], 0xffff_ffff_ffff_ffff)->Ok_0
                == p.num_sectors
            &&& p.start_sector == e.attributes["start_sector"@]
            &&& number_or_zero(e, "file_sector_offset"@, 0xffff_ffff_ffff_ffff)
                == p.file_sector_offset
        },
{
    lemma_decimal_within(e.attributes["slot"@], 255);
    lemma_decimal_within(e.attributes["physical_partition_number"@], 255);
    lemma_decimal_within(e.attributes["SECTOR_SIZE_IN_BYTES"@], 0xffff_ffff_ffff_ffff);
    lemma_decimal_within(e.attributes["num_partition_sectors"@], 0xffff_ffff_ffff_ffff);
    lemma_decimal_within(e.attributes["file_sector_offset"@], 0xffff_ffff_ffff_ffff);
}

/// What is wrong with a `<program>` element that describes no program: the first of
/// its attributes, in the order slot, filename, unit, sector size, sectors, place
/// and offset, that is missing or no number, or a slot other than 0.
pub proof fn law_program_error_names_the_first_problem(e: ElementModel)
    requires
        program_of(e) is Err,
    ensures
        program_of(e)->Err_0 == if !may_be_number(e, "slot"@, 255) {
            number_problem(e, "slot"@, 255)
        } else if number_or_zero(e, "slot"@, 255) > 0 {
            EntryErrorModel::Slot(number_or_zero(e, "slot"@, 255) as u8)
        } else if !e.attributes.contains_key("filename"@) {
            EntryErrorModel::Missing { element: e.name, name: "filename"@ }
        } else if !has_number(e, "physical_partition_number"@, 255) {
            number_problem(e, "physical_partition_number"@, 255)
        } else if !has_number(e, "SECTOR_SIZE_IN_BYTES"@, 0xffff_ffff_ffff_ffff) {
            number_problem(e, "SECTOR_SIZE_IN_BYTES"@, 0xffff_ffff_ffff_ffff)
        } else if !has_number(e, "num_partition_sectors"@, 0xffff_ffff_ffff_ffff) {
            number_problem(e, "num_partition_sectors"@, 0xffff_ffff_ffff_ffff)
        } else if !e.attributes.contains_key("start_sector"@) {
            EntryErrorModel::Missing { element: e.name, name: "start_sector"@ }
        } else {
            number_problem(e, "file_sector_offset"@, 0xffff_ffff_ffff_ffff)
        },
{
    lemma_decimal_within(e.attributes["slot"@], 255);
}

/// A `<patch>` element describes a patch exactly if it has every attribute that is
/// needed and its numbers are numbers. Each field of the patch is then what the
/// attribute of its name holds.
pub proof fn law_patch_is_what_its_element_says(e: ElementModel)
    ensures
        patch_of(e) is Ok <==> {
            &&& has_number(e, "physical_partition_number"@, 255)
            &&& has_number(e, "SECTOR_SIZE_IN_BYTES"@, 0xffff_ffff_ffff_ffff)
            &&& e.attributes.contains_key("start_sector"@)
            &&& has_number(e, "byte_offset"@, 0xffff_ffff_ffff_ffff)
            &&& has_number(e, "size_in_bytes"@, 0xffff_ffff_ffff_ffff)
            &&& e.attributes.contains_key("value"@)
        },
        patch_of(e) matches Ok(p) ==> {
            &&& decimal(e.attributes["physical_partition_number"@], 255)->Ok_0 == p.lun
            &&& decimal(e.attributes["SECTOR_SIZE_IN_BYTES"@], 0xffff_ffff_ffff_ffff)->Ok_0
                == p.sector_size
            &&& p.start_sector == e.attributes["start_sector"@]
            &&& decimal(e.attributes["byte_offset"@], 0xffff_ffff_ffff_ffff)->Ok_0 == p.byte_offset
            &&& decimal(e.attributes["size_in_bytes"@], 0xffff_ffff_ffff_ffff)->Ok_0
                == p.size_in_bytes
            &&& p.value == e.attributes["value"@]
            &&& p.what == text_or(e, "what"@, ""@)
        },
{
    lemma_decimal_within(e.attributes["physical_partition_number"@], 255);
    lemma_decimal_within(e.attributes["SECTOR_SIZE_IN_BYTES"@], 0xffff_ffff_ffff_ffff);
    lemma_decimal_within(e.attributes["byte_offset"@], 0xffff_ffff_ffff_ffff);
    lemma_decimal_within(e.attributes["size_in_bytes"@], 0xffff_ffff_ffff_ffff);
}

/// What is wrong with a `<patch>` element that describes no patch: the first of its
/// attributes, in the order unit, sector size, place, offset, size and value, that
/// is missing or no number.
pub proof fn law_patch_error_names_the_first_problem(e: ElementModel)
    requires
        patch_of(e) is Err,
    ensures
        patch_of(e)->Err_0 == if !has_number(e, "physical_partition_number"@, 255) {
            number_problem(e, "physical_partition_number"@, 255)
        } else if !has_number(e, "SECTOR_SIZE_IN_BYTES"@, 0xffff_ffff_ffff_ffff) {
            number_problem(e, "SECTOR_SIZE_IN_BYTES"@, 0xffff_ffff_ffff_ffff)
        } else if !e.attributes.contains_key("start_sector"@) {
            EntryErrorModel::Missing { element: e.name, name: "start_sector"@ }
        } else if !has_number(e, "byte_offset"@, 0xffff_ffff_ffff_ffff) {
            number_problem(e, "byte_offset"@, 0xffff_ffff_ffff_ffff)
        } else if !has_number(e, "size_in_bytes"@, 0xffff_ffff_ffff_ffff) {
            number_problem(e, "size_in_bytes"@, 0xffff_ffff_ffff_ffff)
        } else {
            EntryErrorModel::Missing { element: e.name, name: "value"@ }
        },
{
}

/// Being meant for the storage of the device, as a property of `<patch>` elements:
/// the filename is `DISK`.
pub open spec fn filename_is_disk() -> spec_fn(ElementModel) -> bool {
    |e: ElementModel|
        e.attributes.contains_key("filename"@) && e.attributes["filename"@] == "DISK"@
}

/// A patch file that can be used gives exactly one patch for each `<patch>` element
/// whose filename is `DISK`, in order, and the patch is the one that the element
/// describes. It can be used exactly if each of those elements describes a patch.
pub proof fn law_one_patch_per_disk_element(es: Seq<ElementModel>)
    ensures
        patches_of(es) matches Ok(ps) ==> {
            &&& ps.len() == es.filter(filename_is_disk()).len()
            &&& forall|k: int|
                0 <= k < ps.len() ==> patch_of(es.filter(filename_is_disk())[k]) == Ok::<
                    PatchModel,
                    EntryErrorModel,
                >(#[trigger] ps[k])
        },
        patches_of(es) is Ok <==> forall|k: int|
            0 <= k < es.filter(filename_is_disk()).len() ==> patch_of(
                #[trigger] es.filter(filename_is_disk())[k],
            ) is Ok,
    decreases es.len(),
{
    reveal(Seq::filter);
    if es.len() > 0 {
        let front = es.drop_last();
        let before = front.filter(filename_is_disk());
        let all = es.filter(filename_is_disk());
        law_one_patch_per_disk_element(front);
        assert(patches_disk(es.last()) == filename_is_disk()(es.last()));
        assert(forall|k: int| 0 <= k < before.len() ==> all[k] == before[k]);
        if patches_of(front) is Ok {
            if filename_is_disk()(es.last()) {
                assert(all == before.push(es.last()));
                assert(all[before.len() as int] == es.last());
            } else {
                assert(all == before);
            }
        } else {
            let k = choose|k: int|
                0 <= k < before.len() && !(patch_of(#[trigger] before[k]) is Ok);
            assert(all[k] == before[k]);
            assert(!(patch_of(all[k]) is Ok));
        }
    }
}

/// A rawprogram file that is no XML is refused with the error of the parser. Any
/// other gives one program for each element below its root that is called
/// `program`, in order, and the program is the one that the element describes; it
/// is refused exactly if one of those elements describes none.
pub proof fn law_programs_are_those_of_the_file(data: Seq<u8>)
    ensures
        match xml_children(data) {
            Err(text) => file_programs(data) == Err::<Seq<ProgramModel>, FileErrorModel>(
                FileErrorModel::Xml(text),
            ),
            Ok(nodes) => {
                let es = nodes.filter(called("program"@));
                &&& file_programs(data) is Ok <==> forall|k: int|
                    0 <= k < es.len() ==> program_of((#[trigger] es[k])->Element_0) is Ok
                &&& file_programs(data) matches Ok(ps) ==> {
                    &&& ps.len() == es.len()
                    &&& forall|k: int|
                        0 <= k < ps.len() ==> program_of(es[k]->Element_0) == Ok::<
                            ProgramModel,
                            EntryErrorModel,
                        >(#[trigger] ps[k])
                }
                &&& file_programs(data) matches Err(x) ==> exists|k: int|
                    {
                        &&& 0 <= k < es.len()
                        &&& program_of((#[trigger] es[k])->Element_0) is Err
                        &&& x == FileErrorModel::Entry(program_of(es[k]->Element_0)->Err_0)
                        &&& forall|j: int|
                            0 <= j < k ==> program_of((#[trigger] es[j])->Element_0) is Ok
                    }
            },
        },
{
    if let Ok(nodes) = xml_children(data) {
        let es = nodes.filter(called("program"@));
        let found = named_elements(nodes, "program"@);
        law_elements_are_all_of_that_name(nodes, "program"@);
        assert(forall|k: int| 0 <= k < es.len() ==> (#[trigger] es[k])->Element_0 == found[k]);
        law_one_program_per_element(found);
        law_first_bad_program_is_reported(found);
        if programs_of(found) is Err {
            let x = programs_of(found)->Err_0;
            let k = choose|k: int|
                {
                    &&& 0 <= k < found.len()
                    &&& program_of(#[trigger] found[k]) == Err::<ProgramModel, EntryErrorModel>(x)
                    &&& forall|j: int| 0 <= j < k ==> program_of(#[trigger] found[j]) is Ok
                };
            assert(es[k]->Element_0 == found[k]);
            assert forall|j: int| 0 <= j < k implies program_of(
                (#[trigger] es[j])->Element_0,
            ) is Ok by {
                assert(es[j]->Element_0 == found[j]);
            }
        } else {
            assert forall|k: int| 0 <= k < es.len() implies program_of(
                (#[trigger] es[k])->Element_0,
            ) is Ok by {
                assert(es[k]->Element_0 == found[k]);
            }
        }
    }
}

/// A patch file that is no XML is refused with the error of the parser. Any other
/// gives the patches of the elements below its root that are called `patch`.
pub proof fn law_patches_are_those_of_the_file(data: Seq<u8>)
    ensures
        match xml_children(data) {
            Err(text) => file_patches(data) == Err::<Seq<PatchModel>, FileErrorModel>(
                FileErrorModel::Xml(text),
            ),
            Ok(nodes) => {
                let es = Seq::new(
                    nodes.filter(called("patch"@)).len(),
                    |k: int| nodes.filter(called("patch"@))[k]->Element_0,
                );
                match patches_of(es) {
                    Ok(ps) => file_patches(data) == Ok::<Seq<PatchModel>, FileErrorModel>(ps),
                    Err(x) => file_patches(data) == Err::<Seq<PatchModel>, FileErrorModel>(
                        FileErrorModel::Entry(x),
                    ),
                }
            },
        },
{
    if let Ok(nodes) = xml_children(data) {
        let found = nodes.filter(called("patch"@));
        law_elements_are_all_of_that_name(nodes, "patch"@);
        assert(named_elements(nodes, "patch"@) == Seq::new(
            found.len(),
            |k: int| found[k]->Element_0,
        ));
    }
}

} // verus!
