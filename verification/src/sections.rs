use vstd::prelude::*;

verus! {

/// One region of an executable image, with both its on-disk (file) extent
/// and its in-memory (virtual) extent, as produced by the image parser.
#[derive(Clone, Copy)]
pub struct Section {
    pub name: [u8; 8],
    pub file_offset: u32,
    pub file_size: u32,
    pub virtual_address: u32,
    pub virtual_size: u32,
}

/// The file range of section `s` contains file offset `off`.
pub open spec fn section_contains(s: Section, off: int) -> bool {
    s.file_offset <= off < s.file_offset + s.file_size
}

/// Index of the first section (in table order) whose file range contains
/// `off`, or -1 when no section does.
pub open spec fn containing_section(sections: Seq<Section>, off: int) -> int
    decreases sections.len(),
{
    if sections.len() == 0 {
        -1
    } else if section_contains(sections[0], off) {
        0
    } else {
        let rest = containing_section(sections.drop_first(), off);
        if rest == -1 {
            -1
        } else {
            rest + 1
        }
    }
}

/// Some section's file range contains `off`.
pub open spec fn resolvable(sections: Seq<Section>, off: int) -> bool {
    exists|i: int| 0 <= i < sections.len() && section_contains(sections[i], off)
}

/// The resolved virtual address of file offset `off`: image base plus the
/// containing section's virtual address plus the offset within that section.
pub open spec fn resolve_spec(image_base: int, sections: Seq<Section>, off: int) -> int {
    let i = containing_section(sections, off);
    image_base + sections[i].virtual_address + (off - sections[i].file_offset)
}

/// `containing_section` returns -1 exactly when no section contains `off`;
/// otherwise it returns the least index of a containing section.
pub proof fn lemma_containing_section(sections: Seq<Section>, off: int)
    ensures
        containing_section(sections, off) == -1 <==> !resolvable(sections, off),
        resolvable(sections, off) ==> {
            let i = containing_section(sections, off);
            &&& 0 <= i < sections.len()
            &&& section_contains(sections[i], off)
            &&& forall|j: int| 0 <= j < i ==> !section_contains(sections[j], off)
        },
    decreases sections.len(),
{
    if sections.len() == 0 {
    } else if section_contains(sections[0], off) {
    } else {
        lemma_containing_section(sections.drop_first(), off);
        let rest = containing_section(sections.drop_first(), off);
        if rest == -1 {
            assert forall|i: int| 0 <= i < sections.len() implies !section_contains(
                sections[i],
                off,
            ) by {
                if i >= 1 {
                    assert(sections.drop_first()[i - 1] == sections[i]);
                }
            }
        } else {
            assert(sections.drop_first()[rest] == sections[rest + 1]);
            assert forall|j: int| 0 <= j < rest + 1 implies !section_contains(
                sections[j],
                off,
            ) by {
                if j >= 1 {
                    assert(sections.drop_first()[j - 1] == sections[j]);
                }
            }
        }
    }
}

/// Every address this section table can resolve fits in the machine's
/// address range; what a caller of resolution must guarantee.
pub open spec fn resolvable_bound_ok(image_base: int, sections: Seq<Section>) -> bool {
    forall|i: int|
        0 <= i < sections.len() ==> image_base + (#[trigger] sections[i]).virtual_address
            + sections[i].file_size <= usize::MAX
}

/// Map a raw file offset to a resolved virtual address using the section
/// table: the first section whose file range contains the offset wins.
/// Returns `None` when the offset lies outside every section's file range.
pub fn resolve_symbol(image_base: usize, sections: &[Section], off: usize) -> (r: Option<usize>)
    requires
        resolvable_bound_ok(image_base as int, sections@),
    ensures
        r is Some <==> resolvable(sections@, off as int),
        r is Some ==> r->0 == resolve_spec(image_base as int, sections@, off as int),
{
    proof {
        lemma_containing_section(sections@, off as int);
    }
    let n = sections.len();
    let mut i: usize = 0;
    while i < n
        invariant
            n == sections@.len(),
            0 <= i <= n,
            forall|j: int| 0 <= j < i ==> !section_contains(sections@[j], off as int),
            resolvable_bound_ok(image_base as int, sections@),
        decreases n - i,
    {
        let s = sections[i];
        if s.file_offset as usize <= off && (off - s.file_offset as usize) < s.file_size as usize {
            proof {
                assert(containing_section(sections@, off as int) == i) by {
                    lemma_containing_section(sections@, off as int);
                }
            }
            return Some(image_base + s.virtual_address as usize + (off - s.file_offset as usize));
        }
        i = i + 1;
    }
    None
}

} // verus!
