use vstd::prelude::*;

use crate::sections::Section;

verus! {

/// Why a restoration failed.
#[derive(Debug)]
pub enum Error {
    /// A section's virtual or file range reaches past the snapshot's end,
    /// or the header region does.
    OutOfBounds,
}

/// The output before any section is copied: the first `size_of_headers`
/// bytes of the snapshot verbatim, zero elsewhere.
pub open spec fn headers_copied(dump: Seq<u8>, size_of_headers: int) -> Seq<u8> {
    Seq::new(
        dump.len(),
        |j: int|
            if j < size_of_headers {
                dump[j]
            } else {
                0u8
            },
    )
}

/// `buf` with one section's bytes copied from the snapshot's virtual
/// range into the section's file range.
pub open spec fn write_section(buf: Seq<u8>, dump: Seq<u8>, s: Section) -> Seq<u8> {
    Seq::new(
        buf.len(),
        |j: int|
            if s.file_offset <= j < s.file_offset + s.file_size {
                dump[s.virtual_address + (j - s.file_offset)]
            } else {
                buf[j]
            },
    )
}

/// The restored image: headers verbatim, then each section copied in
/// table order, a later section overwriting an earlier one.
pub open spec fn restore_spec(dump: Seq<u8>, sections: Seq<Section>, size_of_headers: int) -> Seq<
    u8,
>
    decreases sections.len(),
{
    if sections.len() == 0 {
        headers_copied(dump, size_of_headers)
    } else {
        write_section(
            restore_spec(dump, sections.drop_last(), size_of_headers),
            dump,
            sections.last(),
        )
    }
}

pub proof fn lemma_restore_spec_len(dump: Seq<u8>, sections: Seq<Section>, size_of_headers: int)
    ensures
        restore_spec(dump, sections, size_of_headers).len() == dump.len(),
    decreases sections.len(),
{
    if sections.len() == 0 {
    } else {
        lemma_restore_spec_len(dump, sections.drop_last(), size_of_headers);
    }
}

/// Every range the restoration reads or writes lies inside the snapshot.
pub open spec fn restore_in_bounds(
    dump_len: int,
    sections: Seq<Section>,
    size_of_headers: int,
) -> bool {
    &&& size_of_headers <= dump_len
    &&& forall|i: int|
        0 <= i < sections.len() ==> ((#[trigger] sections[i]).virtual_address
            + sections[i].file_size <= dump_len && sections[i].file_offset + sections[i].file_size
            <= dump_len)
}

/// One past the last file byte any section writes: the length to which
/// the restored image is truncated when persisted.
pub open spec fn end_of_image(sections: Seq<Section>) -> int
    decreases sections.len(),
{
    if sections.len() == 0 {
        0
    } else {
        let rest = end_of_image(sections.drop_last());
        let last = sections.last().file_offset + sections.last().file_size;
        if last > rest {
            last
        } else {
            rest
        }
    }
}

/// One past the highest virtual address any section's raw data reaches:
/// how much of a loaded image a memory-reading caller must capture.
pub open spec fn virtual_end_of_image(sections: Seq<Section>) -> int
    decreases sections.len(),
{
    if sections.len() == 0 {
        0
    } else {
        let rest = virtual_end_of_image(sections.drop_last());
        let last = sections.last().virtual_address + sections.last().file_size;
        if last > rest {
            last
        } else {
            rest
        }
    }
}

/// Compute `virtual_end_of_image` over a section table.
pub fn virtual_image_end(sections: &[Section]) -> (r: u64)
    ensures
        r as int == virtual_end_of_image(sections@),
{
    let n = sections.len();
    let mut end: u64 = 0;
    let mut i: usize = 0;
    while i < n
        invariant
            n == sections@.len(),
            0 <= i <= n,
            end as int == virtual_end_of_image(sections@.take(i as int)),
        decreases n - i,
    {
        let s = sections[i];
        let ve = (s.virtual_address as u64) + (s.file_size as u64);
        proof {
            let pre = sections@.take(i as int);
            let post = sections@.take(i as int + 1);
            assert(post.drop_last() =~= pre);
            assert(post.last() == sections@[i as int]);
        }
        if ve > end {
            end = ve;
        }
        i = i + 1;
    }
    proof {
        assert(sections@.take(n as int) =~= sections@);
    }
    end
}

/// Reconstruct the on-disk layout of an executable from a snapshot of its
/// virtual-address-space layout: copy the header region verbatim, then
/// copy each section's bytes from its virtual range to its file range.
/// Returns the rebuilt buffer (the snapshot's full length) and the end of
/// the image, the length to which a persisted copy is truncated.
/// `section_alignment` is the granularity the header declares for virtual
/// addresses; the copy itself is driven by the table's file offsets.
pub fn restore_raw(
    dump: &[u8],
    size_of_headers: u32,
    section_alignment: u32,
    sections: &[Section],
) -> (r: Result<(Vec<u8>, usize), Error>)
    requires
        section_alignment > 0,
        (section_alignment & (section_alignment - 1) as u32) == 0,
    ensures
        r is Ok <==> restore_in_bounds(dump@.len() as int, sections@, size_of_headers as int),
        r matches Ok(p) ==> p.0@ == restore_spec(dump@, sections@, size_of_headers as int)
            && p.1 as int == end_of_image(sections@),
{
    let dlen = dump.len();
    if size_of_headers as usize > dlen {
        return Err(Error::OutOfBounds);
    }
    let n = sections.len();
    let mut i: usize = 0;
    while i < n
        invariant
            n == sections@.len(),
            dlen == dump@.len(),
            0 <= i <= n,
            forall|j: int|
                0 <= j < i ==> ((#[trigger] sections@[j]).virtual_address
                    + sections@[j].file_size <= dlen && sections@[j].file_offset
                    + sections@[j].file_size <= dlen),
        decreases n - i,
    {
        let s = sections[i];
        if (s.virtual_address as u64) + (s.file_size as u64) > (dlen as u64) || (s.file_offset
            as u64) + (s.file_size as u64) > (dlen as u64) {
            return Err(Error::OutOfBounds);
        }
        i = i + 1;
    }

    let mut out: Vec<u8> = Vec::new();
    let mut j: usize = 0;
    while j < dlen
        invariant
            dlen == dump@.len(),
            size_of_headers <= dlen,
            0 <= j <= dlen,
            out@.len() == j,
            forall|m: int|
                0 <= m < j ==> out@[m] == (if m < size_of_headers {
                    dump@[m]
                } else {
                    0u8
                }),
        decreases dlen - j,
    {
        if j < size_of_headers as usize {
            out.push(dump[j]);
        } else {
            out.push(0);
        }
        j = j + 1;
    }
    proof {
        assert(out@ =~= headers_copied(dump@, size_of_headers as int));
        assert(sections@.take(0) =~= Seq::<Section>::empty());
    }

    let mut eof: usize = 0;
    let mut i: usize = 0;
    while i < n
        invariant
            n == sections@.len(),
            dlen == dump@.len(),
            0 <= i <= n,
            restore_in_bounds(dlen as int, sections@, size_of_headers as int),
            out@.len() == dlen,
            out@ == restore_spec(dump@, sections@.take(i as int), size_of_headers as int),
            eof as int == end_of_image(sections@.take(i as int)),
            eof <= dlen,
        decreases n - i,
    {
        let s = sections[i];
        let fo = s.file_offset as usize;
        let fs = s.file_size as usize;
        let va = s.virtual_address as usize;
        let ghost base_buf = out@;
        let mut k: usize = 0;
        while k < fs
            invariant
                dlen == dump@.len(),
                out@.len() == dlen,
                va + fs <= dlen,
                fo + fs <= dlen,
                0 <= k <= fs,
                base_buf.len() == dlen,
                forall|m: int|
                    0 <= m < dlen ==> out@[m] == (if fo <= m < fo + k {
                        dump@[va + (m - fo)]
                    } else {
                        base_buf[m]
                    }),
            decreases fs - k,
        {
            let b = dump[va + k];
            out.set(fo + k, b);
            k = k + 1;
        }
        proof {
            let pre = sections@.take(i as int);
            let post = sections@.take(i as int + 1);
            assert(post.drop_last() =~= pre);
            assert(post.last() == sections@[i as int]);
            assert(out@ =~= write_section(base_buf, dump@, sections@[i as int]));
            assert(restore_spec(dump@, post, size_of_headers as int) == write_section(
                restore_spec(dump@, pre, size_of_headers as int),
                dump@,
                sections@[i as int],
            ));
        }
        let phys_end = ((s.file_offset as u64) + (s.file_size as u64)) as usize;
        if phys_end > eof {
            eof = phys_end;
        }
        i = i + 1;
    }
    proof {
        assert(sections@.take(n as int) =~= sections@);
    }
    Ok((out, eof))
}

/// No two sections' file ranges overlap.
pub open spec fn non_overlapping(sections: Seq<Section>) -> bool {
    forall|i: int, j: int|
        0 <= i < j < sections.len() ==> ((#[trigger] sections[i]).file_offset
            + sections[i].file_size <= (#[trigger] sections[j]).file_offset
            || sections[j].file_offset + sections[j].file_size <= sections[i].file_offset)
}

/// Byte `j` of the output lies in some section's file range.
pub open spec fn covered_by_section(sections: Seq<Section>, j: int) -> bool {
    exists|i: int|
        0 <= i < sections.len() && (#[trigger] sections[i]).file_offset <= j < sections[i].file_offset
            + sections[i].file_size
}

/// Restoration round trip: with a well-formed section table whose file
/// ranges do not overlap, every section's file range in the restored
/// image holds exactly that section's bytes from the snapshot's virtual
/// range; header bytes no section covers are copied verbatim; and every
/// byte outside the header region and every section is zero.
pub proof fn lemma_restore_round_trip(dump: Seq<u8>, sections: Seq<Section>, size_of_headers: int)
    requires
        0 <= size_of_headers,
        non_overlapping(sections),
        restore_in_bounds(dump.len() as int, sections, size_of_headers),
    ensures
        forall|i: int, j: int|
            #![trigger sections[i], restore_spec(dump, sections, size_of_headers)[j]]
            0 <= i < sections.len() && sections[i].file_offset <= j < sections[i].file_offset
                + sections[i].file_size ==> restore_spec(dump, sections, size_of_headers)[j]
                == dump[sections[i].virtual_address + (j - sections[i].file_offset)],
        forall|j: int|
            0 <= j < size_of_headers && j < dump.len() && !covered_by_section(sections, j)
                ==> restore_spec(dump, sections, size_of_headers)[j] == dump[j],
        forall|j: int|
            size_of_headers <= j < dump.len() && !covered_by_section(sections, j) ==> restore_spec(
                dump,
                sections,
                size_of_headers,
            )[j] == 0,
    decreases sections.len(),
{
    lemma_restore_spec_len(dump, sections, size_of_headers);
    if sections.len() == 0 {
    } else {
        let init = sections.drop_last();
        let s = sections.last();
        assert(non_overlapping(init)) by {
            assert(forall|i: int| 0 <= i < init.len() ==> init[i] == sections[i]);
        }
        assert(restore_in_bounds(dump.len() as int, init, size_of_headers)) by {
            assert(forall|i: int| 0 <= i < init.len() ==> init[i] == sections[i]);
        }
        lemma_restore_round_trip(dump, init, size_of_headers);
        lemma_restore_spec_len(dump, init, size_of_headers);
        let rs_init = restore_spec(dump, init, size_of_headers);
        let rs = restore_spec(dump, sections, size_of_headers);
        assert(rs == write_section(rs_init, dump, s));

        assert forall|i: int, j: int|
            #![trigger sections[i], rs[j]]
            0 <= i < sections.len() && sections[i].file_offset <= j < sections[i].file_offset
                + sections[i].file_size implies rs[j] == dump[sections[i].virtual_address + (j
            - sections[i].file_offset)] by {
            if i == sections.len() - 1 {
                assert(sections[i] == s);
            } else {
                assert(init[i] == sections[i]);
                // non-overlap of section i with the last section keeps the
                // last copy away from this byte
                assert(sections[i].file_offset + sections[i].file_size <= s.file_offset
                    || s.file_offset + s.file_size <= sections[i].file_offset);
                assert(rs_init[j] == dump[sections[i].virtual_address + (j
                    - sections[i].file_offset)]);
            }
        }

        assert forall|j: int|
            0 <= j < size_of_headers && j < dump.len() && !covered_by_section(sections, j) implies
            rs[j] == dump[j] by {
            assert(!(s.file_offset <= j < s.file_offset + s.file_size)) by {
                if s.file_offset <= j < s.file_offset + s.file_size {
                    assert(covered_by_section(sections, j)) by {
                        assert(0 <= sections.len() - 1 < sections.len() && sections[sections.len()
                            - 1].file_offset <= j < sections[sections.len() - 1].file_offset
                            + sections[sections.len() - 1].file_size);
                    }
                }
            }
            assert(!covered_by_section(init, j)) by {
                if covered_by_section(init, j) {
                    let w = choose|i: int|
                        0 <= i < init.len() && (#[trigger] init[i]).file_offset <= j < init[
                            i].file_offset + init[i].file_size;
                    assert(init[w] == sections[w]);
                    assert(covered_by_section(sections, j));
                }
            }
        }

        assert forall|j: int|
            size_of_headers <= j < dump.len() && !covered_by_section(sections, j) implies rs[j]
            == 0 by {
            assert(!(s.file_offset <= j < s.file_offset + s.file_size)) by {
                if s.file_offset <= j < s.file_offset + s.file_size {
                    assert(covered_by_section(sections, j)) by {
                        assert(0 <= sections.len() - 1 < sections.len() && sections[sections.len()
                            - 1].file_offset <= j < sections[sections.len() - 1].file_offset
                            + sections[sections.len() - 1].file_size);
                    }
                }
            }
            assert(!covered_by_section(init, j)) by {
                if covered_by_section(init, j) {
                    let w = choose|i: int|
                        0 <= i < init.len() && (#[trigger] init[i]).file_offset <= j < init[
                            i].file_offset + init[i].file_size;
                    assert(init[w] == sections[w]);
                    assert(covered_by_section(sections, j));
                }
            }
        }
    }
}

} // verus!
