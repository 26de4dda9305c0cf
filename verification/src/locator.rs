use vstd::prelude::*;

use std::collections::HashMap;

use crate::pattern::{
    is_blank, pattern_offsets, pattern_wf, str_bytes, check_pattern,
};
use crate::sections::{
    resolvable, resolvable_bound_ok, resolve_spec, resolve_symbol, Section,
};

verus! {

/// Why a lookup failed.
#[derive(Debug)]
pub enum Error {
    /// No pattern produced any match; carries the lookup's logical name.
    NotFound(String),
    /// A pattern matched more than once and the caller did not opt into
    /// tolerating that; carries the lookup's logical name.
    TooManyMatches(String),
    /// A match's raw file offset lies outside every section's file range.
    AddressResolutionFailed(usize),
    /// A pattern string is not well formed; carries the pattern.
    PatternScanner(String),
}

/// Relies on patternscanner::PatternScanner::scan_all: it splits the
/// pattern on whitespace into byte and wildcard tokens and returns, in
/// increasing order, every offset of `data` at which the tokens match.
/// A well-formed pattern parses without error and has at least one token,
/// so the scan cannot fail and scans a non-empty window. Building the
/// scanner aborts the process if the OS cannot spawn its thread pool, a
/// resource failure of the same kind as running out of memory.
#[verifier::external_body]
fn scan_all(data: &[u8], pattern: &str) -> (r: Vec<usize>)
    requires
        pattern_wf(str_bytes(pattern@)),
    ensures
        r@.map_values(|x: usize| x as int) == pattern_offsets(pattern@, data@),
{
    patternscanner::PatternScannerBuilder::builder()
        .with_bytes(data)
        .build()
        .scan_all(pattern)
        .unwrap_or_default()
}

/// Every offset in `offs` lies inside some section's file range.
pub open spec fn all_resolvable(sections: Seq<Section>, offs: Seq<int>) -> bool {
    forall|k: int| 0 <= k < offs.len() ==> resolvable(sections, offs[k])
}

/// `o` is the first offset of `offs` that no section covers.
pub open spec fn is_first_unresolvable(sections: Seq<Section>, offs: Seq<int>, o: int) -> bool {
    exists|k: int|
        0 <= k < offs.len() && offs[k] == o && !resolvable(sections, o) && (forall|j: int|
            0 <= j < k ==> resolvable(sections, offs[j]))
}

/// `r` pairs each scanned offset with its resolved address.
pub open spec fn resolved_matches(
    image_base: int,
    sections: Seq<Section>,
    offs: Seq<int>,
    r: Seq<(usize, usize)>,
) -> bool {
    &&& r.len() == offs.len()
    &&& forall|k: int|
        0 <= k < r.len() ==> (#[trigger] r[k]).0 as int == offs[k] && r[k].1 as int
            == resolve_spec(image_base, sections, offs[k])
}

/// What one pattern lookup returns, for every input: the single contract
/// shared by the full pattern and each fallback pattern.
pub open spec fn locate_one_post(
    image_base: int,
    sections: Seq<Section>,
    data: Seq<u8>,
    p: Seq<char>,
    name: Seq<char>,
    allow_multiple_matches: bool,
    r: Result<(usize, usize), Error>,
) -> bool {
    let offs = pattern_offsets(p, data);
    let wf = pattern_wf(str_bytes(p));
    &&& (!wf ==> (r matches Err(Error::PatternScanner(q)) && q@ == p))
    &&& (wf && offs.len() == 0 ==> (r matches Err(Error::NotFound(n)) && n@ == name))
    &&& (wf && offs.len() > 0 && !all_resolvable(sections, offs) ==> (r matches Err(
        Error::AddressResolutionFailed(o),
    ) && is_first_unresolvable(sections, offs, o as int)))
    &&& (wf && offs.len() == 1 && all_resolvable(sections, offs) ==> (r matches Ok(m) && m.0 as int
        == offs[0] && m.1 as int == resolve_spec(image_base, sections, offs[0])))
    &&& (wf && offs.len() > 1 && all_resolvable(sections, offs) && allow_multiple_matches ==> (
    r matches Ok(m) && m.0 as int == offs[0] && m.1 as int == resolve_spec(
        image_base,
        sections,
        offs[0],
    )))
    &&& (wf && offs.len() > 1 && all_resolvable(sections, offs) && !allow_multiple_matches ==> (
    r matches Err(Error::TooManyMatches(n)) && n@ == name))
}

/// Scan one pattern and resolve every match to an address: the full
/// candidate list a caller surfaces when a lookup is ambiguous.
pub fn find_all_pattern(
    image_base: usize,
    sections: &[Section],
    data: &[u8],
    pattern: &str,
    name: &str,
) -> (r: Result<Vec<(usize, usize)>, Error>)
    requires
        !is_blank(str_bytes(pattern@)),
        resolvable_bound_ok(image_base as int, sections@),
    ensures
        ({
            let offs = pattern_offsets(pattern@, data@);
            let wf = pattern_wf(str_bytes(pattern@));
            &&& (!wf ==> (r matches Err(Error::PatternScanner(q)) && q@ == pattern@))
            &&& (wf && offs.len() == 0 ==> (r matches Err(Error::NotFound(n)) && n@ == name@))
            &&& (wf && offs.len() > 0 && !all_resolvable(sections@, offs) ==> (r matches Err(
                Error::AddressResolutionFailed(o),
            ) && is_first_unresolvable(sections@, offs, o as int)))
            &&& (wf && offs.len() > 0 && all_resolvable(sections@, offs) ==> (r matches Ok(v)
                && resolved_matches(image_base as int, sections@, offs, v@)))
        }),
{
    let ghost offs = pattern_offsets(pattern@, data@);
    if !check_pattern(pattern) {
        proof {
            crate::pattern::lemma_tokenize_blank(str_bytes(pattern@));
        }
        return Err(Error::PatternScanner(pattern.to_owned()));
    }
    let items = scan_all(data, pattern);
    proof {
        assert(items@.map_values(|x: usize| x as int).len() == offs.len());
    }
    if items.len() == 0 {
        return Err(Error::NotFound(name.to_owned()));
    }
    let n = items.len();
    let mut output: Vec<(usize, usize)> = Vec::new();
    let mut k: usize = 0;
    while k < n
        invariant
            n == items@.len(),
            0 <= k <= n,
            pattern_wf(str_bytes(pattern@)),
            offs == pattern_offsets(pattern@, data@),
            items@.map_values(|x: usize| x as int) == offs,
            resolvable_bound_ok(image_base as int, sections@),
            output@.len() == k,
            forall|j: int| 0 <= j < k ==> resolvable(sections@, offs[j]),
            forall|j: int|
                0 <= j < k ==> (#[trigger] output@[j]).0 as int == offs[j] && output@[j].1 as int
                    == resolve_spec(image_base as int, sections@, offs[j]),
        decreases n - k,
    {
        let off = items[k];
        proof {
            assert(offs[k as int] == items@[k as int] as int);
        }
        match resolve_symbol(image_base, sections, off) {
            None => {
                proof {
                    assert(offs[k as int] == off as int);
                    assert(!all_resolvable(sections@, offs)) by {
                        assert(!resolvable(sections@, offs[k as int]));
                    }
                    assert(is_first_unresolvable(sections@, offs, off as int)) by {
                        assert(0 <= k && (k as int) < offs.len() && offs[k as int] == off as int
                            && !resolvable(sections@, off as int) && (forall|j: int|
                            0 <= j < k as int ==> resolvable(sections@, offs[j])));
                    }
                }
                return Err(Error::AddressResolutionFailed(off));
            },
            Some(addr) => {
                output.push((off, addr));
            },
        }
        k = k + 1;
    }
    Ok(output)
}

/// Scan one pattern: a single match, or the first of several when the
/// caller tolerates that; more than one match is otherwise an error.
fn find_pattern(
    image_base: usize,
    sections: &[Section],
    data: &[u8],
    pattern: &str,
    name: &str,
    allow_multiple_matches: bool,
) -> (r: Result<(usize, usize), Error>)
    requires
        !is_blank(str_bytes(pattern@)),
        resolvable_bound_ok(image_base as int, sections@),
    ensures
        locate_one_post(
            image_base as int,
            sections@,
            data@,
            pattern@,
            name@,
            allow_multiple_matches,
            r,
        ),
{
    let items = match find_all_pattern(image_base, sections, data, pattern, name) {
        Ok(items) => items,
        Err(e) => {
            return Err(e);
        },
    };
    if items.len() == 1 {
        let m = items[0];
        return Ok(m);
    }
    if allow_multiple_matches {
        let m = items[0];
        return Ok(m);
    }
    Err(Error::TooManyMatches(name.to_owned()))
}

/// A pattern on which the fallback walk stops: malformed, or matching
/// at least once.
pub open spec fn pattern_decisive(p: Seq<char>, d: Seq<u8>) -> bool {
    !pattern_wf(str_bytes(p)) || pattern_offsets(p, d).len() > 0
}

/// Index of the first decisive pattern, or the list's length when the
/// walk runs off the end.
pub open spec fn first_decisive(ps: Seq<Seq<char>>, d: Seq<u8>) -> int
    decreases ps.len(),
{
    if ps.len() == 0 {
        0
    } else if pattern_decisive(ps[0], d) {
        0
    } else {
        1 + first_decisive(ps.drop_first(), d)
    }
}

pub proof fn lemma_first_decisive(ps: Seq<Seq<char>>, d: Seq<u8>)
    ensures
        0 <= first_decisive(ps, d) <= ps.len(),
        first_decisive(ps, d) < ps.len() ==> pattern_decisive(ps[first_decisive(ps, d)], d),
        forall|j: int| 0 <= j < first_decisive(ps, d) ==> !pattern_decisive(ps[j], d),
    decreases ps.len(),
{
    if ps.len() == 0 {
    } else if pattern_decisive(ps[0], d) {
    } else {
        lemma_first_decisive(ps.drop_first(), d);
        let fd = first_decisive(ps.drop_first(), d);
        if fd < ps.drop_first().len() {
            assert(ps.drop_first()[fd] == ps[fd + 1]);
        }
        assert forall|j: int| 0 <= j < first_decisive(ps, d) implies !pattern_decisive(
            ps[j],
            d,
        ) by {
            if j >= 1 {
                assert(ps.drop_first()[j - 1] == ps[j]);
            }
        }
    }
}

/// Try each fallback pattern in listed order; a pattern with no match is
/// skipped, any other outcome is final.
fn find_patterns(
    image_base: usize,
    sections: &[Section],
    data: &[u8],
    patterns: &[String],
    name: &str,
    allow_multiple_matches: bool,
) -> (r: Result<(usize, usize), Error>)
    requires
        forall|k: int|
            0 <= k < patterns@.len() ==> !is_blank(str_bytes((#[trigger] patterns@[k])@)),
        resolvable_bound_ok(image_base as int, sections@),
    ensures
        ({
            let ps = patterns@.map_values(|p: String| p@);
            let fd = first_decisive(ps, data@);
            &&& (fd == ps.len() ==> (r matches Err(Error::NotFound(n)) && n@ == name@))
            &&& (fd < ps.len() ==> locate_one_post(
                image_base as int,
                sections@,
                data@,
                ps[fd],
                name@,
                allow_multiple_matches,
                r,
            ))
        }),
{
    let ghost ps = patterns@.map_values(|p: String| p@);
    proof {
        lemma_first_decisive(ps, data@);
    }
    let n = patterns.len();
    let mut i: usize = 0;
    while i < n
        invariant
            n == patterns@.len(),
            ps == patterns@.map_values(|p: String| p@),
            0 <= i <= n,
            forall|k: int|
                0 <= k < patterns@.len() ==> !is_blank(str_bytes((#[trigger] patterns@[k])@)),
            resolvable_bound_ok(image_base as int, sections@),
            forall|j: int| 0 <= j < i ==> !pattern_decisive(ps[j], data@),
        decreases n - i,
    {
        let result = find_pattern(
            image_base,
            sections,
            data,
            patterns[i].as_str(),
            name,
            allow_multiple_matches,
        );
        proof {
            assert(ps[i as int] == patterns@[i as int]@);
            lemma_first_decisive(ps, data@);
        }
        match result {
            Ok(m) => {
                return Ok(m);
            },
            Err(Error::NotFound(_)) => {},
            Err(e) => {
                return Err(e);
            },
        }
        i = i + 1;
    }
    proof {
        lemma_first_decisive(ps, data@);
    }
    Err(Error::NotFound(name.to_owned()))
}

/// A pattern on which collecting all fallback matches aborts: malformed,
/// or matching somewhere no section covers.
pub open spec fn pattern_aborts(sections: Seq<Section>, p: Seq<char>, d: Seq<u8>) -> bool {
    ||| !pattern_wf(str_bytes(p))
    ||| (pattern_offsets(p, d).len() > 0 && !all_resolvable(sections, pattern_offsets(p, d)))
}

/// Index of the first aborting pattern, or the list's length.
pub open spec fn first_abort(sections: Seq<Section>, ps: Seq<Seq<char>>, d: Seq<u8>) -> int
    decreases ps.len(),
{
    if ps.len() == 0 {
        0
    } else if pattern_aborts(sections, ps[0], d) {
        0
    } else {
        1 + first_abort(sections, ps.drop_first(), d)
    }
}

pub proof fn lemma_first_abort(sections: Seq<Section>, ps: Seq<Seq<char>>, d: Seq<u8>)
    ensures
        0 <= first_abort(sections, ps, d) <= ps.len(),
        first_abort(sections, ps, d) < ps.len() ==> pattern_aborts(
            sections,
            ps[first_abort(sections, ps, d)],
            d,
        ),
        forall|j: int| 0 <= j < first_abort(sections, ps, d) ==> !pattern_aborts(sections, ps[j], d),
    decreases ps.len(),
{
    if ps.len() == 0 {
    } else if pattern_aborts(sections, ps[0], d) {
    } else {
        lemma_first_abort(sections, ps.drop_first(), d);
        let fa = first_abort(sections, ps.drop_first(), d);
        if fa < ps.drop_first().len() {
            assert(ps.drop_first()[fa] == ps[fa + 1]);
        }
        assert forall|j: int| 0 <= j < first_abort(sections, ps, d) implies !pattern_aborts(
            sections,
            ps[j],
            d,
        ) by {
            if j >= 1 {
                assert(ps.drop_first()[j - 1] == ps[j]);
            }
        }
    }
}

/// Scan every fallback pattern independently, collecting all matches of
/// each pattern that matched at all, keyed by the pattern's position.
fn find_all_patterns(
    image_base: usize,
    sections: &[Section],
    data: &[u8],
    patterns: &[String],
    name: &str,
) -> (r: Result<HashMap<usize, Vec<(usize, usize)>>, Error>)
    requires
        forall|k: int|
            0 <= k < patterns@.len() ==> !is_blank(str_bytes((#[trigger] patterns@[k])@)),
        resolvable_bound_ok(image_base as int, sections@),
    ensures
        ({
            let ps = patterns@.map_values(|p: String| p@);
            let fa = first_abort(sections@, ps, data@);
            &&& (fa == ps.len() && (forall|k: int|
                0 <= k < ps.len() ==> pattern_offsets(#[trigger] ps[k], data@).len() == 0) ==> (
            r matches Err(Error::NotFound(n)) && n@ == name@))
            &&& (fa == ps.len() && (exists|k: int|
                0 <= k < ps.len() && pattern_offsets(#[trigger] ps[k], data@).len() > 0) ==> (
            r matches Ok(m) && {
                &&& forall|k: int|
                    0 <= k < ps.len() ==> (m@.contains_key(k as usize) <==> pattern_offsets(
                        #[trigger] ps[k],
                        data@,
                    ).len() > 0)
                &&& forall|k: int|
                    0 <= k < ps.len() && m@.contains_key(k as usize) ==> resolved_matches(
                        image_base as int,
                        sections@,
                        pattern_offsets(#[trigger] ps[k], data@),
                        m@[k as usize]@,
                    )
                &&& forall|k: usize| m@.contains_key(k) ==> k < ps.len()
            }))
            &&& (fa < ps.len() && !pattern_wf(str_bytes(ps[fa])) ==> (r matches Err(
                Error::PatternScanner(q),
            ) && q@ == ps[fa]))
            &&& (fa < ps.len() && pattern_wf(str_bytes(ps[fa])) ==> (r matches Err(
                Error::AddressResolutionFailed(o),
            ) && is_first_unresolvable(sections@, pattern_offsets(ps[fa], data@), o as int)))
        }),
{
    let ghost ps = patterns@.map_values(|p: String| p@);
    proof {
        lemma_first_abort(sections@, ps, data@);
    }
    let mut output: HashMap<usize, Vec<(usize, usize)>> = HashMap::new();
    let mut found_any = false;
    let n = patterns.len();
    let mut i: usize = 0;
    while i < n
        invariant
            n == patterns@.len(),
            ps == patterns@.map_values(|p: String| p@),
            0 <= i <= n,
            forall|k: int|
                0 <= k < patterns@.len() ==> !is_blank(str_bytes((#[trigger] patterns@[k])@)),
            resolvable_bound_ok(image_base as int, sections@),
            forall|j: int| 0 <= j < i ==> !pattern_aborts(sections@, ps[j], data@),
            found_any == exists|j: int|
                0 <= j < i && pattern_offsets(#[trigger] ps[j], data@).len() > 0,
            forall|k: int|
                0 <= k < i ==> (output@.contains_key(k as usize) <==> pattern_offsets(
                    #[trigger] ps[k],
                    data@,
                ).len() > 0),
            forall|k: int|
                0 <= k < i && output@.contains_key(k as usize) ==> resolved_matches(
                    image_base as int,
                    sections@,
                    pattern_offsets(#[trigger] ps[k], data@),
                    output@[k as usize]@,
                ),
            forall|k: usize| output@.contains_key(k) ==> k < i,
        decreases n - i,
    {
        let result = find_all_pattern(image_base, sections, data, patterns[i].as_str(), name);
        proof {
            assert(ps[i as int] == patterns@[i as int]@);
            lemma_first_abort(sections@, ps, data@);
        }
        match result {
            Ok(v) => {
                output.insert(i, v);
                found_any = true;
            },
            Err(Error::NotFound(_)) => {},
            Err(e) => {
                return Err(e);
            },
        }
        i = i + 1;
    }
    proof {
        lemma_first_abort(sections@, ps, data@);
    }
    if found_any {
        Ok(output)
    } else {
        Err(Error::NotFound(name.to_owned()))
    }
}

/// A named lookup: one most-specific pattern, an ordered list of fallback
/// patterns, and the flags governing ambiguity and reporting.
pub struct OffsetLocator {
    pub name: String,
    pub partial_match: Vec<String>,
    pub full_match: String,
    pub skip_offset_print: bool,
    pub allow_multiple_matches: bool,
}

impl OffsetLocator {
    /// Resolve the lookup: try the full pattern first; when it matches
    /// nowhere, try each fallback pattern in listed order. Returns the
    /// matched file offset, its resolved address, and whether the full
    /// pattern was the one that matched.
    pub fn find_offset(
        &self,
        image_base: usize,
        sections: &[Section],
        executable: &[u8],
    ) -> (r: Result<(usize, usize, bool), Error>)
        requires
            !is_blank(str_bytes(self.full_match@)),
            forall|k: int|
                0 <= k < self.partial_match@.len() ==> !is_blank(
                    str_bytes((#[trigger] self.partial_match@[k])@),
                ),
            resolvable_bound_ok(image_base as int, sections@),
        ensures
            ({
                let full = self.full_match@;
                let ps = self.partial_match@.map_values(|p: String| p@);
                let offs = pattern_offsets(full, executable@);
                let wf = pattern_wf(str_bytes(full));
                let base = image_base as int;
                let fd = first_decisive(ps, executable@);
                &&& (!wf ==> (r matches Err(Error::PatternScanner(q)) && q@ == full))
                &&& (wf && offs.len() == 1 && all_resolvable(sections@, offs) ==> (r matches Ok(m)
                    && m.0 as int == offs[0] && m.1 as int == resolve_spec(base, sections@, offs[0])
                    && m.2 == true))
                &&& (wf && offs.len() > 1 && all_resolvable(sections@, offs)
                    && self.allow_multiple_matches ==> (r matches Ok(m) && m.0 as int == offs[0]
                    && m.1 as int == resolve_spec(base, sections@, offs[0]) && m.2 == true))
                &&& (wf && offs.len() > 1 && all_resolvable(sections@, offs)
                    && !self.allow_multiple_matches ==> (r matches Err(Error::TooManyMatches(n))
                    && n@ == self.name@))
                &&& (wf && offs.len() > 0 && !all_resolvable(sections@, offs) ==> (r matches Err(
                    Error::AddressResolutionFailed(o),
                ) && is_first_unresolvable(sections@, offs, o as int)))
                &&& (wf && offs.len() == 0 && fd == ps.len() ==> (r matches Err(Error::NotFound(n))
                    && n@ == self.name@))
                &&& (wf && offs.len() == 0 && fd < ps.len() ==> ({
                    let p = ps[fd];
                    let poffs = pattern_offsets(p, executable@);
                    let pwf = pattern_wf(str_bytes(p));
                    &&& (!pwf ==> (r matches Err(Error::PatternScanner(q)) && q@ == p))
                    &&& (pwf && poffs.len() == 1 && all_resolvable(sections@, poffs) ==> (
                    r matches Ok(m) && m.0 as int == poffs[0] && m.1 as int == resolve_spec(
                        base,
                        sections@,
                        poffs[0],
                    ) && m.2 == false))
                    &&& (pwf && poffs.len() > 1 && all_resolvable(sections@, poffs)
                        && self.allow_multiple_matches ==> (r matches Ok(m) && m.0 as int
                        == poffs[0] && m.1 as int == resolve_spec(base, sections@, poffs[0]) && m.2
                        == false))
                    &&& (pwf && poffs.len() > 1 && all_resolvable(sections@, poffs)
                        && !self.allow_multiple_matches ==> (r matches Err(Error::TooManyMatches(n))
                        && n@ == self.name@))
                    &&& (pwf && poffs.len() > 0 && !all_resolvable(sections@, poffs) ==> (
                    r matches Err(Error::AddressResolutionFailed(o)) && is_first_unresolvable(
                        sections@,
                        poffs,
                        o as int,
                    )))
                }))
            }),
    {
        match find_pattern(
            image_base,
            sections,
            executable,
            self.full_match.as_str(),
            self.name.as_str(),
            self.allow_multiple_matches,
        ) {
            Ok(m) => Ok((m.0, m.1, true)),
            Err(Error::NotFound(_)) => {
                match find_patterns(
                    image_base,
                    sections,
                    executable,
                    self.partial_match.as_slice(),
                    self.name.as_str(),
                    self.allow_multiple_matches,
                ) {
                    Ok(m) => Ok((m.0, m.1, false)),
                    Err(e) => Err(e),
                }
            },
            Err(e) => Err(e),
        }
    }

    /// Scan every fallback pattern independently, not stopping at the
    /// first success, and collect all matches of each pattern that
    /// matched, keyed by the pattern's position in the fallback list.
    pub fn find_all_partial_only(
        &self,
        image_base: usize,
        sections: &[Section],
        executable: &[u8],
    ) -> (r: Result<HashMap<usize, Vec<(usize, usize)>>, Error>)
        requires
            forall|k: int|
                0 <= k < self.partial_match@.len() ==> !is_blank(
                    str_bytes((#[trigger] self.partial_match@[k])@),
                ),
            resolvable_bound_ok(image_base as int, sections@),
        ensures
            ({
                let ps = self.partial_match@.map_values(|p: String| p@);
                let fa = first_abort(sections@, ps, executable@);
                &&& (fa == ps.len() && (forall|k: int|
                    0 <= k < ps.len() ==> pattern_offsets(#[trigger] ps[k], executable@).len()
                        == 0) ==> (r matches Err(Error::NotFound(n)) && n@ == self.name@))
                &&& (fa == ps.len() && (exists|k: int|
                    0 <= k < ps.len() && pattern_offsets(#[trigger] ps[k], executable@).len() > 0)
                    ==> (r matches Ok(m) && {
                    &&& forall|k: int|
                        0 <= k < ps.len() ==> (m@.contains_key(k as usize) <==> pattern_offsets(
                            #[trigger] ps[k],
                            executable@,
                        ).len() > 0)
                    &&& forall|k: int|
                        0 <= k < ps.len() && m@.contains_key(k as usize) ==> resolved_matches(
                            image_base as int,
                            sections@,
                            pattern_offsets(#[trigger] ps[k], executable@),
                            m@[k as usize]@,
                        )
                    &&& forall|k: usize| m@.contains_key(k) ==> k < ps.len()
                }))
                &&& (fa < ps.len() && !pattern_wf(str_bytes(ps[fa])) ==> (r matches Err(
                    Error::PatternScanner(q),
                ) && q@ == ps[fa]))
                &&& (fa < ps.len() && pattern_wf(str_bytes(ps[fa])) ==> (r matches Err(
                    Error::AddressResolutionFailed(o),
                ) && is_first_unresolvable(
                    sections@,
                    pattern_offsets(ps[fa], executable@),
                    o as int,
                )))
            }),
    {
        find_all_patterns(
            image_base,
            sections,
            executable,
            self.partial_match.as_slice(),
            self.name.as_str(),
        )
    }
}

} // verus!
