//! The archive traversal engine: walks an archive's entries, normalizes
//! entry names, recurses into nested archives, optionally reorders traversal
//! using a classpath-index entry, and hands accepted class entries to the
//! extractor; results flow into the report aggregator.

use vstd::prelude::*;
use vstd::utf8::{valid_utf8, decode_utf8};
use crate::classfile;
use crate::classfile::spec_extract;
use crate::errors::ScanError;
use crate::evaluator::NameFilter;
use crate::strutil;
use crate::strutil::{spec_ends_with, spec_starts_with, spec_strip_prefix};
use crate::visitor::{ClassSource, EnumVisitor, ReportState, SourceView, WarningView,
    record_state_step, distinct_classes};
use crate::zipio;
use crate::zipio::{EntryView, archive_entries, zip_parse};

verus! {

/// How many levels of archive nesting the traversal will enter.
pub const MAX_NESTING: u32 = 64;

/// The well-known prefix under which a packaged application keeps its
/// unpacked classes; stripped from entry names at root provenance only.
pub open spec fn classes_prefix() -> Seq<char> {
    "BOOT-INF/classes/"@
}

/// The well-known path of the classpath-index entry inside a root archive.
pub open spec fn index_entry_name() -> Seq<char> {
    "BOOT-INF/classpath.idx"@
}

/// The name an entry is classified and filtered under: at root provenance
/// the classes-root prefix is stripped, elsewhere the raw name is kept.
pub open spec fn entry_display_name(name: Seq<char>, root: bool) -> Seq<char> {
    if root {
        spec_strip_prefix(name, classes_prefix())
    } else {
        name
    }
}

/// The first entry of `entries`, at or after `i`, whose name is `name`;
/// an entry whose metadata cannot be read stops the search with an error,
/// since the search reads each name in turn.
pub open spec fn find_entry_from(
    entries: Seq<EntryView>,
    name: Seq<char>,
    i: int,
) -> Result<Option<int>, ScanError>
    decreases entries.len() - i,
{
    if i < 0 || i >= entries.len() {
        Ok(None)
    } else if !entries[i].meta_ok {
        Err(ScanError::ArchiveFormat)
    } else if entries[i].name == name {
        Ok(Some(i))
    } else {
        find_entry_from(entries, name, i + 1)
    }
}

/// The first entry of `entries` whose name is `name`.
pub open spec fn find_entry(entries: Seq<EntryView>, name: Seq<char>) -> Result<
    Option<int>,
    ScanError,
> {
    find_entry_from(entries, name, 0)
}

/// The position of the first line break at or after `i`, or the end of the
/// content.
pub open spec fn line_end(content: Seq<u8>, i: int) -> int
    decreases content.len() - i,
{
    if i < 0 || i >= content.len() {
        content.len() as int
    } else if content[i] == 0x0a {
        i
    } else {
        line_end(content, i + 1)
    }
}

/// What one classpath-index line holds: `None` for a malformed line,
/// `Some(None)` for a blank line, and `Some(Some(name))` for a listed name.
/// A line is `- "<name>"`, with an optional trailing carriage return.
pub open spec fn parse_index_line(line: Seq<u8>) -> Option<Option<Seq<char>>> {
    let l = if line.len() > 0 && line.last() == 0x0d {
        line.drop_last()
    } else {
        line
    };
    if l.len() == 0 {
        Some(None)
    } else if l.len() >= 4 && l[0] == 0x2d && l[1] == 0x20 && l[2] == 0x22 && l[l.len()
        - 1] == 0x22 {
        let mid = l.subrange(3, l.len() - 1);
        if valid_utf8(mid) {
            Some(Some(decode_utf8(mid)))
        } else {
            None
        }
    } else {
        None
    }
}

/// The names the classpath-index content lists from position `i` on, in
/// order, or `None` if some line is malformed.
pub open spec fn parse_index_from(content: Seq<u8>, i: int) -> Option<Seq<Seq<char>>>
    decreases content.len() - i,
{
    if i < 0 || i >= content.len() {
        Some(Seq::empty())
    } else {
        let j0 = line_end(content, i);
        let j = if j0 < i {
            i
        } else if j0 > content.len() {
            content.len() as int
        } else {
            j0
        };
        let next = if j < content.len() {
            j + 1
        } else {
            j
        };
        match parse_index_line(content.subrange(i, j)) {
            None => None,
            Some(item) => match parse_index_from(content, next) {
                None => None,
                Some(rest) => match item {
                    None => Some(rest),
                    Some(name) => Some(seq![name] + rest),
                },
            },
        }
    }
}

/// The ordered names the classpath-index content lists, top to bottom, or
/// `None` if some line is malformed.
pub open spec fn parse_index(content: Seq<u8>) -> Option<Seq<Seq<char>>> {
    parse_index_from(content, 0)
}

/// At root provenance an entry whose name carries the classes-root prefix is
/// classified and filtered under the stripped name; a name without the
/// prefix, and every name at nested provenance, is kept as it is.
pub proof fn lemma_classes_prefix_stripping(name: Seq<char>)
    ensures
        spec_starts_with(name, classes_prefix()) ==> entry_display_name(name, true)
            == name.subrange(classes_prefix().len() as int, name.len() as int),
        !spec_starts_with(name, classes_prefix()) ==> entry_display_name(name, true) == name,
        entry_display_name(name, false) == name,
{
}

/// What processing one entry does to the aggregator state: an unreadable
/// entry is a fatal archive error; directories are skipped; a class entry is
/// filtered under its display name and, when accepted, extracted and
/// recorded; a nested archive is scanned under its own raw name as
/// provenance; anything else is ignored.
pub open spec fn process_entry_m(
    e: EntryView,
    prov: SourceView,
    filter: NameFilter,
    st: ReportState,
    fuel: nat,
) -> Result<ReportState, ScanError>
    decreases fuel, 1int, 0int,
{
    if !e.meta_ok {
        Err(ScanError::ArchiveFormat)
    } else if !e.is_file {
        Ok(st)
    } else {
        let disp = entry_display_name(e.name, prov is Root);
        if spec_ends_with(disp, ".class"@) {
            match filter.spec_accepts(disp) {
                None => Err(ScanError::InvalidPattern),
                Some(false) => Ok(st),
                Some(true) => {
                    if !e.data_ok {
                        Err(ScanError::ArchiveFormat)
                    } else {
                        match spec_extract(e.data) {
                            Err(ce) => Err(ScanError::Classfile(ce)),
                            Ok(None) => Ok(st),
                            Ok(Some(info)) => Ok(record_state_step(st, info, prov)),
                        }
                    }
                },
            }
        } else if spec_ends_with(disp, ".jar"@) {
            if !e.data_ok {
                Err(ScanError::ArchiveFormat)
            } else if fuel == 0 {
                Err(ScanError::NestingTooDeep)
            } else {
                scan_archive_m(e.data, SourceView::NestedJar(e.name), filter, st, (fuel
                    - 1) as nat)
            }
        } else {
            Ok(st)
        }
    }
}

/// Process every entry of `entries` from `i` on, in archive order.
pub open spec fn scan_all_m(
    entries: Seq<EntryView>,
    i: int,
    prov: SourceView,
    filter: NameFilter,
    st: ReportState,
    fuel: nat,
) -> Result<ReportState, ScanError>
    decreases fuel, 2int, entries.len() - i,
{
    if i < 0 || i >= entries.len() {
        Ok(st)
    } else {
        match process_entry_m(entries[i], prov, filter, st, fuel) {
            Err(e) => Err(e),
            Ok(st2) => scan_all_m(entries, i + 1, prov, filter, st2, fuel),
        }
    }
}

/// Ordered mode, first phase: walk the entries from `i` on, reading each
/// one's metadata, and process exactly the file entries whose raw name
/// carries the classes-root prefix, in archive order.
pub open spec fn scan_prefixed_m(
    entries: Seq<EntryView>,
    i: int,
    filter: NameFilter,
    st: ReportState,
    fuel: nat,
) -> Result<ReportState, ScanError>
    decreases fuel, 2int, entries.len() - i,
{
    if i < 0 || i >= entries.len() {
        Ok(st)
    } else if !entries[i].meta_ok {
        Err(ScanError::ArchiveFormat)
    } else if entries[i].is_file && spec_starts_with(entries[i].name, classes_prefix()) {
        match process_entry_m(entries[i], SourceView::Root, filter, st, fuel) {
            Err(e) => Err(e),
            Ok(st2) => scan_prefixed_m(entries, i + 1, filter, st2, fuel),
        }
    } else {
        scan_prefixed_m(entries, i + 1, filter, st, fuel)
    }
}

/// Ordered mode, second phase: process the entries named by the classpath
/// index, in listed order; a listed name absent from the archive is skipped
/// with a warning.
pub open spec fn scan_listed_m(
    entries: Seq<EntryView>,
    names: Seq<Seq<char>>,
    j: int,
    filter: NameFilter,
    st: ReportState,
    fuel: nat,
) -> Result<ReportState, ScanError>
    decreases fuel, 2int, names.len() - j,
{
    if j < 0 || j >= names.len() {
        Ok(st)
    } else {
        match find_entry(entries, names[j]) {
            Err(e) => Err(e),
            Ok(None) => scan_listed_m(
                entries,
                names,
                j + 1,
                filter,
                ReportState {
                    records: st.records,
                    warnings: st.warnings.push(WarningView::IndexEntryMissing(names[j])),
                },
                fuel,
            ),
            Ok(Some(i)) => match process_entry_m(entries[i], SourceView::Root, filter, st, fuel) {
                Err(e) => Err(e),
                Ok(st2) => scan_listed_m(entries, names, j + 1, filter, st2, fuel),
            },
        }
    }
}

/// What scanning the archive `bytes` does to the aggregator state. At root
/// provenance with a classpath-index entry present, traversal is ordered:
/// first the classes-root entries in archive order, then the listed entries
/// in listed order. Otherwise every entry is processed in archive order.
/// The first fatal error is the result, unchanged.
pub open spec fn scan_archive_m(
    bytes: Seq<u8>,
    prov: SourceView,
    filter: NameFilter,
    st: ReportState,
    fuel: nat,
) -> Result<ReportState, ScanError>
    decreases fuel, 3int, 0int,
{
    if fuel == 0 {
        Err(ScanError::NestingTooDeep)
    } else {
        match zip_parse(bytes) {
            None => Err(ScanError::ArchiveFormat),
            Some(entries) => {
                if prov is Root {
                    match find_entry(entries, index_entry_name()) {
                        Err(e) => Err(e),
                        Ok(Some(idx)) => match scan_prefixed_m(entries, 0, filter, st, fuel) {
                            Err(e) => Err(e),
                            Ok(st2) => {
                                if !entries[idx].data_ok {
                                    Err(ScanError::ArchiveFormat)
                                } else {
                                    match parse_index(entries[idx].data) {
                                        None => Err(ScanError::MalformedIndexLine),
                                        Some(names) => scan_listed_m(
                                            entries,
                                            names,
                                            0,
                                            filter,
                                            st2,
                                            fuel,
                                        ),
                                    }
                                }
                            },
                        },
                        Ok(None) => scan_all_m(entries, 0, prov, filter, st, fuel),
                    }
                } else {
                    scan_all_m(entries, 0, prov, filter, st, fuel)
                }
            },
        }
    }
}

/// What a whole scan of a root archive yields: the deduplicated report in
/// discovery order with its warnings, or the first fatal error.
pub open spec fn scan_report_m(bytes: Seq<u8>, filter: NameFilter) -> Result<
    ReportState,
    ScanError,
> {
    scan_archive_m(
        bytes,
        SourceView::Root,
        filter,
        ReportState { records: Seq::empty(), warnings: Seq::empty() },
        MAX_NESTING as nat,
    )
}

/// The index of the first entry named `target`, read through the archive's
/// entry metadata.
fn find_entry_x(
    z: &mut zip::read::ZipArchive<std::io::Cursor<Vec<u8>>>,
    target: &String,
) -> (r: Result<Option<usize>, ScanError>)
    ensures
        archive_entries(*final(z)) == archive_entries(*old(z)),
        (match find_entry(archive_entries(*old(z)), target@) {
            Ok(Some(i)) => r matches Ok(o) && o matches Some(ii) && ii as int == i
                && ii < archive_entries(*old(z)).len(),
            Ok(None) => r matches Ok(o) && o is None,
            Err(e) => r matches Err(e2) && e2 == e,
        }),
{
    let ghost entries = archive_entries(*z);
    let count = zipio::zip_len(&*z);
    let mut i: usize = 0;
    while i < count
        invariant
            archive_entries(*z) == entries,
            entries == archive_entries(*old(z)),
            count == entries.len(),
            0 <= i <= count,
            find_entry_from(entries, target@, 0) == find_entry_from(entries, target@, i as int),
        decreases count - i,
    {
        let m = match zipio::zip_entry_meta(z, i) {
            Err(e) => {
                return Err(e);
            },
            Ok(m) => m,
        };
        if m.name == *target {
            return Ok(Some(i));
        }
        i += 1;
    }
    Ok(None)
}

/// The names the classpath-index entry lists, top to bottom; any malformed
/// line is a fatal parse error.
#[verifier::rlimit(80)]
fn parse_index_x(content: &Vec<u8>) -> (r: Result<Vec<String>, ScanError>)
    ensures
        (match parse_index(content@) {
            Some(names) => r matches Ok(v) && v@.map_values(|s: String| s@) == names,
            None => r matches Err(e) && e == ScanError::MalformedIndexLine,
        }),
{
    let mut names: Vec<String> = Vec::new();
    let mut i: usize = 0;
    proof {
        assert(names@.map_values(|s: String| s@) =~= Seq::<Seq<char>>::empty());
        match parse_index_from(content@, 0) {
            Some(rest) => {
                assert(Seq::<Seq<char>>::empty() + rest =~= rest);
            },
            None => {},
        }
    }
    while i < content.len()
        invariant
            i <= content@.len(),
            (match parse_index_from(content@, i as int) {
                Some(rest) => parse_index(content@) == Some(
                    names@.map_values(|s: String| s@) + rest,
                ),
                None => parse_index(content@) is None,
            }),
        decreases content@.len() - i,
    {
        let ghost i0 = i as int;
        let ghost nv0 = names@.map_values(|s: String| s@);
        let mut j: usize = i;
        while j < content.len() && content[j] != 0x0a
            invariant
                i <= j <= content@.len(),
                line_end(content@, i as int) == line_end(content@, j as int),
            decreases content@.len() - j,
        {
            j += 1;
        }
        assert(line_end(content@, i as int) == j as int);
        let line: Vec<u8> = vstd::slice::slice_to_vec(
            vstd::slice::slice_subrange(content.as_slice(), i, j),
        );
        let next: usize = if j < content.len() {
            j + 1
        } else {
            j
        };
        let mut el = line.len();
        if el > 0 && line[el - 1] == 0x0d {
            el = el - 1;
        }
        let ghost l = (if line@.len() > 0 && line@.last() == 0x0d {
            line@.drop_last()
        } else {
            line@
        });
        proof {
            assert(l =~= line@.subrange(0, el as int));
        }
        let ghost mut got: Seq<Seq<char>> = Seq::empty();
        if el == 0 {
            proof {
                assert(parse_index_line(line@) == Some(None::<Seq<char>>));
            }
        } else if el >= 4 && line[0] == 0x2d && line[1] == 0x20 && line[2] == 0x22
            && line[el - 1] == 0x22 {
            let mid: Vec<u8> = vstd::slice::slice_to_vec(
                vstd::slice::slice_subrange(line.as_slice(), 3, el - 1),
            );
            proof {
                assert(mid@ =~= l.subrange(3, l.len() - 1));
            }
            match classfile::bytes_to_string(&mid) {
                None => {
                    assert(parse_index_line(line@) is None);
                    return Err(ScanError::MalformedIndexLine);
                },
                Some(s) => {
                    proof {
                        got = seq![s@];
                        assert(parse_index_line(line@) == Some(Some(decode_utf8(mid@))));
                    }
                    names.push(s);
                    proof {
                        assert(names@.map_values(|s2: String| s2@) =~= nv0 + got);
                    }
                },
            }
        } else {
            assert(parse_index_line(line@) is None);
            return Err(ScanError::MalformedIndexLine);
        }
        i = next;
        proof {
            assert(names@.map_values(|s2: String| s2@) =~= nv0 + got);
            match parse_index_from(content@, i as int) {
                Some(rest) => {
                    if got.len() == 0 {
                        assert(got + rest =~= rest);
                    }
                    assert(parse_index_from(content@, i0) == Some(got + rest));
                    assert(nv0 + (got + rest) =~= (nv0 + got) + rest);
                },
                None => {
                    assert(parse_index_from(content@, i0) is None);
                },
            }
        }
    }
    proof {
        match parse_index_from(content@, i as int) {
            Some(rest) => {
                assert(names@.map_values(|s: String| s@) + rest =~= names@.map_values(
                    |s: String| s@,
                ));
            },
            None => {},
        }
    }
    Ok(names)
}

/// Process one archive entry exactly as [`process_entry_m`] says: fail on an
/// unreadable entry, skip directories, filter and extract class entries,
/// recurse into nested archives.
fn process_entry(
    z: &mut zip::read::ZipArchive<std::io::Cursor<Vec<u8>>>,
    i: usize,
    source: &ClassSource,
    filter: &NameFilter,
    visitor: &mut EnumVisitor,
    fuel: u32,
) -> (r: Result<(), ScanError>)
    requires
        i < archive_entries(*old(z)).len(),
    ensures
        archive_entries(*final(z)) == archive_entries(*old(z)),
        (match process_entry_m(
            archive_entries(*old(z))[i as int],
            source@,
            *filter,
            old(visitor).state(),
            fuel as nat,
        ) {
            Ok(st) => r matches Ok(u) && final(visitor).state() == st,
            Err(e) => r matches Err(e2) && e2 == e,
        }),
        distinct_classes(old(visitor).report()) ==> distinct_classes(final(visitor).report()),
    decreases fuel, 0int,
{
    let ghost e = archive_entries(*z)[i as int];
    let m = match zipio::zip_entry_meta(z, i) {
        Err(er) => {
            return Err(er);
        },
        Ok(m) => m,
    };
    if !m.is_file {
        return Ok(());
    }
    let is_root = match source {
        ClassSource::Root => true,
        _ => false,
    };
    let disp: String = if is_root {
        strutil::str_strip_prefix(m.name.as_str(), "BOOT-INF/classes/")
    } else {
        m.name.clone()
    };
    assert(disp@ == entry_display_name(e.name, source@ is Root));
    if strutil::str_ends_with(disp.as_str(), ".class") {
        match filter.accepts(disp.as_str()) {
            Err(er) => Err(er),
            Ok(false) => Ok(()),
            Ok(true) => {
                let data = match zipio::zip_entry_data(z, i) {
                    Err(er) => {
                        return Err(er);
                    },
                    Ok(d) => d,
                };
                match classfile::extract_if_enum(&data) {
                    Err(ce) => Err(ScanError::Classfile(ce)),
                    Ok(None) => Ok(()),
                    Ok(Some(info)) => {
                        visitor.visit_enum(info, source);
                        Ok(())
                    },
                }
            },
        }
    } else if strutil::str_ends_with(disp.as_str(), ".jar") {
        let data = match zipio::zip_entry_data(z, i) {
            Err(er) => {
                return Err(er);
            },
            Ok(d) => d,
        };
        if fuel == 0 {
            Err(ScanError::NestingTooDeep)
        } else {
            list_zip_contents(data, &ClassSource::NestedJar(m.name), filter, visitor, fuel - 1)
        }
    } else {
        Ok(())
    }
}

/// Natural mode: process every entry of the archive, in archive order.
fn scan_all_x(
    z: &mut zip::read::ZipArchive<std::io::Cursor<Vec<u8>>>,
    source: &ClassSource,
    filter: &NameFilter,
    visitor: &mut EnumVisitor,
    fuel: u32,
) -> (r: Result<(), ScanError>)
    ensures
        archive_entries(*final(z)) == archive_entries(*old(z)),
        (match scan_all_m(
            archive_entries(*old(z)),
            0,
            source@,
            *filter,
            old(visitor).state(),
            fuel as nat,
        ) {
            Ok(st) => r matches Ok(u) && final(visitor).state() == st,
            Err(e) => r matches Err(e2) && e2 == e,
        }),
        distinct_classes(old(visitor).report()) ==> distinct_classes(final(visitor).report()),
    decreases fuel, 1int,
{
    let ghost entries = archive_entries(*z);
    let ghost st0 = visitor.state();
    let ghost rep0 = visitor.report();
    let ghost prov = source@;
    let ghost filt = *filter;
    let count = zipio::zip_len(&*z);
    let mut i: usize = 0;
    while i < count
        invariant
            archive_entries(*z) == entries,
            entries == archive_entries(*old(z)),
            st0 == old(visitor).state(),
            rep0 == old(visitor).report(),
            count == entries.len(),
            i <= count,
            prov == source@,
            filt == *filter,
            distinct_classes(rep0) ==> distinct_classes(visitor.report()),
            (match scan_all_m(entries, i as int, prov, filt, visitor.state(), fuel as nat) {
                Ok(stf) => scan_all_m(entries, 0, prov, filt, st0, fuel as nat) == Ok::<
                    _,
                    ScanError,
                >(stf),
                Err(e) => scan_all_m(entries, 0, prov, filt, st0, fuel as nat) == Err::<
                    ReportState,
                    _,
                >(e),
            }),
        decreases count - i,
    {
        let ghost stb = visitor.state();
        match process_entry(z, i, source, filter, visitor, fuel) {
            Err(er) => {
                return Err(er);
            },
            Ok(u) => {
                proof {
                    assert(scan_all_m(entries, i as int, prov, filt, stb, fuel as nat)
                        == scan_all_m(
                        entries,
                        i as int + 1,
                        prov,
                        filt,
                        visitor.state(),
                        fuel as nat,
                    ));
                }
            },
        }
        i += 1;
    }
    Ok(())
}

/// Ordered mode, first phase: process exactly the file entries whose raw
/// name carries the classes-root prefix, in archive order.
fn scan_prefixed_x(
    z: &mut zip::read::ZipArchive<std::io::Cursor<Vec<u8>>>,
    source: &ClassSource,
    filter: &NameFilter,
    visitor: &mut EnumVisitor,
    fuel: u32,
) -> (r: Result<(), ScanError>)
    requires
        source@ is Root,
    ensures
        archive_entries(*final(z)) == archive_entries(*old(z)),
        (match scan_prefixed_m(
            archive_entries(*old(z)),
            0,
            *filter,
            old(visitor).state(),
            fuel as nat,
        ) {
            Ok(st) => r matches Ok(u) && final(visitor).state() == st,
            Err(e) => r matches Err(e2) && e2 == e,
        }),
        distinct_classes(old(visitor).report()) ==> distinct_classes(final(visitor).report()),
    decreases fuel, 1int,
{
    let ghost entries = archive_entries(*z);
    let ghost st0 = visitor.state();
    let ghost rep0 = visitor.report();
    let ghost filt = *filter;
    let count = zipio::zip_len(&*z);
    let mut i: usize = 0;
    while i < count
        invariant
            archive_entries(*z) == entries,
            entries == archive_entries(*old(z)),
            st0 == old(visitor).state(),
            rep0 == old(visitor).report(),
            count == entries.len(),
            i <= count,
            SourceView::Root == source@,
            filt == *filter,
            distinct_classes(rep0) ==> distinct_classes(visitor.report()),
            (match scan_prefixed_m(entries, i as int, filt, visitor.state(), fuel as nat) {
                Ok(stf) => scan_prefixed_m(entries, 0, filt, st0, fuel as nat) == Ok::<
                    _,
                    ScanError,
                >(stf),
                Err(e) => scan_prefixed_m(entries, 0, filt, st0, fuel as nat) == Err::<
                    ReportState,
                    _,
                >(e),
            }),
        decreases count - i,
    {
        let ghost stb = visitor.state();
        let m = match zipio::zip_entry_meta(z, i) {
            Err(er) => {
                return Err(er);
            },
            Ok(m) => m,
        };
        if m.is_file && strutil::str_starts_with(m.name.as_str(), "BOOT-INF/classes/") {
            match process_entry(z, i, source, filter, visitor, fuel) {
                Err(er) => {
                    return Err(er);
                },
                Ok(u) => {
                    proof {
                        assert(scan_prefixed_m(entries, i as int, filt, stb, fuel as nat)
                            == scan_prefixed_m(
                            entries,
                            i as int + 1,
                            filt,
                            visitor.state(),
                            fuel as nat,
                        ));
                    }
                },
            }
        } else {
            proof {
                assert(scan_prefixed_m(entries, i as int, filt, stb, fuel as nat)
                    == scan_prefixed_m(entries, i as int + 1, filt, stb, fuel as nat));
            }
        }
        i += 1;
    }
    Ok(())
}

/// Ordered mode, second phase: process the entries the classpath index
/// names, in listed order; a listed name absent from the archive is skipped
/// with a warning.
fn scan_listed_x(
    z: &mut zip::read::ZipArchive<std::io::Cursor<Vec<u8>>>,
    names: &Vec<String>,
    source: &ClassSource,
    filter: &NameFilter,
    visitor: &mut EnumVisitor,
    fuel: u32,
) -> (r: Result<(), ScanError>)
    requires
        source@ is Root,
    ensures
        archive_entries(*final(z)) == archive_entries(*old(z)),
        (match scan_listed_m(
            archive_entries(*old(z)),
            names@.map_values(|s: String| s@),
            0,
            *filter,
            old(visitor).state(),
            fuel as nat,
        ) {
            Ok(st) => r matches Ok(u) && final(visitor).state() == st,
            Err(e) => r matches Err(e2) && e2 == e,
        }),
        distinct_classes(old(visitor).report()) ==> distinct_classes(final(visitor).report()),
    decreases fuel, 1int,
{
    let ghost entries = archive_entries(*z);
    let ghost st0 = visitor.state();
    let ghost rep0 = visitor.report();
    let ghost filt = *filter;
    let ghost nv = names@.map_values(|s: String| s@);
    let mut j: usize = 0;
    while j < names.len()
        invariant
            archive_entries(*z) == entries,
            entries == archive_entries(*old(z)),
            st0 == old(visitor).state(),
            rep0 == old(visitor).report(),
            j <= names@.len(),
            SourceView::Root == source@,
            filt == *filter,
            nv == names@.map_values(|s: String| s@),
            distinct_classes(rep0) ==> distinct_classes(visitor.report()),
            (match scan_listed_m(entries, nv, j as int, filt, visitor.state(), fuel as nat) {
                Ok(stf) => scan_listed_m(entries, nv, 0, filt, st0, fuel as nat) == Ok::<
                    _,
                    ScanError,
                >(stf),
                Err(e) => scan_listed_m(entries, nv, 0, filt, st0, fuel as nat) == Err::<
                    ReportState,
                    _,
                >(e),
            }),
        decreases names@.len() - j,
    {
        let ghost stb = visitor.state();
        let target = &names[j];
        assert(target@ == nv[j as int]);
        let o = match find_entry_x(z, target) {
            Err(er) => {
                return Err(er);
            },
            Ok(o) => o,
        };
        match o {
            None => {
                visitor.note_missing_entry(target);
                proof {
                    assert(scan_listed_m(entries, nv, j as int, filt, stb, fuel as nat)
                        == scan_listed_m(
                        entries,
                        nv,
                        j as int + 1,
                        filt,
                        visitor.state(),
                        fuel as nat,
                    ));
                }
            },
            Some(ei) => {
                match process_entry(z, ei, source, filter, visitor, fuel) {
                    Err(er) => {
                        return Err(er);
                    },
                    Ok(u) => {
                        proof {
                            assert(scan_listed_m(entries, nv, j as int, filt, stb, fuel as nat)
                                == scan_listed_m(
                                entries,
                                nv,
                                j as int + 1,
                                filt,
                                visitor.state(),
                                fuel as nat,
                            ));
                        }
                    },
                }
            },
        }
        j += 1;
    }
    Ok(())
}

/// Walk the archive held in `archive`: in ordered mode when a classpath
/// index is present at root provenance, in natural archive order otherwise,
/// exactly as [`scan_archive_m`] says. Results and warnings are merged into
/// `enum_visitor`; the first fatal error aborts the walk and is returned
/// unchanged.
pub fn list_zip_contents(
    archive: Vec<u8>,
    source: &ClassSource,
    class_name_evaluator: &NameFilter,
    enum_visitor: &mut EnumVisitor,
    fuel: u32,
) -> (r: Result<(), ScanError>)
    ensures
        (match scan_archive_m(
            archive@,
            source@,
            *class_name_evaluator,
            old(enum_visitor).state(),
            fuel as nat,
        ) {
            Ok(st) => r matches Ok(u) && final(enum_visitor).state() == st,
            Err(e) => r matches Err(e2) && e2 == e,
        }),
        distinct_classes(old(enum_visitor).report()) ==> distinct_classes(
            final(enum_visitor).report(),
        ),
    decreases fuel, 2int,
{
    let ghost st0 = enum_visitor.state();
    let ghost prov = source@;
    let ghost filt = *class_name_evaluator;
    let ghost bytes = archive@;
    if fuel == 0 {
        return Err(ScanError::NestingTooDeep);
    }
    let mut z = match zipio::zip_open(archive) {
        Err(er) => {
            return Err(er);
        },
        Ok(z) => z,
    };
    let ghost entries = archive_entries(z);
    let is_root = match source {
        ClassSource::Root => true,
        _ => false,
    };
    assert(is_root == (prov is Root));
    if is_root {
        let index_name: String = "BOOT-INF/classpath.idx".to_owned();
        let idx_at = match find_entry_x(&mut z, &index_name) {
            Err(er) => {
                return Err(er);
            },
            Ok(o) => o,
        };
        match idx_at {
            Some(idx) => {
                assert(find_entry(entries, index_entry_name()) == Ok::<
                    Option<int>,
                    ScanError,
                >(Some(idx as int)));
                match scan_prefixed_x(&mut z, source, class_name_evaluator, enum_visitor, fuel) {
                    Err(er) => {
                        return Err(er);
                    },
                    Ok(u) => {},
                }
                let idx_data = match zipio::zip_entry_data(&mut z, idx) {
                    Err(er) => {
                        return Err(er);
                    },
                    Ok(d) => d,
                };
                let names = match parse_index_x(&idx_data) {
                    Err(er) => {
                        return Err(er);
                    },
                    Ok(v) => v,
                };
                scan_listed_x(&mut z, &names, source, class_name_evaluator, enum_visitor, fuel)
            },
            None => {
                assert(find_entry(entries, index_entry_name()) == Ok::<
                    Option<int>,
                    ScanError,
                >(None));
                scan_all_x(&mut z, source, class_name_evaluator, enum_visitor, fuel)
            },
        }
    } else {
        scan_all_x(&mut z, source, class_name_evaluator, enum_visitor, fuel)
    }
}

/// Scan a root archive and every archive nested in it, and hand back the
/// finalized aggregator: deduplicated records in discovery order with the
/// warnings emitted along the way, exactly as [`scan_report_m`] says, or
/// the first fatal error unchanged.
pub fn scan_archive(archive: Vec<u8>, filter: &NameFilter) -> (r: Result<
    EnumVisitor,
    ScanError,
>)
    ensures
        (match scan_report_m(archive@, *filter) {
            Ok(st) => r matches Ok(v) && v.state() == st && distinct_classes(v.report()),
            Err(e) => r matches Err(e2) && e2 == e,
        }),
{
    let mut visitor = EnumVisitor::new();
    proof {
        assert(distinct_classes(Seq::<crate::visitor::RecordView>::empty()));
    }
    match list_zip_contents(archive, &ClassSource::Root, filter, &mut visitor, MAX_NESTING) {
        Ok(u) => Ok(visitor),
        Err(e) => Err(e),
    }
}

} // verus!
