//! The enum report: provenance tags, report records, and the aggregator that
//! collects extraction results from all traversal levels into one deduplicated
//! collection.

use vstd::prelude::*;
use crate::classfile::{EnumInfo, EnumInfoView};

verus! {

/// Which archive a classfile was physically found in: the top-level archive,
/// or a nested archive under the entry name it had in its immediate parent.
#[derive(Debug)]
pub enum ClassSource {
    Root,
    NestedJar(String),
}

/// The mathematical shape of a [`ClassSource`].
pub enum SourceView {
    Root,
    NestedJar(Seq<char>),
}

impl View for ClassSource {
    type V = SourceView;

    open spec fn view(&self) -> SourceView {
        match self {
            ClassSource::Root => SourceView::Root,
            ClassSource::NestedJar(name) => SourceView::NestedJar(name@),
        }
    }
}

impl ClassSource {
    /// The label the report serializes this provenance as: `"root"` for the
    /// top-level archive, otherwise the nested archive's entry name.
    pub fn label(&self) -> (s: String)
        ensures
            self@ is Root ==> s@ == "root"@,
            self@ matches SourceView::NestedJar(n) ==> s@ == n,
    {
        match self {
            ClassSource::Root => "root".to_owned(),
            ClassSource::NestedJar(name) => name.clone(),
        }
    }

    /// An owned copy of this provenance tag.
    pub fn duplicate(&self) -> (r: ClassSource)
        ensures
            r@ == self@,
    {
        match self {
            ClassSource::Root => ClassSource::Root,
            ClassSource::NestedJar(name) => ClassSource::NestedJar(name.clone()),
        }
    }
}

/// One unit of output: an enum class, its members, its marker, and where its
/// classfile bytes were found. Immutable once created.
#[derive(Debug)]
pub struct EnumVisited {
    pub class_name: String,
    pub members: Vec<String>,
    pub avro_generated: bool,
    pub source: ClassSource,
}

/// The mathematical shape of an [`EnumVisited`].
pub struct RecordView {
    pub class_name: Seq<char>,
    pub members: Seq<Seq<char>>,
    pub avro_generated: bool,
    pub source: SourceView,
}

impl View for EnumVisited {
    type V = RecordView;

    open spec fn view(&self) -> RecordView {
        RecordView {
            class_name: self.class_name@,
            members: self.members@.map_values(|m: String| m@),
            avro_generated: self.avro_generated,
            source: self.source@,
        }
    }
}

/// Does the report already hold a record for `name`?
pub open spec fn has_class(rep: Seq<RecordView>, name: Seq<char>) -> bool {
    exists|i: int| 0 <= i < rep.len() && rep[i].class_name == name
}

/// What recording one extraction result does to a report: a no-op when the
/// class name is already present (first occurrence wins), otherwise an append.
pub open spec fn record_step(
    rep: Seq<RecordView>,
    info: EnumInfoView,
    src: SourceView,
) -> Seq<RecordView> {
    if has_class(rep, info.class_name) {
        rep
    } else {
        rep.push(
            RecordView {
                class_name: info.class_name,
                members: info.members,
                avro_generated: info.avro_generated,
                source: src,
            },
        )
    }
}

/// No two records of the report share a class name.
pub open spec fn distinct_classes(rep: Seq<RecordView>) -> bool {
    forall|i: int, j: int|
        0 <= i < j < rep.len() ==> rep[i].class_name != rep[j].class_name
}

/// A warning-level diagnostic: the scan went on, but something was dropped
/// or skipped. Kept in a side-channel beside the report, so the report
/// itself stays a pure data value.
#[derive(Debug, PartialEq, Eq)]
pub enum ScanWarning {
    /// An extraction result was dropped because a record with this class
    /// name already existed; the first occurrence was kept.
    DuplicateClass(String),
    /// The classpath index listed this name, but the archive has no entry
    /// under it; the name was skipped.
    IndexEntryMissing(String),
}

/// The mathematical shape of a [`ScanWarning`].
pub enum WarningView {
    DuplicateClass(Seq<char>),
    IndexEntryMissing(Seq<char>),
}

impl View for ScanWarning {
    type V = WarningView;

    open spec fn view(&self) -> WarningView {
        match self {
            ScanWarning::DuplicateClass(n) => WarningView::DuplicateClass(n@),
            ScanWarning::IndexEntryMissing(n) => WarningView::IndexEntryMissing(n@),
        }
    }
}

/// The aggregator's whole abstract state: the report records and the
/// warnings emitted beside them.
pub struct ReportState {
    pub records: Seq<RecordView>,
    pub warnings: Seq<WarningView>,
}

/// What recording one extraction result does to the whole state: on a
/// duplicate class name the records stay as they are and a warning is
/// emitted; otherwise a record is appended and the warnings stay.
pub open spec fn record_state_step(
    st: ReportState,
    info: EnumInfoView,
    src: SourceView,
) -> ReportState {
    ReportState {
        records: record_step(st.records, info, src),
        warnings: if has_class(st.records, info.class_name) {
            st.warnings.push(WarningView::DuplicateClass(info.class_name))
        } else {
            st.warnings
        },
    }
}

/// Recording two extraction results that share a class name keeps only the
/// first: the second call leaves the report unchanged, whatever its members,
/// marker or provenance, so the surviving record under that name is the one
/// recorded first.
pub proof fn lemma_record_first_wins(
    rep: Seq<RecordView>,
    a: EnumInfoView,
    sa: SourceView,
    b: EnumInfoView,
    sb: SourceView,
)
    requires
        a.class_name == b.class_name,
    ensures
        record_step(record_step(rep, a, sa), b, sb) == record_step(rep, a, sa),
{
    let rep1 = record_step(rep, a, sa);
    if has_class(rep, a.class_name) {
        assert(has_class(rep1, b.class_name));
    } else {
        assert(rep1[rep.len() as int].class_name == a.class_name);
        assert(has_class(rep1, b.class_name));
    }
}

/// Collects every [`EnumVisited`] produced by a traversal, in discovery order,
/// with at most one record per distinct class name.
#[derive(Debug)]
pub struct EnumVisitor {
    pub enums: Vec<EnumVisited>,
    pub warnings: Vec<ScanWarning>,
}

impl EnumVisitor {
    /// The report gathered so far, as a sequence of abstract records.
    pub open spec fn report(&self) -> Seq<RecordView> {
        self.enums@.map_values(|e: EnumVisited| e@)
    }

    /// The whole abstract state: records and warnings.
    pub open spec fn state(&self) -> ReportState {
        ReportState {
            records: self.report(),
            warnings: self.warnings@.map_values(|w: ScanWarning| w@),
        }
    }

    pub fn new() -> (v: EnumVisitor)
        ensures
            v.state() == (ReportState {
                records: Seq::<RecordView>::empty(),
                warnings: Seq::<WarningView>::empty(),
            }),
    {
        let v = EnumVisitor { enums: Vec::new(), warnings: Vec::new() };
        proof {
            assert(v.report() =~= Seq::<RecordView>::empty());
            assert(v.state().warnings =~= Seq::<WarningView>::empty());
        }
        v
    }

    /// Note that a classpath-index-listed name had no entry in the archive:
    /// a warning is appended and the records are untouched.
    pub fn note_missing_entry(&mut self, name: &String)
        ensures
            final(self).state() == (ReportState {
                records: old(self).state().records,
                warnings: old(self).state().warnings.push(
                    WarningView::IndexEntryMissing(name@),
                ),
            }),
    {
        let ghost st0 = self.state();
        self.warnings.push(ScanWarning::IndexEntryMissing(name.clone()));
        proof {
            assert(self.state().warnings =~= st0.warnings.push(
                WarningView::IndexEntryMissing(name@),
            ));
        }
    }

    /// Append one extraction result to the report, unless a record with the
    /// same class name is already present; the first occurrence wins and a
    /// later one is dropped with a duplicate-class warning. Distinctness of
    /// class names is preserved.
    pub fn visit_enum(&mut self, info: EnumInfo, source: &ClassSource)
        ensures
            final(self).state() == record_state_step(old(self).state(), info@, source@),
            distinct_classes(old(self).report()) ==> distinct_classes(final(self).report()),
    {
        let ghost st0 = self.state();
        let ghost rep0 = self.report();
        let mut i: usize = 0;
        let mut seen: bool = false;
        while i < self.enums.len()
            invariant
                0 <= i <= self.enums.len(),
                self.report() == rep0,
                self.state() == st0,
                seen <==> exists|k: int| 0 <= k < i && rep0[k].class_name == info.class_name@,
            decreases self.enums.len() - i,
        {
            let same = self.enums[i].class_name == info.class_name;
            proof {
                assert(rep0[i as int] == self.enums@[i as int]@);
                if same {
                    assert(rep0[i as int].class_name == info.class_name@);
                }
            }
            if same {
                seen = true;
            }
            proof {
                if seen {
                    assert(exists|k: int|
                        0 <= k < i + 1 && rep0[k].class_name == info.class_name@);
                } else {
                    assert(forall|k: int|
                        0 <= k < i + 1 ==> rep0[k].class_name != info.class_name@);
                }
            }
            i += 1;
        }
        assert(seen <==> has_class(rep0, info@.class_name));
        if !seen {
            let source = source.duplicate();
            let rec = EnumVisited {
                class_name: info.class_name,
                members: info.members,
                avro_generated: info.avro_generated,
                source,
            };
            self.enums.push(rec);
            proof {
                assert(self.report() =~= record_step(rep0, info@, source@));
                assert(self.state().warnings =~= st0.warnings);
            }
        } else {
            let ghost dup = info@.class_name;
            self.warnings.push(ScanWarning::DuplicateClass(info.class_name));
            proof {
                assert(self.report() =~= rep0);
                assert(self.state().warnings =~= st0.warnings.push(
                    WarningView::DuplicateClass(dup),
                ));
            }
        }
    }
}

} // verus!
