//! End-to-end and component tests: classfiles are built byte by byte, and
//! archives are built with the zip crate, then run through the library.

use std::io::Write;

use enumscan::classfile::{extract_if_enum, EnumInfo};
use enumscan::errors::{ClassfileError, ScanError};
use enumscan::evaluator::{NameFilter, RegexEvaluator};
use enumscan::scan::scan_archive;
use enumscan::visitor::{ClassSource, EnumVisitor, ScanWarning};

/// A growing constant pool; `utf8` and `classref` hand back 1-based indices.
struct CpBuilder {
    bytes: Vec<u8>,
    count: u16,
}

impl CpBuilder {
    fn new() -> CpBuilder {
        CpBuilder { bytes: Vec::new(), count: 0 }
    }

    fn utf8(&mut self, s: &[u8]) -> u16 {
        self.bytes.push(1);
        self.bytes.extend_from_slice(&(s.len() as u16).to_be_bytes());
        self.bytes.extend_from_slice(s);
        self.count += 1;
        self.count
    }

    fn classref(&mut self, name_idx: u16) -> u16 {
        self.bytes.push(7);
        self.bytes.extend_from_slice(&name_idx.to_be_bytes());
        self.count += 1;
        self.count
    }
}

/// Assemble a classfile: access flags, a class named `name`, fields given as
/// (flags, name, descriptor), and annotation attributes of both visibilities
/// listing annotation type descriptors.
fn build_class(
    flags: u16,
    name: &str,
    fields: &[(u16, &str, &str)],
    vis_annos: Option<&[&str]>,
    invis_annos: Option<&[&str]>,
) -> Vec<u8> {
    let mut cp = CpBuilder::new();
    let name_utf = cp.utf8(name.as_bytes());
    let this_class = cp.classref(name_utf);
    let mut field_hdrs: Vec<(u16, u16, u16)> = Vec::new();
    for (fl, fname, fdesc) in fields {
        let ni = cp.utf8(fname.as_bytes());
        let di = cp.utf8(fdesc.as_bytes());
        field_hdrs.push((*fl, ni, di));
    }
    let mut attrs: Vec<Vec<u8>> = Vec::new();
    let specs = [
        ("RuntimeVisibleAnnotations", vis_annos),
        ("RuntimeInvisibleAnnotations", invis_annos),
    ];
    for (attr_name, annos) in specs {
        if let Some(list) = annos {
            let ani = cp.utf8(attr_name.as_bytes());
            let mut content = Vec::new();
            content.extend_from_slice(&(list.len() as u16).to_be_bytes());
            for t in list {
                let ti = cp.utf8(t.as_bytes());
                content.extend_from_slice(&ti.to_be_bytes());
                content.extend_from_slice(&0u16.to_be_bytes());
            }
            let mut attr = Vec::new();
            attr.extend_from_slice(&ani.to_be_bytes());
            attr.extend_from_slice(&(content.len() as u32).to_be_bytes());
            attr.extend_from_slice(&content);
            attrs.push(attr);
        }
    }
    let mut out = Vec::new();
    out.extend_from_slice(&0xCAFEBABEu32.to_be_bytes());
    out.extend_from_slice(&0u16.to_be_bytes());
    out.extend_from_slice(&52u16.to_be_bytes());
    out.extend_from_slice(&(cp.count + 1).to_be_bytes());
    out.extend_from_slice(&cp.bytes);
    out.extend_from_slice(&flags.to_be_bytes());
    out.extend_from_slice(&this_class.to_be_bytes());
    out.extend_from_slice(&0u16.to_be_bytes());
    out.extend_from_slice(&0u16.to_be_bytes());
    out.extend_from_slice(&(field_hdrs.len() as u16).to_be_bytes());
    for (fl, ni, di) in field_hdrs {
        out.extend_from_slice(&fl.to_be_bytes());
        out.extend_from_slice(&ni.to_be_bytes());
        out.extend_from_slice(&di.to_be_bytes());
        out.extend_from_slice(&0u16.to_be_bytes());
    }
    out.extend_from_slice(&0u16.to_be_bytes());
    out.extend_from_slice(&(attrs.len() as u16).to_be_bytes());
    for a in attrs {
        out.extend_from_slice(&a);
    }
    out
}

const MARKER: &str = "Lorg/apache/avro/specific/AvroGenerated;";

/// A simple enum classfile: public-static-final self-typed fields for each
/// member, plus a synthetic `$VALUES` array field.
fn build_enum(name: &str, members: &[&str], vis: Option<&[&str]>, invis: Option<&[&str]>) -> Vec<u8> {
    let self_desc = format!("L{};", name);
    let array_desc = format!("[L{};", name);
    let mut fields: Vec<(u16, &str, &str)> = Vec::new();
    for m in members {
        fields.push((0x4019, *m, self_desc.as_str()));
    }
    fields.push((0x1019, "$VALUES", array_desc.as_str()));
    build_class(0x4001, name, &fields, vis, invis)
}

/// A zip archive holding the given (name, payload) file entries, in order.
fn build_jar(entries: &[(&str, &[u8])]) -> Vec<u8> {
    let mut w = zip::ZipWriter::new(std::io::Cursor::new(Vec::new()));
    let opts = zip::write::SimpleFileOptions::default();
    for (name, data) in entries {
        w.start_file(*name, opts).unwrap();
        w.write_all(data).unwrap();
    }
    w.finish().unwrap().into_inner()
}

#[test]
fn non_enum_flag_skips_malformed_body() {
    // cp_count 1 means an empty pool; the bytes after the flags are garbage.
    let mut bytes = Vec::new();
    bytes.extend_from_slice(&0xCAFEBABEu32.to_be_bytes());
    bytes.extend_from_slice(&0u16.to_be_bytes());
    bytes.extend_from_slice(&52u16.to_be_bytes());
    bytes.extend_from_slice(&1u16.to_be_bytes());
    bytes.extend_from_slice(&0x0001u16.to_be_bytes());
    bytes.extend_from_slice(&[0xff, 0xff, 0xff]);
    assert_eq!(extract_if_enum(&bytes), Ok(None));
}

#[test]
fn non_enum_class_with_fields_is_skipped() {
    let bytes = build_class(0x0001, "com/foo/Plain", &[(0x0019, "X", "I")], None, None);
    assert_eq!(extract_if_enum(&bytes), Ok(None));
}

#[test]
fn enum_members_in_declaration_order_values_excluded() {
    let bytes = build_enum("com/foo/Sample", &["A", "B", "C"], None, None);
    let info = extract_if_enum(&bytes).unwrap().unwrap();
    assert_eq!(info.class_name, "com/foo/Sample");
    assert_eq!(info.members, vec!["A".to_string(), "B".to_string(), "C".to_string()]);
    assert!(!info.avro_generated);
}

#[test]
fn non_self_typed_static_field_excluded() {
    let bytes = build_class(
        0x4001,
        "com/foo/Mixed",
        &[
            (0x4019, "ONE", "Lcom/foo/Mixed;"),
            (0x0019, "LABEL", "Ljava/lang/String;"),
            (0x4019, "TWO", "Lcom/foo/Mixed;"),
        ],
        None,
        None,
    );
    let info = extract_if_enum(&bytes).unwrap().unwrap();
    assert_eq!(info.members, vec!["ONE".to_string(), "TWO".to_string()]);
}

#[test]
fn marker_in_visible_attribute() {
    let bytes = build_enum("com/foo/M1", &["A"], Some(&[MARKER]), None);
    assert!(extract_if_enum(&bytes).unwrap().unwrap().avro_generated);
}

#[test]
fn marker_in_invisible_attribute() {
    let bytes = build_enum("com/foo/M2", &["A"], None, Some(&[MARKER]));
    assert!(extract_if_enum(&bytes).unwrap().unwrap().avro_generated);
}

#[test]
fn marker_absent_from_both_attributes() {
    let bytes = build_enum(
        "com/foo/M3",
        &["A"],
        Some(&["Ljava/lang/Deprecated;"]),
        Some(&["Lcom/foo/Other;"]),
    );
    assert!(!extract_if_enum(&bytes).unwrap().unwrap().avro_generated);
}

#[test]
fn bad_magic_is_an_error() {
    let bytes = vec![0xde, 0xad, 0xbe, 0xef, 0, 0, 0, 52, 0, 1];
    assert_eq!(extract_if_enum(&bytes), Err(ClassfileError::BadMagic));
}

#[test]
fn truncated_header_is_an_error() {
    let bytes = vec![0xca, 0xfe, 0xba, 0xbe];
    assert_eq!(extract_if_enum(&bytes), Err(ClassfileError::Truncated));
}

#[test]
fn unresolved_this_class_is_an_error() {
    // this_class points at a Utf8 entry, not a Class entry.
    let mut cp = CpBuilder::new();
    let n = cp.utf8(b"com/foo/Bad");
    let mut bytes = Vec::new();
    bytes.extend_from_slice(&0xCAFEBABEu32.to_be_bytes());
    bytes.extend_from_slice(&0u16.to_be_bytes());
    bytes.extend_from_slice(&52u16.to_be_bytes());
    bytes.extend_from_slice(&(cp.count + 1).to_be_bytes());
    bytes.extend_from_slice(&cp.bytes);
    bytes.extend_from_slice(&0x4001u16.to_be_bytes());
    bytes.extend_from_slice(&n.to_be_bytes());
    bytes.extend_from_slice(&[0u8; 6]);
    assert_eq!(extract_if_enum(&bytes), Err(ClassfileError::BadPoolIndex));
}

#[test]
fn undecodable_class_name_is_an_error() {
    let mut cp = CpBuilder::new();
    let n = cp.utf8(&[0xff, 0xfe]);
    let c = cp.classref(n);
    let mut bytes = Vec::new();
    bytes.extend_from_slice(&0xCAFEBABEu32.to_be_bytes());
    bytes.extend_from_slice(&0u16.to_be_bytes());
    bytes.extend_from_slice(&52u16.to_be_bytes());
    bytes.extend_from_slice(&(cp.count + 1).to_be_bytes());
    bytes.extend_from_slice(&cp.bytes);
    bytes.extend_from_slice(&0x4001u16.to_be_bytes());
    bytes.extend_from_slice(&c.to_be_bytes());
    bytes.extend_from_slice(&[0u8; 6]);
    assert_eq!(extract_if_enum(&bytes), Err(ClassfileError::BadUtf8));
}

#[test]
fn accept_all_accepts_every_name() {
    let f = NameFilter::AcceptAll;
    assert_eq!(f.accepts("com/foo/Status"), Ok(true));
    assert_eq!(f.accepts(""), Ok(true));
    assert_eq!(f.accepts("anything/else.txt"), Ok(true));
}

#[test]
fn pattern_filter_matches_anywhere() {
    let e = RegexEvaluator::new(Some("Status$".to_string()));
    assert_eq!(e.evaluate_if_class_needed("com/foo/Status"), Ok(true));
    assert_eq!(e.evaluate_if_class_needed("com/foo/StatusHelper"), Ok(false));
}

#[test]
fn absent_pattern_rejects_all() {
    let e = RegexEvaluator::new(None);
    assert_eq!(e.evaluate_if_class_needed("com/foo/Status"), Ok(false));
}

#[test]
fn invalid_pattern_is_a_fatal_evaluation_error() {
    let e = RegexEvaluator::new(Some("(".to_string()));
    assert_eq!(e.evaluate_if_class_needed("com/foo/Status"), Err(ScanError::InvalidPattern));
}

#[test]
fn visitor_keeps_first_record_per_class() {
    let mut v = EnumVisitor::new();
    let a = EnumInfo {
        class_name: "com/dup/D".to_string(),
        members: vec!["A".to_string()],
        avro_generated: false,
    };
    let b = EnumInfo {
        class_name: "com/dup/D".to_string(),
        members: vec!["B".to_string()],
        avro_generated: true,
    };
    v.visit_enum(a, &ClassSource::Root);
    assert_eq!(v.warnings.len(), 0);
    v.visit_enum(b, &ClassSource::NestedJar("x.jar".to_string()));
    assert_eq!(v.enums.len(), 1);
    assert_eq!(v.enums[0].members, vec!["A".to_string()]);
    assert!(!v.enums[0].avro_generated);
    assert!(matches!(v.enums[0].source, ClassSource::Root));
    assert_eq!(v.warnings, vec![ScanWarning::DuplicateClass("com/dup/D".to_string())]);
}

#[test]
fn end_to_end_root_and_nested() {
    let color = build_enum("com/foo/Color", &["RED", "GREEN", "BLUE"], None, None);
    let shape = build_enum("com/bar/Shape", &["CIRCLE", "SQUARE"], Some(&[MARKER]), None);
    let lib = build_jar(&[("com/bar/Shape.class", &shape)]);
    let root = build_jar(&[("com/foo/Color.class", &color), ("lib.jar", &lib)]);
    let v = scan_archive(root, &NameFilter::AcceptAll).unwrap();
    assert_eq!(v.enums.len(), 2);
    assert_eq!(v.enums[0].class_name, "com/foo/Color");
    assert_eq!(
        v.enums[0].members,
        vec!["RED".to_string(), "GREEN".to_string(), "BLUE".to_string()]
    );
    assert!(!v.enums[0].avro_generated);
    assert!(matches!(v.enums[0].source, ClassSource::Root));
    assert_eq!(v.enums[0].source.label(), "root");
    assert_eq!(v.enums[1].class_name, "com/bar/Shape");
    assert_eq!(v.enums[1].members, vec!["CIRCLE".to_string(), "SQUARE".to_string()]);
    assert!(v.enums[1].avro_generated);
    assert_eq!(v.enums[1].source.label(), "lib.jar");
}

#[test]
fn duplicate_class_across_nested_archives_first_wins() {
    let first = build_enum("com/dup/Dup", &["ONE"], None, None);
    let second = build_enum("com/dup/Dup", &["TWO"], None, None);
    let a = build_jar(&[("com/dup/Dup.class", &first)]);
    let b = build_jar(&[("com/dup/Dup.class", &second)]);
    let root = build_jar(&[("a.jar", &a), ("b.jar", &b)]);
    let v = scan_archive(root, &NameFilter::AcceptAll).unwrap();
    assert_eq!(v.enums.len(), 1);
    assert_eq!(v.enums[0].members, vec!["ONE".to_string()]);
    assert_eq!(v.enums[0].source.label(), "a.jar");
    assert_eq!(v.warnings, vec![ScanWarning::DuplicateClass("com/dup/Dup".to_string())]);
}

#[test]
fn root_classes_prefix_is_stripped_for_filtering() {
    let color = build_enum("com/foo/Color", &["RED"], None, None);
    let root = build_jar(&[("BOOT-INF/classes/com/foo/Color.class", &color)]);
    // The pattern matches only the stripped name, not the raw entry name.
    let filter = NameFilter::Pattern(RegexEvaluator::new(Some("^com/foo/".to_string())));
    let v = scan_archive(root, &filter).unwrap();
    assert_eq!(v.enums.len(), 1);
    assert_eq!(v.enums[0].class_name, "com/foo/Color");
}

#[test]
fn nested_entry_names_are_never_stripped() {
    let color = build_enum("com/foo/Color", &["RED"], None, None);
    let nested = build_jar(&[("BOOT-INF/classes/com/foo/Color.class", &color)]);
    let root = build_jar(&[("lib.jar", &nested)]);
    // Inside the nested archive the raw name keeps its prefix, so the
    // pattern anchored at `com/` does not accept it.
    let filter = NameFilter::Pattern(RegexEvaluator::new(Some("^com/foo/".to_string())));
    let v = scan_archive(root, &filter).unwrap();
    assert_eq!(v.enums.len(), 0);
}

#[test]
fn ordered_mode_follows_classpath_index() {
    let one = build_enum("com/ord/One", &["A"], None, None);
    let two = build_enum("com/ord/Two", &["B"], None, None);
    let a = build_jar(&[("com/ord/One.class", &one)]);
    let b = build_jar(&[("com/ord/Two.class", &two)]);
    let idx = b"- \"b.jar\"\n- \"missing.jar\"\n- \"a.jar\"\n";
    let root = build_jar(&[
        ("a.jar", &a),
        ("b.jar", &b),
        ("BOOT-INF/classpath.idx", idx),
    ]);
    let v = scan_archive(root, &NameFilter::AcceptAll).unwrap();
    // Listed order, not archive order; the missing name is skipped.
    assert_eq!(v.enums.len(), 2);
    assert_eq!(v.enums[0].class_name, "com/ord/Two");
    assert_eq!(v.enums[0].source.label(), "b.jar");
    assert_eq!(v.enums[1].class_name, "com/ord/One");
    assert_eq!(v.enums[1].source.label(), "a.jar");
    assert_eq!(
        v.warnings,
        vec![ScanWarning::IndexEntryMissing("missing.jar".to_string())]
    );
}

#[test]
fn ordered_mode_processes_prefixed_entries_first() {
    let inner = build_enum("com/app/Inner", &["X"], None, None);
    let outer = build_enum("com/lib/Outer", &["Y"], None, None);
    let lib = build_jar(&[("com/lib/Outer.class", &outer)]);
    let idx = b"- \"lib.jar\"\n";
    let root = build_jar(&[
        ("lib.jar", &lib),
        ("BOOT-INF/classes/com/app/Inner.class", &inner),
        ("BOOT-INF/classpath.idx", idx),
    ]);
    let v = scan_archive(root, &NameFilter::AcceptAll).unwrap();
    assert_eq!(v.enums.len(), 2);
    assert_eq!(v.enums[0].class_name, "com/app/Inner");
    assert_eq!(v.enums[1].class_name, "com/lib/Outer");
}

#[test]
fn malformed_index_line_is_fatal_in_ordered_mode() {
    let root = build_jar(&[("BOOT-INF/classpath.idx", b"not a list line")]);
    assert_eq!(scan_archive(root, &NameFilter::AcceptAll).unwrap_err(), ScanError::MalformedIndexLine);
}

#[test]
fn unreadable_archive_is_fatal() {
    let bytes = vec![1, 2, 3, 4, 5];
    assert_eq!(
        scan_archive(bytes, &NameFilter::AcceptAll).unwrap_err(),
        ScanError::ArchiveFormat
    );
}

#[test]
fn malformed_classfile_aborts_the_scan() {
    let mut bad = build_enum("com/foo/Bad", &["A"], None, None);
    bad.truncate(bad.len() - 3);
    let root = build_jar(&[("com/foo/Bad.class", &bad)]);
    let r = scan_archive(root, &NameFilter::AcceptAll);
    assert!(matches!(r, Err(ScanError::Classfile(_))));
}

#[test]
fn marker_found_after_annotation_with_element_values() {
    // The marker annotation comes second; the first annotation carries a
    // string pair and an array pair holding a string and a nested
    // annotation, all of which must be skipped correctly to reach it.
    let mut cp = CpBuilder::new();
    let name_utf = cp.utf8(b"com/foo/Deep");
    let this_class = cp.classref(name_utf);
    let attr_name = cp.utf8(b"RuntimeVisibleAnnotations");
    let other_ty = cp.utf8(b"Lcom/foo/Other;");
    let s_val = cp.utf8(b"some text");
    let pair_name = cp.utf8(b"value");
    let marker_ty = cp.utf8(MARKER.as_bytes());
    let mut content = Vec::new();
    content.extend_from_slice(&2u16.to_be_bytes());
    // first annotation: type, two pairs
    content.extend_from_slice(&other_ty.to_be_bytes());
    content.extend_from_slice(&2u16.to_be_bytes());
    // pair 1: a string constant
    content.extend_from_slice(&pair_name.to_be_bytes());
    content.push(b's');
    content.extend_from_slice(&s_val.to_be_bytes());
    // pair 2: an array of a string and a nested annotation without pairs
    content.extend_from_slice(&pair_name.to_be_bytes());
    content.push(b'[');
    content.extend_from_slice(&2u16.to_be_bytes());
    content.push(b's');
    content.extend_from_slice(&s_val.to_be_bytes());
    content.push(b'@');
    content.extend_from_slice(&other_ty.to_be_bytes());
    content.extend_from_slice(&0u16.to_be_bytes());
    // second annotation: the marker, no pairs
    content.extend_from_slice(&marker_ty.to_be_bytes());
    content.extend_from_slice(&0u16.to_be_bytes());
    let mut bytes = Vec::new();
    bytes.extend_from_slice(&0xCAFEBABEu32.to_be_bytes());
    bytes.extend_from_slice(&0u16.to_be_bytes());
    bytes.extend_from_slice(&52u16.to_be_bytes());
    bytes.extend_from_slice(&(cp.count + 1).to_be_bytes());
    bytes.extend_from_slice(&cp.bytes);
    bytes.extend_from_slice(&0x4001u16.to_be_bytes());
    bytes.extend_from_slice(&this_class.to_be_bytes());
    bytes.extend_from_slice(&0u16.to_be_bytes());
    bytes.extend_from_slice(&0u16.to_be_bytes());
    bytes.extend_from_slice(&0u16.to_be_bytes());
    bytes.extend_from_slice(&0u16.to_be_bytes());
    bytes.extend_from_slice(&1u16.to_be_bytes());
    bytes.extend_from_slice(&attr_name.to_be_bytes());
    bytes.extend_from_slice(&(content.len() as u32).to_be_bytes());
    bytes.extend_from_slice(&content);
    let info = extract_if_enum(&bytes).unwrap().unwrap();
    assert_eq!(info.class_name, "com/foo/Deep");
    assert!(info.avro_generated);
}

#[test]
fn doubly_nested_archive_is_reached() {
    let deep = build_enum("com/deep/Deepest", &["D"], None, None);
    let inner = build_jar(&[("com/deep/Deepest.class", &deep)]);
    let outer = build_jar(&[("inner.jar", &inner)]);
    let root = build_jar(&[("outer.jar", &outer)]);
    let v = scan_archive(root, &NameFilter::AcceptAll).unwrap();
    assert_eq!(v.enums.len(), 1);
    assert_eq!(v.enums[0].class_name, "com/deep/Deepest");
    // Provenance names the archive the classfile was physically found in,
    // as that entry was named in its immediate parent.
    assert_eq!(v.enums[0].source.label(), "inner.jar");
}

#[test]
fn non_class_entries_are_ignored() {
    let root = build_jar(&[("README.txt", b"hello"), ("data.bin", &[0, 1, 2])]);
    let v = scan_archive(root, &NameFilter::AcceptAll).unwrap();
    assert_eq!(v.enums.len(), 0);
}
