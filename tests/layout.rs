use dwarf_layout::{
    decimal, dump_file, render_class, AttrValue, ContextEntry, DwarfUnits, Entry, EntryChildrenIterator,
    LayoutError, SearchFilter, Tag, Unit,
};

fn entry(
    offset: u64,
    depth: usize,
    tag: Tag,
    name: Option<&str>,
    byte_size: Option<u64>,
    member_location: Option<u64>,
    type_ref: Option<AttrValue>,
) -> Entry {
    Entry {
        offset,
        depth,
        tag,
        name: name.map(|s| s.to_string()),
        byte_size: byte_size.map(AttrValue::Udata),
        member_location: member_location.map(AttrValue::Udata),
        type_ref,
    }
}

fn root(offset: u64) -> Entry {
    entry(offset, 0, Tag::Other(0x11), Some("cu.cpp"), None, None, None)
}

fn unit(offset: u64, entries: Vec<Entry>) -> Unit {
    Unit { offset, header_size: 11, length: 200, entries }
}

fn no_filter() -> SearchFilter {
    SearchFilter { class_name: None, base_class_name: None, contained_class_name: None }
}

fn filter(name: Option<&str>, base: Option<&str>, contains: Option<&str>) -> SearchFilter {
    SearchFilter {
        class_name: name.map(|s| s.to_string()),
        base_class_name: base.map(|s| s.to_string()),
        contained_class_name: contains.map(|s| s.to_string()),
    }
}

fn point_unit(offset: u64) -> Unit {
    unit(
        offset,
        vec![
            root(11),
            entry(20, 1, Tag::BaseType, Some("int"), Some(4), None, None),
            entry(30, 1, Tag::ClassType, Some("Point"), Some(8), None, None),
            entry(40, 2, Tag::Member, Some("x"), None, Some(0), Some(AttrValue::UnitRef(20))),
            entry(50, 2, Tag::Member, Some("y"), None, Some(4), Some(AttrValue::UnitRef(20))),
        ],
    )
}

const POINT: &str = "struct Point { // 8 bytes\n    int x; // 4 bytes, 0-4\n    int y; // 4 bytes, 4-8\n};\n";

fn derived_units() -> DwarfUnits {
    DwarfUnits::new(
        vec![unit(
            0,
            vec![
                root(11),
                entry(20, 1, Tag::BaseType, Some("int"), Some(4), None, None),
                entry(30, 1, Tag::ClassType, Some("Base"), Some(8), None, None),
                entry(35, 2, Tag::Member, Some("b"), None, Some(0), Some(AttrValue::UnitRef(20))),
                entry(40, 1, Tag::ClassType, Some("Derived"), Some(16), None, None),
                entry(45, 2, Tag::Inheritance, None, None, Some(0), Some(AttrValue::UnitRef(30))),
                entry(50, 2, Tag::Member, Some("z"), None, Some(8), Some(AttrValue::UnitRef(20))),
            ],
        )],
        8,
    )
}

#[test]
fn point_layout() {
    let du = DwarfUnits::new(vec![point_unit(0)], 8);
    assert_eq!(dump_file(&du, &no_filter()), Ok(POINT.to_string()));
}

#[test]
fn derived_prints_base_before_own_member() {
    let du = derived_units();
    let out = dump_file(&du, &filter(Some("Derived"), None, None)).unwrap();
    assert_eq!(
        out,
        "struct Derived { // 16 bytes\n    Base _base_class; // 8 bytes, 0-8\n    int z; // 4 bytes, 8-12\n};\n"
    );
}

#[test]
fn base_class_filter_selects_derived_only() {
    let du = derived_units();
    let out = dump_file(&du, &filter(None, Some("Base"), None)).unwrap();
    assert!(out.starts_with("struct Derived { // 16 bytes\n"));
    assert!(!out.contains("struct Base "));
    assert_eq!(out.matches("_base_class").count(), 1);
}

#[test]
fn pointer_member_to_own_class() {
    let du = DwarfUnits::new(
        vec![unit(
            0,
            vec![
                root(11),
                entry(20, 1, Tag::ClassType, Some("Node"), Some(8), None, None),
                entry(30, 2, Tag::Member, Some("next"), None, Some(0), Some(AttrValue::UnitRef(40))),
                entry(40, 1, Tag::PointerType, None, None, None, Some(AttrValue::UnitRef(20))),
            ],
        )],
        8,
    );
    assert_eq!(
        dump_file(&du, &no_filter()),
        Ok("struct Node { // 8 bytes\n    Node* next; // 8 bytes, 0-8\n};\n".to_string())
    );
}

#[test]
fn pointer_to_pointer_and_pointer_size() {
    let du = DwarfUnits::new(
        vec![unit(
            0,
            vec![
                root(11),
                entry(20, 1, Tag::BaseType, Some("char"), Some(1), None, None),
                entry(25, 1, Tag::PointerType, None, None, None, Some(AttrValue::UnitRef(20))),
                entry(28, 1, Tag::PointerType, None, None, None, Some(AttrValue::UnitRef(25))),
                entry(30, 1, Tag::ClassType, Some("Args"), Some(4), None, None),
                entry(35, 2, Tag::Member, Some("argv"), None, Some(0), Some(AttrValue::UnitRef(28))),
            ],
        )],
        4,
    );
    assert_eq!(
        dump_file(&du, &no_filter()),
        Ok("struct Args { // 4 bytes\n    char** argv; // 4 bytes, 0-4\n};\n".to_string())
    );
}

#[test]
fn same_class_in_two_units_printed_once() {
    let du = DwarfUnits::new(vec![point_unit(0), point_unit(200)], 8);
    let out = dump_file(&du, &no_filter()).unwrap();
    assert_eq!(out, POINT);
    assert_eq!(out.matches("struct Point").count(), 1);
}

#[test]
fn two_classes_separated_by_blank_line() {
    let du = derived_units();
    let out = dump_file(&du, &no_filter()).unwrap();
    assert_eq!(
        out,
        "struct Base { // 8 bytes\n    int b; // 4 bytes, 0-4\n};\n\nstruct Derived { // 16 bytes\n    Base _base_class; // 8 bytes, 0-8\n    int z; // 4 bytes, 8-12\n};\n"
    );
}

#[test]
fn typedef_chain_prints_final_type() {
    // The chain crosses into a second unit by a `.debug_info` reference.
    let du = DwarfUnits::new(
        vec![
            unit(
                0,
                vec![
                    root(11),
                    entry(20, 1, Tag::Typedef, Some("alias_a"), None, None, Some(AttrValue::UnitRef(30))),
                    entry(30, 1, Tag::Typedef, Some("alias_b"), None, None, Some(AttrValue::DebugInfoRef(220))),
                    entry(40, 1, Tag::ClassType, Some("Foo"), Some(4), None, None),
                    entry(50, 2, Tag::Member, Some("v"), None, Some(0), Some(AttrValue::UnitRef(20))),
                ],
            ),
            unit(
                200,
                vec![
                    root(11),
                    entry(20, 1, Tag::Typedef, Some("uint32_alias"), None, None, Some(AttrValue::UnitRef(30))),
                    entry(30, 1, Tag::BaseType, Some("uint32_t"), Some(4), None, None),
                ],
            ),
        ],
        8,
    );
    assert_eq!(
        dump_file(&du, &no_filter()),
        Ok("struct Foo { // 4 bytes\n    uint32_t v; // 4 bytes, 0-4\n};\n".to_string())
    );
}

fn session_client_units() -> DwarfUnits {
    DwarfUnits::new(
        vec![unit(
            0,
            vec![
                root(11),
                entry(20, 1, Tag::ClassType, Some("Handle"), Some(8), None, None),
                entry(30, 1, Tag::ClassType, Some("Session"), Some(4), None, None),
                entry(35, 2, Tag::Member, Some("shared"), None, None, Some(AttrValue::UnitRef(20))),
                entry(40, 1, Tag::ClassType, Some("Client"), Some(8), None, None),
                entry(45, 2, Tag::Member, Some("h"), None, Some(0), Some(AttrValue::UnitRef(20))),
            ],
        )],
        8,
    )
}

#[test]
fn contains_ignores_static_members() {
    let du = session_client_units();
    let out = dump_file(&du, &filter(None, None, Some("Handle"))).unwrap();
    assert_eq!(out, "struct Client { // 8 bytes\n    Handle h; // 8 bytes, 0-8\n};\n");
    assert!(!out.contains("Session"));
}

#[test]
fn class_without_data_members() {
    let du = session_client_units();
    let out = dump_file(&du, &filter(Some("Session"), None, None)).unwrap();
    assert_eq!(out, "struct Session { // 4 bytes\n};\n");
}

#[test]
fn anonymous_type_prints_unknown_class() {
    let du = DwarfUnits::new(
        vec![unit(
            0,
            vec![
                root(11),
                entry(20, 1, Tag::StructureType, None, Some(12), None, None),
                entry(25, 2, Tag::Member, Some("inner"), None, Some(0), None),
                entry(30, 1, Tag::Typedef, None, None, None, Some(AttrValue::UnitRef(20))),
                entry(40, 1, Tag::ClassType, Some("Outer"), Some(16), None, None),
                entry(45, 2, Tag::Member, None, None, Some(4), Some(AttrValue::UnitRef(30))),
            ],
        )],
        8,
    );
    assert_eq!(
        dump_file(&du, &no_filter()),
        Ok("struct Outer { // 16 bytes\n    unknown_class unknown_name; // 12 bytes, 4-16\n};\n".to_string())
    );
}

#[test]
fn name_filter_prints_only_that_name() {
    let du = derived_units();
    let out = dump_file(&du, &filter(Some("Base"), None, None)).unwrap();
    assert_eq!(out, "struct Base { // 8 bytes\n    int b; // 4 bytes, 0-4\n};\n");
    assert_eq!(dump_file(&du, &filter(Some("Missing"), None, None)), Ok(String::new()));
}

#[test]
fn all_filters_are_the_intersection() {
    let du = derived_units();
    let all = dump_file(&du, &filter(Some("Derived"), Some("Base"), Some("int"))).unwrap();
    let by_name = dump_file(&du, &filter(Some("Derived"), None, None)).unwrap();
    let by_base = dump_file(&du, &filter(None, Some("Base"), None)).unwrap();
    let by_member = dump_file(&du, &filter(None, None, Some("int"))).unwrap();
    assert_eq!(all, by_name);
    assert_eq!(all, by_base);
    assert!(by_member.contains(&all));
    assert_eq!(dump_file(&du, &filter(Some("Base"), Some("Base"), None)), Ok(String::new()));
}

#[test]
fn accepting_filter_equals_no_filter() {
    let du = DwarfUnits::new(vec![point_unit(0), point_unit(200)], 8);
    assert_eq!(dump_file(&du, &filter(None, None, Some("int"))), dump_file(&du, &no_filter()));
}

#[test]
fn output_is_deterministic() {
    let du = derived_units();
    let f = filter(None, None, Some("int"));
    assert_eq!(dump_file(&du, &f), dump_file(&du, &f));
    assert_eq!(dump_file(&du, &no_filter()), dump_file(&derived_units(), &no_filter()));
}

#[test]
fn field_range_end_is_start_plus_size() {
    let du = DwarfUnits::new(
        vec![unit(
            0,
            vec![
                root(11),
                entry(20, 1, Tag::BaseType, Some("big"), Some(u64::MAX), None, None),
                entry(30, 1, Tag::ClassType, Some("Huge"), Some(1), None, None),
                entry(40, 2, Tag::Member, Some("m"), None, Some(10), Some(AttrValue::UnitRef(20))),
            ],
        )],
        8,
    );
    assert_eq!(
        dump_file(&du, &no_filter()),
        Ok("struct Huge { // 1 bytes\n    big m; // 18446744073709551615 bytes, 10-18446744073709551625\n};\n"
            .to_string())
    );
}

#[test]
fn children_skip_grandchildren() {
    let du = DwarfUnits::new(
        vec![unit(
            0,
            vec![
                root(11),
                entry(20, 1, Tag::ClassType, Some("A"), Some(4), None, None),
                entry(21, 2, Tag::ClassType, Some("Inner"), Some(4), None, None),
                entry(22, 3, Tag::Member, Some("deep"), None, Some(0), None),
                entry(23, 2, Tag::Member, Some("a"), None, Some(0), None),
                entry(30, 1, Tag::BaseType, Some("int"), Some(4), None, None),
            ],
        )],
        8,
    );
    let mut it = EntryChildrenIterator::new(&du, ContextEntry { unit: 0, index: 1 });
    assert_eq!(it.next(&du), Some(ContextEntry { unit: 0, index: 2 }));
    assert_eq!(it.next(&du), Some(ContextEntry { unit: 0, index: 4 }));
    assert_eq!(it.next(&du), None);
    let mut top = EntryChildrenIterator::new(&du, ContextEntry { unit: 0, index: 0 });
    assert_eq!(top.next(&du), Some(ContextEntry { unit: 0, index: 1 }));
    assert_eq!(top.next(&du), Some(ContextEntry { unit: 0, index: 5 }));
    assert_eq!(top.next(&du), None);
    let mut leaf = EntryChildrenIterator::new(&du, ContextEntry { unit: 0, index: 5 });
    assert_eq!(leaf.next(&du), None);
}

#[test]
fn entry_queries() {
    let du = derived_units();
    let derived = ContextEntry { unit: 0, index: 4 };
    let inheritance = ContextEntry { unit: 0, index: 5 };
    assert_eq!(derived.tag(&du), Tag::ClassType);
    assert_eq!(derived.size_bytes(&du), Ok(Some(16)));
    assert_eq!(derived.name(&du), Ok(Some("Derived".to_string())));
    assert_eq!(inheritance.member_location(&du), Ok(Some(0)));
    assert_eq!(inheritance.class(&du), Ok(Some(ContextEntry { unit: 0, index: 2 })));
    assert_eq!(inheritance.name(&du), Ok(None));
    assert_eq!(derived.class(&du), Ok(None));
    assert_eq!(
        render_class(&du, ContextEntry { unit: 0, index: 2 }),
        Ok("struct Base { // 8 bytes\n    int b; // 4 bytes, 0-4\n};\n".to_string())
    );
}

#[test]
fn max_chain_counts_entries() {
    let du = DwarfUnits::new(vec![point_unit(0), point_unit(200)], 8);
    assert_eq!(du.max_chain(), 10);
    assert_eq!(du.pointer_size(), 8);
    assert_eq!(du.unit_count(), 2);
}

#[test]
fn decimal_text() {
    assert_eq!(decimal(0), "0");
    assert_eq!(decimal(7), "7");
    assert_eq!(decimal(10), "10");
    assert_eq!(decimal(1234567890), "1234567890");
    assert_eq!(decimal(u128::MAX), "340282366920938463463374607431768211455");
}

fn one_class_with(member: Entry, extra: Vec<Entry>, size: Option<AttrValue>) -> DwarfUnits {
    let mut entries = vec![
        root(11),
        Entry {
            offset: 20,
            depth: 1,
            tag: Tag::ClassType,
            name: Some("C".to_string()),
            byte_size: size,
            member_location: None,
            type_ref: None,
        },
        member,
    ];
    entries.extend(extra);
    DwarfUnits::new(vec![unit(0, entries)], 8)
}

#[test]
fn error_invalid_byte_size() {
    let m = entry(30, 2, Tag::Member, Some("m"), None, Some(0), None);
    let du = one_class_with(m, vec![], Some(AttrValue::Other));
    assert_eq!(dump_file(&du, &no_filter()), Err((String::new(), LayoutError::InvalidByteSize)));
}

#[test]
fn class_without_byte_size_is_skipped() {
    let m = entry(30, 2, Tag::Member, Some("m"), None, Some(0), None);
    let du = one_class_with(m, vec![], None);
    assert_eq!(dump_file(&du, &no_filter()), Ok(String::new()));
}

#[test]
fn error_invalid_member_location() {
    let mut m = entry(30, 2, Tag::Member, Some("m"), None, None, None);
    m.member_location = Some(AttrValue::Other);
    let du = one_class_with(m, vec![], Some(AttrValue::Udata(4)));
    assert_eq!(dump_file(&du, &no_filter()), Err((String::new(), LayoutError::InvalidMemberLocation)));
}

#[test]
fn error_invalid_type_reference() {
    let m = entry(30, 2, Tag::Member, Some("m"), None, Some(0), Some(AttrValue::Udata(3)));
    let du = one_class_with(m, vec![], Some(AttrValue::Udata(4)));
    assert_eq!(dump_file(&du, &no_filter()), Err((String::new(), LayoutError::InvalidTypeReference)));
}

#[test]
fn error_unresolved_reference() {
    let m = entry(30, 2, Tag::Member, Some("m"), None, Some(0), Some(AttrValue::DebugInfoRef(5000)));
    let du = one_class_with(m, vec![], Some(AttrValue::Udata(4)));
    assert_eq!(dump_file(&du, &no_filter()), Err((String::new(), LayoutError::UnresolvedReference)));
}

#[test]
fn error_no_entry_at_offset() {
    let m = entry(30, 2, Tag::Member, Some("m"), None, Some(0), Some(AttrValue::UnitRef(99)));
    let du = one_class_with(m, vec![], Some(AttrValue::Udata(4)));
    assert_eq!(dump_file(&du, &no_filter()), Err((String::new(), LayoutError::NoEntryAtOffset)));
}

#[test]
fn error_member_without_type() {
    let m = entry(30, 2, Tag::Member, Some("m"), None, Some(0), None);
    let du = one_class_with(m, vec![], Some(AttrValue::Udata(4)));
    assert_eq!(dump_file(&du, &no_filter()), Err((String::new(), LayoutError::MissingType)));
}

#[test]
fn error_typedef_cycle() {
    let m = entry(30, 2, Tag::Member, Some("m"), None, Some(0), Some(AttrValue::UnitRef(40)));
    let t1 = entry(40, 1, Tag::Typedef, Some("t1"), None, None, Some(AttrValue::UnitRef(50)));
    let t2 = entry(50, 1, Tag::Typedef, Some("t2"), None, None, Some(AttrValue::UnitRef(40)));
    let du = one_class_with(m, vec![t1, t2], Some(AttrValue::Udata(4)));
    assert_eq!(dump_file(&du, &no_filter()), Err((String::new(), LayoutError::TypeChainTooLong)));
}

#[test]
fn error_unnamed_class() {
    let du = DwarfUnits::new(
        vec![unit(0, vec![root(11), entry(20, 1, Tag::ClassType, None, Some(4), None, None)])],
        8,
    );
    assert_eq!(dump_file(&du, &no_filter()), Err((String::new(), LayoutError::UnnamedClass)));
}

#[test]
fn base_classes_and_members_of_a_class() {
    let du = derived_units();
    let derived = ContextEntry { unit: 0, index: 4 };
    assert_eq!(derived.iter_base_classes(&du), Ok(vec![ContextEntry { unit: 0, index: 2 }]));
    assert_eq!(derived.iter_class_members(&du), Ok(vec![ContextEntry { unit: 0, index: 6 }]));
    let base = ContextEntry { unit: 0, index: 2 };
    assert_eq!(base.iter_base_classes(&du), Ok(vec![]));
}

#[test]
fn static_member_is_no_data_member() {
    let du = session_client_units();
    let session = ContextEntry { unit: 0, index: 2 };
    let client = ContextEntry { unit: 0, index: 4 };
    assert_eq!(session.iter_class_members(&du), Ok(vec![]));
    assert_eq!(client.iter_class_members(&du), Ok(vec![ContextEntry { unit: 0, index: 5 }]));
}

#[test]
fn member_list_reports_bad_location() {
    let mut m = entry(30, 2, Tag::Member, Some("m"), None, None, None);
    m.member_location = Some(AttrValue::Other);
    let du = one_class_with(m, vec![], Some(AttrValue::Udata(4)));
    let c = ContextEntry { unit: 0, index: 1 };
    assert_eq!(c.iter_class_members(&du), Err(LayoutError::InvalidMemberLocation));
}

#[test]
fn top_level_and_children_lists() {
    let du = derived_units();
    let tops = du.iter_top_level(0);
    assert_eq!(
        tops,
        vec![
            ContextEntry { unit: 0, index: 1 },
            ContextEntry { unit: 0, index: 2 },
            ContextEntry { unit: 0, index: 4 },
        ]
    );
    let empty = DwarfUnits::new(vec![unit(0, vec![])], 8);
    assert_eq!(dump_file(&empty, &no_filter()), Err((String::new(), LayoutError::MissingRootEntry)));
    let kids = ContextEntry { unit: 0, index: 4 }.iter_children(&du);
    assert_eq!(kids, vec![ContextEntry { unit: 0, index: 5 }, ContextEntry { unit: 0, index: 6 }]);
}

#[test]
fn cross_unit_reference_resolves_in_owner() {
    let du = DwarfUnits::new(
        vec![
            unit(
                0,
                vec![
                    root(11),
                    entry(20, 1, Tag::ClassType, Some("Holder"), Some(8), None, None),
                    entry(30, 2, Tag::Member, Some("w"), None, Some(0), Some(AttrValue::DebugInfoRef(230))),
                ],
            ),
            point_unit(200),
        ],
        8,
    );
    let member = ContextEntry { unit: 0, index: 2 };
    assert_eq!(member.class(&du), Ok(Some(ContextEntry { unit: 1, index: 2 })));
    // An offset inside the second unit's header belongs to no unit.
    let bad = DwarfUnits::new(
        vec![
            unit(
                0,
                vec![
                    root(11),
                    entry(20, 1, Tag::ClassType, Some("Holder"), Some(8), None, None),
                    entry(30, 2, Tag::Member, Some("w"), None, Some(0), Some(AttrValue::DebugInfoRef(205))),
                ],
            ),
            point_unit(200),
        ],
        8,
    );
    assert_eq!(member.class(&bad), Err(LayoutError::UnresolvedReference));
}

#[test]
fn output_before_fatal_error_is_kept() {
    let mut entries = point_unit(0).entries;
    entries.push(entry(60, 1, Tag::ClassType, Some("Broken"), Some(4), None, None));
    entries.push(entry(70, 2, Tag::Member, Some("m"), None, Some(0), Some(AttrValue::DebugInfoRef(5000))));
    let du = DwarfUnits::new(vec![unit(0, entries)], 8);
    assert_eq!(dump_file(&du, &no_filter()), Err((POINT.to_string(), LayoutError::UnresolvedReference)));
    // A filter that leaves the broken class out runs to the end.
    assert_eq!(dump_file(&du, &filter(Some("Point"), None, None)), Ok(POINT.to_string()));
}

#[test]
fn unit_without_root_stops_after_earlier_units() {
    let du = DwarfUnits::new(vec![point_unit(0), unit(200, vec![]), point_unit(400)], 8);
    assert_eq!(dump_file(&du, &no_filter()), Err((POINT.to_string(), LayoutError::MissingRootEntry)));
}
