use schema_dumper::image::{AccessError, Export, MemoryImage, ModuleRecord};
use schema_dumper::model::{IntWidth, SchemaModel};
use schema_dumper::named::collect_names;
use schema_dumper::walker::{locate_table, read_class, read_class_header, read_enum,
    read_field, read_fields, read_offset, read_table_header, walk, Anchor, GapCause, GapScope,
    ModulePlan, ResolutionGap, RootTable, TableKind, WalkError, MAX_ENTRIES, MAX_STRING_LEN};

const BASE: u64 = 0x7ff6_0000_0000;

/// A block of target memory under construction.
struct Block {
    bytes: Vec<u8>,
}

impl Block {
    fn new(size: usize) -> Block {
        Block { bytes: vec![0u8; size] }
    }

    fn u8_at(&mut self, at: usize, v: u8) {
        self.bytes[at] = v;
    }

    fn u32_at(&mut self, at: usize, v: u32) {
        self.bytes[at..at + 4].copy_from_slice(&v.to_le_bytes());
    }

    fn u64_at(&mut self, at: usize, v: u64) {
        self.bytes[at..at + 8].copy_from_slice(&v.to_le_bytes());
    }

    fn ptr_at(&mut self, at: usize, target: usize) {
        self.u64_at(at, BASE + target as u64);
    }

    fn text_at(&mut self, at: usize, text: &[u8]) {
        self.bytes[at..at + text.len()].copy_from_slice(text);
        self.bytes[at + text.len()] = 0;
    }

    fn class_at(&mut self, at: usize, name: usize, size: u32, count: u32, fields: usize, parent: u64) {
        self.ptr_at(at, name);
        self.u32_at(at + 0x8, size);
        self.u32_at(at + 0xc, count);
        self.u64_at(at + 0x10, if fields == 0 { 0 } else { BASE + fields as u64 });
        self.u64_at(at + 0x18, parent);
    }

    fn field_at(&mut self, at: usize, name: usize, declared: usize, offset: u32) {
        self.ptr_at(at, name);
        self.u64_at(at + 0x8, if declared == 0 { 0 } else { BASE + declared as u64 });
        self.u32_at(at + 0x10, offset);
    }

    fn table_at(&mut self, at: usize, count: u32, entries: usize) {
        self.u32_at(at, count);
        self.u64_at(at + 0x8, if entries == 0 { 0 } else { BASE + entries as u64 });
    }

    fn image(self, modules: &[&[u8]]) -> MemoryImage {
        let mut image = MemoryImage::new();
        for name in modules {
            image.record_module(ModuleRecord {
                name: name.to_vec(),
                base: BASE,
                size: self.bytes.len() as u64,
                exports: vec![
                    Export { name: b"classes".to_vec(), address: BASE + 0x10 },
                    Export { name: b"anchor".to_vec(), address: BASE },
                ],
            });
        }
        image.record_bytes(BASE, self.bytes);
        image
    }
}

/// Memory that holds one class table at 0x10 with the class `Foo`, whose one field `bar` of
/// type `int32` stands at offset 8. The pointer at 0 leads to the table.
fn foo_block() -> Block {
    let mut block = Block::new(0x400);
    block.ptr_at(0x0, 0x10);
    block.table_at(0x10, 1, 0x20);
    block.ptr_at(0x20, 0x40);
    block.class_at(0x40, 0x100, 0x10, 1, 0x80, 0);
    block.field_at(0x80, 0x110, 0x120, 8);
    block.text_at(0x100, b"Foo");
    block.text_at(0x110, b"bar");
    block.text_at(0x120, b"int32");
    block
}

fn class_table(anchor: Anchor, hops: Vec<u64>) -> RootTable {
    RootTable { kind: TableKind::Classes, anchor, hops }
}

fn plan(name: &[u8], tables: Vec<RootTable>) -> ModulePlan {
    ModulePlan { name: name.to_vec(), tables }
}

fn module_names(model: &SchemaModel) -> Vec<Vec<u8>> {
    collect_names(model.modules())
}

#[test]
fn a_field_record_is_decoded() {
    let image = foo_block().image(&[b"A"]);
    let field = read_field(&image, BASE + 0x80).unwrap();
    assert_eq!(field.name, b"bar".to_vec());
    assert_eq!(field.offset, 8);
    assert_eq!(field.declared_type, Some(b"int32".to_vec()));
}

#[test]
fn a_field_without_a_readable_type_is_still_a_field() {
    let mut block = foo_block();
    block.field_at(0x80, 0x110, 0, 8);
    block.field_at(0x98, 0x110, 0x10_0000, 12);
    let image = block.image(&[b"A"]);
    let first = read_field(&image, BASE + 0x80).unwrap();
    assert_eq!(first.declared_type, None);
    let second = read_field(&image, BASE + 0x98).unwrap();
    assert_eq!(second.offset, 12);
    assert_eq!(second.declared_type, None);
}

#[test]
fn a_field_without_a_readable_name_is_no_field() {
    let mut block = foo_block();
    block.u64_at(0x80, 0);
    let image = block.image(&[b"A"]);
    assert_eq!(
        read_field(&image, BASE + 0x80).err(),
        Some(AccessError::OutOfRange { addr: 0, len: 0 })
    );
    assert_eq!(
        read_field(&image, BASE + 0x1000).err(),
        Some(AccessError::OutOfRange { addr: BASE + 0x1000, len: 8 })
    );
}

#[test]
fn a_bad_field_record_costs_only_itself() {
    let mut block = foo_block();
    block.field_at(0x80, 0x110, 0x120, 8);
    block.field_at(0x98, 0x10_0000, 0, 12);
    block.field_at(0xb0, 0x130, 0, 16);
    block.text_at(0x130, b"baz");
    let image = block.image(&[b"A"]);
    let (fields, gaps) = read_fields(&image, 3, BASE + 0x80, 3);
    assert_eq!(collect_names(&fields), vec![b"bar".to_vec(), b"baz".to_vec()]);
    assert_eq!(fields[1].offset, 16);
    assert_eq!(
        gaps,
        vec![ResolutionGap {
            module: 3,
            scope: GapScope::Field,
            cause: GapCause::Access(AccessError::OutOfRange { addr: BASE + 0x10_0000, len: 1 }),
        }]
    );
}

#[test]
fn a_class_survives_a_bad_field_record() {
    let mut block = foo_block();
    block.class_at(0x40, 0x100, 0x10, 3, 0x80, 0);
    block.field_at(0x98, 0x10_0000, 0, 12);
    block.field_at(0xb0, 0x130, 0, 16);
    block.text_at(0x130, b"baz");
    let image = block.image(&[b"A"]);
    let (class, gaps) = read_class(&image, 0, BASE + 0x40).unwrap();
    assert_eq!(class.name, b"Foo".to_vec());
    assert_eq!(class.size, 0x10);
    assert_eq!(class.parent, None);
    assert_eq!(collect_names(&class.fields), vec![b"bar".to_vec(), b"baz".to_vec()]);
    assert_eq!(gaps.len(), 1);
    assert_eq!(gaps[0].scope, GapScope::Field);
}

#[test]
fn a_class_header_is_decoded() {
    let image = foo_block().image(&[b"A"]);
    let header = read_class_header(&image, BASE + 0x40).unwrap();
    assert_eq!(header.name, b"Foo".to_vec());
    assert_eq!(header.size, 0x10);
    assert_eq!(header.field_count, 1);
    assert_eq!(header.fields, BASE + 0x80);
    assert_eq!(header.parent, 0);
}

#[test]
fn a_class_names_its_parent() {
    let mut block = foo_block();
    block.class_at(0x40, 0x100, 0x10, 1, 0x80, BASE + 0x140);
    block.class_at(0x140, 0x180, 0x8, 0, 0, 0);
    block.text_at(0x180, b"Base");
    let image = block.image(&[b"A"]);
    let (class, gaps) = read_class(&image, 0, BASE + 0x40).unwrap();
    assert_eq!(class.parent, Some(b"Base".to_vec()));
    assert!(gaps.is_empty());
}

#[test]
fn a_parent_that_cannot_be_read_is_absent() {
    let mut block = foo_block();
    block.class_at(0x40, 0x100, 0x10, 1, 0x80, BASE + 0x20_0000);
    let image = block.image(&[b"A"]);
    let (class, gaps) = read_class(&image, 2, BASE + 0x40).unwrap();
    assert_eq!(class.parent, None);
    assert_eq!(collect_names(&class.fields), vec![b"bar".to_vec()]);
    assert_eq!(
        gaps,
        vec![ResolutionGap {
            module: 2,
            scope: GapScope::Class,
            cause: GapCause::Access(AccessError::OutOfRange { addr: BASE + 0x20_0000, len: 8 }),
        }]
    );
}

#[test]
fn a_class_with_a_bad_header_is_no_class() {
    let mut block = foo_block();
    block.class_at(0x40, 0x100, 0x10, MAX_ENTRIES + 1, 0x80, 0);
    let image = block.image(&[b"A"]);
    assert_eq!(read_class(&image, 0, BASE + 0x40).err(), Some(GapCause::TooManyEntries));
    let mut block = foo_block();
    block.class_at(0x40, 0x100, 0x10, 1, 0, 0);
    let image = block.image(&[b"A"]);
    assert_eq!(
        read_class(&image, 0, BASE + 0x40).err(),
        Some(GapCause::Access(AccessError::OutOfRange { addr: 0, len: 0 }))
    );
    let mut block = foo_block();
    block.class_at(0x40, 0x100, 0x10, 0, 0, 0);
    let image = block.image(&[b"A"]);
    let (class, gaps) = read_class(&image, 0, BASE + 0x40).unwrap();
    assert!(class.fields.is_empty());
    assert!(gaps.is_empty());
}

#[test]
fn a_long_name_is_cut_off_and_not_refused() {
    let mut block = Block::new(0x800);
    block.class_at(0x40, 0x100, 0x10, 0, 0, 0);
    let long = vec![b'n'; 400];
    block.text_at(0x100, &long);
    let image = block.image(&[b"A"]);
    let (class, _) = read_class(&image, 0, BASE + 0x40).unwrap();
    assert_eq!(MAX_STRING_LEN, 256);
    assert_eq!(class.name, vec![b'n'; 256]);
}

/// Memory that holds one enum descriptor at 0x40 with three member records at 0x80.
fn enum_block(width: u8) -> Block {
    let mut block = Block::new(0x400);
    block.table_at(0x10, 1, 0x20);
    block.ptr_at(0x20, 0x40);
    block.ptr_at(0x40, 0x100);
    block.u8_at(0x48, width);
    block.u32_at(0x4c, 3);
    block.ptr_at(0x50, 0x80);
    block.ptr_at(0x80, 0x110);
    block.u64_at(0x88, 0);
    block.ptr_at(0x90, 0x120);
    block.u64_at(0x98, 0xffff_ffff_ffff_fffe);
    block.ptr_at(0xa0, 0x110);
    block.u64_at(0xa8, 7);
    block.text_at(0x100, b"Color");
    block.text_at(0x110, b"Red");
    block.text_at(0x120, b"Green");
    block
}

#[test]
fn an_enum_is_decoded_with_its_members() {
    let image = enum_block(4).image(&[b"A"]);
    let (e, gaps) = read_enum(&image, 1, BASE + 0x40).unwrap();
    assert_eq!(e.width(), IntWidth::Four);
    assert_eq!(collect_names(e.members()), vec![b"Red".to_vec(), b"Green".to_vec()]);
    assert_eq!(e.members()[0].value, 0);
    assert_eq!(e.members()[1].value, -2);
    assert_eq!(
        gaps,
        vec![ResolutionGap { module: 1, scope: GapScope::Member, cause: GapCause::DuplicateName }]
    );
}

#[test]
fn member_values_are_read_at_the_width_of_the_enum() {
    let image = enum_block(1).image(&[b"A"]);
    let (e, _) = read_enum(&image, 0, BASE + 0x40).unwrap();
    assert_eq!(e.width(), IntWidth::One);
    assert_eq!(e.members()[1].value, -2);
    let wide = enum_block(8).image(&[b"A"]);
    let (e, _) = read_enum(&wide, 0, BASE + 0x40).unwrap();
    assert_eq!(e.members()[1].value, -2);
}

#[test]
fn an_enum_of_no_width_is_no_enum() {
    let image = enum_block(3).image(&[b"A"]);
    assert_eq!(read_enum(&image, 0, BASE + 0x40).err(), Some(GapCause::InvalidWidth));
    let image = enum_block(0).image(&[b"A"]);
    assert_eq!(read_enum(&image, 0, BASE + 0x40).err(), Some(GapCause::InvalidWidth));
}

#[test]
fn an_offset_record_is_decoded() {
    let mut block = Block::new(0x400);
    block.ptr_at(0x40, 0x100);
    block.u64_at(0x48, 0x1a2b3c4d5e);
    block.ptr_at(0x50, 0x120);
    block.text_at(0x100, b"dwEntityList");
    block.text_at(0x120, b"client.dll!EntityList");
    let image = block.image(&[b"A"]);
    let offset = read_offset(&image, BASE + 0x40).unwrap();
    assert_eq!(offset.name, b"dwEntityList".to_vec());
    assert_eq!(offset.value, 0x1a2b3c4d5e);
    assert_eq!(offset.comment, Some(b"client.dll!EntityList".to_vec()));
    assert_eq!(
        read_offset(&image, BASE + 0x60).err(),
        Some(AccessError::OutOfRange { addr: 0, len: 0 })
    );
}

#[test]
fn a_table_is_found_through_an_export_or_an_offset() {
    let image = foo_block().image(&[b"A"]);
    let record = image.find_module(b"A").unwrap();
    let by_export = class_table(Anchor::Export(b"classes".to_vec()), Vec::new());
    assert_eq!(locate_table(&image, record, &by_export), Ok(BASE + 0x10));
    let by_offset = class_table(Anchor::Relative(0x10), Vec::new());
    assert_eq!(locate_table(&image, record, &by_offset), Ok(BASE + 0x10));
    let through_pointer = class_table(Anchor::Export(b"anchor".to_vec()), vec![0]);
    assert_eq!(locate_table(&image, record, &through_pointer), Ok(BASE + 0x10));
    assert_eq!(read_table_header(&image, BASE + 0x10), Ok((1, BASE + 0x20)));
}

#[test]
fn a_table_that_cannot_be_found_is_a_gap() {
    let image = foo_block().image(&[b"A"]);
    let record = image.find_module(b"A").unwrap();
    let missing = class_table(Anchor::Export(b"nowhere".to_vec()), Vec::new());
    assert_eq!(locate_table(&image, record, &missing), Err(GapCause::SymbolMissing));
    let null = class_table(Anchor::Relative(0x8), vec![0]);
    assert_eq!(
        locate_table(&image, record, &null),
        Err(GapCause::Access(AccessError::OutOfRange { addr: 0, len: 0 }))
    );
    let unmapped = class_table(Anchor::Relative(0x10_0000), vec![0]);
    assert_eq!(
        locate_table(&image, record, &unmapped),
        Err(GapCause::Access(AccessError::OutOfRange { addr: BASE + 0x10_0000, len: 8 }))
    );
    let beyond = class_table(Anchor::Relative(u64::MAX), Vec::new());
    assert_eq!(
        locate_table(&image, record, &beyond),
        Err(GapCause::Access(AccessError::OutOfRange { addr: BASE, len: 0 }))
    );
}

#[test]
fn a_walk_recovers_the_planned_module() {
    let image = foo_block().image(&[b"A"]);
    let plans = vec![plan(b"A", vec![class_table(Anchor::Export(b"anchor".to_vec()), vec![0])])];
    let outcome = walk(&image, &plans).unwrap();
    assert!(outcome.gaps.is_empty());
    assert_eq!(module_names(&outcome.model), vec![b"A".to_vec()]);
    let module = &outcome.model.modules()[0];
    assert_eq!(module.classes().len(), 1);
    assert!(module.enums().is_empty());
    assert!(module.offsets().is_empty());
    let class = &module.classes()[0];
    assert_eq!(class.name, b"Foo".to_vec());
    assert_eq!(class.fields.len(), 1);
    assert_eq!(class.fields[0].name, b"bar".to_vec());
    assert_eq!(class.fields[0].offset, 8);
}

#[test]
fn a_missing_module_does_not_stop_the_others() {
    let image = foo_block().image(&[b"A"]);
    let table = || class_table(Anchor::Export(b"classes".to_vec()), Vec::new());
    let plans = vec![plan(b"B", vec![table()]), plan(b"A", vec![table()]), plan(b"C", vec![table()])];
    let outcome = walk(&image, &plans).unwrap();
    assert_eq!(module_names(&outcome.model), vec![b"A".to_vec()]);
    assert_eq!(outcome.model.modules()[0].classes()[0].name, b"Foo".to_vec());
    assert_eq!(
        outcome.gaps,
        vec![
            ResolutionGap { module: 0, scope: GapScope::Module, cause: GapCause::ModuleMissing },
            ResolutionGap { module: 2, scope: GapScope::Module, cause: GapCause::ModuleMissing },
        ]
    );
}

#[test]
fn a_module_that_is_planned_twice_is_walked_once() {
    let image = foo_block().image(&[b"A"]);
    let table = || class_table(Anchor::Export(b"classes".to_vec()), Vec::new());
    let plans = vec![plan(b"A", vec![table()]), plan(b"A", vec![table()])];
    let outcome = walk(&image, &plans).unwrap();
    assert_eq!(module_names(&outcome.model), vec![b"A".to_vec()]);
    assert_eq!(
        outcome.gaps,
        vec![ResolutionGap { module: 1, scope: GapScope::Module, cause: GapCause::DuplicateName }]
    );
}

#[test]
fn a_missing_table_does_not_stop_the_other_tables() {
    let image = foo_block().image(&[b"A"]);
    let plans = vec![plan(
        b"A",
        vec![
            class_table(Anchor::Export(b"nowhere".to_vec()), Vec::new()),
            class_table(Anchor::Relative(0x300), Vec::new()),
            class_table(Anchor::Export(b"classes".to_vec()), Vec::new()),
        ],
    )];
    let outcome = walk(&image, &plans).unwrap();
    assert_eq!(outcome.model.modules()[0].classes().len(), 1);
    assert_eq!(
        outcome.gaps,
        vec![ResolutionGap { module: 0, scope: GapScope::Table, cause: GapCause::SymbolMissing }]
    );
}

#[test]
fn a_module_without_readable_tables_is_empty_but_present() {
    let image = foo_block().image(&[b"A"]);
    let plans = vec![plan(b"A", vec![class_table(Anchor::Relative(0x10_0000), Vec::new())])];
    let outcome = walk(&image, &plans).unwrap();
    assert_eq!(module_names(&outcome.model), vec![b"A".to_vec()]);
    assert_eq!(outcome.model.modules()[0].entry_count(), 0);
    assert_eq!(outcome.gaps.len(), 1);
    assert_eq!(outcome.gaps[0].scope, GapScope::Table);
}

#[test]
fn bad_descriptors_cost_only_themselves() {
    let mut block = foo_block();
    block.table_at(0x10, 4, 0x20);
    block.u64_at(0x28, 0);
    block.ptr_at(0x30, 0x40);
    block.ptr_at(0x38, 0x200);
    block.class_at(0x200, 0x240, 4, 0, 0, 0);
    block.text_at(0x240, b"Other");
    let image = block.image(&[b"A"]);
    let plans = vec![plan(b"A", vec![class_table(Anchor::Export(b"classes".to_vec()), Vec::new())])];
    let outcome = walk(&image, &plans).unwrap();
    let module = &outcome.model.modules()[0];
    assert_eq!(collect_names(module.classes()), vec![b"Foo".to_vec(), b"Other".to_vec()]);
    assert_eq!(
        outcome.gaps,
        vec![
            ResolutionGap {
                module: 0,
                scope: GapScope::Class,
                cause: GapCause::Access(AccessError::OutOfRange { addr: 0, len: 0 }),
            },
            ResolutionGap { module: 0, scope: GapScope::Class, cause: GapCause::DuplicateName },
        ]
    );
}

#[test]
fn tables_of_every_kind_fill_one_module() {
    let mut block = enum_block(2);
    block.table_at(0x200, 1, 0x210);
    block.ptr_at(0x210, 0x220);
    block.class_at(0x220, 0x110, 1, 0, 0, 0);
    block.table_at(0x280, 1, 0x290);
    block.ptr_at(0x290, 0x2a0);
    block.ptr_at(0x2a0, 0x120);
    block.u64_at(0x2a8, 99);
    let image = block.image(&[b"A"]);
    let plans = vec![plan(
        b"A",
        vec![
            RootTable { kind: TableKind::Enums, anchor: Anchor::Relative(0x10), hops: Vec::new() },
            RootTable { kind: TableKind::Classes, anchor: Anchor::Relative(0x200), hops: Vec::new() },
            RootTable { kind: TableKind::Offsets, anchor: Anchor::Relative(0x280), hops: Vec::new() },
        ],
    )];
    let outcome = walk(&image, &plans).unwrap();
    let module = &outcome.model.modules()[0];
    assert_eq!(collect_names(module.enums()), vec![b"Color".to_vec()]);
    assert_eq!(collect_names(module.classes()), vec![b"Red".to_vec()]);
    assert_eq!(collect_names(module.offsets()), vec![b"Green".to_vec()]);
    assert_eq!(module.offsets()[0].value, 99);
    assert_eq!(module.offsets()[0].comment, None);
    assert_eq!(module.entry_count(), 3);
    assert_eq!(outcome.gaps.len(), 1);
    assert_eq!(outcome.gaps[0].scope, GapScope::Member);
}

#[test]
fn a_target_that_cannot_be_reached_fails_the_walk() {
    let mut image = foo_block().image(&[b"A"]);
    image.available = false;
    let plans = vec![plan(b"A", vec![class_table(Anchor::Export(b"classes".to_vec()), Vec::new())])];
    assert_eq!(walk(&image, &plans).err(), Some(WalkError::PortUnavailable));
    assert_eq!(walk(&image, &Vec::new()).err(), Some(WalkError::PortUnavailable));
}

#[test]
fn an_empty_plan_gives_an_empty_model() {
    let image = foo_block().image(&[b"A"]);
    let outcome = walk(&image, &Vec::new()).unwrap();
    assert!(outcome.model.modules().is_empty());
    assert!(outcome.gaps.is_empty());
}

#[test]
fn walking_twice_gives_the_same_model() {
    let image = foo_block().image(&[b"A"]);
    let plans = vec![
        plan(b"A", vec![class_table(Anchor::Export(b"classes".to_vec()), Vec::new())]),
        plan(b"B", Vec::new()),
    ];
    let first = walk(&image, &plans).unwrap();
    let second = walk(&image, &plans).unwrap();
    assert_eq!(first.gaps, second.gaps);
    assert_eq!(module_names(&first.model), module_names(&second.model));
    assert_eq!(
        collect_names(first.model.modules()[0].classes()),
        collect_names(second.model.modules()[0].classes())
    );
}
