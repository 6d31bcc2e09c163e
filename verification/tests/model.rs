use schema_dumper::model::{Class, Enum, EnumMember, Field, IntWidth, ModelError, Module, Offset,
    SchemaModel};
use schema_dumper::named::{collect_names, find_named};

fn class(name: &[u8], parent: Option<&[u8]>) -> Class {
    Class { name: name.to_vec(), size: 8, parent: parent.map(|p| p.to_vec()), fields: Vec::new() }
}

fn offset(name: &[u8], value: u64) -> Offset {
    Offset { name: name.to_vec(), value, comment: None }
}

#[test]
fn widths_are_one_two_four_and_eight_bytes() {
    assert_eq!(IntWidth::from_len(1), Some(IntWidth::One));
    assert_eq!(IntWidth::from_len(2), Some(IntWidth::Two));
    assert_eq!(IntWidth::from_len(4), Some(IntWidth::Four));
    assert_eq!(IntWidth::from_len(8), Some(IntWidth::Eight));
    assert_eq!(IntWidth::from_len(0), None);
    assert_eq!(IntWidth::from_len(3), None);
    assert_eq!(IntWidth::from_len(16), None);
    assert_eq!(IntWidth::Four.len(), 4);
}

#[test]
fn a_width_holds_its_signed_range() {
    assert!(IntWidth::One.fits(127));
    assert!(IntWidth::One.fits(-128));
    assert!(!IntWidth::One.fits(128));
    assert!(!IntWidth::One.fits(-129));
    assert!(IntWidth::Two.fits(32767));
    assert!(!IntWidth::Two.fits(32768));
    assert!(IntWidth::Four.fits(-2147483648));
    assert!(!IntWidth::Four.fits(2147483648));
    assert!(IntWidth::Eight.fits(i64::MIN));
    assert!(IntWidth::Eight.fits(i64::MAX));
}

#[test]
fn an_enum_keeps_its_members_in_order() {
    let mut e = Enum::new(b"Color".to_vec(), IntWidth::One);
    assert_eq!(e.add_member(EnumMember { name: b"Red".to_vec(), value: 0 }), Ok(()));
    assert_eq!(e.add_member(EnumMember { name: b"Green".to_vec(), value: 1 }), Ok(()));
    assert_eq!(e.width(), IntWidth::One);
    let names = collect_names(e.members());
    assert_eq!(names, vec![b"Red".to_vec(), b"Green".to_vec()]);
    assert_eq!(e.members()[1].value, 1);
}

#[test]
fn an_enum_refuses_a_member_name_twice() {
    let mut e = Enum::new(b"Color".to_vec(), IntWidth::Four);
    assert_eq!(e.add_member(EnumMember { name: b"Red".to_vec(), value: 0 }), Ok(()));
    assert_eq!(
        e.add_member(EnumMember { name: b"Red".to_vec(), value: 5 }),
        Err(ModelError::DuplicateName)
    );
    assert_eq!(e.members().len(), 1);
    assert_eq!(e.members()[0].value, 0);
}

#[test]
fn an_enum_refuses_a_value_that_does_not_fit() {
    let mut e = Enum::new(b"Small".to_vec(), IntWidth::One);
    assert_eq!(
        e.add_member(EnumMember { name: b"Big".to_vec(), value: 300 }),
        Err(ModelError::ValueOutOfRange)
    );
    assert_eq!(e.add_member(EnumMember { name: b"Big".to_vec(), value: -128 }), Ok(()));
    assert_eq!(e.members().len(), 1);
}

#[test]
fn a_module_keeps_separate_namespaces() {
    let mut m = Module::new(b"client.dll".to_vec());
    assert_eq!(m.add_class(class(b"Foo", None)), Ok(()));
    assert_eq!(m.add_enum(Enum::new(b"Foo".to_vec(), IntWidth::Four)), Ok(()));
    assert_eq!(m.add_offset(offset(b"Foo", 1)), Ok(()));
    assert_eq!(m.classes().len(), 1);
    assert_eq!(m.enums().len(), 1);
    assert_eq!(m.offsets().len(), 1);
    assert_eq!(m.entry_count(), 3);
}

#[test]
fn a_module_refuses_a_name_twice_in_one_namespace() {
    let mut m = Module::new(b"m".to_vec());
    assert_eq!(m.add_class(class(b"Foo", None)), Ok(()));
    assert_eq!(m.add_class(class(b"Foo", None)), Err(ModelError::DuplicateName));
    assert_eq!(m.add_enum(Enum::new(b"E".to_vec(), IntWidth::Two)), Ok(()));
    assert_eq!(
        m.add_enum(Enum::new(b"E".to_vec(), IntWidth::Four)),
        Err(ModelError::DuplicateName)
    );
    assert_eq!(m.add_offset(offset(b"dwA", 1)), Ok(()));
    assert_eq!(m.add_offset(offset(b"dwA", 2)), Err(ModelError::DuplicateName));
    assert_eq!(m.entry_count(), 3);
    assert_eq!(m.offsets()[0].value, 1);
}

#[test]
fn a_parent_is_looked_up_by_name() {
    let mut m = Module::new(b"m".to_vec());
    assert_eq!(m.add_class(class(b"Base", None)), Ok(()));
    assert_eq!(m.add_class(class(b"Derived", Some(b"Base"))), Ok(()));
    assert_eq!(m.add_class(class(b"Orphan", Some(b"Gone"))), Ok(()));
    let classes = m.classes();
    assert!(m.parent_of(&classes[0]).is_none());
    let parent = m.parent_of(&classes[1]);
    assert_eq!(parent.map(|p| p.name.clone()), Some(b"Base".to_vec()));
    assert!(m.parent_of(&classes[2]).is_none());
}

#[test]
fn a_model_refuses_a_module_name_twice() {
    let mut model = SchemaModel::new();
    assert!(model.modules().is_empty());
    assert_eq!(model.add_module(Module::new(b"a".to_vec())), Ok(()));
    assert_eq!(model.add_module(Module::new(b"b".to_vec())), Ok(()));
    assert_eq!(model.add_module(Module::new(b"a".to_vec())), Err(ModelError::DuplicateName));
    let names = collect_names(model.modules());
    assert_eq!(names, vec![b"a".to_vec(), b"b".to_vec()]);
}

#[test]
fn the_first_entry_of_a_name_is_found() {
    let fields = vec![
        Field { name: b"x".to_vec(), offset: 0, declared_type: None },
        Field { name: b"y".to_vec(), offset: 4, declared_type: None },
        Field { name: b"x".to_vec(), offset: 8, declared_type: None },
    ];
    assert_eq!(find_named(&fields, b"x"), Some(0));
    assert_eq!(find_named(&fields, b"y"), Some(1));
    assert_eq!(find_named(&fields, b"z"), None);
}
