use creamy::bounded::BoundedVec;
use creamy::definition::ProtocolDefinition;
use creamy::error::ProtocolError;
use creamy::layout::compute_layout;
use creamy::meta::TypeMeta;
use creamy::pool::StringId;
use creamy::symbols::{ArraySymbol, FieldSymbol, FieldType, NumericSymbol, Type};
use creamy::size::Size;
use creamy::table::TypeTable;
use creamy::StringPool;

/// A field of a builtin numeric type, through the identifier the builtin
/// group gives it.
fn numeric_field(pool: &StringPool, n: NumericSymbol) -> FieldSymbol {
    let table = TypeTable::new(1, 0);
    let _ = pool;
    let id = table.get_type_by_name(n.name()).unwrap();
    FieldSymbol::new(StringId::new(0), FieldType::Type(id))
}

#[test]
fn layout_offsets() {
    let pool = StringPool::default();
    let fields = [
        numeric_field(&pool, NumericSymbol::U8),
        numeric_field(&pool, NumericSymbol::U32),
        numeric_field(&pool, NumericSymbol::U16),
        numeric_field(&pool, NumericSymbol::U64),
    ];
    let (steps, end) = compute_layout(&fields);
    let offsets: Vec<u8> = steps.iter().map(|s| s.offset).collect();
    let paddings: Vec<u8> = steps.iter().map(|s| s.padding).collect();
    assert_eq!(offsets, vec![4, 8, 12, 16]);
    assert_eq!(paddings, vec![0, 3, 0, 2]);
    assert_eq!(end, 24);
    for s in &steps {
        assert_eq!(s.offset % s.align, 0);
    }
    // The end is the header, the sizes and the paddings.
    let sizes: u8 = steps.iter().map(|s| s.size).sum();
    assert_eq!(end, 4 + sizes + paddings.iter().sum::<u8>());
    assert_eq!(ProtocolDefinition::get_struct_paddings(&fields), 5);
    assert_eq!(ProtocolDefinition::get_struct_meta(&fields).map(|m| (m.size().value(), m.align().value())), Ok((20, 8)));
}

#[test]
fn empty_struct_meta() {
    assert_eq!(ProtocolDefinition::get_struct_meta(&[]), Err(ProtocolError::InvalidSize(0)));
}

#[test]
fn array_fields_take_their_element_layout() {
    let table = TypeTable::new(1, 0);
    let id = table.get_type_by_name(NumericSymbol::U16.name()).unwrap();
    let field = FieldSymbol::new(
        StringId::new(0),
        FieldType::Array(ArraySymbol::new(id, Size::new(4).unwrap())),
    );
    assert_eq!(field.type_id(), id);
    let (steps, end) = compute_layout(&[field]);
    assert_eq!(steps[0].size, 2);
    assert_eq!(end, 6);
}

#[test]
fn table_registers_and_finishes() {
    let mut pool = StringPool::default();
    let name = pool.get_id("Color").unwrap();
    let mut table = TypeTable::new(1, 1);
    let meta = TypeMeta::new(1, 1).unwrap();
    let sym = Type::Enum(creamy::symbols::EnumSymbol::new(name, creamy::symbols::Variants::new(0, 2)));
    assert!(table.can_register(1, &sym));
    table.register_type(1, meta, sym);
    assert!(table.contains_name(name));
    assert!(!table.can_register(1, &sym));
    let id = table.get_type_by_name(name).unwrap();
    // The builtins take the first slots of the first group.
    assert_eq!(id.group(), 1);
    assert_eq!(id.index(), 12);
    assert!(table.can_finish());
    let finished = table.finish();
    assert_eq!(finished.type_count(), 13);
    assert!(finished.contains_id(id));
    assert_eq!(finished.get_type(id), &sym);
    assert_eq!(finished.name_of_type(id), name);
    assert_eq!(finished.counts(), &[0, 13, 0]);
}

#[test]
fn unfinished_table() {
    let table = TypeTable::new(1, 1);
    assert!(!table.can_finish());
}

#[test]
fn bounded_push() {
    let mut v: BoundedVec<u8, 2> = BoundedVec::new();
    assert!(v.push(1));
    assert!(v.push(2));
    assert!(!v.push(3));
    assert_eq!(v.len(), 2);
    assert_eq!(v.as_slice(), &[1, 2]);
    assert_eq!(v.len_usize(), 2);
    assert_eq!(*v.get(1), 2);
    assert_eq!(v.take(), vec![1, 2]);
    assert_eq!(v.len(), 0);
}
