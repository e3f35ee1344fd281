use creamy::bounded::BoundedVec;
use creamy::definition::ProtocolDefinition;
use creamy::layout::compute_layout;
use creamy::meta::TypeMeta;
use creamy::nodes::Range;
use creamy::pool::StringId;
use creamy::symbols::{EnumSymbol, FieldSymbol, FieldType, Fields, NumericSymbol, StructSymbol, Type, Variants};
use creamy::table::TypeTable;
use creamy::tokenizer::tokenize;
use creamy::tree::ProtocolTree;
use creamy::StringPool;

fn numeric_field(n: NumericSymbol) -> FieldSymbol {
    let table = TypeTable::new(1, 0);
    let id = table.get_type_by_name(n.name()).unwrap();
    FieldSymbol::new(StringId::new(0), FieldType::Type(id))
}

/// Whether the ranges follow one another from `from` to `to`.
fn chains(ranges: &[Range], from: usize, to: usize) -> bool {
    let mut at = from;
    for r in ranges {
        if r.start() != at {
            return false;
        }
        at = r.start() + r.len();
    }
    at == to
}

#[test]
fn step_paddings_add_up_to_struct_paddings() {
    let fields = [numeric_field(NumericSymbol::U8), numeric_field(NumericSymbol::U32)];
    let (steps, _) = compute_layout(&fields);
    let sum: u8 = steps.iter().map(|s| s.padding).sum();
    assert_eq!(sum, 3);
    assert_eq!(ProtocolDefinition::get_struct_paddings(&fields), 3);

    let fields = [
        numeric_field(NumericSymbol::U16),
        numeric_field(NumericSymbol::U8),
        numeric_field(NumericSymbol::U64),
        numeric_field(NumericSymbol::U8),
    ];
    let (steps, _) = compute_layout(&fields);
    let sum: u8 = steps.iter().map(|s| s.padding).sum();
    assert_eq!(sum, ProtocolDefinition::get_struct_paddings(&fields));
}

#[test]
fn pushes_keep_the_first_items_that_fit() {
    let mut v: BoundedVec<u8, 3> = BoundedVec::new();
    let mut accepted = 0;
    for x in 10..15u8 {
        if v.push(x) {
            accepted += 1;
        }
    }
    assert_eq!(accepted, 3);
    assert_eq!(v.len(), 3);
    assert_eq!(v.as_slice(), &[10, 11, 12]);
    assert_eq!(v.len() as usize, v.as_slice().len());

    let mut w: BoundedVec<u8, 3> = BoundedVec::with_capacity(8);
    assert!(w.push(7));
    assert!(w.push(8));
    assert_eq!(w.len(), 2);
    assert_eq!(w.as_slice(), &[7, 8]);
}

#[test]
fn tree_ranges_tile_their_lists() {
    let text = r#"<protocol name="p" version="1.0" access="ExclusiveWrite">
        <group name="A">
            <enum name="E1"><variant name="X"/><variant name="Y"/></enum>
            <message name="M1"><field name="a" type="u8"/><field name="b" type="u16"/></message>
            <struct name="S1"><field name="c" type="u32"/></struct>
            <message name="M2"><field name="d" type="u8"/><remainder name="rest"/></message>
        </group>
        <group name="B">
            <struct name="S2"><field name="e" type="u8"/><field name="f" type="u8"/></struct>
            <enum name="E2"><variant name="Z"/></enum>
            <message name="M3"></message>
            <message name="M4"><field name="g" type="u64"/></message>
        </group>
    </protocol>"#;
    let tokens = tokenize(text).unwrap();
    let mut pool = StringPool::default();
    let tree = ProtocolTree::new(tokens, &mut pool).unwrap();

    let groups = tree.groups.as_slice();
    assert_eq!(groups.len(), 2);
    let messages: Vec<Range> = groups.iter().map(|g| g.messages).collect();
    let structs: Vec<Range> = groups.iter().map(|g| g.structs).collect();
    let enums: Vec<Range> = groups.iter().map(|g| g.enums).collect();
    assert!(chains(&messages, 0, tree.messages.len_usize()));
    assert!(chains(&structs, 0, tree.structs.len_usize()));
    assert!(chains(&enums, 0, tree.enums.len_usize()));

    let variants: Vec<Range> = tree.enums.iter().map(|e| e.variants).collect();
    assert!(chains(&variants, 0, tree.variants.len_usize()));

    // Every field belongs to exactly one message or struct.
    let mut owners = vec![0; tree.fields.len_usize()];
    for r in tree.messages.iter().map(|m| m.fields).chain(tree.structs.iter().map(|s| s.fields)) {
        for k in r.as_range() {
            owners[k] += 1;
        }
    }
    assert_eq!(tree.fields.len_usize(), 7);
    assert!(owners.iter().all(|&n| n == 1));
}

#[test]
fn registered_types_are_found_after_finishing() {
    let mut pool = StringPool::default();
    let color = pool.get_id("Color").unwrap();
    let point = pool.get_id("Point").unwrap();
    let mut table = TypeTable::new(2, 2);
    let enum_sym = Type::Enum(EnumSymbol::new(color, Variants::new(0, 2)));
    let struct_sym = Type::Struct(StructSymbol::new(point, Fields::new(0, 1)));
    table.register_type(2, TypeMeta::new(1, 1).unwrap(), enum_sym);
    table.register_type(3, TypeMeta::new(4, 4).unwrap(), struct_sym);
    let color_id = table.get_type_by_name(color).unwrap();
    let point_id = table.get_type_by_name(point).unwrap();
    assert_eq!((color_id.group(), color_id.index()), (2, 0));
    assert_eq!((point_id.group(), point_id.index()), (3, 0));
    assert!(table.can_finish());
    let finished = table.finish();
    assert_eq!(finished.type_count(), 2 + 12);
    assert_eq!(finished.get_type(color_id), &enum_sym);
    assert_eq!(finished.get_type(point_id), &struct_sym);
    assert_eq!(finished.name_of_type(color_id), color);
    assert_eq!(finished.name_of_type(point_id), point);
}
