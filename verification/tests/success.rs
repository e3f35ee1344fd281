use creamy::{Access, ProtocolCompiler, ProtocolDefinition, StringPool, StringPoolResolver, Version};

const SUCCESS_TEST: &str = r#"
<?xml version="1.0" encoding="UTF-8" ?>
<protocol name="success_test" version="0.1" access="MultipleWrite">
    <group name="Storage">
        <struct name="BucketSmall">
            <field name="id" type="u16"/>
            <field name="fill" type="u8"/>
        </struct>
    </group>
    <group name="Control">
        <enum name="Status">
            <variant name="Idle"/>
            <variant name="Busy"/>
        </enum>
        <enum name="Mode">
            <variant name="Manual"/>
            <variant name="Auto"/>
            <variant name="Off"/>
        </enum>
        <struct name="Limits">
            <field name="low" type="u32"/>
            <field name="high" type="u32"/>
        </struct>
        <message name="SetMode">
            <field name="mode" type="Mode"/>
            <field name="limits" type="Limits"/>
            <field name="bucket" type="BucketSmall"/>
        </message>
        <message name="Report">
            <field name="status" type="Status"/>
            <field name="samples" type="[u16; 4]"/>
            <remainder name="tail"/>
        </message>
    </group>
</protocol>
"#;

#[test]
fn success_success() {
    let mut pool = StringPool::default();
    let mut compiler = ProtocolCompiler::new(&mut pool);
    let protocol = compiler.compile(SUCCESS_TEST).unwrap();
    assert_eq!(protocol.name().resolve(&pool), "success_test");
    assert_eq!(protocol.version(), Version { major: 0, minor: 1 });
    assert_eq!(protocol.access(), Access::MultipleWrite);
    assert_eq!(protocol.table().type_count(), 16); //Builtin (12) + Custom (4)
    let first = &protocol.table().types()[12];
    assert_eq!(first.name().resolve(&pool), "BucketSmall");

    let second = &protocol.table().types()[13];
    assert_eq!(second.name().resolve(&pool), "Status");

    for group in protocol.groups() {
        println!("-----  {}  -----", group.name().resolve(&pool));
        println!("structs: {:?}", group.structs());
        println!("enums: {:?}", group.enums());
    }

    for ty in protocol.table().types() {
        println!("Type: {}", ty.name().resolve(&pool));
    }
}

#[test]
fn serialize_and_deserialize() {
    let mut pool = StringPool::default();
    let mut compiler = ProtocolCompiler::new(&mut pool);

    let compiled = compiler
        .compile(SUCCESS_TEST)
        .expect("Failed to compile XML");

    let buffer = compiled.to_bytes();

    let (deserialized, position) =
        ProtocolDefinition::from_bytes(&buffer).expect("Failed to deserialize from binary");

    assert_eq!(
        compiled, deserialized,
        "Protocol changed after round-trip serialization"
    );

    assert_eq!(position, buffer.len());
}

#[test]
fn deserialize_ignores_trailing_bytes() {
    let mut pool = StringPool::default();
    let mut compiler = ProtocolCompiler::new(&mut pool);
    let compiled = compiler.compile(SUCCESS_TEST).unwrap();
    let mut buffer = compiled.to_bytes();
    let len = buffer.len();
    buffer.extend_from_slice(&[9, 9, 9]);
    let (deserialized, position) = ProtocolDefinition::from_bytes(&buffer).unwrap();
    assert_eq!(compiled, deserialized);
    assert_eq!(position, len);
}

#[test]
fn deserialize_rejects_truncated_bytes() {
    let mut pool = StringPool::default();
    let mut compiler = ProtocolCompiler::new(&mut pool);
    let compiled = compiler.compile(SUCCESS_TEST).unwrap();
    let buffer = compiled.to_bytes();
    for cut in [0, 1, 6, 7, 10, buffer.len() / 2, buffer.len() - 1] {
        assert!(ProtocolDefinition::from_bytes(&buffer[..cut]).is_none(), "cut at {cut}");
    }
}

#[test]
fn deserialize_rejects_bad_access_tag() {
    let mut pool = StringPool::default();
    let mut compiler = ProtocolCompiler::new(&mut pool);
    let compiled = compiler.compile(SUCCESS_TEST).unwrap();
    let mut buffer = compiled.to_bytes();
    buffer[6] = 2;
    assert!(ProtocolDefinition::from_bytes(&buffer).is_none());
}

#[test]
fn binary_head_layout() {
    let mut pool = StringPool::default();
    let mut compiler = ProtocolCompiler::new(&mut pool);
    let compiled = compiler.compile(SUCCESS_TEST).unwrap();
    let buffer = compiled.to_bytes();
    let name = compiled.name().value();
    assert_eq!(&buffer[..7], &[(name % 256) as u8, (name / 256) as u8, 0, 0, 1, 0, 1]);
}

#[test]
fn compile_checked_agrees_with_compile() {
    let mut pool_a = StringPool::default();
    let checked = ProtocolCompiler::new(&mut pool_a).compile_checked(SUCCESS_TEST);
    let mut pool_b = StringPool::default();
    let plain = ProtocolCompiler::new(&mut pool_b).compile(SUCCESS_TEST);
    assert_eq!(checked, Some(plain));
    assert_eq!(pool_a.len(), pool_b.len());
}
