use creamy::definition::Access as Mode;
use creamy::error::ProtocolError;
use creamy::message::MessageType;
use creamy::meta::TypeMeta;
use creamy::nodes::parse_array;
use creamy::size::{Align, Size};
use creamy::symbols::{NumericSymbol, Type};
use creamy::token::Token;
use creamy::tokenizer::tokenize;
use creamy::{StringPool, StringPoolIntern, StringPoolResolver, Version};
use creamy::pool::StringId;

#[test]
fn size_bounds() {
    assert_eq!(Size::new(0), Err(ProtocolError::InvalidSize(0)));
    assert_eq!(Size::new(29), Err(ProtocolError::InvalidSize(29)));
    assert_eq!(Size::new(28).unwrap().value(), 28);
    assert_eq!(Size::new(1).unwrap().value(), 1);
    assert_eq!(Size::default().value(), 1);
}

#[test]
fn meta_errors() {
    assert_eq!(TypeMeta::new(0, 1), Err(ProtocolError::InvalidSize(0)));
    assert_eq!(TypeMeta::new(30, 1), Err(ProtocolError::InvalidSize(30)));
    assert_eq!(TypeMeta::new(4, 16), Err(ProtocolError::ForbiddenAlign(16)));
    assert_eq!(TypeMeta::new(4, 3), Err(ProtocolError::AlignIsNotPowerOfTwo(3)));
    assert_eq!(TypeMeta::new(4, 0), Err(ProtocolError::AlignIsNotPowerOfTwo(0)));
}

#[test]
fn meta_round_trip() {
    for size in 1..=28u8 {
        for align in [1u8, 2, 4, 8] {
            let meta = TypeMeta::new(size, align).unwrap();
            assert_eq!(meta.size().value(), size);
            assert_eq!(meta.align().value(), align);
        }
    }
    let meta = TypeMeta::new(16, 8).unwrap();
    assert_eq!(meta.value, 16 * 8 + 3);
    assert_eq!(TypeMeta::default().size().value(), 1);
    assert_eq!(TypeMeta::default().align().value(), 1);
}

#[test]
fn align_raw_values() {
    assert_eq!(Align::to_raw(1), 0);
    assert_eq!(Align::to_raw(2), 1);
    assert_eq!(Align::to_raw(4), 2);
    assert_eq!(Align::to_raw(8), 3);
    assert_eq!(Align::from_raw(3).value(), 8);
    assert_eq!(Align::from_raw(0).value(), 1);
}

#[test]
fn numeric_symbols() {
    assert_eq!(NumericSymbol::U128.size(), 16);
    assert_eq!(NumericSymbol::U128.align(), 8);
    assert_eq!(NumericSymbol::I16.size(), 2);
    assert_eq!(NumericSymbol::F64.align(), 8);
    assert_eq!(NumericSymbol::F32.name().value(), 10);
    assert_eq!(NumericSymbol::U8.meta().size().value(), 1);
}

#[test]
fn builtin_pool() {
    let pool = StringPool::default();
    assert_eq!(pool.len(), 12);
    assert_eq!(StringId::new(0).resolve(&pool), "u8");
    assert_eq!(StringId::new(4).resolve(&pool), "u128");
    assert_eq!(StringId::new(11).resolve(&pool), "f64");
    assert_eq!(StringId::new(12).resolve(&pool), "");
    for (k, n) in [
        NumericSymbol::U8,
        NumericSymbol::U16,
        NumericSymbol::U32,
        NumericSymbol::U64,
        NumericSymbol::U128,
        NumericSymbol::I8,
        NumericSymbol::I16,
        NumericSymbol::I32,
        NumericSymbol::I64,
        NumericSymbol::I128,
        NumericSymbol::F32,
        NumericSymbol::F64,
    ]
    .iter()
    .enumerate()
    {
        assert_eq!(n.name().value() as usize, k);
    }
}

#[test]
fn interning_is_idempotent() {
    let mut pool = StringPool::default();
    let a = pool.get_id("alpha").unwrap();
    let b = pool.get_id("beta").unwrap();
    let a2 = pool.get_id("alpha").unwrap();
    assert_eq!(a.value(), 12);
    assert_eq!(b.value(), 13);
    assert_eq!(a2, a);
    assert_eq!(pool.len(), 14);
    assert_eq!(pool.get_id("u16").unwrap().value(), 1);
    assert_eq!("gamma".to_string().intern(&mut pool).unwrap().value(), 14);
    let copy = pool.duplicate();
    assert_eq!(copy.len(), pool.len());
    assert_eq!(StringId::new(13).resolve(&copy), "beta");
}

#[test]
fn pool_overflow() {
    let mut pool = StringPool::default();
    for k in 0..(65535 - 12) {
        pool.get_id(&format!("s{k}")).unwrap();
    }
    assert_eq!(pool.len(), 65535);
    assert_eq!(pool.get_id("one_more"), Err(ProtocolError::TooManyUniqueStrings));
    assert_eq!(pool.get_id("s0").unwrap().value(), 12);
    assert_eq!(pool.len(), 65535);
}

#[test]
fn version_parse_and_text() {
    assert_eq!(Version::parse("1.2"), Ok(Version { major: 1, minor: 2 }));
    assert_eq!(Version::parse(" 3 . 4 "), Ok(Version { major: 3, minor: 4 }));
    assert_eq!(Version::parse("+5.6"), Ok(Version { major: 5, minor: 6 }));
    assert_eq!(Version::parse("1"), Err(ProtocolError::InvalidVersionFormat));
    assert_eq!(Version::parse("1.2.3"), Err(ProtocolError::InvalidVersionFormat));
    assert_eq!(Version::parse(".2"), Err(ProtocolError::InvalidMajor));
    assert_eq!(Version::parse("1."), Err(ProtocolError::InvalidMinor));
    assert_eq!(Version::parse("65535.65535"), Ok(Version { major: 65535, minor: 65535 }));
    assert_eq!("7.8".parse::<Version>(), Ok(Version { major: 7, minor: 8 }));
    let v = Version { major: 12, minor: 0 };
    assert_eq!(v.to_text(), "12.0");
    assert_eq!(Version::parse(&v.to_text()), Ok(v));
}

#[test]
fn access_modes() {
    assert_eq!(Mode::new("ExclusiveWrite"), Ok(Mode::ExclusiveWrite));
    assert_eq!(Mode::new("MultipleWrite"), Ok(Mode::MultipleWrite));
    assert_eq!(Mode::new("exclusive"), Err(ProtocolError::InvalidAccess("exclusive".to_string())));
    assert_eq!(Mode::new(Mode::MultipleWrite.as_str()), Ok(Mode::MultipleWrite));
    assert_eq!(Mode::default(), Mode::ExclusiveWrite);
}

#[test]
fn message_type() {
    let t = MessageType::from_le_bytes([0x34, 0x12]);
    assert_eq!(t.value(), 0x1234);
    assert_eq!(*t, 0x1234);
    assert_eq!(MessageType::new(7), MessageType::from(7u16));
    assert_eq!(t.to_text(), "4660");
    assert_eq!(MessageType::default().value(), 0);
}

#[test]
fn arrays() {
    assert_eq!(parse_array("u8"), None);
    assert_eq!(parse_array("[u8; 4]"), Some(Ok(("u8".to_string(), 4))));
    assert_eq!(parse_array(" [ i16 ;28 ] "), Some(Ok(("i16".to_string(), 28))));
    assert_eq!(
        parse_array("[u8;28"),
        Some(Err(ProtocolError::Syntax {
            src: "[u8;28".to_string(),
            should_be: "[TYPE; SIZE]".to_string()
        }))
    );
    assert!(matches!(parse_array("[u8; 300]"), Some(Err(ProtocolError::IntParse(_)))));
}

#[test]
fn tokens() {
    let tokens = tokenize(
        r#"<protocol name="p" version="1.0" access="ExclusiveWrite"><group name="g"><message name="m"><field name="f" type="u8"/><remainder name="r"/></message></group></protocol>"#,
    )
    .unwrap();
    assert_eq!(tokens.len(), 5);
    assert_eq!(tokens[0].to_text(), "<protocol>");
    assert_eq!(tokens[3].to_text(), "<field>");
    assert!(matches!(&tokens[3], Token::Field { name, kind } if name == "f" && kind == "u8"));
    assert_eq!(tokens[4].to_text(), "<remainder>");
    assert!(tokenize("").is_err());
}

#[test]
fn table_types_are_named() {
    let mut pool = StringPool::default();
    let mut compiler = creamy::ProtocolCompiler::new(&mut pool);
    let protocol = compiler
        .compile(
            r#"<protocol name="t" version="0.0" access="ExclusiveWrite">
                <group name="g"><enum name="Color"><variant name="Red"/></enum></group>
            </protocol>"#,
        )
        .unwrap();
    let types = protocol.table().types();
    assert_eq!(types.len(), 13);
    assert!(matches!(types[12], Type::Enum(_)));
    assert_eq!(types[12].name().resolve(&pool), "Color");
    assert_eq!(protocol.table().group_count(), 2);
}

#[test]
fn pool_after_failed_compile() {
    // Tokenizing fails: the pool is left as it was.
    let mut pool = StringPool::default();
    let r = creamy::ProtocolCompiler::new(&mut pool).compile("<protocol");
    assert!(r.is_err());
    assert_eq!(pool.len(), 12);

    // Building the tree fails at the second remainder: the names interned
    // up to that point stay, the message's name among them.
    let mut pool = StringPool::default();
    let content = r#"<protocol name="p" version="1.0" access="ExclusiveWrite">
        <group name="Group">
            <message name="Message">
                <field name="field" type="f32"/>
                <remainder name="data"/>
                <remainder name="data1"/>
            </message>
        </group>
    </protocol>"#;
    let r = creamy::ProtocolCompiler::new(&mut pool).compile(content);
    assert_eq!(r, Err(vec![ProtocolError::UnexpectedToken("<remainder>".to_string())]));
    assert_eq!(pool.len(), 16);
    for name in ["Group", "field", "data", "Message"] {
        let before = pool.len();
        pool.get_id(name).unwrap();
        assert_eq!(pool.len(), before);
    }
}
