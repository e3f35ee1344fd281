use creamy::codegen::{Access, Argument, DeriveList, Field, Function, Impl, Module, Pass, Struct};
use creamy::generator::{can_generate, extend_derive, generate, generate_message_trait_impl, Args};
use creamy::text::decimal_string;
use creamy::{ProtocolCompiler, StringPool};

const SMALL: &str = r#"
<?xml version="1.0" encoding="UTF-8" ?>
<protocol name="small" version="1.0" access="ExclusiveWrite">
    <group name="G">
        <struct name="S">
            <field name="x" type="u8"/>
        </struct>
        <message name="M">
            <field name="a" type="u16"/>
        </message>
    </group>
</protocol>
"#;

const SMALL_BINDINGS: &str = "pub mod G {
    #[derive(Debug, Copy, Clone)]
    pub struct S {
        pub x: u8,
    }

    #[repr(C, align(32))]
    #[derive(Debug, Copy, Clone)]
    pub struct M {
        /* -------- HEADER -------- */
        pub dst: u8,
        pub group: u8,
        pub src: u8,
        pub kind: u8,
        /* -------- PAYLOAD -------- */
        pub a: u16,
        pub _padding0: [u8; 26],
    }

    impl cbus_core::message::TypedMessage for M {
         fn dst(&self) -> u8 {
            self.dst
        }

         fn with_dst(&mut self, dst: u8) -> &mut Self {
            self.dst = dst; self
        }

         fn src(&self) -> u8 {
            self.src
        }

         fn group(&self) -> u8 {
            self.group
        }

         fn with_group(&mut self, group: u8) -> &mut Self {
            self.group = group; self
        }

         fn kind(&self) -> u8 {
            self.kind
        }

         fn with_kind(&mut self, kind: u8) -> &mut Self {
            self.kind = kind; self
        }

    }

    impl M {
        pub const fn with_a(&mut self, value: u16) -> &mut Self {
            self.a = value; self
        }

    }

}

";

#[test]
fn generates_small_protocol() {
    let mut pool = StringPool::default();
    let protocol = ProtocolCompiler::new(&mut pool).compile(SMALL).unwrap();
    assert!(can_generate(&protocol));
    let text = generate(Args::default(), &pool, &protocol);
    let got: Vec<&str> = text.split('\n').collect();
    let want: Vec<&str> = SMALL_BINDINGS.split('\n').collect();
    for (i, (g, w)) in got.iter().zip(want.iter()).enumerate() {
        assert_eq!(g, w, "line {i}");
    }
    assert_eq!(got.len(), want.len());
    assert_eq!(text, SMALL_BINDINGS);
}

/// A group's types are read from the table between the first enum and the
/// end of the structs, each counted from the builtins: with one enum and one
/// struct that is the enum alone.
#[test]
fn group_type_range() {
    let content = r#"
<?xml version="1.0" encoding="UTF-8" ?>
<protocol name="p" version="1.0" access="ExclusiveWrite">
    <group name="G">
        <enum name="E">
            <variant name="A"/>
            <variant name="B"/>
        </enum>
        <struct name="S">
            <field name="x" type="u8"/>
        </struct>
    </group>
</protocol>
"#;
    let mut pool = StringPool::default();
    let protocol = ProtocolCompiler::new(&mut pool).compile(content).unwrap();
    let text = generate(Args::default(), &pool, &protocol);
    assert_eq!(
        text,
        "pub mod G {\n    #[derive(Debug, Copy, Clone)]\n    pub enum E {\n        A,\n        B,\n    }\n\n}\n\n"
    );
}

#[test]
fn test() {
    let content = r#"
<?xml version="1.0" encoding="UTF-8" ?>
<protocol name="demo" version="2.3" access="MultipleWrite">
    <group name="Motion">
        <struct name="Point">
            <field name="x" type="i16"/>
            <field name="y" type="i16"/>
        </struct>
        <message name="Move">
            <field name="speed" type="u8"/>
            <field name="target" type="Point"/>
            <field name="ticks" type="u64"/>
        </message>
    </group>
</protocol>
"#;
    let mut pool = StringPool::default();
    let mut compiler = ProtocolCompiler::new(&mut pool);
    let protocol = compiler.compile(content).unwrap();
    let string = generate(Args::default(), &pool, &protocol);
    println!("{string}");
    // speed at 4, target (align 2) after one byte of padding at 6, ticks
    // (align 8) after 6 bytes of padding at 16, and 8 bytes of tail.
    assert!(string.contains("        pub speed: u8,\n        pub _padding0: [u8; 1],\n        pub target: Point,\n        pub _padding1: [u8; 6],\n        pub ticks: u64,\n        pub _padding2: [u8; 8],\n"));
    assert!(string.contains("        pub const fn with_target(&mut self, value: Point) -> &mut Self {\n"));
}

#[test]
fn full_message_has_no_tail_padding() {
    let content = r#"
<?xml version="1.0" encoding="UTF-8" ?>
<protocol name="full" version="1.0" access="ExclusiveWrite">
    <group name="G">
        <message name="Full">
            <field name="a" type="u64"/>
            <field name="b" type="u64"/>
            <field name="c" type="u64"/>
        </message>
    </group>
</protocol>
"#;
    let mut pool = StringPool::default();
    let protocol = ProtocolCompiler::new(&mut pool).compile(content).unwrap();
    let text = generate(Args::default(), &pool, &protocol);
    assert!(text.contains("        /* -------- PAYLOAD -------- */\n        pub _padding0: [u8; 4],\n        pub a: u64,\n"));
    assert!(!text.contains("_padding1"));
}

#[test]
fn derive_flags() {
    let mut list = DeriveList::new();
    extend_derive(&mut list, Args { eq: true, ord: true, hash: true });
    let mut out = String::new();
    list.write_to(&mut out, 1);
    assert_eq!(out, "    #[derive(Debug, Copy, Clone, PartialEq, Eq, PartialOrd, Ord, Hash)]\n");

    let mut list = DeriveList::new();
    extend_derive(&mut list, Args { eq: false, ord: true, hash: false });
    let mut out = String::new();
    list.write_to(&mut out, 0);
    assert_eq!(out, "#[derive(Debug, Copy, Clone, PartialOrd, Ord)]\n");
}

#[test]
fn empty_derive_list_writes_nothing() {
    let mut out = String::from("x");
    DeriveList::new().write_to(&mut out, 3);
    assert_eq!(out, "x");
}

#[test]
fn writes_items() {
    let mut module = Module::new("m");
    let mut s = Struct::new("P");
    s.fields.push(Field {
        access: Access::Private,
        name: "v".to_string(),
        kind: "u8".to_string(),
        comment: Some("note".to_string()),
    });
    s.impls.push(Impl {
        target: "P".to_string(),
        functions: vec![Function {
            access: Access::Pub,
            is_const: false,
            name: "take".to_string(),
            self_pass: Some(Pass::Move),
            arg: vec![
                Argument { name: "a".to_string(), kind: "u8".to_string(), pass: Pass::Ref },
                Argument { name: "b".to_string(), kind: "u8".to_string(), pass: Pass::Mut },
            ],
            ret: None,
            body: "a".to_string(),
        }],
    });
    module.structs.push(s);
    let mut out = String::new();
    module.write_to(&mut out, 0);
    assert_eq!(
        out,
        " mod m {\n     struct P {\n        /* note */\n         v: u8,\n    }\n\n    impl P {\n        pub fn take(self, a: &u8, b: &mut u8) {\n            a\n        }\n\n    }\n\n}\n\n"
    );
}

#[test]
fn message_trait_impl_has_seven_methods() {
    let t = generate_message_trait_impl("Ping");
    assert_eq!(t.functions.len(), 7);
    assert_eq!(t.trait_name, "cbus_core::message::TypedMessage");
    assert_eq!(t.target, "Ping");
}

#[test]
fn decimal_text() {
    assert_eq!(decimal_string(0), "0");
    assert_eq!(decimal_string(7), "7");
    assert_eq!(decimal_string(1234), "1234");
    assert_eq!(decimal_string(100), "100");
}
