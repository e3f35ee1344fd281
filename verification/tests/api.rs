use creamy::error::ProtocolError;
use creamy::{ProtocolCompiler, ProtocolDefinition, StringPool, StringPoolResolver};

/// Builds the body of a protocol with the given numbers of groups and items.
#[derive(Default)]
struct XMLGeneratorBuilder {
    groups: usize,
    messages_per_group: usize,
    fields_per_message: usize,
    structs_per_group: usize,
    fields_per_struct: usize,
    enums_per_group: usize,
    variants_per_enum: usize,
}

impl XMLGeneratorBuilder {
    fn groups(mut self, n: usize) -> Self {
        self.groups = n;
        self
    }
    fn messages_per_group(mut self, n: usize) -> Self {
        self.messages_per_group = n;
        self
    }
    fn fields_per_message(mut self, n: usize) -> Self {
        self.fields_per_message = n;
        self
    }
    #[allow(dead_code)]
    fn structs_per_group(mut self, n: usize) -> Self {
        self.structs_per_group = n;
        self
    }
    #[allow(dead_code)]
    fn fields_per_struct(mut self, n: usize) -> Self {
        self.fields_per_struct = n;
        self
    }
    #[allow(dead_code)]
    fn enums_per_group(mut self, n: usize) -> Self {
        self.enums_per_group = n;
        self
    }
    #[allow(dead_code)]
    fn variants_per_enum(mut self, n: usize) -> Self {
        self.variants_per_enum = n;
        self
    }

    /// The pieces of XML, one per element line.
    fn build(self) -> std::vec::IntoIter<String> {
        let mut out = Vec::new();
        let (mut m, mut s, mut e) = (0usize, 0usize, 0usize);
        for g in 0..self.groups {
            out.push(format!("<group name=\"Group{g}\">\n"));
            for _ in 0..self.enums_per_group {
                out.push(format!("<enum name=\"Enum{e}\">\n"));
                for v in 0..self.variants_per_enum {
                    out.push(format!("<variant name=\"Variant{}\"/>\n", v % 1000));
                }
                out.push("</enum>\n".to_string());
                e += 1;
            }
            for _ in 0..self.structs_per_group {
                out.push(format!("<struct name=\"Struct{s}\">\n"));
                for f in 0..self.fields_per_struct {
                    out.push(format!("<field name=\"field{f}\" type=\"u8\"/>\n"));
                }
                out.push("</struct>\n".to_string());
                s += 1;
            }
            for _ in 0..self.messages_per_group {
                out.push(format!("<message name=\"Message{m}\">\n"));
                for f in 0..self.fields_per_message {
                    out.push(format!("<field name=\"field{f}\" type=\"u8\"/>\n"));
                }
                out.push("</message>\n".to_string());
                m += 1;
            }
            out.push("</group>\n".to_string());
        }
        out.into_iter()
    }
}

fn get_xml(content: &str) -> String {
    format!(
        r#"
<?xml version="1.0" encoding="UTF-8" ?>
<protocol name="test" version="1.0" access="ExclusiveWrite">
    {content}
</protocol>"#
    )
}

fn compile(pool: &mut StringPool, content: &str) -> Result<ProtocolDefinition, Vec<ProtocolError>> {
    let mut compiler = ProtocolCompiler::new(pool);
    compiler.compile(content)
}

#[test]
fn message_iterator() {
    let generator = XMLGeneratorBuilder::default()
        .groups(10)
        .messages_per_group(10)
        .fields_per_message(2)
        .build();

    let mut pool = StringPool::default();
    let protocol = compile(&mut pool, &get_xml(&generator.collect::<String>())).unwrap();
    let mut iterations = 0;
    let mut g_temp = 1;
    let mut m_temp = 0;
    for (g, m) in protocol.message_iter() {
        assert_eq!(m.name().resolve(&pool), format!("Message{m_temp}"));
        if m_temp == 10 {
            assert_eq!(g.name().resolve(&pool), format!("Group{g_temp}"));
            g_temp += 1;
        }
        m_temp += 1;
        iterations += 1;
    }

    assert_eq!(iterations, 10 * 10);
}

#[test]
fn group_iterator() {
    let generator = XMLGeneratorBuilder::default()
        .groups(3)
        .messages_per_group(2)
        .fields_per_message(1)
        .build();
    let mut pool = StringPool::default();
    let protocol = compile(&mut pool, &get_xml(&generator.collect::<String>())).unwrap();
    let groups = protocol.group_iter();
    assert_eq!(groups.len(), 3);
    for (k, (g, messages, types)) in groups.iter().enumerate() {
        assert_eq!(g.name().resolve(&pool), format!("Group{k}"));
        assert_eq!(messages.len(), 2);
        assert_eq!(messages[0].name().resolve(&pool), format!("Message{}", 2 * k));
        assert!(types.is_empty());
    }
}
