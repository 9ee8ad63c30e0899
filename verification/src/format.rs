//! Rendering descriptors back into `.proto`-like text for human display.

use vstd::prelude::*;
use vstd::string::*;

use crate::descriptor::{EnumDecl, EnumValueDecl, FieldCard, FieldDecl, FieldKind, MessageDecl,
    MethodDecl, ServiceDecl};
use crate::text::{dec_digits, dec_int, i64_to_string, u64_to_string};

verus! {

/// The `.proto` spelling of a field kind; referenced types print their
/// fully-qualified name.
pub open spec fn kind_text(k: FieldKind) -> Seq<char> {
    match k {
        FieldKind::Double => "double"@,
        FieldKind::Float => "float"@,
        FieldKind::Int32 => "int32"@,
        FieldKind::Int64 => "int64"@,
        FieldKind::Uint32 => "uint32"@,
        FieldKind::Uint64 => "uint64"@,
        FieldKind::Sint32 => "sint32"@,
        FieldKind::Sint64 => "sint64"@,
        FieldKind::Fixed32 => "fixed32"@,
        FieldKind::Fixed64 => "fixed64"@,
        FieldKind::Sfixed32 => "sfixed32"@,
        FieldKind::Sfixed64 => "sfixed64"@,
        FieldKind::Bool => "bool"@,
        FieldKind::Str => "string"@,
        FieldKind::Bytes => "bytes"@,
        FieldKind::Message(t) => t@,
        FieldKind::Enum(t) => t@,
    }
}

/// One rpc line: `rpc Name(stream In) returns (stream Out);`.
pub open spec fn spec_format_method(m: MethodDecl) -> Seq<char> {
    "rpc "@ + m.name@ + "("@ + (if m.client_streaming {
        "stream "@
    } else {
        Seq::<char>::empty()
    }) + m.input@ + ") returns ("@ + (if m.server_streaming {
        "stream "@
    } else {
        Seq::<char>::empty()
    }) + m.output@ + ");"@
}

pub open spec fn spec_method_lines(ms: Seq<MethodDecl>) -> Seq<char>
    decreases ms.len(),
{
    if ms.len() == 0 {
        Seq::<char>::empty()
    } else {
        spec_method_lines(ms.drop_last()) + "  "@ + spec_format_method(ms.last()) + "\n\n"@
    }
}

/// A service block with one indented rpc line per method.
pub open spec fn spec_format_service(s: ServiceDecl) -> Seq<char> {
    "service "@ + s.name@ + " {\n"@ + spec_method_lines(s.methods@) + "}"@
}

/// One field line; map entries are rendered as a comment, repeated fields
/// carry the `repeated` label.
pub open spec fn spec_field_line(f: FieldDecl) -> Seq<char> {
    if f.card is Mapping {
        "  // map entry: "@ + kind_text(f.kind) + " "@ + f.name@ + " = "@ + dec_digits(
            f.number as nat,
        ) + ";\n"@
    } else {
        "  "@ + (if f.card is Repeated {
            "repeated "@
        } else {
            Seq::<char>::empty()
        }) + kind_text(f.kind) + " "@ + f.name@ + " = "@ + dec_digits(f.number as nat) + ";\n"@
    }
}

pub open spec fn spec_field_lines(fs: Seq<FieldDecl>) -> Seq<char>
    decreases fs.len(),
{
    if fs.len() == 0 {
        Seq::<char>::empty()
    } else {
        spec_field_lines(fs.drop_last()) + spec_field_line(fs.last())
    }
}

/// A message block with one line per field.
pub open spec fn spec_format_message(m: MessageDecl) -> Seq<char> {
    "message "@ + m.name@ + " {\n"@ + spec_field_lines(m.fields@) + "}"@
}

/// One enum value line: `  NAME = number;`.
pub open spec fn spec_value_line(v: EnumValueDecl) -> Seq<char> {
    "  "@ + v.name@ + " = "@ + dec_int(v.number as int) + ";\n"@
}

pub open spec fn spec_value_lines(vs: Seq<EnumValueDecl>) -> Seq<char>
    decreases vs.len(),
{
    if vs.len() == 0 {
        Seq::<char>::empty()
    } else {
        spec_value_lines(vs.drop_last()) + spec_value_line(vs.last())
    }
}

/// An enum block with one line per value.
pub open spec fn spec_format_enum(e: EnumDecl) -> Seq<char> {
    "enum "@ + e.name@ + " {\n"@ + spec_value_lines(e.values@) + "}"@
}

fn kind_text_exec(k: &FieldKind) -> (r: String)
    ensures
        r@ == kind_text(*k),
{
    match k {
        FieldKind::Double => String::from_str("double"),
        FieldKind::Float => String::from_str("float"),
        FieldKind::Int32 => String::from_str("int32"),
        FieldKind::Int64 => String::from_str("int64"),
        FieldKind::Uint32 => String::from_str("uint32"),
        FieldKind::Uint64 => String::from_str("uint64"),
        FieldKind::Sint32 => String::from_str("sint32"),
        FieldKind::Sint64 => String::from_str("sint64"),
        FieldKind::Fixed32 => String::from_str("fixed32"),
        FieldKind::Fixed64 => String::from_str("fixed64"),
        FieldKind::Sfixed32 => String::from_str("sfixed32"),
        FieldKind::Sfixed64 => String::from_str("sfixed64"),
        FieldKind::Bool => String::from_str("bool"),
        FieldKind::Str => String::from_str("string"),
        FieldKind::Bytes => String::from_str("bytes"),
        FieldKind::Message(t) => t.clone(),
        FieldKind::Enum(t) => t.clone(),
    }
}

/// Renders one rpc line.
pub fn format_method(m: &MethodDecl) -> (r: String)
    ensures
        r@ == spec_format_method(*m),
{
    let mut out = String::from_str("rpc ");
    out.append(m.name.as_str());
    out.append("(");
    if m.client_streaming {
        out.append("stream ");
    }
    out.append(m.input.as_str());
    out.append(") returns (");
    if m.server_streaming {
        out.append("stream ");
    }
    out.append(m.output.as_str());
    out.append(");");
    proof {
        assert(out@ =~= spec_format_method(*m));
    }
    out
}

/// Renders a service block.
pub fn format_service(s: &ServiceDecl) -> (r: String)
    ensures
        r@ == spec_format_service(*s),
{
    let mut out = String::from_str("service ");
    out.append(s.name.as_str());
    out.append(" {\n");
    let n: usize = s.methods.len();
    let mut i: usize = 0;
    while i < n
        invariant
            0 <= i <= n,
            n == s.methods@.len(),
            out@ == "service "@ + s.name@ + " {\n"@ + spec_method_lines(s.methods@.take(i as int)),
        decreases n - i,
    {
        out.append("  ");
        let line = format_method(&s.methods[i]);
        out.append(line.as_str());
        out.append("\n\n");
        proof {
            assert(s.methods@.take(i + 1).drop_last() =~= s.methods@.take(i as int));
            assert(s.methods@.take(i + 1).last() == s.methods@[i as int]);
            assert(out@ =~= "service "@ + s.name@ + " {\n"@ + spec_method_lines(
                s.methods@.take(i + 1),
            ));
        }
        i += 1;
    }
    out.append("}");
    proof {
        assert(s.methods@.take(n as int) =~= s.methods@);
        assert(out@ =~= spec_format_service(*s));
    }
    out
}

/// Renders one field line.
pub fn format_field(f: &FieldDecl) -> (r: String)
    ensures
        r@ == spec_field_line(*f),
{
    let kind = kind_text_exec(&f.kind);
    let number = u64_to_string(f.number as u64);
    let mut out: String;
    match &f.card {
        FieldCard::Mapping => {
            out = String::from_str("  // map entry: ");
        },
        FieldCard::Repeated => {
            out = String::from_str("  ");
            out.append("repeated ");
        },
        FieldCard::Singular => {
            out = String::from_str("  ");
        },
    }
    out.append(kind.as_str());
    out.append(" ");
    out.append(f.name.as_str());
    out.append(" = ");
    out.append(number.as_str());
    out.append(";\n");
    proof {
        assert(out@ =~= spec_field_line(*f));
    }
    out
}

/// Renders a message block.
pub fn format_message(m: &MessageDecl) -> (r: String)
    ensures
        r@ == spec_format_message(*m),
{
    let mut out = String::from_str("message ");
    out.append(m.name.as_str());
    out.append(" {\n");
    let n: usize = m.fields.len();
    let mut i: usize = 0;
    while i < n
        invariant
            0 <= i <= n,
            n == m.fields@.len(),
            out@ == "message "@ + m.name@ + " {\n"@ + spec_field_lines(m.fields@.take(i as int)),
        decreases n - i,
    {
        let line = format_field(&m.fields[i]);
        out.append(line.as_str());
        proof {
            assert(m.fields@.take(i + 1).drop_last() =~= m.fields@.take(i as int));
            assert(m.fields@.take(i + 1).last() == m.fields@[i as int]);
            assert(out@ =~= "message "@ + m.name@ + " {\n"@ + spec_field_lines(
                m.fields@.take(i + 1),
            ));
        }
        i += 1;
    }
    out.append("}");
    proof {
        assert(m.fields@.take(n as int) =~= m.fields@);
        assert(out@ =~= spec_format_message(*m));
    }
    out
}

/// Renders an enum block.
pub fn format_enum(e: &EnumDecl) -> (r: String)
    ensures
        r@ == spec_format_enum(*e),
{
    let mut out = String::from_str("enum ");
    out.append(e.name.as_str());
    out.append(" {\n");
    let n: usize = e.values.len();
    let mut i: usize = 0;
    while i < n
        invariant
            0 <= i <= n,
            n == e.values@.len(),
            out@ == "enum "@ + e.name@ + " {\n"@ + spec_value_lines(e.values@.take(i as int)),
        decreases n - i,
    {
        out.append("  ");
        out.append(e.values[i].name.as_str());
        out.append(" = ");
        let number = i64_to_string(e.values[i].number as i64);
        out.append(number.as_str());
        out.append(";\n");
        proof {
            assert(e.values@.take(i + 1).drop_last() =~= e.values@.take(i as int));
            assert(e.values@.take(i + 1).last() == e.values@[i as int]);
            assert(out@ =~= "enum "@ + e.name@ + " {\n"@ + spec_value_lines(e.values@.take(i + 1)));
        }
        i += 1;
    }
    out.append("}");
    proof {
        assert(e.values@.take(n as int) =~= e.values@);
        assert(out@ =~= spec_format_enum(*e));
    }
    out
}

/// A method of a service as a browser shows it: its name and its rendered
/// rpc signature.
#[derive(Debug, Clone)]
pub struct MethodData {
    pub name: String,
    pub signature: String,
}

impl MethodData {
    /// The browser entry for one method.
    pub fn from_method(m: &MethodDecl) -> (r: MethodData)
        ensures
            r.name@ == m.name@,
            r.signature@ == spec_format_method(*m),
    {
        MethodData { name: m.name.clone(), signature: format_method(m) }
    }
}

} // verus!
