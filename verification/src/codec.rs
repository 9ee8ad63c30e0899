//! The encode-side schema check of the JSON ⇔ Protobuf codec.
//!
//! Before a JSON body is serialized against a message descriptor, it is
//! validated against the canonical proto3 JSON mapping: object keys must name
//! fields (original or camelCase JSON name), repeated fields take arrays, map
//! fields take objects, scalars must be of a compatible JSON kind and in
//! range, and enum values must name a variant or carry a number. A body that
//! fails is rejected with `INVALID_ARGUMENT` before any bytes are produced,
//! exactly as a server-side encoder would report it.

use vstd::prelude::*;
use vstd::string::*;

use crate::descriptor::{
    DescriptorPool, EnumDecl, FieldCard, FieldDecl, FieldKind, MessageDecl, has_enum, has_message,
};
use crate::json::{JsonNum, JsonValue};
use crate::status::{CODE_INVALID_ARGUMENT, Status};
use crate::text::str_eq;

verus! {

/// Why a JSON body failed the schema check.
#[derive(Debug, PartialEq)]
pub enum EncodeReject {
    /// The value for a message was not a JSON object.
    NotAnObject,
    /// An object key names no field of the message.
    UnknownField(String),
    /// A value has a JSON kind the field cannot take, or is out of range.
    BadValue(String),
    /// A string names no variant of the field's enum.
    UnknownEnumName(String),
    /// A referenced type is missing from the pool.
    MissingType(String),
}

/// The index of the message named `fqn` (meaningful when `has_message`).
pub open spec fn msg_index_of(pool: DescriptorPool, fqn: Seq<char>) -> int {
    choose|i: int| 0 <= i < pool.messages@.len() && pool.messages@[i].fqn@ == fqn
}

/// The message declaration named `fqn` (meaningful when `has_message`).
pub open spec fn msg_decl_of(pool: DescriptorPool, fqn: Seq<char>) -> MessageDecl {
    pool.messages@[msg_index_of(pool, fqn)]
}

/// The index of the enum named `fqn` (meaningful when `has_enum`).
pub open spec fn enum_index_of(pool: DescriptorPool, fqn: Seq<char>) -> int {
    choose|i: int| 0 <= i < pool.enums@.len() && pool.enums@[i].fqn@ == fqn
}

pub open spec fn enum_decl_of(pool: DescriptorPool, fqn: Seq<char>) -> EnumDecl {
    pool.enums@[enum_index_of(pool, fqn)]
}

/// `key` selects field `f`: it equals the proto name or the JSON name.
pub open spec fn field_matches(f: FieldDecl, key: Seq<char>) -> bool {
    f.name@ == key || f.json_name@ == key
}

/// `fi` is the first field of `fields` that `key` selects.
pub open spec fn is_first_field(fields: Seq<FieldDecl>, key: Seq<char>, fi: int) -> bool {
    &&& 0 <= fi < fields.len()
    &&& field_matches(fields[fi], key)
    &&& forall|j: int| 0 <= j < fi ==> !field_matches(fields[j], key)
}

/// An integer number within `[lo, hi]`; a decimal literal never is.
pub open spec fn int_in_range(n: JsonNum, lo: int, hi: int) -> bool {
    match n {
        JsonNum::Int(i) => lo <= i && i <= hi,
        JsonNum::Uint(u) => u <= hi,
        JsonNum::Dec(_) => false,
    }
}

/// Whether a JSON number is acceptable for a field kind.
pub open spec fn num_ok(kind: FieldKind, n: JsonNum) -> bool {
    match kind {
        FieldKind::Double => true,
        FieldKind::Float => true,
        FieldKind::Int32 => int_in_range(n, -2147483648, 2147483647),
        FieldKind::Sint32 => int_in_range(n, -2147483648, 2147483647),
        FieldKind::Sfixed32 => int_in_range(n, -2147483648, 2147483647),
        FieldKind::Int64 => int_in_range(n, -9223372036854775808, 9223372036854775807),
        FieldKind::Sint64 => int_in_range(n, -9223372036854775808, 9223372036854775807),
        FieldKind::Sfixed64 => int_in_range(n, -9223372036854775808, 9223372036854775807),
        FieldKind::Uint32 => int_in_range(n, 0, 4294967295),
        FieldKind::Fixed32 => int_in_range(n, 0, 4294967295),
        FieldKind::Uint64 => int_in_range(n, 0, 18446744073709551615),
        FieldKind::Fixed64 => int_in_range(n, 0, 18446744073709551615),
        FieldKind::Enum(_) => int_in_range(n, -2147483648, 2147483647),
        _ => false,
    }
}

/// Whether an enum has a variant with this name.
pub open spec fn enum_has_name(e: EnumDecl, name: Seq<char>) -> bool {
    exists|i: int| 0 <= i < e.values@.len() && e.values@[i].name@ == name
}

/// Whether a JSON string is acceptable for a field kind. Numeric kinds accept
/// their canonical string forms (digit checking is left to the serializer);
/// an enum string must name a variant.
pub open spec fn str_ok(pool: DescriptorPool, kind: FieldKind, s: Seq<char>) -> bool {
    match kind {
        FieldKind::Str => true,
        FieldKind::Bytes => true,
        FieldKind::Double => true,
        FieldKind::Float => true,
        FieldKind::Int32 => true,
        FieldKind::Sint32 => true,
        FieldKind::Sfixed32 => true,
        FieldKind::Int64 => true,
        FieldKind::Sint64 => true,
        FieldKind::Sfixed64 => true,
        FieldKind::Uint32 => true,
        FieldKind::Fixed32 => true,
        FieldKind::Uint64 => true,
        FieldKind::Fixed64 => true,
        FieldKind::Enum(t) => has_enum(pool.enums@, t@) && enum_has_name(
            enum_decl_of(pool, t@),
            s,
        ),
        _ => false,
    }
}

/// Whether one JSON value is acceptable as a single occurrence of a field of
/// kind `kind`. `null` always stands for the default.
pub open spec fn value_ok(pool: DescriptorPool, kind: FieldKind, v: JsonValue) -> bool
    decreases v, 0int,
{
    match v {
        JsonValue::Null => true,
        JsonValue::Bool(_) => kind is Bool,
        JsonValue::Num(n) => num_ok(kind, n),
        JsonValue::Str(s) => str_ok(pool, kind, s@),
        JsonValue::Arr(_) => false,
        JsonValue::Obj(fields) => match kind {
            FieldKind::Message(t) => has_message(pool.messages@, t@) && fields_ok(
                pool,
                msg_decl_of(pool, t@),
                fields@,
            ),
            _ => false,
        },
    }
}

/// Whether every member of a JSON object is acceptable for message `m`.
pub open spec fn fields_ok(
    pool: DescriptorPool,
    m: MessageDecl,
    fields: Seq<(String, JsonValue)>,
) -> bool
    decreases fields, 3int,
{
    forall|i: int|
        0 <= i < fields.len() ==> member_ok(pool, m, fields[i].0@, (#[trigger] fields[i]).1)
}

/// Whether one object member selects a field of `m` and carries an
/// acceptable value.
pub open spec fn member_ok(
    pool: DescriptorPool,
    m: MessageDecl,
    key: Seq<char>,
    val: JsonValue,
) -> bool
    decreases val, 2int,
{
    exists|fi: int|
        #[trigger] is_first_field(m.fields@, key, fi) && field_value_ok(pool, m.fields@[fi], val)
}

/// Whether a value is acceptable for field `f` given its cardinality: arrays
/// for repeated fields, objects for map fields, one value otherwise.
pub open spec fn field_value_ok(pool: DescriptorPool, f: FieldDecl, val: JsonValue) -> bool
    decreases val, 1int,
{
    match f.card {
        FieldCard::Singular => value_ok(pool, f.kind, val),
        FieldCard::Repeated => match val {
            JsonValue::Null => true,
            JsonValue::Arr(items) => forall|i: int|
                0 <= i < items@.len() ==> value_ok(pool, f.kind, #[trigger] items@[i]),
            _ => false,
        },
        FieldCard::Mapping => match val {
            JsonValue::Null => true,
            JsonValue::Obj(entries) => forall|i: int|
                0 <= i < entries@.len() ==> value_ok(pool, f.kind, (#[trigger] entries@[i]).1),
            _ => false,
        },
    }
}

/// Whether `v` is an acceptable body for the message named `fqn`: the message
/// exists, the body is an object, and every member checks.
pub open spec fn body_ok(pool: DescriptorPool, fqn: Seq<char>, v: JsonValue) -> bool {
    &&& has_message(pool.messages@, fqn)
    &&& v is Obj
    &&& fields_ok(pool, msg_decl_of(pool, fqn), v->Obj_0@)
}

impl MessageDecl {
    /// The first field that `key` selects, by proto name or JSON name.
    pub fn find_field(&self, key: &str) -> (r: Option<&FieldDecl>)
        ensures
            match r {
                Some(f) => exists|fi: int|
                    #[trigger] is_first_field(self.fields@, key@, fi) && *f == self.fields@[fi],
                None => forall|j: int|
                    0 <= j < self.fields@.len() ==> !field_matches(#[trigger] self.fields@[j], key@),
            },
    {
        let n: usize = self.fields.len();
        let mut i: usize = 0;
        while i < n
            invariant
                0 <= i <= n,
                n == self.fields@.len(),
                forall|j: int| 0 <= j < i ==> !field_matches(#[trigger] self.fields@[j], key@),
            decreases n - i,
        {
            if str_eq(self.fields[i].name.as_str(), key) || str_eq(
                self.fields[i].json_name.as_str(),
                key,
            ) {
                proof {
                    assert(is_first_field(self.fields@, key@, i as int));
                }
                return Some(&self.fields[i]);
            }
            i += 1;
        }
        None
    }
}

impl EnumDecl {
    /// Whether a variant with this name exists.
    pub fn has_value_named(&self, name: &str) -> (r: bool)
        ensures
            r == enum_has_name(*self, name@),
    {
        let n: usize = self.values.len();
        let mut i: usize = 0;
        while i < n
            invariant
                0 <= i <= n,
                n == self.values@.len(),
                forall|j: int| 0 <= j < i ==> self.values@[j].name@ != name@,
            decreases n - i,
        {
            if str_eq(self.values[i].name.as_str(), name) {
                return true;
            }
            i += 1;
        }
        false
    }
}

fn check_num(kind: &FieldKind, n: &JsonNum) -> (r: bool)
    ensures
        r == num_ok(*kind, *n),
{
    match kind {
        FieldKind::Double | FieldKind::Float => true,
        FieldKind::Int32 | FieldKind::Sint32 | FieldKind::Sfixed32 | FieldKind::Enum(_) => match n {
            JsonNum::Int(i) => -2147483648i64 <= *i && *i <= 2147483647i64,
            JsonNum::Uint(u) => *u <= 2147483647u64,
            JsonNum::Dec(_) => false,
        },
        FieldKind::Int64 | FieldKind::Sint64 | FieldKind::Sfixed64 => match n {
            JsonNum::Int(_) => true,
            JsonNum::Uint(u) => *u <= 9223372036854775807u64,
            JsonNum::Dec(_) => false,
        },
        FieldKind::Uint32 | FieldKind::Fixed32 => match n {
            JsonNum::Int(i) => 0 <= *i && *i <= 4294967295i64,
            JsonNum::Uint(u) => *u <= 4294967295u64,
            JsonNum::Dec(_) => false,
        },
        FieldKind::Uint64 | FieldKind::Fixed64 => match n {
            JsonNum::Int(i) => 0 <= *i,
            JsonNum::Uint(_) => true,
            JsonNum::Dec(_) => false,
        },
        _ => false,
    }
}

/// Checks one JSON value as a single occurrence of a field of kind `kind`.
pub fn check_value(pool: &DescriptorPool, kind: &FieldKind, v: &JsonValue) -> (r: Result<
    (),
    EncodeReject,
>)
    requires
        pool.wf(),
    ensures
        r is Ok <==> value_ok(*pool, *kind, *v),
    decreases *v, 0int,
{
    match v {
        JsonValue::Null => Ok(()),
        JsonValue::Bool(_) => {
            if let FieldKind::Bool = kind {
                Ok(())
            } else {
                Err(EncodeReject::BadValue(String::from_str("boolean")))
            }
        },
        JsonValue::Num(n) => {
            if check_num(kind, n) {
                Ok(())
            } else {
                Err(EncodeReject::BadValue(String::from_str("number")))
            }
        },
        JsonValue::Str(s) => {
            match kind {
                FieldKind::Enum(t) => {
                    match pool.get_enum_by_name(t.as_str()) {
                        Some(e) => {
                            proof {
                                crate::codec::lemma_enum_decl_unique(*pool, t@, *e);
                            }
                            if e.has_value_named(s.as_str()) {
                                Ok(())
                            } else {
                                Err(EncodeReject::UnknownEnumName(s.clone()))
                            }
                        },
                        None => Err(EncodeReject::MissingType(t.clone())),
                    }
                },
                FieldKind::Message(_) | FieldKind::Bool => Err(
                    EncodeReject::BadValue(String::from_str("string")),
                ),
                _ => Ok(()),
            }
        },
        JsonValue::Arr(_) => Err(EncodeReject::BadValue(String::from_str("array"))),
        JsonValue::Obj(fields) => {
            match kind {
                FieldKind::Message(t) => {
                    match pool.get_message_by_name(t.as_str()) {
                        Some(m) => {
                            proof {
                                crate::codec::lemma_msg_decl_unique(*pool, t@, *m);
                                assert(decreases_to!(*v => v->Obj_0));
                                assert(v->Obj_0 == *fields);
                            }
                            match check_fields(pool, m, fields) {
                                Ok(_) => Ok(()),
                                Err(e) => Err(e),
                            }
                        },
                        None => Err(EncodeReject::MissingType(t.clone())),
                    }
                },
                _ => Err(EncodeReject::BadValue(String::from_str("object"))),
            }
        },
    }
}

/// A pool built by the library has at most one message per name, so the found
/// declaration is the one the specification speaks of.
pub(crate) proof fn lemma_msg_decl_unique(pool: DescriptorPool, fqn: Seq<char>, m: MessageDecl)
    requires
        pool.wf(),
        exists|i: int|
            0 <= i < pool.messages@.len() && m == pool.messages@[i] && pool.messages@[i].fqn@
                == fqn,
    ensures
        has_message(pool.messages@, fqn),
        msg_decl_of(pool, fqn) == m,
{
    let i = choose|i: int|
        0 <= i < pool.messages@.len() && m == pool.messages@[i] && pool.messages@[i].fqn@ == fqn;
    assert(has_message(pool.messages@, fqn));
    let j = msg_index_of(pool, fqn);
    assert(0 <= j < pool.messages@.len() && pool.messages@[j].fqn@ == fqn);
    if i != j {
        assert(pool.messages@[i].fqn@ == pool.messages@[j].fqn@);
    }
}

/// A pool built by the library has at most one enum per name.
pub(crate) proof fn lemma_enum_decl_unique(pool: DescriptorPool, fqn: Seq<char>, e: EnumDecl)
    requires
        pool.wf(),
        exists|i: int|
            0 <= i < pool.enums@.len() && e == pool.enums@[i] && pool.enums@[i].fqn@ == fqn,
    ensures
        has_enum(pool.enums@, fqn),
        enum_decl_of(pool, fqn) == e,
{
    let i = choose|i: int|
        0 <= i < pool.enums@.len() && e == pool.enums@[i] && pool.enums@[i].fqn@ == fqn;
    assert(has_enum(pool.enums@, fqn));
    let j = enum_index_of(pool, fqn);
    assert(0 <= j < pool.enums@.len() && pool.enums@[j].fqn@ == fqn);
    if i != j {
        assert(pool.enums@[i].fqn@ == pool.enums@[j].fqn@);
    }
}

/// Checks every member of a JSON object against message `m`.
pub fn check_fields(pool: &DescriptorPool, m: &MessageDecl, fields: &Vec<(String, JsonValue)>) -> (r:
    Result<(), EncodeReject>)
    requires
        pool.wf(),
    ensures
        r is Ok <==> fields_ok(*pool, *m, fields@),
    decreases *fields, 3int,
{
    let n: usize = fields.len();
    let mut i: usize = 0;
    while i < n
        invariant
            pool.wf(),
            0 <= i <= n,
            n == fields@.len(),
            forall|j: int|
                0 <= j < i ==> member_ok(*pool, *m, fields@[j].0@, (#[trigger] fields@[j]).1),
        decreases n - i,
    {
        proof {
            assert(decreases_to!(*fields => fields@[i as int]));
            assert(decreases_to!(fields@[i as int] => fields@[i as int].1));
        }
        match check_member(pool, m, &fields[i].0, &fields[i].1) {
            Ok(_) => {},
            Err(e) => {
                proof {
                    assert(!member_ok(*pool, *m, fields@[i as int].0@, fields@[i as int].1));
                }
                return Err(e);
            },
        }
        i += 1;
    }
    Ok(())
}

/// Checks one object member: the key must select a field, and the value must
/// be acceptable for it.
fn check_member(pool: &DescriptorPool, m: &MessageDecl, key: &String, val: &JsonValue) -> (r:
    Result<(), EncodeReject>)
    requires
        pool.wf(),
    ensures
        r is Ok <==> member_ok(*pool, *m, key@, *val),
    decreases *val, 2int,
{
    match m.find_field(key.as_str()) {
        Some(f) => {
            let r = check_field_value(pool, f, val);
            proof {
                let fi = choose|fi: int|
                    #[trigger] is_first_field(m.fields@, key@, fi) && *f == m.fields@[fi];
                if r is Ok {
                    assert(member_ok(*pool, *m, key@, *val));
                } else {
                    assert forall|fj: int|
                        #[trigger] is_first_field(m.fields@, key@, fj) implies !field_value_ok(
                        *pool,
                        m.fields@[fj],
                        *val,
                    ) by {
                        if fj < fi {
                            assert(field_matches(m.fields@[fj], key@));
                        }
                        if fi < fj {
                            assert(field_matches(m.fields@[fi], key@));
                        }
                    }
                }
            }
            r
        },
        None => {
            proof {
                assert forall|fi: int| !(#[trigger] is_first_field(
                    m.fields@,
                    key@,
                    fi,
                )) by {
                    if is_first_field(m.fields@, key@, fi) {
                        assert(field_matches(m.fields@[fi], key@));
                    }
                }
            }
            Err(EncodeReject::UnknownField(key.clone()))
        },
    }
}

/// Checks a value against a field's cardinality and kind.
fn check_field_value(pool: &DescriptorPool, f: &FieldDecl, val: &JsonValue) -> (r: Result<
    (),
    EncodeReject,
>)
    requires
        pool.wf(),
    ensures
        r is Ok <==> field_value_ok(*pool, *f, *val),
    decreases *val, 1int,
{
    match &f.card {
        FieldCard::Singular => check_value(pool, &f.kind, val),
        FieldCard::Repeated => {
            match val {
                JsonValue::Null => Ok(()),
                JsonValue::Arr(items) => {
                    let n: usize = items.len();
                    let mut i: usize = 0;
                    while i < n
                        invariant
                            pool.wf(),
                            f.card is Repeated,
                            0 <= i <= n,
                            n == items@.len(),
                            val is Arr,
                            val->Arr_0 == *items,
                            forall|j: int|
                                0 <= j < i ==> value_ok(*pool, f.kind, #[trigger] items@[j]),
                        decreases n - i,
                    {
                        proof {
                            assert(decreases_to!(*val => val->Arr_0));
                            assert(decreases_to!(*items => items@[i as int]));
                        }
                        match check_value(pool, &f.kind, &items[i]) {
                            Ok(_) => {},
                            Err(e) => {
                                proof {
                                    assert(!value_ok(*pool, f.kind, items@[i as int]));
                                }
                                return Err(e);
                            },
                        }
                        i += 1;
                    }
                    Ok(())
                },
                _ => Err(EncodeReject::BadValue(String::from_str("repeated"))),
            }
        },
        FieldCard::Mapping => {
            match val {
                JsonValue::Null => Ok(()),
                JsonValue::Obj(entries) => {
                    let n: usize = entries.len();
                    let mut i: usize = 0;
                    while i < n
                        invariant
                            pool.wf(),
                            f.card is Mapping,
                            0 <= i <= n,
                            n == entries@.len(),
                            val is Obj,
                            val->Obj_0 == *entries,
                            forall|j: int|
                                0 <= j < i ==> value_ok(*pool, f.kind, (#[trigger] entries@[j]).1),
                        decreases n - i,
                    {
                        proof {
                            assert(decreases_to!(*val => val->Obj_0));
                            assert(decreases_to!(*entries => entries@[i as int]));
                            assert(decreases_to!(entries@[i as int] => entries@[i as int].1));
                        }
                        match check_value(pool, &f.kind, &entries[i].1) {
                            Ok(_) => {},
                            Err(e) => {
                                proof {
                                    assert(!value_ok(*pool, f.kind, entries@[i as int].1));
                                }
                                return Err(e);
                            },
                        }
                        i += 1;
                    }
                    Ok(())
                },
                _ => Err(EncodeReject::BadValue(String::from_str("map"))),
            }
        },
    }
}

/// Validates a JSON body against the message named `fqn`, as the encoder
/// will interpret it.
pub fn check_message(pool: &DescriptorPool, fqn: &str, v: &JsonValue) -> (r: Result<
    (),
    EncodeReject,
>)
    requires
        pool.wf(),
    ensures
        r is Ok <==> body_ok(*pool, fqn@, *v),
{
    let m = match pool.get_message_by_name(fqn) {
        Some(m) => m,
        None => {
            return Err(EncodeReject::MissingType(String::from_str(fqn)));
        },
    };
    proof {
        lemma_msg_decl_unique(*pool, fqn@, *m);
    }
    match v {
        JsonValue::Obj(fields) => check_fields(pool, m, fields),
        _ => Err(EncodeReject::NotAnObject),
    }
}

/// The status a rejected encode surfaces: `INVALID_ARGUMENT`, with a message
/// that names the schema mismatch.
pub fn encode_reject_status(e: &EncodeReject) -> (r: Status)
    ensures
        r.code == CODE_INVALID_ARGUMENT,
        r.message@ == "JSON structure does not match Protobuf schema"@,
{
    Status::invalid_argument(String::from_str("JSON structure does not match Protobuf schema"))
}

} // verus!
