//! The descriptor pool: a flat, immutable database of Protobuf definitions
//! keyed by fully-qualified name.
//!
//! The pool is built from a list of file records. Building rejects duplicate
//! filenames, imports that do not close, duplicate fully-qualified names,
//! duplicate field numbers inside a message, and references to types that are
//! not in the set. A pool that builds is therefore closed: every type named by
//! a field, a method input, or a method output resolves inside the pool.

use vstd::prelude::*;
use vstd::string::*;

use crate::text::str_eq;

verus! {

/// The kind of one message field: a scalar, or a reference to a message or an
/// enum by fully-qualified name.
#[derive(Debug, Clone, PartialEq)]
pub enum FieldKind {
    Double,
    Float,
    Int32,
    Int64,
    Uint32,
    Uint64,
    Sint32,
    Sint64,
    Fixed32,
    Fixed64,
    Sfixed32,
    Sfixed64,
    Bool,
    Str,
    Bytes,
    Message(String),
    Enum(String),
}

/// How many values a field carries. For a map field the kind describes the
/// map's value type; JSON carries the keys as object member names.
#[derive(Debug, Clone, PartialEq)]
pub enum FieldCard {
    Singular,
    Repeated,
    Mapping,
}

/// One field of a message.
#[derive(Debug, Clone, PartialEq)]
pub struct FieldDecl {
    /// The field name as written in the `.proto` source.
    pub name: String,
    /// The canonical JSON (camelCase) name.
    pub json_name: String,
    /// The wire number.
    pub number: u32,
    pub kind: FieldKind,
    pub card: FieldCard,
}

/// One message definition.
#[derive(Debug, Clone, PartialEq)]
pub struct MessageDecl {
    pub fqn: String,
    pub package: String,
    pub name: String,
    pub fields: Vec<FieldDecl>,
}

/// One value of an enum definition.
#[derive(Debug, Clone, PartialEq)]
pub struct EnumValueDecl {
    pub name: String,
    pub number: i32,
}

/// One enum definition.
#[derive(Debug, Clone, PartialEq)]
pub struct EnumDecl {
    pub fqn: String,
    pub package: String,
    pub name: String,
    pub values: Vec<EnumValueDecl>,
}

/// One method of a service: its name, the fully-qualified names of its input
/// and output messages, and the two streaming flags that pick the dispatch
/// arm.
#[derive(Debug, Clone, PartialEq)]
pub struct MethodDecl {
    pub name: String,
    pub input: String,
    pub output: String,
    pub client_streaming: bool,
    pub server_streaming: bool,
}

/// One service definition.
#[derive(Debug, Clone, PartialEq)]
pub struct ServiceDecl {
    pub fqn: String,
    pub package: String,
    pub name: String,
    pub methods: Vec<MethodDecl>,
}

/// One compiled `.proto` file: a unique filename, the files it imports, and
/// the definitions it holds, each already carrying its fully-qualified name.
#[derive(Debug, Clone, PartialEq)]
pub struct FileDecl {
    pub name: String,
    pub package: String,
    pub imports: Vec<String>,
    pub messages: Vec<MessageDecl>,
    pub enums: Vec<EnumDecl>,
    pub services: Vec<ServiceDecl>,
}

/// Why a file set was rejected.
#[derive(Debug, Clone, PartialEq)]
pub enum DescriptorError {
    DuplicateFileName(String),
    MissingImport { file: String, import: String },
    DuplicateSymbol(String),
    DuplicateFieldNumber { message: String, number: u32 },
    UnresolvedReference { referrer: String, target: String },
}

/// The views of a sequence of strings.
pub open spec fn str_views(ss: Seq<String>) -> Seq<Seq<char>> {
    ss.map_values(|s: String| s@)
}

/// No two files share a filename.
pub open spec fn file_names_unique(files: Seq<FileDecl>) -> bool {
    forall|i: int, j: int| 0 <= i < j < files.len() ==> files[i].name@ != files[j].name@
}

/// Every import of every file names a file of the set.
pub open spec fn imports_present(files: Seq<FileDecl>) -> bool {
    forall|i: int, j: int|
        0 <= i < files.len() && 0 <= j < files[i].imports@.len() ==> exists|k: int|
            0 <= k < files.len() && files[k].name@ == (#[trigger] files[i].imports@[j])@
}

pub open spec fn all_services(files: Seq<FileDecl>) -> Seq<ServiceDecl> {
    files.flat_map(|f: FileDecl| f.services@)
}

pub open spec fn all_messages(files: Seq<FileDecl>) -> Seq<MessageDecl> {
    files.flat_map(|f: FileDecl| f.messages@)
}

pub open spec fn all_enums(files: Seq<FileDecl>) -> Seq<EnumDecl> {
    files.flat_map(|f: FileDecl| f.enums@)
}

pub open spec fn has_service(s: Seq<ServiceDecl>, fqn: Seq<char>) -> bool {
    exists|i: int| 0 <= i < s.len() && s[i].fqn@ == fqn
}

pub open spec fn has_message(s: Seq<MessageDecl>, fqn: Seq<char>) -> bool {
    exists|i: int| 0 <= i < s.len() && s[i].fqn@ == fqn
}

pub open spec fn has_enum(s: Seq<EnumDecl>, fqn: Seq<char>) -> bool {
    exists|i: int| 0 <= i < s.len() && s[i].fqn@ == fqn
}

/// A field's type reference resolves.
pub open spec fn field_ref_ok(f: FieldDecl, msgs: Seq<MessageDecl>, enums: Seq<EnumDecl>) -> bool {
    match f.kind {
        FieldKind::Message(t) => has_message(msgs, t@),
        FieldKind::Enum(t) => has_enum(enums, t@),
        _ => true,
    }
}

pub open spec fn message_refs_ok(
    m: MessageDecl,
    msgs: Seq<MessageDecl>,
    enums: Seq<EnumDecl>,
) -> bool {
    forall|i: int| 0 <= i < m.fields@.len() ==> field_ref_ok(#[trigger] m.fields@[i], msgs, enums)
}

pub open spec fn service_refs_ok(s: ServiceDecl, msgs: Seq<MessageDecl>) -> bool {
    forall|i: int|
        0 <= i < s.methods@.len() ==> has_message(msgs, (#[trigger] s.methods@[i]).input@)
            && has_message(msgs, s.methods@[i].output@)
}

/// Field numbers are unique inside a message.
pub open spec fn field_numbers_unique(m: MessageDecl) -> bool {
    forall|i: int, j: int|
        0 <= i < j < m.fields@.len() ==> m.fields@[i].number != m.fields@[j].number
}

/// Every type referenced anywhere in the three lists resolves inside them.
pub open spec fn refs_closed(
    svcs: Seq<ServiceDecl>,
    msgs: Seq<MessageDecl>,
    enums: Seq<EnumDecl>,
) -> bool {
    &&& forall|i: int| 0 <= i < msgs.len() ==> message_refs_ok(#[trigger] msgs[i], msgs, enums)
    &&& forall|i: int| 0 <= i < svcs.len() ==> service_refs_ok(#[trigger] svcs[i], msgs)
}

/// Symbol names are unique within and across the three categories.
pub open spec fn pool_names_unique(
    svcs: Seq<ServiceDecl>,
    msgs: Seq<MessageDecl>,
    enums: Seq<EnumDecl>,
) -> bool {
    &&& forall|i: int, j: int| 0 <= i < j < svcs.len() ==> svcs[i].fqn@ != svcs[j].fqn@
    &&& forall|i: int, j: int| 0 <= i < j < msgs.len() ==> msgs[i].fqn@ != msgs[j].fqn@
    &&& forall|i: int, j: int| 0 <= i < j < enums.len() ==> enums[i].fqn@ != enums[j].fqn@
    &&& forall|i: int| 0 <= i < msgs.len() ==> !has_service(svcs, (#[trigger] msgs[i]).fqn@)
    &&& forall|i: int|
        0 <= i < enums.len() ==> !has_service(svcs, (#[trigger] enums[i]).fqn@) && !has_message(
            msgs,
            enums[i].fqn@,
        )
}

/// The conditions under which a file set builds into a pool.
pub open spec fn files_valid(files: Seq<FileDecl>) -> bool {
    &&& file_names_unique(files)
    &&& imports_present(files)
    &&& pool_names_unique(all_services(files), all_messages(files), all_enums(files))
    &&& forall|i: int|
        0 <= i < all_messages(files).len() ==> field_numbers_unique(
            #[trigger] all_messages(files)[i],
        )
    &&& refs_closed(all_services(files), all_messages(files), all_enums(files))
}

/// An immutable, flat table of definitions. A value of this type only exists
/// for file sets that passed every build check, so its symbol names are unique
/// and every reference resolves (the pool is closed).
#[derive(Debug, Clone)]
pub struct DescriptorPool {
    pub services: Vec<ServiceDecl>,
    pub messages: Vec<MessageDecl>,
    pub enums: Vec<EnumDecl>,
}

impl DescriptorPool {
    /// Symbol names are unique across the whole pool.
    pub open spec fn wf(self) -> bool {
        pool_names_unique(self.services@, self.messages@, self.enums@)
    }

    /// Every referenced type resolves inside the pool.
    pub open spec fn closed(self) -> bool {
        refs_closed(self.services@, self.messages@, self.enums@)
    }
}

fn check_file_names(files: &Vec<FileDecl>) -> (r: Option<DescriptorError>)
    ensures
        r is None <==> file_names_unique(files@),
{
    let n: usize = files.len();
    let mut i: usize = 0;
    while i < n
        invariant
            0 <= i <= n,
            n == files@.len(),
            forall|a: int, b: int| 0 <= a < b < i ==> files@[a].name@ != files@[b].name@,
        decreases n - i,
    {
        let mut j: usize = 0;
        while j < i
            invariant
                0 <= j <= i < n,
                n == files@.len(),
                forall|a: int| 0 <= a < j ==> files@[a].name@ != files@[i as int].name@,
        decreases i - j,
        {
            if str_eq(files[j].name.as_str(), files[i].name.as_str()) {
                return Some(DescriptorError::DuplicateFileName(files[i].name.clone()));
            }
            j += 1;
        }
        i += 1;
    }
    None
}

fn has_file(files: &Vec<FileDecl>, name: &str) -> (r: bool)
    ensures
        r <==> exists|k: int| 0 <= k < files@.len() && files@[k].name@ == name@,
{
    let n: usize = files.len();
    let mut i: usize = 0;
    while i < n
        invariant
            0 <= i <= n,
            n == files@.len(),
            forall|k: int| 0 <= k < i ==> files@[k].name@ != name@,
        decreases n - i,
    {
        if str_eq(files[i].name.as_str(), name) {
            return true;
        }
        i += 1;
    }
    false
}

fn check_imports(files: &Vec<FileDecl>) -> (r: Option<DescriptorError>)
    ensures
        r is None <==> imports_present(files@),
{
    let n: usize = files.len();
    let mut i: usize = 0;
    while i < n
        invariant
            0 <= i <= n,
            n == files@.len(),
            forall|a: int, b: int|
                0 <= a < i && 0 <= b < files@[a].imports@.len() ==> exists|k: int|
                    0 <= k < files@.len() && files@[k].name@ == (#[trigger] files@[a].imports@[b])@,
        decreases n - i,
    {
        let m: usize = files[i].imports.len();
        let mut j: usize = 0;
        while j < m
            invariant
                0 <= j <= m,
                0 <= i < n,
                n == files@.len(),
                m == files@[i as int].imports@.len(),
                forall|b: int|
                    0 <= b < j ==> exists|k: int|
                        0 <= k < files@.len() && files@[k].name@ == (#[trigger] files@[i as int].imports@[b])@,
            decreases m - j,
        {
            if !has_file(files, files[i].imports[j].as_str()) {
                return Some(
                    DescriptorError::MissingImport {
                        file: files[i].name.clone(),
                        import: files[i].imports[j].clone(),
                    },
                );
            }
            j += 1;
        }
        i += 1;
    }
    None
}

fn flatten_files(files: Vec<FileDecl>) -> (r: (Vec<ServiceDecl>, Vec<MessageDecl>, Vec<EnumDecl>))
    ensures
        r.0@ == all_services(files@),
        r.1@ == all_messages(files@),
        r.2@ == all_enums(files@),
{
    let ghost fs = files@;
    let mut svcs: Vec<ServiceDecl> = Vec::new();
    let mut msgs: Vec<MessageDecl> = Vec::new();
    let mut enums: Vec<EnumDecl> = Vec::new();
    let mut rest = files;
    let ghost mut k: int = 0;
    proof {
        assert(fs.take(0).flat_map(|f: FileDecl| f.services@) =~= Seq::<ServiceDecl>::empty());
        assert(fs.take(0).flat_map(|f: FileDecl| f.messages@) =~= Seq::<MessageDecl>::empty());
        assert(fs.take(0).flat_map(|f: FileDecl| f.enums@) =~= Seq::<EnumDecl>::empty());
    }
    while rest.len() > 0
        invariant
            0 <= k <= fs.len(),
            rest@ =~= fs.skip(k),
            svcs@ == all_services(fs.take(k)),
            msgs@ == all_messages(fs.take(k)),
            enums@ == all_enums(fs.take(k)),
        decreases rest@.len(),
    {
        let mut f = rest.remove(0);
        proof {
            assert(f == fs[k]);
            fs.lemma_flat_map_take_append(|x: FileDecl| x.services@, k);
            fs.lemma_flat_map_take_append(|x: FileDecl| x.messages@, k);
            fs.lemma_flat_map_take_append(|x: FileDecl| x.enums@, k);
        }
        svcs.append(&mut f.services);
        msgs.append(&mut f.messages);
        enums.append(&mut f.enums);
        proof {
            assert(rest@ =~= fs.skip(k + 1));
            k = k + 1;
        }
    }
    proof {
        assert(fs.take(k) =~= fs);
    }
    (svcs, msgs, enums)
}

fn check_unique_symbols(
    svcs: &Vec<ServiceDecl>,
    msgs: &Vec<MessageDecl>,
    enums: &Vec<EnumDecl>,
) -> (r: Option<DescriptorError>)
    ensures
        r is None <==> pool_names_unique(svcs@, msgs@, enums@),
{
    let ns: usize = svcs.len();
    let mut i: usize = 0;
    while i < ns
        invariant
            0 <= i <= ns,
            ns == svcs@.len(),
            forall|a: int, b: int| 0 <= a < b < i ==> svcs@[a].fqn@ != svcs@[b].fqn@,
        decreases ns - i,
    {
        let mut j: usize = 0;
        while j < i
            invariant
                0 <= j <= i < ns,
                ns == svcs@.len(),
                forall|a: int| 0 <= a < j ==> svcs@[a].fqn@ != svcs@[i as int].fqn@,
            decreases i - j,
        {
            if str_eq(svcs[j].fqn.as_str(), svcs[i].fqn.as_str()) {
                return Some(DescriptorError::DuplicateSymbol(svcs[i].fqn.clone()));
            }
            j += 1;
        }
        i += 1;
    }
    let nm: usize = msgs.len();
    let mut i: usize = 0;
    while i < nm
        invariant
            0 <= i <= nm,
            nm == msgs@.len(),
            forall|a: int, b: int| 0 <= a < b < i ==> msgs@[a].fqn@ != msgs@[b].fqn@,
            forall|a: int| 0 <= a < i ==> !has_service(svcs@, (#[trigger] msgs@[a]).fqn@),
        decreases nm - i,
    {
        let mut j: usize = 0;
        while j < i
            invariant
                0 <= j <= i < nm,
                nm == msgs@.len(),
                forall|a: int| 0 <= a < j ==> msgs@[a].fqn@ != msgs@[i as int].fqn@,
            decreases i - j,
        {
            if str_eq(msgs[j].fqn.as_str(), msgs[i].fqn.as_str()) {
                return Some(DescriptorError::DuplicateSymbol(msgs[i].fqn.clone()));
            }
            j += 1;
        }
        if find_service(svcs, msgs[i].fqn.as_str()).is_some() {
            return Some(DescriptorError::DuplicateSymbol(msgs[i].fqn.clone()));
        }
        i += 1;
    }
    let ne: usize = enums.len();
    let mut i: usize = 0;
    while i < ne
        invariant
            0 <= i <= ne,
            ne == enums@.len(),
            forall|a: int, b: int| 0 <= a < b < i ==> enums@[a].fqn@ != enums@[b].fqn@,
            forall|a: int|
                0 <= a < i ==> !has_service(svcs@, (#[trigger] enums@[a]).fqn@) && !has_message(
                    msgs@,
                    enums@[a].fqn@,
                ),
        decreases ne - i,
    {
        let mut j: usize = 0;
        while j < i
            invariant
                0 <= j <= i < ne,
                ne == enums@.len(),
                forall|a: int| 0 <= a < j ==> enums@[a].fqn@ != enums@[i as int].fqn@,
            decreases i - j,
        {
            if str_eq(enums[j].fqn.as_str(), enums[i].fqn.as_str()) {
                return Some(DescriptorError::DuplicateSymbol(enums[i].fqn.clone()));
            }
            j += 1;
        }
        if find_service(svcs, enums[i].fqn.as_str()).is_some() {
            return Some(DescriptorError::DuplicateSymbol(enums[i].fqn.clone()));
        }
        if find_message(msgs, enums[i].fqn.as_str()).is_some() {
            return Some(DescriptorError::DuplicateSymbol(enums[i].fqn.clone()));
        }
        i += 1;
    }
    None
}

fn check_field_numbers(msgs: &Vec<MessageDecl>) -> (r: Option<DescriptorError>)
    ensures
        r is None <==> forall|i: int|
            0 <= i < msgs@.len() ==> field_numbers_unique(#[trigger] msgs@[i]),
{
    let n: usize = msgs.len();
    let mut i: usize = 0;
    while i < n
        invariant
            0 <= i <= n,
            n == msgs@.len(),
            forall|a: int| 0 <= a < i ==> field_numbers_unique(#[trigger] msgs@[a]),
        decreases n - i,
    {
        let nf: usize = msgs[i].fields.len();
        let mut a: usize = 0;
        while a < nf
            invariant
                0 <= a <= nf,
                0 <= i < n,
                n == msgs@.len(),
                nf == msgs@[i as int].fields@.len(),
                forall|x: int, y: int|
                    0 <= x < y < nf && x < a ==> msgs@[i as int].fields@[x].number != msgs@[
                        i as int
                    ].fields@[y].number,
            decreases nf - a,
        {
            let mut b: usize = a + 1;
            while b < nf
                invariant
                    0 <= a < b <= nf,
                    0 <= i < n,
                    n == msgs@.len(),
                    nf == msgs@[i as int].fields@.len(),
                    forall|y: int|
                        a < y < b ==> msgs@[i as int].fields@[a as int].number != msgs@[
                            i as int
                        ].fields@[y].number,
                decreases nf - b,
            {
                if msgs[i].fields[a].number == msgs[i].fields[b].number {
                    return Some(
                        DescriptorError::DuplicateFieldNumber {
                            message: msgs[i].fqn.clone(),
                            number: msgs[i].fields[a].number,
                        },
                    );
                }
                b += 1;
            }
            a += 1;
        }
        i += 1;
    }
    None
}

fn check_refs(
    svcs: &Vec<ServiceDecl>,
    msgs: &Vec<MessageDecl>,
    enums: &Vec<EnumDecl>,
) -> (r: Option<DescriptorError>)
    ensures
        r is None <==> refs_closed(svcs@, msgs@, enums@),
{
    let nm: usize = msgs.len();
    let mut i: usize = 0;
    while i < nm
        invariant
            0 <= i <= nm,
            nm == msgs@.len(),
            forall|a: int| 0 <= a < i ==> message_refs_ok(#[trigger] msgs@[a], msgs@, enums@),
        decreases nm - i,
    {
        let nf: usize = msgs[i].fields.len();
        let mut j: usize = 0;
        while j < nf
            invariant
                0 <= j <= nf,
                0 <= i < nm,
                nm == msgs@.len(),
                nf == msgs@[i as int].fields@.len(),
                forall|b: int|
                    0 <= b < j ==> field_ref_ok(#[trigger] msgs@[i as int].fields@[b], msgs@, enums@),
            decreases nf - j,
        {
            match &msgs[i].fields[j].kind {
                FieldKind::Message(t) => {
                    if find_message(msgs, t.as_str()).is_none() {
                        return Some(
                            DescriptorError::UnresolvedReference {
                                referrer: msgs[i].fqn.clone(),
                                target: t.clone(),
                            },
                        );
                    }
                },
                FieldKind::Enum(t) => {
                    if find_enum(enums, t.as_str()).is_none() {
                        return Some(
                            DescriptorError::UnresolvedReference {
                                referrer: msgs[i].fqn.clone(),
                                target: t.clone(),
                            },
                        );
                    }
                },
                _ => {},
            }
            j += 1;
        }
        i += 1;
    }
    let ns: usize = svcs.len();
    let mut i: usize = 0;
    while i < ns
        invariant
            0 <= i <= ns,
            ns == svcs@.len(),
            forall|a: int| 0 <= a < i ==> service_refs_ok(#[trigger] svcs@[a], msgs@),
        decreases ns - i,
    {
        let nme: usize = svcs[i].methods.len();
        let mut j: usize = 0;
        while j < nme
            invariant
                0 <= j <= nme,
                0 <= i < ns,
                ns == svcs@.len(),
                nme == svcs@[i as int].methods@.len(),
                forall|b: int|
                    0 <= b < j ==> has_message(msgs@, (#[trigger] svcs@[i as int].methods@[b]).input@)
                        && has_message(msgs@, svcs@[i as int].methods@[b].output@),
            decreases nme - j,
        {
            if find_message(msgs, svcs[i].methods[j].input.as_str()).is_none() {
                return Some(
                    DescriptorError::UnresolvedReference {
                        referrer: svcs[i].fqn.clone(),
                        target: svcs[i].methods[j].input.clone(),
                    },
                );
            }
            if find_message(msgs, svcs[i].methods[j].output.as_str()).is_none() {
                return Some(
                    DescriptorError::UnresolvedReference {
                        referrer: svcs[i].fqn.clone(),
                        target: svcs[i].methods[j].output.clone(),
                    },
                );
            }
            j += 1;
        }
        i += 1;
    }
    None
}

impl DescriptorPool {
    /// Builds a pool from a set of file records, rejecting a set with
    /// duplicate filenames, imports that do not close, duplicate symbol names,
    /// duplicate field numbers, or references that do not resolve. A pool is
    /// returned exactly for valid sets, and it holds exactly the definitions
    /// of the files, in file order.
    pub fn from_file_descriptor_set(files: Vec<FileDecl>) -> (r: Result<
        DescriptorPool,
        DescriptorError,
    >)
        ensures
            match r {
                Ok(pool) => {
                    &&& files_valid(files@)
                    &&& pool.services@ == all_services(files@)
                    &&& pool.messages@ == all_messages(files@)
                    &&& pool.enums@ == all_enums(files@)
                    &&& pool.wf()
                    &&& pool.closed()
                },
                Err(_) => !files_valid(files@),
            },
    {
        if let Some(e) = check_file_names(&files) {
            return Err(e);
        }
        if let Some(e) = check_imports(&files) {
            return Err(e);
        }
        let (svcs, msgs, enums) = flatten_files(files);
        if let Some(e) = check_unique_symbols(&svcs, &msgs, &enums) {
            return Err(e);
        }
        if let Some(e) = check_field_numbers(&msgs) {
            return Err(e);
        }
        if let Some(e) = check_refs(&svcs, &msgs, &enums) {
            return Err(e);
        }
        Ok(DescriptorPool { services: svcs, messages: msgs, enums })
    }
}

/// The position of the first service named `fqn`, if any.
pub fn find_service(v: &Vec<ServiceDecl>, fqn: &str) -> (r: Option<usize>)
    ensures
        match r {
            Some(i) => 0 <= i < v@.len() && v@[i as int].fqn@ == fqn@ && (forall|j: int|
                0 <= j < i ==> v@[j].fqn@ != fqn@),
            None => !has_service(v@, fqn@),
        },
{
    let n: usize = v.len();
    let mut i: usize = 0;
    while i < n
        invariant
            0 <= i <= n,
            n == v@.len(),
            forall|j: int| 0 <= j < i ==> v@[j].fqn@ != fqn@,
        decreases n - i,
    {
        if str_eq(v[i].fqn.as_str(), fqn) {
            return Some(i);
        }
        i += 1;
    }
    None
}

/// The position of the first message named `fqn`, if any.
pub fn find_message(v: &Vec<MessageDecl>, fqn: &str) -> (r: Option<usize>)
    ensures
        match r {
            Some(i) => 0 <= i < v@.len() && v@[i as int].fqn@ == fqn@ && (forall|j: int|
                0 <= j < i ==> v@[j].fqn@ != fqn@),
            None => !has_message(v@, fqn@),
        },
{
    let n: usize = v.len();
    let mut i: usize = 0;
    while i < n
        invariant
            0 <= i <= n,
            n == v@.len(),
            forall|j: int| 0 <= j < i ==> v@[j].fqn@ != fqn@,
        decreases n - i,
    {
        if str_eq(v[i].fqn.as_str(), fqn) {
            return Some(i);
        }
        i += 1;
    }
    None
}

/// The position of the first enum named `fqn`, if any.
pub fn find_enum(v: &Vec<EnumDecl>, fqn: &str) -> (r: Option<usize>)
    ensures
        match r {
            Some(i) => 0 <= i < v@.len() && v@[i as int].fqn@ == fqn@ && (forall|j: int|
                0 <= j < i ==> v@[j].fqn@ != fqn@),
            None => !has_enum(v@, fqn@),
        },
{
    let n: usize = v.len();
    let mut i: usize = 0;
    while i < n
        invariant
            0 <= i <= n,
            n == v@.len(),
            forall|j: int| 0 <= j < i ==> v@[j].fqn@ != fqn@,
        decreases n - i,
    {
        if str_eq(v[i].fqn.as_str(), fqn) {
            return Some(i);
        }
        i += 1;
    }
    None
}

/// Exactly what resolving a symbol returns: a service when the pool has one
/// of that name; otherwise a message when the pool has one; otherwise an
/// enum; otherwise nothing. The found descriptor is the pool's own entry and
/// carries the symbol as its full name.
pub open spec fn describe_post(
    pool: DescriptorPool,
    symbol: Seq<char>,
    r: Option<Descriptor<'_>>,
) -> bool {
    match r {
        Some(d) => match d {
            Descriptor::ServiceDescriptor(s) => {
                &&& s.fqn@ == symbol
                &&& has_service(pool.services@, symbol)
                &&& exists|i: int|
                    0 <= i < pool.services@.len() && *s == #[trigger] pool.services@[i]
            },
            Descriptor::MessageDescriptor(m) => {
                &&& m.fqn@ == symbol
                &&& !has_service(pool.services@, symbol)
                &&& has_message(pool.messages@, symbol)
                &&& exists|i: int|
                    0 <= i < pool.messages@.len() && *m == #[trigger] pool.messages@[i]
            },
            Descriptor::EnumDescriptor(e) => {
                &&& e.fqn@ == symbol
                &&& !has_service(pool.services@, symbol)
                &&& !has_message(pool.messages@, symbol)
                &&& has_enum(pool.enums@, symbol)
                &&& exists|i: int| 0 <= i < pool.enums@.len() && *e == #[trigger] pool.enums@[i]
            },
        },
        None => !has_service(pool.services@, symbol) && !has_message(pool.messages@, symbol)
            && !has_enum(pool.enums@, symbol),
    }
}

/// A resolved symbol: a reference to one definition of the pool, tagged by
/// category.
#[derive(Debug)]
pub enum Descriptor<'a> {
    MessageDescriptor(&'a MessageDecl),
    ServiceDescriptor(&'a ServiceDecl),
    EnumDescriptor(&'a EnumDecl),
}

impl<'a> Descriptor<'a> {
    /// The fully-qualified name, for contracts.
    pub open spec fn full_name_spec(&self) -> Seq<char> {
        match *self {
            Descriptor::MessageDescriptor(m) => m.fqn@,
            Descriptor::ServiceDescriptor(s) => s.fqn@,
            Descriptor::EnumDescriptor(e) => e.fqn@,
        }
    }

    /// The simple name of the inner descriptor (for example `MyMessage`).
    pub fn name(&self) -> (r: &'a String)
        ensures
            r@ == match *self {
                Descriptor::MessageDescriptor(m) => m.name@,
                Descriptor::ServiceDescriptor(s) => s.name@,
                Descriptor::EnumDescriptor(e) => e.name@,
            },
    {
        match self {
            Descriptor::MessageDescriptor(m) => &m.name,
            Descriptor::ServiceDescriptor(s) => &s.name,
            Descriptor::EnumDescriptor(e) => &e.name,
        }
    }

    /// The fully-qualified name (for example `my.package.MyMessage`).
    pub fn full_name(&self) -> (r: &'a String)
        ensures
            r@ == match *self {
                Descriptor::MessageDescriptor(m) => m.fqn@,
                Descriptor::ServiceDescriptor(s) => s.fqn@,
                Descriptor::EnumDescriptor(e) => e.fqn@,
            },
    {
        match self {
            Descriptor::MessageDescriptor(m) => &m.fqn,
            Descriptor::ServiceDescriptor(s) => &s.fqn,
            Descriptor::EnumDescriptor(e) => &e.fqn,
        }
    }

    /// The package name (for example `my.package`).
    pub fn package_name(&self) -> (r: &'a String)
        ensures
            r@ == match *self {
                Descriptor::MessageDescriptor(m) => m.package@,
                Descriptor::ServiceDescriptor(s) => s.package@,
                Descriptor::EnumDescriptor(e) => e.package@,
            },
    {
        match self {
            Descriptor::MessageDescriptor(m) => &m.package,
            Descriptor::ServiceDescriptor(s) => &s.package,
            Descriptor::EnumDescriptor(e) => &e.package,
        }
    }

    /// The inner message, when this names a message.
    pub fn message_descriptor(&self) -> (r: Option<&'a MessageDecl>)
        ensures
            match *self {
                Descriptor::MessageDescriptor(m) => r == Some(m),
                _ => r is None,
            },
    {
        match self {
            Descriptor::MessageDescriptor(m) => Some(m),
            _ => None,
        }
    }

    /// The inner service, when this names a service.
    pub fn service_descriptor(&self) -> (r: Option<&'a ServiceDecl>)
        ensures
            match *self {
                Descriptor::ServiceDescriptor(s) => r == Some(s),
                _ => r is None,
            },
    {
        match self {
            Descriptor::ServiceDescriptor(s) => Some(s),
            _ => None,
        }
    }

    /// The inner enum, when this names an enum.
    pub fn enum_descriptor(&self) -> (r: Option<&'a EnumDecl>)
        ensures
            match *self {
                Descriptor::EnumDescriptor(e) => r == Some(e),
                _ => r is None,
            },
    {
        match self {
            Descriptor::EnumDescriptor(e) => Some(e),
            _ => None,
        }
    }
}

impl ServiceDecl {
    /// The first method of this service named `name`, if any.
    pub fn find_method(&self, name: &str) -> (r: Option<&MethodDecl>)
        ensures
            match r {
                Some(m) => exists|i: int|
                    0 <= i < self.methods@.len() && *m == self.methods@[i] && m.name@ == name@,
                None => forall|i: int| 0 <= i < self.methods@.len() ==> self.methods@[i].name@ != name@,
            },
    {
        let n: usize = self.methods.len();
        let mut i: usize = 0;
        while i < n
            invariant
                0 <= i <= n,
                n == self.methods@.len(),
                forall|j: int| 0 <= j < i ==> self.methods@[j].name@ != name@,
            decreases n - i,
        {
            if str_eq(self.methods[i].name.as_str(), name) {
                return Some(&self.methods[i]);
            }
            i += 1;
        }
        None
    }
}

impl DescriptorPool {
    /// The service with the given fully-qualified name, if any.
    pub fn get_service_by_name(&self, name: &str) -> (r: Option<&ServiceDecl>)
        ensures
            match r {
                Some(s) => exists|i: int|
                    0 <= i < self.services@.len() && *s == self.services@[i] && s.fqn@ == name@,
                None => !has_service(self.services@, name@),
            },
    {
        match find_service(&self.services, name) {
            Some(i) => Some(&self.services[i]),
            None => None,
        }
    }

    /// The message with the given fully-qualified name, if any.
    pub fn get_message_by_name(&self, name: &str) -> (r: Option<&MessageDecl>)
        ensures
            match r {
                Some(m) => exists|i: int|
                    0 <= i < self.messages@.len() && *m == self.messages@[i] && m.fqn@ == name@,
                None => !has_message(self.messages@, name@),
            },
    {
        match find_message(&self.messages, name) {
            Some(i) => Some(&self.messages[i]),
            None => None,
        }
    }

    /// The enum with the given fully-qualified name, if any.
    pub fn get_enum_by_name(&self, name: &str) -> (r: Option<&EnumDecl>)
        ensures
            match r {
                Some(e) => exists|i: int|
                    0 <= i < self.enums@.len() && *e == self.enums@[i] && e.fqn@ == name@,
                None => !has_enum(self.enums@, name@),
            },
    {
        match find_enum(&self.enums, name) {
            Some(i) => Some(&self.enums[i]),
            None => None,
        }
    }

    /// All services of the pool, in file order.
    pub fn services(&self) -> (r: &Vec<ServiceDecl>)
        ensures
            r == &self.services,
    {
        &self.services
    }

    /// The fully-qualified names of all services, in pool order.
    pub fn list_services(&self) -> (r: Vec<String>)
        ensures
            r@.len() == self.services@.len(),
            forall|i: int| 0 <= i < r@.len() ==> (#[trigger] r@[i])@ == self.services@[i].fqn@,
    {
        let n: usize = self.services.len();
        let mut out: Vec<String> = Vec::new();
        let mut i: usize = 0;
        while i < n
            invariant
                0 <= i <= n,
                n == self.services@.len(),
                out@.len() == i,
                forall|j: int| 0 <= j < i ==> (#[trigger] out@[j])@ == self.services@[j].fqn@,
            decreases n - i,
        {
            out.push(self.services[i].fqn.clone());
            i += 1;
        }
        out
    }

    /// Resolves a symbol, trying services first, then messages, then enums,
    /// in that fixed order.
    pub fn get_descriptor_by_symbol(&self, symbol: &str) -> (r: Option<Descriptor<'_>>)
        ensures
            describe_post(*self, symbol@, r),
    {
        if let Some(s) = self.get_service_by_name(symbol) {
            return Some(Descriptor::ServiceDescriptor(s));
        }
        if let Some(m) = self.get_message_by_name(symbol) {
            return Some(Descriptor::MessageDescriptor(m));
        }
        if let Some(e) = self.get_enum_by_name(symbol) {
            return Some(Descriptor::EnumDescriptor(e));
        }
        None
    }
}

} // verus!
