//! The server-reflection resolver.
//!
//! The gRPC Server Reflection protocol is a bidirectional stream: each
//! outbound request (`FileContainingSymbol`, `FileByFilename`, `ListServices`)
//! is answered by exactly one terminal response. [`ReflectionResolver`] is the
//! decision core of the import-closure fetch: it counts in-flight requests,
//! collects decoded file descriptors, de-duplicates dependency fetches, and
//! says which filenames to request next. A driver performs the sends and
//! reads and feeds every inbound event to [`ReflectionResolver::step`].
//!
//! [`fetch_closure`] runs the same state machine against an in-memory model
//! of a reflection server; it is the form of the algorithm whose termination
//! and exactness are proved.

use vstd::prelude::*;
use vstd::seq_lib::*;
use vstd::set_lib::lemma_len_subset;
use vstd::string::*;

use crate::status::{CODE_NOT_FOUND, Status};
use crate::text::str_eq;

verus! {

/// What the resolver reads of one decoded `FileDescriptorProto`: its name,
/// its imports, and the raw bytes it was decoded from (kept so that a caller
/// can rebuild the full descriptor set afterwards).
#[derive(Debug)]
pub struct FileRecord {
    pub name: String,
    pub imports: Vec<String>,
    pub bytes: Vec<u8>,
}

/// The abstract content of a file record.
pub struct FileRecordView {
    pub name: Seq<char>,
    pub imports: Seq<Seq<char>>,
    pub bytes: Seq<u8>,
}

pub open spec fn str_views(ss: Seq<String>) -> Seq<Seq<char>> {
    ss.map_values(|s: String| s@)
}

impl View for FileRecord {
    type V = FileRecordView;

    open spec fn view(&self) -> FileRecordView {
        FileRecordView { name: self.name@, imports: str_views(self.imports@), bytes: self.bytes@ }
    }
}

impl FileRecord {
    /// A copy with the same content.
    pub fn duplicate(&self) -> (r: FileRecord)
        ensures
            r@ == self@,
    {
        let mut imports: Vec<String> = Vec::new();
        let n: usize = self.imports.len();
        let mut i: usize = 0;
        while i < n
            invariant
                0 <= i <= n,
                n == self.imports@.len(),
                imports@.len() == i,
                forall|j: int| 0 <= j < i ==> (#[trigger] imports@[j])@ == self.imports@[j]@,
            decreases n - i,
        {
            imports.push(self.imports[i].clone());
            i += 1;
        }
        let mut bytes: Vec<u8> = Vec::new();
        let nb: usize = self.bytes.len();
        let mut i: usize = 0;
        while i < nb
            invariant
                0 <= i <= nb,
                nb == self.bytes@.len(),
                bytes@ == self.bytes@.take(i as int),
            decreases nb - i,
        {
            bytes.push(self.bytes[i]);
            proof {
                assert(bytes@ =~= self.bytes@.take(i + 1));
            }
            i += 1;
        }
        let r = FileRecord { name: self.name.clone(), imports, bytes };
        proof {
            assert(bytes@ =~= self.bytes@.take(nb as int));
            assert(self.bytes@.take(nb as int) =~= self.bytes@);
            assert(str_views(r.imports@) =~= str_views(self.imports@));
        }
        r
    }
}

/// What decoding a `FileDescriptorProto` yields: the optional filename and
/// the import list. The result is a function of the bytes alone; `None` means
/// the bytes do not decode.
pub struct FileMeta {
    pub name: Option<Seq<char>>,
    pub imports: Seq<Seq<char>>,
}

/// The name and imports that prost's `FileDescriptorProto` decoder reads out
/// of an encoded descriptor, or `None` where decoding fails.
pub uninterp spec fn parsed_file(bytes: Seq<u8>) -> Option<FileMeta>;

/// The view of an optional string.
pub open spec fn opt_str_view(o: Option<String>) -> Option<Seq<char>> {
    match o {
        Some(s) => Some(s@),
        None => None,
    }
}

/// The error type prost reports when bytes fail to decode.
#[verifier::external_type_specification]
#[verifier::external_body]
pub struct ExDecodeError(prost::DecodeError);

/// Relies on prost's `Message::decode` for `prost_types::FileDescriptorProto`:
/// whether the bytes decode, and the name and dependency list of the decoded
/// file, are functions of the bytes alone.
#[verifier::external_body]
fn decode_file_descriptor(raw: &Vec<u8>) -> (r: Result<
    (Option<String>, Vec<String>),
    prost::DecodeError,
>)
    ensures
        match r {
            Ok(p) => parsed_file(raw@) is Some && (parsed_file(raw@)->Some_0).name == opt_str_view(
                p.0,
            ) && (parsed_file(raw@)->Some_0).imports == str_views(p.1@),
            Err(_) => parsed_file(raw@) is None,
        },
{
    match <prost_types::FileDescriptorProto as prost::Message>::decode(raw.as_slice()) {
        Ok(fd) => Ok((fd.name, fd.dependency)),
        Err(e) => Err(e),
    }
}

/// One outbound reflection request.
#[derive(Debug, PartialEq)]
pub enum MessageRequest {
    FileContainingSymbol(String),
    FileByFilename(String),
    ListServices,
}

/// One inbound reflection response payload.
#[derive(Debug)]
pub enum MessageResponse {
    /// A batch of encoded `FileDescriptorProto`s.
    FileDescriptorResponse(Vec<Vec<u8>>),
    /// The fully-qualified names of the server's services.
    ListServicesResponse(Vec<String>),
    /// The server reports an error for the corresponding request.
    ErrorResponse { code: i32, message: String },
    /// Any response variant this client does not use, by name.
    Other(String),
}

/// What the driver observed on the inbound side of the stream.
#[derive(Debug)]
pub enum ReflectionEvent {
    /// A response message carrying a payload.
    Response(MessageResponse),
    /// A response message with no payload.
    EmptyMessage,
    /// The stream failed with a status.
    Failed(Status),
    /// The server closed the stream.
    Closed,
}

/// Why reflection resolution failed.
#[derive(Debug)]
pub enum ReflectionResolveError {
    /// The stream could not be opened; the server may not support reflection.
    ServerStreamInitFailed(Status),
    /// The stream failed mid-way.
    ServerStreamFailure(Status),
    /// The stream closed while responses were still owed.
    StreamClosed,
    /// The outbound side of the stream was gone.
    SendFailed,
    /// The server answered with an error response.
    ServerError { code: i32, message: String },
    /// The server answered with a variant this client cannot use.
    UnexpectedResponseType(String),
    /// A file descriptor in a response did not decode.
    DecodeError(prost::DecodeError),
}

pub open spec fn names_contain(ss: Seq<String>, x: Seq<char>) -> bool {
    exists|i: int| 0 <= i < ss.len() && ss[i]@ == x
}

pub open spec fn recs_contain(rs: Seq<FileRecord>, x: Seq<char>) -> bool {
    exists|i: int| 0 <= i < rs.len() && rs[i].name@ == x
}

pub open spec fn names_distinct(ss: Seq<String>) -> bool {
    forall|i: int, j: int| 0 <= i < j < ss.len() ==> ss[i]@ != ss[j]@
}

pub open spec fn rec_names_distinct(rs: Seq<FileRecord>) -> bool {
    forall|i: int, j: int| 0 <= i < j < rs.len() ==> rs[i].name@ != rs[j].name@
}

/// The filenames of the records, in order.
pub open spec fn rec_names(rs: Seq<FileRecord>) -> Seq<Seq<char>> {
    rs.map_values(|r: FileRecord| r.name@)
}

/// The abstract content of the records, in order.
pub open spec fn recs_views(rs: Seq<FileRecord>) -> Seq<FileRecordView> {
    rs.map_values(|r: FileRecord| r@)
}

proof fn lemma_recs_contain_names(rs: Seq<FileRecord>, x: Seq<char>)
    ensures
        recs_contain(rs, x) <==> rec_names(rs).contains(x),
{
    if recs_contain(rs, x) {
        let i = choose|i: int| 0 <= i < rs.len() && rs[i].name@ == x;
        assert(rec_names(rs)[i] == x);
    }
    if rec_names(rs).contains(x) {
        let i = choose|i: int| 0 <= i < rec_names(rs).len() && rec_names(rs)[i] == x;
        assert(rs[i].name@ == x);
    }
}

proof fn lemma_names_contain_views(ss: Seq<String>, x: Seq<char>)
    ensures
        names_contain(ss, x) <==> str_views(ss).contains(x),
{
    if names_contain(ss, x) {
        let i = choose|i: int| 0 <= i < ss.len() && ss[i]@ == x;
        assert(str_views(ss)[i] == x);
    }
    if str_views(ss).contains(x) {
        let i = choose|i: int| 0 <= i < str_views(ss).len() && str_views(ss)[i] == x;
        assert(ss[i]@ == x);
    }
}

/// The new by-name requests that absorbing a file with these imports issues,
/// in import order: each import neither collected nor already requested, once.
pub open spec fn queue_imports(
    imports: Seq<Seq<char>>,
    coll: Seq<Seq<char>>,
    reqd: Seq<Seq<char>>,
) -> Seq<Seq<char>>
    decreases imports.len(),
{
    if imports.len() == 0 {
        Seq::<Seq<char>>::empty()
    } else {
        let d = imports[0];
        if !coll.contains(d) && !reqd.contains(d) {
            seq![d] + queue_imports(imports.drop_first(), coll, reqd.push(d))
        } else {
            queue_imports(imports.drop_first(), coll, reqd)
        }
    }
}

fn names_contain_exec(v: &Vec<String>, x: &str) -> (r: bool)
    ensures
        r == names_contain(v@, x@),
{
    let n: usize = v.len();
    let mut i: usize = 0;
    while i < n
        invariant
            0 <= i <= n,
            n == v@.len(),
            forall|j: int| 0 <= j < i ==> v@[j]@ != x@,
        decreases n - i,
    {
        if str_eq(v[i].as_str(), x) {
            return true;
        }
        i += 1;
    }
    false
}

fn recs_contain_exec(v: &Vec<FileRecord>, x: &str) -> (r: bool)
    ensures
        r == recs_contain(v@, x@),
{
    let n: usize = v.len();
    let mut i: usize = 0;
    while i < n
        invariant
            0 <= i <= n,
            n == v@.len(),
            forall|j: int| 0 <= j < i ==> v@[j].name@ != x@,
        decreases n - i,
    {
        if str_eq(v[i].name.as_str(), x) {
            return true;
        }
        i += 1;
    }
    false
}

/// The decision core of the import-closure fetch.
///
/// `in_flight` counts requests whose terminal response has not arrived yet;
/// `collected` holds each fetched file once, in arrival order; `requested`
/// holds every filename ever asked for by name, so no dependency is fetched
/// twice.
#[derive(Debug)]
pub struct ReflectionResolver {
    pub in_flight: usize,
    pub collected: Vec<FileRecord>,
    pub requested: Vec<String>,
}

impl ReflectionResolver {
    /// The resolver's invariant: collected filenames are unique, requested
    /// filenames are unique, only requested or initially-fetched files are
    /// collected, and the in-flight count never exceeds the initial request
    /// plus one per name ever requested.
    pub open spec fn wf(self) -> bool {
        &&& rec_names_distinct(self.collected@)
        &&& names_distinct(self.requested@)
        &&& self.in_flight as int <= 1 + self.requested@.len()
    }

    /// A fresh resolver, counting the initial `FileContainingSymbol` request
    /// as in flight.
    pub fn new() -> (r: ReflectionResolver)
        ensures
            r.wf(),
            r.in_flight == 1,
            r.collected@.len() == 0,
            r.requested@.len() == 0,
    {
        ReflectionResolver { in_flight: 1, collected: Vec::new(), requested: Vec::new() }
    }

    /// Absorbs one decoded file.
    ///
    /// A file whose name was already collected changes nothing and requests
    /// nothing — receiving a duplicate is harmless. A new file is collected,
    /// and every import that is neither collected nor already requested is
    /// returned (and recorded) as a new request. `in_flight` is not touched
    /// here.
    pub fn absorb_file(&mut self, rec: FileRecord) -> (reqs: Vec<String>)
        requires
            old(self).wf(),
        ensures
            final(self).wf(),
            final(self).in_flight == old(self).in_flight,
            recs_contain(old(self).collected@, rec.name@) ==> {
                &&& final(self).collected@ == old(self).collected@
                &&& final(self).requested@ == old(self).requested@
                &&& reqs@.len() == 0
            },
            !recs_contain(old(self).collected@, rec.name@) ==> {
                &&& final(self).collected@ == old(self).collected@.push(rec)
                &&& str_views(final(self).requested@) == str_views(old(self).requested@)
                    + str_views(reqs@)
                &&& str_views(reqs@) == queue_imports(
                    str_views(rec.imports@),
                    rec_names(old(self).collected@),
                    str_views(old(self).requested@),
                )
                &&& forall|i: int|
                    0 <= i < reqs@.len() ==> {
                        &&& names_contain(rec.imports@, (#[trigger] reqs@[i])@)
                        &&& !recs_contain(old(self).collected@, reqs@[i]@)
                        &&& !names_contain(old(self).requested@, reqs@[i]@)
                    }
                &&& forall|j: int|
                    0 <= j < rec.imports@.len() ==> recs_contain(
                        final(self).collected@,
                        (#[trigger] rec.imports@[j])@,
                    ) || names_contain(final(self).requested@, rec.imports@[j]@)
            },
    {
        if recs_contain_exec(&self.collected, rec.name.as_str()) {
            return Vec::new();
        }
        let mut reqs: Vec<String> = Vec::new();
        let n: usize = rec.imports.len();
        let ghost ivs = str_views(rec.imports@);
        let ghost cn = rec_names(old(self).collected@);
        let mut j: usize = 0;
        proof {
            assert(ivs.skip(0) =~= ivs);
            assert(str_views(reqs@) + queue_imports(ivs, cn, str_views(self.requested@))
                =~= queue_imports(ivs, cn, str_views(old(self).requested@)));
        }
        while j < n
            invariant
                0 <= j <= n,
                n == rec.imports@.len(),
                ivs == str_views(rec.imports@),
                cn == rec_names(old(self).collected@),
                self.collected@ == old(self).collected@,
                self.in_flight == old(self).in_flight,
                str_views(self.requested@) == str_views(old(self).requested@) + str_views(reqs@),
                names_distinct(self.requested@),
                queue_imports(ivs, cn, str_views(old(self).requested@)) == str_views(reqs@)
                    + queue_imports(ivs.skip(j as int), cn, str_views(self.requested@)),
                forall|i: int|
                    0 <= i < reqs@.len() ==> {
                        &&& names_contain(rec.imports@, (#[trigger] reqs@[i])@)
                        &&& !recs_contain(old(self).collected@, reqs@[i]@)
                        &&& !names_contain(old(self).requested@, reqs@[i]@)
                    },
                forall|i: int|
                    0 <= i < j ==> recs_contain(
                        self.collected@,
                        (#[trigger] rec.imports@[i])@,
                    ) || names_contain(self.requested@, rec.imports@[i]@),
            decreases n - j,
        {
            proof {
                assert(ivs.skip(j as int).len() == n - j);
                assert(ivs.skip(j as int)[0] == ivs[j as int]);
                assert(ivs[j as int] == rec.imports@[j as int]@);
                assert(ivs.skip(j as int).drop_first() =~= ivs.skip(j + 1));
                lemma_recs_contain_names(self.collected@, rec.imports@[j as int]@);
                lemma_names_contain_views(self.requested@, rec.imports@[j as int]@);
            }
            let ghost prev_requested = self.requested@;
            let ghost prev_reqs = reqs@;
            let dep = &rec.imports[j];
            if !recs_contain_exec(&self.collected, dep.as_str()) && !names_contain_exec(
                &self.requested,
                dep.as_str(),
            ) {
                self.requested.push(dep.clone());
                reqs.push(dep.clone());
                proof {
                    assert(str_views(self.requested@) =~= str_views(prev_requested).push(dep@));
                    assert(str_views(reqs@) =~= str_views(prev_reqs).push(dep@));
                    assert(str_views(self.requested@) =~= str_views(old(self).requested@)
                        + str_views(reqs@));
                    // The freshly pushed request is the current import and was
                    // neither collected nor requested before.
                    assert(reqs@[reqs@.len() - 1]@ == rec.imports@[j as int]@);
                    assert(names_contain(rec.imports@, reqs@[reqs@.len() - 1]@));
                    assert(!names_contain(old(self).requested@, dep@)) by {
                        if names_contain(old(self).requested@, dep@) {
                            let i = choose|i: int|
                                0 <= i < old(self).requested@.len() && old(self).requested@[i]@
                                    == dep@;
                            assert(str_views(old(self).requested@)[i] == dep@);
                            assert(str_views(prev_requested)[i] == dep@);
                            assert(prev_requested[i]@ == dep@);
                            assert(names_contain(prev_requested, dep@));
                        }
                    }
                    assert(names_contain(self.requested@, rec.imports@[j as int]@)) by {
                        assert(self.requested@[self.requested@.len() - 1]@ == rec.imports@[
                            j as int
                        ]@);
                    }
                    assert(names_distinct(self.requested@)) by {
                        assert(forall|a: int|
                            0 <= a < prev_requested.len() ==> (#[trigger] prev_requested[a])@
                                == self.requested@[a]@);
                        assert(!names_contain(prev_requested, dep@));
                    }
                    assert(forall|i: int| 0 <= i < prev_reqs.len() ==> reqs@[i] == prev_reqs[i]);
                    // The queued name is exactly the head of the remaining
                    // import fold.
                    assert(!cn.contains(dep@)) by {
                        lemma_recs_contain_names(old(self).collected@, dep@);
                    }
                    assert(!str_views(prev_requested).contains(dep@)) by {
                        lemma_names_contain_views(prev_requested, dep@);
                    }
                    assert(queue_imports(ivs.skip(j as int), cn, str_views(prev_requested))
                        == seq![dep@] + queue_imports(
                        ivs.skip(j + 1),
                        cn,
                        str_views(prev_requested).push(dep@),
                    ));
                    assert(str_views(self.requested@) == str_views(prev_requested).push(dep@));
                    assert(str_views(prev_reqs) + queue_imports(
                        ivs.skip(j as int),
                        cn,
                        str_views(prev_requested),
                    ) =~= str_views(reqs@) + queue_imports(
                        ivs.skip(j + 1),
                        cn,
                        str_views(self.requested@),
                    ));
                }
            } else {
                proof {
                    assert(recs_contain(self.collected@, rec.imports@[j as int]@)
                        || names_contain(self.requested@, rec.imports@[j as int]@));
                    assert(cn.contains(rec.imports@[j as int]@) || str_views(
                        self.requested@,
                    ).contains(rec.imports@[j as int]@)) by {
                        lemma_recs_contain_names(old(self).collected@, rec.imports@[j as int]@);
                        lemma_names_contain_views(self.requested@, rec.imports@[j as int]@);
                    }
                    assert(queue_imports(ivs.skip(j as int), cn, str_views(self.requested@))
                        == queue_imports(ivs.skip(j + 1), cn, str_views(self.requested@)));
                }
            }
            proof {
                assert(forall|x: Seq<char>|
                    names_contain(prev_requested, x) ==> names_contain(self.requested@, x)) by {
                    assert forall|x: Seq<char>|
                        names_contain(prev_requested, x) implies names_contain(
                        self.requested@,
                        x,
                    ) by {
                        let i = choose|i: int|
                            0 <= i < prev_requested.len() && prev_requested[i]@ == x;
                        assert(self.requested@[i]@ == x);
                    }
                }
            }
            j += 1;
        }
        proof {
            assert(ivs.skip(n as int) =~= Seq::<Seq<char>>::empty());
            assert(str_views(reqs@) + Seq::<Seq<char>>::empty() =~= str_views(reqs@));
            assert(str_views(reqs@) == queue_imports(ivs, cn, str_views(old(self).requested@)));
        }
        let ghost before_push = self.collected@;
        self.collected.push(rec);
        proof {
            assert(self.collected@ == old(self).collected@.push(rec));
            assert(rec_names_distinct(self.collected@)) by {
                assert(forall|i: int|
                    0 <= i < before_push.len() ==> (#[trigger] before_push[i]).name@ != rec.name@);
                assert(forall|i: int|
                    0 <= i < before_push.len() ==> self.collected@[i] == before_push[i]);
            }
            assert forall|j: int| 0 <= j < rec.imports@.len() implies recs_contain(
                self.collected@,
                (#[trigger] rec.imports@[j])@,
            ) || names_contain(self.requested@, rec.imports@[j]@) by {
                if recs_contain(before_push, rec.imports@[j]@) {
                    let i = choose|i: int|
                        0 <= i < before_push.len() && before_push[i].name@ == rec.imports@[j]@;
                    assert(self.collected@[i].name@ == rec.imports@[j]@);
                }
            }
        }
        reqs
    }

    /// Absorbs the one file answering one by-name or by-symbol request:
    /// the response retires its request and every returned filename becomes a
    /// new in-flight request.
    pub fn on_file_response(&mut self, rec: FileRecord) -> (reqs: Vec<String>)
        requires
            old(self).wf(),
            old(self).in_flight >= 1,
        ensures
            final(self).wf(),
            final(self).in_flight as int == old(self).in_flight - 1 + reqs@.len(),
            recs_contain(old(self).collected@, rec.name@) ==> {
                &&& final(self).collected@ == old(self).collected@
                &&& final(self).requested@ == old(self).requested@
                &&& reqs@.len() == 0
            },
            !recs_contain(old(self).collected@, rec.name@) ==> {
                &&& final(self).collected@ == old(self).collected@.push(rec)
                &&& str_views(final(self).requested@) == str_views(old(self).requested@)
                    + str_views(reqs@)
                &&& str_views(reqs@) == queue_imports(
                    str_views(rec.imports@),
                    rec_names(old(self).collected@),
                    str_views(old(self).requested@),
                )
                &&& forall|i: int|
                    0 <= i < reqs@.len() ==> {
                        &&& names_contain(rec.imports@, (#[trigger] reqs@[i])@)
                        &&& !recs_contain(old(self).collected@, reqs@[i]@)
                        &&& !names_contain(old(self).requested@, reqs@[i]@)
                    }
                &&& forall|j: int|
                    0 <= j < rec.imports@.len() ==> recs_contain(
                        final(self).collected@,
                        (#[trigger] rec.imports@[j])@,
                    ) || names_contain(final(self).requested@, rec.imports@[j]@)
            },
    {
        let ghost pre = *self;
        self.in_flight = self.in_flight - 1;
        let reqs = self.absorb_file(rec);
        let bound: usize = self.requested.len();
        proof {
            if recs_contain(pre.collected@, rec.name@) {
                assert(self.requested@ == pre.requested@);
            } else {
                assert(str_views(self.requested@).len() == str_views(pre.requested@).len()
                    + str_views(reqs@).len());
            }
            assert(self.in_flight + reqs@.len() <= bound);
        }
        self.in_flight = self.in_flight + reqs.len();
        reqs
    }

    /// Feeds one inbound event to the resolver while a response is owed.
    ///
    /// A file-descriptor response retires one in-flight request, absorbs every
    /// decoded file of the batch (files without a name are skipped), and
    /// returns the filenames to request next, each already counted in flight.
    /// On success the new resolver state and the returned requests are exactly
    /// the fold of [`absorb_blob`] over the batch; a decode failure is
    /// reported exactly when some blob of the batch does not parse.
    /// Every other event is a protocol failure.
    pub fn step(&mut self, event: ReflectionEvent) -> (r: Result<
        Vec<String>,
        ReflectionResolveError,
    >)
        requires
            old(self).wf(),
            old(self).in_flight >= 1,
        ensures
            final(self).wf(),
            match r {
                Ok(reqs) => {
                    &&& event matches ReflectionEvent::Response(
                        MessageResponse::FileDescriptorResponse(_),
                    )
                    &&& final(self).in_flight as int == old(self).in_flight - 1 + reqs@.len()
                    &&& old(self).collected@.is_prefix_of(final(self).collected@)
                    &&& str_views(final(self).requested@) == str_views(old(self).requested@)
                        + str_views(reqs@)
                    &&& step_batch_post(*old(self), *final(self), reqs@, event_batch(event))
                },
                Err(e) => match event {
                    ReflectionEvent::Failed(st) => e matches
                        ReflectionResolveError::ServerStreamFailure(s) && s == st,
                    ReflectionEvent::Closed => e is StreamClosed,
                    ReflectionEvent::EmptyMessage => e is UnexpectedResponseType,
                    ReflectionEvent::Response(MessageResponse::ErrorResponse { code, message }) => e
                        matches ReflectionResolveError::ServerError { code: c, message: m } && c
                        == code && m == message,
                    ReflectionEvent::Response(MessageResponse::ListServicesResponse(_)) => e is
                        UnexpectedResponseType,
                    ReflectionEvent::Response(MessageResponse::Other(_)) => e is
                        UnexpectedResponseType,
                    ReflectionEvent::Response(MessageResponse::FileDescriptorResponse(_)) => e is
                        DecodeError && exists|i: int|
                            0 <= i < event_batch(event).len() && parsed_file(
                                (#[trigger] event_batch(event)[i])@,
                            ) is None,
                },
            },
    {
        let batch: Vec<Vec<u8>> = match event {
            ReflectionEvent::Failed(st) => {
                return Err(ReflectionResolveError::ServerStreamFailure(st));
            },
            ReflectionEvent::Closed => {
                return Err(ReflectionResolveError::StreamClosed);
            },
            ReflectionEvent::EmptyMessage => {
                return Err(
                    ReflectionResolveError::UnexpectedResponseType(
                        String::from_str("Empty Message"),
                    ),
                );
            },
            ReflectionEvent::Response(MessageResponse::ErrorResponse { code, message }) => {
                return Err(ReflectionResolveError::ServerError { code, message });
            },
            ReflectionEvent::Response(MessageResponse::ListServicesResponse(_)) => {
                return Err(
                    ReflectionResolveError::UnexpectedResponseType(
                        String::from_str("ListServicesResponse"),
                    ),
                );
            },
            ReflectionEvent::Response(MessageResponse::Other(name)) => {
                return Err(ReflectionResolveError::UnexpectedResponseType(name));
            },
            ReflectionEvent::Response(MessageResponse::FileDescriptorResponse(batch)) => {
                proof {
                    assert(event matches ReflectionEvent::Response(
                        MessageResponse::FileDescriptorResponse(_),
                    ));
                    assert(event_batch(event) == batch@);
                }
                batch
            },
        };
        self.in_flight = self.in_flight - 1;
        let mut sent: Vec<String> = Vec::new();
        let mut rest = batch;
        let ghost b0 = rest@;
        let ghost mut k: int = 0;
        proof {
            assert(b0.take(0) =~= Seq::<Vec<u8>>::empty());
            assert(run_batch(batch_start(*old(self)), b0.take(0)) == batch_start(*old(self)));
            assert(str_views(sent@) =~= Seq::<Seq<char>>::empty());
            assert(rest@ =~= b0.skip(0));
        }
        while rest.len() > 0
            invariant
                self.wf(),
                self.in_flight == old(self).in_flight - 1,
                old(self).in_flight >= 1,
                old(self).collected@.is_prefix_of(self.collected@),
                str_views(self.requested@) == str_views(old(self).requested@) + str_views(sent@),
                event matches ReflectionEvent::Response(
                    MessageResponse::FileDescriptorResponse(_),
                ),
                b0 == event_batch(event),
                0 <= k <= b0.len(),
                rest@ == b0.skip(k),
                !run_batch(batch_start(*old(self)), b0.take(k)).failed,
                recs_views(self.collected@) == run_batch(
                    batch_start(*old(self)),
                    b0.take(k),
                ).collected,
                str_views(self.requested@) == run_batch(
                    batch_start(*old(self)),
                    b0.take(k),
                ).requested,
                str_views(sent@) == run_batch(batch_start(*old(self)), b0.take(k)).sent,
            decreases rest@.len(),
        {
            let ghost stk = run_batch(batch_start(*old(self)), b0.take(k));
            let raw = rest.remove(0);
            proof {
                assert(b0.skip(k)[0] == b0[k]);
                assert(raw == b0[k]);
                assert(rest@ =~= b0.skip(k + 1));
                lemma_run_batch_snoc(batch_start(*old(self)), b0, k);
            }
            let (name_opt, imports) = match decode_file_descriptor(&raw) {
                Ok(p) => p,
                Err(e) => {
                    proof {
                        assert(parsed_file((event_batch(event)[k])@) is None);
                    }
                    return Err(ReflectionResolveError::DecodeError(e));
                },
            };
            let name = match name_opt {
                Some(name) => name,
                None => {
                    proof {
                        assert((parsed_file(raw@)->Some_0).name is None);
                        assert(absorb_blob(stk, b0[k]) == stk);
                        k = k + 1;
                    }
                    continue ;
                },
            };
            let ghost prev = *self;
            let ghost prev_sent = sent@;
            let rec = FileRecord { name, imports, bytes: raw };
            proof {
                let meta = parsed_file(raw@)->Some_0;
                assert(meta.name == Some(rec.name@));
                assert(meta.imports == str_views(rec.imports@));
                assert(rec.bytes@ == raw@);
                // The exec duplicate test and the fold's name test agree.
                assert(view_names(stk.collected) =~= rec_names(self.collected@)) by {
                    assert forall|a: int|
                        0 <= a < self.collected@.len() implies view_names(stk.collected)[a]
                        == rec_names(self.collected@)[a] by {
                        assert(recs_views(self.collected@)[a] == self.collected@[a]@);
                        assert(view_names(stk.collected)[a] == stk.collected[a].name);
                        assert(rec_names(self.collected@)[a] == self.collected@[a].name@);
                    }
                }
                lemma_recs_contain_names(self.collected@, rec.name@);
            }
            let mut reqs = self.absorb_file(rec);
            sent.append(&mut reqs);
            proof {
                let meta = parsed_file(raw@)->Some_0;
                assert(str_views(sent@) =~= str_views(prev_sent) + str_views(sent@.subrange(
                    prev_sent.len() as int,
                    sent@.len() as int,
                )));
                assert(str_views(self.requested@) =~= str_views(old(self).requested@) + str_views(
                    sent@,
                ));
                if !recs_contain(prev.collected@, rec.name@) {
                    assert(prev.collected@.is_prefix_of(self.collected@));
                    // The absorbed file and its requests are the fold's.
                    assert(!view_names(stk.collected).contains(meta.name->Some_0));
                    let qs = queue_imports(meta.imports, view_names(stk.collected), stk.requested);
                    assert(qs == str_views(sent@.subrange(
                        prev_sent.len() as int,
                        sent@.len() as int,
                    )));
                    assert(recs_views(self.collected@) =~= recs_views(prev.collected@).push(rec@));
                    assert(rec@ == absorb_blob(stk, b0[k]).collected.last());
                    assert(recs_views(self.collected@) =~= absorb_blob(stk, b0[k]).collected);
                    assert(str_views(self.requested@) =~= absorb_blob(stk, b0[k]).requested);
                    assert(str_views(sent@) =~= absorb_blob(stk, b0[k]).sent);
                } else {
                    assert(view_names(stk.collected).contains(meta.name->Some_0));
                    assert(absorb_blob(stk, b0[k]) == stk);
                    assert(str_views(sent@) =~= str_views(prev_sent));
                }
                assert(old(self).collected@.is_prefix_of(self.collected@));
                k = k + 1;
            }
        }
        proof {
            assert(b0.skip(k).len() == 0);
            assert(k == b0.len());
            assert(b0.take(k) =~= b0);
        }
        let bound: usize = self.requested.len();
        proof {
            assert(self.in_flight + sent@.len() <= bound);
        }
        self.in_flight = self.in_flight + sent.len();
        proof {
            assert(step_batch_post(*old(self), *self, sent@, event_batch(event)));
        }
        Ok(sent)
    }
}

/// An in-memory model of a reflection server: the files it serves, keyed by
/// unique filename and closed under imports, and the symbols it can resolve
/// to a defining file.
#[derive(Debug)]
pub struct ReflectionServerModel {
    pub files: Vec<FileRecord>,
    pub symbols: Vec<(String, String)>,
}

impl ReflectionServerModel {
    /// Filenames are unique, every import names a served file, and every
    /// symbol maps to a served file.
    pub open spec fn wf(self) -> bool {
        &&& rec_names_distinct(self.files@)
        &&& forall|i: int, j: int|
            0 <= i < self.files@.len() && 0 <= j < self.files@[i].imports@.len() ==> recs_contain(
                self.files@,
                (#[trigger] self.files@[i].imports@[j])@,
            )
        &&& forall|i: int|
            0 <= i < self.symbols@.len() ==> recs_contain(
                self.files@,
                (#[trigger] self.symbols@[i]).1@,
            )
    }

    /// The served file with the given filename.
    pub fn file_by_name(&self, name: &str) -> (r: Option<&FileRecord>)
        ensures
            match r {
                Some(f) => exists|k: int|
                    0 <= k < self.files@.len() && *f == self.files@[k] && f.name@ == name@,
                None => !recs_contain(self.files@, name@),
            },
    {
        let n: usize = self.files.len();
        let mut i: usize = 0;
        while i < n
            invariant
                0 <= i <= n,
                n == self.files@.len(),
                forall|j: int| 0 <= j < i ==> self.files@[j].name@ != name@,
            decreases n - i,
        {
            if str_eq(self.files[i].name.as_str(), name) {
                return Some(&self.files[i]);
            }
            i += 1;
        }
        None
    }

    /// The served file that defines the given symbol.
    pub fn file_for_symbol(&self, symbol: &str) -> (r: Option<&FileRecord>)
        requires
            self.wf(),
        ensures
            match r {
                Some(f) => exists|si: int, k: int|
                    {
                        &&& 0 <= si < self.symbols@.len()
                        &&& (#[trigger] self.symbols@[si]).0@ == symbol@
                        &&& f.name@ == self.symbols@[si].1@
                        &&& 0 <= k < self.files@.len()
                        &&& *f == #[trigger] self.files@[k]
                    },
                None => forall|si: int|
                    0 <= si < self.symbols@.len() ==> (#[trigger] self.symbols@[si]).0@ != symbol@,
            },
    {
        let n: usize = self.symbols.len();
        let mut i: usize = 0;
        while i < n
            invariant
                0 <= i <= n,
                n == self.symbols@.len(),
                self.wf(),
                forall|j: int| 0 <= j < i ==> (#[trigger] self.symbols@[j]).0@ != symbol@,
            decreases n - i,
        {
            if str_eq(self.symbols[i].0.as_str(), symbol) {
                match self.file_by_name(self.symbols[i].1.as_str()) {
                    Some(f) => {
                        return Some(f);
                    },
                    None => {
                        proof {
                            assert(recs_contain(self.files@, self.symbols@[i as int].1@));
                            assert(false);
                        }
                        return None;
                    },
                }
            }
            i += 1;
        }
        None
    }
}

/// `n` is the filename of a file reachable from the file named `root` in at
/// most `k` import steps.
pub open spec fn reach_k(files: Seq<FileRecord>, root: Seq<char>, n: Seq<char>, k: nat) -> bool
    decreases k,
{
    ||| n == root
    ||| (k > 0 && exists|i: int, j: int|
        {
            &&& 0 <= i < files.len()
            &&& 0 <= j < (#[trigger] files[i]).imports@.len()
            &&& reach_k(files, root, files[i].name@, (k - 1) as nat)
            &&& (#[trigger] files[i].imports@[j])@ == n
        })
}

/// `n` is in the import closure of the file named `root`.
pub open spec fn reachable(files: Seq<FileRecord>, root: Seq<char>, n: Seq<char>) -> bool {
    exists|k: nat| reach_k(files, root, n, k)
}

/// A record has the name and imports of one of the server's files.
pub open spec fn rec_matches_server(files: Seq<FileRecord>, r: FileRecord) -> bool {
    exists|k: int|
        0 <= k < files.len() && (#[trigger] files[k]).name@ == r.name@ && str_views(
            files[k].imports@,
        ) == str_views(r.imports@)
}

proof fn lemma_contains_via_views(a: Seq<String>, b: Seq<String>, x: Seq<char>)
    requires
        names_contain(a, x),
        str_views(a).is_prefix_of(str_views(b)),
    ensures
        names_contain(b, x),
{
    let i = choose|i: int| 0 <= i < a.len() && a[i]@ == x;
    assert(str_views(a)[i] == x);
    assert(str_views(b)[i] == x);
    assert(b[i]@ == x);
}

proof fn lemma_recs_contain_push(rs: Seq<FileRecord>, rec: FileRecord, x: Seq<char>)
    requires
        recs_contain(rs, x),
    ensures
        recs_contain(rs.push(rec), x),
{
    let i = choose|i: int| 0 <= i < rs.len() && rs[i].name@ == x;
    assert(rs.push(rec)[i].name@ == x);
}

/// Distinct names that all occur among distinct filenames are no more
/// numerous than the filenames.
proof fn lemma_requested_bounded(requested: Seq<String>, files: Seq<FileRecord>)
    requires
        names_distinct(requested),
        rec_names_distinct(files),
        forall|i: int| 0 <= i < requested.len() ==> recs_contain(files, (#[trigger] requested[i])@),
    ensures
        requested.len() <= files.len(),
{
    broadcast use vstd::seq_lib::seq_to_set_is_finite;

    let rv = str_views(requested);
    let fv = files.map_values(|r: FileRecord| r.name@);
    assert(rv.no_duplicates()) by {
        assert(forall|i: int| 0 <= i < rv.len() ==> rv[i] == (#[trigger] requested[i])@);
    }
    assert(fv.no_duplicates()) by {
        assert(forall|i: int| 0 <= i < fv.len() ==> fv[i] == (#[trigger] files[i]).name@);
    }
    rv.unique_seq_to_set();
    fv.unique_seq_to_set();
    assert(rv.to_set().subset_of(fv.to_set())) by {
        assert forall|x: Seq<char>| rv.to_set().contains(x) implies fv.to_set().contains(x) by {
            let i = choose|i: int| 0 <= i < rv.len() && rv[i] == x;
            assert(requested[i]@ == x);
            assert(recs_contain(files, x));
            let k = choose|k: int| 0 <= k < files.len() && files[k].name@ == x;
            assert(fv[k] == x);
            assert(fv.contains(x));
        }
    }
    lemma_len_subset(rv.to_set(), fv.to_set());
}

/// In a collection that contains the root, matches the server's files, and is
/// closed under imports, every reachable filename is present.
proof fn lemma_closed_covers_reachable(
    files: Seq<FileRecord>,
    root: Seq<char>,
    coll: Seq<FileRecord>,
    n: Seq<char>,
    k: nat,
)
    requires
        rec_names_distinct(files),
        recs_contain(coll, root),
        forall|i: int, j: int|
            0 <= i < coll.len() && 0 <= j < coll[i].imports@.len() ==> recs_contain(
                coll,
                (#[trigger] coll[i].imports@[j])@,
            ),
        forall|i: int| 0 <= i < coll.len() ==> rec_matches_server(files, #[trigger] coll[i]),
        reach_k(files, root, n, k),
    ensures
        recs_contain(coll, n),
    decreases k,
{
    if n == root {
    } else {
        let (i, j) = choose|i: int, j: int|
            {
                &&& 0 <= i < files.len()
                &&& 0 <= j < (#[trigger] files[i]).imports@.len()
                &&& reach_k(files, root, files[i].name@, (k - 1) as nat)
                &&& (#[trigger] files[i].imports@[j])@ == n
            };
        lemma_closed_covers_reachable(files, root, coll, files[i].name@, (k - 1) as nat);
        let c = choose|c: int| 0 <= c < coll.len() && coll[c].name@ == files[i].name@;
        let k2 = choose|k2: int|
            0 <= k2 < files.len() && (#[trigger] files[k2]).name@ == coll[c].name@ && str_views(
                files[k2].imports@,
            ) == str_views(coll[c].imports@);
        assert(k2 == i) by {
            if k2 != i {
                assert(files[k2].name@ == files[i].name@);
            }
        }
        assert(str_views(files[i].imports@)[j] == files[i].imports@[j]@);
        assert(str_views(coll[c].imports@) == str_views(files[i].imports@));
        assert(str_views(files[i].imports@).len() == files[i].imports@.len());
        assert(str_views(coll[c].imports@).len() == coll[c].imports@.len());
        assert(0 <= j < coll[c].imports@.len());
        assert(str_views(coll[c].imports@)[j] == n);
        assert(coll[c].imports@[j]@ == n);
        assert(recs_contain(coll, n));
    }
}

/// What a successful closure fetch returns: the set `recs` contains the file
/// `root` that defines the symbol, each file once, each matching a served
/// file; it is closed under imports; and it holds nothing outside the import
/// closure of `root` — in short, exactly the reachable file set.
pub open spec fn closure_exact(
    server: ReflectionServerModel,
    symbol: Seq<char>,
    recs: Seq<FileRecord>,
    root: Seq<char>,
) -> bool {
    &&& recs_contain(recs, root)
    &&& exists|si: int|
        0 <= si < server.symbols@.len() && (#[trigger] server.symbols@[si]).0@ == symbol
            && server.symbols@[si].1@ == root
    &&& rec_names_distinct(recs)
    &&& forall|i: int|
        0 <= i < recs.len() ==> rec_matches_server(server.files@, #[trigger] recs[i])
    &&& forall|i: int, j: int|
        0 <= i < recs.len() && 0 <= j < recs[i].imports@.len() ==> recs_contain(
            recs,
            (#[trigger] recs[i].imports@[j])@,
        )
    &&& forall|i: int|
        0 <= i < recs.len() ==> reachable(server.files@, root, (#[trigger] recs[i]).name@)
    &&& forall|n: Seq<char>|
        #[trigger] reachable(server.files@, root, n) && recs_contain(server.files@, n)
            ==> recs_contain(recs, n)
}

/// Runs the import-closure algorithm against a server model.
///
/// The call terminates for every finite model. On success the returned set
/// holds exactly the files reachable from the file defining `symbol`: each
/// file once (duplicate responses change nothing), each matching a served
/// file, the set closed under imports, and nothing unreachable in it. The
/// lookup fails exactly when the server does not know the symbol.
#[verifier::rlimit(100)]
#[verifier::spinoff_prover]
pub fn fetch_closure(server: &ReflectionServerModel, symbol: &str) -> (r: Result<
    (String, Vec<FileRecord>),
    ReflectionResolveError,
>)
    requires
        server.wf(),
    ensures
        r matches Ok(p) ==> closure_exact(*server, symbol@, p.1@, p.0@),
        r is Err ==> forall|si: int|
            0 <= si < server.symbols@.len() ==> (#[trigger] server.symbols@[si]).0@ != symbol@,
{
    let root_file = match server.file_for_symbol(symbol) {
        Some(f) => f,
        None => {
            return Err(
                ReflectionResolveError::ServerStreamFailure(
                    Status::new(CODE_NOT_FOUND, String::from_str("symbol not found")),
                ),
            );
        },
    };
    let root_name: String = root_file.name.clone();
    let ghost root: Seq<char> = root_file.name@;
    let ghost rooti: int = choose|k: int|
        0 <= k < server.files@.len() && *root_file == server.files@[k];
    proof {
        assert(reach_k(server.files@, root, root, 0));
    }
    let mut st = ReflectionResolver::new();
    let root_dup = root_file.duplicate();
    let ghost root_rec = root_dup;
    let first = st.on_file_response(root_dup);
    let mut pending: Vec<String> = first;
    proof {
        assert(root_rec.name@ == root);
        assert(str_views(root_rec.imports@) == str_views(server.files@[rooti].imports@));
        assert(st.collected@ =~= Seq::<FileRecord>::empty().push(root_rec));
        assert(str_views(st.requested@) =~= str_views(pending@));
        assert(recs_contain(st.collected@, root)) by {
            assert(st.collected@[0].name@ == root);
        }
        assert(rec_matches_server(server.files@, root_rec)) by {
            assert(server.files@[rooti].name@ == root_rec.name@);
        }
        assert forall|q: int| 0 <= q < st.requested@.len() implies recs_contain(
            server.files@,
            (#[trigger] st.requested@[q])@,
        ) && reachable(server.files@, root, st.requested@[q]@) && names_contain(
            pending@,
            st.requested@[q]@,
        ) by {
            assert(st.requested@[q]@ == str_views(st.requested@)[q]);
            assert(pending@[q]@ == st.requested@[q]@);
            assert(names_contain(pending@, st.requested@[q]@));
            assert(names_contain(root_rec.imports@, pending@[q]@));
            let j = choose|j: int|
                0 <= j < root_rec.imports@.len() && root_rec.imports@[j]@ == pending@[q]@;
            assert(str_views(root_rec.imports@)[j] == root_rec.imports@[j]@);
            assert(str_views(root_rec.imports@) == str_views(server.files@[rooti].imports@));
            assert(str_views(server.files@[rooti].imports@).len() == server.files@[
                rooti
            ].imports@.len());
            assert(0 <= j < server.files@[rooti].imports@.len());
            assert(str_views(server.files@[rooti].imports@)[j] == server.files@[
                rooti
            ].imports@[j]@);
            assert(server.files@[rooti].imports@[j]@ == pending@[q]@);
            assert(recs_contain(server.files@, pending@[q]@));
            assert(reach_k(server.files@, root, server.files@[rooti].name@, 0));
            assert(reach_k(server.files@, root, pending@[q]@, 1));
            assert(reachable(server.files@, root, pending@[q]@));
        }
        assert forall|p: int| 0 <= p < pending@.len() implies names_contain(
            st.requested@,
            (#[trigger] pending@[p])@,
        ) by {
            assert(st.requested@[p]@ == str_views(st.requested@)[p]);
            assert(st.requested@[p]@ == pending@[p]@);
        }
        assert(reachable(server.files@, root, root_rec.name@)) by {
            assert(reach_k(server.files@, root, root, 0));
        }
    }
    while pending.len() > 0
        invariant
            server.wf(),
            st.wf(),
            st.in_flight as int == pending@.len(),
            recs_contain(st.collected@, root),
            exists|si: int|
                0 <= si < server.symbols@.len() && (#[trigger] server.symbols@[si]).0@ == symbol@
                    && server.symbols@[si].1@ == root,
            forall|p: int|
                0 <= p < pending@.len() ==> names_contain(st.requested@, (#[trigger] pending@[p])@),
            forall|q: int|
                0 <= q < st.requested@.len() ==> recs_contain(
                    server.files@,
                    (#[trigger] st.requested@[q])@,
                ),
            forall|q: int|
                0 <= q < st.requested@.len() ==> reachable(
                    server.files@,
                    root,
                    (#[trigger] st.requested@[q])@,
                ),
            forall|c: int|
                0 <= c < st.collected@.len() ==> rec_matches_server(
                    server.files@,
                    #[trigger] st.collected@[c],
                ),
            forall|c: int|
                0 <= c < st.collected@.len() ==> reachable(
                    server.files@,
                    root,
                    (#[trigger] st.collected@[c]).name@,
                ),
            forall|c: int, j: int|
                0 <= c < st.collected@.len() && 0 <= j < st.collected@[c].imports@.len()
                    ==> recs_contain(st.collected@, (#[trigger] st.collected@[c].imports@[j])@)
                    || names_contain(st.requested@, st.collected@[c].imports@[j]@),
            forall|q: int|
                0 <= q < st.requested@.len() ==> recs_contain(
                    st.collected@,
                    (#[trigger] st.requested@[q])@,
                ) || names_contain(pending@, st.requested@[q]@),
        decreases server.files@.len() - st.requested@.len(), pending@.len(),
    {
        proof {
            lemma_requested_bounded(st.requested@, server.files@);
        }
        let ghost prev = st;
        let ghost prev_pending = pending@;
        let name = pending.remove(0);
        proof {
            assert(names_contain(prev.requested@, name@));
            assert(recs_contain(server.files@, name@));
        }
        let f = match server.file_by_name(name.as_str()) {
            Some(f) => f,
            None => {
                proof {
                    assert(false);
                }
                return Err(ReflectionResolveError::StreamClosed);
            },
        };
        let ghost fi: int = choose|k: int|
            0 <= k < server.files@.len() && *f == server.files@[k];
        let rec = f.duplicate();
        let ghost rec_snapshot = rec;
        let mut reqs = st.on_file_response(rec);
        let ghost new_reqs = reqs@;
        pending.append(&mut reqs);
        proof {
            let ghost is_new = !recs_contain(prev.collected@, rec_snapshot.name@);
            assert(rec_snapshot.name@ == name@);
            assert(rec_snapshot@ == server.files@[fi]@);
            assert(pending@ =~= prev_pending.subrange(1, prev_pending.len() as int) + new_reqs);
            assert(names_contain(prev.requested@, name@)) by {
                assert(prev_pending[0]@ == name@);
            }
            assert(reachable(server.files@, root, name@)) by {
                let q = choose|q: int|
                    0 <= q < prev.requested@.len() && prev.requested@[q]@ == name@;
            }
            if is_new {
                assert(str_views(st.requested@) =~= str_views(prev.requested@) + str_views(
                    new_reqs,
                ));
                assert(st.collected@ == prev.collected@.push(rec_snapshot));
            } else {
                assert(st.requested@ == prev.requested@);
                assert(st.collected@ == prev.collected@);
                assert(new_reqs.len() == 0);
            }
            assert(str_views(prev.requested@).is_prefix_of(str_views(st.requested@)));
            // Requests: old entries keep their facts; each new one is an
            // import of the file just served, hence a served, reachable file.
            assert forall|q: int| 0 <= q < st.requested@.len() implies recs_contain(
                server.files@,
                (#[trigger] st.requested@[q])@,
            ) && reachable(server.files@, root, st.requested@[q]@) by {
                if q < prev.requested@.len() {
                    assert(st.requested@[q]@ == str_views(st.requested@)[q]);
                    assert(st.requested@[q]@ == prev.requested@[q]@);
                } else {
                    let i = q - prev.requested@.len();
                    assert(st.requested@[q]@ == str_views(st.requested@)[q]);
                    assert(st.requested@[q]@ == new_reqs[i]@);
                    assert(names_contain(rec_snapshot.imports@, new_reqs[i]@));
                    let j = choose|j: int|
                        0 <= j < rec_snapshot.imports@.len() && rec_snapshot.imports@[j]@
                            == new_reqs[i]@;
                    assert(str_views(rec_snapshot.imports@)[j] == rec_snapshot.imports@[j]@);
                    assert(str_views(rec_snapshot.imports@) == str_views(
                        server.files@[fi].imports@,
                    ));
                    assert(str_views(server.files@[fi].imports@).len() == server.files@[
                        fi
                    ].imports@.len());
                    assert(0 <= j < server.files@[fi].imports@.len());
                    assert(str_views(server.files@[fi].imports@)[j] == server.files@[
                        fi
                    ].imports@[j]@);
                    assert(server.files@[fi].imports@[j]@ == new_reqs[i]@);
                    assert(recs_contain(server.files@, new_reqs[i]@));
                    let kk = choose|kk: nat| reach_k(server.files@, root, name@, kk);
                    assert(server.files@[fi].name@ == name@);
                    assert(reach_k(server.files@, root, new_reqs[i]@, kk + 1)) by {
                        assert(reach_k(server.files@, root, server.files@[fi].name@, kk));
                    }
                    assert(reachable(server.files@, root, new_reqs[i]@));
                }
            }
            // Every pending request was requested.
            assert forall|p: int| 0 <= p < pending@.len() implies names_contain(
                st.requested@,
                (#[trigger] pending@[p])@,
            ) by {
                if p < prev_pending.len() - 1 {
                    assert(pending@[p] == prev_pending[p + 1]);
                    lemma_contains_via_views(prev.requested@, st.requested@, pending@[p]@);
                } else {
                    let i = p - (prev_pending.len() - 1);
                    assert(pending@[p] == new_reqs[i]);
                    let qi = prev.requested@.len() + i;
                    assert(str_views(st.requested@)[qi] == new_reqs[i]@);
                    assert(st.requested@[qi]@ == new_reqs[i]@);
                }
            }
            // Collected files: the new record matches the file just served.
            assert(rec_matches_server(server.files@, rec_snapshot)) by {
                assert(server.files@[fi].name@ == rec_snapshot.name@);
                assert(str_views(server.files@[fi].imports@) == str_views(rec_snapshot.imports@));
            }
            assert forall|c: int| 0 <= c < st.collected@.len() implies rec_matches_server(
                server.files@,
                #[trigger] st.collected@[c],
            ) && reachable(server.files@, root, st.collected@[c].name@) by {
                if c < prev.collected@.len() {
                    assert(st.collected@[c] == prev.collected@[c]);
                } else {
                    assert(st.collected@[c] == rec_snapshot);
                }
            }
            assert(recs_contain(st.collected@, root)) by {
                if is_new {
                    lemma_recs_contain_push(prev.collected@, rec_snapshot, root);
                }
            }
            // Closedness: every import of every collected file is collected
            // or requested.
            assert forall|c: int, j: int|
                0 <= c < st.collected@.len() && 0 <= j < st.collected@[c].imports@.len()
                implies recs_contain(st.collected@, (#[trigger] st.collected@[c].imports@[j])@)
                || names_contain(st.requested@, st.collected@[c].imports@[j]@) by {
                let x = st.collected@[c].imports@[j]@;
                if c < prev.collected@.len() {
                    assert(st.collected@[c] == prev.collected@[c]);
                    if recs_contain(prev.collected@, x) {
                        if is_new {
                            lemma_recs_contain_push(prev.collected@, rec_snapshot, x);
                        }
                    } else {
                        assert(names_contain(prev.requested@, x));
                        lemma_contains_via_views(prev.requested@, st.requested@, x);
                    }
                }
            }
            // Every requested name is collected or still pending.
            assert forall|q: int| 0 <= q < st.requested@.len() implies recs_contain(
                st.collected@,
                (#[trigger] st.requested@[q])@,
            ) || names_contain(pending@, st.requested@[q]@) by {
                let x = st.requested@[q]@;
                if q < prev.requested@.len() {
                    assert(prev.requested@[q]@ == str_views(prev.requested@)[q]);
                    assert(x == prev.requested@[q]@);
                    if recs_contain(prev.collected@, x) {
                        if is_new {
                            lemma_recs_contain_push(prev.collected@, rec_snapshot, x);
                        }
                    } else {
                        assert(names_contain(prev_pending, x));
                        let p = choose|p: int|
                            0 <= p < prev_pending.len() && prev_pending[p]@ == x;
                        if p == 0 {
                            assert(x == name@);
                            if is_new {
                                assert(st.collected@[prev.collected@.len() as int].name@ == x);
                                assert(recs_contain(st.collected@, x));
                            } else {
                                assert(recs_contain(prev.collected@, rec_snapshot.name@));
                            }
                        } else {
                            assert(pending@[p - 1]@ == x);
                            assert(names_contain(pending@, x));
                        }
                    }
                } else {
                    let i = q - prev.requested@.len();
                    assert(x == str_views(st.requested@)[q]);
                    assert(x == new_reqs[i]@);
                    assert(pending@[prev_pending.len() - 1 + i]@ == x);
                    assert(names_contain(pending@, x));
                }
            }
            // The new requests keep the measure non-negative.
            lemma_requested_bounded(st.requested@, server.files@);
        }
    }
    proof {
        assert forall|q: int|
            0 <= q < st.requested@.len() implies recs_contain(
            st.collected@,
            (#[trigger] st.requested@[q])@,
        ) by {
            assert(!names_contain(pending@, st.requested@[q]@));
        }
        assert forall|c: int, j: int|
            0 <= c < st.collected@.len() && 0 <= j < st.collected@[c].imports@.len()
            implies recs_contain(
            st.collected@,
            (#[trigger] st.collected@[c].imports@[j])@,
        ) by {
            if names_contain(st.requested@, st.collected@[c].imports@[j]@) {
                let q = choose|q: int|
                    0 <= q < st.requested@.len() && st.requested@[q]@ == st.collected@[
                        c
                    ].imports@[j]@;
            }
        }
        assert forall|n: Seq<char>|
            #[trigger] reachable(server.files@, root, n) && recs_contain(
                server.files@,
                n,
            ) implies recs_contain(st.collected@, n) by {
            let k = choose|k: nat| reach_k(server.files@, root, n, k);
            lemma_closed_covers_reachable(server.files@, root, st.collected@, n, k);
        }
        assert(closure_exact(*server, symbol@, st.collected@, root));
    }
    Ok((root_name, st.collected))
}


/// The resolver-visible effect of absorbing a batch prefix: the collected
/// file contents, the requested names, the requests issued for this batch,
/// and whether a blob failed to decode (processing stops there).
pub struct BatchState {
    pub collected: Seq<FileRecordView>,
    pub requested: Seq<Seq<char>>,
    pub sent: Seq<Seq<char>>,
    pub failed: bool,
}

pub open spec fn view_names(c: Seq<FileRecordView>) -> Seq<Seq<char>> {
    c.map_values(|v: FileRecordView| v.name)
}

/// One blob of a file-descriptor response, as the resolver absorbs it: an
/// undecodable blob fails the batch; a file without a name is skipped; an
/// already-collected name changes nothing; a new file is collected and its
/// imports that are neither collected nor requested become requests.
pub open spec fn absorb_blob(s: BatchState, raw: Vec<u8>) -> BatchState {
    if s.failed {
        s
    } else {
        match parsed_file(raw@) {
            None => BatchState {
                collected: s.collected,
                requested: s.requested,
                sent: s.sent,
                failed: true,
            },
            Some(meta) => match meta.name {
                None => s,
                Some(nm) => {
                    if view_names(s.collected).contains(nm) {
                        s
                    } else {
                        let qs = queue_imports(meta.imports, view_names(s.collected), s.requested);
                        BatchState {
                            collected: s.collected.push(
                                FileRecordView { name: nm, imports: meta.imports, bytes: raw@ },
                            ),
                            requested: s.requested + qs,
                            sent: s.sent + qs,
                            failed: false,
                        }
                    }
                },
            },
        }
    }
}

/// The fold of `absorb_blob` over a batch, front first.
pub open spec fn run_batch(s: BatchState, batch: Seq<Vec<u8>>) -> BatchState
    decreases batch.len(),
{
    if batch.len() == 0 {
        s
    } else {
        run_batch(absorb_blob(s, batch[0]), batch.drop_first())
    }
}

/// The batch state a resolver starts a response with.
pub open spec fn batch_start(r: ReflectionResolver) -> BatchState {
    BatchState {
        collected: recs_views(r.collected@),
        requested: str_views(r.requested@),
        sent: Seq::<Seq<char>>::empty(),
        failed: false,
    }
}

/// The batch of an event known to carry a file-descriptor response.
pub open spec fn event_batch(e: ReflectionEvent) -> Seq<Vec<u8>> {
    ((e->Response_0)->FileDescriptorResponse_0)@
}

/// What `step` returns on a file-descriptor response: the new resolver state
/// and the returned requests equal the fold of the batch onto the old state.
pub open spec fn step_batch_post(
    pre: ReflectionResolver,
    post: ReflectionResolver,
    reqs: Seq<String>,
    batch: Seq<Vec<u8>>,
) -> bool {
    let fin = run_batch(batch_start(pre), batch);
    &&& !fin.failed
    &&& recs_views(post.collected@) == fin.collected
    &&& str_views(post.requested@) == fin.requested
    &&& str_views(reqs) == fin.sent
}

/// Extending the processed prefix by one blob folds that blob onto the
/// prefix's state.
proof fn lemma_run_batch_snoc(s: BatchState, batch: Seq<Vec<u8>>, k: int)
    requires
        0 <= k < batch.len(),
    ensures
        run_batch(s, batch.take(k + 1)) == absorb_blob(run_batch(s, batch.take(k)), batch[k]),
    decreases k,
{
    let empty = Seq::<Vec<u8>>::empty();
    if k == 0 {
        assert(batch.take(0) =~= empty);
        assert(run_batch(s, empty) == s);
        assert(batch.take(1)[0] == batch[0]);
        assert(batch.take(1).drop_first() =~= empty);
        assert(run_batch(s, batch.take(1)) == run_batch(
            absorb_blob(s, batch.take(1)[0]),
            batch.take(1).drop_first(),
        ));
        assert(run_batch(absorb_blob(s, batch[0]), empty) == absorb_blob(s, batch[0]));
    } else {
        let s2 = absorb_blob(s, batch[0]);
        lemma_run_batch_snoc(s2, batch.drop_first(), k - 1);
        assert(batch.take(k + 1)[0] == batch[0]);
        assert(batch.take(k)[0] == batch[0]);
        assert(batch.take(k + 1).drop_first() =~= batch.drop_first().take(k));
        assert(batch.take(k).drop_first() =~= batch.drop_first().take(k - 1));
        assert(batch.drop_first()[k - 1] == batch[k]);
        assert(run_batch(s, batch.take(k + 1)) == run_batch(
            absorb_blob(s, batch.take(k + 1)[0]),
            batch.take(k + 1).drop_first(),
        ));
        assert(run_batch(s, batch.take(k)) == run_batch(
            absorb_blob(s, batch.take(k)[0]),
            batch.take(k).drop_first(),
        ));
    }
}

/// Interprets the single response of a `ListServices` exchange: the service
/// names on success, and the corresponding protocol failure otherwise.
pub fn list_services_response(event: ReflectionEvent) -> (r: Result<
    Vec<String>,
    ReflectionResolveError,
>)
    ensures
        match event {
            ReflectionEvent::Response(MessageResponse::ListServicesResponse(names)) => r matches
                Ok(v) && v == names,
            ReflectionEvent::Response(MessageResponse::ErrorResponse { code, message }) => r
                matches Err(ReflectionResolveError::ServerError { code: c, message: m }) && c
                == code && m == message,
            ReflectionEvent::Response(MessageResponse::FileDescriptorResponse(_)) => r matches Err(
                e,
            ) && e is UnexpectedResponseType,
            ReflectionEvent::Response(MessageResponse::Other(_)) => r matches Err(e) && e is
                UnexpectedResponseType,
            ReflectionEvent::EmptyMessage => r matches Err(e) && e is UnexpectedResponseType,
            ReflectionEvent::Failed(st) => r matches Err(
                ReflectionResolveError::ServerStreamFailure(s),
            ) && s == st,
            ReflectionEvent::Closed => r matches Err(e) && e is StreamClosed,
        },
{
    match event {
        ReflectionEvent::Response(MessageResponse::ListServicesResponse(names)) => Ok(names),
        ReflectionEvent::Response(MessageResponse::ErrorResponse { code, message }) => Err(
            ReflectionResolveError::ServerError { code, message },
        ),
        ReflectionEvent::Response(MessageResponse::FileDescriptorResponse(_)) => Err(
            ReflectionResolveError::UnexpectedResponseType(
                String::from_str("FileDescriptorResponse"),
            ),
        ),
        ReflectionEvent::Response(MessageResponse::Other(name)) => Err(
            ReflectionResolveError::UnexpectedResponseType(name),
        ),
        ReflectionEvent::EmptyMessage => Err(
            ReflectionResolveError::UnexpectedResponseType(String::from_str("Empty Message")),
        ),
        ReflectionEvent::Failed(st) => Err(ReflectionResolveError::ServerStreamFailure(st)),
        ReflectionEvent::Closed => Err(ReflectionResolveError::StreamClosed),
    }
}

} // verus!
