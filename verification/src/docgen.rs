//! Markdown documentation for a service: the reachable definitions are
//! collected, grouped by package, and each package rendered as one page with
//! anchors, with an index page linking the packages.

use vstd::prelude::*;
use vstd::string::*;

use crate::codec::{enum_decl_of, lemma_enum_decl_unique, lemma_msg_decl_unique, msg_decl_of};
use crate::descriptor::{
    Descriptor, DescriptorPool, EnumDecl, FieldDecl, FieldKind, MessageDecl, MethodDecl,
    ServiceDecl, has_enum, has_message,
};
use crate::format::{spec_format_enum, spec_format_message, spec_format_service, format_enum,
    format_message, format_service};
use crate::text::str_eq;

verus! {

/// The definitions of one package that the documentation covers.
pub struct Package<'a> {
    pub name: String,
    pub services: Vec<&'a ServiceDecl>,
    pub messages: Vec<&'a MessageDecl>,
    pub enums: Vec<&'a EnumDecl>,
}

impl<'a> Package<'a> {
    /// An empty package page.
    pub fn new(name: String) -> (r: Package<'a>)
        ensures
            r.name == name,
            r.services@.len() == 0,
            r.messages@.len() == 0,
            r.enums@.len() == 0,
    {
        Package { name, services: Vec::new(), messages: Vec::new(), enums: Vec::new() }
    }

    /// Files one resolved descriptor under this package.
    pub fn push_descriptor(&mut self, descriptor: Descriptor<'a>)
        ensures
            match descriptor {
                Descriptor::ServiceDescriptor(s) => {
                    &&& final(self).services@ == old(self).services@.push(s)
                    &&& final(self).messages@ == old(self).messages@
                    &&& final(self).enums@ == old(self).enums@
                },
                Descriptor::MessageDescriptor(m) => {
                    &&& final(self).messages@ == old(self).messages@.push(m)
                    &&& final(self).services@ == old(self).services@
                    &&& final(self).enums@ == old(self).enums@
                },
                Descriptor::EnumDescriptor(e) => {
                    &&& final(self).enums@ == old(self).enums@.push(e)
                    &&& final(self).services@ == old(self).services@
                    &&& final(self).messages@ == old(self).messages@
                },
            },
            final(self).name == old(self).name,
    {
        match descriptor {
            Descriptor::ServiceDescriptor(s) => self.services.push(s),
            Descriptor::MessageDescriptor(m) => self.messages.push(m),
            Descriptor::EnumDescriptor(e) => self.enums.push(e),
        }
    }
}

/// The packages the documentation covers, each name once.
pub struct Packages<'a> {
    pub entries: Vec<Package<'a>>,
}

impl<'a> Packages<'a> {
    /// Package names are unique.
    pub open spec fn wf(self) -> bool {
        forall|i: int, j: int|
            0 <= i < j < self.entries@.len() ==> self.entries@[i].name@ != self.entries@[j].name@
    }

    /// The package pages.
    pub fn values(&self) -> (r: &Vec<Package<'a>>)
        ensures
            r == &self.entries,
    {
        &self.entries
    }

    /// The package names, in entry order.
    pub fn names(&self) -> (r: Vec<String>)
        ensures
            r@.len() == self.entries@.len(),
            forall|i: int| 0 <= i < r@.len() ==> (#[trigger] r@[i])@ == self.entries@[i].name@,
    {
        let n: usize = self.entries.len();
        let mut out: Vec<String> = Vec::new();
        let mut i: usize = 0;
        while i < n
            invariant
                0 <= i <= n,
                n == self.entries@.len(),
                out@.len() == i,
                forall|j: int| 0 <= j < i ==> (#[trigger] out@[j])@ == self.entries@[j].name@,
            decreases n - i,
        {
            out.push(self.entries[i].name.clone());
            i += 1;
        }
        out
    }

    /// Files a descriptor under its package, creating the page on first use.
    /// A set whose pages only hold the pool's definitions keeps that property.
    pub fn insert(&mut self, pool: &DescriptorPool, package: &str, descriptor: Descriptor<'a>)
        requires
            old(self).wf(),
            forall|i: int|
                0 <= i < old(self).entries@.len() ==> package_from_pool(
                    *pool,
                    #[trigger] old(self).entries@[i],
                ),
            match descriptor {
                Descriptor::ServiceDescriptor(s) => svc_from_pool(*pool, *s),
                Descriptor::MessageDescriptor(m) => msg_from_pool(*pool, *m),
                Descriptor::EnumDescriptor(e) => enum_from_pool(*pool, *e),
            },
        ensures
            final(self).wf(),
            forall|i: int|
                0 <= i < final(self).entries@.len() ==> package_from_pool(
                    *pool,
                    #[trigger] final(self).entries@[i],
                ),
            // The descriptor now stands on the page named `package`.
            exists|i: int|
                0 <= i < final(self).entries@.len()
                    && (#[trigger] final(self).entries@[i]).name@ == package@ && match descriptor {
                    Descriptor::ServiceDescriptor(s) => final(self).entries@[i].services@.contains(
                        s,
                    ),
                    Descriptor::MessageDescriptor(m) => final(self).entries@[i].messages@.contains(
                        m,
                    ),
                    Descriptor::EnumDescriptor(e) => final(self).entries@[i].enums@.contains(e),
                },
            // Existing pages keep their names and contents.
            old(self).entries@.len() <= final(self).entries@.len(),
            forall|k: int|
                0 <= k < old(self).entries@.len() ==> {
                    &&& (#[trigger] final(self).entries@[k]).name@ == old(self).entries@[k].name@
                    &&& old(self).entries@[k].services@.is_prefix_of(
                        final(self).entries@[k].services@,
                    )
                    &&& old(self).entries@[k].messages@.is_prefix_of(
                        final(self).entries@[k].messages@,
                    )
                    &&& old(self).entries@[k].enums@.is_prefix_of(final(self).entries@[k].enums@)
                },
            // Nothing but the descriptor is added.
            msgs_added_only(old(self).entries@, final(self).entries@, descriptor),
            enums_added_only(old(self).entries@, final(self).entries@, descriptor),
    {
        let ghost d = descriptor;
        let n: usize = self.entries.len();
        let mut i: usize = 0;
        while i < n
            invariant
                0 <= i <= n,
                n == self.entries@.len(),
                self == old(self),
                old(self).wf(),
                d == descriptor,
                forall|k: int|
                    0 <= k < old(self).entries@.len() ==> package_from_pool(
                        *pool,
                        #[trigger] old(self).entries@[k],
                    ),
                match descriptor {
                    Descriptor::ServiceDescriptor(s) => svc_from_pool(*pool, *s),
                    Descriptor::MessageDescriptor(m) => msg_from_pool(*pool, *m),
                    Descriptor::EnumDescriptor(e) => enum_from_pool(*pool, *e),
                },
                forall|j: int| 0 <= j < i ==> self.entries@[j].name@ != package@,
            decreases n - i,
        {
            if str_eq(self.entries[i].name.as_str(), package) {
                let ghost prev = self.entries@;
                let mut entry = self.entries.remove(i);
                entry.push_descriptor(descriptor);
                self.entries.insert(i, entry);
                proof {
                    assert(self.entries@ =~= prev.update(i as int, entry));
                    assert(entry.name@ == prev[i as int].name@);
                    assert(prev == old(self).entries@);
                    assert(self.entries@[i as int] == entry);
                    match d {
                        Descriptor::ServiceDescriptor(sv) => {
                            assert(entry.services@[prev[i as int].services@.len() as int] == sv);
                            assert(entry.services@.contains(sv));
                            assert(prev[i as int].services@.is_prefix_of(entry.services@)) by {
                                assert(prev[i as int].services@ =~= entry.services@.subrange(
                                    0,
                                    prev[i as int].services@.len() as int,
                                ));
                            }
                        },
                        Descriptor::MessageDescriptor(mv) => {
                            assert(entry.messages@[prev[i as int].messages@.len() as int] == mv);
                            assert(entry.messages@.contains(mv));
                            assert(prev[i as int].messages@.is_prefix_of(entry.messages@)) by {
                                assert(prev[i as int].messages@ =~= entry.messages@.subrange(
                                    0,
                                    prev[i as int].messages@.len() as int,
                                ));
                            }
                        },
                        Descriptor::EnumDescriptor(ev) => {
                            assert(entry.enums@[prev[i as int].enums@.len() as int] == ev);
                            assert(entry.enums@.contains(ev));
                            assert(prev[i as int].enums@.is_prefix_of(entry.enums@)) by {
                                assert(prev[i as int].enums@ =~= entry.enums@.subrange(
                                    0,
                                    prev[i as int].enums@.len() as int,
                                ));
                            }
                        },
                    }
                    assert forall|k: int| 0 <= k < prev.len() implies {
                        &&& old(self).entries@[k].services@.is_prefix_of(
                            (#[trigger] self.entries@[k]).services@,
                        )
                        &&& old(self).entries@[k].messages@.is_prefix_of(
                            self.entries@[k].messages@,
                        )
                        &&& old(self).entries@[k].enums@.is_prefix_of(self.entries@[k].enums@)
                    } by {
                        if k != i {
                            assert(self.entries@[k] == prev[k]);
                            assert(prev[k].services@ =~= self.entries@[k].services@.subrange(
                                0,
                                prev[k].services@.len() as int,
                            ));
                            assert(prev[k].messages@ =~= self.entries@[k].messages@.subrange(
                                0,
                                prev[k].messages@.len() as int,
                            ));
                            assert(prev[k].enums@ =~= self.entries@[k].enums@.subrange(
                                0,
                                prev[k].enums@.len() as int,
                            ));
                        }
                    }
                    assert forall|a: int, b: int|
                        0 <= a < b < self.entries@.len() implies self.entries@[a].name@
                        != self.entries@[b].name@ by {
                        assert(self.entries@[a].name@ == prev[a].name@);
                        assert(self.entries@[b].name@ == prev[b].name@);
                        assert(old(self).entries@[a].name@ != old(self).entries@[b].name@);
                    }
                    assert(self.entries@[i as int].name@ == package@);
                    assert(package_from_pool(*pool, entry)) by {
                        lemma_package_push_from_pool(*pool, prev[i as int], entry, descriptor);
                    }
                    assert forall|k: int|
                        0 <= k < self.entries@.len() implies package_from_pool(
                        *pool,
                        #[trigger] self.entries@[k],
                    ) by {
                        if k != i {
                            assert(self.entries@[k] == prev[k]);
                        }
                    }
                }
                return ;
            }
            i += 1;
        }
        let mut page = Package::new(String::from_str(package));
        let ghost empty_page = page;
        page.push_descriptor(descriptor);
        let ghost prev = self.entries@;
        self.entries.push(page);
        proof {
            assert(self.entries@[prev.len() as int].name@ == package@);
            assert(forall|k: int| 0 <= k < prev.len() ==> self.entries@[k] == prev[k]);
            assert(package_from_pool(*pool, page)) by {
                lemma_package_push_from_pool(*pool, empty_page, page, descriptor);
            }
            assert(self.entries@[prev.len() as int] == page);
            match d {
                Descriptor::ServiceDescriptor(sv) => {
                    assert(page.services@[0] == sv);
                    assert(page.services@.contains(sv));
                },
                Descriptor::MessageDescriptor(mv) => {
                    assert(page.messages@[0] == mv);
                    assert(page.messages@.contains(mv));
                },
                Descriptor::EnumDescriptor(ev) => {
                    assert(page.enums@[0] == ev);
                    assert(page.enums@.contains(ev));
                },
            }
            assert forall|k: int| 0 <= k < prev.len() implies {
                &&& old(self).entries@[k].services@.is_prefix_of(
                    (#[trigger] self.entries@[k]).services@,
                )
                &&& old(self).entries@[k].messages@.is_prefix_of(self.entries@[k].messages@)
                &&& old(self).entries@[k].enums@.is_prefix_of(self.entries@[k].enums@)
            } by {
                assert(self.entries@[k] == prev[k]);
                assert(prev[k].services@ =~= self.entries@[k].services@.subrange(
                    0,
                    prev[k].services@.len() as int,
                ));
                assert(prev[k].messages@ =~= self.entries@[k].messages@.subrange(
                    0,
                    prev[k].messages@.len() as int,
                ));
                assert(prev[k].enums@ =~= self.entries@[k].enums@.subrange(
                    0,
                    prev[k].enums@.len() as int,
                ));
            }
        }
    }
}

/// Pushing a pool descriptor onto a pool-sourced page keeps it pool-sourced.
proof fn lemma_package_push_from_pool(
    pool: DescriptorPool,
    before: Package<'_>,
    after: Package<'_>,
    descriptor: Descriptor<'_>,
)
    requires
        package_from_pool(pool, before),
        match descriptor {
            Descriptor::ServiceDescriptor(s) => svc_from_pool(pool, *s)
                && after.services@ == before.services@.push(s) && after.messages@
                == before.messages@ && after.enums@ == before.enums@,
            Descriptor::MessageDescriptor(m) => msg_from_pool(pool, *m) && after.messages@
                == before.messages@.push(m) && after.services@ == before.services@ && after.enums@
                == before.enums@,
            Descriptor::EnumDescriptor(e) => enum_from_pool(pool, *e) && after.enums@
                == before.enums@.push(e) && after.services@ == before.services@ && after.messages@
                == before.messages@,
        },
    ensures
        package_from_pool(pool, after),
{
    match descriptor {
        Descriptor::ServiceDescriptor(s) => {
            assert(forall|i: int|
                0 <= i < before.services@.len() ==> after.services@[i] == before.services@[i]);
            assert(after.services@[before.services@.len() as int] == s);
        },
        Descriptor::MessageDescriptor(m) => {
            assert(forall|i: int|
                0 <= i < before.messages@.len() ==> after.messages@[i] == before.messages@[i]);
            assert(after.messages@[before.messages@.len() as int] == m);
        },
        Descriptor::EnumDescriptor(e) => {
            assert(forall|i: int|
                0 <= i < before.enums@.len() ==> after.enums@[i] == before.enums@[i]);
            assert(after.enums@[before.enums@.len() as int] == e);
        },
    }
}

/// The collection has a message with this fully-qualified name.
pub open spec fn msg_fqn_in(ms: Seq<&MessageDecl>, x: Seq<char>) -> bool {
    exists|i: int| 0 <= i < ms.len() && ms[i].fqn@ == x
}

/// The collection has an enum with this fully-qualified name.
pub open spec fn enum_fqn_in(es: Seq<&EnumDecl>, x: Seq<char>) -> bool {
    exists|i: int| 0 <= i < es.len() && es[i].fqn@ == x
}

/// Every message-typed field of every collected message resolves among the
/// collected messages, and every enum-typed field among the collected enums.
pub open spec fn deps_closed(ms: Seq<&MessageDecl>, es: Seq<&EnumDecl>) -> bool {
    forall|a: int, fj: int|
        0 <= a < ms.len() && 0 <= fj < ms[a].fields@.len() ==> match (#[trigger] ms[a].fields@[
            fj
        ]).kind {
            FieldKind::Message(t) => msg_fqn_in(ms, t@),
            FieldKind::Enum(t) => enum_fqn_in(es, t@),
            _ => true,
        }
}

/// Every method input and output of the service is among the collected
/// messages.
pub open spec fn seeds_in(ms: Seq<&MessageDecl>, service: ServiceDecl) -> bool {
    forall|mi: int|
        0 <= mi < service.methods@.len() ==> msg_fqn_in(
            ms,
            (#[trigger] service.methods@[mi]).input@,
        ) && msg_fqn_in(ms, service.methods@[mi].output@)
}

/// Collects the message and enum definitions reachable from a service's
/// methods: inputs and outputs, then transitively every message or enum a
/// field references — all of them, each definition once.
pub fn collect_dependencies<'a>(pool: &'a DescriptorPool, service: &'a ServiceDecl) -> (r: (
    Vec<&'a MessageDecl>,
    Vec<&'a EnumDecl>,
))
    requires
        pool.wf(),
        pool.closed(),
        exists|i: int| 0 <= i < pool.services@.len() && *service == pool.services@[i],
    ensures
        forall|i: int, j: int|
            0 <= i < j < r.0@.len() ==> (#[trigger] r.0@[i]).fqn@ != (#[trigger] r.0@[j]).fqn@,
        forall|i: int, j: int|
            0 <= i < j < r.1@.len() ==> (#[trigger] r.1@[i]).fqn@ != (#[trigger] r.1@[j]).fqn@,
        forall|i: int| 0 <= i < r.0@.len() ==> msg_from_pool(*pool, *(#[trigger] r.0@[i])),
        forall|i: int| 0 <= i < r.1@.len() ==> enum_from_pool(*pool, *(#[trigger] r.1@[i])),
        seeds_in(r.0@, *service),
        deps_closed(r.0@, r.1@),
{
    let mut msgs: Vec<&'a MessageDecl> = Vec::new();
    let mut enums: Vec<&'a EnumDecl> = Vec::new();
    let mut queue: Vec<String> = Vec::new();
    // Seed the worklist with every method's input and output.
    let nm: usize = service.methods.len();
    let mut i: usize = 0;
    while i < nm
        invariant
            pool.wf(),
            pool.closed(),
            exists|k: int| 0 <= k < pool.services@.len() && *service == pool.services@[k],
            0 <= i <= nm,
            nm == service.methods@.len(),
            msgs@.len() == 0,
            forall|a: int, b: int| 0 <= a < b < queue@.len() ==> queue@[a]@ != queue@[b]@,
            forall|a: int|
                0 <= a < queue@.len() ==> has_message(pool.messages@, (#[trigger] queue@[a])@),
            forall|mi: int|
                0 <= mi < i ==> name_in_spec(queue@, (#[trigger] service.methods@[mi]).input@)
                    && name_in_spec(queue@, service.methods@[mi].output@),
        decreases nm - i,
    {
        proof {
            let k = choose|k: int| 0 <= k < pool.services@.len() && *service == pool.services@[k];
            assert(crate::descriptor::service_refs_ok(pool.services@[k], pool.messages@));
            assert(has_message(pool.messages@, service.methods@[i as int].input@));
            assert(has_message(pool.messages@, service.methods@[i as int].output@));
        }
        let ghost q_pre = queue@;
        if !name_in(&queue, service.methods[i].input.as_str()) {
            queue.push(service.methods[i].input.clone());
            proof {
                assert(name_in_spec(queue@, service.methods@[i as int].input@)) by {
                    assert(queue@[queue@.len() - 1]@ == service.methods@[i as int].input@);
                }
                assert forall|mi: int| 0 <= mi < i implies name_in_spec(
                    queue@,
                    (#[trigger] service.methods@[mi]).input@,
                ) && name_in_spec(queue@, service.methods@[mi].output@) by {
                    lemma_name_in_push(q_pre, queue@.last(), service.methods@[mi].input@);
                    lemma_name_in_push(q_pre, queue@.last(), service.methods@[mi].output@);
                }
            }
        }
        let ghost q_mid = queue@;
        if !name_in(&queue, service.methods[i].output.as_str()) {
            queue.push(service.methods[i].output.clone());
            proof {
                assert(name_in_spec(queue@, service.methods@[i as int].output@)) by {
                    assert(queue@[queue@.len() - 1]@ == service.methods@[i as int].output@);
                }
                assert forall|mi: int| 0 <= mi < i implies name_in_spec(
                    queue@,
                    (#[trigger] service.methods@[mi]).input@,
                ) && name_in_spec(queue@, service.methods@[mi].output@) by {
                    lemma_name_in_push(q_mid, queue@.last(), service.methods@[mi].input@);
                    lemma_name_in_push(q_mid, queue@.last(), service.methods@[mi].output@);
                }
                assert(name_in_spec(queue@, service.methods@[i as int].input@)) by {
                    lemma_name_in_push(q_mid, queue@.last(), service.methods@[i as int].input@);
                }
            }
        }
        i += 1;
    }
    // Drain the worklist; every queued name stays recorded, so each message
    // is visited once and the loop ends.
    let mut visited: Vec<String> = queue_names(&queue);
    proof {
        assert forall|a: int| 0 <= a < queue@.len() implies name_in_spec(
            visited@,
            (#[trigger] queue@[a])@,
        ) by {
            assert(visited@[a]@ == queue@[a]@);
        }
        assert forall|a: int| 0 <= a < visited@.len() implies name_in_spec(
            queue@,
            (#[trigger] visited@[a])@,
        ) by {
            assert(queue@[a]@ == visited@[a]@);
        }
        assert forall|mi: int| 0 <= mi < nm implies name_in_spec(
            visited@,
            (#[trigger] service.methods@[mi]).input@,
        ) && name_in_spec(visited@, service.methods@[mi].output@) by {
            let ia = choose|ia: int|
                0 <= ia < queue@.len() && queue@[ia]@ == service.methods@[mi].input@;
            assert(visited@[ia]@ == service.methods@[mi].input@);
            let ob = choose|ob: int|
                0 <= ob < queue@.len() && queue@[ob]@ == service.methods@[mi].output@;
            assert(visited@[ob]@ == service.methods@[mi].output@);
        }
        lemma_visited_bound(visited@, pool.messages@);
    }
    while queue.len() > 0
        invariant
            pool.wf(),
            pool.closed(),
            nm == service.methods@.len(),
            forall|a: int, b: int| 0 <= a < b < visited@.len() ==> visited@[a]@ != visited@[b]@,
            forall|a: int|
                0 <= a < visited@.len() ==> has_message(pool.messages@, (#[trigger] visited@[a])@),
            forall|a: int|
                0 <= a < queue@.len() ==> name_in_spec(visited@, (#[trigger] queue@[a])@),
            forall|a: int|
                0 <= a < queue@.len() ==> has_message(pool.messages@, (#[trigger] queue@[a])@),
            // Every name ever enqueued ends up collected or is still queued.
            forall|a: int|
                0 <= a < visited@.len() ==> msg_fqn_in(msgs@, (#[trigger] visited@[a])@)
                    || name_in_spec(queue@, visited@[a]@),
            forall|mi: int|
                0 <= mi < nm ==> name_in_spec(
                    visited@,
                    (#[trigger] service.methods@[mi]).input@,
                ) && name_in_spec(visited@, service.methods@[mi].output@),
            forall|a: int, b: int|
                0 <= a < b < msgs@.len() ==> (#[trigger] msgs@[a]).fqn@ != (#[trigger] msgs@[
                    b
                ]).fqn@,
            forall|a: int| 0 <= a < msgs@.len() ==> msg_from_pool(*pool, *(#[trigger] msgs@[a])),
            forall|a: int|
                0 <= a < msgs@.len() ==> name_in_spec(visited@, (#[trigger] msgs@[a]).fqn@),
            // Running closedness: targets of collected fields are recorded.
            forall|a: int, fj: int|
                0 <= a < msgs@.len() && 0 <= fj < msgs@[a].fields@.len() ==> match (
                #[trigger] msgs@[a].fields@[fj]).kind {
                    FieldKind::Message(t) => name_in_spec(visited@, t@),
                    FieldKind::Enum(t) => enum_fqn_in(enums@, t@),
                    _ => true,
                },
            forall|a: int, b: int|
                0 <= a < b < enums@.len() ==> (#[trigger] enums@[a]).fqn@ != (#[trigger] enums@[
                    b
                ]).fqn@,
            forall|a: int|
                0 <= a < enums@.len() ==> enum_from_pool(*pool, *(#[trigger] enums@[a])),
            visited@.len() <= pool.messages@.len(),
        decreases pool.messages@.len() - visited@.len() + queue@.len(),
    {
        let ghost q_pre = queue@;
        let fqn = queue.remove(0);
        let m: &'a MessageDecl = match pool.get_message_by_name(fqn.as_str()) {
            Some(m) => m,
            None => {
                proof {
                    assert(false);
                }
                return (msgs, enums);
            },
        };
        if contains_msg_fqn(&msgs, fqn.as_str()) {
            proof {
                lemma_visited_bound(visited@, pool.messages@);
                assert forall|a: int| 0 <= a < visited@.len() implies msg_fqn_in(
                    msgs@,
                    (#[trigger] visited@[a])@,
                ) || name_in_spec(queue@, visited@[a]@) by {
                    if !msg_fqn_in(msgs@, visited@[a]@) {
                        let p = choose|p: int|
                            0 <= p < q_pre.len() && q_pre[p]@ == visited@[a]@;
                        if p == 0 {
                            assert(visited@[a]@ == fqn@);
                        } else {
                            assert(queue@[p - 1]@ == visited@[a]@);
                        }
                    }
                }
            }
            continue ;
        }
        proof {
            assert(name_in_spec(visited@, fqn@)) by {
                assert(q_pre[0]@ == fqn@);
            }
            assert forall|a: int| 0 <= a < visited@.len() implies msg_fqn_in(
                msgs@,
                (#[trigger] visited@[a])@,
            ) || name_in_spec(queue@, visited@[a]@) || visited@[a]@ == m.fqn@ by {
                if !msg_fqn_in(msgs@, visited@[a]@) {
                    let p = choose|p: int| 0 <= p < q_pre.len() && q_pre[p]@ == visited@[a]@;
                    if p == 0 {
                        assert(visited@[a]@ == fqn@);
                    } else {
                        assert(queue@[p - 1]@ == visited@[a]@);
                    }
                }
            }
        }
        let ghost q0: int = queue@.len() as int;
        let ghost v0: int = visited@.len() as int;
        let nf: usize = m.fields.len();
        let mut j: usize = 0;
        while j < nf
            invariant
                pool.wf(),
                pool.closed(),
                0 <= j <= nf,
                nf == m.fields@.len(),
                nm == service.methods@.len(),
                m.fqn@ == fqn@,
                !msg_fqn_in(msgs@, m.fqn@),
                name_in_spec(visited@, m.fqn@),
                exists|k: int| 0 <= k < pool.messages@.len() && *m == pool.messages@[k],
                forall|a: int, b: int| 0 <= a < b < visited@.len() ==> visited@[a]@ != visited@[b]@,
                forall|a: int|
                    0 <= a < visited@.len() ==> has_message(
                        pool.messages@,
                        (#[trigger] visited@[a])@,
                    ),
                forall|a: int|
                    0 <= a < queue@.len() ==> name_in_spec(visited@, (#[trigger] queue@[a])@),
                forall|a: int|
                    0 <= a < queue@.len() ==> has_message(pool.messages@, (#[trigger] queue@[a])@),
                forall|a: int|
                    0 <= a < visited@.len() ==> msg_fqn_in(msgs@, (#[trigger] visited@[a])@)
                        || name_in_spec(queue@, visited@[a]@) || visited@[a]@ == m.fqn@,
                forall|mi: int|
                    0 <= mi < nm ==> name_in_spec(
                        visited@,
                        (#[trigger] service.methods@[mi]).input@,
                    ) && name_in_spec(visited@, service.methods@[mi].output@),
                forall|a: int, b: int|
                    0 <= a < b < msgs@.len() ==> (#[trigger] msgs@[a]).fqn@ != (#[trigger] msgs@[
                        b
                    ]).fqn@,
                forall|a: int|
                    0 <= a < msgs@.len() ==> msg_from_pool(*pool, *(#[trigger] msgs@[a])),
                forall|a: int|
                    0 <= a < msgs@.len() ==> name_in_spec(visited@, (#[trigger] msgs@[a]).fqn@),
                forall|a: int, fj: int|
                    0 <= a < msgs@.len() && 0 <= fj < msgs@[a].fields@.len() ==> match (
                    #[trigger] msgs@[a].fields@[fj]).kind {
                        FieldKind::Message(t) => name_in_spec(visited@, t@),
                        FieldKind::Enum(t) => enum_fqn_in(enums@, t@),
                        _ => true,
                    },
                // The fields already scanned of the message being absorbed.
                forall|fj: int|
                    0 <= fj < j ==> match (#[trigger] m.fields@[fj]).kind {
                        FieldKind::Message(t) => name_in_spec(visited@, t@),
                        FieldKind::Enum(t) => enum_fqn_in(enums@, t@),
                        _ => true,
                    },
                forall|a: int, b: int|
                    0 <= a < b < enums@.len() ==> (#[trigger] enums@[a]).fqn@ != (
                    #[trigger] enums@[b]).fqn@,
                forall|a: int|
                    0 <= a < enums@.len() ==> enum_from_pool(*pool, *(#[trigger] enums@[a])),
                visited@.len() <= pool.messages@.len(),
                // Each name enqueued here pairs with a new visited entry, so
                // the outer measure never grows inside this loop.
                queue@.len() - visited@.len() == q0 - v0,
            decreases nf - j,
        {
            proof {
                let k = choose|k: int|
                    0 <= k < pool.messages@.len() && *m == pool.messages@[k];
                assert(crate::descriptor::message_refs_ok(
                    pool.messages@[k],
                    pool.messages@,
                    pool.enums@,
                ));
                assert(crate::descriptor::field_ref_ok(
                    m.fields@[j as int],
                    pool.messages@,
                    pool.enums@,
                ));
            }
            match &m.fields[j].kind {
                FieldKind::Message(t) => {
                    if !name_in(&visited, t.as_str()) {
                        let ghost prev_visited = visited@;
                        let ghost prev_queue = queue@;
                        visited.push(t.clone());
                        queue.push(t.clone());
                        proof {
                            assert(name_in_spec(visited@, t@)) by {
                                assert(visited@[prev_visited.len() as int]@ == t@);
                            }
                            assert forall|a: int| 0 <= a < queue@.len() implies name_in_spec(
                                visited@,
                                (#[trigger] queue@[a])@,
                            ) by {
                                if a < prev_queue.len() {
                                    assert(queue@[a] == prev_queue[a]);
                                    lemma_name_in_push(
                                        prev_visited,
                                        visited@.last(),
                                        prev_queue[a]@,
                                    );
                                } else {
                                    assert(visited@[prev_visited.len() as int]@ == queue@[a]@);
                                }
                            }
                            assert forall|a: int| 0 <= a < msgs@.len() implies name_in_spec(
                                visited@,
                                (#[trigger] msgs@[a]).fqn@,
                            ) by {
                                lemma_name_in_push(prev_visited, visited@.last(), msgs@[a].fqn@);
                            }
                            assert forall|x: Seq<char>|
                                name_in_spec(prev_visited, x) implies name_in_spec(
                                visited@,
                                x,
                            ) by {
                                lemma_name_in_push(prev_visited, visited@.last(), x);
                            }
                            assert forall|a: int|
                                0 <= a < visited@.len() implies msg_fqn_in(
                                msgs@,
                                (#[trigger] visited@[a])@,
                            ) || name_in_spec(queue@, visited@[a]@) || visited@[a]@ == m.fqn@ by {
                                if a < prev_visited.len() {
                                    if name_in_spec(prev_queue, visited@[a]@) {
                                        let p = choose|p: int|
                                            0 <= p < prev_queue.len() && prev_queue[p]@
                                                == visited@[a]@;
                                        assert(queue@[p]@ == visited@[a]@);
                                    }
                                } else {
                                    assert(queue@[queue@.len() - 1]@ == visited@[a]@);
                                }
                            }
                            lemma_visited_bound(visited@, pool.messages@);
                        }
                    }
                },
                FieldKind::Enum(t) => {
                    if !contains_enum_fqn(&enums, t.as_str()) {
                        match pool.get_enum_by_name(t.as_str()) {
                            Some(e) => {
                                let ghost prev_enums = enums@;
                                enums.push(e);
                                proof {
                                    assert(forall|a: int|
                                        0 <= a < prev_enums.len() ==> enums@[a] == prev_enums[a]);
                                    assert(enum_from_pool(*pool, *e));
                                    assert(enums@[prev_enums.len() as int] == e);
                                    assert(enum_fqn_in(enums@, t@)) by {
                                        assert(enums@[prev_enums.len() as int].fqn@ == t@);
                                    }
                                    assert forall|x: Seq<char>|
                                        enum_fqn_in(prev_enums, x) implies enum_fqn_in(
                                        enums@,
                                        x,
                                    ) by {
                                        let p = choose|p: int|
                                            0 <= p < prev_enums.len() && prev_enums[p].fqn@ == x;
                                        assert(enums@[p].fqn@ == x);
                                    }
                                }
                            },
                            None => {
                                proof {
                                    assert(false);
                                }
                            },
                        }
                    }
                },
                _ => {},
            }
            j += 1;
        }
        let ghost prev_msgs = msgs@;
        msgs.push(m);
        proof {
            assert(msg_from_pool(*pool, *m));
            assert(forall|a: int| 0 <= a < prev_msgs.len() ==> msgs@[a] == prev_msgs[a]);
            assert(msgs@[prev_msgs.len() as int] == m);
            assert(msg_fqn_in(msgs@, m.fqn@)) by {
                assert(msgs@[prev_msgs.len() as int].fqn@ == m.fqn@);
            }
            assert forall|x: Seq<char>| msg_fqn_in(prev_msgs, x) implies msg_fqn_in(msgs@, x) by {
                let p = choose|p: int| 0 <= p < prev_msgs.len() && prev_msgs[p].fqn@ == x;
                assert(msgs@[p].fqn@ == x);
            }
            assert forall|a: int| 0 <= a < visited@.len() implies msg_fqn_in(
                msgs@,
                (#[trigger] visited@[a])@,
            ) || name_in_spec(queue@, visited@[a]@) by {
                if visited@[a]@ == m.fqn@ {
                    assert(msgs@[prev_msgs.len() as int].fqn@ == visited@[a]@);
                }
            }
            lemma_visited_bound(visited@, pool.messages@);
        }
    }
    proof {
        // An empty worklist closes the loop: everything recorded is collected.
        assert forall|a: int| 0 <= a < visited@.len() implies msg_fqn_in(
            msgs@,
            (#[trigger] visited@[a])@,
        ) by {
            assert(!name_in_spec(queue@, visited@[a]@));
        }
        assert forall|mi: int| 0 <= mi < service.methods@.len() implies msg_fqn_in(
            msgs@,
            (#[trigger] service.methods@[mi]).input@,
        ) && msg_fqn_in(msgs@, service.methods@[mi].output@) by {
            let ia = choose|ia: int|
                0 <= ia < visited@.len() && visited@[ia]@ == service.methods@[mi].input@;
            let ob = choose|ob: int|
                0 <= ob < visited@.len() && visited@[ob]@ == service.methods@[mi].output@;
        }
        assert forall|a: int, fj: int|
            0 <= a < msgs@.len() && 0 <= fj < msgs@[a].fields@.len() implies match (
        #[trigger] msgs@[a].fields@[fj]).kind {
            FieldKind::Message(t) => msg_fqn_in(msgs@, t@),
            FieldKind::Enum(t) => enum_fqn_in(enums@, t@),
            _ => true,
        } by {
            match msgs@[a].fields@[fj].kind {
                FieldKind::Message(t) => {
                    let v = choose|v: int| 0 <= v < visited@.len() && visited@[v]@ == t@;
                },
                _ => {},
            }
        }
    }
    (msgs, enums)
}

pub open spec fn name_in_spec(ss: Seq<String>, x: Seq<char>) -> bool {
    exists|i: int| 0 <= i < ss.len() && ss[i]@ == x
}

/// The message is one of the pool's.
pub open spec fn msg_from_pool(pool: DescriptorPool, m: MessageDecl) -> bool {
    exists|k: int| 0 <= k < pool.messages@.len() && m == pool.messages@[k]
}

/// The enum is one of the pool's.
pub open spec fn enum_from_pool(pool: DescriptorPool, e: EnumDecl) -> bool {
    exists|k: int| 0 <= k < pool.enums@.len() && e == pool.enums@[k]
}

proof fn lemma_name_in_push(ss: Seq<String>, x: String, y: Seq<char>)
    requires
        name_in_spec(ss, y),
    ensures
        name_in_spec(ss.push(x), y),
{
    let i = choose|i: int| 0 <= i < ss.len() && ss[i]@ == y;
    assert(ss.push(x)[i]@ == y);
}

fn name_in(v: &Vec<String>, x: &str) -> (r: bool)
    ensures
        r == name_in_spec(v@, x@),
{
    let n: usize = v.len();
    let mut i: usize = 0;
    while i < n
        invariant
            0 <= i <= n,
            n == v@.len(),
            forall|j: int| 0 <= j < i ==> v@[j]@ != x@,
        decreases n - i,
    {
        if str_eq(v[i].as_str(), x) {
            return true;
        }
        i += 1;
    }
    false
}

fn queue_names(v: &Vec<String>) -> (r: Vec<String>)
    ensures
        r@.len() == v@.len(),
        forall|i: int| 0 <= i < r@.len() ==> (#[trigger] r@[i])@ == v@[i]@,
{
    let n: usize = v.len();
    let mut out: Vec<String> = Vec::new();
    let mut i: usize = 0;
    while i < n
        invariant
            0 <= i <= n,
            n == v@.len(),
            out@.len() == i,
            forall|j: int| 0 <= j < i ==> (#[trigger] out@[j])@ == v@[j]@,
        decreases n - i,
    {
        out.push(v[i].clone());
        i += 1;
    }
    out
}

fn contains_msg_fqn(v: &Vec<&MessageDecl>, x: &str) -> (r: bool)
    ensures
        r == exists|i: int| 0 <= i < v@.len() && v@[i].fqn@ == x@,
{
    let n: usize = v.len();
    let mut i: usize = 0;
    while i < n
        invariant
            0 <= i <= n,
            n == v@.len(),
            forall|j: int| 0 <= j < i ==> v@[j].fqn@ != x@,
        decreases n - i,
    {
        if str_eq(v[i].fqn.as_str(), x) {
            return true;
        }
        i += 1;
    }
    false
}

fn contains_enum_fqn(v: &Vec<&EnumDecl>, x: &str) -> (r: bool)
    ensures
        r == exists|i: int| 0 <= i < v@.len() && v@[i].fqn@ == x@,
{
    let n: usize = v.len();
    let mut i: usize = 0;
    while i < n
        invariant
            0 <= i <= n,
            n == v@.len(),
            forall|j: int| 0 <= j < i ==> v@[j].fqn@ != x@,
        decreases n - i,
    {
        if str_eq(v[i].fqn.as_str(), x) {
            return true;
        }
        i += 1;
    }
    false
}

/// Every message of `post` is the message of `pre` at the same position, or
/// the one inserted descriptor.
pub open spec fn msgs_added_only(
    pre: Seq<Package>,
    post: Seq<Package>,
    descriptor: Descriptor<'_>,
) -> bool {
    forall|k: int, j: int|
        0 <= k < post.len() && 0 <= j < post[k].messages@.len() ==> ((k < pre.len() && j
            < pre[k].messages@.len() && (#[trigger] post[k].messages@[j])
            == pre[k].messages@[j]) || (descriptor matches Descriptor::MessageDescriptor(m)
            && post[k].messages@[j] == m))
}

/// Every enum of `post` is the enum of `pre` at the same position, or the one
/// inserted descriptor.
pub open spec fn enums_added_only(
    pre: Seq<Package>,
    post: Seq<Package>,
    descriptor: Descriptor<'_>,
) -> bool {
    forall|k: int, j: int|
        0 <= k < post.len() && 0 <= j < post[k].enums@.len() ==> ((k < pre.len() && j
            < pre[k].enums@.len() && (#[trigger] post[k].enums@[j]) == pre[k].enums@[j]) || (
        descriptor matches Descriptor::EnumDescriptor(e) && post[k].enums@[j] == e))
}

/// Some package page holds a message with this fully-qualified name.
pub open spec fn packaged_msg(ps: Seq<Package>, x: Seq<char>) -> bool {
    exists|i: int, j: int|
        0 <= i < ps.len() && 0 <= j < ps[i].messages@.len() && (#[trigger] ps[i].messages@[j]).fqn@
            == x
}

/// Some package page holds an enum with this fully-qualified name.
pub open spec fn packaged_enum(ps: Seq<Package>, x: Seq<char>) -> bool {
    exists|i: int, j: int|
        0 <= i < ps.len() && 0 <= j < ps[i].enums@.len() && (#[trigger] ps[i].enums@[j]).fqn@ == x
}

/// The service is one of the pool's.
pub open spec fn svc_from_pool(pool: DescriptorPool, s: ServiceDecl) -> bool {
    exists|k: int| 0 <= k < pool.services@.len() && s == pool.services@[k]
}

/// Every definition on the page is one of the pool's.
pub open spec fn package_from_pool(pool: DescriptorPool, p: Package<'_>) -> bool {
    &&& forall|i: int|
        0 <= i < p.services@.len() ==> svc_from_pool(pool, *(#[trigger] p.services@[i]))
    &&& forall|i: int|
        0 <= i < p.messages@.len() ==> msg_from_pool(pool, *(#[trigger] p.messages@[i]))
    &&& forall|i: int| 0 <= i < p.enums@.len() ==> enum_from_pool(pool, *(#[trigger] p.enums@[i]))
}

proof fn lemma_packaged_msg_preserved(pre: Seq<Package>, post: Seq<Package>, x: Seq<char>)
    requires
        packaged_msg(pre, x),
        pre.len() <= post.len(),
        forall|k: int|
            0 <= k < pre.len() ==> pre[k].messages@.is_prefix_of((#[trigger] post[k]).messages@),
    ensures
        packaged_msg(post, x),
{
    let (i, j) = choose|i: int, j: int|
        0 <= i < pre.len() && 0 <= j < pre[i].messages@.len() && (#[trigger] pre[i].messages@[
            j
        ]).fqn@ == x;
    assert(pre[i].messages@ =~= post[i].messages@.subrange(0, pre[i].messages@.len() as int));
    assert(post[i].messages@[j] == pre[i].messages@[j]);
}

proof fn lemma_packaged_enum_preserved(pre: Seq<Package>, post: Seq<Package>, x: Seq<char>)
    requires
        packaged_enum(pre, x),
        pre.len() <= post.len(),
        forall|k: int|
            0 <= k < pre.len() ==> pre[k].enums@.is_prefix_of((#[trigger] post[k]).enums@),
    ensures
        packaged_enum(post, x),
{
    let (i, j) = choose|i: int, j: int|
        0 <= i < pre.len() && 0 <= j < pre[i].enums@.len() && (#[trigger] pre[i].enums@[j]).fqn@
            == x;
    assert(pre[i].enums@ =~= post[i].enums@.subrange(0, pre[i].enums@.len() as int));
    assert(post[i].enums@[j] == pre[i].enums@[j]);
}

/// The given service stands on the page named after its package.
pub open spec fn service_packaged(ps: Seq<Package>, service: &ServiceDecl) -> bool {
    exists|i: int|
        0 <= i < ps.len() && (#[trigger] ps[i]).name@ == service.package@ && ps[i].services@.contains(
            service,
        )
}

/// Every message-typed field of every packaged message resolves to a packaged
/// message, and every enum-typed field to a packaged enum.
pub open spec fn packages_closed(ps: Seq<Package>) -> bool {
    forall|k: int, j: int, fj: int|
        0 <= k < ps.len() && 0 <= j < ps[k].messages@.len() && 0 <= fj < ps[k].messages@[
            j
        ].fields@.len() ==> match (#[trigger] ps[k].messages@[j].fields@[fj]).kind {
            FieldKind::Message(t) => packaged_msg(ps, t@),
            FieldKind::Enum(t) => packaged_enum(ps, t@),
            _ => true,
        }
}

/// Groups the given service and everything its methods reach into packages:
/// the service's page holds it, every method input and output is packaged,
/// and the packaged set is closed under field references.
pub fn packages_from_service<'a>(pool: &'a DescriptorPool, service: &'a ServiceDecl) -> (r:
    Packages<'a>)
    requires
        pool.wf(),
        pool.closed(),
        svc_from_pool(*pool, *service),
    ensures
        r.wf(),
        forall|i: int|
            0 <= i < r.entries@.len() ==> package_from_pool(*pool, #[trigger] r.entries@[i]),
        service_packaged(r.entries@, service),
        forall|mi: int|
            0 <= mi < service.methods@.len() ==> packaged_msg(
                r.entries@,
                (#[trigger] service.methods@[mi]).input@,
            ) && packaged_msg(r.entries@, service.methods@[mi].output@),
        packages_closed(r.entries@),
{
    let (msgs, enums) = collect_dependencies(pool, service);
    let mut packages = Packages { entries: Vec::new() };
    proof {
        assert(packages.wf());
    }
    packages.insert(pool, service.package.as_str(), Descriptor::ServiceDescriptor(service));
    let nm: usize = msgs.len();
    let mut i: usize = 0;
    while i < nm
        invariant
            pool.wf(),
            0 <= i <= nm,
            nm == msgs@.len(),
            packages.wf(),
            forall|a: int| 0 <= a < msgs@.len() ==> msg_from_pool(*pool, *(#[trigger] msgs@[a])),
            forall|k: int|
                0 <= k < packages.entries@.len() ==> package_from_pool(
                    *pool,
                    #[trigger] packages.entries@[k],
                ),
            service_packaged(packages.entries@, service),
            forall|a: int|
                0 <= a < i ==> packaged_msg(packages.entries@, (#[trigger] msgs@[a]).fqn@),
            // Only collected messages stand on pages; no enums are filed yet.
            forall|k: int, j: int|
                0 <= k < packages.entries@.len() && 0 <= j < packages.entries@[k].messages@.len()
                    ==> msgs@.contains(#[trigger] packages.entries@[k].messages@[j]),
        decreases nm - i,
    {
        let ghost pre = packages.entries@;
        packages.insert(pool, msgs[i].package.as_str(), Descriptor::MessageDescriptor(msgs[i]));
        proof {
            let se = choose|se: int|
                0 <= se < pre.len() && (#[trigger] pre[se]).name@ == service.package@
                    && pre[se].services@.contains(service);
            assert(service_packaged(packages.entries@, service)) by {
                let sj = choose|sj: int|
                    0 <= sj < pre[se].services@.len() && pre[se].services@[sj] == service;
                assert(pre[se].services@ =~= packages.entries@[se].services@.subrange(
                    0,
                    pre[se].services@.len() as int,
                ));
                assert(packages.entries@[se].services@[sj] == service);
                assert(packages.entries@[se].services@.contains(service));
            }
            let fi = choose|fi: int|
                0 <= fi < packages.entries@.len() && (#[trigger] packages.entries@[fi]).name@
                    == msgs@[i as int].package@ && packages.entries@[fi].messages@.contains(
                    msgs@[i as int],
                );
            assert(packaged_msg(packages.entries@, msgs@[i as int].fqn@)) by {
                let fj = choose|fj: int|
                    0 <= fj < packages.entries@[fi].messages@.len() && packages.entries@[
                        fi
                    ].messages@[fj] == msgs@[i as int];
                assert(packages.entries@[fi].messages@[fj].fqn@ == msgs@[i as int].fqn@);
            }
            assert forall|a: int| 0 <= a < i implies packaged_msg(
                packages.entries@,
                (#[trigger] msgs@[a]).fqn@,
            ) by {
                lemma_packaged_msg_preserved(pre, packages.entries@, msgs@[a].fqn@);
            }
            assert forall|k: int, j: int|
                0 <= k < packages.entries@.len() && 0 <= j < packages.entries@[
                    k
                ].messages@.len() implies msgs@.contains(
                #[trigger] packages.entries@[k].messages@[j],
            ) by {
                if k < pre.len() && j < pre[k].messages@.len() && packages.entries@[k].messages@[j]
                    == pre[k].messages@[j] {
                } else {
                    assert(packages.entries@[k].messages@[j] == msgs@[i as int]);
                    assert(msgs@[i as int] == msgs@[i as int]);
                }
            }
        }
        i += 1;
    }
    let ne: usize = enums.len();
    let mut i: usize = 0;
    while i < ne
        invariant
            pool.wf(),
            0 <= i <= ne,
            ne == enums@.len(),
            nm == msgs@.len(),
            packages.wf(),
            forall|a: int| 0 <= a < enums@.len() ==> enum_from_pool(*pool, *(#[trigger] enums@[a])),
            forall|k: int|
                0 <= k < packages.entries@.len() ==> package_from_pool(
                    *pool,
                    #[trigger] packages.entries@[k],
                ),
            service_packaged(packages.entries@, service),
            forall|a: int|
                0 <= a < nm ==> packaged_msg(packages.entries@, (#[trigger] msgs@[a]).fqn@),
            forall|a: int|
                0 <= a < i ==> packaged_enum(packages.entries@, (#[trigger] enums@[a]).fqn@),
            forall|k: int, j: int|
                0 <= k < packages.entries@.len() && 0 <= j < packages.entries@[k].messages@.len()
                    ==> msgs@.contains(#[trigger] packages.entries@[k].messages@[j]),
        decreases ne - i,
    {
        let ghost pre = packages.entries@;
        packages.insert(pool, enums[i].package.as_str(), Descriptor::EnumDescriptor(enums[i]));
        proof {
            let se = choose|se: int|
                0 <= se < pre.len() && (#[trigger] pre[se]).name@ == service.package@
                    && pre[se].services@.contains(service);
            assert(service_packaged(packages.entries@, service)) by {
                let sj = choose|sj: int|
                    0 <= sj < pre[se].services@.len() && pre[se].services@[sj] == service;
                assert(pre[se].services@ =~= packages.entries@[se].services@.subrange(
                    0,
                    pre[se].services@.len() as int,
                ));
                assert(packages.entries@[se].services@[sj] == service);
                assert(packages.entries@[se].services@.contains(service));
            }
            let fi = choose|fi: int|
                0 <= fi < packages.entries@.len() && (#[trigger] packages.entries@[fi]).name@
                    == enums@[i as int].package@ && packages.entries@[fi].enums@.contains(
                    enums@[i as int],
                );
            assert(packaged_enum(packages.entries@, enums@[i as int].fqn@)) by {
                let fj = choose|fj: int|
                    0 <= fj < packages.entries@[fi].enums@.len() && packages.entries@[fi].enums@[
                        fj
                    ] == enums@[i as int];
                assert(packages.entries@[fi].enums@[fj].fqn@ == enums@[i as int].fqn@);
            }
            assert forall|a: int| 0 <= a < nm implies packaged_msg(
                packages.entries@,
                (#[trigger] msgs@[a]).fqn@,
            ) by {
                lemma_packaged_msg_preserved(pre, packages.entries@, msgs@[a].fqn@);
            }
            assert forall|a: int| 0 <= a < i implies packaged_enum(
                packages.entries@,
                (#[trigger] enums@[a]).fqn@,
            ) by {
                lemma_packaged_enum_preserved(pre, packages.entries@, enums@[a].fqn@);
            }
            assert forall|k: int, j: int|
                0 <= k < packages.entries@.len() && 0 <= j < packages.entries@[
                    k
                ].messages@.len() implies msgs@.contains(
                #[trigger] packages.entries@[k].messages@[j],
            ) by {
                assert(packages.entries@[k].messages@[j] == pre[k].messages@[j]);
            }
        }
        i += 1;
    }
    proof {
        // The packaged set inherits the collection's closedness.
        assert forall|k: int, j: int, fj: int|
            0 <= k < packages.entries@.len() && 0 <= j < packages.entries@[k].messages@.len() && 0
                <= fj < packages.entries@[k].messages@[j].fields@.len() implies match (
        #[trigger] packages.entries@[k].messages@[j].fields@[fj]).kind {
            FieldKind::Message(t) => packaged_msg(packages.entries@, t@),
            FieldKind::Enum(t) => packaged_enum(packages.entries@, t@),
            _ => true,
        } by {
            assert(msgs@.contains(packages.entries@[k].messages@[j]));
            let a = choose|a: int|
                0 <= a < msgs@.len() && msgs@[a] == packages.entries@[k].messages@[j];
            assert(deps_closed(msgs@, enums@));
            match packages.entries@[k].messages@[j].fields@[fj].kind {
                FieldKind::Message(t) => {
                    assert(msg_fqn_in(msgs@, t@));
                    let a2 = choose|a2: int| 0 <= a2 < msgs@.len() && msgs@[a2].fqn@ == t@;
                    assert(packaged_msg(packages.entries@, msgs@[a2].fqn@));
                },
                FieldKind::Enum(t) => {
                    assert(enum_fqn_in(enums@, t@));
                    let a2 = choose|a2: int| 0 <= a2 < enums@.len() && enums@[a2].fqn@ == t@;
                    assert(packaged_enum(packages.entries@, enums@[a2].fqn@));
                },
                _ => {},
            }
        }
        // Every method input and output is packaged.
        assert forall|mi: int| 0 <= mi < service.methods@.len() implies packaged_msg(
            packages.entries@,
            (#[trigger] service.methods@[mi]).input@,
        ) && packaged_msg(packages.entries@, service.methods@[mi].output@) by {
            assert(seeds_in(msgs@, *service));
            let a = choose|a: int|
                0 <= a < msgs@.len() && msgs@[a].fqn@ == service.methods@[mi].input@;
            assert(packaged_msg(packages.entries@, msgs@[a].fqn@));
            let b = choose|b: int|
                0 <= b < msgs@.len() && msgs@[b].fqn@ == service.methods@[mi].output@;
            assert(packaged_msg(packages.entries@, msgs@[b].fqn@));
        }
    }
    packages
}

/// An HTML anchor line for in-page links.
pub open spec fn spec_anchor(name: Seq<char>) -> Seq<char> {
    "<a id=\""@ + name + "\"></a>\n"@
}

/// A link into a package page: `package.md#Name`.
pub open spec fn spec_link(package: Seq<char>, name: Seq<char>) -> Seq<char> {
    package + ".md#"@ + name
}

/// Appends an anchor for `name`.
pub fn write_anchor(out: &mut String, name: &str)
    ensures
        final(out)@ == old(out)@ + spec_anchor(name@),
{
    out.append("<a id=\"");
    out.append(name);
    out.append("\"></a>\n");
    proof {
        assert(out@ =~= old(out)@ + spec_anchor(name@));
    }
}

/// The link to `name` on the page of `package`.
pub fn resolve_link(package: &str, name: &str) -> (r: String)
    ensures
        r@ == spec_link(package@, name@),
{
    let mut out = String::from_str(package);
    out.append(".md#");
    out.append(name);
    proof {
        assert(out@ =~= spec_link(package@, name@));
    }
    out
}

/// The documentation block of one method: its heading and the request and
/// response links.
pub open spec fn spec_method_doc(pool: DescriptorPool, m: MethodDecl) -> Seq<char> {
    let input = msg_decl_of(pool, m.input@);
    let output = msg_decl_of(pool, m.output@);
    "#### `"@ + m.name@ + "`\n\n- Request: ["@ + input.name@ + "]("@ + spec_link(
        input.package@,
        input.name@,
    ) + ")\n- Response: ["@ + output.name@ + "]("@ + spec_link(output.package@, output.name@)
        + ")\n\n"@
}

pub open spec fn spec_method_docs(pool: DescriptorPool, ms: Seq<MethodDecl>) -> Seq<char>
    decreases ms.len(),
{
    if ms.len() == 0 {
        Seq::<char>::empty()
    } else {
        spec_method_docs(pool, ms.drop_last()) + spec_method_doc(pool, ms.last())
    }
}

/// The body of a service section: type, full name, definition, methods.
pub open spec fn spec_service_content(pool: DescriptorPool, s: ServiceDecl) -> Seq<char> {
    "**Type**: `Service`\n\n**Full Name**: `"@ + s.fqn@ + "`\n\n### Definition\n\n```protobuf\n"@
        + spec_format_service(s) + "\n```\n\n### Methods\n\n"@ + spec_method_docs(pool, s.methods@)
}

/// Appends the section body for one service.
#[verifier::rlimit(50)]
pub fn write_service_content(out: &mut String, pool: &DescriptorPool, s: &ServiceDecl)
    requires
        pool.wf(),
        pool.closed(),
        svc_from_pool(*pool, *s),
    ensures
        final(out)@ == old(out)@ + spec_service_content(*pool, *s),
{
    out.append("**Type**: `Service`\n\n**Full Name**: `");
    out.append(s.fqn.as_str());
    out.append("`\n\n### Definition\n\n```protobuf\n");
    let rendered = format_service(s);
    out.append(rendered.as_str());
    out.append("\n```\n\n### Methods\n\n");
    let ghost head = old(out)@ + "**Type**: `Service`\n\n**Full Name**: `"@ + s.fqn@
        + "`\n\n### Definition\n\n```protobuf\n"@ + spec_format_service(*s)
        + "\n```\n\n### Methods\n\n"@;
    proof {
        assert(out@ =~= head);
    }
    let n: usize = s.methods.len();
    let mut i: usize = 0;
    while i < n
        invariant
            pool.wf(),
            pool.closed(),
            svc_from_pool(*pool, *s),
            0 <= i <= n,
            n == s.methods@.len(),
            out@ == head + spec_method_docs(*pool, s.methods@.take(i as int)),
        decreases n - i,
    {
        proof {
            let k = choose|k: int| 0 <= k < pool.services@.len() && *s == pool.services@[k];
            assert(crate::descriptor::service_refs_ok(pool.services@[k], pool.messages@));
            assert(has_message(pool.messages@, s.methods@[i as int].input@));
            assert(has_message(pool.messages@, s.methods@[i as int].output@));
        }
        let m = &s.methods[i];
        let input = match pool.get_message_by_name(m.input.as_str()) {
            Some(d) => d,
            None => {
                proof {
                    assert(false);
                }
                return ;
            },
        };
        let output = match pool.get_message_by_name(m.output.as_str()) {
            Some(d) => d,
            None => {
                proof {
                    assert(false);
                }
                return ;
            },
        };
        proof {
            lemma_msg_decl_unique(*pool, m.input@, *input);
            lemma_msg_decl_unique(*pool, m.output@, *output);
        }
        out.append("#### `");
        out.append(m.name.as_str());
        out.append("`\n\n- Request: [");
        out.append(input.name.as_str());
        out.append("](");
        let link = resolve_link(input.package.as_str(), input.name.as_str());
        out.append(link.as_str());
        out.append(")\n- Response: [");
        out.append(output.name.as_str());
        out.append("](");
        let link2 = resolve_link(output.package.as_str(), output.name.as_str());
        out.append(link2.as_str());
        out.append(")\n\n");
        proof {
            assert(s.methods@.take(i + 1).drop_last() =~= s.methods@.take(i as int));
            assert(s.methods@.take(i + 1).last() == s.methods@[i as int]);
            assert(out@ =~= head + spec_method_docs(*pool, s.methods@.take(i + 1)));
        }
        i += 1;
    }
    proof {
        assert(s.methods@.take(n as int) =~= s.methods@);
    }
}

/// The dependency line of one field: present only for message or enum fields.
pub open spec fn spec_dep_line(pool: DescriptorPool, f: FieldDecl) -> Seq<char> {
    match f.kind {
        FieldKind::Message(t) => {
            let d = msg_decl_of(pool, t@);
            "- Field `"@ + f.name@ + "`: ["@ + d.name@ + "]("@ + spec_link(d.package@, d.name@)
                + ")\n"@
        },
        FieldKind::Enum(t) => {
            let d = enum_decl_of(pool, t@);
            "- Field `"@ + f.name@ + "`: ["@ + d.name@ + "]("@ + spec_link(d.package@, d.name@)
                + ")\n"@
        },
        _ => Seq::<char>::empty(),
    }
}

pub open spec fn spec_dep_lines(pool: DescriptorPool, fs: Seq<FieldDecl>) -> Seq<char>
    decreases fs.len(),
{
    if fs.len() == 0 {
        Seq::<char>::empty()
    } else {
        spec_dep_lines(pool, fs.drop_last()) + spec_dep_line(pool, fs.last())
    }
}

/// Whether any field references a message or an enum.
pub open spec fn has_dep(fs: Seq<FieldDecl>) -> bool {
    exists|i: int|
        0 <= i < fs.len() && ((#[trigger] fs[i]).kind is Message || fs[i].kind is Enum)
}

/// The body of a message section: type, full name, definition, dependencies.
pub open spec fn spec_message_content(pool: DescriptorPool, m: MessageDecl) -> Seq<char> {
    "**Type**: `Message`\n\n**Full Name**: `"@ + m.fqn@ + "`\n\n### Definition\n\n```protobuf\n"@
        + spec_format_message(m) + "\n```\n\n### Dependencies\n\n"@ + spec_dep_lines(
        pool,
        m.fields@,
    ) + (if has_dep(m.fields@) {
        Seq::<char>::empty()
    } else {
        "*None*\n"@
    }) + "\n"@
}

/// Appends the section body for one message.
pub fn write_message_content(out: &mut String, pool: &DescriptorPool, m: &MessageDecl)
    requires
        pool.wf(),
        pool.closed(),
        msg_from_pool(*pool, *m),
    ensures
        final(out)@ == old(out)@ + spec_message_content(*pool, *m),
{
    out.append("**Type**: `Message`\n\n**Full Name**: `");
    out.append(m.fqn.as_str());
    out.append("`\n\n### Definition\n\n```protobuf\n");
    let rendered = format_message(m);
    out.append(rendered.as_str());
    out.append("\n```\n\n### Dependencies\n\n");
    let ghost head = old(out)@ + "**Type**: `Message`\n\n**Full Name**: `"@ + m.fqn@
        + "`\n\n### Definition\n\n```protobuf\n"@ + spec_format_message(*m)
        + "\n```\n\n### Dependencies\n\n"@;
    proof {
        assert(out@ =~= head);
    }
    let mut found: bool = false;
    let n: usize = m.fields.len();
    let mut i: usize = 0;
    while i < n
        invariant
            pool.wf(),
            pool.closed(),
            msg_from_pool(*pool, *m),
            0 <= i <= n,
            n == m.fields@.len(),
            out@ == head + spec_dep_lines(*pool, m.fields@.take(i as int)),
            found == has_dep(m.fields@.take(i as int)),
        decreases n - i,
    {
        proof {
            let k = choose|k: int| 0 <= k < pool.messages@.len() && *m == pool.messages@[k];
            assert(crate::descriptor::message_refs_ok(
                pool.messages@[k],
                pool.messages@,
                pool.enums@,
            ));
            assert(crate::descriptor::field_ref_ok(
                m.fields@[i as int],
                pool.messages@,
                pool.enums@,
            ));
        }
        let f = &m.fields[i];
        match &f.kind {
            FieldKind::Message(t) => {
                let d = match pool.get_message_by_name(t.as_str()) {
                    Some(d) => d,
                    None => {
                        proof {
                            assert(false);
                        }
                        return ;
                    },
                };
                proof {
                    lemma_msg_decl_unique(*pool, t@, *d);
                }
                out.append("- Field `");
                out.append(f.name.as_str());
                out.append("`: [");
                out.append(d.name.as_str());
                out.append("](");
                let link = resolve_link(d.package.as_str(), d.name.as_str());
                out.append(link.as_str());
                out.append(")\n");
                found = true;
            },
            FieldKind::Enum(t) => {
                let d = match pool.get_enum_by_name(t.as_str()) {
                    Some(d) => d,
                    None => {
                        proof {
                            assert(false);
                        }
                        return ;
                    },
                };
                proof {
                    lemma_enum_decl_unique(*pool, t@, *d);
                }
                out.append("- Field `");
                out.append(f.name.as_str());
                out.append("`: [");
                out.append(d.name.as_str());
                out.append("](");
                let link = resolve_link(d.package.as_str(), d.name.as_str());
                out.append(link.as_str());
                out.append(")\n");
                found = true;
            },
            _ => {},
        }
        proof {
            assert(m.fields@.take(i + 1).drop_last() =~= m.fields@.take(i as int));
            assert(m.fields@.take(i + 1).last() == m.fields@[i as int]);
            assert(out@ =~= head + spec_dep_lines(*pool, m.fields@.take(i + 1)));
            assert(found == has_dep(m.fields@.take(i + 1))) by {
                if found {
                } else {
                    assert(forall|j: int|
                        0 <= j < i + 1 ==> !((#[trigger] m.fields@.take(i + 1)[j]).kind is Message
                            || m.fields@.take(i + 1)[j].kind is Enum));
                }
            }
        }
        i += 1;
    }
    proof {
        assert(m.fields@.take(n as int) =~= m.fields@);
    }
    if !found {
        out.append("*None*\n");
    }
    out.append("\n");
    proof {
        assert(out@ =~= old(out)@ + spec_message_content(*pool, *m));
    }
}

/// The body of an enum section: type, full name, definition.
pub open spec fn spec_enum_content(e: EnumDecl) -> Seq<char> {
    "**Type**: `Enum`\n\n**Full Name**: `"@ + e.fqn@ + "`\n\n### Definition\n\n```protobuf\n"@
        + spec_format_enum(e) + "\n```\n\n"@
}

/// Appends the section body for one enum.
pub fn write_enum_content(out: &mut String, e: &EnumDecl)
    ensures
        final(out)@ == old(out)@ + spec_enum_content(*e),
{
    out.append("**Type**: `Enum`\n\n**Full Name**: `");
    out.append(e.fqn.as_str());
    out.append("`\n\n### Definition\n\n```protobuf\n");
    let rendered = format_enum(e);
    out.append(rendered.as_str());
    out.append("\n```\n\n");
    proof {
        assert(out@ =~= old(out)@ + spec_enum_content(*e));
    }
}

/// One service section: anchor, heading, body, rule.
pub open spec fn spec_svc_section(pool: DescriptorPool, s: ServiceDecl) -> Seq<char> {
    spec_anchor(s.name@) + "## "@ + s.name@ + "\n\n"@ + spec_service_content(pool, s) + "---\n\n"@
}

pub open spec fn spec_svc_sections(pool: DescriptorPool, ss: Seq<&ServiceDecl>) -> Seq<char>
    decreases ss.len(),
{
    if ss.len() == 0 {
        Seq::<char>::empty()
    } else {
        spec_svc_sections(pool, ss.drop_last()) + spec_svc_section(pool, *ss.last())
    }
}

/// One message section: anchor, heading, body, rule.
pub open spec fn spec_msg_section(pool: DescriptorPool, m: MessageDecl) -> Seq<char> {
    spec_anchor(m.name@) + "## "@ + m.name@ + "\n\n"@ + spec_message_content(pool, m) + "---\n\n"@
}

pub open spec fn spec_msg_sections(pool: DescriptorPool, ms: Seq<&MessageDecl>) -> Seq<char>
    decreases ms.len(),
{
    if ms.len() == 0 {
        Seq::<char>::empty()
    } else {
        spec_msg_sections(pool, ms.drop_last()) + spec_msg_section(pool, *ms.last())
    }
}

/// One enum section: anchor, heading, body, rule.
pub open spec fn spec_enum_section(e: EnumDecl) -> Seq<char> {
    spec_anchor(e.name@) + "## "@ + e.name@ + "\n\n"@ + spec_enum_content(e) + "---\n\n"@
}

pub open spec fn spec_enum_sections(es: Seq<&EnumDecl>) -> Seq<char>
    decreases es.len(),
{
    if es.len() == 0 {
        Seq::<char>::empty()
    } else {
        spec_enum_sections(es.drop_last()) + spec_enum_section(*es.last())
    }
}

/// The whole package page: heading, then the services, messages and enums of
/// the package, in collection order.
pub open spec fn spec_package_file(pool: DescriptorPool, p: Package<'_>) -> Seq<char> {
    "# Namespace: `"@ + p.name@ + "`\n\n"@ + spec_svc_sections(pool, p.services@)
        + spec_msg_sections(pool, p.messages@) + spec_enum_sections(p.enums@)
}

/// Renders one package page: services first, then messages, then enums, each
/// section anchored, in collection order.
#[verifier::rlimit(50)]
pub fn generate_package_file(pool: &DescriptorPool, package: &Package<'_>) -> (r: String)
    requires
        pool.wf(),
        pool.closed(),
        forall|i: int|
            0 <= i < package.services@.len() ==> svc_from_pool(
                *pool,
                *(#[trigger] package.services@[i]),
            ),
        forall|i: int|
            0 <= i < package.messages@.len() ==> msg_from_pool(
                *pool,
                *(#[trigger] package.messages@[i]),
            ),
    ensures
        r@ == spec_package_file(*pool, *package),
{
    let mut out = String::from_str("# Namespace: `");
    out.append(package.name.as_str());
    out.append("`\n\n");
    let ghost head = "# Namespace: `"@ + package.name@ + "`\n\n"@;
    proof {
        assert(out@ =~= head);
    }
    let ns: usize = package.services.len();
    let mut i: usize = 0;
    while i < ns
        invariant
            pool.wf(),
            pool.closed(),
            0 <= i <= ns,
            ns == package.services@.len(),
            forall|k: int|
                0 <= k < package.services@.len() ==> svc_from_pool(
                    *pool,
                    *(#[trigger] package.services@[k]),
                ),
            head == "# Namespace: `"@ + package.name@ + "`\n\n"@,
            out@ == head + spec_svc_sections(*pool, package.services@.take(i as int)),
        decreases ns - i,
    {
        write_anchor(&mut out, package.services[i].name.as_str());
        out.append("## ");
        out.append(package.services[i].name.as_str());
        out.append("\n\n");
        write_service_content(&mut out, pool, package.services[i]);
        out.append("---\n\n");
        proof {
            assert(package.services@.take(i + 1).drop_last() =~= package.services@.take(i as int));
            assert(package.services@.take(i + 1).last() == package.services@[i as int]);
            assert(out@ =~= head + spec_svc_sections(*pool, package.services@.take(i + 1)));
        }
        i += 1;
    }
    let ghost head2 = head + spec_svc_sections(*pool, package.services@);
    proof {
        assert(package.services@.take(ns as int) =~= package.services@);
        assert(out@ =~= head2);
    }
    let nm: usize = package.messages.len();
    let mut i: usize = 0;
    while i < nm
        invariant
            pool.wf(),
            pool.closed(),
            0 <= i <= nm,
            nm == package.messages@.len(),
            forall|k: int|
                0 <= k < package.messages@.len() ==> msg_from_pool(
                    *pool,
                    *(#[trigger] package.messages@[k]),
                ),
            head2 == "# Namespace: `"@ + package.name@ + "`\n\n"@ + spec_svc_sections(
                *pool,
                package.services@,
            ),
            out@ == head2 + spec_msg_sections(*pool, package.messages@.take(i as int)),
        decreases nm - i,
    {
        write_anchor(&mut out, package.messages[i].name.as_str());
        out.append("## ");
        out.append(package.messages[i].name.as_str());
        out.append("\n\n");
        write_message_content(&mut out, pool, package.messages[i]);
        out.append("---\n\n");
        proof {
            assert(package.messages@.take(i + 1).drop_last() =~= package.messages@.take(i as int));
            assert(package.messages@.take(i + 1).last() == package.messages@[i as int]);
            assert(out@ =~= head2 + spec_msg_sections(*pool, package.messages@.take(i + 1)));
        }
        i += 1;
    }
    let ghost head3 = head2 + spec_msg_sections(*pool, package.messages@);
    proof {
        assert(package.messages@.take(nm as int) =~= package.messages@);
        assert(out@ =~= head3);
    }
    let ne: usize = package.enums.len();
    let mut i: usize = 0;
    while i < ne
        invariant
            0 <= i <= ne,
            ne == package.enums@.len(),
            head3 == "# Namespace: `"@ + package.name@ + "`\n\n"@ + spec_svc_sections(
                *pool,
                package.services@,
            ) + spec_msg_sections(*pool, package.messages@),
            out@ == head3 + spec_enum_sections(package.enums@.take(i as int)),
        decreases ne - i,
    {
        write_anchor(&mut out, package.enums[i].name.as_str());
        out.append("## ");
        out.append(package.enums[i].name.as_str());
        out.append("\n\n");
        write_enum_content(&mut out, package.enums[i]);
        out.append("---\n\n");
        proof {
            assert(package.enums@.take(i + 1).drop_last() =~= package.enums@.take(i as int));
            assert(package.enums@.take(i + 1).last() == package.enums@[i as int]);
            assert(out@ =~= head3 + spec_enum_sections(package.enums@.take(i + 1)));
        }
        i += 1;
    }
    proof {
        assert(package.enums@.take(ne as int) =~= package.enums@);
        assert(out@ =~= spec_package_file(*pool, *package));
    }
    out
}

/// One namespace line of the index.
pub open spec fn spec_index_line(name: Seq<char>) -> Seq<char> {
    "- ["@ + name + "]("@ + name + ".md)\n"@
}

pub open spec fn spec_index_lines(names: Seq<Seq<char>>) -> Seq<char>
    decreases names.len(),
{
    if names.len() == 0 {
        Seq::<char>::empty()
    } else {
        spec_index_lines(names.drop_last()) + spec_index_line(names.last())
    }
}

/// The index page: the entry-point service and one line per namespace page,
/// in collection order.
pub open spec fn spec_index(entry: ServiceDecl, names: Seq<Seq<char>>) -> Seq<char> {
    "# Documentation: `"@ + entry.name@ + "`\n\n## Entry Point\n\n- [**Service: "@ + entry.name@
        + "**]("@ + spec_link(entry.package@, entry.name@) + ")\n\n## Namespaces\n\n"@ + (if names.len()
        == 0 {
        "*None*\n"@
    } else {
        spec_index_lines(names)
    })
}

/// Renders the index page.
pub fn generate_index(entry_service: &ServiceDecl, packages: &Packages<'_>) -> (r: String)
    ensures
        r@ == spec_index(
            *entry_service,
            packages.entries@.map_values(|p: Package<'_>| p.name@),
        ),
{
    let mut out = String::from_str("# Documentation: `");
    out.append(entry_service.name.as_str());
    out.append("`\n\n## Entry Point\n\n- [**Service: ");
    out.append(entry_service.name.as_str());
    out.append("**](");
    let link = resolve_link(entry_service.package.as_str(), entry_service.name.as_str());
    out.append(link.as_str());
    out.append(")\n\n## Namespaces\n\n");
    let ghost head = "# Documentation: `"@ + entry_service.name@
        + "`\n\n## Entry Point\n\n- [**Service: "@ + entry_service.name@ + "**]("@ + spec_link(
        entry_service.package@,
        entry_service.name@,
    ) + ")\n\n## Namespaces\n\n"@;
    proof {
        assert(out@ =~= head);
    }
    let ghost names = packages.entries@.map_values(|p: Package<'_>| p.name@);
    let n: usize = packages.entries.len();
    if n == 0 {
        out.append("*None*\n");
        proof {
            assert(out@ =~= spec_index(*entry_service, names));
        }
        return out;
    }
    let mut i: usize = 0;
    while i < n
        invariant
            0 <= i <= n,
            n == packages.entries@.len(),
            names == packages.entries@.map_values(|p: Package<'_>| p.name@),
            out@ == head + spec_index_lines(names.take(i as int)),
        decreases n - i,
    {
        out.append("- [");
        out.append(packages.entries[i].name.as_str());
        out.append("](");
        out.append(packages.entries[i].name.as_str());
        out.append(".md)\n");
        proof {
            assert(names.take(i + 1).drop_last() =~= names.take(i as int));
            assert(names.take(i + 1).last() == names[i as int]);
            assert(names[i as int] == packages.entries@[i as int].name@);
            assert(out@ =~= head + spec_index_lines(names.take(i + 1)));
        }
        i += 1;
    }
    proof {
        assert(names.take(n as int) =~= names);
        assert(out@ =~= spec_index(*entry_service, names));
    }
    out
}

/// Documentation generation state: the output directory the caller writes
/// files into, and the type names already rendered.
#[derive(Debug)]
pub struct DocsGenerator {
    pub output_dir: String,
    pub visited: Vec<String>,
}

impl DocsGenerator {
    /// A generator that will place its pages under `output_dir`.
    pub fn new(output_dir: String) -> (r: DocsGenerator)
        ensures
            r.output_dir == output_dir,
            r.visited@.len() == 0,
    {
        DocsGenerator { output_dir, visited: Vec::new() }
    }

    /// Renders every page for the service named `service_fqn`: each package
    /// page under `<package>.md`, then the index under `index.md`, as pairs
    /// of filename and content in that order. `None` when the pool has no
    /// such service.
    pub fn generate(&mut self, pool: &DescriptorPool, service_fqn: &str) -> (r: Option<
        Vec<(String, String)>,
    >)
        requires
            pool.wf(),
            pool.closed(),
        ensures
            r is None <==> !crate::descriptor::has_service(pool.services@, service_fqn@),
    {
        let service = match pool.get_service_by_name(service_fqn) {
            Some(s) => s,
            None => {
                return None;
            },
        };
        let packages = packages_from_service(pool, service);
        let mut out: Vec<(String, String)> = Vec::new();
        let n: usize = packages.entries.len();
        let mut i: usize = 0;
        while i < n
            invariant
                pool.wf(),
                pool.closed(),
                0 <= i <= n,
                n == packages.entries@.len(),
                forall|k: int|
                    0 <= k < packages.entries@.len() ==> package_from_pool(
                        *pool,
                        #[trigger] packages.entries@[k],
                    ),
            decreases n - i,
        {
            let entry = &packages.entries[i];
            let mut filename = entry.name.clone();
            filename.append(".md");
            let content = generate_package_file(pool, entry);
            out.push((filename, content));
            self.visited.push(entry.name.clone());
            i += 1;
        }
        let index = generate_index(service, &packages);
        out.push((String::from_str("index.md"), index));
        Some(out)
    }
}

/// Distinct names that all occur among distinct message names are bounded by
/// the message count.
proof fn lemma_visited_bound(visited: Seq<String>, msgs: Seq<MessageDecl>)
    requires
        forall|a: int, b: int| 0 <= a < b < visited.len() ==> visited[a]@ != visited[b]@,
        forall|a: int| 0 <= a < visited.len() ==> has_message(msgs, (#[trigger] visited[a])@),
        forall|i: int, j: int| 0 <= i < j < msgs.len() ==> msgs[i].fqn@ != msgs[j].fqn@,
    ensures
        visited.len() <= msgs.len(),
{
    broadcast use vstd::seq_lib::seq_to_set_is_finite;

    let rv = visited.map_values(|s: String| s@);
    let fv = msgs.map_values(|m: MessageDecl| m.fqn@);
    assert(rv.no_duplicates()) by {
        assert(forall|i: int| 0 <= i < rv.len() ==> rv[i] == (#[trigger] visited[i])@);
    }
    assert(fv.no_duplicates()) by {
        assert(forall|i: int| 0 <= i < fv.len() ==> fv[i] == (#[trigger] msgs[i]).fqn@);
    }
    rv.unique_seq_to_set();
    fv.unique_seq_to_set();
    assert(rv.to_set().subset_of(fv.to_set())) by {
        assert forall|x: Seq<char>| rv.to_set().contains(x) implies fv.to_set().contains(x) by {
            let i = choose|i: int| 0 <= i < rv.len() && rv[i] == x;
            assert(visited[i]@ == x);
            assert(has_message(msgs, x));
            let k = choose|k: int| 0 <= k < msgs.len() && msgs[k].fqn@ == x;
            assert(fv[k] == x);
            assert(fv.contains(x));
        }
    }
    vstd::set_lib::lemma_len_subset(rv.to_set(), fv.to_set());
}

/// Collects a message and every message and enum it transitively references:
/// the root first, then each dependency once, closed under field references.
pub fn collect_message_dependencies<'a>(pool: &'a DescriptorPool, root: &'a MessageDecl) -> (r: (
    Vec<&'a MessageDecl>,
    Vec<&'a EnumDecl>,
))
    requires
        pool.wf(),
        pool.closed(),
        msg_from_pool(*pool, *root),
    ensures
        r.0@.len() >= 1,
        *r.0@[0] == *root,
        forall|i: int, j: int|
            0 <= i < j < r.0@.len() ==> (#[trigger] r.0@[i]).fqn@ != (#[trigger] r.0@[j]).fqn@,
        forall|i: int, j: int|
            0 <= i < j < r.1@.len() ==> (#[trigger] r.1@[i]).fqn@ != (#[trigger] r.1@[j]).fqn@,
        forall|i: int| 0 <= i < r.0@.len() ==> msg_from_pool(*pool, *(#[trigger] r.0@[i])),
        forall|i: int| 0 <= i < r.1@.len() ==> enum_from_pool(*pool, *(#[trigger] r.1@[i])),
        deps_closed(r.0@, r.1@),
{
    let mut msgs: Vec<&'a MessageDecl> = Vec::new();
    let mut enums: Vec<&'a EnumDecl> = Vec::new();
    let mut queue: Vec<String> = Vec::new();
    queue.push(root.fqn.clone());
    let mut visited: Vec<String> = queue_names(&queue);
    proof {
        assert(queue@[0]@ == root.fqn@);
        assert(visited@[0]@ == root.fqn@);
        assert(has_message(pool.messages@, root.fqn@)) by {
            let k = choose|k: int| 0 <= k < pool.messages@.len() && *root == pool.messages@[k];
            assert(pool.messages@[k].fqn@ == root.fqn@);
        }
        lemma_visited_bound(visited@, pool.messages@);
    }
    while queue.len() > 0
        invariant
            pool.wf(),
            pool.closed(),
            msg_from_pool(*pool, *root),
            forall|a: int, b: int| 0 <= a < b < visited@.len() ==> visited@[a]@ != visited@[b]@,
            forall|a: int|
                0 <= a < visited@.len() ==> has_message(pool.messages@, (#[trigger] visited@[a])@),
            forall|a: int|
                0 <= a < queue@.len() ==> name_in_spec(visited@, (#[trigger] queue@[a])@),
            forall|a: int|
                0 <= a < queue@.len() ==> has_message(pool.messages@, (#[trigger] queue@[a])@),
            forall|a: int|
                0 <= a < visited@.len() ==> msg_fqn_in(msgs@, (#[trigger] visited@[a])@)
                    || name_in_spec(queue@, visited@[a]@),
            msgs@.len() > 0 ==> *msgs@[0] == *root,
            msgs@.len() == 0 ==> queue@.len() == 1 && queue@[0]@ == root.fqn@,
            forall|a: int, b: int|
                0 <= a < b < msgs@.len() ==> (#[trigger] msgs@[a]).fqn@ != (#[trigger] msgs@[
                    b
                ]).fqn@,
            forall|a: int| 0 <= a < msgs@.len() ==> msg_from_pool(*pool, *(#[trigger] msgs@[a])),
            forall|a: int|
                0 <= a < msgs@.len() ==> name_in_spec(visited@, (#[trigger] msgs@[a]).fqn@),
            forall|a: int, fj: int|
                0 <= a < msgs@.len() && 0 <= fj < msgs@[a].fields@.len() ==> match (
                #[trigger] msgs@[a].fields@[fj]).kind {
                    FieldKind::Message(t) => name_in_spec(visited@, t@),
                    FieldKind::Enum(t) => enum_fqn_in(enums@, t@),
                    _ => true,
                },
            forall|a: int, b: int|
                0 <= a < b < enums@.len() ==> (#[trigger] enums@[a]).fqn@ != (#[trigger] enums@[
                    b
                ]).fqn@,
            forall|a: int|
                0 <= a < enums@.len() ==> enum_from_pool(*pool, *(#[trigger] enums@[a])),
            visited@.len() <= pool.messages@.len(),
        decreases pool.messages@.len() - visited@.len() + queue@.len(),
    {
        let ghost q_pre = queue@;
        let fqn = queue.remove(0);
        let m: &'a MessageDecl = match pool.get_message_by_name(fqn.as_str()) {
            Some(m) => m,
            None => {
                proof {
                    assert(false);
                }
                return (msgs, enums);
            },
        };
        if contains_msg_fqn(&msgs, fqn.as_str()) {
            proof {
                lemma_visited_bound(visited@, pool.messages@);
                assert(msgs@.len() > 0);
                assert forall|a: int| 0 <= a < visited@.len() implies msg_fqn_in(
                    msgs@,
                    (#[trigger] visited@[a])@,
                ) || name_in_spec(queue@, visited@[a]@) by {
                    if !msg_fqn_in(msgs@, visited@[a]@) {
                        let p = choose|p: int|
                            0 <= p < q_pre.len() && q_pre[p]@ == visited@[a]@;
                        if p == 0 {
                            assert(visited@[a]@ == fqn@);
                        } else {
                            assert(queue@[p - 1]@ == visited@[a]@);
                        }
                    }
                }
            }
            continue ;
        }
        proof {
            assert(name_in_spec(visited@, fqn@)) by {
                assert(q_pre[0]@ == fqn@);
            }
            assert forall|a: int| 0 <= a < visited@.len() implies msg_fqn_in(
                msgs@,
                (#[trigger] visited@[a])@,
            ) || name_in_spec(queue@, visited@[a]@) || visited@[a]@ == m.fqn@ by {
                if !msg_fqn_in(msgs@, visited@[a]@) {
                    let p = choose|p: int| 0 <= p < q_pre.len() && q_pre[p]@ == visited@[a]@;
                    if p == 0 {
                        assert(visited@[a]@ == fqn@);
                    } else {
                        assert(queue@[p - 1]@ == visited@[a]@);
                    }
                }
            }
            if msgs@.len() == 0 {
                // The first dequeued name is the root's, and names are unique
                // in the pool, so the first collected message is the root.
                assert(fqn@ == root.fqn@);
                let k1 = choose|k1: int|
                    0 <= k1 < pool.messages@.len() && *root == pool.messages@[k1];
                let k2 = choose|k2: int|
                    0 <= k2 < pool.messages@.len() && *m == pool.messages@[k2] && m.fqn@ == fqn@;
                if k1 != k2 {
                    assert(pool.messages@[k1].fqn@ == pool.messages@[k2].fqn@);
                }
                assert(*m == *root);
            }
        }
        let ghost q0: int = queue@.len() as int;
        let ghost v0: int = visited@.len() as int;
        let nf: usize = m.fields.len();
        let mut j: usize = 0;
        while j < nf
            invariant
                pool.wf(),
                pool.closed(),
                0 <= j <= nf,
                nf == m.fields@.len(),
                m.fqn@ == fqn@,
                !msg_fqn_in(msgs@, m.fqn@),
                msgs@.len() > 0 ==> *msgs@[0] == *root,
                msgs@.len() == 0 ==> *m == *root,
                name_in_spec(visited@, m.fqn@),
                forall|a: int|
                    0 <= a < visited@.len() ==> msg_fqn_in(msgs@, (#[trigger] visited@[a])@)
                        || name_in_spec(queue@, visited@[a]@) || visited@[a]@ == m.fqn@,
                exists|k: int| 0 <= k < pool.messages@.len() && *m == pool.messages@[k],
                forall|a: int, b: int| 0 <= a < b < visited@.len() ==> visited@[a]@ != visited@[b]@,
                forall|a: int|
                    0 <= a < visited@.len() ==> has_message(
                        pool.messages@,
                        (#[trigger] visited@[a])@,
                    ),
                forall|a: int|
                    0 <= a < queue@.len() ==> name_in_spec(visited@, (#[trigger] queue@[a])@),
                forall|a: int|
                    0 <= a < queue@.len() ==> has_message(pool.messages@, (#[trigger] queue@[a])@),
                forall|a: int, b: int|
                    0 <= a < b < msgs@.len() ==> (#[trigger] msgs@[a]).fqn@ != (#[trigger] msgs@[
                        b
                    ]).fqn@,
                forall|a: int|
                    0 <= a < msgs@.len() ==> msg_from_pool(*pool, *(#[trigger] msgs@[a])),
                forall|a: int|
                    0 <= a < msgs@.len() ==> name_in_spec(visited@, (#[trigger] msgs@[a]).fqn@),
                forall|a: int, fj: int|
                    0 <= a < msgs@.len() && 0 <= fj < msgs@[a].fields@.len() ==> match (
                    #[trigger] msgs@[a].fields@[fj]).kind {
                        FieldKind::Message(t) => name_in_spec(visited@, t@),
                        FieldKind::Enum(t) => enum_fqn_in(enums@, t@),
                        _ => true,
                    },
                forall|fj: int|
                    0 <= fj < j ==> match (#[trigger] m.fields@[fj]).kind {
                        FieldKind::Message(t) => name_in_spec(visited@, t@),
                        FieldKind::Enum(t) => enum_fqn_in(enums@, t@),
                        _ => true,
                    },
                forall|a: int, b: int|
                    0 <= a < b < enums@.len() ==> (#[trigger] enums@[a]).fqn@ != (
                    #[trigger] enums@[b]).fqn@,
                forall|a: int|
                    0 <= a < enums@.len() ==> enum_from_pool(*pool, *(#[trigger] enums@[a])),
                visited@.len() <= pool.messages@.len(),
                queue@.len() - visited@.len() == q0 - v0,
            decreases nf - j,
        {
            proof {
                let k = choose|k: int|
                    0 <= k < pool.messages@.len() && *m == pool.messages@[k];
                assert(crate::descriptor::message_refs_ok(
                    pool.messages@[k],
                    pool.messages@,
                    pool.enums@,
                ));
                assert(crate::descriptor::field_ref_ok(
                    m.fields@[j as int],
                    pool.messages@,
                    pool.enums@,
                ));
            }
            match &m.fields[j].kind {
                FieldKind::Message(t) => {
                    if !name_in(&visited, t.as_str()) {
                        let ghost prev_visited = visited@;
                        let ghost prev_queue = queue@;
                        visited.push(t.clone());
                        queue.push(t.clone());
                        proof {
                            assert(name_in_spec(visited@, t@)) by {
                                assert(visited@[prev_visited.len() as int]@ == t@);
                            }
                            assert forall|a: int| 0 <= a < queue@.len() implies name_in_spec(
                                visited@,
                                (#[trigger] queue@[a])@,
                            ) by {
                                if a < prev_queue.len() {
                                    assert(queue@[a] == prev_queue[a]);
                                    lemma_name_in_push(
                                        prev_visited,
                                        visited@.last(),
                                        prev_queue[a]@,
                                    );
                                } else {
                                    assert(visited@[prev_visited.len() as int]@ == queue@[a]@);
                                }
                            }
                            assert forall|a: int| 0 <= a < msgs@.len() implies name_in_spec(
                                visited@,
                                (#[trigger] msgs@[a]).fqn@,
                            ) by {
                                lemma_name_in_push(prev_visited, visited@.last(), msgs@[a].fqn@);
                            }
                            assert forall|x: Seq<char>|
                                name_in_spec(prev_visited, x) implies name_in_spec(
                                visited@,
                                x,
                            ) by {
                                lemma_name_in_push(prev_visited, visited@.last(), x);
                            }
                            assert forall|a: int|
                                0 <= a < visited@.len() implies msg_fqn_in(
                                msgs@,
                                (#[trigger] visited@[a])@,
                            ) || name_in_spec(queue@, visited@[a]@) || visited@[a]@ == m.fqn@ by {
                                if a < prev_visited.len() {
                                    if name_in_spec(prev_queue, visited@[a]@) {
                                        let p = choose|p: int|
                                            0 <= p < prev_queue.len() && prev_queue[p]@
                                                == visited@[a]@;
                                        assert(queue@[p]@ == visited@[a]@);
                                    }
                                } else {
                                    assert(queue@[queue@.len() - 1]@ == visited@[a]@);
                                }
                            }
                            lemma_visited_bound(visited@, pool.messages@);
                        }
                    }
                },
                FieldKind::Enum(t) => {
                    if !contains_enum_fqn(&enums, t.as_str()) {
                        match pool.get_enum_by_name(t.as_str()) {
                            Some(e) => {
                                let ghost prev_enums = enums@;
                                enums.push(e);
                                proof {
                                    assert(forall|a: int|
                                        0 <= a < prev_enums.len() ==> enums@[a] == prev_enums[a]);
                                    assert(enum_from_pool(*pool, *e));
                                    assert(enums@[prev_enums.len() as int] == e);
                                    assert(enum_fqn_in(enums@, t@)) by {
                                        assert(enums@[prev_enums.len() as int].fqn@ == t@);
                                    }
                                    assert forall|x: Seq<char>|
                                        enum_fqn_in(prev_enums, x) implies enum_fqn_in(
                                        enums@,
                                        x,
                                    ) by {
                                        let p = choose|p: int|
                                            0 <= p < prev_enums.len() && prev_enums[p].fqn@ == x;
                                        assert(enums@[p].fqn@ == x);
                                    }
                                }
                            },
                            None => {
                                proof {
                                    assert(false);
                                }
                            },
                        }
                    }
                },
                _ => {},
            }
            j += 1;
        }
        let ghost prev_msgs = msgs@;
        msgs.push(m);
        proof {
            assert(msg_from_pool(*pool, *m));
            assert(forall|a: int| 0 <= a < prev_msgs.len() ==> msgs@[a] == prev_msgs[a]);
            assert(msgs@[prev_msgs.len() as int] == m);
            assert(msg_fqn_in(msgs@, m.fqn@)) by {
                assert(msgs@[prev_msgs.len() as int].fqn@ == m.fqn@);
            }
            assert forall|x: Seq<char>| msg_fqn_in(prev_msgs, x) implies msg_fqn_in(msgs@, x) by {
                let p = choose|p: int| 0 <= p < prev_msgs.len() && prev_msgs[p].fqn@ == x;
                assert(msgs@[p].fqn@ == x);
            }
            assert forall|a: int| 0 <= a < visited@.len() implies msg_fqn_in(
                msgs@,
                (#[trigger] visited@[a])@,
            ) || name_in_spec(queue@, visited@[a]@) by {
                if visited@[a]@ == m.fqn@ {
                    assert(msgs@[prev_msgs.len() as int].fqn@ == visited@[a]@);
                }
            }
            lemma_visited_bound(visited@, pool.messages@);
        }
    }
    proof {
        assert(msgs@.len() > 0);
        // Message-field targets were recorded, and everything recorded came
        // back around and was collected; the loop ends with the set closed.
        assert forall|a: int, fj: int|
            0 <= a < msgs@.len() && 0 <= fj < msgs@[a].fields@.len() implies match (
        #[trigger] msgs@[a].fields@[fj]).kind {
            FieldKind::Message(t) => msg_fqn_in(msgs@, t@),
            FieldKind::Enum(t) => enum_fqn_in(enums@, t@),
            _ => true,
        } by {
            match msgs@[a].fields@[fj].kind {
                FieldKind::Message(t) => {
                    assert(name_in_spec(visited@, t@));
                    let v = choose|v: int| 0 <= v < visited@.len() && visited@[v]@ == t@;
                    assert(!name_in_spec(queue@, visited@[v]@));
                },
                _ => {},
            }
        }
    }
    (msgs, enums)
}

/// One dependency block: a blank line, the rendered definition, a newline.
pub open spec fn spec_msg_blocks(ms: Seq<&MessageDecl>) -> Seq<char>
    decreases ms.len(),
{
    if ms.len() == 0 {
        Seq::<char>::empty()
    } else {
        spec_msg_blocks(ms.drop_last()) + "\n"@ + spec_format_message(*ms.last()) + "\n"@
    }
}

pub open spec fn spec_enum_blocks(es: Seq<&EnumDecl>) -> Seq<char>
    decreases es.len(),
{
    if es.len() == 0 {
        Seq::<char>::empty()
    } else {
        spec_enum_blocks(es.drop_last()) + "\n"@ + spec_format_enum(*es.last()) + "\n"@
    }
}

/// The expanded rendering of a message: its own block first, then one block
/// for each distinct message it transitively references, then one for each
/// referenced enum.
pub open spec fn spec_expanded(ms: Seq<&MessageDecl>, es: Seq<&EnumDecl>) -> Seq<char> {
    spec_format_message(*ms[0]) + "\n"@ + spec_msg_blocks(ms.skip(1)) + spec_enum_blocks(es)
}

/// Renders an expansion collected by [`collect_message_dependencies`]: the
/// root message's definition followed by every dependency's, each once.
pub fn render_expansion(msgs: &Vec<&MessageDecl>, enums: &Vec<&EnumDecl>) -> (r: String)
    requires
        msgs@.len() >= 1,
    ensures
        r@ == spec_expanded(msgs@, enums@),
{
    let mut out = format_message(msgs[0]);
    out.append("\n");
    let ghost head = spec_format_message(*msgs@[0]) + "\n"@;
    let ghost deps = msgs@.skip(1);
    proof {
        assert(out@ =~= head);
        assert(deps.take(0) =~= Seq::<&MessageDecl>::empty());
    }
    let n: usize = msgs.len();
    let mut i: usize = 1;
    while i < n
        invariant
            1 <= i <= n,
            n == msgs@.len(),
            head == spec_format_message(*msgs@[0]) + "\n"@,
            deps == msgs@.skip(1),
            out@ == head + spec_msg_blocks(deps.take(i - 1)),
        decreases n - i,
    {
        out.append("\n");
        let block = format_message(msgs[i]);
        out.append(block.as_str());
        out.append("\n");
        proof {
            assert(deps.take(i as int).drop_last() =~= deps.take(i - 1));
            assert(deps.take(i as int).last() == deps[i - 1]);
            assert(deps[i - 1] == msgs@[i as int]);
            assert(out@ =~= head + spec_msg_blocks(deps.take(i as int)));
        }
        i += 1;
    }
    let ghost head2 = head + spec_msg_blocks(deps);
    proof {
        assert(deps.take(n - 1) =~= deps);
        assert(out@ =~= head2);
        assert(enums@.take(0) =~= Seq::<&EnumDecl>::empty());
    }
    let ne: usize = enums.len();
    let mut i: usize = 0;
    while i < ne
        invariant
            0 <= i <= ne,
            ne == enums@.len(),
            head2 == spec_format_message(*msgs@[0]) + "\n"@ + spec_msg_blocks(msgs@.skip(1)),
            out@ == head2 + spec_enum_blocks(enums@.take(i as int)),
        decreases ne - i,
    {
        out.append("\n");
        let block = format_enum(enums[i]);
        out.append(block.as_str());
        out.append("\n");
        proof {
            assert(enums@.take(i + 1).drop_last() =~= enums@.take(i as int));
            assert(enums@.take(i + 1).last() == enums@[i as int]);
            assert(out@ =~= head2 + spec_enum_blocks(enums@.take(i + 1)));
        }
        i += 1;
    }
    proof {
        assert(enums@.take(ne as int) =~= enums@);
        assert(out@ =~= spec_expanded(msgs@, enums@));
    }
    out
}

} // verus!
