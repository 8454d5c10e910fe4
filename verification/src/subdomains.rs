//! Name-directory flattening.
//!
//! The subdomain directory answers with a root domain and its subdomain
//! nodes, any of which may lack a name or a resolved address.  The logic
//! here flattens that answer into one list of resolved entries — the root
//! first when it resolves, then every named subdomain — and can narrow a
//! list to the entries that actually carry an address.  Entries whose
//! name is absent are dropped; an unresolved name is simply absent from
//! any owned-address set built from the result.

use vstd::prelude::*;

verus! {

/// A resolved subdomain with its address, if any.
#[derive(Clone, Debug)]
pub struct ResolvedSubdomain {
    /// Full name, e.g. "alice.family.eth".
    pub name: String,
    /// The subdomain label, e.g. "alice"; the name itself when the
    /// directory gave no label.
    pub label: String,
    /// Resolved address, when one is set.
    pub address: Option<String>,
}

/// A raw subdomain node as the directory returns it.
#[derive(Clone, Debug)]
pub struct SubdomainRecord {
    pub name: Option<String>,
    pub label_name: Option<String>,
    pub resolved_address: Option<String>,
}

/// A raw domain node with its subdomains.
#[derive(Clone, Debug)]
pub struct DomainRecord {
    pub name: Option<String>,
    pub label_name: Option<String>,
    pub resolved_address: Option<String>,
    pub subdomains: Vec<SubdomainRecord>,
}

/// The mathematical shape of a resolved entry.
pub struct EntryV {
    pub name: Seq<char>,
    pub label: Seq<char>,
    pub address: Option<Seq<char>>,
}

/// The mathematical shape of a raw node.
pub struct NodeV {
    pub name: Option<Seq<char>>,
    pub label_name: Option<Seq<char>>,
    pub resolved_address: Option<Seq<char>>,
}

impl View for ResolvedSubdomain {
    type V = EntryV;

    open spec fn view(&self) -> EntryV {
        EntryV {
            name: self.name@,
            label: self.label@,
            address: match self.address {
                Some(a) => Some(a@),
                None => None,
            },
        }
    }
}

impl View for SubdomainRecord {
    type V = NodeV;

    open spec fn view(&self) -> NodeV {
        NodeV {
            name: match self.name {
                Some(n) => Some(n@),
                None => None,
            },
            label_name: match self.label_name {
                Some(l) => Some(l@),
                None => None,
            },
            resolved_address: match self.resolved_address {
                Some(a) => Some(a@),
                None => None,
            },
        }
    }
}

impl View for DomainRecord {
    type V = NodeV;

    open spec fn view(&self) -> NodeV {
        NodeV {
            name: match self.name {
                Some(n) => Some(n@),
                None => None,
            },
            label_name: match self.label_name {
                Some(l) => Some(l@),
                None => None,
            },
            resolved_address: match self.resolved_address {
                Some(a) => Some(a@),
                None => None,
            },
        }
    }
}

/// The entries that one raw node contributes: one entry when it has a
/// name, with the name standing in for a missing label.
pub open spec fn node_entries(n: NodeV) -> Seq<EntryV> {
    match n.name {
        Some(name) => seq![
            EntryV {
                name: name,
                label: match n.label_name {
                    Some(l) => l,
                    None => name,
                },
                address: n.resolved_address,
            },
        ],
        None => Seq::<EntryV>::empty(),
    }
}

/// The root node's contribution: one entry only when the root both has a
/// name and resolves to an address.
pub open spec fn root_entries(n: NodeV) -> Seq<EntryV> {
    match (n.name, n.resolved_address) {
        (Some(name), Some(addr)) => seq![
            EntryV {
                name: name,
                label: match n.label_name {
                    Some(l) => l,
                    None => name,
                },
                address: Some(addr),
            },
        ],
        _ => Seq::<EntryV>::empty(),
    }
}

/// The concatenated contributions of a node sequence.
pub open spec fn nodes_entries(ns: Seq<NodeV>) -> Seq<EntryV>
    decreases ns.len(),
{
    if ns.len() == 0 {
        Seq::<EntryV>::empty()
    } else {
        nodes_entries(ns.drop_last()) + node_entries(ns.last())
    }
}

/// Everything one answered domain contributes: the root entry, then its
/// subdomains in order.
pub open spec fn domain_entries(root: NodeV, subs: Seq<NodeV>) -> Seq<EntryV> {
    root_entries(root) + nodes_entries(subs)
}

/// The views of a sequence of entries.
pub open spec fn entry_views(es: Seq<ResolvedSubdomain>) -> Seq<EntryV> {
    es.map_values(|e: ResolvedSubdomain| e@)
}

/// The views of a sequence of raw nodes.
pub open spec fn node_views(ns: Seq<SubdomainRecord>) -> Seq<NodeV> {
    ns.map_values(|n: SubdomainRecord| n@)
}

fn clone_opt_string(o: &Option<String>) -> (r: Option<String>)
    ensures
        match (o, &r) {
            (Some(a), Some(b)) => a@ == b@,
            (None, None) => true,
            _ => false,
        },
{
    match o {
        Some(s) => Some(s.clone()),
        None => None,
    }
}

/// Flatten one answered domain into resolved entries: the root when it
/// has both a name and an address, then every named subdomain, keeping
/// unresolved subdomains with an absent address.
pub fn collect_subdomains(domain: &DomainRecord) -> (r: Vec<ResolvedSubdomain>)
    ensures
        entry_views(r@) == domain_entries(domain@, node_views(domain.subdomains@)),
{
    let mut out: Vec<ResolvedSubdomain> = Vec::new();
    match (&domain.name, &domain.resolved_address) {
        (Some(name), Some(addr)) => {
            let label = match &domain.label_name {
                Some(l) => l.clone(),
                None => name.clone(),
            };
            out.push(
                ResolvedSubdomain {
                    name: name.clone(),
                    label,
                    address: Some(addr.clone()),
                },
            );
        },
        _ => {},
    }
    proof {
        assert(entry_views(out@) =~= root_entries(domain@));
    }
    let n = domain.subdomains.len();
    let mut i: usize = 0;
    while i < n
        invariant
            0 <= i <= n,
            n == domain.subdomains@.len(),
            entry_views(out@) =~= root_entries(domain@) + nodes_entries(
                node_views(domain.subdomains@).take(i as int),
            ),
        decreases n - i,
    {
        let node = &domain.subdomains[i];
        proof {
            let nv = node_views(domain.subdomains@);
            assert(nv.take(i + 1).drop_last() =~= nv.take(i as int));
            assert(nv.take(i + 1).last() == nv[i as int]);
            assert(nv[i as int] == domain.subdomains@[i as int]@);
        }
        match &node.name {
            Some(name) => {
                let label = match &node.label_name {
                    Some(l) => l.clone(),
                    None => name.clone(),
                };
                let address = clone_opt_string(&node.resolved_address);
                let entry = ResolvedSubdomain { name: name.clone(), label, address };
                proof {
                    let nv = node_views(domain.subdomains@);
                    assert(entry@ == node_entries(nv[i as int])[0]);
                }
                let before = Ghost(out@);
                out.push(entry);
                proof {
                    let nv = node_views(domain.subdomains@);
                    assert(entry_views(out@) =~= entry_views(before@) + node_entries(
                        nv[i as int],
                    ));
                    assert(entry_views(out@) =~= root_entries(domain@) + nodes_entries(
                        nv.take(i + 1),
                    ));
                }
            },
            None => {
                proof {
                    assert(entry_views(out@) =~= root_entries(domain@) + nodes_entries(
                        node_views(domain.subdomains@).take(i + 1),
                    ));
                }
            },
        }
        i = i + 1;
    }
    proof {
        assert(node_views(domain.subdomains@).take(n as int) =~= node_views(domain.subdomains@));
    }
    out
}

/// The entries of a list that carry an address, in order.
pub open spec fn with_address_entries(es: Seq<EntryV>) -> Seq<EntryV>
    decreases es.len(),
{
    if es.len() == 0 {
        Seq::<EntryV>::empty()
    } else if es.last().address is Some {
        with_address_entries(es.drop_last()).push(es.last())
    } else {
        with_address_entries(es.drop_last())
    }
}

/// Keep only the entries that resolved to an address.
pub fn with_addresses(subs: &Vec<ResolvedSubdomain>) -> (r: Vec<ResolvedSubdomain>)
    ensures
        entry_views(r@) == with_address_entries(entry_views(subs@)),
{
    let mut out: Vec<ResolvedSubdomain> = Vec::new();
    let n = subs.len();
    let mut i: usize = 0;
    proof {
        assert(entry_views(out@) =~= with_address_entries(entry_views(subs@).take(0)));
    }
    while i < n
        invariant
            0 <= i <= n,
            n == subs@.len(),
            entry_views(out@) =~= with_address_entries(entry_views(subs@).take(i as int)),
        decreases n - i,
    {
        let e = &subs[i];
        proof {
            let ev = entry_views(subs@);
            assert(ev.take(i + 1).drop_last() =~= ev.take(i as int));
            assert(ev.take(i + 1).last() == ev[i as int]);
            assert(ev[i as int] == subs@[i as int]@);
        }
        match &e.address {
            Some(addr) => {
                out.push(
                    ResolvedSubdomain {
                        name: e.name.clone(),
                        label: e.label.clone(),
                        address: Some(addr.clone()),
                    },
                );
                proof {
                    assert(entry_views(out@) =~= with_address_entries(
                        entry_views(subs@).take(i + 1),
                    ));
                }
            },
            None => {
                proof {
                    assert(entry_views(out@) =~= with_address_entries(
                        entry_views(subs@).take(i + 1),
                    ));
                }
            },
        }
        i = i + 1;
    }
    proof {
        assert(entry_views(subs@).take(n as int) =~= entry_views(subs@));
    }
    out
}

} // verus!
