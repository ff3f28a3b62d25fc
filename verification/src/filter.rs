//! Filtering a scan.
//!
//! Every filter is a conjunction applied in a single pass over the scan
//! result: with several filters set, an entry is kept only when it satisfies
//! all of them.

use vstd::prelude::*;

use crate::kill::{port_list, port_list_text};
use crate::scan::{entry_views, owner_label, protocol_name, PortEntry, PortEntryView, Protocol};
use crate::text::{contains_str, has_substring, join, join_strings, owned, push_str, to_lowercase, unicode_lowercase, views};

verus! {

#[derive(Debug, Clone)]
pub struct Filters {
    /// Keep only these ports. Empty means "any port".
    pub ports: Vec<u16>,
    /// Case-insensitive substring matched against process name, executable
    /// path and full command line.
    pub text: Option<String>,
    /// Keep only this protocol. `None` means "any protocol".
    pub proto: Option<Protocol>,
}

impl Default for Filters {
    fn default() -> (r: Self)
        ensures
            r.ports@.len() == 0,
            r.text.is_none(),
            r.proto.is_none(),
    {
        Filters { ports: Vec::new(), text: None, proto: None }
    }
}

/// `value` contains `needle`, both lower-cased.
pub open spec fn hit(value: Seq<char>, needle: Seq<char>) -> bool {
    has_substring(unicode_lowercase(value), unicode_lowercase(needle))
}

/// The text filter matches the owner label, the executable path or the
/// command line of the entry, ignoring case.
pub open spec fn text_matches(needle: Seq<char>, e: PortEntryView) -> bool {
    ||| hit(owner_label(e), needle)
    ||| (e.process matches Some(p) && (p.exe matches Some(x) && hit(x, needle)))
    ||| (e.process matches Some(p) && (p.command matches Some(c) && hit(c, needle)))
}

/// `e` is on one of the ports `f` asks for, or `f` asks for no port.
pub open spec fn port_ok(f: Filters, e: PortEntryView) -> bool {
    f.ports@.len() == 0 || f.ports@.contains(e.port)
}

/// `e` uses the protocol `f` asks for, or `f` asks for none.
pub open spec fn proto_ok(f: Filters, e: PortEntryView) -> bool {
    match f.proto {
        Some(p) => e.protocol == p,
        None => true,
    }
}

/// `e` matches the text `f` asks for, or `f` asks for none.
pub open spec fn text_ok(f: Filters, e: PortEntryView) -> bool {
    match f.text {
        Some(t) => text_matches(t@, e),
        None => true,
    }
}

/// `e` satisfies every active filter of `f`.
pub open spec fn passes(f: Filters, e: PortEntryView) -> bool {
    &&& port_ok(f, e)
    &&& proto_ok(f, e)
    &&& text_ok(f, e)
}

pub open spec fn no_filters(f: Filters) -> bool {
    f.ports@.len() == 0 && f.text.is_none() && f.proto.is_none()
}

/// The parts of a filter description, in order.
pub open spec fn description_parts(f: Filters) -> Seq<Seq<char>> {
    let a: Seq<Seq<char>> = if f.ports@.len() > 0 {
        seq!["port "@ + port_list(f.ports@)]
    } else {
        Seq::empty()
    };
    let b = match f.proto {
        Some(p) => a.push(protocol_name(p)),
        None => a,
    };
    match f.text {
        Some(t) => b.push("matching \""@ + t@ + "\""@),
        None => b,
    }
}

pub open spec fn description(f: Filters) -> Seq<char> {
    let parts = description_parts(f);
    if parts.len() == 0 {
        "ports in use"@
    } else {
        "ports in use ("@ + join(parts, ", "@) + ")"@
    }
}

fn lower_contains(value: &str, needle_lower: &String) -> (r: bool)
    ensures
        r == has_substring(unicode_lowercase(value@), needle_lower@),
{
    let v = to_lowercase(value);
    contains_str(v.as_str(), needle_lower.as_str())
}

impl Filters {
    pub fn is_empty(&self) -> (r: bool)
        ensures
            r == no_filters(*self),
    {
        self.ports.len() == 0 && self.text.is_none() && self.proto.is_none()
    }

    /// True when `entry` satisfies all active filters.
    pub fn matches(&self, entry: &PortEntry) -> (r: bool)
        ensures
            r == passes(*self, entry@),
    {
        if self.ports.len() != 0 {
            let mut found = false;
            let mut i: usize = 0;
            while i < self.ports.len()
                invariant
                    i <= self.ports@.len(),
                    found == exists|k: int| 0 <= k < i && self.ports@[k] == entry.port,
                decreases self.ports.len() - i,
            {
                if self.ports[i] == entry.port {
                    found = true;
                }
                i = i + 1;
            }
            if !found {
                return false;
            }
        }
        match self.proto {
            Some(p) => {
                if entry.protocol != p {
                    return false;
                }
            },
            None => {},
        }
        match &self.text {
            Some(t) => {
                let needle = to_lowercase(t.as_str());
                if lower_contains(entry.process_name(), &needle) {
                    return true;
                }
                match &entry.process {
                    Some(p) => {
                        match &p.exe {
                            Some(x) => {
                                if lower_contains(x.as_str(), &needle) {
                                    return true;
                                }
                            },
                            None => {},
                        }
                        match &p.command {
                            Some(c) => {
                                if lower_contains(c.as_str(), &needle) {
                                    return true;
                                }
                            },
                            None => {},
                        }
                    },
                    None => {},
                }
                false
            },
            None => true,
        }
    }

    /// The entries that satisfy all active filters, in their original order.
    pub fn apply(&self, entries: Vec<PortEntry>) -> (r: Vec<PortEntry>)
        ensures
            entry_views(r@) == entry_views(entries@).filter(|e: PortEntryView| passes(*self, e)),
    {
        let ghost all = entry_views(entries@);
        let ghost pred = |e: PortEntryView| passes(*self, e);
        if self.is_empty() {
            proof {
                lemma_filter_all(all, pred);
            }
            return entries;
        }
        let total = entries.len();
        let mut rest = entries;
        let mut out: Vec<PortEntry> = Vec::new();
        let mut n: usize = 0;
        proof {
            reveal(Seq::filter);
            assert(all.subrange(0, 0).filter(pred) =~= Seq::empty());
            assert(entry_views(out@) =~= Seq::empty());
            assert(entry_views(rest@) =~= all.subrange(0, all.len() as int));
        }
        while rest.len() > 0
            invariant
                n + rest@.len() == all.len(),
                all.len() == total,
                entry_views(rest@) == all.subrange(n as int, all.len() as int),
                entry_views(out@) == all.subrange(0, n as int).filter(pred),
                pred == (|e: PortEntryView| passes(*self, e)),
            decreases rest.len(),
        {
            let ghost before_rest = rest@;
            let e = rest.remove(0);
            proof {
                assert(entry_views(before_rest)[0] == e@);
                assert(rest@ =~= before_rest.subrange(1, before_rest.len() as int));
                assert forall|k: int| 0 <= k < rest@.len() implies entry_views(rest@)[k] == all[n + 1 + k] by {
                    assert(rest@[k] == before_rest[k + 1]);
                    assert(entry_views(before_rest)[k + 1] == all.subrange(n as int, all.len() as int)[k + 1]);
                }
                assert(entry_views(rest@) =~= all.subrange(n + 1, all.len() as int));
                assert(all[n as int] == e@);
                let pre = all.subrange(0, n as int);
                let pre2 = all.subrange(0, n + 1);
                assert(pre2.drop_last() =~= pre);
                reveal(Seq::filter);
            }
            let ghost before_out = out@;
            if self.matches(&e) {
                out.push(e);
                assert(entry_views(out@) =~= entry_views(before_out).push(before_rest[0]@));
            }
            n = n + 1;
        }
        assert(all.subrange(0, all.len() as int) =~= all);
        out
    }

    /// Description of what was searched for, used in "nothing found"
    /// messages.
    pub fn describe(&self) -> (r: String)
        ensures
            r@ == description(*self),
    {
        let mut parts: Vec<String> = Vec::new();
        if self.ports.len() > 0 {
            let mut s = owned("port ");
            let listed = port_list_text(self.ports.as_slice());
            push_str(&mut s, listed.as_str());
            parts.push(s);
        }
        let ghost a = views(parts@);
        match self.proto {
            Some(p) => {
                parts.push(owned(p.as_str()));
            },
            None => {},
        }
        let ghost b = views(parts@);
        match &self.text {
            Some(t) => {
                let mut s = owned("matching \"");
                push_str(&mut s, t.as_str());
                push_str(&mut s, "\"");
                parts.push(s);
            },
            None => {},
        }
        proof {
            let want_a: Seq<Seq<char>> = if self.ports@.len() > 0 {
                seq!["port "@ + port_list(self.ports@)]
            } else {
                Seq::empty()
            };
            assert(a =~= want_a);
            let want_b = match self.proto {
                Some(p) => want_a.push(protocol_name(p)),
                None => want_a,
            };
            assert(b =~= want_b);
            assert(views(parts@) =~= description_parts(*self));
        }
        if parts.len() == 0 {
            owned("ports in use")
        } else {
            let mut s = owned("ports in use (");
            let joined = join_strings(&parts, ", ");
            push_str(&mut s, joined.as_str());
            push_str(&mut s, ")");
            s
        }
    }
}

proof fn lemma_filter_all(s: Seq<PortEntryView>, pred: spec_fn(PortEntryView) -> bool)
    requires
        forall|i: int| 0 <= i < s.len() ==> pred(#[trigger] s[i]),
    ensures
        s.filter(pred) == s,
    decreases s.len(),
{
    reveal(Seq::filter);
    if s.len() > 0 {
        let d = s.drop_last();
        assert forall|i: int| 0 <= i < d.len() implies pred(#[trigger] d[i]) by {
            assert(d[i] == s[i]);
        }
        lemma_filter_all(d, pred);
        assert(pred(s[s.len() - 1]));
        assert(d.push(s.last()) =~= s);
    }
}

/// With no filter set, the filters keep every entry, in order.
pub proof fn law_no_filters_keep_everything(f: Filters, entries: Seq<PortEntryView>)
    requires
        no_filters(f),
    ensures
        entries.filter(|e: PortEntryView| passes(f, e)) == entries,
{
    lemma_filter_all(entries, |e: PortEntryView| passes(f, e));
}

proof fn lemma_filter_twice(
    s: Seq<PortEntryView>,
    p: spec_fn(PortEntryView) -> bool,
    q: spec_fn(PortEntryView) -> bool,
)
    ensures
        s.filter(p).filter(q) == s.filter(|e: PortEntryView| p(e) && q(e)),
    decreases s.len(),
{
    reveal(Seq::filter);
    if s.len() > 0 {
        let d = s.drop_last();
        lemma_filter_twice(d, p, q);
        let fp = d.filter(p);
        if p(s.last()) {
            assert(fp.push(s.last()).drop_last() =~= fp);
            assert(fp.push(s.last()).last() == s.last());
        }
    }
}

/// Filters compose instead of overriding one another: keeping the entries
/// on the requested ports, then those on the requested protocol, then those
/// matching the requested text, keeps exactly the entries that the filters
/// keep together, in the same order.
pub proof fn law_filters_compose(f: Filters, entries: Seq<PortEntryView>)
    ensures
        entries.filter(|e: PortEntryView| port_ok(f, e)).filter(|e: PortEntryView| proto_ok(f, e)).filter(
            |e: PortEntryView| text_ok(f, e),
        ) == entries.filter(|e: PortEntryView| passes(f, e)),
{
    let a = |e: PortEntryView| port_ok(f, e);
    let b = |e: PortEntryView| proto_ok(f, e);
    let c = |e: PortEntryView| text_ok(f, e);
    let ab = |e: PortEntryView| a(e) && b(e);
    let abc = |e: PortEntryView| ab(e) && c(e);
    lemma_filter_twice(entries, a, b);
    lemma_filter_twice(entries, ab, c);
    assert(abc =~= (|e: PortEntryView| passes(f, e)));
}

/// The port filter (`k == 0`), the protocol filter (`k == 1`) or the text
/// filter (`k == 2`) of `f`, on its own.
pub open spec fn single_filter(f: Filters, k: int, e: PortEntryView) -> bool {
    if k == 0 {
        port_ok(f, e)
    } else if k == 1 {
        proto_ok(f, e)
    } else {
        text_ok(f, e)
    }
}

/// The three filters may be applied one after another in any order: each
/// order keeps exactly the entries the filters keep together, in the same
/// order.
pub proof fn law_filter_order_does_not_matter(f: Filters, entries: Seq<PortEntryView>, i: int, j: int, k: int)
    requires
        0 <= i < 3 && 0 <= j < 3 && 0 <= k < 3,
        i != j && j != k && i != k,
    ensures
        entries.filter(|e: PortEntryView| single_filter(f, i, e)).filter(
            |e: PortEntryView| single_filter(f, j, e),
        ).filter(|e: PortEntryView| single_filter(f, k, e)) == entries.filter(
            |e: PortEntryView| passes(f, e),
        ),
{
    let a = |e: PortEntryView| single_filter(f, i, e);
    let b = |e: PortEntryView| single_filter(f, j, e);
    let c = |e: PortEntryView| single_filter(f, k, e);
    let ab = |e: PortEntryView| a(e) && b(e);
    let abc = |e: PortEntryView| ab(e) && c(e);
    lemma_filter_twice(entries, a, b);
    lemma_filter_twice(entries, ab, c);
    assert(abc =~= (|e: PortEntryView| passes(f, e)));
}

} // verus!
