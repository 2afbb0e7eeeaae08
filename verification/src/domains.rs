//! Configuration domains: how a domain written in the configuration maps onto
//! the domain and key that the `defaults` system uses, and how nested tables
//! flatten into domains.
use vstd::prelude::*;
use crate::text::{chars_of, chars_eq, has_prefix, skip_chars, concat, string_of, is_prefix};
use crate::value::{ConfigValue, ValueView, entries_view, lemma_entries_view, lemma_entries_view_take};

pub mod collector;

verus! {

/// `NSGlobalDomain`, the domain shared by all applications.
pub open spec fn global_domain() -> Seq<char> {
    seq!['N', 'S', 'G', 'l', 'o', 'b', 'a', 'l', 'D', 'o', 'm', 'a', 'i', 'n']
}

/// `NSGlobalDomain.`, the prefix of a sub-domain of the global domain.
pub open spec fn global_domain_dot() -> Seq<char> {
    global_domain().push('.')
}

/// `com.apple.`, put in front of every other configured domain.
pub open spec fn apple_prefix() -> Seq<char> {
    seq!['c', 'o', 'm', '.', 'a', 'p', 'p', 'l', 'e', '.']
}

pub fn global_domain_chars() -> (v: Vec<char>)
    ensures
        v@ == global_domain(),
{
    let v = vec!['N', 'S', 'G', 'l', 'o', 'b', 'a', 'l', 'D', 'o', 'm', 'a', 'i', 'n'];
    assert(v@ =~= global_domain());
    v
}

pub fn global_domain_dot_chars() -> (v: Vec<char>)
    ensures
        v@ == global_domain_dot(),
{
    let mut v = global_domain_chars();
    v.push('.');
    v
}

pub fn apple_prefix_chars() -> (v: Vec<char>)
    ensures
        v@ == apple_prefix(),
{
    let v = vec!['c', 'o', 'm', '.', 'a', 'p', 'p', 'l', 'e', '.'];
    assert(v@ =~= apple_prefix());
    v
}

/// The `defaults` domain and key for a configured domain and key:
/// `NSGlobalDomain` stays itself, `NSGlobalDomain.<rest>` keeps the global
/// domain and moves `<rest>.` in front of the key, anything else gets the
/// `com.apple.` prefix.
pub open spec fn effective_domain_and_key(domain: Seq<char>, key: Seq<char>) -> (Seq<char>, Seq<char>) {
    if domain == global_domain() {
        (global_domain(), key)
    } else if is_prefix(global_domain_dot(), domain) {
        let rest = domain.skip(global_domain_dot().len() as int);
        if rest.len() == 0 {
            (global_domain(), key)
        } else {
            (global_domain(), rest.push('.') + key)
        }
    } else {
        (apple_prefix() + domain, key)
    }
}

/// The `defaults` domain of a configured domain, for domain-level checks:
/// anything starting with `NSGlobalDomain` is the global domain.
pub open spec fn effective_domain(domain: Seq<char>) -> Seq<char> {
    if is_prefix(global_domain(), domain) {
        global_domain()
    } else {
        apple_prefix() + domain
    }
}

/// Given the flattened domain (from config) and a key, return the effective domain and key.
///
/// • If the domain is not beginning with "NSGlobalDomain", returns ("com.apple.{domain}", key)
/// • For an entry exactly equal to "NSGlobalDomain", returns ("NSGlobalDomain", key)
/// • For an entry starting with "NSGlobalDomain.", returns ("NSGlobalDomain", "{rest-of-domain}.{key}")
pub fn get_effective_domain_and_key(domain: &str, key: &str) -> (r: (String, String))
    ensures
        (r.0@, r.1@) == effective_domain_and_key(domain@, key@),
{
    let d = chars_of(domain);
    let k = chars_of(key);
    let g = global_domain_chars();
    if chars_eq(&d, &g) {
        return (string_of(&g), string_of(&k));
    }
    let gd = global_domain_dot_chars();
    if has_prefix(&d, &gd) {
        let mut rest = skip_chars(&d, gd.len());
        if rest.len() == 0 {
            (string_of(&g), string_of(&k))
        } else {
            rest.push('.');
            (string_of(&g), string_of(&concat(&rest, &k)))
        }
    } else {
        (string_of(&concat(&apple_prefix_chars(), &d)), string_of(&k))
    }
}

/// Gets the effective domain from a domain string.
pub fn get_effective_domain(domain: &str) -> (r: String)
    ensures
        r@ == effective_domain(domain@),
{
    let d = chars_of(domain);
    let g = global_domain_chars();
    if has_prefix(&d, &g) {
        string_of(&g)
    } else {
        string_of(&concat(&apple_prefix_chars(), &d))
    }
}

/// Helper function to check if domain requires the com.apple prefix.
pub fn needs_prefix(domain: &str) -> (r: bool)
    ensures
        r == !is_prefix(global_domain(), domain@),
{
    let d = chars_of(domain);
    let g = global_domain_chars();
    !has_prefix(&d, &g)
}


/// A domain with its settings, by content.
pub type GroupView = (Seq<char>, Seq<(Seq<char>, ValueView)>);

/// A domain with its settings.
pub type Group = (String, Vec<(String, ConfigValue)>);

pub open spec fn group_view(g: Group) -> GroupView {
    (g.0@, entries_view(g.1@))
}

pub open spec fn groups_view(s: Seq<Group>) -> Seq<GroupView> {
    s.map_values(|g: Group| group_view(g))
}

pub open spec fn opt_view(o: Option<String>) -> Option<Seq<char>> {
    match o {
        Some(s) => Some(s@),
        None => None,
    }
}

/// The domain of a nested table: `<prefix>.<key>`, or the key alone when
/// there is no prefix or it is empty.
pub open spec fn nested_prefix(prefix: Option<Seq<char>>, key: Seq<char>) -> Seq<char> {
    match prefix {
        Some(p) => if p.len() > 0 { p.push('.') + key } else { key },
        None => key,
    }
}

/// The entries of a table that are not themselves tables, in order.
pub open spec fn leaf_entries(entries: Seq<(Seq<char>, ValueView)>) -> Seq<(Seq<char>, ValueView)>
    decreases entries.len(),
{
    if entries.len() == 0 {
        Seq::empty()
    } else {
        let rest = leaf_entries(entries.drop_last());
        if entries.last().1 is Table {
            rest
        } else {
            rest.push(entries.last())
        }
    }
}

/// The domains a table flattens into: first those of its nested tables, in
/// order, then the table's own non-table entries under `prefix` (when there
/// are any).
pub open spec fn flatten_table(prefix: Option<Seq<char>>, entries: Seq<(Seq<char>, ValueView)>) -> Seq<GroupView>
    decreases entries, 1int,
{
    let own = leaf_entries(entries);
    nested_groups(prefix, entries) + if own.len() > 0 {
        seq![(prefix.unwrap_or(Seq::empty()), own)]
    } else {
        Seq::empty()
    }
}

/// The domains of the nested tables among `entries`, in order.
pub open spec fn nested_groups(prefix: Option<Seq<char>>, entries: Seq<(Seq<char>, ValueView)>) -> Seq<GroupView>
    decreases entries, 0int,
{
    if entries.len() == 0 {
        Seq::empty()
    } else {
        let e = entries.last();
        nested_groups(prefix, entries.drop_last()) + match e.1 {
            ValueView::Table(inner, _) => {
                proof {
                    assert(decreases_to!(entries => entries[entries.len() - 1]));
                }
                flatten_table(Some(nested_prefix(prefix, e.0)), inner)
            },
            _ => Seq::empty(),
        }
    }
}

/// `<p>.<key>` or the key alone, as [`nested_prefix`] says.
pub fn join_prefix(prefix: &Option<String>, key: &String) -> (r: String)
    ensures
        r@ == nested_prefix(opt_view(*prefix), key@),
{
    match prefix {
        Some(p) => {
            let mut pc = chars_of(p.as_str());
            if pc.len() > 0 {
                pc.push('.');
                string_of(&concat(&pc, &chars_of(key.as_str())))
            } else {
                key.clone()
            }
        },
        None => key.clone(),
    }
}

/// Recursively flattens a TOML table into a list of (domain, settings) pairs.
/// For example, [menuextra.clock] becomes ("menuextra.clock", { … }).
pub fn flatten_domains(prefix: Option<String>, table: &Vec<(String, ConfigValue)>, dest: &mut Vec<Group>)
    ensures
        groups_view(final(dest)@) == groups_view(old(dest)@) + flatten_table(opt_view(prefix), entries_view(table@)),
    decreases *table,
{
    let ghost pv = opt_view(prefix);
    let ghost ev = entries_view(table@);
    let ghost start = groups_view(dest@);
    proof {
        lemma_entries_view(table@);
    }
    let mut flat: Vec<(String, ConfigValue)> = Vec::new();
    let mut i: usize = 0;
    while i < table.len()
        invariant
            i <= table.len(),
            pv == opt_view(prefix),
            ev == entries_view(table@),
            ev.len() == table@.len(),
            forall|j: int| 0 <= j < table@.len() ==> #[trigger] ev[j] == (table@[j].0@, crate::value::value_view(table@[j].1)),
            entries_view(flat@) == leaf_entries(ev.take(i as int)),
            groups_view(dest@) == start + nested_groups(pv, ev.take(i as int)),
        decreases table.len() - i,
    {
        let ghost prev_dest = groups_view(dest@);
        let ghost prev_flat = flat@;
        assert(ev.take(i + 1).drop_last() =~= ev.take(i as int));
        assert(ev.take(i + 1).last() == ev[i as int]);
        match &table[i].1 {
            ConfigValue::Table(inner, _) => {
                proof {
                    assert(decreases_to!(*table => table@[i as int].1));
                    assert(table@[i as int].1->Table_0 == *inner);
                    assert(decreases_to!(table@[i as int].1 => table@[i as int].1->Table_0));
                }
                let np = join_prefix(&prefix, &table[i].0);
                flatten_domains(Some(np), inner, dest);
                proof {
                    assert(ev[i as int].1 == ValueView::Table(entries_view(inner@), table@[i as int].1->Table_1@));
                    assert(groups_view(dest@) =~= start + nested_groups(pv, ev.take(i + 1)));
                }
            },
            _ => {
                let k = table[i].0.clone();
                let v = table[i].1.duplicate();
                flat.push((k, v));
                proof {
                    assert(flat@.drop_last() =~= prev_flat);
                    assert(!(ev[i as int].1 is Table));
                    assert(nested_groups(pv, ev.take(i + 1)) =~= nested_groups(pv, ev.take(i as int)));
                }
            },
        }
        i = i + 1;
    }
    assert(ev.take(table.len() as int) =~= ev);
    if flat.len() > 0 {
        let name = match prefix {
            Some(p) => p,
            None => String::new(),
        };
        let ghost before = groups_view(dest@);
        dest.push((name, flat));
        proof {
            assert(groups_view(dest@) =~= before.push(group_view((name, flat))));
            crate::value::lemma_entries_view(flat@);
        }
    } else {
        proof {
            crate::value::lemma_entries_view(flat@);
        }
    }
}

/// The domain → settings map that results from inserting the groups in
/// order: a later group replaces an earlier one of the same domain.
pub open spec fn groups_map(s: Seq<GroupView>) -> Map<Seq<char>, Seq<(Seq<char>, ValueView)>>
    decreases s.len(),
{
    if s.len() == 0 {
        Map::empty()
    } else {
        groups_map(s.drop_last()).insert(s.last().0, s.last().1)
    }
}

/// No domain occurs twice.
pub open spec fn unique_domains(s: Seq<GroupView>) -> bool {
    forall|i: int, j: int| 0 <= i < j < s.len() ==> #[trigger] s[i].0 != #[trigger] s[j].0
}

pub proof fn lemma_groups_map_unique(s: Seq<GroupView>)
    requires
        unique_domains(s),
    ensures
        forall|i: int| 0 <= i < s.len() ==> #[trigger] groups_map(s).contains_key(s[i].0) && groups_map(s)[s[i].0] == s[i].1,
        forall|k: Seq<char>| #[trigger] groups_map(s).contains_key(k) ==> exists|i: int| 0 <= i < s.len() && s[i].0 == k,
    decreases s.len(),
{
    if s.len() > 0 {
        let t = s.drop_last();
        assert(unique_domains(t));
        lemma_groups_map_unique(t);
        assert forall|k: Seq<char>| #[trigger] groups_map(s).contains_key(k) implies exists|i: int| 0 <= i < s.len() && s[i].0 == k by {
            if k != s.last().0 {
                assert(groups_map(t).contains_key(k));
                let i = choose|i: int| 0 <= i < t.len() && t[i].0 == k;
                assert(s[i].0 == k);
            } else {
                assert(s[s.len() - 1].0 == k);
            }
        }
        assert forall|i: int| 0 <= i < s.len() implies #[trigger] groups_map(s).contains_key(s[i].0) && groups_map(s)[s[i].0] == s[i].1 by {
            if i < s.len() - 1 {
                assert(t[i] == s[i]);
                assert(s[i].0 != s[s.len() - 1].0);
                assert(groups_map(t).contains_key(t[i].0));
            }
        }
    }
}

/// Inserts a domain's settings into a list of distinct domains, replacing the
/// settings of that domain if it is there already.
pub fn insert_group(out: &mut Vec<Group>, g: Group)
    requires
        unique_domains(groups_view(old(out)@)),
    ensures
        unique_domains(groups_view(final(out)@)),
        groups_map(groups_view(final(out)@)) == groups_map(groups_view(old(out)@)).insert(g.0@, entries_view(g.1@)),
{
    let ghost before = groups_view(out@);
    let mut j: usize = 0;
    while j < out.len()
        invariant
            j <= out.len(),
            before == groups_view(out@),
            before == groups_view(old(out)@),
            unique_domains(before),
            forall|m: int| 0 <= m < j ==> #[trigger] out@[m].0@ != g.0@,
        decreases out.len() - j,
    {
        if out[j].0 == g.0 {
            let ghost gv = group_view(g);
            assert(before[j as int].0 == gv.0);
            out.set(j, g);
            proof {
                let after = groups_view(out@);
                assert(after =~= before.update(j as int, gv));
                assert(unique_domains(after)) by {
                    assert forall|a: int, b: int| 0 <= a < b < after.len() implies #[trigger] after[a].0 != #[trigger] after[b].0 by {
                        if a != j && b != j {
                            assert(after[a] == before[a] && after[b] == before[b]);
                        } else if a == j {
                            assert(after[b] == before[b]);
                        } else {
                            assert(after[a] == before[a]);
                        }
                    }
                }
                lemma_groups_map_unique(before);
                lemma_groups_map_unique(after);
                assert(groups_map(after) =~= groups_map(before).insert(gv.0, gv.1)) by {
                    assert forall|k: Seq<char>| #[trigger] groups_map(after).contains_key(k) == groups_map(before).insert(gv.0, gv.1).contains_key(k) by {
                        if groups_map(after).contains_key(k) {
                            let i = choose|i: int| 0 <= i < after.len() && after[i].0 == k;
                            if i != j { assert(before[i] == after[i]); }
                        }
                        if groups_map(before).contains_key(k) {
                            let i = choose|i: int| 0 <= i < before.len() && before[i].0 == k;
                            if i != j { assert(before[i] == after[i]); } else { assert(after[i].0 == k); }
                        }
                        if k == gv.0 { assert(after[j as int].0 == k); }
                    }
                    assert forall|k: Seq<char>| #[trigger] groups_map(after).contains_key(k) implies groups_map(after)[k] == groups_map(before).insert(gv.0, gv.1)[k] by {
                        let i = choose|i: int| 0 <= i < after.len() && after[i].0 == k;
                        if i != j { assert(before[i] == after[i]); }
                    }
                }
                assert(groups_view(out@) == after);
                assert(before == groups_view(old(out)@));
            }
            return;
        }
        j = j + 1;
    }
    let ghost gv = group_view(g);
    assert(forall|m: int| 0 <= m < before.len() ==> #[trigger] before[m].0 != gv.0) by {
        assert forall|m: int| 0 <= m < before.len() implies #[trigger] before[m].0 != gv.0 by {
            assert(before[m] == group_view(out@[m]));
        }
    }
    out.push(g);
    proof {
        let after = groups_view(out@);
        assert(after =~= before.push(gv));
        assert(after.drop_last() =~= before);
        assert(unique_domains(after)) by {
            assert forall|a: int, b: int| 0 <= a < b < after.len() implies #[trigger] after[a].0 != #[trigger] after[b].0 by {
                if b == before.len() {
                    assert(after[a] == before[a]);
                } else {
                    assert(after[a] == before[a] && after[b] == before[b]);
                }
            }
        }
    }
}

/// `external`, the root key whose tables hold external commands.
pub open spec fn external_key() -> Seq<char> {
    seq!['e', 'x', 't', 'e', 'r', 'n', 'a', 'l']
}

/// The domains of a configuration's root entries, in order; the `external`
/// entry and non-table entries contribute none.
pub open spec fn root_groups(root: Seq<(Seq<char>, ValueView)>) -> Seq<GroupView>
    decreases root.len(),
{
    if root.len() == 0 {
        Seq::empty()
    } else {
        let e = root.last();
        root_groups(root.drop_last()) + if e.0 != external_key() && e.1 is Table {
            flatten_table(Some(e.0), e.1->Table_0)
        } else {
            Seq::empty()
        }
    }
}

/// Why a configuration could not be read as domains.
pub enum DomainsError {
    /// The configuration's top level is not a table.
    NotATable,
}

/// Collects domains and their flattened settings from a parsed TOML configuration.
/// Returns the domains with their settings tables, each domain once.
pub fn collect_domains(parsed: &ConfigValue) -> (r: Result<Vec<Group>, DomainsError>)
    ensures
        r is Err <==> !(crate::value::value_view(*parsed) is Table),
        r matches Ok(v) ==> unique_domains(groups_view(v@)) && groups_map(groups_view(v@)) == groups_map(
            root_groups(crate::value::value_view(*parsed)->Table_0),
        ),
{
    let root = match parsed {
        ConfigValue::Table(entries, _) => entries,
        _ => return Err(DomainsError::NotATable),
    };
    let ghost rv = entries_view(root@);
    proof {
        lemma_entries_view(root@);
    }
    let ext = vec!['e', 'x', 't', 'e', 'r', 'n', 'a', 'l'];
    assert(ext@ =~= external_key());
    let mut domains: Vec<Group> = Vec::new();
    let mut i: usize = 0;
    while i < root.len()
        invariant
            i <= root.len(),
            ext@ == external_key(),
            rv == entries_view(root@),
            rv.len() == root@.len(),
            forall|j: int| 0 <= j < root@.len() ==> #[trigger] rv[j] == (root@[j].0@, crate::value::value_view(root@[j].1)),
            unique_domains(groups_view(domains@)),
            groups_map(groups_view(domains@)) == groups_map(root_groups(rv.take(i as int))),
        decreases root.len() - i,
    {
        assert(rv.take(i + 1).drop_last() =~= rv.take(i as int));
        let key = chars_of(root[i].0.as_str());
        if !chars_eq(&key, &ext) {
            if let ConfigValue::Table(inner, _) = &root[i].1 {
                let mut flat: Vec<Group> = Vec::new();
                flatten_domains(Some(root[i].0.clone()), inner, &mut flat);
                let ghost fv = groups_view(flat@);
                let ghost m0 = groups_map(groups_view(domains@));
                let mut j: usize = 0;
                while j < flat.len()
                    invariant
                        j <= flat.len(),
                        fv == groups_view(flat@),
                        unique_domains(groups_view(domains@)),
                        groups_map(groups_view(domains@)) == groups_map_extend(m0, fv.take(j as int)),
                    decreases flat.len() - j,
                {
                    let g = (flat[j].0.clone(), crate::value::duplicate_entries(&flat[j].1));
                    insert_group(&mut domains, g);
                    j = j + 1;
                    assert(fv.take(j as int).drop_last() =~= fv.take(j - 1));
                }
                assert(fv.take(flat.len() as int) =~= fv);
                proof {
                    lemma_groups_map_extend(root_groups(rv.take(i as int)), fv);
                    assert(rv[i as int].1 == ValueView::Table(entries_view(inner@), root@[i as int].1->Table_1@));
                }
            }
        }
        i = i + 1;
    }
    assert(rv.take(root.len() as int) =~= rv);
    Ok(domains)
}

/// `m` with the groups of `s` inserted in order.
pub open spec fn groups_map_extend(m: Map<Seq<char>, Seq<(Seq<char>, ValueView)>>, s: Seq<GroupView>) -> Map<Seq<char>, Seq<(Seq<char>, ValueView)>>
    decreases s.len(),
{
    if s.len() == 0 {
        m
    } else {
        groups_map_extend(m, s.drop_last()).insert(s.last().0, s.last().1)
    }
}

pub proof fn lemma_groups_map_extend(a: Seq<GroupView>, b: Seq<GroupView>)
    ensures
        groups_map(a + b) == groups_map_extend(groups_map(a), b),
    decreases b.len(),
{
    if b.len() == 0 {
        assert(a + b =~= a);
    } else {
        lemma_groups_map_extend(a, b.drop_last());
        assert((a + b).drop_last() =~= a + b.drop_last());
    }
}

} // verus!
