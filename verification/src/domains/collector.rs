//! Collection of the `[set]` tables of a configuration into domains.
use vstd::prelude::*;
use crate::config::model::Config;
use crate::domains::{
    apple_prefix, apple_prefix_chars, global_domain, global_domain_chars,
    global_domain_dot, global_domain_dot_chars, groups_map, groups_map_extend, groups_view,
    insert_group, lemma_groups_map_extend, nested_prefix, opt_view, unique_domains, Group,
    GroupView,
};
use crate::text::{chars_eq, chars_of, concat, has_prefix, is_prefix, skip_chars, string_of};
use crate::value::{entries_view, lemma_entries_view, value_view, ConfigValue, ValueView};

verus! {

/// The `defaults` domain object of an effective domain.
pub enum PrefDomain {
    /// The global domain.
    Global,
    /// A user domain, by name.
    User(String),
}

/// Convert a domain string to a Domain object.
pub fn domain_string_to_obj(domain: &str) -> (r: PrefDomain)
    ensures
        domain@ == global_domain() ==> r is Global,
        domain@ != global_domain() ==> (r matches PrefDomain::User(s) && s@ == domain@),
{
    let d = chars_of(domain);
    if chars_eq(&d, &global_domain_chars()) {
        PrefDomain::Global
    } else {
        PrefDomain::User(string_of(&d))
    }
}

/// The real `defaults` domain of a configured domain:
/// `finder` → `com.apple.finder`, `NSGlobalDomain` → itself,
/// `NSGlobalDomain.bar` → `NSGlobalDomain`.
pub open spec fn defaults_domain(domain: Seq<char>) -> Seq<char> {
    if is_prefix(global_domain_dot(), domain) {
        global_domain()
    } else if domain == global_domain() {
        domain
    } else {
        apple_prefix() + domain
    }
}

/// The true domain-key pair of a configured domain and key: a sub-domain of
/// the global domain moves in front of the key.
pub open spec fn effective_pair(domain: Seq<char>, key: Seq<char>) -> (Seq<char>, Seq<char>) {
    let dom = defaults_domain(domain);
    if dom == global_domain() && is_prefix(global_domain_dot(), domain) {
        (dom, domain.skip(global_domain_dot().len() as int).push('.') + key)
    } else {
        (dom, key)
    }
}

/// Helper for: effective()
/// Turn a config‐domain into the real defaults domain.
pub fn get_defaults_domain(domain: &str) -> (r: String)
    ensures
        r@ == defaults_domain(domain@),
{
    let d = chars_of(domain);
    if has_prefix(&d, &global_domain_dot_chars()) {
        string_of(&global_domain_chars())
    } else if chars_eq(&d, &global_domain_chars()) {
        string_of(&d)
    } else {
        string_of(&concat(&apple_prefix_chars(), &d))
    }
}

/// Given the TOML domain and key, figure out the true domain-key pair.
pub fn effective(domain: &str, key: &str) -> (r: (String, String))
    ensures
        (r.0@, r.1@) == effective_pair(domain@, key@),
{
    let dom = get_defaults_domain(domain);
    let d = chars_of(domain);
    let gd = global_domain_dot_chars();
    let dc = chars_of(dom.as_str());
    if chars_eq(&dc, &global_domain_chars()) && has_prefix(&d, &gd) {
        let mut rest = skip_chars(&d, gd.len());
        rest.push('.');
        (dom, string_of(&concat(&rest, &chars_of(key))))
    } else {
        (dom, string_of(&chars_of(key)))
    }
}

/// Whether a nested table entry is flattened into a domain of its own: only
/// tables at the top level of a domain are, and, when the system's domain
/// list is known, only those naming a domain on it (or the global domain).
pub open spec fn descends(prefix: Option<Seq<char>>, e: (Seq<char>, ValueView), depth: nat, valid: Option<Seq<Seq<char>>>) -> bool {
    &&& e.1 is Table
    &&& depth == 0
    &&& match valid {
        None => true,
        Some(ds) => {
            let eff = defaults_domain(nested_prefix(prefix, e.0));
            eff == global_domain() || ds.contains(eff)
        },
    }
}

/// The entries kept as settings of the table itself, in order.
pub open spec fn kept_entries(prefix: Option<Seq<char>>, entries: Seq<(Seq<char>, ValueView)>, depth: nat, valid: Option<Seq<Seq<char>>>) -> Seq<(Seq<char>, ValueView)>
    decreases entries.len(),
{
    if entries.len() == 0 {
        Seq::empty()
    } else {
        let rest = kept_entries(prefix, entries.drop_last(), depth, valid);
        if descends(prefix, entries.last(), depth, valid) {
            rest
        } else {
            rest.push(entries.last())
        }
    }
}

/// The domains a `[set]` table flattens into: those of the nested tables
/// that are domains, in order, then the table's own settings under `prefix`.
pub open spec fn set_flatten(prefix: Option<Seq<char>>, entries: Seq<(Seq<char>, ValueView)>, depth: nat, valid: Option<Seq<Seq<char>>>) -> Seq<GroupView>
    decreases entries, 1int,
{
    let own = kept_entries(prefix, entries, depth, valid);
    set_nested(prefix, entries, depth, valid) + if own.len() > 0 {
        seq![(prefix.unwrap_or(Seq::empty()), own)]
    } else {
        Seq::empty()
    }
}

/// The domains of the nested tables that are domains, in order.
pub open spec fn set_nested(prefix: Option<Seq<char>>, entries: Seq<(Seq<char>, ValueView)>, depth: nat, valid: Option<Seq<Seq<char>>>) -> Seq<GroupView>
    decreases entries, 0int,
{
    if entries.len() == 0 {
        Seq::empty()
    } else {
        let e = entries.last();
        set_nested(prefix, entries.drop_last(), depth, valid) + if descends(prefix, e, depth, valid) {
            proof {
                assert(decreases_to!(entries => entries[entries.len() - 1]));
            }
            set_flatten(Some(nested_prefix(prefix, e.0)), e.1->Table_0, depth + 1, valid)
        } else {
            Seq::empty()
        }
    }
}

pub open spec fn strings_view(v: Seq<String>) -> Seq<Seq<char>> {
    v.map_values(|s: String| s@)
}

pub open spec fn owned_strings_view(v: Option<Vec<String>>) -> Option<Seq<Seq<char>>> {
    match v {
        Some(ds) => Some(strings_view(ds@)),
        None => None,
    }
}

pub open spec fn opt_strings_view(v: Option<&Vec<String>>) -> Option<Seq<Seq<char>>> {
    match v {
        Some(ds) => Some(strings_view(ds@)),
        None => None,
    }
}

/// Whether a list of strings holds `s`.
pub fn contains_string(v: &Vec<String>, s: &String) -> (r: bool)
    ensures
        r == strings_view(v@).contains(s@),
{
    let mut i: usize = 0;
    while i < v.len()
        invariant
            i <= v.len(),
            forall|j: int| 0 <= j < i ==> v@[j]@ != s@,
        decreases v.len() - i,
    {
        if v[i] == *s {
            assert(strings_view(v@)[i as int] == s@);
            return true;
        }
        i = i + 1;
    }
    assert forall|j: int| 0 <= j < strings_view(v@).len() implies strings_view(v@)[j] != s@ by {
        assert(strings_view(v@)[j] == v@[j]@);
    }
    false
}

/// Recursively flatten nested TOML tables that represent domain hierarchies.
/// Uses the actual domain list to distinguish between nested domains and inline dictionaries.
fn flatten_domains(prefix: Option<String>, table: &Vec<(String, ConfigValue)>, dest: &mut Vec<Group>, depth: usize, valid_domains: Option<&Vec<String>>)
    requires
        depth <= 1,
    ensures
        groups_view(final(dest)@) == groups_view(old(dest)@) + set_flatten(opt_view(prefix), entries_view(table@), depth as nat, opt_strings_view(valid_domains)),
    decreases *table,
{
    let ghost pv = opt_view(prefix);
    let ghost ev = entries_view(table@);
    let ghost vv = opt_strings_view(valid_domains);
    let ghost start = groups_view(dest@);
    proof {
        lemma_entries_view(table@);
    }
    let mut flat: Vec<(String, ConfigValue)> = Vec::new();
    let mut i: usize = 0;
    while i < table.len()
        invariant
            i <= table.len(),
            depth <= 1,
            pv == opt_view(prefix),
            vv == opt_strings_view(valid_domains),
            ev == entries_view(table@),
            ev.len() == table@.len(),
            forall|j: int| 0 <= j < table@.len() ==> #[trigger] ev[j] == (table@[j].0@, value_view(table@[j].1)),
            entries_view(flat@) == kept_entries(pv, ev.take(i as int), depth as nat, vv),
            groups_view(dest@) == start + set_nested(pv, ev.take(i as int), depth as nat, vv),
        decreases table.len() - i,
    {
        let ghost prev_flat = flat@;
        assert(ev.take(i + 1).drop_last() =~= ev.take(i as int));
        assert(ev.take(i + 1).last() == ev[i as int]);
        let mut descend = false;
        if depth == 0 {
            if let ConfigValue::Table(_, _) = &table[i].1 {
                let potential = crate::domains::join_prefix(&prefix, &table[i].0);
                descend = match valid_domains {
                    Some(ds) => {
                        let eff = get_defaults_domain(potential.as_str());
                        chars_eq(&chars_of(eff.as_str()), &global_domain_chars()) || contains_string(ds, &eff)
                    },
                    None => true,
                };
            }
        }
        assert(descend == descends(pv, ev[i as int], depth as nat, vv));
        if descend {
            match &table[i].1 {
                ConfigValue::Table(inner, _) => {
                    proof {
                        assert(decreases_to!(*table => table@[i as int].1));
                        assert(table@[i as int].1->Table_0 == *inner);
                        assert(decreases_to!(table@[i as int].1 => table@[i as int].1->Table_0));
                    }
                    let np = crate::domains::join_prefix(&prefix, &table[i].0);
                    flatten_domains(Some(np), inner, dest, depth + 1, valid_domains);
                    proof {
                        assert(ev[i as int].1->Table_0 == entries_view(inner@));
                        assert(groups_view(dest@) =~= start + set_nested(pv, ev.take(i + 1), depth as nat, vv));
                    }
                },
                _ => {},
            }
        } else {
            let k = table[i].0.clone();
            let v = table[i].1.duplicate();
            flat.push((k, v));
            proof {
                assert(flat@.drop_last() =~= prev_flat);
                assert(set_nested(pv, ev.take(i + 1), depth as nat, vv) =~= set_nested(pv, ev.take(i as int), depth as nat, vv));
            }
        }
        i = i + 1;
    }
    assert(ev.take(table.len() as int) =~= ev);
    if flat.len() > 0 {
        let name = match prefix {
            Some(p) => p,
            None => String::new(),
        };
        let ghost before = groups_view(dest@);
        dest.push((name, flat));
        proof {
            assert(groups_view(dest@) =~= before.push(crate::domains::group_view((name, flat))));
            lemma_entries_view(flat@);
        }
    } else {
        proof {
            lemma_entries_view(flat@);
        }
    }
}

/// The domains of all `[set]` tables, in order.
pub open spec fn set_groups(set: Seq<(String, Vec<(String, ConfigValue)>)>, valid: Option<Seq<Seq<char>>>) -> Seq<GroupView>
    decreases set.len(),
{
    if set.len() == 0 {
        Seq::empty()
    } else {
        set_groups(set.drop_last(), valid) + set_flatten(Some(set.last().0@), entries_view(set.last().1@), 0, valid)
    }
}

/// Collect all tables in `[set]` and return a map domain → settings.
/// Handles both section header nesting (e.g., [set.domain.subdomain]) and
/// inline table dictionary values (e.g., key = { x = 1, y = 2 }).
/// `valid_domains` is the system's domain list, when it could be read; it
/// tells domains apart from dictionaries.
pub fn collect(config: &Config, valid_domains: Option<Vec<String>>) -> (r: Vec<Group>)
    ensures
        unique_domains(groups_view(r@)),
        groups_map(groups_view(r@)) == match config.set {
            Some(set) => groups_map(set_groups(set@, owned_strings_view(valid_domains))),
            None => Map::empty(),
        },
{
    let mut out: Vec<Group> = Vec::new();
    match &config.set {
        None => {
            assert(groups_map(groups_view(out@)) =~= Map::empty());
            out
        },
        Some(set) => {
            let vd = valid_domains.as_ref();
            let ghost vv = opt_strings_view(vd);
            assert(vv == owned_strings_view(valid_domains));
            let mut i: usize = 0;
            while i < set.len()
                invariant
                    i <= set.len(),
                    vv == opt_strings_view(vd),
                    unique_domains(groups_view(out@)),
                    groups_map(groups_view(out@)) == groups_map(set_groups(set@.take(i as int), vv)),
                decreases set.len() - i,
            {
                let mut flat: Vec<Group> = Vec::new();
                flatten_domains(Some(set[i].0.clone()), &set[i].1, &mut flat, 0, vd);
                let ghost fv = groups_view(flat@);
                let ghost m0 = groups_map(groups_view(out@));
                let mut j: usize = 0;
                while j < flat.len()
                    invariant
                        j <= flat.len(),
                        fv == groups_view(flat@),
                        unique_domains(groups_view(out@)),
                        groups_map(groups_view(out@)) == groups_map_extend(m0, fv.take(j as int)),
                    decreases flat.len() - j,
                {
                    let g = (flat[j].0.clone(), crate::value::duplicate_entries(&flat[j].1));
                    insert_group(&mut out, g);
                    j = j + 1;
                    assert(fv.take(j as int).drop_last() =~= fv.take(j - 1));
                }
                assert(fv.take(flat.len() as int) =~= fv);
                proof {
                    lemma_groups_map_extend(set_groups(set@.take(i as int), vv), fv);
                    assert(set@.take(i + 1).drop_last() =~= set@.take(i as int));
                }
                i = i + 1;
            }
            assert(set@.take(set.len() as int) =~= set@);
            out
        },
    }
}


/// The two ways of finding the `defaults` domain and key of a configured
/// setting agree, except on the domain `NSGlobalDomain.` itself, where
/// [`effective`] keeps a leading `.` on the key.
pub proof fn law_effective_agrees(domain: Seq<char>, key: Seq<char>)
    requires
        domain != global_domain_dot(),
    ensures
        effective_pair(domain, key) == crate::domains::effective_domain_and_key(domain, key),
{
    if is_prefix(global_domain_dot(), domain) {
        if domain.len() == global_domain_dot().len() {
            assert(domain.subrange(0, domain.len() as int) =~= domain);
            assert(false);
        }
        assert(domain != global_domain()) by {
            if domain == global_domain() {
                assert(domain.len() < global_domain_dot().len());
            }
        }
        assert(domain.skip(global_domain_dot().len() as int).len() > 0);
    }
}


/// An entry that does not descend is kept as a setting of its table.
proof fn lemma_kept_contains(prefix: Option<Seq<char>>, entries: Seq<(Seq<char>, ValueView)>, depth: nat, valid: Option<Seq<Seq<char>>>, i: int)
    requires
        0 <= i < entries.len(),
        !descends(prefix, entries[i], depth, valid),
    ensures
        kept_entries(prefix, entries, depth, valid).contains(entries[i]),
    decreases entries.len(),
{
    let t = entries.drop_last();
    let r = kept_entries(prefix, t, depth, valid);
    if i < entries.len() - 1 {
        assert(t[i] == entries[i]);
        lemma_kept_contains(prefix, t, depth, valid, i);
        let k = choose|k: int| 0 <= k < r.len() && r[k] == entries[i];
        assert(kept_entries(prefix, entries, depth, valid)[k] == entries[i]);
    } else {
        assert(kept_entries(prefix, entries, depth, valid) == r.push(entries[i]));
        assert(r.push(entries[i])[r.len() as int] == entries[i]);
    }
}

/// The settings kept are entries of the table that do not descend.
proof fn lemma_kept_members(prefix: Option<Seq<char>>, entries: Seq<(Seq<char>, ValueView)>, depth: nat, valid: Option<Seq<Seq<char>>>)
    ensures
        forall|k: int| 0 <= k < kept_entries(prefix, entries, depth, valid).len() ==>
            entries.contains(#[trigger] kept_entries(prefix, entries, depth, valid)[k])
            && !descends(prefix, kept_entries(prefix, entries, depth, valid)[k], depth, valid),
    decreases entries.len(),
{
    if entries.len() > 0 {
        let t = entries.drop_last();
        lemma_kept_members(prefix, t, depth, valid);
        let r = kept_entries(prefix, t, depth, valid);
        assert forall|k: int| 0 <= k < kept_entries(prefix, entries, depth, valid).len() implies
            entries.contains(#[trigger] kept_entries(prefix, entries, depth, valid)[k]) by {
            let x = kept_entries(prefix, entries, depth, valid)[k];
            if k < r.len() {
                assert(x == r[k]);
                let m = choose|m: int| 0 <= m < t.len() && t[m] == x;
                assert(entries[m] == x);
            } else {
                assert(entries[entries.len() - 1] == x);
            }
        }
    }
}

/// Below the top level nothing descends.
proof fn lemma_nested_below_top(prefix: Option<Seq<char>>, entries: Seq<(Seq<char>, ValueView)>, valid: Option<Seq<Seq<char>>>)
    ensures
        set_nested(prefix, entries, 1, valid) == Seq::<GroupView>::empty(),
    decreases entries.len(),
{
    if entries.len() > 0 {
        lemma_nested_below_top(prefix, entries.drop_last(), valid);
        assert(set_nested(prefix, entries, 1, valid) =~= Seq::<GroupView>::empty());
    }
}

/// The domains of nested tables are named longer than the enclosing one.
proof fn lemma_nested_names(p: Seq<char>, entries: Seq<(Seq<char>, ValueView)>, valid: Option<Seq<Seq<char>>>)
    requires
        p.len() > 0,
    ensures
        forall|k: int| 0 <= k < set_nested(Some(p), entries, 0, valid).len() ==> (#[trigger] set_nested(Some(p), entries, 0, valid)[k]).0.len() > p.len(),
    decreases entries.len(),
{
    if entries.len() > 0 {
        let t = entries.drop_last();
        lemma_nested_names(p, t, valid);
        let e = entries.last();
        let a = set_nested(Some(p), t, 0, valid);
        if descends(Some(p), e, 0, valid) {
            let np = nested_prefix(Some(p), e.0);
            let inner = e.1->Table_0;
            lemma_nested_below_top(Some(np), inner, valid);
            let b = set_flatten(Some(np), inner, 1, valid);
            assert forall|k: int| 0 <= k < b.len() implies (#[trigger] b[k]).0 == np by {}
            assert forall|k: int| 0 <= k < (a + b).len() implies (#[trigger] (a + b)[k]).0.len() > p.len() by {
                if k < a.len() {
                    assert((a + b)[k] == a[k]);
                } else {
                    assert((a + b)[k] == b[k - a.len()]);
                }
            }
            assert(set_nested(Some(p), entries, 0, valid) == a + b);
        } else {
            assert(set_nested(Some(p), entries, 0, valid) =~= a);
        }
    }
}

/// With the system's domain list known, a nested table at the top of a
/// domain `p` becomes a domain of its own only where its `defaults` domain
/// is `NSGlobalDomain` or on the list: every other entry, dictionaries
/// included, stays a setting of `p` (the last domain the table yields), and
/// `p`'s settings are entries of the table that are not such tables.
pub proof fn law_flatten_keeps_dictionaries(p: Seq<char>, entries: Seq<(Seq<char>, ValueView)>, ds: Seq<Seq<char>>)
    requires
        p.len() > 0,
    ensures
        ({
            let r = set_flatten(Some(p), entries, 0, Some(ds));
            &&& forall|i: int| 0 <= i < entries.len() && !((#[trigger] entries[i]).1 is Table && (
                defaults_domain(nested_prefix(Some(p), entries[i].0)) == global_domain()
                || ds.contains(defaults_domain(nested_prefix(Some(p), entries[i].0)))))
                ==> r.len() > 0 && r.last().0 == p && r.last().1.contains(entries[i])
            &&& r.len() > 0 && r.last().0 == p ==> forall|k: int| 0 <= k < r.last().1.len() ==> {
                let x = #[trigger] r.last().1[k];
                &&& entries.contains(x)
                &&& !(x.1 is Table && (defaults_domain(nested_prefix(Some(p), x.0)) == global_domain()
                    || ds.contains(defaults_domain(nested_prefix(Some(p), x.0)))))
            }
        }),
{
    let valid = Some(ds);
    let r = set_flatten(Some(p), entries, 0, valid);
    let own = kept_entries(Some(p), entries, 0, valid);
    let nested = set_nested(Some(p), entries, 0, valid);
    lemma_kept_members(Some(p), entries, 0, valid);
    lemma_nested_names(p, entries, valid);
    assert forall|i: int| 0 <= i < entries.len() && !((#[trigger] entries[i]).1 is Table && (
        defaults_domain(nested_prefix(Some(p), entries[i].0)) == global_domain()
        || ds.contains(defaults_domain(nested_prefix(Some(p), entries[i].0)))))
        implies r.len() > 0 && r.last().0 == p && r.last().1.contains(entries[i]) by {
        lemma_kept_contains(Some(p), entries, 0, valid, i);
        assert(own.len() > 0);
        assert(r == nested + seq![(p, own)]);
        assert(r.last() == (p, own));
    }
    if r.len() > 0 && r.last().0 == p {
        if own.len() > 0 {
            assert(r == nested + seq![(p, own)]);
            assert(r.last() == (p, own));
        } else {
            assert(r =~= nested);
            assert(nested[nested.len() - 1].0.len() > p.len());
            assert(false);
        }
    }
}

} // verus!
