//! What `unapply` does with the snapshot: restore each recorded setting
//! that had a value, delete each that did not, batched by domain.
use vstd::prelude::*;
use crate::commands::apply::{apply_settings, job_record, opt_value_view, rec_table, rec_view, recs_view, PrefJobView, RecView, RecordedSetting};
use crate::commands::SettingEntryView;
use crate::value::{value_view, ConfigValue, ValueView};

verus! {

/// Reverts what the last apply did.
pub struct UnapplyCmd;

/// The records last applied first.
pub open spec fn reversed(s: Seq<RecView>) -> Seq<RecView> {
    Seq::new(s.len(), |i: int| s[s.len() - 1 - i])
}

/// The domains of the records, each once, in the order they first appear.
pub open spec fn domains_of(s: Seq<RecView>) -> Seq<Seq<char>>
    decreases s.len(),
{
    if s.len() == 0 {
        Seq::empty()
    } else {
        let r = domains_of(s.drop_last());
        if r.contains(s.last().0) {
            r
        } else {
            r.push(s.last().0)
        }
    }
}

/// The records of domain `d` that have an original value (`restoring`) or
/// have none, in order.
pub open spec fn of_domain(s: Seq<RecView>, d: Seq<char>, restoring: bool) -> Seq<RecView>
    decreases s.len(),
{
    if s.len() == 0 {
        Seq::empty()
    } else {
        let r = of_domain(s.drop_last(), d, restoring);
        if s.last().0 == d && (s.last().2 is Some) == restoring {
            r.push(s.last())
        } else {
            r
        }
    }
}

/// The records batched by domain: the domains in order, each with its records.
pub open spec fn batched(s: Seq<RecView>, doms: Seq<Seq<char>>, restoring: bool) -> Seq<RecView>
    decreases doms.len(),
{
    if doms.len() == 0 {
        Seq::empty()
    } else {
        batched(s, doms.drop_last(), restoring) + of_domain(s, doms.last(), restoring)
    }
}

/// The restores: domain, key, and the value written back.
pub open spec fn restores_of(s: Seq<RecView>) -> Seq<(Seq<char>, Seq<char>, ValueView)> {
    let r = reversed(s);
    batched(r, domains_of(r), true).map_values(|x: RecView| (x.0, x.1, x.2->0))
}

/// The deletions: domain and key.
pub open spec fn deletes_of(s: Seq<RecView>) -> Seq<(Seq<char>, Seq<char>)> {
    let r = reversed(s);
    batched(r, domains_of(r), false).map_values(|x: RecView| (x.0, x.1))
}

/// What unapplying writes back and deletes.
pub struct UndoBatches {
    pub restores: Vec<(String, String, ConfigValue)>,
    pub deletes: Vec<(String, String)>,
}

pub open spec fn restores_view(s: Seq<(String, String, ConfigValue)>) -> Seq<(Seq<char>, Seq<char>, ValueView)> {
    s.map_values(|x: (String, String, ConfigValue)| (x.0@, x.1@, value_view(x.2)))
}

pub open spec fn deletes_view(s: Seq<(String, String)>) -> Seq<(Seq<char>, Seq<char>)> {
    s.map_values(|x: (String, String)| (x.0@, x.1@))
}

fn domain_list(s: &Vec<&RecordedSetting>) -> (r: Vec<String>)
    ensures
        r@.map_values(|d: String| d@) == domains_of(s@.map_values(|x: &RecordedSetting| rec_view(*x))),
{
    let ghost sv = s@.map_values(|x: &RecordedSetting| rec_view(*x));
    let mut r: Vec<String> = Vec::new();
    let mut i: usize = 0;
    assert(r@.map_values(|d: String| d@) =~= domains_of(sv.take(0)));
    while i < s.len()
        invariant
            i <= s.len(),
            sv == s@.map_values(|x: &RecordedSetting| rec_view(*x)),
            r@.map_values(|d: String| d@) == domains_of(sv.take(i as int)),
        decreases s.len() - i,
    {
        assert(sv.take(i + 1).drop_last() =~= sv.take(i as int));
        assert(sv.take(i + 1).last() == rec_view(*s@[i as int]));
        let ghost before = r@;
        if !crate::domains::collector::contains_string(&r, &s[i].domain) {
            r.push(s[i].domain.clone());
            assert(r@.map_values(|d: String| d@) =~= before.map_values(|d: String| d@).push(s@[i as int].domain@));
        } else {
            assert(crate::domains::collector::strings_view(r@) =~= r@.map_values(|d: String| d@));
        }
        i = i + 1;
    }
    assert(sv.take(s.len() as int) =~= sv);
    r
}

/// Prepares the undo operations: the snapshot's records in reverse order,
/// batched by domain (domains in the order they first come), those with an
/// original value to write back, the others to delete.
pub fn undo_batches(settings: &Vec<RecordedSetting>) -> (r: UndoBatches)
    ensures
        restores_view(r.restores@) == restores_of(recs_view(settings@)),
        deletes_view(r.deletes@) == deletes_of(recs_view(settings@)),
{
    let ghost sv = recs_view(settings@);
    let mut rev: Vec<&RecordedSetting> = Vec::new();
    let mut i: usize = settings.len();
    while i > 0
        invariant
            i <= settings.len(),
            rev@.map_values(|x: &RecordedSetting| rec_view(*x)) =~= reversed(sv).take((settings.len() - i) as int),
            sv == recs_view(settings@),
        decreases i,
    {
        i = i - 1;
        let ghost before = rev@;
        rev.push(&settings[i]);
        assert(rev@.map_values(|x: &RecordedSetting| rec_view(*x)) =~= before.map_values(|x: &RecordedSetting| rec_view(*x)).push(sv[i as int]));
        assert(reversed(sv).take((settings.len() - i) as int) =~= reversed(sv).take((settings.len() - i - 1) as int).push(sv[i as int]));
    }
    let ghost rv = rev@.map_values(|x: &RecordedSetting| rec_view(*x));
    assert(rv =~= reversed(sv));
    let doms = domain_list(&rev);
    let ghost dv = doms@.map_values(|d: String| d@);
    let mut restores: Vec<(String, String, ConfigValue)> = Vec::new();
    let mut deletes: Vec<(String, String)> = Vec::new();
    assert(restores_view(restores@) =~= batched(rv, dv.take(0), true).map_values(|x: RecView| (x.0, x.1, x.2->0)));
    assert(deletes_view(deletes@) =~= batched(rv, dv.take(0), false).map_values(|x: RecView| (x.0, x.1)));
    let mut k: usize = 0;
    while k < doms.len()
        invariant
            k <= doms.len(),
            rv == rev@.map_values(|x: &RecordedSetting| rec_view(*x)),
            dv == doms@.map_values(|d: String| d@),
            restores_view(restores@) == batched(rv, dv.take(k as int), true).map_values(|x: RecView| (x.0, x.1, x.2->0)),
            deletes_view(deletes@) == batched(rv, dv.take(k as int), false).map_values(|x: RecView| (x.0, x.1)),
        decreases doms.len() - k,
    {
        assert(dv.take(k + 1).drop_last() =~= dv.take(k as int));
        assert(dv.take(k + 1).last() == doms@[k as int]@);
        let d = &doms[k];
        let ghost r0 = restores_view(restores@);
        let ghost d0 = deletes_view(deletes@);
        let mut j: usize = 0;
        while j < rev.len()
            invariant
                j <= rev.len(),
                rv == rev@.map_values(|x: &RecordedSetting| rec_view(*x)),
                restores_view(restores@) == r0 + of_domain(rv.take(j as int), d@, true).map_values(|x: RecView| (x.0, x.1, x.2->0)),
                deletes_view(deletes@) == d0 + of_domain(rv.take(j as int), d@, false).map_values(|x: RecView| (x.0, x.1)),
            decreases rev.len() - j,
        {
            assert(rv.take(j + 1).drop_last() =~= rv.take(j as int));
            assert(rv.take(j + 1).last() == rec_view(*rev@[j as int]));
            let s = rev[j];
            if crate::text::str_eq(s.domain.as_str(), d.as_str()) {
                match &s.original_value {
                    Some(v) => {
                        let ghost before = restores_view(restores@);
                        restores.push((s.domain.clone(), s.key.clone(), v.duplicate()));
                        assert(restores_view(restores@) =~= before.push((s.domain@, s.key@, value_view(*v))));
                        assert(of_domain(rv.take(j + 1), d@, true).map_values(|x: RecView| (x.0, x.1, x.2->0))
                            =~= of_domain(rv.take(j as int), d@, true).map_values(|x: RecView| (x.0, x.1, x.2->0)).push((s.domain@, s.key@, value_view(*v))));
                    },
                    None => {
                        let ghost before = deletes_view(deletes@);
                        deletes.push((s.domain.clone(), s.key.clone()));
                        assert(deletes_view(deletes@) =~= before.push((s.domain@, s.key@)));
                        assert(of_domain(rv.take(j + 1), d@, false).map_values(|x: RecView| (x.0, x.1))
                            =~= of_domain(rv.take(j as int), d@, false).map_values(|x: RecView| (x.0, x.1)).push((s.domain@, s.key@)));
                    },
                }
            }
            j = j + 1;
        }
        assert(rv.take(rev.len() as int) =~= rv);
        assert(batched(rv, dv.take(k + 1), true).map_values(|x: RecView| (x.0, x.1, x.2->0))
            =~= batched(rv, dv.take(k as int), true).map_values(|x: RecView| (x.0, x.1, x.2->0)) + of_domain(rv, d@, true).map_values(|x: RecView| (x.0, x.1, x.2->0)));
        assert(batched(rv, dv.take(k + 1), false).map_values(|x: RecView| (x.0, x.1))
            =~= batched(rv, dv.take(k as int), false).map_values(|x: RecView| (x.0, x.1)) + of_domain(rv, d@, false).map_values(|x: RecView| (x.0, x.1)));
        k = k + 1;
    }
    assert(dv.take(doms.len() as int) =~= dv);
    UndoBatches { restores, deletes }
}


proof fn lemma_domains_of_contains(r: Seq<RecView>, q: int)
    requires
        0 <= q < r.len(),
    ensures
        domains_of(r).contains(r[q].0),
    decreases r.len(),
{
    let t = r.drop_last();
    if q < r.len() - 1 {
        assert(t[q] == r[q]);
        lemma_domains_of_contains(t, q);
        let k = choose|k: int| 0 <= k < domains_of(t).len() && domains_of(t)[k] == r[q].0;
        if !domains_of(t).contains(r.last().0) {
            assert(domains_of(r)[k] == r[q].0);
        }
    } else {
        if !domains_of(t).contains(r.last().0) {
            assert(domains_of(r)[domains_of(t).len() as int] == r.last().0);
        }
    }
}

proof fn lemma_of_domain_contains(r: Seq<RecView>, q: int, restoring: bool)
    requires
        0 <= q < r.len(),
        (r[q].2 is Some) == restoring,
    ensures
        of_domain(r, r[q].0, restoring).contains(r[q]),
    decreases r.len(),
{
    let t = r.drop_last();
    let d = r[q].0;
    if q < r.len() - 1 {
        assert(t[q] == r[q]);
        lemma_of_domain_contains(t, q, restoring);
        let k = choose|k: int| 0 <= k < of_domain(t, d, restoring).len() && of_domain(t, d, restoring)[k] == r[q];
        assert(of_domain(r, d, restoring)[k] == r[q]);
    } else {
        assert(of_domain(r, d, restoring)[of_domain(t, d, restoring).len() as int] == r[q]);
    }
}

proof fn lemma_batched_contains(r: Seq<RecView>, doms: Seq<Seq<char>>, restoring: bool, x: RecView)
    requires
        doms.contains(x.0),
        of_domain(r, x.0, restoring).contains(x),
    ensures
        batched(r, doms, restoring).contains(x),
    decreases doms.len(),
{
    let t = doms.drop_last();
    let left = batched(r, t, restoring);
    let right = of_domain(r, doms.last(), restoring);
    if doms.last() == x.0 {
        let k = choose|k: int| 0 <= k < right.len() && right[k] == x;
        assert((left + right)[left.len() + k] == x);
    } else {
        let i = choose|i: int| 0 <= i < doms.len() && doms[i] == x.0;
        assert(t[i] == x.0);
        lemma_batched_contains(r, t, restoring, x);
        let k = choose|k: int| 0 <= k < left.len() && left[k] == x;
        assert((left + right)[k] == x);
    }
}

/// Unapplying reverts what applying did: after applying a configuration
/// without error over a snapshot that could be read, unapplying the snapshot
/// it saved writes back the original value recorded for each job that had
/// one, and deletes the setting of each job that had none.
pub proof fn law_unapply_reverts_apply(
    snapshot: Seq<RecView>,
    entries: Seq<SettingEntryView>,
    current: Seq<Option<ValueView>>,
    known: Seq<Seq<char>>,
    no_dom_check: bool,
    i: int,
)
    requires
        apply_settings((rec_table(snapshot), Seq::empty(), None), entries, current, known, no_dom_check, false).2 is None,
        0 <= i < apply_settings((rec_table(snapshot), Seq::empty(), None), entries, current, known, no_dom_check, false).1.len(),
    ensures
        ({
            let st = apply_settings((rec_table(snapshot), Seq::empty(), None), entries, current, known, no_dom_check, false);
            let saved = st.0 + st.1.map_values(|j: PrefJobView| job_record(j));
            let j = st.1[i];
            match j.4 {
                Some(v) => restores_of(saved).contains((j.0, j.1, v)),
                None => deletes_of(saved).contains((j.0, j.1)),
            }
        }),
{
    let st = apply_settings((rec_table(snapshot), Seq::empty(), None), entries, current, known, no_dom_check, false);
    let saved = st.0 + st.1.map_values(|j: PrefJobView| job_record(j));
    let j = st.1[i];
    let p = st.0.len() + i;
    assert(saved[p] == job_record(j));
    let r = reversed(saved);
    let q = saved.len() - 1 - p;
    assert(r[q] == saved[p]);
    let x = r[q];
    let restoring = j.4 is Some;
    lemma_domains_of_contains(r, q);
    lemma_of_domain_contains(r, q, restoring);
    lemma_batched_contains(r, domains_of(r), restoring, x);
    let b = batched(r, domains_of(r), restoring);
    let k = choose|k: int| 0 <= k < b.len() && b[k] == x;
    if restoring {
        assert(b.map_values(|y: RecView| (y.0, y.1, y.2->0))[k] == (j.0, j.1, j.4->0));
    } else {
        assert(b.map_values(|y: RecView| (y.0, y.1))[k] == (j.0, j.1));
    }
}

} // verus!
