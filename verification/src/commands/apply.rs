//! What `apply` decides: which preferences to write, with which action and
//! which value to restore later, and what the new snapshot records.
use vstd::prelude::*;
use crate::commands::{entries_flat_view, entry_view, Setting, SettingEntryView};
use crate::domains::collector::{contains_string, effective, effective_pair, strings_view};
use crate::domains::global_domain;
use crate::exec::runner::ExecMode;
use crate::value::{value_view, ConfigValue, ValueView};

verus! {

/// Applies the configuration.
pub struct ApplyCmd {
    /// The URL to the remote config file.
    pub url: Option<String>,
    /// Skip executing external commands.
    pub no_cmd: bool,
    /// Execute all external commands (even flagged ones).
    pub all_cmd: bool,
    /// Execute flagged external commands only.
    pub flagged_cmd: bool,
    /// Disables the domain existence check.
    pub no_dom_check: bool,
    /// Invoke `brew install` after applying preferences.
    pub brew: bool,
}

impl ApplyCmd {
    /// Which external commands run after the preferences: none with
    /// `--no-cmd`, all with `--all-cmd`, flagged ones with `--flagged-cmd`,
    /// else the regular ones.
    pub fn exec_mode(&self) -> (r: Option<ExecMode>)
        ensures
            self.no_cmd ==> r is None,
            !self.no_cmd && self.all_cmd ==> r matches Some(ExecMode::All),
            !self.no_cmd && !self.all_cmd && self.flagged_cmd ==> r matches Some(ExecMode::Flagged),
            !self.no_cmd && !self.all_cmd && !self.flagged_cmd ==> r matches Some(ExecMode::Regular),
    {
        if self.no_cmd {
            None
        } else if self.all_cmd {
            Some(ExecMode::All)
        } else if self.flagged_cmd {
            Some(ExecMode::Flagged)
        } else {
            Some(ExecMode::Regular)
        }
    }
}

/// A setting the snapshot records: domain, key, and the value it had before
/// cutler applied it, if it had one.
pub struct RecordedSetting {
    pub domain: String,
    pub key: String,
    pub original_value: Option<ConfigValue>,
}

pub type RecView = (Seq<char>, Seq<char>, Option<ValueView>);

pub open spec fn opt_value_view(o: Option<ConfigValue>) -> Option<ValueView> {
    match o {
        Some(v) => Some(value_view(v)),
        None => None,
    }
}

pub open spec fn rec_view(r: RecordedSetting) -> RecView {
    (r.domain@, r.key@, opt_value_view(r.original_value))
}

pub open spec fn recs_view(s: Seq<RecordedSetting>) -> Seq<RecView> {
    s.map_values(|r: RecordedSetting| rec_view(r))
}

/// Represents a preference modification job.
pub struct PreferenceJob {
    pub domain: String,
    pub key: String,
    pub value: ConfigValue,
    /// `Applying` for a setting new to the snapshot, `Updating` otherwise.
    pub action: &'static str,
    /// What unapplying restores, if anything.
    pub original: Option<ConfigValue>,
}

pub type PrefJobView = (Seq<char>, Seq<char>, ValueView, Seq<char>, Option<ValueView>);

pub open spec fn pref_job_view(j: PreferenceJob) -> PrefJobView {
    (j.domain@, j.key@, value_view(j.value), j.action@, opt_value_view(j.original))
}

pub open spec fn pref_jobs_view(s: Seq<PreferenceJob>) -> Seq<PrefJobView> {
    s.map_values(|j: PreferenceJob| pref_job_view(j))
}

/// Why applying stopped.
pub enum ApplyCmdError {
    /// A configured domain is not among the system's domains.
    DomainNotFound(String),
}

/// The jobs to run, and the settings the new snapshot records.
pub struct ApplyRun {
    pub jobs: Vec<PreferenceJob>,
    pub settings: Vec<RecordedSetting>,
}

/// The position of the first record of `d` and `k`.
pub open spec fn rec_index(m: Seq<RecView>, d: Seq<char>, k: Seq<char>) -> Option<int>
    decreases m.len(),
{
    if m.len() == 0 {
        None
    } else {
        match rec_index(m.drop_last(), d, k) {
            Some(i) => Some(i),
            None => if m.last().0 == d && m.last().1 == k { Some(m.len() - 1) } else { None },
        }
    }
}

pub proof fn lemma_rec_index(m: Seq<RecView>, d: Seq<char>, k: Seq<char>)
    ensures
        rec_index(m, d, k) matches Some(i) ==> 0 <= i < m.len() && m[i].0 == d && m[i].1 == k
            && forall|j: int| 0 <= j < i ==> !(#[trigger] m[j].0 == d && m[j].1 == k),
        rec_index(m, d, k) is None ==> forall|j: int| 0 <= j < m.len() ==> !(#[trigger] m[j].0 == d && m[j].1 == k),
    decreases m.len(),
{
    if m.len() > 0 {
        lemma_rec_index(m.drop_last(), d, k);
        assert forall|j: int| 0 <= j < m.len() - 1 implies #[trigger] m[j] == m.drop_last()[j] by {}
    }
}

proof fn lemma_rec_index_first(m: Seq<RecView>, d: Seq<char>, k: Seq<char>, i: int)
    requires
        0 <= i < m.len(),
        m[i].0 == d && m[i].1 == k,
        forall|j: int| 0 <= j < i ==> !(#[trigger] m[j].0 == d && m[j].1 == k),
    ensures
        rec_index(m, d, k) == Some(i),
{
    lemma_rec_index(m, d, k);
}

/// Once applying stopped, the rest of the settings leave it stopped.
proof fn lemma_apply_stopped(st: ApplyRunState, entries: Seq<SettingEntryView>, current: Seq<Option<ValueView>>, known: Seq<Seq<char>>, no_dom_check: bool, bad_snapshot: bool, n: int, m: int)
    requires
        0 <= n <= m <= entries.len(),
        apply_settings(st, entries.take(n), current, known, no_dom_check, bad_snapshot).2 is Some,
    ensures
        apply_settings(st, entries.take(m), current, known, no_dom_check, bad_snapshot).2
            == apply_settings(st, entries.take(n), current, known, no_dom_check, bad_snapshot).2,
    decreases m - n,
{
    if m > n {
        lemma_apply_stopped(st, entries, current, known, no_dom_check, bad_snapshot, n, m - 1);
        assert(entries.take(m).drop_last() =~= entries.take(m - 1));
    }
}

/// The snapshot's records looked up by domain and key: a later record of
/// the same domain and key replaces an earlier one in its place.
pub open spec fn rec_table(s: Seq<RecView>) -> Seq<RecView>
    decreases s.len(),
{
    if s.len() == 0 {
        s
    } else {
        let m = rec_table(s.drop_last());
        let r = s.last();
        match rec_index(m, r.0, r.1) {
            Some(i) => m.update(i, r),
            None => m.push(r),
        }
    }
}

/// The state of applying: records not yet rewritten, the jobs so far, and
/// the domain that was not found, if one was not.
pub type ApplyRunState = (Seq<RecView>, Seq<PrefJobView>, Option<Seq<char>>);

/// Applying one configured setting, given the value the system holds for it.
pub open spec fn apply_setting(st: ApplyRunState, e: SettingEntryView, current: Option<ValueView>, known: Seq<Seq<char>>, no_dom_check: bool, bad_snapshot: bool) -> ApplyRunState {
    if st.2 is Some {
        st
    } else {
        let (ed, ek) = effective_pair(e.0, e.1);
        if !no_dom_check && ed != global_domain() && !known.contains(ed) {
            (st.0, st.1, Some(ed))
        } else if current == Some(e.2) {
            st
        } else {
            match rec_index(st.0, ed, ek) {
                Some(i) => (st.0.remove(i), st.1.push((ed, ek, e.2, "Updating"@, if bad_snapshot { None } else { st.0[i].2 })), None),
                None => (st.0, st.1.push((ed, ek, e.2, "Applying"@, if bad_snapshot { None } else { current })), None),
            }
        }
    }
}

pub open spec fn apply_settings(st: ApplyRunState, entries: Seq<SettingEntryView>, current: Seq<Option<ValueView>>, known: Seq<Seq<char>>, no_dom_check: bool, bad_snapshot: bool) -> ApplyRunState
    decreases entries.len(),
{
    if entries.len() == 0 {
        st
    } else {
        apply_setting(
            apply_settings(st, entries.drop_last(), current, known, no_dom_check, bad_snapshot),
            entries.last(),
            current[entries.len() - 1],
            known,
            no_dom_check,
            bad_snapshot,
        )
    }
}

/// The record a job leaves in the snapshot.
pub open spec fn job_record(j: PrefJobView) -> RecView {
    (j.0, j.1, j.4)
}

pub open spec fn opt_values_view(s: Seq<Option<ConfigValue>>) -> Seq<Option<ValueView>> {
    s.map_values(|o: Option<ConfigValue>| opt_value_view(o))
}

fn copy_opt_value(o: &Option<ConfigValue>) -> (r: Option<ConfigValue>)
    ensures
        opt_value_view(r) == opt_value_view(*o),
{
    match o {
        Some(v) => Some(v.duplicate()),
        None => None,
    }
}

fn copy_rec(r: &RecordedSetting) -> (c: RecordedSetting)
    ensures
        rec_view(c) == rec_view(*r),
{
    RecordedSetting { domain: r.domain.clone(), key: r.key.clone(), original_value: copy_opt_value(&r.original_value) }
}

fn find_rec(m: &Vec<RecordedSetting>, d: &String, k: &String) -> (r: Option<usize>)
    ensures
        match r {
            Some(i) => rec_index(recs_view(m@), d@, k@) == Some(i as int),
            None => rec_index(recs_view(m@), d@, k@) is None,
        },
{
    let ghost mv = recs_view(m@);
    proof {
        lemma_rec_index(mv, d@, k@);
    }
    let mut i: usize = 0;
    while i < m.len()
        invariant
            i <= m.len(),
            mv == recs_view(m@),
            forall|j: int| 0 <= j < i ==> !(#[trigger] mv[j].0 == d@ && mv[j].1 == k@),
        decreases m.len() - i,
    {
        assert(mv[i as int] == rec_view(m@[i as int]));
        if crate::text::str_eq(m[i].domain.as_str(), d.as_str()) && crate::text::str_eq(m[i].key.as_str(), k.as_str()) {
            proof {
                lemma_rec_index_first(mv, d@, k@, i as int);
            }
            return Some(i);
        }
        i = i + 1;
    }
    None
}

/// The snapshot's records by domain and key, as [`rec_table`] orders them.
pub fn record_table(snapshot: &Vec<RecordedSetting>) -> (r: Vec<RecordedSetting>)
    ensures
        recs_view(r@) == rec_table(recs_view(snapshot@)),
{
    let ghost sv = recs_view(snapshot@);
    let mut m: Vec<RecordedSetting> = Vec::new();
    let mut i: usize = 0;
    assert(recs_view(m@) =~= rec_table(sv.take(0)));
    while i < snapshot.len()
        invariant
            i <= snapshot.len(),
            sv == recs_view(snapshot@),
            recs_view(m@) == rec_table(sv.take(i as int)),
        decreases snapshot.len() - i,
    {
        assert(sv.take(i + 1).drop_last() =~= sv.take(i as int));
        assert(sv.take(i + 1).last() == rec_view(snapshot@[i as int]));
        let ghost before = recs_view(m@);
        let c = copy_rec(&snapshot[i]);
        proof {
            lemma_rec_index(before, snapshot@[i as int].domain@, snapshot@[i as int].key@);
        }
        match find_rec(&m, &snapshot[i].domain, &snapshot[i].key) {
            Some(j) => {
                m.set(j, c);
                assert(recs_view(m@) =~= before.update(j as int, rec_view(snapshot@[i as int])));
            },
            None => {
                m.push(c);
                assert(recs_view(m@) =~= before.push(rec_view(snapshot@[i as int])));
            },
        }
        i = i + 1;
    }
    assert(sv.take(snapshot.len() as int) =~= sv);
    m
}

/// Decides what applying does. `settings` are the configured settings in
/// order and `current[i]` the value the system holds for `settings[i]`;
/// `snapshot` holds the records of the last snapshot, `known` the system's
/// domains; `bad_snapshot` says the last snapshot could not be read, in
/// which case nothing is restorable. A domain other than `NSGlobalDomain`
/// that is not known stops applying, unless the check is disabled.
pub fn plan_apply(
    settings: &Vec<Setting>,
    current: &Vec<Option<ConfigValue>>,
    snapshot: &Vec<RecordedSetting>,
    known: &Vec<String>,
    no_dom_check: bool,
    bad_snapshot: bool,
) -> (r: Result<ApplyRun, ApplyCmdError>)
    requires
        current.len() == settings.len(),
    ensures
        ({
            let st = apply_settings(
                (rec_table(recs_view(snapshot@)), Seq::empty(), None),
                entries_flat_view(settings@),
                opt_values_view(current@),
                strings_view(known@),
                no_dom_check,
                bad_snapshot,
            );
            match r {
                Ok(run) => st.2 is None && pref_jobs_view(run.jobs@) == st.1
                    && recs_view(run.settings@) == st.0 + st.1.map_values(|j: PrefJobView| job_record(j)),
                Err(ApplyCmdError::DomainNotFound(d)) => st.2 == Some(d@),
            }
        }),
{
    let ghost ev = entries_flat_view(settings@);
    let ghost cv = opt_values_view(current@);
    let ghost kv = strings_view(known@);
    let ghost init: ApplyRunState = (rec_table(recs_view(snapshot@)), Seq::empty(), None);
    let mut existing = record_table(snapshot);
    let mut jobs: Vec<PreferenceJob> = Vec::new();
    assert(pref_jobs_view(jobs@) =~= Seq::<PrefJobView>::empty());
    let mut i: usize = 0;
    while i < settings.len()
        invariant
            i <= settings.len(),
            current.len() == settings.len(),
            ev == entries_flat_view(settings@),
            cv == opt_values_view(current@),
            kv == strings_view(known@),
            init == (rec_table(recs_view(snapshot@)), Seq::<PrefJobView>::empty(), None::<Seq<char>>),
            (recs_view(existing@), pref_jobs_view(jobs@), None::<Seq<char>>) == apply_settings(init, ev.take(i as int), cv, kv, no_dom_check, bad_snapshot),
        decreases settings.len() - i,
    {
        assert(ev.take(i + 1).drop_last() =~= ev.take(i as int));
        assert(ev.take(i + 1).last() == entry_view(settings@[i as int]));
        assert(cv[i as int] == opt_value_view(current@[i as int]));
        let ghost st0: ApplyRunState = (recs_view(existing@), pref_jobs_view(jobs@), None);
        let (ed, ek) = effective(settings[i].0.as_str(), settings[i].1.as_str());
        let is_global = crate::text::str_eq(ed.as_str(), "NSGlobalDomain");
        proof {
            reveal_strlit("NSGlobalDomain");
            assert("NSGlobalDomain"@ =~= global_domain());
        }
        if !no_dom_check && !is_global && !contains_string(known, &ed) {
            proof {
                assert(apply_settings(init, ev.take(i + 1), cv, kv, no_dom_check, bad_snapshot)
                    == apply_setting(st0, ev[i as int], cv[i as int], kv, no_dom_check, bad_snapshot));
                assert(apply_settings(init, ev.take(i + 1), cv, kv, no_dom_check, bad_snapshot).2 == Some(ed@));
                lemma_apply_stopped(init, ev, cv, kv, no_dom_check, bad_snapshot, i + 1, settings.len() as int);
                assert(ev.take(settings.len() as int) =~= ev);
                assert(apply_settings(init, ev, cv, kv, no_dom_check, bad_snapshot).2 == Some(ed@));
            }
            return Err(ApplyCmdError::DomainNotFound(ed));
        }
        let value = &settings[i].2;
        let unchanged = match &current[i] {
            Some(c) => c.same_value(value),
            None => false,
        };
        if !unchanged {
            let ghost ex0 = recs_view(existing@);
            let ghost jb0 = pref_jobs_view(jobs@);
            match find_rec(&existing, &ed, &ek) {
                Some(j) => {
                    proof {
                        lemma_rec_index(ex0, ed@, ek@);
                    }
                    let old = existing.remove(j);
                    assert(recs_view(existing@) =~= ex0.remove(j as int));
                    let original = if bad_snapshot { None } else { old.original_value };
                    let job = PreferenceJob { domain: ed, key: ek, value: value.duplicate(), action: "Updating", original };
                    proof {
                        reveal_strlit("Updating");
                    }
                    let ghost jv = pref_job_view(job);
                    jobs.push(job);
                    assert(pref_jobs_view(jobs@) =~= jb0.push(jv));
                },
                None => {
                    let original = if bad_snapshot { None } else { copy_opt_value(&current[i]) };
                    let job = PreferenceJob { domain: ed, key: ek, value: value.duplicate(), action: "Applying", original };
                    proof {
                        reveal_strlit("Applying");
                    }
                    let ghost jv = pref_job_view(job);
                    jobs.push(job);
                    assert(pref_jobs_view(jobs@) =~= jb0.push(jv));
                },
            }
        }
        i = i + 1;
    }
    assert(ev.take(settings.len() as int) =~= ev);
    let ghost ex = recs_view(existing@);
    let ghost jb = pref_jobs_view(jobs@);
    let mut out = existing;
    let mut k: usize = 0;
    while k < jobs.len()
        invariant
            k <= jobs.len(),
            jb == pref_jobs_view(jobs@),
            recs_view(out@) =~= ex + jb.take(k as int).map_values(|j: PrefJobView| job_record(j)),
        decreases jobs.len() - k,
    {
        let ghost before = recs_view(out@);
        let j = &jobs[k];
        let rec = RecordedSetting { domain: j.domain.clone(), key: j.key.clone(), original_value: copy_opt_value(&j.original) };
        assert(rec_view(rec) == job_record(jb[k as int]));
        out.push(rec);
        assert(recs_view(out@) =~= before.push(rec_view(rec)));
        assert(jb.take(k + 1).map_values(|j: PrefJobView| job_record(j)) =~= jb.take(k as int).map_values(|j: PrefJobView| job_record(j)).push(job_record(jb[k as int])));
        k = k + 1;
    }
    assert(jb.take(jobs.len() as int) =~= jb);
    Ok(ApplyRun { jobs, settings: out })
}


/// Applying a configuration the system already holds does nothing: when
/// every configured value is the one the system reads, and no domain is
/// missing, there is no job and the snapshot keeps its records.
pub proof fn law_apply_in_sync_writes_nothing(
    snapshot: Seq<RecView>,
    entries: Seq<SettingEntryView>,
    current: Seq<Option<ValueView>>,
    known: Seq<Seq<char>>,
    no_dom_check: bool,
    bad_snapshot: bool,
)
    requires
        current.len() == entries.len(),
        forall|i: int| 0 <= i < entries.len() ==> current[i] == Some((#[trigger] entries[i]).2),
        apply_settings((rec_table(snapshot), Seq::empty(), None), entries, current, known, no_dom_check, bad_snapshot).2 is None,
    ensures
        apply_settings((rec_table(snapshot), Seq::empty(), None), entries, current, known, no_dom_check, bad_snapshot)
            == (rec_table(snapshot), Seq::<PrefJobView>::empty(), None::<Seq<char>>),
{
    lemma_apply_prefix_in_sync(snapshot, entries, current, known, no_dom_check, bad_snapshot);
}

proof fn lemma_apply_prefix_in_sync(
    snapshot: Seq<RecView>,
    entries: Seq<SettingEntryView>,
    current: Seq<Option<ValueView>>,
    known: Seq<Seq<char>>,
    no_dom_check: bool,
    bad_snapshot: bool,
)
    requires
        current.len() >= entries.len(),
        forall|i: int| 0 <= i < entries.len() ==> current[i] == Some((#[trigger] entries[i]).2),
        apply_settings((rec_table(snapshot), Seq::empty(), None), entries, current, known, no_dom_check, bad_snapshot).2 is None,
    ensures
        apply_settings((rec_table(snapshot), Seq::empty(), None), entries, current, known, no_dom_check, bad_snapshot)
            == (rec_table(snapshot), Seq::<PrefJobView>::empty(), None::<Seq<char>>),
    decreases entries.len(),
{
    if entries.len() > 0 {
        let es = entries.drop_last();
        assert forall|i: int| 0 <= i < es.len() implies current[i] == Some((#[trigger] es[i]).2) by {
            assert(es[i] == entries[i]);
        }
        let s0 = apply_settings((rec_table(snapshot), Seq::empty(), None), es, current, known, no_dom_check, bad_snapshot);
        if s0.2 is Some {
            assert(apply_setting(s0, entries.last(), current[entries.len() - 1], known, no_dom_check, bad_snapshot) == s0);
        }
        lemma_apply_prefix_in_sync(snapshot, es, current, known, no_dom_check, bad_snapshot);
        assert(current[entries.len() - 1] == Some(entries[entries.len() - 1].2));
    }
}


/// No two records share a domain and key.
pub open spec fn unique_recs(m: Seq<RecView>) -> bool {
    forall|a: int, b: int| 0 <= a < b < m.len() ==> !(#[trigger] m[a].0 == #[trigger] m[b].0 && m[a].1 == m[b].1)
}

proof fn lemma_rec_table_unique(s: Seq<RecView>)
    ensures
        unique_recs(rec_table(s)),
    decreases s.len(),
{
    if s.len() > 0 {
        let m = rec_table(s.drop_last());
        let r = s.last();
        lemma_rec_table_unique(s.drop_last());
        lemma_rec_index(m, r.0, r.1);
        let t = rec_table(s);
        match rec_index(m, r.0, r.1) {
            Some(i) => {
                assert forall|a: int, b: int| 0 <= a < b < t.len() implies !(#[trigger] t[a].0 == #[trigger] t[b].0 && t[a].1 == t[b].1) by {
                    assert(t[a].0 == m[a].0 && t[a].1 == m[a].1);
                    assert(t[b].0 == m[b].0 && t[b].1 == m[b].1);
                }
            },
            None => {
                assert forall|a: int, b: int| 0 <= a < b < t.len() implies !(#[trigger] t[a].0 == #[trigger] t[b].0 && t[a].1 == t[b].1) by {
                    if b < m.len() {
                        assert(t[a] == m[a] && t[b] == m[b]);
                    } else {
                        assert(t[a] == m[a] && t[b] == r);
                    }
                }
            },
        }
    }
}

/// In a table without repeated keys, a record is found by its own key.
proof fn lemma_unique_index(m: Seq<RecView>, x: RecView)
    requires
        unique_recs(m),
        m.contains(x),
    ensures
        rec_index(m, x.0, x.1) matches Some(t) && m[t] == x,
{
    let j = choose|j: int| 0 <= j < m.len() && m[j] == x;
    lemma_rec_index(m, x.0, x.1);
    match rec_index(m, x.0, x.1) {
        Some(t) => {
            if t < j {
                assert(m[t].0 == m[j].0 && m[t].1 == m[j].1);
            } else if t > j {
                assert(!(m[j].0 == x.0 && m[j].1 == x.1));
            }
        },
        None => {
            assert(!(m[j].0 == x.0 && m[j].1 == x.1));
        },
    }
}

/// What applying keeps true: the records not yet rewritten are records of
/// the snapshot, and each updating job keeps its snapshot record's original.
pub open spec fn keeps_originals(table: Seq<RecView>, st: ApplyRunState, bad_snapshot: bool) -> bool {
    &&& forall|a: int| 0 <= a < st.0.len() ==> table.contains(#[trigger] st.0[a])
    &&& forall|k: int| 0 <= k < st.1.len() && (#[trigger] st.1[k]).3 == "Updating"@ ==>
        (rec_index(table, st.1[k].0, st.1[k].1) matches Some(t) && st.1[k].4 == (if bad_snapshot { None } else { table[t].2 }))
}

proof fn lemma_apply_keeps_originals(
    table: Seq<RecView>,
    entries: Seq<SettingEntryView>,
    current: Seq<Option<ValueView>>,
    known: Seq<Seq<char>>,
    no_dom_check: bool,
    bad_snapshot: bool,
)
    requires
        unique_recs(table),
    ensures
        keeps_originals(table, apply_settings((table, Seq::empty(), None), entries, current, known, no_dom_check, bad_snapshot), bad_snapshot),
    decreases entries.len(),
{
    if entries.len() == 0 {
        assert forall|a: int| 0 <= a < table.len() implies table.contains(#[trigger] table[a]) by {}
    } else {
        lemma_apply_keeps_originals(table, entries.drop_last(), current, known, no_dom_check, bad_snapshot);
        let s0 = apply_settings((table, Seq::empty(), None), entries.drop_last(), current, known, no_dom_check, bad_snapshot);
        let e = entries.last();
        let c = current[entries.len() - 1];
        let s1 = apply_setting(s0, e, c, known, no_dom_check, bad_snapshot);
        assert(s1 == apply_settings((table, Seq::empty(), None), entries, current, known, no_dom_check, bad_snapshot));
        let (ed, ek) = effective_pair(e.0, e.1);
        if s0.2 is None && !(!no_dom_check && ed != global_domain() && !known.contains(ed)) && c != Some(e.2) {
            lemma_rec_index(s0.0, ed, ek);
            reveal_strlit("Updating");
            reveal_strlit("Applying");
            match rec_index(s0.0, ed, ek) {
                Some(i) => {
                    assert(table.contains(s0.0[i]));
                    lemma_unique_index(table, s0.0[i]);
                    assert forall|a: int| 0 <= a < s1.0.len() implies table.contains(#[trigger] s1.0[a]) by {
                        if a < i {
                            assert(s1.0[a] == s0.0[a]);
                        } else {
                            assert(s1.0[a] == s0.0[a + 1]);
                        }
                    }
                    assert forall|k: int| 0 <= k < s1.1.len() && (#[trigger] s1.1[k]).3 == "Updating"@ implies
                        (rec_index(table, s1.1[k].0, s1.1[k].1) matches Some(t) && s1.1[k].4 == (if bad_snapshot { None } else { table[t].2 })) by {
                        if k < s0.1.len() {
                            assert(s1.1[k] == s0.1[k]);
                        }
                    }
                },
                None => {
                    assert("Applying"@ != "Updating"@) by {
                        assert("Applying"@[0] != "Updating"@[0]);
                    }
                    assert forall|k: int| 0 <= k < s1.1.len() && (#[trigger] s1.1[k]).3 == "Updating"@ implies
                        (rec_index(table, s1.1[k].0, s1.1[k].1) matches Some(t) && s1.1[k].4 == (if bad_snapshot { None } else { table[t].2 })) by {
                        if k < s0.1.len() {
                            assert(s1.1[k] == s0.1[k]);
                        }
                    }
                },
            }
        }
    }
}

/// Applying keeps the originals the snapshot recorded: every updating job,
/// one for a setting the snapshot already records, restores the original
/// value of that record (none when the snapshot could not be read), whatever
/// the system currently holds; and so does the record the new snapshot
/// keeps for it.
pub proof fn law_apply_keeps_snapshot_originals(
    snapshot: Seq<RecView>,
    entries: Seq<SettingEntryView>,
    current: Seq<Option<ValueView>>,
    known: Seq<Seq<char>>,
    no_dom_check: bool,
    bad_snapshot: bool,
)
    ensures
        ({
            let table = rec_table(snapshot);
            let jobs = apply_settings((table, Seq::empty(), None), entries, current, known, no_dom_check, bad_snapshot).1;
            forall|k: int| 0 <= k < jobs.len() && (#[trigger] jobs[k]).3 == "Updating"@ ==>
                (rec_index(table, jobs[k].0, jobs[k].1) matches Some(t)
                && jobs[k].4 == (if bad_snapshot { None } else { table[t].2 })
                && job_record(jobs[k]) == (table[t].0, table[t].1, if bad_snapshot { None } else { table[t].2 }))
        }),
{
    lemma_rec_table_unique(snapshot);
    lemma_apply_keeps_originals(rec_table(snapshot), entries, current, known, no_dom_check, bad_snapshot);
    let table = rec_table(snapshot);
    let jobs = apply_settings((table, Seq::empty(), None), entries, current, known, no_dom_check, bad_snapshot).1;
    assert forall|k: int| 0 <= k < jobs.len() && (#[trigger] jobs[k]).3 == "Updating"@ implies
        (rec_index(table, jobs[k].0, jobs[k].1) matches Some(t)
        && jobs[k].4 == (if bad_snapshot { None } else { table[t].2 })
        && job_record(jobs[k]) == (table[t].0, table[t].1, if bad_snapshot { None } else { table[t].2 })) by {
        lemma_rec_index(table, jobs[k].0, jobs[k].1);
    }
}


/// The state after the first `n` settings.
pub open spec fn applied_prefix(table: Seq<RecView>, entries: Seq<SettingEntryView>, current: Seq<Option<ValueView>>, known: Seq<Seq<char>>, no_dom_check: bool, bad_snapshot: bool, n: int) -> ApplyRunState {
    apply_settings((table, Seq::empty(), None), entries.take(n), current, known, no_dom_check, bad_snapshot)
}

proof fn lemma_prefix_step(table: Seq<RecView>, entries: Seq<SettingEntryView>, current: Seq<Option<ValueView>>, known: Seq<Seq<char>>, no_dom_check: bool, bad_snapshot: bool, n: int)
    requires
        0 <= n < entries.len(),
    ensures
        applied_prefix(table, entries, current, known, no_dom_check, bad_snapshot, n + 1)
            == apply_setting(applied_prefix(table, entries, current, known, no_dom_check, bad_snapshot, n), entries[n], current[n], known, no_dom_check, bad_snapshot),
{
    assert(entries.take(n + 1).drop_last() =~= entries.take(n));
    assert(entries.take(n + 1).last() == entries[n]);
}

/// Jobs are only ever added at the end.
proof fn lemma_jobs_grow(table: Seq<RecView>, entries: Seq<SettingEntryView>, current: Seq<Option<ValueView>>, known: Seq<Seq<char>>, no_dom_check: bool, bad_snapshot: bool, n: int, m: int)
    requires
        0 <= n <= m <= entries.len(),
    ensures
        ({
            let a = applied_prefix(table, entries, current, known, no_dom_check, bad_snapshot, n).1;
            let b = applied_prefix(table, entries, current, known, no_dom_check, bad_snapshot, m).1;
            a.len() <= b.len() && b.take(a.len() as int) == a
        }),
    decreases m - n,
{
    if m > n {
        lemma_jobs_grow(table, entries, current, known, no_dom_check, bad_snapshot, n, m - 1);
        lemma_prefix_step(table, entries, current, known, no_dom_check, bad_snapshot, m - 1);
        let a = applied_prefix(table, entries, current, known, no_dom_check, bad_snapshot, n).1;
        let b0 = applied_prefix(table, entries, current, known, no_dom_check, bad_snapshot, m - 1).1;
        let b = applied_prefix(table, entries, current, known, no_dom_check, bad_snapshot, m).1;
        assert(b.len() >= b0.len());
        assert(b.take(b0.len() as int) =~= b0);
        assert(b.take(a.len() as int) =~= b0.take(a.len() as int));
    } else {
        let a = applied_prefix(table, entries, current, known, no_dom_check, bad_snapshot, n).1;
        assert(a.take(a.len() as int) =~= a);
    }
}

/// A record of the table whose domain and key none of the first `n`
/// settings writes is still among the records not yet rewritten.
proof fn lemma_untouched_kept(table: Seq<RecView>, entries: Seq<SettingEntryView>, current: Seq<Option<ValueView>>, known: Seq<Seq<char>>, no_dom_check: bool, bad_snapshot: bool, n: int, a: int)
    requires
        0 <= n <= entries.len(),
        0 <= a < table.len(),
        forall|j: int| 0 <= j < n ==> #[trigger] effective_pair(entries[j].0, entries[j].1) != (table[a].0, table[a].1),
    ensures
        applied_prefix(table, entries, current, known, no_dom_check, bad_snapshot, n).0.contains(table[a]),
    decreases n,
{
    if n == 0 {
        assert(entries.take(0) =~= Seq::<SettingEntryView>::empty());
        assert(table[a] == table[a]);
    } else {
        lemma_untouched_kept(table, entries, current, known, no_dom_check, bad_snapshot, n - 1, a);
        lemma_prefix_step(table, entries, current, known, no_dom_check, bad_snapshot, n - 1);
        let s0 = applied_prefix(table, entries, current, known, no_dom_check, bad_snapshot, n - 1);
        let s1 = applied_prefix(table, entries, current, known, no_dom_check, bad_snapshot, n);
        let e = entries[n - 1];
        let (ed, ek) = effective_pair(e.0, e.1);
        assert(effective_pair(entries[n - 1].0, entries[n - 1].1) != (table[a].0, table[a].1));
        let q = choose|q: int| 0 <= q < s0.0.len() && s0.0[q] == table[a];
        if s1.0 != s0.0 {
            lemma_rec_index(s0.0, ed, ek);
            let i = rec_index(s0.0, ed, ek)->0;
            assert(s1.0 == s0.0.remove(i));
            assert(q != i);
            if q < i {
                assert(s1.0[q] == table[a]);
            } else {
                assert(s1.0[q - 1] == table[a]);
            }
        }
    }
}

/// Each configured setting that differs from what the system holds gets its
/// job, as the first setting that writes its domain and key: an updating job
/// that restores the original the snapshot recorded for it, where there is
/// one, else an applying job that restores the value the system held (none
/// when the snapshot could not be read). Whatever the system holds, the
/// snapshot's original of a recorded setting is what unapplying restores.
pub proof fn law_apply_job_of_setting(
    snapshot: Seq<RecView>,
    entries: Seq<SettingEntryView>,
    current: Seq<Option<ValueView>>,
    known: Seq<Seq<char>>,
    no_dom_check: bool,
    bad_snapshot: bool,
    i: int,
)
    requires
        current.len() == entries.len(),
        0 <= i < entries.len(),
        forall|j: int| 0 <= j < i ==> #[trigger] effective_pair(entries[j].0, entries[j].1) != effective_pair(entries[i].0, entries[i].1),
        current[i] != Some(entries[i].2),
        apply_settings((rec_table(snapshot), Seq::empty(), None), entries, current, known, no_dom_check, bad_snapshot).2 is None,
    ensures
        ({
            let table = rec_table(snapshot);
            let (ed, ek) = effective_pair(entries[i].0, entries[i].1);
            let jobs = apply_settings((table, Seq::empty(), None), entries, current, known, no_dom_check, bad_snapshot).1;
            jobs.contains(match rec_index(table, ed, ek) {
                Some(t) => (ed, ek, entries[i].2, "Updating"@, if bad_snapshot { None } else { table[t].2 }),
                None => (ed, ek, entries[i].2, "Applying"@, if bad_snapshot { None } else { current[i] }),
            })
        }),
{
    let table = rec_table(snapshot);
    let n = entries.len() as int;
    let (ed, ek) = effective_pair(entries[i].0, entries[i].1);
    assert(entries.take(n) =~= entries);
    lemma_rec_table_unique(snapshot);
    let s0 = applied_prefix(table, entries, current, known, no_dom_check, bad_snapshot, i);
    let s1 = applied_prefix(table, entries, current, known, no_dom_check, bad_snapshot, i + 1);
    lemma_prefix_step(table, entries, current, known, no_dom_check, bad_snapshot, i);
    if s0.2 is Some {
        lemma_apply_stopped((table, Seq::empty(), None), entries, current, known, no_dom_check, bad_snapshot, i, n);
        assert(false);
    }
    if s1.2 is Some {
        lemma_apply_stopped((table, Seq::empty(), None), entries, current, known, no_dom_check, bad_snapshot, i + 1, n);
        assert(false);
    }
    lemma_apply_keeps_originals(table, entries.take(i), current, known, no_dom_check, bad_snapshot);
    lemma_rec_index(s0.0, ed, ek);
    lemma_rec_index(table, ed, ek);
    let job = match rec_index(table, ed, ek) {
        Some(t) => (ed, ek, entries[i].2, "Updating"@, if bad_snapshot { None } else { table[t].2 }),
        None => (ed, ek, entries[i].2, "Applying"@, if bad_snapshot { None } else { current[i] }),
    };
    match rec_index(table, ed, ek) {
        Some(t) => {
            assert forall|j: int| 0 <= j < i implies #[trigger] effective_pair(entries[j].0, entries[j].1) != (table[t].0, table[t].1) by {}
            lemma_untouched_kept(table, entries, current, known, no_dom_check, bad_snapshot, i, t);
            match rec_index(s0.0, ed, ek) {
                Some(p) => {
                    assert(table.contains(s0.0[p]));
                    lemma_unique_index(table, s0.0[p]);
                    assert(s0.0[p] == table[t]);
                },
                None => {
                    let q = choose|q: int| 0 <= q < s0.0.len() && s0.0[q] == table[t];
                    assert(!(s0.0[q].0 == ed && s0.0[q].1 == ek));
                    assert(false);
                },
            }
        },
        None => {
            if let Some(p) = rec_index(s0.0, ed, ek) {
                assert(table.contains(s0.0[p]));
                let q = choose|q: int| 0 <= q < table.len() && table[q] == s0.0[p];
                assert(!(table[q].0 == ed && table[q].1 == ek));
                assert(false);
            }
        },
    }
    assert(s1.1 == s0.1.push(job));
    lemma_jobs_grow(table, entries, current, known, no_dom_check, bad_snapshot, i + 1, n);
    let fin = applied_prefix(table, entries, current, known, no_dom_check, bad_snapshot, n).1;
    assert(fin.take(s1.1.len() as int) == s1.1);
    assert(fin[s0.1.len() as int] == s1.1[s0.1.len() as int]);
    assert(fin[s0.1.len() as int] == job);
}

} // verus!
