//! What the commands decide: which settings to write, restore or delete,
//! and what the snapshot records.
use vstd::prelude::*;
use crate::defaults::flags::{flag_for_text, flag_of, from_flag, normalized, normalize, to_flag};
use crate::defaults::{defaults_step_ok, DefaultsStep};
use crate::domains::{
    apple_prefix, effective_domain_and_key, get_effective_domain_and_key, global_domain, groups_view,
    needs_prefix, opt_view, Group, GroupView,
};
use crate::snapshot::{
    find_setting, index_of, lemma_index_of, merge_settings, merged, setting_view, settings_view,
    upsert_setting, SettingState, SettingView, Snapshot,
};
use crate::text::{concat_all, is_prefix, join_strs, string_of, push_str_chars};
use crate::value::{entries_view, lemma_entries_view, value_view, ConfigValue, ValueView};

pub mod apply;
pub mod brew;
pub mod completion;
pub mod config;
pub mod exec;
pub mod fetch;
pub mod mas;
pub mod laws;
pub mod status;
pub mod unapply;
pub mod update;

verus! {

/// A `defaults write` that applying the configuration performs.
pub struct SettingWrite {
    pub domain: String,
    pub key: String,
    pub flag: &'static str,
    pub value: String,
    /// `Applying` for a setting new to the snapshot, `Updating` otherwise.
    pub action: &'static str,
}

/// A write by content: domain, key, flag, value, action.
pub type WriteView = (Seq<char>, Seq<char>, Seq<char>, Seq<char>, Seq<char>);

pub open spec fn write_view(w: SettingWrite) -> WriteView {
    (w.domain@, w.key@, w.flag@, w.value@, w.action@)
}

pub open spec fn writes_view(s: Seq<SettingWrite>) -> Seq<WriteView> {
    s.map_values(|w: SettingWrite| write_view(w))
}

/// Why applying stopped.
pub enum ApplyError {
    /// The `com.apple.` domain of a configured domain does not exist.
    DomainMissing(String),
    /// A value that needs writing has no `defaults` type (domain, key).
    UnsupportedValue(String, String),
}

/// [`ApplyError`] by content.
pub enum FailureView {
    DomainMissing(Seq<char>),
    UnsupportedValue(Seq<char>, Seq<char>),
}

pub open spec fn error_view(e: ApplyError) -> FailureView {
    match e {
        ApplyError::DomainMissing(d) => FailureView::DomainMissing(d@),
        ApplyError::UnsupportedValue(d, k) => FailureView::UnsupportedValue(d@, k@),
    }
}

pub open spec fn opt_error_view(e: Option<ApplyError>) -> Option<FailureView> {
    match e {
        Some(x) => Some(error_view(x)),
        None => None,
    }
}

/// The outcome of applying a configuration: the writes to perform, in
/// order, and the settings to record in the snapshot. When applying
/// stopped, `error` says why; the writes are those made before it, and the
/// snapshot is not saved.
pub struct ApplyPlan {
    pub writes: Vec<SettingWrite>,
    pub settings: Vec<SettingState>,
    pub error: Option<ApplyError>,
}

/// Settings, writes so far, and the failure that stopped applying.
pub type ApplyState = (Seq<SettingView>, Seq<WriteView>, Option<FailureView>);

pub open spec fn plan_view(p: ApplyPlan) -> ApplyState {
    (settings_view(p.settings@), writes_view(p.writes@), opt_error_view(p.error))
}

pub open spec fn updating() -> Seq<char> {
    "Updating"@
}

pub open spec fn applying() -> Seq<char> {
    "Applying"@
}

/// Applying one setting of a configured domain, with the value `current`
/// that `defaults read` gave for it.
///
/// A setting already in the snapshot is written again only when the
/// configured value changed, and keeps its original value. A new setting is
/// written unless the system already holds the value; either way it enters
/// the snapshot with the current value as its original.
pub open spec fn apply_entry(st: ApplyState, domain: Seq<char>, e: (Seq<char>, ValueView), current: Option<Seq<char>>) -> ApplyState {
    if st.2 is Some {
        st
    } else {
        let (ed, ek) = effective_domain_and_key(domain, e.0);
        let desired = normalized(e.1);
        match index_of(st.0, ed, ek) {
            Some(i) => if st.0[i].3 != desired {
                match flag_of(e.1) {
                    None => (st.0, st.1, Some(FailureView::UnsupportedValue(ed, ek))),
                    Some(fv) => (st.0.update(i, (ed, ek, st.0[i].2, desired)), st.1.push((ed, ek, fv.0, fv.1, updating())), None),
                }
            } else {
                st
            },
            None => if current == Some(desired) {
                (st.0.push((ed, ek, current, desired)), st.1, None)
            } else {
                match flag_of(e.1) {
                    None => (st.0, st.1, Some(FailureView::UnsupportedValue(ed, ek))),
                    Some(fv) => (st.0.push((ed, ek, current, desired)), st.1.push((ed, ek, fv.0, fv.1, applying())), None),
                }
            },
        }
    }
}

/// Applying the settings of one domain, in order.
pub open spec fn apply_group(st: ApplyState, domain: Seq<char>, entries: Seq<(Seq<char>, ValueView)>, currents: Seq<Option<Seq<char>>>) -> ApplyState
    decreases entries.len(),
{
    if entries.len() == 0 {
        st
    } else {
        apply_entry(
            apply_group(st, domain, entries.drop_last(), currents),
            domain,
            entries.last(),
            currents[entries.len() - 1],
        )
    }
}

/// Applying the domains in order; a domain that needs the `com.apple.`
/// prefix must exist (`present`), or applying stops there.
pub open spec fn apply_groups(st: ApplyState, groups: Seq<GroupView>, present: Seq<bool>, currents: Seq<Seq<Option<Seq<char>>>>) -> ApplyState
    decreases groups.len(),
{
    if groups.len() == 0 {
        st
    } else {
        let s0 = apply_groups(st, groups.drop_last(), present, currents);
        let i = groups.len() - 1;
        let g = groups[i];
        if s0.2 is Some {
            s0
        } else if !is_prefix(global_domain(), g.0) && !present[i] {
            (s0.0, s0.1, Some(FailureView::DomainMissing(apple_prefix() + g.0)))
        } else {
            apply_group(s0, g.0, g.1, currents[i])
        }
    }
}

pub open spec fn opt_strings_view(s: Seq<Option<String>>) -> Seq<Option<Seq<char>>> {
    s.map_values(|o: Option<String>| opt_view(o))
}

pub open spec fn currents_view(c: Seq<Vec<Option<String>>>) -> Seq<Seq<Option<Seq<char>>>> {
    c.map_values(|v: Vec<Option<String>>| opt_strings_view(v@))
}

fn updating_str() -> (r: &'static str)
    ensures
        r@ == updating(),
{
    "Updating"
}

fn applying_str() -> (r: &'static str)
    ensures
        r@ == applying(),
{
    "Applying"
}

fn copy_opt(o: &Option<String>) -> (r: Option<String>)
    ensures
        opt_view(r) == opt_view(*o),
{
    match o {
        Some(s) => Some(s.clone()),
        None => None,
    }
}

/// One step of [`apply_entry`], on a state that has not failed.
fn apply_one(
    settings: &mut Vec<SettingState>,
    writes: &mut Vec<SettingWrite>,
    domain: &String,
    key: &String,
    value: &ConfigValue,
    current: &Option<String>,
) -> (r: Option<ApplyError>)
    ensures
        (settings_view(final(settings)@), writes_view(final(writes)@), opt_error_view(r)) == apply_entry(
            (settings_view(old(settings)@), writes_view(old(writes)@), None),
            domain@,
            (key@, value_view(*value)),
            opt_view(*current),
        ),
{
    let ghost sv0 = settings_view(settings@);
    let ghost wv0 = writes_view(writes@);
    let (ed, ek) = get_effective_domain_and_key(domain.as_str(), key.as_str());
    let desired = normalize(value);
    proof {
        lemma_index_of(sv0, ed@, ek@);
    }
    match find_setting(settings, &ed, &ek) {
        Some(i) => {
            if settings[i].new_value != desired {
                match to_flag(value) {
                    Err(_) => Some(ApplyError::UnsupportedValue(ed, ek)),
                    Ok((flag, text)) => {
                        let orig = copy_opt(&settings[i].original_value);
                        let ghost s_new = (ed@, ek@, opt_view(orig), desired@);
                        let ghost w_new = (ed@, ek@, flag@, text@, updating());
                        let st = SettingState { domain: ed.clone(), key: ek.clone(), original_value: orig, new_value: desired };
                        settings.set(i, st);
                        writes.push(SettingWrite { domain: ed, key: ek, flag, value: text, action: updating_str() });
                        assert(settings_view(settings@) =~= sv0.update(i as int, s_new));
                        assert(writes_view(writes@) =~= wv0.push(w_new));
                        None
                    },
                }
            } else {
                None
            }
        },
        None => {
            let same = match current {
                Some(c) => *c == desired,
                None => false,
            };
            if same {
                let ghost s_new = (ed@, ek@, opt_view(*current), desired@);
                settings.push(SettingState { domain: ed, key: ek, original_value: copy_opt(current), new_value: desired });
                assert(settings_view(settings@) =~= sv0.push(s_new));
                None
            } else {
                match to_flag(value) {
                    Err(_) => Some(ApplyError::UnsupportedValue(ed, ek)),
                    Ok((flag, text)) => {
                        let ghost s_new = (ed@, ek@, opt_view(*current), desired@);
                        let ghost w_new = (ed@, ek@, flag@, text@, applying());
                        settings.push(SettingState { domain: ed.clone(), key: ek.clone(), original_value: copy_opt(current), new_value: desired });
                        writes.push(SettingWrite { domain: ed, key: ek, flag, value: text, action: applying_str() });
                        assert(settings_view(settings@) =~= sv0.push(s_new));
                        assert(writes_view(writes@) =~= wv0.push(w_new));
                        None
                    },
                }
            }
        },
    }
}

/// Applies settings from the configuration.
///
/// `domains` are the collected domains of the configuration; `snapshot`
/// the settings of the existing snapshot; `present[i]` whether the
/// `com.apple.` domain of `domains[i]` exists; `current[i][j]` what
/// `defaults read` gives for the `j`-th setting of `domains[i]`. The result
/// holds the writes to make and the snapshot's new settings.
pub fn apply_defaults(
    domains: &Vec<Group>,
    snapshot: &Vec<SettingState>,
    present: &Vec<bool>,
    current: &Vec<Vec<Option<String>>>,
) -> (r: ApplyPlan)
    requires
        present.len() == domains.len(),
        current.len() == domains.len(),
        forall|i: int| 0 <= i < domains.len() ==> #[trigger] current@[i].len() == domains@[i].1.len(),
    ensures
        plan_view(r) == apply_groups(
            (merged(settings_view(snapshot@)), Seq::empty(), None),
            groups_view(domains@),
            present@,
            currents_view(current@),
        ),
{
    let ghost gv = groups_view(domains@);
    let ghost cv = currents_view(current@);
    let ghost init: ApplyState = (merged(settings_view(snapshot@)), Seq::empty(), None);
    let mut settings = merge_settings(snapshot);
    let mut writes: Vec<SettingWrite> = Vec::new();
    let mut error: Option<ApplyError> = None;
    assert(writes_view(writes@) =~= Seq::empty());
    let mut i: usize = 0;
    while i < domains.len()
        invariant
            i <= domains.len(),
            present.len() == domains.len(),
            current.len() == domains.len(),
            forall|k: int| 0 <= k < domains.len() ==> #[trigger] current@[k].len() == domains@[k].1.len(),
            gv == groups_view(domains@),
            cv == currents_view(current@),
            (settings_view(settings@), writes_view(writes@), opt_error_view(error)) == apply_groups(init, gv.take(i as int), present@, cv),
        decreases domains.len() - i,
    {
        assert(gv.take(i + 1).drop_last() =~= gv.take(i as int));
        assert(gv[i as int] == crate::domains::group_view(domains@[i as int]));
        if error.is_none() {
            let d = &domains[i].0;
            if needs_prefix(d.as_str()) && !present[i] {
                let mut m: Vec<char> = crate::domains::apple_prefix_chars();
                push_str_chars(&mut m, d.as_str());
                error = Some(ApplyError::DomainMissing(string_of(&m)));
            } else {
                let entries = &domains[i].1;
                let curs = &current[i];
                let ghost ev = entries_view(entries@);
                let ghost c = cv[i as int];
                let ghost s0: ApplyState = (settings_view(settings@), writes_view(writes@), opt_error_view(error));
                proof {
                    lemma_entries_view(entries@);
                    assert(c =~= opt_strings_view(curs@));
                }
                let mut j: usize = 0;
                while j < entries.len()
                    invariant
                        j <= entries.len(),
                        curs.len() == entries.len(),
                        ev == entries_view(entries@),
                        ev.len() == entries@.len(),
                        forall|k: int| 0 <= k < entries@.len() ==> #[trigger] ev[k] == (entries@[k].0@, value_view(entries@[k].1)),
                        c == opt_strings_view(curs@),
                        (settings_view(settings@), writes_view(writes@), opt_error_view(error)) == apply_group(s0, d@, ev.take(j as int), c),
                    decreases entries.len() - j,
                {
                    assert(ev.take(j + 1).drop_last() =~= ev.take(j as int));
                    assert(ev.take(j + 1).last() == ev[j as int]);
                    assert(c[j as int] == opt_view(curs@[j as int]));
                    if error.is_none() {
                        error = apply_one(&mut settings, &mut writes, d, &entries[j].0, &entries[j].1, &curs[j]);
                    }
                    j = j + 1;
                }
                assert(ev.take(entries.len() as int) =~= ev);
            }
        }
        i = i + 1;
    }
    assert(gv.take(domains.len() as int) =~= gv);
    ApplyPlan { writes, settings, error }
}


/// The snapshot an apply saves: the settings of the apply's plan, and the
/// external commands of the configuration it applied.
pub fn applied_snapshot(plan: ApplyPlan, config: &ConfigValue) -> (r: Snapshot)
    ensures
        settings_view(r.settings@) == settings_view(plan.settings@),
        crate::external::externals_view(r.external_commands@) == crate::external::external_states(value_view(*config)),
{
    Snapshot { settings: plan.settings, external_commands: crate::external::extract_external_commands(config) }
}

/// What unapplying does to one recorded setting.
pub enum UndoStep {
    /// Write the original value back: domain, key, type flag, value.
    Restore(String, String, &'static str, String),
    /// Delete a setting that did not exist before: domain, key.
    Remove(String, String),
}

/// [`UndoStep`] by content.
pub enum UndoView {
    Restore(Seq<char>, Seq<char>, Seq<char>, Seq<char>),
    Remove(Seq<char>, Seq<char>),
}

pub open spec fn undo_view(u: UndoStep) -> UndoView {
    match u {
        UndoStep::Restore(d, k, f, v) => UndoView::Restore(d@, k@, f@, v@),
        UndoStep::Remove(d, k) => UndoView::Remove(d@, k@),
    }
}

pub open spec fn undos_view(s: Seq<UndoStep>) -> Seq<UndoView> {
    s.map_values(|u: UndoStep| undo_view(u))
}

/// A setting with an original value is written back with the flag its text
/// reads as; one without is deleted.
pub open spec fn undo_of(s: SettingView) -> UndoView {
    match s.2 {
        Some(o) => UndoView::Restore(s.0, s.1, flag_for_text(o), o),
        None => UndoView::Remove(s.0, s.1),
    }
}

/// The snapshot's settings undone in reverse order, last applied first.
pub open spec fn undo_plan(s: Seq<SettingView>) -> Seq<UndoView> {
    Seq::new(s.len(), |i: int| undo_of(s[s.len() - 1 - i]))
}

/// Unapplies settings using the stored snapshot: the steps that restore
/// each recorded setting, in reverse order.
pub fn unapply_defaults(settings: &Vec<SettingState>) -> (r: Vec<UndoStep>)
    ensures
        undos_view(r@) == undo_plan(settings_view(settings@)),
{
    let ghost sv = settings_view(settings@);
    let n = settings.len();
    let mut r: Vec<UndoStep> = Vec::new();
    let mut i: usize = n;
    while i > 0
        invariant
            i <= n,
            n == settings.len(),
            sv == settings_view(settings@),
            undos_view(r@) =~= undo_plan(sv).take((n - i) as int),
        decreases i,
    {
        i = i - 1;
        let s = &settings[i];
        assert(sv[i as int] == setting_view(*s));
        let step = match &s.original_value {
            Some(o) => match from_flag(o.as_str()) {
                Ok((flag, text)) => UndoStep::Restore(s.domain.clone(), s.key.clone(), flag, text),
                Err(_) => UndoStep::Remove(s.domain.clone(), s.key.clone()),
            },
            None => UndoStep::Remove(s.domain.clone(), s.key.clone()),
        };
        r.push(step);
        assert(undo_plan(sv).take((n - i) as int) =~= undo_plan(sv).take((n - i - 1) as int).push(undo_of(sv[i as int])));
    }
    r
}

/// The `defaults` step of an undo: a restore is a write, logged as
/// `Restoring`; a removal is a delete, logged as `Removing`.
pub fn undo_command(step: &UndoStep, verbose: bool, dry_run: bool) -> (r: DefaultsStep)
    ensures
        match undo_view(*step) {
            UndoView::Restore(d, k, f, v) => defaults_step_ok(r, "write"@, d, k, seq![f, v], "Restoring"@, verbose, dry_run),
            UndoView::Remove(d, k) => defaults_step_ok(r, "delete"@, d, k, Seq::empty(), "Removing"@, verbose, dry_run),
        },
{
    match step {
        UndoStep::Restore(d, k, f, v) => crate::defaults::executor::write(d.as_str(), k.as_str(), f, v.as_str(), "Restoring", verbose, dry_run),
        UndoStep::Remove(d, k) => crate::defaults::executor::delete(d.as_str(), k.as_str(), "Removing", verbose, dry_run),
    }
}

/// A configured setting: its domain and key as written in the
/// configuration, and its value.
pub type Setting = (String, String, ConfigValue);

pub type SettingEntryView = (Seq<char>, Seq<char>, ValueView);

pub open spec fn entry_view(e: Setting) -> SettingEntryView {
    (e.0@, e.1@, value_view(e.2))
}

pub open spec fn entries_flat_view(s: Seq<Setting>) -> Seq<SettingEntryView> {
    s.map_values(|e: Setting| entry_view(e))
}

/// The settings of the domains, domain after domain.
pub open spec fn flat_settings(groups: Seq<GroupView>) -> Seq<SettingEntryView>
    decreases groups.len(),
{
    if groups.len() == 0 {
        Seq::empty()
    } else {
        let g = groups.last();
        flat_settings(groups.drop_last()) + g.1.map_values(|e: (Seq<char>, ValueView)| (g.0, e.0, e.1))
    }
}

/// All settings of the collected domains as one list, in order.
pub fn flatten_settings(domains: &Vec<Group>) -> (r: Vec<Setting>)
    ensures
        entries_flat_view(r@) == flat_settings(groups_view(domains@)),
{
    let ghost gv = groups_view(domains@);
    let mut r: Vec<Setting> = Vec::new();
    let mut i: usize = 0;
    while i < domains.len()
        invariant
            i <= domains.len(),
            gv == groups_view(domains@),
            entries_flat_view(r@) =~= flat_settings(gv.take(i as int)),
        decreases domains.len() - i,
    {
        let d = &domains[i].0;
        let es = &domains[i].1;
        let ghost ev = entries_view(es@);
        let ghost base = entries_flat_view(r@);
        proof {
            lemma_entries_view(es@);
            assert(gv[i as int] == crate::domains::group_view(domains@[i as int]));
        }
        let mut j: usize = 0;
        while j < es.len()
            invariant
                j <= es.len(),
                ev == entries_view(es@),
                ev.len() == es@.len(),
                forall|k: int| 0 <= k < es@.len() ==> #[trigger] ev[k] == (es@[k].0@, value_view(es@[k].1)),
                entries_flat_view(r@) =~= base + ev.take(j as int).map_values(|e: (Seq<char>, ValueView)| (d@, e.0, e.1)),
            decreases es.len() - j,
        {
            let ghost r0 = r@;
            let item: Setting = (d.clone(), es[j].0.clone(), es[j].1.duplicate());
            assert(entry_view(item) == (d@, ev[j as int].0, ev[j as int].1));
            r.push(item);
            assert(r@ =~= r0.push(item));
            assert(entries_flat_view(r@) =~= entries_flat_view(r0).push(entry_view(item)));
            j = j + 1;
            assert(ev.take(j as int).map_values(|e: (Seq<char>, ValueView)| (d@, e.0, e.1)) =~= ev.take(j - 1).map_values(|e: (Seq<char>, ValueView)| (d@, e.0, e.1)).push((d@, ev[j - 1].0, ev[j - 1].1)));
        }
        assert(ev.take(es.len() as int) =~= ev);
        assert(gv.take(i + 1).drop_last() =~= gv.take(i as int));
        i = i + 1;
    }
    assert(gv.take(domains.len() as int) =~= gv);
    r
}

/// The effective domain and key of a configured setting.
pub open spec fn entry_target(e: SettingEntryView) -> (Seq<char>, Seq<char>) {
    effective_domain_and_key(e.0, e.1)
}

/// The settings a hard reset deletes: those whose key is currently set.
pub open spec fn reset_targets(s: Seq<SettingEntryView>, current: Seq<Option<Seq<char>>>) -> Seq<(Seq<char>, Seq<char>)>
    decreases s.len(),
{
    if s.len() == 0 {
        Seq::empty()
    } else {
        let rest = reset_targets(s.drop_last(), current);
        if current[s.len() - 1] is Some {
            rest.push(entry_target(s.last()))
        } else {
            rest
        }
    }
}

pub open spec fn pairs_view(s: Seq<(String, String)>) -> Seq<(Seq<char>, Seq<char>)> {
    s.map_values(|p: (String, String)| (p.0@, p.1@))
}

/// Hard resets the configured settings: the domain and key of each one
/// that `current` (what `defaults read` gave for it) shows as set, to be
/// deleted with the action `Resetting`.
pub fn reset_defaults(settings: &Vec<Setting>, current: &Vec<Option<String>>) -> (r: Vec<(String, String)>)
    requires
        current.len() == settings.len(),
    ensures
        pairs_view(r@) == reset_targets(entries_flat_view(settings@), opt_strings_view(current@)),
{
    let ghost sv = entries_flat_view(settings@);
    let ghost cv = opt_strings_view(current@);
    let mut r: Vec<(String, String)> = Vec::new();
    let mut i: usize = 0;
    while i < settings.len()
        invariant
            i <= settings.len(),
            current.len() == settings.len(),
            sv == entries_flat_view(settings@),
            cv == opt_strings_view(current@),
            pairs_view(r@) =~= reset_targets(sv.take(i as int), cv),
        decreases settings.len() - i,
    {
        assert(sv.take(i + 1).drop_last() =~= sv.take(i as int));
        assert(sv[i as int] == entry_view(settings@[i as int]));
        if current[i].is_some() {
            let t = get_effective_domain_and_key(settings[i].0.as_str(), settings[i].1.as_str());
            r.push(t);
        }
        i = i + 1;
    }
    assert(sv.take(settings.len() as int) =~= sv);
    r
}

/// What `status` finds for a setting: domain, key, desired text, current
/// text (`Not set` when `defaults read` gives nothing), and whether they differ.
pub type OutcomeView = (Seq<char>, Seq<char>, Seq<char>, Seq<char>, bool);

pub open spec fn not_set() -> Seq<char> {
    "Not set"@
}

pub open spec fn status_of(e: SettingEntryView, current: Option<Seq<char>>) -> OutcomeView {
    let (d, k) = entry_target(e);
    let desired = normalized(e.2);
    let cur = match current {
        Some(c) => c,
        None => not_set(),
    };
    (d, k, desired, cur, cur != desired)
}

/// The status of one configured setting.
pub struct StatusOutcome {
    pub domain: String,
    pub key: String,
    pub desired: String,
    pub current: String,
    pub differs: bool,
}

pub open spec fn outcome_view(o: StatusOutcome) -> OutcomeView {
    (o.domain@, o.key@, o.desired@, o.current@, o.differs)
}

pub open spec fn outcomes_view(s: Seq<StatusOutcome>) -> Seq<OutcomeView> {
    s.map_values(|o: StatusOutcome| outcome_view(o))
}

/// Compares the configured settings with what `defaults read` gave for each.
pub fn status_defaults(settings: &Vec<Setting>, current: &Vec<Option<String>>) -> (r: Vec<StatusOutcome>)
    requires
        current.len() == settings.len(),
    ensures
        r.len() == settings.len(),
        forall|i: int| 0 <= i < settings.len() ==> #[trigger] outcome_view(r@[i]) == status_of(entry_view(settings@[i]), opt_view(current@[i])),
{
    let mut r: Vec<StatusOutcome> = Vec::new();
    let mut i: usize = 0;
    while i < settings.len()
        invariant
            i <= settings.len(),
            current.len() == settings.len(),
            r.len() == i,
            forall|j: int| 0 <= j < i ==> #[trigger] outcome_view(r@[j]) == status_of(entry_view(settings@[j]), opt_view(current@[j])),
        decreases settings.len() - i,
    {
        let (d, k) = get_effective_domain_and_key(settings[i].0.as_str(), settings[i].1.as_str());
        let desired = normalize(&settings[i].2);
        let cur = match &current[i] {
            Some(c) => c.clone(),
            None => {
                let s = owned_not_set();
                s
            },
        };
        let differs = !crate::text::str_eq(cur.as_str(), desired.as_str());
        r.push(StatusOutcome { domain: d, key: k, desired, current: cur, differs });
        i = i + 1;
    }
    r
}

fn owned_not_set() -> (r: String)
    ensures
        r@ == not_set(),
{
    crate::text::owned("Not set")
}


/// Resets the configured settings to the system defaults.
pub struct ResetCmd;

/// Opens the cookbook.
pub struct CookbookCmd;

} // verus!
