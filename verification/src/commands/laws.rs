//! What applying a configuration keeps and guarantees, over all inputs.
use vstd::prelude::*;
use crate::commands::{
    apply_entry, apply_group, apply_groups, currents_view, plan_view, undo_of, undo_plan, undos_view, ApplyPlan, ApplyState, UndoStep, UndoView,
};
use crate::domains::{groups_view, Group};
use crate::snapshot::{settings_view, SettingState};
use crate::defaults::flags::flag_for_text;
use crate::defaults::flags::normalized;
use crate::domains::{effective_domain_and_key, global_domain, GroupView};
use crate::snapshot::{index_of, lemma_index_of, merged, unique_settings, lemma_merged_unique, upsert, SettingView};
use crate::text::is_prefix;
use crate::value::ValueView;

verus! {

proof fn lemma_index_update(m: Seq<SettingView>, i: int, s: SettingView, d: Seq<char>, k: Seq<char>)
    requires
        0 <= i < m.len(),
        m[i].0 == s.0 && m[i].1 == s.1,
    ensures
        index_of(m.update(i, s), d, k) == index_of(m, d, k),
{
    let m2 = m.update(i, s);
    lemma_index_of(m, d, k);
    lemma_index_of(m2, d, k);
    assert forall|j: int| 0 <= j < m.len() implies (#[trigger] m2[j]).0 == m[j].0 && m2[j].1 == m[j].1 by {}
    match index_of(m, d, k) {
        Some(a) => {
            match index_of(m2, d, k) {
                Some(b) => {
                    if a < b {
                        assert(m2[a].0 == d && m2[a].1 == k);
                    } else if b < a {
                        assert(m[b].0 == d && m[b].1 == k);
                    }
                },
                None => {
                    assert(m2[a].0 == d && m2[a].1 == k);
                },
            }
        },
        None => {
            if let Some(b) = index_of(m2, d, k) {
                assert(m[b].0 == d && m[b].1 == k);
            }
        },
    }
}

proof fn lemma_index_push(m: Seq<SettingView>, s: SettingView, d: Seq<char>, k: Seq<char>)
    ensures
        index_of(m.push(s), d, k) == match index_of(m, d, k) {
            Some(i) => Some(i),
            None => if s.0 == d && s.1 == k { Some(m.len() as int) } else { None },
        },
{
    assert(m.push(s).drop_last() =~= m);
}

/// A failed state stays as it is.
proof fn lemma_group_failed(st: ApplyState, d: Seq<char>, entries: Seq<(Seq<char>, ValueView)>, c: Seq<Option<Seq<char>>>)
    requires
        st.2 is Some,
    ensures
        apply_group(st, d, entries, c) == st,
    decreases entries.len(),
{
    if entries.len() > 0 {
        lemma_group_failed(st, d, entries.drop_last(), c);
    }
}

/// The setting of `d` and `k` holds original value `o`.
pub open spec fn holds_original(m: Seq<SettingView>, d: Seq<char>, k: Seq<char>, o: Option<Seq<char>>) -> bool {
    index_of(m, d, k) matches Some(t) && m[t].2 == o
}

proof fn lemma_entry_keeps_original(st: ApplyState, dom: Seq<char>, e: (Seq<char>, ValueView), c: Option<Seq<char>>, d: Seq<char>, k: Seq<char>, o: Option<Seq<char>>)
    requires
        holds_original(st.0, d, k, o),
    ensures
        holds_original(apply_entry(st, dom, e, c).0, d, k, o),
{
    if st.2 is None {
        let (ed, ek) = effective_domain_and_key(dom, e.0);
        lemma_index_of(st.0, ed, ek);
        lemma_index_of(st.0, d, k);
        match index_of(st.0, ed, ek) {
            Some(i) => {
                lemma_index_update(st.0, i, (ed, ek, st.0[i].2, normalized(e.1)), d, k);
            },
            None => {
                lemma_index_push(st.0, (ed, ek, c, normalized(e.1)), d, k);
            },
        }
    }
}

proof fn lemma_group_keeps_original(st: ApplyState, dom: Seq<char>, entries: Seq<(Seq<char>, ValueView)>, c: Seq<Option<Seq<char>>>, d: Seq<char>, k: Seq<char>, o: Option<Seq<char>>)
    requires
        holds_original(st.0, d, k, o),
    ensures
        holds_original(apply_group(st, dom, entries, c).0, d, k, o),
    decreases entries.len(),
{
    if entries.len() > 0 {
        lemma_group_keeps_original(st, dom, entries.drop_last(), c, d, k, o);
        lemma_entry_keeps_original(apply_group(st, dom, entries.drop_last(), c), dom, entries.last(), c[entries.len() - 1], d, k, o);
    }
}

proof fn lemma_groups_keep_original(st: ApplyState, groups: Seq<GroupView>, present: Seq<bool>, c: Seq<Seq<Option<Seq<char>>>>, d: Seq<char>, k: Seq<char>, o: Option<Seq<char>>)
    requires
        holds_original(st.0, d, k, o),
    ensures
        holds_original(apply_groups(st, groups, present, c).0, d, k, o),
    decreases groups.len(),
{
    if groups.len() > 0 {
        lemma_groups_keep_original(st, groups.drop_last(), present, c, d, k, o);
        let s0 = apply_groups(st, groups.drop_last(), present, c);
        let i = groups.len() - 1;
        lemma_group_keeps_original(s0, groups[i].0, groups[i].1, c[i], d, k, o);
    }
}

/// Applying never loses what a setting was before cutler first applied it:
/// every setting of the snapshot keeps its original value, whatever the
/// configuration holds and whatever the system reads.
pub proof fn law_apply_keeps_originals(
    snapshot: Seq<SettingView>,
    groups: Seq<GroupView>,
    present: Seq<bool>,
    currents: Seq<Seq<Option<Seq<char>>>>,
    domain: Seq<char>,
    key: Seq<char>,
)
    requires
        index_of(merged(snapshot), domain, key) is Some,
    ensures
        ({
            let m = merged(snapshot);
            let r = apply_groups((m, Seq::empty(), None), groups, present, currents);
            holds_original(r.0, domain, key, m[index_of(m, domain, key)->0].2)
        }),
{
    let m = merged(snapshot);
    lemma_index_of(m, domain, key);
    lemma_groups_keep_original((m, Seq::empty(), None), groups, present, currents, domain, key, m[index_of(m, domain, key)->0].2);
}

/// The `defaults` domain and key that entry `j` of domain `i` writes.
pub open spec fn target(groups: Seq<GroupView>, i: int, j: int) -> (Seq<char>, Seq<char>) {
    effective_domain_and_key(groups[i].0, groups[i].1[j].0)
}

/// No two settings of the configuration write the same domain and key.
pub open spec fn distinct_targets(groups: Seq<GroupView>) -> bool {
    forall|i1: int, j1: int, i2: int, j2: int|
        0 <= i1 < groups.len() && 0 <= j1 < groups[i1].1.len() && 0 <= i2 < groups.len() && 0 <= j2 < groups[i2].1.len() && (i1 != i2 || j1 != j2)
        ==> #[trigger] target(groups, i1, j1) != #[trigger] target(groups, i2, j2)
}

/// The setting of entry `e` of `dom` is in the snapshot with its configured value.
pub open spec fn recorded(m: Seq<SettingView>, dom: Seq<char>, e: (Seq<char>, ValueView)) -> bool {
    let (ed, ek) = effective_domain_and_key(dom, e.0);
    index_of(m, ed, ek) matches Some(t) && m[t].3 == normalized(e.1)
}

proof fn lemma_entry_records(st: ApplyState, dom: Seq<char>, e: (Seq<char>, ValueView), c: Option<Seq<char>>)
    requires
        st.2 is None,
        apply_entry(st, dom, e, c).2 is None,
    ensures
        recorded(apply_entry(st, dom, e, c).0, dom, e),
{
    let (ed, ek) = effective_domain_and_key(dom, e.0);
    lemma_index_of(st.0, ed, ek);
    match index_of(st.0, ed, ek) {
        Some(i) => {
            lemma_index_update(st.0, i, (ed, ek, st.0[i].2, normalized(e.1)), ed, ek);
        },
        None => {
            lemma_index_push(st.0, (ed, ek, c, normalized(e.1)), ed, ek);
        },
    }
}

proof fn lemma_entry_keeps_record(st: ApplyState, dom: Seq<char>, e: (Seq<char>, ValueView), c: Option<Seq<char>>, dom2: Seq<char>, e2: (Seq<char>, ValueView))
    requires
        recorded(st.0, dom2, e2),
        effective_domain_and_key(dom, e.0) != effective_domain_and_key(dom2, e2.0),
    ensures
        recorded(apply_entry(st, dom, e, c).0, dom2, e2),
{
    if st.2 is None {
        let (ed, ek) = effective_domain_and_key(dom, e.0);
        let (d2, k2) = effective_domain_and_key(dom2, e2.0);
        lemma_index_of(st.0, ed, ek);
        lemma_index_of(st.0, d2, k2);
        match index_of(st.0, ed, ek) {
            Some(i) => {
                lemma_index_update(st.0, i, (ed, ek, st.0[i].2, normalized(e.1)), d2, k2);
            },
            None => {
                lemma_index_push(st.0, (ed, ek, c, normalized(e.1)), d2, k2);
            },
        }
    }
}

/// After applying the entries of a domain without failure, each of them is
/// recorded, and so is anything recorded before that none of them writes.
proof fn lemma_group_records(st: ApplyState, groups: Seq<GroupView>, gi: int, n: int, c: Seq<Option<Seq<char>>>)
    requires
        0 <= gi < groups.len(),
        0 <= n <= groups[gi].1.len(),
        distinct_targets(groups),
        st.2 is None,
        apply_group(st, groups[gi].0, groups[gi].1.take(n), c).2 is None,
    ensures
        ({
            let r = apply_group(st, groups[gi].0, groups[gi].1.take(n), c);
            &&& forall|j: int| 0 <= j < n ==> #[trigger] recorded(r.0, groups[gi].0, groups[gi].1[j])
            &&& forall|i2: int, j2: int| 0 <= i2 < groups.len() && 0 <= j2 < groups[i2].1.len() && i2 != gi
                && #[trigger] recorded(st.0, groups[i2].0, groups[i2].1[j2]) ==> recorded(r.0, groups[i2].0, groups[i2].1[j2])
        }),
    decreases n,
{
    let dom = groups[gi].0;
    let es = groups[gi].1.take(n);
    let r = apply_group(st, dom, es, c);
    if n > 0 {
        assert(es.drop_last() =~= groups[gi].1.take(n - 1));
        let r0 = apply_group(st, dom, groups[gi].1.take(n - 1), c);
        if r0.2 is Some {
            assert(false);
        }
        lemma_group_records(st, groups, gi, n - 1, c);
        let e = groups[gi].1[n - 1];
        assert(es.last() == e);
        lemma_entry_records(r0, dom, e, c[n - 1]);
        assert forall|j: int| 0 <= j < n implies #[trigger] recorded(r.0, dom, groups[gi].1[j]) by {
            if j < n - 1 {
                assert(recorded(r0.0, dom, groups[gi].1[j]));
                assert(target(groups, gi, j) != target(groups, gi, n - 1));
                lemma_entry_keeps_record(r0, dom, e, c[n - 1], dom, groups[gi].1[j]);
            }
        }
        assert forall|i2: int, j2: int| 0 <= i2 < groups.len() && 0 <= j2 < groups[i2].1.len() && i2 != gi
            && #[trigger] recorded(st.0, groups[i2].0, groups[i2].1[j2]) implies recorded(r.0, groups[i2].0, groups[i2].1[j2]) by {
            assert(recorded(r0.0, groups[i2].0, groups[i2].1[j2]));
            assert(target(groups, gi, n - 1) != target(groups, i2, j2));
            lemma_entry_keeps_record(r0, dom, e, c[n - 1], groups[i2].0, groups[i2].1[j2]);
        }
    }
}

/// After applying the first `n` domains without failure, every entry of
/// them is recorded, and every domain needing a prefix was present.
proof fn lemma_groups_record(st: ApplyState, groups: Seq<GroupView>, n: int, present: Seq<bool>, c: Seq<Seq<Option<Seq<char>>>>)
    requires
        0 <= n <= groups.len(),
        distinct_targets(groups),
        st.2 is None,
        apply_groups(st, groups.take(n), present, c).2 is None,
    ensures
        ({
            let r = apply_groups(st, groups.take(n), present, c);
            &&& forall|i: int, j: int| 0 <= i < n && 0 <= j < groups[i].1.len() ==> #[trigger] recorded(r.0, groups[i].0, groups[i].1[j])
            &&& forall|i: int| 0 <= i < n ==> is_prefix(global_domain(), #[trigger] groups[i].0) || present[i]
        }),
    decreases n,
{
    if n > 0 {
        let gs = groups.take(n);
        assert(gs.drop_last() =~= groups.take(n - 1));
        let s0 = apply_groups(st, groups.take(n - 1), present, c);
        let i = n - 1;
        assert(gs[i] == groups[i]);
        if s0.2 is Some {
            assert(false);
        }
        lemma_groups_record(st, groups, n - 1, present, c);
        let r = apply_groups(st, gs, present, c);
        assert(is_prefix(global_domain(), groups[i].0) || present[i]);
        assert(r == apply_group(s0, groups[i].0, groups[i].1, c[i]));
        assert(groups[i].1.take(groups[i].1.len() as int) =~= groups[i].1);
        lemma_group_records(s0, groups, i, groups[i].1.len() as int, c[i]);
        assert forall|a: int, j: int| 0 <= a < n && 0 <= j < groups[a].1.len() implies #[trigger] recorded(r.0, groups[a].0, groups[a].1[j]) by {
            if a < n - 1 {
                assert(recorded(s0.0, groups[a].0, groups[a].1[j]));
            }
        }
    }
}

proof fn lemma_group_stable(st: ApplyState, dom: Seq<char>, entries: Seq<(Seq<char>, ValueView)>, c: Seq<Option<Seq<char>>>)
    requires
        forall|j: int| 0 <= j < entries.len() ==> #[trigger] recorded(st.0, dom, entries[j]),
    ensures
        apply_group(st, dom, entries, c) == st,
    decreases entries.len(),
{
    if entries.len() > 0 {
        let es = entries.drop_last();
        assert forall|j: int| 0 <= j < es.len() implies #[trigger] recorded(st.0, dom, es[j]) by {
            assert(es[j] == entries[j]);
        }
        lemma_group_stable(st, dom, es, c);
        assert(recorded(st.0, dom, entries[entries.len() - 1]));
    }
}

proof fn lemma_groups_stable(st: ApplyState, groups: Seq<GroupView>, present: Seq<bool>, c: Seq<Seq<Option<Seq<char>>>>)
    requires
        st.2 is None,
        forall|i: int, j: int| 0 <= i < groups.len() && 0 <= j < groups[i].1.len() ==> #[trigger] recorded(st.0, groups[i].0, groups[i].1[j]),
        forall|i: int| 0 <= i < groups.len() ==> is_prefix(global_domain(), #[trigger] groups[i].0) || present[i],
    ensures
        apply_groups(st, groups, present, c) == st,
    decreases groups.len(),
{
    if groups.len() > 0 {
        let gs = groups.drop_last();
        assert forall|i: int, j: int| 0 <= i < gs.len() && 0 <= j < gs[i].1.len() implies #[trigger] recorded(st.0, gs[i].0, gs[i].1[j]) by {
            assert(gs[i] == groups[i]);
        }
        assert forall|i: int| 0 <= i < gs.len() implies is_prefix(global_domain(), #[trigger] gs[i].0) || present[i] by {
            assert(gs[i] == groups[i]);
        }
        lemma_groups_stable(st, gs, present, c);
        let i = groups.len() - 1;
        assert(is_prefix(global_domain(), groups[i].0) || present[i]);
        assert forall|j: int| 0 <= j < groups[i].1.len() implies #[trigger] recorded(st.0, groups[i].0, groups[i].1[j]) by {}
        lemma_group_stable(st, groups[i].0, groups[i].1, c[i]);
    }
}

proof fn lemma_entry_unique(st: ApplyState, dom: Seq<char>, e: (Seq<char>, ValueView), c: Option<Seq<char>>)
    requires
        unique_settings(st.0),
    ensures
        unique_settings(apply_entry(st, dom, e, c).0),
{
    if st.2 is None {
        let (ed, ek) = effective_domain_and_key(dom, e.0);
        lemma_index_of(st.0, ed, ek);
        let r = apply_entry(st, dom, e, c);
        match index_of(st.0, ed, ek) {
            Some(i) => {
                assert forall|a: int, b: int| 0 <= a < b < r.0.len() implies !(#[trigger] r.0[a].0 == #[trigger] r.0[b].0 && r.0[a].1 == r.0[b].1) by {
                    assert(r.0[a].0 == st.0[a].0 && r.0[a].1 == st.0[a].1);
                    assert(r.0[b].0 == st.0[b].0 && r.0[b].1 == st.0[b].1);
                }
            },
            None => {
                assert forall|a: int, b: int| 0 <= a < b < r.0.len() implies !(#[trigger] r.0[a].0 == #[trigger] r.0[b].0 && r.0[a].1 == r.0[b].1) by {
                    if b < st.0.len() {
                        assert(r.0[a] == st.0[a] && r.0[b] == st.0[b]);
                    } else {
                        assert(r.0[a] == st.0[a]);
                    }
                }
            },
        }
    }
}

proof fn lemma_groups_unique(st: ApplyState, groups: Seq<GroupView>, present: Seq<bool>, c: Seq<Seq<Option<Seq<char>>>>)
    requires
        unique_settings(st.0),
    ensures
        unique_settings(apply_groups(st, groups, present, c).0),
    decreases groups.len(),
{
    if groups.len() > 0 {
        lemma_groups_unique(st, groups.drop_last(), present, c);
        let s0 = apply_groups(st, groups.drop_last(), present, c);
        let i = groups.len() - 1;
        lemma_group_unique(s0, groups[i].0, groups[i].1, c[i]);
    }
}

proof fn lemma_group_unique(st: ApplyState, dom: Seq<char>, entries: Seq<(Seq<char>, ValueView)>, c: Seq<Option<Seq<char>>>)
    requires
        unique_settings(st.0),
    ensures
        unique_settings(apply_group(st, dom, entries, c).0),
    decreases entries.len(),
{
    if entries.len() > 0 {
        lemma_group_unique(st, dom, entries.drop_last(), c);
        lemma_entry_unique(apply_group(st, dom, entries.drop_last(), c), dom, entries.last(), c[entries.len() - 1]);
    }
}

proof fn lemma_merged_of_unique(m: Seq<SettingView>)
    requires
        unique_settings(m),
    ensures
        merged(m) == m,
    decreases m.len(),
{
    if m.len() > 0 {
        let t = m.drop_last();
        assert(unique_settings(t));
        lemma_merged_of_unique(t);
        lemma_index_of(t, m.last().0, m.last().1);
        if let Some(i) = index_of(t, m.last().0, m.last().1) {
            assert(m[i] == t[i]);
            assert(false);
        }
        assert(t.push(m.last()) =~= m);
    }
}

/// Applying is idempotent: once a configuration whose settings write
/// distinct domains and keys applied without error, applying it again over
/// the snapshot that was saved writes nothing and leaves that snapshot as
/// it is, whatever the system holds by then.
pub proof fn law_reapply_writes_nothing(
    snapshot: Seq<SettingView>,
    groups: Seq<GroupView>,
    present: Seq<bool>,
    first: Seq<Seq<Option<Seq<char>>>>,
    second: Seq<Seq<Option<Seq<char>>>>,
)
    requires
        distinct_targets(groups),
        apply_groups((merged(snapshot), Seq::empty(), None), groups, present, first).2 is None,
    ensures
        ({
            let saved = apply_groups((merged(snapshot), Seq::empty(), None), groups, present, first).0;
            apply_groups((merged(saved), Seq::empty(), None), groups, present, second) == (saved, Seq::<crate::commands::WriteView>::empty(), Option::<crate::commands::FailureView>::None)
        }),
{
    let st: ApplyState = (merged(snapshot), Seq::empty(), None);
    assert(groups.take(groups.len() as int) =~= groups);
    lemma_groups_record(st, groups, groups.len() as int, present, first);
    let saved = apply_groups(st, groups, present, first).0;
    lemma_merged_unique(snapshot);
    lemma_groups_unique(st, groups, present, first);
    lemma_merged_of_unique(saved);
    lemma_groups_stable((saved, Seq::empty(), None), groups, present, second);
}


/// An entry for another domain and key leaves `d` and `k` unrecorded.
proof fn lemma_entry_absent(st: ApplyState, dom: Seq<char>, e: (Seq<char>, ValueView), c: Option<Seq<char>>, d: Seq<char>, k: Seq<char>)
    requires
        index_of(st.0, d, k) is None,
        effective_domain_and_key(dom, e.0) != (d, k),
    ensures
        index_of(apply_entry(st, dom, e, c).0, d, k) is None,
{
    if st.2 is None {
        let (ed, ek) = effective_domain_and_key(dom, e.0);
        lemma_index_of(st.0, ed, ek);
        match index_of(st.0, ed, ek) {
            Some(i) => {
                lemma_index_update(st.0, i, (ed, ek, st.0[i].2, normalized(e.1)), d, k);
            },
            None => {
                lemma_index_push(st.0, (ed, ek, c, normalized(e.1)), d, k);
            },
        }
    }
}

proof fn lemma_group_absent(st: ApplyState, dom: Seq<char>, entries: Seq<(Seq<char>, ValueView)>, c: Seq<Option<Seq<char>>>, d: Seq<char>, k: Seq<char>)
    requires
        index_of(st.0, d, k) is None,
        forall|j: int| 0 <= j < entries.len() ==> effective_domain_and_key(dom, (#[trigger] entries[j]).0) != (d, k),
    ensures
        index_of(apply_group(st, dom, entries, c).0, d, k) is None,
    decreases entries.len(),
{
    if entries.len() > 0 {
        let es = entries.drop_last();
        assert forall|j: int| 0 <= j < es.len() implies effective_domain_and_key(dom, (#[trigger] es[j]).0) != (d, k) by {
            assert(es[j] == entries[j]);
        }
        lemma_group_absent(st, dom, es, c, d, k);
        assert(effective_domain_and_key(dom, entries[entries.len() - 1].0) != (d, k));
        lemma_entry_absent(apply_group(st, dom, es, c), dom, entries.last(), c[entries.len() - 1], d, k);
    }
}

proof fn lemma_groups_absent(st: ApplyState, groups: Seq<GroupView>, n: int, present: Seq<bool>, c: Seq<Seq<Option<Seq<char>>>>, d: Seq<char>, k: Seq<char>)
    requires
        0 <= n <= groups.len(),
        index_of(st.0, d, k) is None,
        forall|i: int, j: int| 0 <= i < n && 0 <= j < groups[i].1.len() ==> #[trigger] target(groups, i, j) != (d, k),
    ensures
        index_of(apply_groups(st, groups.take(n), present, c).0, d, k) is None,
    decreases n,
{
    if n > 0 {
        let gs = groups.take(n);
        assert(gs.drop_last() =~= groups.take(n - 1));
        lemma_groups_absent(st, groups, n - 1, present, c, d, k);
        let s0 = apply_groups(st, groups.take(n - 1), present, c);
        let i = n - 1;
        assert(gs[i] == groups[i]);
        assert forall|j: int| 0 <= j < groups[i].1.len() implies effective_domain_and_key(groups[i].0, (#[trigger] groups[i].1[j]).0) != (d, k) by {
            assert(target(groups, i, j) != (d, k));
        }
        lemma_group_absent(s0, groups[i].0, groups[i].1, c[i], d, k);
    }
}

/// A failed state stays failed through the rest of a domain's entries.
proof fn lemma_group_failure_sticks(st: ApplyState, dom: Seq<char>, entries: Seq<(Seq<char>, ValueView)>, c: Seq<Option<Seq<char>>>)
    requires
        apply_group(st, dom, entries, c).2 is None,
    ensures
        st.2 is None,
    decreases entries.len(),
{
    if entries.len() > 0 {
        let s0 = apply_group(st, dom, entries.drop_last(), c);
        if s0.2 is Some {
            assert(apply_entry(s0, dom, entries.last(), c[entries.len() - 1]) == s0);
        }
        lemma_group_failure_sticks(st, dom, entries.drop_last(), c);
    }
}

/// The first entry that writes `d` and `k`, onto a state where they are not
/// recorded, records the value `defaults read` gave as their original; later
/// entries writing them keep it.
proof fn lemma_group_first(st: ApplyState, dom: Seq<char>, entries: Seq<(Seq<char>, ValueView)>, c: Seq<Option<Seq<char>>>, gj: int, d: Seq<char>, k: Seq<char>)
    requires
        0 <= gj < entries.len(),
        index_of(st.0, d, k) is None,
        effective_domain_and_key(dom, entries[gj].0) == (d, k),
        forall|j: int| 0 <= j < gj ==> effective_domain_and_key(dom, (#[trigger] entries[j]).0) != (d, k),
        apply_group(st, dom, entries, c).2 is None,
    ensures
        holds_original(apply_group(st, dom, entries, c).0, d, k, c[gj]),
    decreases entries.len(),
{
    let n = entries.len();
    let es = entries.drop_last();
    let s0 = apply_group(st, dom, es, c);
    if s0.2 is Some {
        assert(apply_entry(s0, dom, entries.last(), c[n - 1]) == s0);
    }
    if gj == n - 1 {
        assert forall|j: int| 0 <= j < es.len() implies effective_domain_and_key(dom, (#[trigger] es[j]).0) != (d, k) by {
            assert(es[j] == entries[j]);
        }
        lemma_group_absent(st, dom, es, c, d, k);
        lemma_index_push(s0.0, (d, k, c[n - 1], normalized(entries[n - 1].1)), d, k);
    } else {
        assert forall|j: int| 0 <= j < gj implies effective_domain_and_key(dom, (#[trigger] es[j]).0) != (d, k) by {
            assert(es[j] == entries[j]);
        }
        assert(es[gj] == entries[gj]);
        lemma_group_first(st, dom, es, c, gj, d, k);
        lemma_entry_keeps_original(s0, dom, entries.last(), c[n - 1], d, k, c[gj]);
    }
}

/// Entry `j` of domain `i` is the first entry of the configuration that
/// writes its domain and key.
pub open spec fn writes_first(groups: Seq<GroupView>, i: int, j: int) -> bool {
    forall|a: int, b: int| 0 <= a < groups.len() && 0 <= b < groups[a].1.len() && (a < i || (a == i && b < j))
        ==> #[trigger] target(groups, a, b) != target(groups, i, j)
}

/// The position of the first entry of `dom` that writes `d` and `k`.
pub open spec fn first_entry(dom: Seq<char>, entries: Seq<(Seq<char>, ValueView)>, d: Seq<char>, k: Seq<char>) -> Option<int>
    decreases entries.len(),
{
    if entries.len() == 0 {
        None
    } else {
        match first_entry(dom, entries.drop_last(), d, k) {
            Some(j) => Some(j),
            None => if effective_domain_and_key(dom, entries.last().0) == (d, k) { Some(entries.len() - 1) } else { None },
        }
    }
}

/// The domain and entry positions of the first entry of the configuration
/// that writes `d` and `k`.
pub open spec fn first_writer(groups: Seq<GroupView>, d: Seq<char>, k: Seq<char>) -> Option<(int, int)>
    decreases groups.len(),
{
    if groups.len() == 0 {
        None
    } else {
        match first_writer(groups.drop_last(), d, k) {
            Some(p) => Some(p),
            None => match first_entry(groups.last().0, groups.last().1, d, k) {
                Some(j) => Some((groups.len() - 1, j)),
                None => None,
            },
        }
    }
}

proof fn lemma_first_entry(dom: Seq<char>, entries: Seq<(Seq<char>, ValueView)>, d: Seq<char>, k: Seq<char>)
    ensures
        first_entry(dom, entries, d, k) matches Some(j) ==> 0 <= j < entries.len()
            && effective_domain_and_key(dom, entries[j].0) == (d, k)
            && forall|b: int| 0 <= b < j ==> effective_domain_and_key(dom, (#[trigger] entries[b]).0) != (d, k),
        first_entry(dom, entries, d, k) is None ==> forall|b: int| 0 <= b < entries.len() ==> effective_domain_and_key(dom, (#[trigger] entries[b]).0) != (d, k),
    decreases entries.len(),
{
    if entries.len() > 0 {
        let es = entries.drop_last();
        lemma_first_entry(dom, es, d, k);
        let n = entries.len() - 1;
        match first_entry(dom, es, d, k) {
            Some(j) => {
                assert(es[j] == entries[j]);
                assert forall|b: int| 0 <= b < j implies effective_domain_and_key(dom, (#[trigger] entries[b]).0) != (d, k) by {
                    assert(es[b] == entries[b]);
                }
            },
            None => {
                assert forall|b: int| 0 <= b < n implies effective_domain_and_key(dom, (#[trigger] entries[b]).0) != (d, k) by {
                    assert(es[b] == entries[b]);
                }
                assert(entries.last() == entries[n]);
            },
        }
    }
}

proof fn lemma_first_writer(groups: Seq<GroupView>, d: Seq<char>, k: Seq<char>)
    ensures
        first_writer(groups, d, k) matches Some(p) ==> 0 <= p.0 < groups.len() && 0 <= p.1 < groups[p.0].1.len()
            && target(groups, p.0, p.1) == (d, k) && writes_first(groups, p.0, p.1),
        first_writer(groups, d, k) is None ==> forall|a: int, b: int| 0 <= a < groups.len() && 0 <= b < groups[a].1.len()
            ==> #[trigger] target(groups, a, b) != (d, k),
    decreases groups.len(),
{
    if groups.len() > 0 {
        let gs = groups.drop_last();
        let n = groups.len() - 1;
        lemma_first_writer(gs, d, k);
        assert forall|a: int| 0 <= a < gs.len() implies #[trigger] gs[a] == groups[a] by {}
        assert forall|a: int, b: int| 0 <= a < gs.len() && 0 <= b < gs[a].1.len() implies #[trigger] target(gs, a, b) == target(groups, a, b) by {
            assert(gs[a] == groups[a]);
        }
        lemma_first_entry(groups[n].0, groups[n].1, d, k);
        assert(groups.last() == groups[n]);
        match first_writer(gs, d, k) {
            Some(p) => {
                assert(target(gs, p.0, p.1) == target(groups, p.0, p.1));
                assert forall|a: int, b: int| 0 <= a < groups.len() && 0 <= b < groups[a].1.len() && (a < p.0 || (a == p.0 && b < p.1))
                    implies #[trigger] target(groups, a, b) != target(groups, p.0, p.1) by {
                    assert(target(gs, a, b) == target(groups, a, b));
                    assert(target(gs, a, b) != target(gs, p.0, p.1));
                }
            },
            None => {
                assert forall|a: int, b: int| 0 <= a < groups.len() && 0 <= b < groups[a].1.len() && a < n
                    implies #[trigger] target(groups, a, b) != (d, k) by {
                    assert(target(gs, a, b) == target(groups, a, b));
                }
                assert forall|b: int| 0 <= b < groups[n].1.len() implies #[trigger] target(groups, n, b) == effective_domain_and_key(groups[n].0, groups[n].1[b].0) by {}
            },
        }
    }
}

proof fn lemma_groups_first(st: ApplyState, groups: Seq<GroupView>, n: int, present: Seq<bool>, c: Seq<Seq<Option<Seq<char>>>>, gi: int, gj: int)
    requires
        0 <= gi < n <= groups.len(),
        0 <= gj < groups[gi].1.len(),
        writes_first(groups, gi, gj),
        index_of(st.0, target(groups, gi, gj).0, target(groups, gi, gj).1) is None,
        apply_groups(st, groups.take(n), present, c).2 is None,
    ensures
        holds_original(apply_groups(st, groups.take(n), present, c).0, target(groups, gi, gj).0, target(groups, gi, gj).1, c[gi][gj]),
    decreases n,
{
    let (d, k) = target(groups, gi, gj);
    let gs = groups.take(n);
    assert(gs.drop_last() =~= groups.take(n - 1));
    let s0 = apply_groups(st, groups.take(n - 1), present, c);
    let i = n - 1;
    assert(gs[i] == groups[i]);
    if s0.2 is Some {
        assert(apply_groups(st, gs, present, c) == s0);
        assert(false);
    }
    if !is_prefix(global_domain(), groups[i].0) && !present[i] {
        assert(false);
    }
    let r = apply_group(s0, groups[i].0, groups[i].1, c[i]);
    assert(apply_groups(st, gs, present, c) == r);
    if gi == i {
        assert forall|a: int, j: int| 0 <= a < n - 1 && 0 <= j < groups[a].1.len() implies #[trigger] target(groups, a, j) != (d, k) by {
            assert(target(groups, a, j) != target(groups, gi, gj));
        }
        lemma_groups_absent(st, groups, n - 1, present, c, d, k);
        assert forall|j: int| 0 <= j < gj implies effective_domain_and_key(groups[i].0, (#[trigger] groups[i].1[j]).0) != (d, k) by {
            assert(target(groups, i, j) != target(groups, gi, gj));
        }
        lemma_group_first(s0, groups[i].0, groups[i].1, c[i], gj, d, k);
    } else {
        lemma_groups_first(st, groups, n - 1, present, c, gi, gj);
        lemma_group_keeps_original(s0, groups[i].0, groups[i].1, c[i], d, k, c[gi][gj]);
    }
}

/// What unapplying a configured setting does, given the original value
/// recorded for it.
pub open spec fn restoring(d: Seq<char>, k: Seq<char>, o: Option<Seq<char>>) -> UndoView {
    match o {
        Some(v) => UndoView::Restore(d, k, flag_for_text(v), v),
        None => UndoView::Remove(d, k),
    }
}

/// Unapplying undoes applying: after a configuration applied without
/// error, unapplying the snapshot that was saved returns each configured
/// setting to what it was before cutler first applied it. A setting the old
/// snapshot already recorded goes back to the original value recorded
/// there; any other goes back to the value `defaults read` gave during this
/// apply for the first entry that writes it, or is deleted if it was not
/// set.
pub proof fn law_unapply_restores(
    snapshot: Seq<SettingView>,
    groups: Seq<GroupView>,
    present: Seq<bool>,
    currents: Seq<Seq<Option<Seq<char>>>>,
    i: int,
    j: int,
)
    requires
        0 <= i < groups.len(),
        0 <= j < groups[i].1.len(),
        apply_groups((merged(snapshot), Seq::empty(), None), groups, present, currents).2 is None,
    ensures
        ({
            let m = merged(snapshot);
            let saved = apply_groups((m, Seq::empty(), None), groups, present, currents).0;
            let (d, k) = target(groups, i, j);
            let first = first_writer(groups, d, k)->0;
            let before = match index_of(m, d, k) {
                Some(t) => m[t].2,
                None => currents[first.0][first.1],
            };
            undo_plan(saved).contains(restoring(d, k, before))
        }),
{
    let m = merged(snapshot);
    let st: ApplyState = (m, Seq::empty(), None);
    let (d, k) = target(groups, i, j);
    lemma_first_writer(groups, d, k);
    assert(first_writer(groups, d, k) is Some) by {
        if first_writer(groups, d, k) is None {
            assert(target(groups, i, j) != (d, k));
        }
    }
    let first = first_writer(groups, d, k)->0;
    let before = match index_of(m, d, k) {
        Some(t) => m[t].2,
        None => currents[first.0][first.1],
    };
    assert(groups.take(groups.len() as int) =~= groups);
    match index_of(m, d, k) {
        Some(t) => {
            law_apply_keeps_originals(snapshot, groups, present, currents, d, k);
        },
        None => {
            lemma_groups_first(st, groups, groups.len() as int, present, currents, first.0, first.1);
        },
    }
    let saved = apply_groups(st, groups, present, currents).0;
    lemma_index_of(saved, d, k);
    let t = index_of(saved, d, k)->0;
    let p = saved.len() - 1 - t;
    assert(undo_plan(saved)[p] == undo_of(saved[t]));
    assert(undo_of(saved[t]) == restoring(d, k, before));
}


/// The same law for the functions that run it: when
/// [`apply_defaults`](crate::commands::apply_defaults) gives a plan without
/// error, and
/// [`unapply_defaults`](crate::commands::unapply_defaults) is run on the
/// settings that plan saves, its steps put each configured setting back:
/// to the original the earlier snapshot recorded, else to what `defaults
/// read` gave for the first entry that writes it, or delete it where that
/// was nothing.
pub proof fn law_unapply_defaults_after_apply_defaults(
    snapshot: Seq<SettingState>,
    domains: Seq<Group>,
    present: Seq<bool>,
    current: Seq<Vec<Option<String>>>,
    plan: ApplyPlan,
    undo: Seq<UndoStep>,
    i: int,
    j: int,
)
    requires
        plan_view(plan) == apply_groups((merged(settings_view(snapshot)), Seq::empty(), None), groups_view(domains), present, currents_view(current)),
        plan.error is None,
        undos_view(undo) == undo_plan(settings_view(plan.settings@)),
        0 <= i < domains.len(),
        0 <= j < domains[i].1.len(),
    ensures
        ({
            let groups = groups_view(domains);
            let m = merged(settings_view(snapshot));
            let (d, k) = target(groups, i, j);
            let first = first_writer(groups, d, k)->0;
            let before = match index_of(m, d, k) {
                Some(t) => m[t].2,
                None => currents_view(current)[first.0][first.1],
            };
            undos_view(undo).contains(restoring(d, k, before))
        }),
{
    let groups = groups_view(domains);
    assert(groups[i].1.len() == domains[i].1.len()) by {
        crate::value::lemma_entries_view(domains[i].1@);
    }
    law_unapply_restores(settings_view(snapshot), groups, present, currents_view(current), i, j);
}

} // verus!
