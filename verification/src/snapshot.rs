//! The snapshot: what cutler applied, and what was there before.
use vstd::prelude::*;
use crate::domains::opt_view;

verus! {

/// One applied setting: the `defaults` domain and key, the value it had
/// before cutler first applied it (if it had one), and the value applied.
pub struct SettingState {
    pub domain: String,
    pub key: String,
    pub original_value: Option<String>,
    pub new_value: String,
}

/// An external command recorded in the snapshot.
pub struct ExternalCommandState {
    pub cmd: String,
    pub args: Vec<String>,
    pub sudo: bool,
}

/// The last-applied state.
pub struct Snapshot {
    pub settings: Vec<SettingState>,
    pub external_commands: Vec<ExternalCommandState>,
}

impl Snapshot {
    /// An empty snapshot.
    pub fn new() -> (r: Snapshot)
        ensures
            r.settings@.len() == 0,
            r.external_commands@.len() == 0,
    {
        Snapshot { settings: Vec::new(), external_commands: Vec::new() }
    }
}

/// A setting by content: domain, key, original value, applied value.
pub type SettingView = (Seq<char>, Seq<char>, Option<Seq<char>>, Seq<char>);

pub open spec fn setting_view(s: SettingState) -> SettingView {
    (s.domain@, s.key@, opt_view(s.original_value), s.new_value@)
}

pub open spec fn settings_view(s: Seq<SettingState>) -> Seq<SettingView> {
    s.map_values(|x: SettingState| setting_view(x))
}

/// The position of the first setting of `domain` and `key`.
pub open spec fn index_of(m: Seq<SettingView>, domain: Seq<char>, key: Seq<char>) -> Option<int>
    decreases m.len(),
{
    if m.len() == 0 {
        None
    } else {
        match index_of(m.drop_last(), domain, key) {
            Some(i) => Some(i),
            None => if m.last().0 == domain && m.last().1 == key {
                Some(m.len() - 1)
            } else {
                None
            },
        }
    }
}

pub proof fn lemma_index_of(m: Seq<SettingView>, domain: Seq<char>, key: Seq<char>)
    ensures
        index_of(m, domain, key) matches Some(i) ==> 0 <= i < m.len() && m[i].0 == domain && m[i].1 == key
            && forall|j: int| 0 <= j < i ==> !(#[trigger] m[j].0 == domain && m[j].1 == key),
        index_of(m, domain, key) is None ==> forall|j: int| 0 <= j < m.len() ==> !(#[trigger] m[j].0 == domain && m[j].1 == key),
    decreases m.len(),
{
    if m.len() > 0 {
        lemma_index_of(m.drop_last(), domain, key);
        assert forall|j: int| 0 <= j < m.len() - 1 implies #[trigger] m[j] == m.drop_last()[j] by {}
    }
}

pub proof fn lemma_index_of_unique(m: Seq<SettingView>, domain: Seq<char>, key: Seq<char>, i: int)
    requires
        0 <= i < m.len(),
        m[i].0 == domain && m[i].1 == key,
        forall|j: int| 0 <= j < i ==> !(#[trigger] m[j].0 == domain && m[j].1 == key),
    ensures
        index_of(m, domain, key) == Some(i),
{
    lemma_index_of(m, domain, key);
}

/// `s` replaces the setting of its domain and key, or is added at the end.
pub open spec fn upsert(m: Seq<SettingView>, s: SettingView) -> Seq<SettingView> {
    match index_of(m, s.0, s.1) {
        Some(i) => m.update(i, s),
        None => m.push(s),
    }
}

/// The settings of a snapshot with one entry per domain and key: a later
/// entry replaces an earlier one.
pub open spec fn merged(s: Seq<SettingView>) -> Seq<SettingView>
    decreases s.len(),
{
    if s.len() == 0 {
        Seq::empty()
    } else {
        upsert(merged(s.drop_last()), s.last())
    }
}

/// No domain and key occurs twice.
pub open spec fn unique_settings(m: Seq<SettingView>) -> bool {
    forall|i: int, j: int| 0 <= i < j < m.len() ==> !(#[trigger] m[i].0 == #[trigger] m[j].0 && m[i].1 == m[j].1)
}

pub proof fn lemma_upsert_unique(m: Seq<SettingView>, s: SettingView)
    requires
        unique_settings(m),
    ensures
        unique_settings(upsert(m, s)),
{
    lemma_index_of(m, s.0, s.1);
    let r = upsert(m, s);
    assert forall|i: int, j: int| 0 <= i < j < r.len() implies !(#[trigger] r[i].0 == #[trigger] r[j].0 && r[i].1 == r[j].1) by {
        match index_of(m, s.0, s.1) {
            Some(k) => {
                if i != k && j != k {
                    assert(r[i] == m[i] && r[j] == m[j]);
                } else if i == k {
                    assert(r[j] == m[j]);
                } else {
                    assert(r[i] == m[i]);
                }
            },
            None => {
                if j == m.len() {
                    assert(r[i] == m[i]);
                } else {
                    assert(r[i] == m[i] && r[j] == m[j]);
                }
            },
        }
    }
}

pub proof fn lemma_merged_unique(s: Seq<SettingView>)
    ensures
        unique_settings(merged(s)),
    decreases s.len(),
{
    if s.len() > 0 {
        lemma_merged_unique(s.drop_last());
        lemma_upsert_unique(merged(s.drop_last()), s.last());
    }
}

/// The position of the setting of `domain` and `key`, as [`index_of`] says.
pub fn find_setting(m: &Vec<SettingState>, domain: &String, key: &String) -> (r: Option<usize>)
    ensures
        r matches Some(i) ==> index_of(settings_view(m@), domain@, key@) == Some(i as int),
        r is None ==> index_of(settings_view(m@), domain@, key@) is None,
{
    let ghost mv = settings_view(m@);
    proof {
        lemma_index_of(mv, domain@, key@);
    }
    let mut i: usize = 0;
    while i < m.len()
        invariant
            i <= m.len(),
            mv == settings_view(m@),
            forall|j: int| 0 <= j < i ==> !(#[trigger] mv[j].0 == domain@ && mv[j].1 == key@),
        decreases m.len() - i,
    {
        assert(mv[i as int] == setting_view(m@[i as int]));
        if m[i].domain == *domain && m[i].key == *key {
            proof {
                lemma_index_of_unique(mv, domain@, key@, i as int);
            }
            return Some(i);
        }
        i = i + 1;
    }
    None
}

/// Copies a setting.
pub fn copy_setting(s: &SettingState) -> (r: SettingState)
    ensures
        setting_view(r) == setting_view(*s),
{
    SettingState {
        domain: s.domain.clone(),
        key: s.key.clone(),
        original_value: match &s.original_value {
            Some(o) => Some(o.clone()),
            None => None,
        },
        new_value: s.new_value.clone(),
    }
}

/// Adds `s` to the settings, replacing the setting of its domain and key.
pub fn upsert_setting(m: &mut Vec<SettingState>, s: SettingState)
    ensures
        settings_view(final(m)@) == upsert(settings_view(old(m)@), setting_view(s)),
{
    let ghost before = settings_view(m@);
    proof {
        lemma_index_of(before, s.domain@, s.key@);
    }
    match find_setting(m, &s.domain, &s.key) {
        Some(i) => {
            let ghost sv = setting_view(s);
            assert(index_of(before, sv.0, sv.1) == Some(i as int));
            m.set(i, s);
            assert(settings_view(m@) =~= before.update(i as int, sv));
            assert(upsert(before, sv) == before.update(i as int, sv));
        },
        None => {
            let ghost sv = setting_view(s);
            assert(index_of(before, sv.0, sv.1) is None);
            m.push(s);
            assert(settings_view(m@) =~= before.push(sv));
        },
    }
}

/// The settings of a snapshot, one per domain and key, a later entry
/// replacing an earlier one.
pub fn merge_settings(s: &Vec<SettingState>) -> (r: Vec<SettingState>)
    ensures
        settings_view(r@) == merged(settings_view(s@)),
{
    let ghost sv = settings_view(s@);
    let mut r: Vec<SettingState> = Vec::new();
    let mut i: usize = 0;
    while i < s.len()
        invariant
            i <= s.len(),
            sv == settings_view(s@),
            settings_view(r@) == merged(sv.take(i as int)),
        decreases s.len() - i,
    {
        let c = copy_setting(&s[i]);
        upsert_setting(&mut r, c);
        i = i + 1;
        assert(sv.take(i as int).drop_last() =~= sv.take(i - 1));
        assert(sv.take(i as int).last() == sv[i - 1]);
    }
    assert(sv.take(s.len() as int) =~= sv);
    r
}

} // verus!
