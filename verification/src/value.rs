//! The values a configuration file holds, as the library reads them.
use vstd::prelude::*;

verus! {

/// A TOML value of the configuration.
///
/// Floats, date-times, arrays and tables also carry the TOML text that the
/// TOML writer produces for them, since that text is what the library
/// compares and shows for such values.
pub enum ConfigValue {
    Boolean(bool),
    Integer(i64),
    Float(String),
    Text(String),
    Datetime(String),
    Array(Vec<ConfigValue>, String),
    Table(Vec<(String, ConfigValue)>, String),
}

/// The mathematical content of a [`ConfigValue`].
pub enum ValueView {
    Boolean(bool),
    Integer(i64),
    Float(Seq<char>),
    Text(Seq<char>),
    Datetime(Seq<char>),
    Array(Seq<ValueView>, Seq<char>),
    Table(Seq<(Seq<char>, ValueView)>, Seq<char>),
}

/// The content of a value.
pub open spec fn value_view(v: ConfigValue) -> ValueView
    decreases v, 2int,
{
    match v {
        ConfigValue::Boolean(b) => ValueView::Boolean(b),
        ConfigValue::Integer(n) => ValueView::Integer(n),
        ConfigValue::Float(t) => ValueView::Float(t@),
        ConfigValue::Text(t) => ValueView::Text(t@),
        ConfigValue::Datetime(t) => ValueView::Datetime(t@),
        ConfigValue::Array(items, t) => ValueView::Array(values_view(items@), t@),
        ConfigValue::Table(entries, t) => ValueView::Table(entries_view(entries@), t@),
    }
}

/// The contents of a sequence of values.
pub open spec fn values_view(items: Seq<ConfigValue>) -> Seq<ValueView>
    decreases items, 1int,
{
    if items.len() == 0 {
        Seq::empty()
    } else {
        values_view(items.drop_last()).push(value_view(items.last()))
    }
}

/// The contents of a table's entries: each key by its characters.
pub open spec fn entries_view(entries: Seq<(String, ConfigValue)>) -> Seq<(Seq<char>, ValueView)>
    decreases entries, 1int,
{
    if entries.len() == 0 {
        Seq::empty()
    } else {
        entries_view(entries.drop_last()).push(
            (entries.last().0@, value_view(entries.last().1)),
        )
    }
}

pub proof fn lemma_values_view_len(items: Seq<ConfigValue>)
    ensures
        values_view(items).len() == items.len(),
        forall|i: int| 0 <= i < items.len() ==> #[trigger] values_view(items)[i] == value_view(items[i]),
    decreases items.len(),
{
    if items.len() > 0 {
        lemma_values_view_len(items.drop_last());
    }
}

pub proof fn lemma_entries_view(entries: Seq<(String, ConfigValue)>)
    ensures
        entries_view(entries).len() == entries.len(),
        forall|i: int| 0 <= i < entries.len() ==> #[trigger] entries_view(entries)[i] == (entries[i].0@, value_view(entries[i].1)),
    decreases entries.len(),
{
    if entries.len() > 0 {
        lemma_entries_view(entries.drop_last());
    }
}

pub proof fn lemma_entries_view_take(entries: Seq<(String, ConfigValue)>, n: int)
    requires
        0 <= n <= entries.len(),
    ensures
        entries_view(entries.take(n)) == entries_view(entries).take(n),
{
    lemma_entries_view(entries);
    lemma_entries_view(entries.take(n));
    assert(entries_view(entries.take(n)) =~= entries_view(entries).take(n));
}

impl ConfigValue {
    /// A copy of this value with the same content.
    pub fn duplicate(&self) -> (r: ConfigValue)
        ensures
            value_view(r) == value_view(*self),
        decreases self,
    {
        match self {
            ConfigValue::Boolean(b) => ConfigValue::Boolean(*b),
            ConfigValue::Integer(n) => ConfigValue::Integer(*n),
            ConfigValue::Float(t) => ConfigValue::Float(t.clone()),
            ConfigValue::Text(t) => ConfigValue::Text(t.clone()),
            ConfigValue::Datetime(t) => ConfigValue::Datetime(t.clone()),
            ConfigValue::Array(items, t) => {
                let mut out: Vec<ConfigValue> = Vec::new();
                let mut i: usize = 0;
                while i < items.len()
                    invariant
                        *self == ConfigValue::Array(*items, *t),
                        i <= items.len(),
                        values_view(out@) == values_view(items@.take(i as int)),
                    decreases items.len() - i,
                {
                    proof {
                        assert(self->Array_0 == *items);
                        assert(decreases_to!(*self => self->Array_0));
                        assert(decreases_to!(*items => items@[i as int]));
                    }
                    let v = items[i].duplicate();
                    let ghost prev = out@;
                    out.push(v);
                    i = i + 1;
                    proof {
                        assert(items@.take(i as int).drop_last() =~= items@.take(i - 1));
                        assert(out@.drop_last() =~= prev);
                    }
                }
                assert(items@.take(items.len() as int) =~= items@);
                ConfigValue::Array(out, t.clone())
            },
            ConfigValue::Table(entries, t) => {
                proof {
                    assert(decreases_to!(*self => *entries));
                }
                ConfigValue::Table(duplicate_entries(entries), t.clone())
            },
        }
    }
}

/// A copy of a table's entries with the same content.
pub fn duplicate_entries(entries: &Vec<(String, ConfigValue)>) -> (r: Vec<(String, ConfigValue)>)
    ensures
        entries_view(r@) == entries_view(entries@),
    decreases *entries,
{
    let mut out: Vec<(String, ConfigValue)> = Vec::new();
    let mut i: usize = 0;
    while i < entries.len()
        invariant
            i <= entries.len(),
            entries_view(out@) == entries_view(entries@.take(i as int)),
        decreases entries.len() - i,
    {
        proof {
            assert(decreases_to!(*entries => entries@[i as int].1));
        }
        let v = entries[i].1.duplicate();
        let k = entries[i].0.clone();
        let ghost prev = out@;
        out.push((k, v));
        i = i + 1;
        proof {
            assert(entries@.take(i as int).drop_last() =~= entries@.take(i - 1));
            assert(out@.drop_last() =~= prev);
        }
    }
    assert(entries@.take(entries.len() as int) =~= entries@);
    out
}


fn same_text(a: &String, b: &String) -> (r: bool)
    ensures
        r == (a@ == b@),
{
    crate::text::str_eq(a.as_str(), b.as_str())
}

impl ConfigValue {
    /// Whether two values have the same content.
    pub fn same_value(&self, other: &ConfigValue) -> (r: bool)
        ensures
            r == (value_view(*self) == value_view(*other)),
        decreases self,
    {
        match (self, other) {
            (ConfigValue::Boolean(a), ConfigValue::Boolean(b)) => *a == *b,
            (ConfigValue::Integer(a), ConfigValue::Integer(b)) => *a == *b,
            (ConfigValue::Float(a), ConfigValue::Float(b)) => same_text(a, b),
            (ConfigValue::Text(a), ConfigValue::Text(b)) => same_text(a, b),
            (ConfigValue::Datetime(a), ConfigValue::Datetime(b)) => same_text(a, b),
            (ConfigValue::Array(xs, t), ConfigValue::Array(ys, u)) => {
                if !same_text(t, u) || xs.len() != ys.len() {
                    proof {
                        lemma_values_view_len(xs@);
                        lemma_values_view_len(ys@);
                    }
                    return false;
                }
                proof {
                    lemma_values_view_len(xs@);
                    lemma_values_view_len(ys@);
                }
                let mut i: usize = 0;
                while i < xs.len()
                    invariant
                        *self == ConfigValue::Array(*xs, *t),
                        *other == ConfigValue::Array(*ys, *u),
                        t@ == u@,
                        i <= xs.len(),
                        xs.len() == ys.len(),
                        values_view(xs@).len() == xs.len(),
                        values_view(ys@).len() == ys.len(),
                        forall|k: int| 0 <= k < xs.len() ==> #[trigger] values_view(xs@)[k] == value_view(xs@[k]),
                        forall|k: int| 0 <= k < ys.len() ==> #[trigger] values_view(ys@)[k] == value_view(ys@[k]),
                        forall|k: int| 0 <= k < i ==> values_view(xs@)[k] == #[trigger] values_view(ys@)[k],
                    decreases xs.len() - i,
                {
                    proof {
                        assert(decreases_to!(*self => self->Array_0));
                        assert(decreases_to!(*xs => xs@[i as int]));
                    }
                    if !xs[i].same_value(&ys[i]) {
                        assert(values_view(xs@)[i as int] != values_view(ys@)[i as int]);
                        return false;
                    }
                    i = i + 1;
                }
                assert(values_view(xs@) =~= values_view(ys@));
                true
            },
            (ConfigValue::Table(xs, t), ConfigValue::Table(ys, u)) => {
                proof {
                    assert(decreases_to!(*self => *xs));
                }
                same_text(t, u) && same_entries(xs, ys)
            },
            _ => false,
        }
    }
}

/// Whether two lists of table entries have the same content.
pub fn same_entries(xs: &Vec<(String, ConfigValue)>, ys: &Vec<(String, ConfigValue)>) -> (r: bool)
    ensures
        r == (entries_view(xs@) == entries_view(ys@)),
    decreases *xs,
{
    proof {
        lemma_entries_view(xs@);
        lemma_entries_view(ys@);
    }
    if xs.len() != ys.len() {
        return false;
    }
    let mut i: usize = 0;
    while i < xs.len()
        invariant
            i <= xs.len(),
            xs.len() == ys.len(),
            entries_view(xs@).len() == xs.len(),
            entries_view(ys@).len() == ys.len(),
            forall|k: int| 0 <= k < xs.len() ==> #[trigger] entries_view(xs@)[k] == (xs@[k].0@, value_view(xs@[k].1)),
            forall|k: int| 0 <= k < ys.len() ==> #[trigger] entries_view(ys@)[k] == (ys@[k].0@, value_view(ys@[k].1)),
            forall|k: int| 0 <= k < i ==> entries_view(xs@)[k] == #[trigger] entries_view(ys@)[k],
        decreases xs.len() - i,
    {
        proof {
            assert(decreases_to!(*xs => xs@[i as int].1));
        }
        if !same_text(&xs[i].0, &ys[i].0) || !xs[i].1.same_value(&ys[i].1) {
            assert(entries_view(xs@)[i as int] != entries_view(ys@)[i as int]);
            return false;
        }
        i = i + 1;
    }
    assert(entries_view(xs@) =~= entries_view(ys@));
    true
}


/// The value of the first entry named `key`.
pub open spec fn entry_lookup(es: Seq<(Seq<char>, ValueView)>, key: Seq<char>) -> Option<ValueView>
    decreases es.len(),
{
    if es.len() == 0 {
        None
    } else if es[0].0 == key {
        Some(es[0].1)
    } else {
        entry_lookup(es.drop_first(), key)
    }
}

/// What `key` holds in a table; nothing for any other value.
pub open spec fn vget(v: ValueView, key: Seq<char>) -> Option<ValueView> {
    match v {
        ValueView::Table(es, _) => entry_lookup(es, key),
        _ => None,
    }
}

/// The strings among values, in order.
pub open spec fn texts(items: Seq<ValueView>) -> Seq<Seq<char>>
    decreases items.len(),
{
    if items.len() == 0 {
        Seq::empty()
    } else {
        let r = texts(items.drop_last());
        match items.last() {
            ValueView::Text(s) => r.push(s),
            _ => r,
        }
    }
}

/// The entry of a table's entries named `key`, found as [`entry_lookup`] does.
pub fn entries_get<'a>(es: &'a Vec<(String, ConfigValue)>, key: &str) -> (r: Option<&'a ConfigValue>)
    ensures
        match r {
            Some(x) => entry_lookup(entries_view(es@), key@) == Some(value_view(*x)),
            None => entry_lookup(entries_view(es@), key@) is None,
        },
{
    let ghost ev = entries_view(es@);
    proof {
        lemma_entries_view(es@);
    }
    let mut i: usize = 0;
    assert(ev.skip(0) =~= ev);
    while i < es.len()
        invariant
            i <= es.len(),
            ev == entries_view(es@),
            ev.len() == es@.len(),
            forall|k: int| 0 <= k < es@.len() ==> #[trigger] ev[k] == (es@[k].0@, value_view(es@[k].1)),
            entry_lookup(ev, key@) == entry_lookup(ev.skip(i as int), key@),
        decreases es.len() - i,
    {
        assert(ev.skip(i as int)[0] == ev[i as int]);
        if crate::text::str_eq(es[i].0.as_str(), key) {
            return Some(&es[i].1);
        }
        assert(ev.skip(i as int).drop_first() =~= ev.skip(i + 1));
        i = i + 1;
    }
    None
}

/// What `key` holds in a table value.
pub fn value_get<'a>(v: &'a ConfigValue, key: &str) -> (r: Option<&'a ConfigValue>)
    ensures
        match r {
            Some(x) => vget(value_view(*v), key@) == Some(value_view(*x)),
            None => vget(value_view(*v), key@) is None,
        },
{
    match v {
        ConfigValue::Table(es, _) => entries_get(es, key),
        _ => None,
    }
}

/// The strings among a list of values.
pub fn text_items(items: &Vec<ConfigValue>) -> (r: Vec<String>)
    ensures
        r@.map_values(|s: String| s@) == texts(values_view(items@)),
{
    let ghost iv = values_view(items@);
    proof {
        lemma_values_view_len(items@);
    }
    let mut r: Vec<String> = Vec::new();
    let mut i: usize = 0;
    assert(r@.map_values(|s: String| s@) =~= texts(iv.take(0)));
    while i < items.len()
        invariant
            i <= items.len(),
            iv == values_view(items@),
            iv.len() == items@.len(),
            forall|k: int| 0 <= k < items@.len() ==> #[trigger] iv[k] == value_view(items@[k]),
            r@.map_values(|s: String| s@) == texts(iv.take(i as int)),
        decreases items.len() - i,
    {
        assert(iv.take(i + 1).drop_last() =~= iv.take(i as int));
        assert(iv.take(i + 1).last() == value_view(items@[i as int]));
        let ghost before = r@;
        match &items[i] {
            ConfigValue::Text(s) => {
                r.push(s.clone());
                assert(r@.map_values(|s: String| s@) =~= before.map_values(|s: String| s@).push(s@));
            },
            _ => {},
        }
        i = i + 1;
    }
    assert(iv.take(items.len() as int) =~= iv);
    r
}

} // verus!
