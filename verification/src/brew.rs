//! Homebrew: reading what `brew` lists, comparing it with the `[brew]`
//! table, and deciding what to tap, fetch, install and back up.
use vstd::prelude::*;
use crate::brew::types::{diff_view, names_view, BrewDiff, BrewListType};
use crate::config::model::Brew;
use crate::domains::collector::contains_string;
use crate::text::{chars_of, owned, string_of};

pub mod document;
pub mod types;

verus! {

/// Unicode `White_Space`, the characters `str::trim` removes.
pub open spec fn is_ws(c: char) -> bool {
    let n = c as u32;
    (0x9 <= n && n <= 0xd) || n == 0x20 || n == 0x85 || n == 0xa0 || n == 0x1680
        || (0x2000 <= n && n <= 0x200a) || n == 0x2028 || n == 0x2029 || n == 0x202f
        || n == 0x205f || n == 0x3000
}

pub fn is_space(c: char) -> (r: bool)
    ensures
        r == is_ws(c),
{
    let n = c as u32;
    (0x9 <= n && n <= 0xd) || n == 0x20 || n == 0x85 || n == 0xa0 || n == 0x1680
        || (0x2000 <= n && n <= 0x200a) || n == 0x2028 || n == 0x2029 || n == 0x202f
        || n == 0x205f || n == 0x3000
}

/// `s` without its leading white space.
pub open spec fn trim_start(s: Seq<char>) -> Seq<char>
    decreases s.len(),
{
    if s.len() > 0 && is_ws(s[0]) {
        trim_start(s.drop_first())
    } else {
        s
    }
}

/// `s` without its trailing white space.
pub open spec fn trim_end(s: Seq<char>) -> Seq<char>
    decreases s.len(),
{
    if s.len() > 0 && is_ws(s.last()) {
        trim_end(s.drop_last())
    } else {
        s
    }
}

/// `s` without leading and trailing white space.
pub open spec fn trimmed(s: Seq<char>) -> Seq<char> {
    trim_end(trim_start(s))
}

/// The characters of `v` without leading and trailing white space.
pub fn trim_chars(v: &Vec<char>) -> (r: Vec<char>)
    ensures
        r@ == trimmed(v@),
{
    let n = v.len();
    let mut i: usize = 0;
    assert(v@.subrange(0, n as int) =~= v@);
    while i < n && is_space(v[i])
        invariant
            i <= n,
            n == v.len(),
            trim_start(v@) == trim_start(v@.subrange(i as int, n as int)),
        decreases n - i,
    {
        assert(v@.subrange(i as int, n as int).drop_first() =~= v@.subrange(i + 1, n as int));
        i = i + 1;
    }
    assert(trim_start(v@) == v@.subrange(i as int, n as int));
    let mut j: usize = n;
    while j > i && is_space(v[j - 1])
        invariant
            i <= j <= n,
            n == v.len(),
            trim_end(v@.subrange(i as int, n as int)) == trim_end(v@.subrange(i as int, j as int)),
        decreases j - i,
    {
        assert(v@.subrange(i as int, j as int).drop_last() =~= v@.subrange(i as int, j - 1));
        j = j - 1;
    }
    assert(trim_end(v@.subrange(i as int, j as int)) == v@.subrange(i as int, j as int));
    let mut r: Vec<char> = Vec::new();
    let mut k: usize = i;
    while k < j
        invariant
            i <= k <= j <= n,
            n == v.len(),
            r@ == v@.subrange(i as int, k as int),
        decreases j - k,
    {
        r.push(v[k]);
        k = k + 1;
        assert(r@ =~= v@.subrange(i as int, k as int));
    }
    r
}

/// The list so far with `line` added, trimmed, unless it is blank.
pub open spec fn add_item(items: Seq<Seq<char>>, line: Seq<char>) -> Seq<Seq<char>> {
    if trimmed(line).len() > 0 {
        items.push(trimmed(line))
    } else {
        items
    }
}

/// The items of the lines ended so far, and the line being read.
pub open spec fn scan_lines(s: Seq<char>) -> (Seq<Seq<char>>, Seq<char>)
    decreases s.len(),
{
    if s.len() == 0 {
        (Seq::empty(), Seq::empty())
    } else {
        let p = scan_lines(s.drop_last());
        if s.last() == '\n' {
            (add_item(p.0, p.1), Seq::empty())
        } else {
            (p.0, p.1.push(s.last()))
        }
    }
}

/// What a `brew` listing holds: its lines, each trimmed, blank ones left out.
pub open spec fn list_items(s: Seq<char>) -> Seq<Seq<char>> {
    let p = scan_lines(s);
    add_item(p.0, p.1)
}

fn push_item(items: &mut Vec<String>, line: &Vec<char>)
    ensures
        names_view(final(items)@) == add_item(names_view(old(items)@), line@),
{
    let t = trim_chars(line);
    if t.len() > 0 {
        let ghost before = items@;
        let s = string_of(&t);
        items.push(s);
        assert(names_view(items@) =~= names_view(before).push(t@));
    }
}

/// Separates what a `brew` listing printed into its items, one per
/// non-blank line, trimmed.
pub fn parse_brew_list(stdout: &str) -> (r: Vec<String>)
    ensures
        names_view(r@) == list_items(stdout@),
{
    let v = chars_of(stdout);
    let mut items: Vec<String> = Vec::new();
    let mut cur: Vec<char> = Vec::new();
    let mut k: usize = 0;
    assert(names_view(items@) =~= Seq::<Seq<char>>::empty());
    while k < v.len()
        invariant
            k <= v.len(),
            v@ == stdout@,
            (names_view(items@), cur@) == scan_lines(v@.take(k as int)),
        decreases v.len() - k,
    {
        assert(v@.take(k + 1).drop_last() =~= v@.take(k as int));
        assert(v@.take(k + 1).last() == v@[k as int]);
        if v[k] == '\n' {
            push_item(&mut items, &cur);
            cur = Vec::new();
            assert(cur@ =~= Seq::<char>::empty());
        } else {
            cur.push(v[k]);
        }
        k = k + 1;
    }
    assert(v@.take(v.len() as int) =~= v@);
    push_item(&mut items, &cur);
    items
}

/// The arguments of the `brew` command that lists a kind of software.
pub open spec fn list_args_of(t: BrewListType) -> Seq<Seq<char>> {
    match t {
        BrewListType::Cask => seq!["list"@, "--casks"@],
        BrewListType::Formula => seq!["list"@, "--formulae"@],
        BrewListType::Tap => seq!["tap"@],
        BrewListType::Dependency => seq!["list"@, "--installed-as-dependency"@],
    }
}

/// Lists Homebrew things (formulae/casks/taps/deps): the arguments of the
/// `brew` command to run.
pub fn brew_list_args(list_type: &BrewListType) -> (r: Vec<String>)
    ensures
        names_view(r@) == list_args_of(*list_type),
{
    let r = match list_type {
        BrewListType::Cask => vec![owned("list"), owned("--casks")],
        BrewListType::Formula => vec![owned("list"), owned("--formulae")],
        BrewListType::Tap => vec![owned("tap")],
        BrewListType::Dependency => vec![owned("list"), owned("--installed-as-dependency")],
    };
    assert(names_view(r@) =~= list_args_of(*list_type));
    r
}

/// The items of `s` that `other` does not hold, in order.
pub open spec fn without(s: Seq<Seq<char>>, other: Seq<Seq<char>>) -> Seq<Seq<char>>
    decreases s.len(),
{
    if s.len() == 0 {
        s
    } else {
        let r = without(s.drop_last(), other);
        if other.contains(s.last()) {
            r
        } else {
            r.push(s.last())
        }
    }
}

/// The items of `s` that `other` holds, in order.
pub open spec fn within(s: Seq<Seq<char>>, other: Seq<Seq<char>>) -> Seq<Seq<char>>
    decreases s.len(),
{
    if s.len() == 0 {
        s
    } else {
        let r = within(s.drop_last(), other);
        if other.contains(s.last()) {
            r.push(s.last())
        } else {
            r
        }
    }
}

/// The items of `s` that `other` does not hold (`keep == false`), or those
/// it holds (`keep == true`), in order.
pub fn filter_names(s: &Vec<String>, other: &Vec<String>, keep: bool) -> (r: Vec<String>)
    ensures
        names_view(r@) == if keep { within(names_view(s@), names_view(other@)) } else { without(names_view(s@), names_view(other@)) },
{
    let ghost sv = names_view(s@);
    let ghost ov = names_view(other@);
    let mut r: Vec<String> = Vec::new();
    let mut i: usize = 0;
    assert(names_view(r@) =~= Seq::<Seq<char>>::empty());
    while i < s.len()
        invariant
            i <= s.len(),
            sv == names_view(s@),
            ov == names_view(other@),
            names_view(r@) == if keep { within(sv.take(i as int), ov) } else { without(sv.take(i as int), ov) },
        decreases s.len() - i,
    {
        assert(sv.take(i + 1).drop_last() =~= sv.take(i as int));
        assert(sv.take(i + 1).last() == s@[i as int]@);
        let has = contains_string(other, &s[i]);
        if has == keep {
            let ghost before = r@;
            r.push(s[i].clone());
            assert(names_view(r@) =~= names_view(before).push(s@[i as int]@));
        }
        i = i + 1;
    }
    assert(sv.take(s.len() as int) =~= sv);
    r
}

/// A configured list by its names; none configured is empty.
pub open spec fn opt_names(o: Option<Vec<String>>) -> Seq<Seq<char>> {
    match o {
        Some(v) => names_view(v@),
        None => Seq::empty(),
    }
}

pub fn opt_list(o: &Option<Vec<String>>) -> (r: Vec<String>)
    ensures
        names_view(r@) == opt_names(*o),
{
    match o {
        Some(v) => {
            let mut r: Vec<String> = Vec::new();
            let mut i: usize = 0;
            while i < v.len()
                invariant
                    i <= v.len(),
                    names_view(r@) =~= names_view(v@).take(i as int),
                decreases v.len() - i,
            {
                let ghost before = r@;
                r.push(v[i].clone());
                assert(names_view(r@) =~= names_view(before).push(v@[i as int]@));
                i = i + 1;
            }
            assert(names_view(v@).take(v.len() as int) =~= names_view(v@));
            r
        },
        None => {
            let r: Vec<String> = Vec::new();
            assert(names_view(r@) =~= Seq::<Seq<char>>::empty());
            r
        },
    }
}

/// The installed formulae that count: without those installed as
/// dependencies when the table says `no_deps`.
pub open spec fn counted_formulae(brew: Brew, formulae: Seq<Seq<char>>, deps: Seq<Seq<char>>) -> Seq<Seq<char>> {
    if brew.no_deps == Some(true) {
        without(formulae, deps)
    } else {
        formulae
    }
}

/// Missing and extra formulae, casks and taps, in the order of the fields
/// of [`BrewDiff`]: what the table lists and is not installed, and what is
/// installed and the table does not list.
pub open spec fn brew_diff_of(brew: Brew, formulae: Seq<Seq<char>>, casks: Seq<Seq<char>>, taps: Seq<Seq<char>>, deps: Seq<Seq<char>>) -> Seq<Seq<Seq<char>>> {
    let cf = opt_names(brew.formulae);
    let cc = opt_names(brew.casks);
    let ct = opt_names(brew.taps);
    let f = counted_formulae(brew, formulae, deps);
    seq![without(cf, f), without(f, cf), without(cc, casks), without(casks, cc), without(ct, taps), without(taps, ct)]
}

/// Compare the [brew] config table with the actual Homebrew state: the
/// installed formulae, casks and taps, and the formulae installed as
/// dependencies (read only when the table says `no_deps`).
pub fn compare_brew_state(brew: &Brew, formulae: &Vec<String>, casks: &Vec<String>, taps: &Vec<String>, deps: &Vec<String>) -> (r: BrewDiff)
    ensures
        diff_view(r) == brew_diff_of(*brew, names_view(formulae@), names_view(casks@), names_view(taps@), names_view(deps@)),
{
    let cf = opt_list(&brew.formulae);
    let cc = opt_list(&brew.casks);
    let ct = opt_list(&brew.taps);
    let no_deps = match brew.no_deps {
        Some(b) => b,
        None => false,
    };
    let f = if no_deps {
        filter_names(formulae, deps, false)
    } else {
        opt_list(&Some(formulae.clone()))
    };
    assert(names_view(f@) == counted_formulae(*brew, names_view(formulae@), names_view(deps@)));
    let r = BrewDiff {
        missing_formulae: filter_names(&cf, &f, false),
        extra_formulae: filter_names(&f, &cf, false),
        missing_casks: filter_names(&cc, casks, false),
        extra_casks: filter_names(casks, &cc, false),
        missing_taps: filter_names(&ct, taps, false),
        extra_taps: filter_names(taps, &ct, false),
    };
    assert(diff_view(r) =~= brew_diff_of(*brew, names_view(formulae@), names_view(casks@), names_view(taps@), names_view(deps@)));
    r
}


proof fn lemma_trim_start_head(s: Seq<char>)
    ensures
        trim_start(s).len() > 0 ==> !is_ws(trim_start(s)[0]),
    decreases s.len(),
{
    if s.len() > 0 && is_ws(s[0]) {
        lemma_trim_start_head(s.drop_first());
    }
}

proof fn lemma_trim_end_ends(s: Seq<char>)
    ensures
        trim_end(s).len() <= s.len(),
        trim_end(s) == s.take(trim_end(s).len() as int),
        trim_end(s).len() > 0 ==> !is_ws(trim_end(s).last()),
    decreases s.len(),
{
    if s.len() > 0 && is_ws(s.last()) {
        lemma_trim_end_ends(s.drop_last());
        let t = trim_end(s.drop_last());
        assert(s.drop_last().take(t.len() as int) =~= s.take(t.len() as int));
    } else {
        assert(s.take(s.len() as int) =~= s);
    }
}

/// Every item of a `brew` listing is a non-empty name with no white space
/// at either end.
pub proof fn law_list_items_trimmed(s: Seq<char>, i: int)
    requires
        0 <= i < list_items(s).len(),
    ensures
        list_items(s)[i].len() > 0,
        !is_ws(list_items(s)[i][0]),
        !is_ws(list_items(s)[i].last()),
{
    lemma_items_trimmed(s);
    let p = scan_lines(s);
    lemma_add_item_trimmed(p.0, p.1);
}

/// The items added so far are all trimmed and non-empty.
pub open spec fn all_trimmed(items: Seq<Seq<char>>) -> bool {
    forall|k: int| 0 <= k < items.len() ==> (#[trigger] items[k]).len() > 0 && !is_ws(items[k][0]) && !is_ws(items[k].last())
}

proof fn lemma_add_item_trimmed(items: Seq<Seq<char>>, line: Seq<char>)
    requires
        all_trimmed(items),
    ensures
        all_trimmed(add_item(items, line)),
{
    let t = trimmed(line);
    if t.len() > 0 {
        let y = trim_start(line);
        lemma_trim_start_head(line);
        lemma_trim_end_ends(y);
        assert(t[0] == y[0]);
        let r = items.push(t);
        assert forall|k: int| 0 <= k < r.len() implies (#[trigger] r[k]).len() > 0 && !is_ws(r[k][0]) && !is_ws(r[k].last()) by {
            if k < items.len() {
                assert(r[k] == items[k]);
            }
        }
    }
}

proof fn lemma_items_trimmed(s: Seq<char>)
    ensures
        all_trimmed(scan_lines(s).0),
    decreases s.len(),
{
    if s.len() > 0 {
        lemma_items_trimmed(s.drop_last());
        let p = scan_lines(s.drop_last());
        if s.last() == '\n' {
            lemma_add_item_trimmed(p.0, p.1);
        }
    }
}

} // verus!
