//! Variable substitution in command templates: `$name` and `${name}`
//! references are replaced by a configured variable, else by the
//! environment variable of that name, else left as they are.
use vstd::prelude::*;
use crate::domains::opt_view;
use crate::text::{push_str_chars, string_of, chars_of};

verus! {

/// A character that may continue a `$name` reference.
pub open spec fn is_word_char(c: char) -> bool {
    let n = c as u32;
    (0x30 <= n && n <= 0x39) || (0x41 <= n && n <= 0x5a) || (0x61 <= n && n <= 0x7a) || n == 0x5f
}

/// Where a `${` reference that continues at `k` ends: just past the first
/// `}`, or at the end of the text.
pub open spec fn brace_end(t: Seq<char>, k: int) -> int
    decreases t.len() - k,
{
    if k >= t.len() {
        t.len() as int
    } else if t[k] == '}' {
        k + 1
    } else {
        brace_end(t, k + 1)
    }
}

/// Where a `$name` reference whose name starts at `k` ends.
pub open spec fn word_end(t: Seq<char>, k: int) -> int
    decreases t.len() - k,
{
    if 0 <= k < t.len() && is_word_char(t[k]) {
        word_end(t, k + 1)
    } else {
        k
    }
}

/// Where the reference starting with the `$` at `i` ends.
pub open spec fn span_end(t: Seq<char>, i: int) -> int {
    if i + 1 < t.len() && t[i + 1] == '{' {
        brace_end(t, i + 2)
    } else {
        word_end(t, i + 1)
    }
}

pub proof fn lemma_brace_end(t: Seq<char>, k: int)
    requires
        0 <= k <= t.len(),
    ensures
        k <= brace_end(t, k) <= t.len(),
    decreases t.len() - k,
{
    if k < t.len() && t[k] != '}' {
        lemma_brace_end(t, k + 1);
    }
}

pub proof fn lemma_word_end(t: Seq<char>, k: int)
    requires
        0 <= k <= t.len(),
    ensures
        k <= word_end(t, k) <= t.len(),
    decreases t.len() - k,
{
    if k < t.len() && is_word_char(t[k]) {
        lemma_word_end(t, k + 1);
    }
}

pub proof fn lemma_span_end(t: Seq<char>, i: int)
    requires
        0 <= i < t.len(),
    ensures
        i < span_end(t, i) <= t.len(),
{
    if i + 1 < t.len() && t[i + 1] == '{' {
        lemma_brace_end(t, i + 2);
    } else {
        lemma_word_end(t, i + 1);
    }
}

/// The variable name of a reference: what `${` and `}` enclose, or what
/// follows the `$`.
pub open spec fn ref_name(piece: Seq<char>) -> Seq<char> {
    if piece.len() >= 3 && piece[0] == '$' && piece[1] == '{' && piece.last() == '}' {
        piece.subrange(2, piece.len() - 1)
    } else {
        piece.subrange(1, piece.len() as int)
    }
}

/// The value of the first entry named `name`.
pub open spec fn lookup(pairs: Seq<(Seq<char>, Seq<char>)>, name: Seq<char>) -> Option<Seq<char>>
    decreases pairs.len(),
{
    if pairs.len() == 0 {
        None
    } else if pairs[0].0 == name {
        Some(pairs[0].1)
    } else {
        lookup(pairs.drop_first(), name)
    }
}

/// What replaces a reference: the configured variable, else the
/// environment variable, else the reference itself.
pub open spec fn resolve(vars: Option<Seq<(Seq<char>, Seq<char>)>>, env: Seq<(Seq<char>, Seq<char>)>, piece: Seq<char>) -> Seq<char> {
    let name = ref_name(piece);
    let configured = match vars {
        Some(v) => lookup(v, name),
        None => None,
    };
    match configured {
        Some(x) => x,
        None => match lookup(env, name) {
            Some(x) => x,
            None => piece,
        },
    }
}

/// The text from position `i` on with its references replaced.
pub open spec fn subst(t: Seq<char>, i: int, vars: Option<Seq<(Seq<char>, Seq<char>)>>, env: Seq<(Seq<char>, Seq<char>)>) -> Seq<char>
    decreases t.len() - i,
{
    if i < 0 || i >= t.len() {
        Seq::empty()
    } else if t[i] == '$' {
        let e = span_end(t, i);
        proof {
            lemma_span_end(t, i);
        }
        resolve(vars, env, t.subrange(i, e)) + subst(t, e, vars, env)
    } else {
        seq![t[i]] + subst(t, i + 1, vars, env)
    }
}

/// A list of name and value pairs by their characters.
pub open spec fn pairs_view(s: Seq<(String, String)>) -> Seq<(Seq<char>, Seq<char>)> {
    s.map_values(|p: (String, String)| (p.0@, p.1@))
}

pub open spec fn opt_pairs_view(s: Option<&Vec<(String, String)>>) -> Option<Seq<(Seq<char>, Seq<char>)>> {
    match s {
        Some(v) => Some(pairs_view(v@)),
        None => None,
    }
}

fn is_word(c: char) -> (r: bool)
    ensures
        r == is_word_char(c),
{
    let n = c as u32;
    (0x30 <= n && n <= 0x39) || (0x41 <= n && n <= 0x5a) || (0x61 <= n && n <= 0x7a) || n == 0x5f
}

fn find_span_end(t: &Vec<char>, i: usize) -> (e: usize)
    requires
        i < t.len(),
    ensures
        e as int == span_end(t@, i as int),
{
    let n = t.len();
    if i + 1 < n && t[i + 1] == '{' {
        let mut k: usize = i + 2;
        while k < n && t[k] != '}'
            invariant
                i + 2 <= k <= n,
                n == t.len(),
                brace_end(t@, i + 2) == brace_end(t@, k as int),
            decreases n - k,
        {
            k = k + 1;
        }
        if k < n {
            k + 1
        } else {
            n
        }
    } else {
        let mut k: usize = i + 1;
        while k < n && is_word(t[k])
            invariant
                i + 1 <= k <= n,
                n == t.len(),
                word_end(t@, i + 1) == word_end(t@, k as int),
            decreases n - k,
        {
            k = k + 1;
        }
        k
    }
}

fn slice_chars(t: &Vec<char>, a: usize, b: usize) -> (r: Vec<char>)
    requires
        a <= b <= t.len(),
    ensures
        r@ == t@.subrange(a as int, b as int),
{
    let mut r: Vec<char> = Vec::new();
    let mut k: usize = a;
    while k < b
        invariant
            a <= k <= b <= t.len(),
            r@ == t@.subrange(a as int, k as int),
        decreases b - k,
    {
        r.push(t[k]);
        k = k + 1;
        assert(r@ =~= t@.subrange(a as int, k as int));
    }
    r
}

fn name_of(piece: &Vec<char>) -> (r: Vec<char>)
    requires
        piece.len() >= 1,
    ensures
        r@ == ref_name(piece@),
{
    let n = piece.len();
    if n >= 3 && piece[0] == '$' && piece[1] == '{' && piece[n - 1] == '}' {
        slice_chars(piece, 2, n - 1)
    } else {
        slice_chars(piece, 1, n)
    }
}

/// The value of the first pair named `name`.
pub fn lookup_pair(pairs: &Vec<(String, String)>, name: &Vec<char>) -> (r: Option<String>)
    ensures
        opt_view(r) == lookup(pairs_view(pairs@), name@),
{
    let ghost pv = pairs_view(pairs@);
    let mut i: usize = 0;
    assert(pv.skip(0) =~= pv);
    while i < pairs.len()
        invariant
            i <= pairs.len(),
            pv == pairs_view(pairs@),
            lookup(pv, name@) == lookup(pv.skip(i as int), name@),
        decreases pairs.len() - i,
    {
        assert(pv.skip(i as int)[0] == pv[i as int]);
        let key = chars_of(pairs[i].0.as_str());
        if crate::text::chars_eq(&key, name) {
            return Some(pairs[i].1.clone());
        }
        assert(pv.skip(i as int).drop_first() =~= pv.skip(i + 1));
        i = i + 1;
    }
    None
}

fn resolve_piece(vars: Option<&Vec<(String, String)>>, env: &Vec<(String, String)>, piece: &Vec<char>) -> (r: Vec<char>)
    requires
        piece.len() >= 1,
    ensures
        r@ == resolve(opt_pairs_view(vars), pairs_view(env@), piece@),
{
    let name = name_of(piece);
    let configured = match vars {
        Some(v) => lookup_pair(v, &name),
        None => None,
    };
    match configured {
        Some(x) => chars_of(x.as_str()),
        None => match lookup_pair(env, &name) {
            Some(x) => chars_of(x.as_str()),
            None => slice_chars(piece, 0, piece.len()),
        },
    }
}

/// Replaces the `$name` and `${name}` references of a text: each by the
/// configured variable of its name, else by the environment variable (`env`
/// holds the environment's name and value pairs), else left as it is.
/// Positions are counted in characters.
pub fn substitute_text(text: &str, vars: Option<&Vec<(String, String)>>, env: &Vec<(String, String)>) -> (r: String)
    ensures
        r@ == subst(text@, 0, opt_pairs_view(vars), pairs_view(env@)),
{
    let ghost vv = opt_pairs_view(vars);
    let ghost ev = pairs_view(env@);
    let t = chars_of(text);
    let n = t.len();
    let mut out: Vec<char> = Vec::new();
    let mut i: usize = 0;
    while i < n
        invariant
            i <= n,
            n == t.len(),
            t@ == text@,
            vv == opt_pairs_view(vars),
            ev == pairs_view(env@),
            subst(t@, 0, vv, ev) == out@ + subst(t@, i as int, vv, ev),
        decreases n - i,
    {
        if t[i] == '$' {
            let e = find_span_end(&t, i);
            proof {
                lemma_span_end(t@, i as int);
            }
            let piece = slice_chars(&t, i, e);
            let rep = resolve_piece(vars, env, &piece);
            let ghost before = out@;
            let mut k: usize = 0;
            while k < rep.len()
                invariant
                    k <= rep.len(),
                    out@ == before + rep@.take(k as int),
                decreases rep.len() - k,
            {
                out.push(rep[k]);
                k = k + 1;
                assert(out@ =~= before + rep@.take(k as int));
            }
            assert(rep@.take(rep.len() as int) =~= rep@);
            assert(before + subst(t@, i as int, vv, ev) =~= (before + rep@) + subst(t@, e as int, vv, ev));
            i = e;
        } else {
            let ghost before = out@;
            out.push(t[i]);
            assert(before + subst(t@, i as int, vv, ev) =~= out@ + subst(t@, i + 1, vv, ev));
            i = i + 1;
        }
    }
    assert(out@ + subst(t@, n as int, vv, ev) =~= out@);
    string_of(&out)
}


/// A text without `$` has no reference: substitution leaves it as it is.
pub proof fn law_no_reference_unchanged(t: Seq<char>, vars: Option<Seq<(Seq<char>, Seq<char>)>>, env: Seq<(Seq<char>, Seq<char>)>)
    requires
        !t.contains('$'),
    ensures
        subst(t, 0, vars, env) == t,
{
    lemma_plain_suffix(t, 0, vars, env);
    assert(t.subrange(0, t.len() as int) =~= t);
}

proof fn lemma_plain_suffix(t: Seq<char>, i: int, vars: Option<Seq<(Seq<char>, Seq<char>)>>, env: Seq<(Seq<char>, Seq<char>)>)
    requires
        0 <= i <= t.len(),
        !t.contains('$'),
    ensures
        subst(t, i, vars, env) == t.subrange(i, t.len() as int),
    decreases t.len() - i,
{
    if i < t.len() {
        assert(t[i] != '$');
        lemma_plain_suffix(t, i + 1, vars, env);
        assert(seq![t[i]] + t.subrange(i + 1, t.len() as int) =~= t.subrange(i, t.len() as int));
    } else {
        assert(t.subrange(i, t.len() as int) =~= Seq::<char>::empty());
    }
}


/// `lookup` finds the first pair of a name, and nothing where no pair has it.
pub proof fn lemma_lookup_first(pairs: Seq<(Seq<char>, Seq<char>)>, name: Seq<char>)
    ensures
        forall|i: int| 0 <= i < pairs.len() && #[trigger] pairs[i].0 == name
            && (forall|j: int| 0 <= j < i ==> pairs[j].0 != name) ==> lookup(pairs, name) == Some(pairs[i].1),
        (forall|i: int| 0 <= i < pairs.len() ==> #[trigger] pairs[i].0 != name) ==> lookup(pairs, name) is None,
    decreases pairs.len(),
{
    if pairs.len() > 0 {
        let t = pairs.drop_first();
        lemma_lookup_first(t, name);
        assert forall|i: int| 0 <= i < pairs.len() && #[trigger] pairs[i].0 == name
            && (forall|j: int| 0 <= j < i ==> pairs[j].0 != name) implies lookup(pairs, name) == Some(pairs[i].1) by {
            if i > 0 {
                assert(pairs[0].0 != name);
                assert(t[i - 1] == pairs[i]);
                assert forall|j: int| 0 <= j < i - 1 implies t[j].0 != name by {
                    assert(t[j] == pairs[j + 1]);
                }
            }
        }
        if forall|i: int| 0 <= i < pairs.len() ==> #[trigger] pairs[i].0 != name {
            assert(pairs[0].0 != name);
            assert forall|i: int| 0 <= i < t.len() implies #[trigger] t[i].0 != name by {
                assert(t[i] == pairs[i + 1]);
            }
        }
    }
}

} // verus!
