//! Tokenization of a release-file stem: dots become spaces, the stem is split
//! on whitespace, and title tokens are later joined back with single spaces.

use vstd::prelude::*;
use crate::chars::is_ws_char;
use crate::chars::ws_char;

verus! {

/// The views of a vector of character vectors.
pub open spec fn views_of(ts: Seq<Vec<char>>) -> Seq<Seq<char>> {
    ts.map_values(|t: Vec<char>| t@)
}

/// Length of the maximal whitespace-free prefix of `s`.
pub open spec fn token_len(s: Seq<char>) -> nat
    decreases s.len(),
{
    if s.len() == 0 {
        0
    } else if is_ws_char(s[0]) {
        0
    } else {
        1 + token_len(s.drop_first())
    }
}

pub proof fn lemma_token_len(s: Seq<char>)
    ensures
        token_len(s) <= s.len(),
        forall|j: int| 0 <= j < token_len(s) ==> !is_ws_char(s[j]),
        token_len(s) < s.len() ==> is_ws_char(s[token_len(s) as int]),
    decreases s.len(),
{
    if s.len() > 0 && !is_ws_char(s[0]) {
        lemma_token_len(s.drop_first());
        assert forall|j: int| 0 <= j < token_len(s) implies !is_ws_char(s[j]) by {
            if j > 0 {
                assert(!is_ws_char(s.drop_first()[j - 1]));
            }
        }
        if token_len(s) < s.len() {
            assert(is_ws_char(s.drop_first()[token_len(s.drop_first()) as int]));
        }
    }
}

/// The whitespace-free prefix is as long as the evidence says.
pub proof fn lemma_token_len_determined(s: Seq<char>, k: int)
    requires
        0 <= k <= s.len(),
        forall|m: int| 0 <= m < k ==> !is_ws_char(s[m]),
        k == s.len() || is_ws_char(s[k]),
    ensures
        token_len(s) == k,
    decreases k,
{
    if k > 0 {
        assert(!is_ws_char(s[0]));
        assert forall|m: int| 0 <= m < k - 1 implies !is_ws_char(s.drop_first()[m]) by {
            assert(s.drop_first()[m] == s[m + 1]);
        }
        lemma_token_len_determined(s.drop_first(), k - 1);
    }
}

/// The tokens of `s`: maximal whitespace-free runs, in order.
pub open spec fn split_ws(s: Seq<char>) -> Seq<Seq<char>>
    decreases s.len(),
    via split_ws_decreases
{
    if s.len() == 0 {
        Seq::empty()
    } else if is_ws_char(s[0]) {
        split_ws(s.drop_first())
    } else {
        seq![s.take(token_len(s) as int)] + split_ws(s.skip(token_len(s) as int))
    }
}

#[via_fn]
proof fn split_ws_decreases(s: Seq<char>) {
    if s.len() > 0 && !is_ws_char(s[0]) {
        lemma_token_len(s);
        assert(token_len(s) >= 1);
    }
}

/// A token: nonempty and whitespace-free.
pub open spec fn good_token(t: Seq<char>) -> bool {
    t.len() > 0 && forall|j: int| 0 <= j < t.len() ==> !is_ws_char(t[j])
}

pub proof fn lemma_split_ws_tokens(s: Seq<char>)
    ensures
        forall|k: int| 0 <= k < split_ws(s).len() ==> good_token(#[trigger] split_ws(s)[k]),
    decreases s.len(),
{
    if s.len() == 0 {
    } else if is_ws_char(s[0]) {
        lemma_split_ws_tokens(s.drop_first());
        assert forall|k: int| 0 <= k < split_ws(s).len() implies good_token(
            #[trigger] split_ws(s)[k],
        ) by {
            assert(split_ws(s)[k] == split_ws(s.drop_first())[k]);
        }
    } else {
        lemma_token_len(s);
        let t = s.take(token_len(s) as int);
        let rest = split_ws(s.skip(token_len(s) as int));
        lemma_split_ws_tokens(s.skip(token_len(s) as int));
        assert(token_len(s) >= 1);
        assert(good_token(t));
        assert(split_ws(s) == seq![t] + rest);
        assert forall|k: int| 0 <= k < split_ws(s).len() implies good_token(
            #[trigger] split_ws(s)[k],
        ) by {
            if k == 0 {
                assert(split_ws(s)[0] == t);
            } else {
                assert(split_ws(s)[k] == rest[k - 1]);
            }
        }
    }
}

/// The title tokens joined with single spaces.
pub open spec fn join_space(ts: Seq<Seq<char>>) -> Seq<char>
    decreases ts.len(),
{
    if ts.len() == 0 {
        Seq::empty()
    } else if ts.len() == 1 {
        ts[0]
    } else {
        ts[0] + seq![' '] + join_space(ts.drop_first())
    }
}

pub proof fn lemma_join_push(ts: Seq<Seq<char>>, t: Seq<char>)
    ensures
        ts.len() == 0 ==> join_space(ts.push(t)) == t,
        ts.len() > 0 ==> join_space(ts.push(t)) == join_space(ts) + seq![' '] + t,
    decreases ts.len(),
{
    if ts.len() == 0 {
        assert(ts.push(t)[0] == t);
    } else if ts.len() == 1 {
        assert(ts.push(t).drop_first() =~= seq![t]);
        assert(join_space(seq![t]) == seq![t][0]);
        assert(seq![t][0] == t);
        assert(ts.push(t)[0] == ts[0]);
        assert(join_space(ts.push(t)) == ts[0] + seq![' '] + t);
    } else {
        lemma_join_push(ts.drop_first(), t);
        assert(ts.push(t).drop_first() =~= ts.drop_first().push(t));
        assert(ts.push(t)[0] == ts[0]);
        assert(join_space(ts.push(t)) == ts[0] + seq![' '] + (join_space(ts.drop_first())
            + seq![' '] + t));
        assert(ts[0] + seq![' '] + (join_space(ts.drop_first()) + seq![' '] + t) =~= (ts[0]
            + seq![' '] + join_space(ts.drop_first())) + seq![' '] + t);
    }
}

/// Splitting undoes joining, for nonempty whitespace-free tokens.
pub proof fn lemma_split_join(ts: Seq<Seq<char>>)
    requires
        forall|k: int| 0 <= k < ts.len() ==> good_token(#[trigger] ts[k]),
    ensures
        split_ws(join_space(ts)) == ts,
    decreases ts.len(),
{
    if ts.len() == 0 {
        assert(split_ws(join_space(ts)) =~= ts);
    } else if ts.len() == 1 {
        let t = ts[0];
        assert(good_token(t));
        assert(join_space(ts) == t);
        lemma_token_len_determined(t, t.len() as int);
        assert(t.take(t.len() as int) =~= t);
        assert(t.skip(t.len() as int) =~= Seq::<char>::empty());
        assert(split_ws(Seq::<char>::empty()) =~= Seq::<Seq<char>>::empty());
        assert(split_ws(t) =~= seq![t]);
        assert(ts =~= seq![t]);
    } else {
        let t = ts[0];
        let s = join_space(ts);
        let rest = join_space(ts.drop_first());
        assert(good_token(t));
        assert(s == t + seq![' '] + rest);
        assert forall|m: int| 0 <= m < t.len() implies !is_ws_char(s[m]) by {
            assert(s[m] == t[m]);
        }
        assert(is_ws_char(s[t.len() as int]));
        lemma_token_len_determined(s, t.len() as int);
        assert(s.take(t.len() as int) =~= t);
        let after = s.skip(t.len() as int);
        assert(after[0] == ' ');
        assert(is_ws_char(after[0]));
        assert(after.drop_first() =~= rest);
        lemma_split_join(ts.drop_first());
        assert(split_ws(after) == split_ws(rest));
        assert(split_ws(s) == seq![t] + split_ws(after));
        assert(seq![t] + ts.drop_first() =~= ts);
    }
}

/// Dots act as separators: they are turned into spaces before splitting.
pub open spec fn replace_dots(s: Seq<char>) -> Seq<char> {
    s.map_values(|c: char| if c == '.' { ' ' } else { c })
}

/// Index of the last `.` in `s`, if any.
pub open spec fn rfind_dot(s: Seq<char>) -> Option<int>
    decreases s.len(),
{
    if s.len() == 0 {
        None
    } else if s.last() == '.' {
        Some(s.len() - 1)
    } else {
        rfind_dot(s.drop_last())
    }
}

pub proof fn lemma_rfind_dot_some(s: Seq<char>, i: int)
    requires
        rfind_dot(s) == Some(i),
    ensures
        0 <= i < s.len(),
        s[i] == '.',
    decreases s.len(),
{
    if s.len() > 0 && s.last() != '.' {
        lemma_rfind_dot_some(s.drop_last(), i);
    }
}

/// The part of a filename before its last dot; the whole name when it has none.
pub open spec fn stem_of(name: Seq<char>) -> Seq<char> {
    match rfind_dot(name) {
        Some(i) => name.take(i),
        None => name,
    }
}

/// The part of a filename after its last dot; empty when it has none.
pub open spec fn ext_of(name: Seq<char>) -> Seq<char> {
    match rfind_dot(name) {
        Some(i) => name.skip(i + 1),
        None => Seq::empty(),
    }
}

pub fn replace_dots_vec(v: &Vec<char>) -> (r: Vec<char>)
    ensures
        r@ == replace_dots(v@),
{
    let mut r: Vec<char> = Vec::new();
    let mut i: usize = 0;
    while i < v.len()
        invariant
            i <= v.len(),
            r@.len() == i,
            forall|j: int| 0 <= j < i ==> r@[j] == replace_dots(v@)[j],
        decreases v.len() - i,
    {
        let c = v[i];
        r.push(if c == '.' { ' ' } else { c });
        i += 1;
    }
    assert(r@ =~= replace_dots(v@));
    r
}

/// First whitespace position at or after `start`; `v.len()` when there is none.
fn token_end(v: &Vec<char>, start: usize) -> (e: usize)
    requires
        start <= v.len(),
    ensures
        start <= e <= v.len(),
        forall|m: int| start <= m < e ==> !is_ws_char(v@[m]),
        e < v.len() ==> is_ws_char(v@[e as int]),
{
    let mut j = start;
    while j < v.len()
        invariant
            start <= j <= v.len(),
            forall|m: int| start <= m < j ==> !is_ws_char(v@[m]),
        decreases v.len() - j,
    {
        if ws_char(v[j]) {
            return j;
        }
        j += 1;
    }
    j
}

/// Splits into whitespace-separated tokens; computes `split_ws`.
pub fn tokenize(v: &Vec<char>) -> (r: Vec<Vec<char>>)
    ensures
        views_of(r@) == split_ws(v@),
{
    let mut toks: Vec<Vec<char>> = Vec::new();
    let mut i: usize = 0;
    proof {
        assert(v@.skip(0) =~= v@);
        assert(views_of(toks@) =~= Seq::<Seq<char>>::empty());
        assert(views_of(toks@) + split_ws(v@) =~= split_ws(v@));
    }
    while i < v.len()
        invariant
            i <= v.len(),
            split_ws(v@) == views_of(toks@) + split_ws(v@.skip(i as int)),
        decreases v.len() - i,
    {
        if ws_char(v[i]) {
            proof {
                assert(v@.skip(i as int)[0] == v@[i as int]);
                assert(v@.skip(i as int).drop_first() =~= v@.skip(i + 1));
            }
            i += 1;
        } else {
            let start = i;
            let e = token_end(v, i);
            let mut t: Vec<char> = Vec::new();
            let mut k = start;
            while k < e
                invariant
                    start <= k <= e,
                    e <= v.len(),
                    t@.len() == k - start,
                    forall|m: int| 0 <= m < k - start ==> t@[m] == v@[start + m],
                decreases e - k,
            {
                t.push(v[k]);
                k += 1;
            }
            proof {
                let tail = v@.skip(start as int);
                assert(tail[0] == v@[start as int]);
                assert(!is_ws_char(tail[0]));
                assert forall|m: int| 0 <= m < e - start implies !is_ws_char(tail[m]) by {
                    assert(tail[m] == v@[start + m]);
                }
                if e < v.len() {
                    assert(is_ws_char(tail[e - start]));
                }
                lemma_token_len_determined(tail, e - start);
                assert(tail.take(e - start) =~= t@);
                assert(tail.skip(e - start) =~= v@.skip(e as int));
                assert(split_ws(tail) == seq![t@] + split_ws(v@.skip(e as int)));
                let old_deep = views_of(toks@);
                assert(old_deep + (seq![t@] + split_ws(v@.skip(e as int))) =~= old_deep.push(t@)
                    + split_ws(v@.skip(e as int)));
            }
            let ghost old_deep = views_of(toks@);
            toks.push(t);
            proof {
                assert(views_of(toks@) =~= old_deep.push(t@));
            }
            i = e;
        }
    }
    proof {
        assert(v@.skip(v@.len() as int) =~= Seq::<char>::empty());
        assert(views_of(toks@) =~= split_ws(v@));
    }
    toks
}

/// Joins tokens with single spaces; computes `join_space`.
pub fn join_space_vec(ts: &Vec<Vec<char>>) -> (r: Vec<char>)
    ensures
        r@ == join_space(views_of(ts@)),
{
    let mut r: Vec<char> = Vec::new();
    let mut i: usize = 0;
    proof {
        assert(views_of(ts@).take(0) =~= Seq::<Seq<char>>::empty());
    }
    while i < ts.len()
        invariant
            i <= ts.len(),
            r@ == join_space(views_of(ts@).take(i as int)),
        decreases ts.len() - i,
    {
        if i > 0 {
            r.push(' ');
        }
        let t = &ts[i];
        let mut k: usize = 0;
        let ghost before = r@;
        while k < t.len()
            invariant
                k <= t.len(),
                r@ == before + t@.take(k as int),
            decreases t.len() - k,
        {
            let ghost prev = r@;
            r.push(t[k]);
            proof {
                assert(prev.push(t@[k as int]) =~= before + t@.take(k + 1));
            }
            k += 1;
        }
        proof {
            assert(t@.take(t@.len() as int) =~= t@);
            let done = views_of(ts@).take(i as int);
            lemma_join_push(done, t@);
            assert(done.push(t@) =~= views_of(ts@).take(i + 1));
            if i == 0 {
                assert(before =~= join_space(done) + Seq::<char>::empty());
                assert(r@ =~= t@);
                assert(r@ =~= join_space(views_of(ts@).take(i + 1)));
            } else {
                assert(done.len() > 0);
                assert(before =~= join_space(done).push(' '));
                assert(r@ =~= join_space(done) + seq![' '] + t@);
                assert(r@ =~= join_space(views_of(ts@).take(i + 1)));
            }
        }
        i += 1;
    }
    proof {
        assert(views_of(ts@).take(ts@.len() as int) =~= views_of(ts@));
    }
    r
}

/// Index of the last dot, scanning from the end; decides `rfind_dot`.
pub fn rfind_dot_vec(v: &Vec<char>) -> (r: Option<usize>)
    ensures
        match r {
            Some(i) => rfind_dot(v@) == Some(i as int),
            None => rfind_dot(v@) is None,
        },
{
    let mut i = v.len();
    proof {
        assert(v@.take(v@.len() as int) =~= v@);
    }
    while i > 0
        invariant
            i <= v.len(),
            rfind_dot(v@) == rfind_dot(v@.take(i as int)),
        decreases i,
    {
        i -= 1;
        if v[i] == '.' {
            proof {
                let pre = v@.take(i + 1);
                assert(pre.last() == v@[i as int]);
            }
            return Some(i);
        }
        proof {
            let pre = v@.take(i + 1);
            assert(pre.last() == v@[i as int]);
            assert(pre.drop_last() =~= v@.take(i as int));
        }
    }
    proof {
        assert(v@.take(0) =~= Seq::<char>::empty());
    }
    None
}

} // verus!
