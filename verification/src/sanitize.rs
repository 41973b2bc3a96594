//! Destination-name sanitization and composition: the canonical
//! `Title (Year) [Resolutionp]` name, cleaned of reserved device names and
//! characters no filesystem accepts, and truncated to 255 characters.

use vstd::prelude::*;
use crate::chars::is_ws_char;
use crate::chars::lower_seq;
use crate::chars::dec_str;
use crate::chars::ws_char;
use crate::chars::to_lower_vec;
use crate::chars::str_to_chars;
use crate::chars::chars_to_string;
use crate::chars::append_chars;
use crate::chars::u16_to_dec_chars;
use crate::models::MovieMetadata;

verus! {

/// Count of leading whitespace characters.
pub open spec fn ws_run(s: Seq<char>) -> nat
    decreases s.len(),
{
    if s.len() == 0 {
        0
    } else if !is_ws_char(s[0]) {
        0
    } else {
        1 + ws_run(s.drop_first())
    }
}

/// Count of trailing whitespace characters.
pub open spec fn ws_run_end(s: Seq<char>) -> nat
    decreases s.len(),
{
    if s.len() == 0 {
        0
    } else if !is_ws_char(s.last()) {
        0
    } else {
        1 + ws_run_end(s.drop_last())
    }
}

proof fn lemma_ws_run_determined(s: Seq<char>, k: int)
    requires
        0 <= k <= s.len(),
        forall|j: int| 0 <= j < k ==> is_ws_char(s[j]),
        k == s.len() || !is_ws_char(s[k]),
    ensures
        ws_run(s) == k,
    decreases k,
{
    if k > 0 {
        assert forall|j: int| 0 <= j < k - 1 implies is_ws_char(s.drop_first()[j]) by {
            assert(s.drop_first()[j] == s[j + 1]);
        }
        lemma_ws_run_determined(s.drop_first(), k - 1);
    }
}

proof fn lemma_ws_run_end_determined(s: Seq<char>, k: int)
    requires
        0 <= k <= s.len(),
        forall|j: int| s.len() - k <= j < s.len() ==> is_ws_char(s[j]),
        k == s.len() || !is_ws_char(s[s.len() - k - 1]),
    ensures
        ws_run_end(s) == k,
    decreases k,
{
    if k > 0 {
        assert(is_ws_char(s.last()));
        assert forall|j: int| s.drop_last().len() - (k - 1) <= j < s.drop_last().len() implies
            is_ws_char(s.drop_last()[j]) by {
            assert(s.drop_last()[j] == s[j]);
        }
        lemma_ws_run_end_determined(s.drop_last(), k - 1);
    }
}

/// `s` with leading and trailing whitespace removed.
pub open spec fn trim_spec(s: Seq<char>) -> Seq<char> {
    let t = s.skip(ws_run(s) as int);
    t.take(t.len() - ws_run_end(t))
}

/// Reserved device names, matched case-insensitively against the whole
/// trimmed name: CON, PRN, AUX, NUL, COM1-9, LPT1-9.
pub open spec fn is_reserved_name(t: Seq<char>) -> bool {
    let l = lower_seq(t);
    ||| l == seq!['c', 'o', 'n']
    ||| l == seq!['p', 'r', 'n']
    ||| l == seq!['a', 'u', 'x']
    ||| l == seq!['n', 'u', 'l']
    ||| (l.len() == 4 && (l.take(3) == seq!['c', 'o', 'm'] || l.take(3) == seq!['l', 'p', 't'])
        && '1' <= l[3] && l[3] <= '9')
}

/// Characters stripped from a destination name.
pub open spec fn is_invalid_char(c: char) -> bool {
    ||| c == '\0'
    ||| c == '/'
    ||| c == '\\'
    ||| c == '<'
    ||| c == '>'
    ||| c == ':'
    ||| c == '"'
    ||| c == '|'
    ||| c == '?'
    ||| c == '*'
}

/// `s` without its invalid characters, order kept.
pub open spec fn strip_invalid(s: Seq<char>) -> Seq<char>
    decreases s.len(),
{
    if s.len() == 0 {
        s
    } else if is_invalid_char(s.last()) {
        strip_invalid(s.drop_last())
    } else {
        strip_invalid(s.drop_last()) + seq![s.last()]
    }
}

/// At most the first 255 characters of `s`.
pub open spec fn truncate_255(s: Seq<char>) -> Seq<char> {
    if s.len() <= 255 {
        s
    } else {
        s.take(255)
    }
}

/// The sanitized destination name: trimmed, `None` when empty or reserved,
/// otherwise stripped of invalid characters and truncated.
pub open spec fn clean_spec(s: Seq<char>) -> Option<Seq<char>> {
    let t = trim_spec(s);
    if t.len() == 0 || is_reserved_name(t) {
        None
    } else {
        Some(truncate_255(strip_invalid(t)))
    }
}

/// The canonical pre-sanitization name: media name, then ` (year)` when known,
/// then ` [resolutionp]` when known.
pub open spec fn compose_base(name: Seq<char>, year: Option<u16>, res: Option<u16>) -> Seq<char> {
    let with_year = match year {
        Some(y) => name + seq![' ', '('] + dec_str(y as int) + seq![')'],
        None => name,
    };
    match res {
        Some(v) => with_year + seq![' ', '['] + dec_str(v as int) + seq!['p', ']'],
        None => with_year,
    }
}

/// The pre-sanitization composed name of a metadata record.
pub open spec fn composed_base_of(m: MovieMetadata) -> Seq<char> {
    compose_base(m.media_name@, m.release_year, m.resolution)
}

/// The sanitized composed name of a metadata record, when one exists.
pub open spec fn composed_of(m: MovieMetadata) -> Option<Seq<char>> {
    clean_spec(composed_base_of(m))
}

fn invalid_char(c: char) -> (r: bool)
    ensures
        r == is_invalid_char(c),
{
    c == '\0' || c == '/' || c == '\\' || c == '<' || c == '>' || c == ':' || c == '"' || c == '|'
        || c == '?' || c == '*'
}

/// Decides `is_reserved_name` on a character vector.
fn reserved_name(t: &Vec<char>) -> (r: bool)
    ensures
        r == is_reserved_name(t@),
{
    let l = to_lower_vec(t);
    let ghost ls = lower_seq(t@);
    if l.len() == 3 {
        let c0 = l[0];
        let c1 = l[1];
        let c2 = l[2];
        let hit = (c0 == 'c' && c1 == 'o' && c2 == 'n') || (c0 == 'p' && c1 == 'r' && c2 == 'n')
            || (c0 == 'a' && c1 == 'u' && c2 == 'x') || (c0 == 'n' && c1 == 'u' && c2 == 'l');
        proof {
            if hit {
                if c0 == 'c' {
                    assert(ls =~= seq!['c', 'o', 'n']);
                } else if c0 == 'p' {
                    assert(ls =~= seq!['p', 'r', 'n']);
                } else if c0 == 'a' {
                    assert(ls =~= seq!['a', 'u', 'x']);
                } else {
                    assert(ls =~= seq!['n', 'u', 'l']);
                }
            } else {
                if ls == seq!['c', 'o', 'n'] {
                    assert(c0 == 'c' && c1 == 'o' && c2 == 'n');
                }
                if ls == seq!['p', 'r', 'n'] {
                    assert(c0 == 'p' && c1 == 'r' && c2 == 'n');
                }
                if ls == seq!['a', 'u', 'x'] {
                    assert(c0 == 'a' && c1 == 'u' && c2 == 'x');
                }
                if ls == seq!['n', 'u', 'l'] {
                    assert(c0 == 'n' && c1 == 'u' && c2 == 'l');
                }
                assert(!is_reserved_name(t@));
            }
        }
        return hit;
    }
    if l.len() == 4 {
        let c0 = l[0];
        let c1 = l[1];
        let c2 = l[2];
        let c3 = l[3];
        let head = (c0 == 'c' && c1 == 'o' && c2 == 'm') || (c0 == 'l' && c1 == 'p' && c2 == 't');
        let digit = '1' <= c3 && c3 <= '9';
        let hit = head && digit;
        proof {
            if head {
                if c0 == 'c' {
                    assert(ls.take(3) =~= seq!['c', 'o', 'm']);
                } else {
                    assert(ls.take(3) =~= seq!['l', 'p', 't']);
                }
            } else {
                if ls.take(3) == seq!['c', 'o', 'm'] {
                    assert(ls[0] == 'c' && ls[1] == 'o' && ls[2] == 'm');
                }
                if ls.take(3) == seq!['l', 'p', 't'] {
                    assert(ls[0] == 'l' && ls[1] == 'p' && ls[2] == 't');
                }
                assert(!is_reserved_name(t@));
            }
        }
        return hit;
    }
    proof {
        assert(ls.len() != 3 && ls.len() != 4);
        assert(!is_reserved_name(t@));
    }
    false
}

/// Index of the first non-whitespace character; `s.len()` when all are.
fn skip_leading_ws(s: &Vec<char>) -> (a: usize)
    ensures
        a <= s.len(),
        forall|j: int| 0 <= j < a ==> is_ws_char(s@[j]),
        a < s.len() ==> !is_ws_char(s@[a as int]),
{
    let mut a: usize = 0;
    while a < s.len()
        invariant
            a <= s.len(),
            forall|j: int| 0 <= j < a ==> is_ws_char(s@[j]),
        decreases s.len() - a,
    {
        if !ws_char(s[a]) {
            return a;
        }
        a += 1;
    }
    a
}

/// Index of the last non-whitespace character, at or after `a`.
fn last_non_ws_at_or_after(s: &Vec<char>, a: usize) -> (b: usize)
    requires
        a < s.len(),
        !is_ws_char(s@[a as int]),
    ensures
        a <= b < s.len(),
        !is_ws_char(s@[b as int]),
        forall|j: int| b < j < s.len() ==> is_ws_char(s@[j]),
{
    let mut b: usize = s.len() - 1;
    while b > a
        invariant
            a <= b < s.len(),
            forall|j: int| b < j < s.len() ==> is_ws_char(s@[j]),
        decreases b,
    {
        if !ws_char(s[b]) {
            return b;
        }
        b -= 1;
    }
    b
}

/// Sanitizes a character vector; decides `clean_spec`.
fn clean_chars(s: &Vec<char>) -> (r: Option<Vec<char>>)
    ensures
        match r {
            Some(v) => clean_spec(s@) == Some(v@),
            None => clean_spec(s@) is None,
        },
{
    let n = s.len();
    let a = skip_leading_ws(s);
    proof {
        lemma_ws_run_determined(s@, a as int);
    }
    if a == n {
        proof {
            assert(s@.skip(a as int).len() == 0);
            assert(trim_spec(s@).len() == 0);
        }
        return None;
    }
    let b = last_non_ws_at_or_after(s, a);
    assert(!is_ws_char(s@[b as int]));
    let ghost t = s@.skip(a as int);
    proof {
        assert(t.len() == n - a);
        assert forall|j: int| t.len() - (n - 1 - b) <= j < t.len() implies is_ws_char(t[j]) by {
            assert(t[j] == s@[j + a]);
        }
        assert(t[b - a] == s@[b as int]);
        lemma_ws_run_end_determined(t, n - 1 - b);
        assert(trim_spec(s@) =~= s@.subrange(a as int, b + 1));
    }
    let mut trimmed: Vec<char> = Vec::new();
    let mut i = a;
    while i <= b
        invariant
            a <= i <= b + 1,
            b < n == s.len(),
            trimmed@.len() == i - a,
            forall|j: int| 0 <= j < i - a ==> trimmed@[j] == s@[a + j],
        decreases b + 1 - i,
    {
        trimmed.push(s[i]);
        i += 1;
    }
    assert(trimmed@ =~= trim_spec(s@));
    if reserved_name(&trimmed) {
        return None;
    }
    let mut kept: Vec<char> = Vec::new();
    let mut k: usize = 0;
    proof {
        assert(trimmed@.take(0) =~= Seq::<char>::empty());
        assert(strip_invalid(trimmed@.take(0)) =~= Seq::<char>::empty());
    }
    while k < trimmed.len()
        invariant
            k <= trimmed.len(),
            kept@ == strip_invalid(trimmed@.take(k as int)),
        decreases trimmed.len() - k,
    {
        let c = trimmed[k];
        proof {
            assert(trimmed@.take(k + 1).drop_last() =~= trimmed@.take(k as int));
            assert(trimmed@.take(k + 1).last() == c);
        }
        if !invalid_char(c) {
            kept.push(c);
        }
        k += 1;
    }
    proof {
        assert(trimmed@.take(trimmed@.len() as int) =~= trimmed@);
    }
    if kept.len() <= 255 {
        Some(kept)
    } else {
        let mut cut: Vec<char> = Vec::new();
        let mut m: usize = 0;
        while m < 255
            invariant
                kept@.len() > 255,
                m <= 255,
                cut@.len() == m,
                forall|j: int| 0 <= j < m ==> cut@[j] == kept@[j],
            decreases 255 - m,
        {
            cut.push(kept[m]);
            m += 1;
        }
        assert(cut@ =~= truncate_255(kept@));
        Some(cut)
    }
}

/// Sanitizes a destination filename: trims whitespace, rejects empty and
/// reserved device names with `None`, strips invalid characters and truncates
/// to 255 characters.
pub fn clean_filename(filename: &str) -> (r: Option<String>)
    ensures
        match r {
            Some(out) => clean_spec(filename@) == Some(out@),
            None => clean_spec(filename@) is None,
        },
{
    let chars = str_to_chars(filename);
    match clean_chars(&chars) {
        Some(v) => Some(chars_to_string(&v)),
        None => None,
    }
}

fn compose_base_chars(metadata: &MovieMetadata) -> (r: Vec<char>)
    ensures
        r@ == composed_base_of(*metadata),
{
    let mut base = str_to_chars(metadata.media_name.as_str());
    if let Some(y) = metadata.release_year {
        base.push(' ');
        base.push('(');
        let digits = u16_to_dec_chars(y);
        append_chars(&mut base, &digits);
        base.push(')');
        proof {
            assert(base@ =~= metadata.media_name@ + seq![' ', '('] + dec_str(y as int)
                + seq![')']);
        }
    }
    let ghost with_year = base@;
    if let Some(v) = metadata.resolution {
        base.push(' ');
        base.push('[');
        let digits = u16_to_dec_chars(v);
        append_chars(&mut base, &digits);
        base.push('p');
        base.push(']');
        proof {
            assert(base@ =~= with_year + seq![' ', '['] + dec_str(v as int) + seq!['p', ']']);
        }
    }
    base
}

/// The canonical display name of a metadata record, sanitized; `None` when
/// sanitization rejects it (empty or a reserved device name).
pub fn compose_media_name_checked(metadata: &MovieMetadata) -> (r: Option<String>)
    ensures
        match r {
            Some(out) => composed_of(*metadata) == Some(out@),
            None => composed_of(*metadata) is None,
        },
{
    let base = compose_base_chars(metadata);
    match clean_chars(&base) {
        Some(v) => Some(chars_to_string(&v)),
        None => None,
    }
}

/// The canonical display name of a metadata record: media name, optional
/// ` (year)`, optional ` [resolutionp]`, sanitized. The caller owes a record
/// whose composed name survives sanitization.
pub fn compose_media_name_from_metadata(metadata: &MovieMetadata) -> (r: String)
    requires
        composed_of(*metadata) is Some,
    ensures
        Some(r@) == composed_of(*metadata),
{
    let base = compose_base_chars(metadata);
    match clean_chars(&base) {
        Some(v) => chars_to_string(&v),
        None => {
            proof {
                assert(false);
            }
            String::new()
        },
    }
}

} // verus!
