//! URL helpers for the external title lookup: RFC 3986 percent-encoding of
//! the query (unreserved characters pass through, every other byte becomes
//! `%XX` with uppercase hex), and extraction of a title id from a result
//! link.

use vstd::prelude::*;
use vstd::utf8::encode_utf8;
use crate::chars::matches_at;
use crate::chars::str_to_chars;
use crate::chars::chars_to_string;

verus! {

/// RFC 3986 unreserved bytes: ASCII alphanumerics and `-`, `.`, `_`, `~`.
pub open spec fn is_unreserved_byte(b: u8) -> bool {
    ||| (48 <= b && b <= 57)
    ||| (65 <= b && b <= 90)
    ||| (97 <= b && b <= 122)
    ||| b == 45
    ||| b == 46
    ||| b == 95
    ||| b == 126
}

/// Uppercase hex digit of a nibble.
pub open spec fn hex_digit(n: int) -> char {
    if n < 10 {
        ((48 + n) as u8) as char
    } else {
        ((55 + n) as u8) as char
    }
}

/// What one byte encodes to.
pub open spec fn encoded_byte(b: u8) -> Seq<char> {
    if is_unreserved_byte(b) {
        seq![b as char]
    } else {
        seq!['%', hex_digit(b as int / 16), hex_digit(b as int % 16)]
    }
}

/// The percent-encoding of a byte sequence.
pub open spec fn percent_encoded(bs: Seq<u8>) -> Seq<char>
    decreases bs.len(),
{
    if bs.len() == 0 {
        Seq::empty()
    } else {
        percent_encoded(bs.drop_last()) + encoded_byte(bs.last())
    }
}

/// Percent-encodes the UTF-8 bytes of `input`, leaving only unreserved
/// characters as they are.
pub fn url_encode(input: &str) -> (r: String)
    ensures
        r@ == percent_encoded(encode_utf8(input@)),
{
    let bytes = input.as_bytes_vec();
    let mut out: Vec<char> = Vec::new();
    let mut i: usize = 0;
    proof {
        assert(bytes@.take(0) =~= Seq::<u8>::empty());
        assert(out@ =~= percent_encoded(bytes@.take(0)));
    }
    while i < bytes.len()
        invariant
            i <= bytes@.len(),
            out@ == percent_encoded(bytes@.take(i as int)),
        decreases bytes@.len() - i,
    {
        let b = bytes[i];
        proof {
            assert(bytes@.take(i + 1).drop_last() =~= bytes@.take(i as int));
            assert(bytes@.take(i + 1).last() == b);
        }
        let ghost before = out@;
        let unreserved = (48 <= b && b <= 57) || (65 <= b && b <= 90) || (97 <= b && b <= 122)
            || b == 45 || b == 46 || b == 95 || b == 126;
        if unreserved {
            out.push(b as char);
            proof {
                assert(out@ =~= before + encoded_byte(b));
            }
        } else {
            let hi = b / 16;
            let lo = b % 16;
            out.push('%');
            out.push(if hi < 10 {
                (48 + hi) as char
            } else {
                (55 + hi) as char
            });
            out.push(if lo < 10 {
                (48 + lo) as char
            } else {
                (55 + lo) as char
            });
            proof {
                assert(out@ =~= before + encoded_byte(b));
            }
        }
        proof {
            assert(out@ =~= percent_encoded(bytes@.take(i + 1)));
        }
        i += 1;
    }
    proof {
        assert(bytes@.take(bytes@.len() as int) =~= bytes@);
    }
    chars_to_string(&out)
}

/// Position of the first occurrence of `pat` in `s`.
pub open spec fn first_match(s: Seq<char>, pat: Seq<char>) -> Option<int>
    decreases s.len(),
{
    if s.len() < pat.len() {
        None
    } else if matches_at(s, pat, 0) {
        Some(0)
    } else if s.len() == 0 {
        None
    } else {
        match first_match(s.drop_first(), pat) {
            Some(i) => Some(i + 1),
            None => None,
        }
    }
}

proof fn lemma_first_match_here(s: Seq<char>, pat: Seq<char>, i: int)
    requires
        matches_at(s, pat, i),
        forall|k: int| 0 <= k < i ==> !matches_at(s, pat, k),
    ensures
        first_match(s, pat) == Some(i),
    decreases i,
{
    if i == 0 {
    } else {
        assert(!matches_at(s, pat, 0));
        assert(s.len() >= pat.len());
        let t = s.drop_first();
        assert forall|j: int| 0 <= j < pat.len() implies t[i - 1 + j] == pat[j] by {
            assert(t[i - 1 + j] == s[i + j]);
        }
        assert(matches_at(t, pat, i - 1));
        assert forall|k: int| 0 <= k < i - 1 implies !matches_at(t, pat, k) by {
            if matches_at(t, pat, k) {
                assert forall|j: int| 0 <= j < pat.len() implies s[k + 1 + j] == pat[j] by {
                    assert(t[k + j] == s[k + 1 + j]);
                }
                assert(matches_at(s, pat, k + 1));
            }
        }
        lemma_first_match_here(t, pat, i - 1);
    }
}

proof fn lemma_first_match_none(s: Seq<char>, pat: Seq<char>)
    requires
        forall|k: int| !matches_at(s, pat, k),
    ensures
        first_match(s, pat) is None,
    decreases s.len(),
{
    if s.len() >= pat.len() && s.len() > 0 {
        let t = s.drop_first();
        assert forall|k: int| !matches_at(t, pat, k) by {
            if matches_at(t, pat, k) {
                assert forall|j: int| 0 <= j < pat.len() implies s[k + 1 + j] == pat[j] by {
                    assert(t[k + j] == s[k + 1 + j]);
                }
                assert(matches_at(s, pat, k + 1));
            }
        }
        lemma_first_match_none(t, pat);
    }
}

/// Finds the first occurrence of `pat`; decides `first_match`.
fn first_match_vec(s: &Vec<char>, pat: &Vec<char>) -> (r: Option<usize>)
    ensures
        match r {
            Some(i) => first_match(s@, pat@) == Some(i as int),
            None => first_match(s@, pat@) is None,
        },
{
    if pat.len() > s.len() {
        proof {
            assert(forall|k: int| !matches_at(s@, pat@, k));
            lemma_first_match_none(s@, pat@);
        }
        return None;
    }
    let mut i: usize = 0;
    while i <= s.len() - pat.len()
        invariant
            pat.len() <= s.len(),
            i <= s.len() - pat.len() + 1,
            forall|k: int| 0 <= k < i ==> !matches_at(s@, pat@, k),
        decreases s.len() + 1 - pat.len() - i,
    {
        let mut j: usize = 0;
        let mut ok = true;
        while j < pat.len()
            invariant
                pat.len() <= s.len(),
                i <= s.len() - pat.len(),
                j <= pat.len(),
                ok ==> forall|m: int| 0 <= m < j ==> s@[i + m] == pat@[m],
                !ok ==> !matches_at(s@, pat@, i as int),
            decreases pat.len() - j,
        {
            if s[i + j] != pat[j] {
                ok = false;
                j = pat.len();
            } else {
                j += 1;
            }
        }
        if ok {
            proof {
                assert(matches_at(s@, pat@, i as int));
                lemma_first_match_here(s@, pat@, i as int);
            }
            return Some(i);
        }
        i += 1;
    }
    proof {
        assert(forall|k: int| !matches_at(s@, pat@, k));
        lemma_first_match_none(s@, pat@);
    }
    None
}

/// The title id inside a result link: the characters between the first
/// `/title/` and the next `/`, or to the end when no `/` follows; `None`
/// when the link holds no `/title/`.
pub open spec fn title_id_of(href: Seq<char>) -> Option<Seq<char>> {
    match first_match(href, seq!['/', 't', 'i', 't', 'l', 'e', '/']) {
        None => None,
        Some(i) => {
            let rest = href.skip(i + 7);
            match first_match(rest, seq!['/']) {
                Some(e) => Some(rest.take(e)),
                None => Some(rest),
            }
        },
    }
}

/// Extracts the title id from a result link; decides `title_id_of`.
pub fn extract_title_id(href: &str) -> (r: Option<String>)
    ensures
        match r {
            Some(id) => title_id_of(href@) == Some(id@),
            None => title_id_of(href@) is None,
        },
{
    let chars = str_to_chars(href);
    let pat: Vec<char> = vec!['/', 't', 'i', 't', 'l', 'e', '/'];
    proof {
        assert(pat@ =~= seq!['/', 't', 'i', 't', 'l', 'e', '/']);
    }
    match first_match_vec(&chars, &pat) {
        None => None,
        Some(i) => {
            let n = chars.len();
            proof {
                lemma_first_match_bound(chars@, pat@);
                assert(i + 7 <= n);
            }
            let mut rest: Vec<char> = Vec::new();
            let mut k = i + 7;
            while k < chars.len()
                invariant
                    i + 7 <= k <= chars@.len(),
                    rest@.len() == k - i - 7,
                    forall|j: int| 0 <= j < k - i - 7 ==> rest@[j] == chars@[i + 7 + j],
                decreases chars@.len() - k,
            {
                rest.push(chars[k]);
                k += 1;
            }
            proof {
                assert(rest@ =~= chars@.skip(i + 7));
            }
            let slash: Vec<char> = vec!['/'];
            proof {
                assert(slash@ =~= seq!['/']);
            }
            match first_match_vec(&rest, &slash) {
                Some(e) => {
                    proof {
                        lemma_first_match_bound(rest@, slash@);
                    }
                    let mut id: Vec<char> = Vec::new();
                    let mut m: usize = 0;
                    while m < e
                        invariant
                            m <= e <= rest@.len(),
                            id@.len() == m,
                            forall|j: int| 0 <= j < m ==> id@[j] == rest@[j],
                        decreases e - m,
                    {
                        id.push(rest[m]);
                        m += 1;
                    }
                    proof {
                        assert(id@ =~= rest@.take(e as int));
                    }
                    Some(chars_to_string(&id))
                },
                None => Some(chars_to_string(&rest)),
            }
        },
    }
}

proof fn lemma_first_match_bound(s: Seq<char>, pat: Seq<char>)
    requires
        first_match(s, pat) is Some,
    ensures
        0 <= first_match(s, pat).unwrap(),
        first_match(s, pat).unwrap() + pat.len() <= s.len(),
    decreases s.len(),
{
    if s.len() < pat.len() {
    } else if matches_at(s, pat, 0) {
    } else if s.len() == 0 {
    } else {
        lemma_first_match_bound(s.drop_first(), pat);
    }
}

} // verus!
