//! Classification of a single token: standalone year, resolution, or encoding
//! format. The first token matching any of these starts the metadata phase.

use vstd::prelude::*;
use crate::chars::is_digit_char;
use crate::chars::digit_val;
use crate::chars::lower_seq;
use crate::chars::contains_seq;
use crate::chars::digit_char;
use crate::chars::to_lower_vec;
use crate::chars::contains_vec;
use crate::models::MediaEncodingFormat;

verus! {

/// A standalone year: exactly four digits, beginning `19` or `20`.
pub open spec fn is_year_token(t: Seq<char>) -> bool {
    &&& t.len() == 4
    &&& forall|i: int| 0 <= i < 4 ==> is_digit_char(t[i])
    &&& ((t[0] == '1' && t[1] == '9') || (t[0] == '2' && t[1] == '0'))
}

/// Numeric value of a year token.
pub open spec fn year_val(t: Seq<char>) -> u16
    recommends
        is_year_token(t),
{
    (digit_val(t[0]) * 1000 + digit_val(t[1]) * 100 + digit_val(t[2]) * 10 + digit_val(
        t[3],
    )) as u16
}

/// A resolution token: exactly `4K`, `720p`, `1080p` or `2160p`.
pub open spec fn is_resolution_token(t: Seq<char>) -> bool {
    ||| t == seq!['4', 'K']
    ||| t == seq!['7', '2', '0', 'p']
    ||| t == seq!['1', '0', '8', '0', 'p']
    ||| t == seq!['2', '1', '6', '0', 'p']
}

/// Normalized resolution: `4K` and `2160p` mean 2160.
pub open spec fn resolution_val(t: Seq<char>) -> u16
    recommends
        is_resolution_token(t),
{
    if t == seq!['4', 'K'] || t == seq!['2', '1', '6', '0', 'p'] {
        2160
    } else if t == seq!['1', '0', '8', '0', 'p'] {
        1080
    } else {
        720
    }
}

/// The format a token mentions anywhere, case-insensitively, checked in the
/// order `x264`, `x265`, `h264`, `h265`; `None` when it mentions none.
pub open spec fn encoding_hit(t: Seq<char>) -> Option<MediaEncodingFormat> {
    let l = lower_seq(t);
    if contains_seq(l, seq!['x', '2', '6', '4']) {
        Some(MediaEncodingFormat::X264)
    } else if contains_seq(l, seq!['x', '2', '6', '5']) {
        Some(MediaEncodingFormat::X265)
    } else if contains_seq(l, seq!['h', '2', '6', '4']) {
        Some(MediaEncodingFormat::H264)
    } else if contains_seq(l, seq!['h', '2', '6', '5']) {
        Some(MediaEncodingFormat::H265)
    } else {
        None
    }
}

/// A token that mentions an encoding format anywhere, case-insensitively.
/// Such a token starts the metadata phase.
pub open spec fn is_encoding_trigger(t: Seq<char>) -> bool {
    encoding_hit(t) is Some
}

/// The format named by a whole token, case- and dot-insensitively;
/// `None` when the token is not an exact name.
pub open spec fn encoding_of(t: Seq<char>) -> Option<MediaEncodingFormat> {
    let l = lower_seq(t);
    if l == seq!['x', '2', '6', '4'] || l == seq!['x', '.', '2', '6', '4'] {
        Some(MediaEncodingFormat::X264)
    } else if l == seq!['x', '2', '6', '5'] || l == seq!['x', '.', '2', '6', '5'] {
        Some(MediaEncodingFormat::X265)
    } else if l == seq!['h', '2', '6', '4'] || l == seq!['h', '.', '2', '6', '4'] {
        Some(MediaEncodingFormat::H264)
    } else if l == seq!['h', '2', '6', '5'] || l == seq!['h', '.', '2', '6', '5'] {
        Some(MediaEncodingFormat::H265)
    } else {
        None
    }
}

/// A token is metadata when any of the three classifiers accepts it.
pub open spec fn is_metadata_token(t: Seq<char>) -> bool {
    is_year_token(t) || is_resolution_token(t) || is_encoding_trigger(t)
}

/// Decides `is_year_token`, returning the year's value.
pub fn year_token(t: &Vec<char>) -> (r: Option<u16>)
    ensures
        is_year_token(t@) ==> r == Some(year_val(t@)),
        !is_year_token(t@) ==> r is None,
{
    if t.len() != 4 {
        return None;
    }
    let c0 = t[0];
    let c1 = t[1];
    let c2 = t[2];
    let c3 = t[3];
    if !(digit_char(c0) && digit_char(c1) && digit_char(c2) && digit_char(c3)) {
        return None;
    }
    if !((c0 == '1' && c1 == '9') || (c0 == '2' && c1 == '0')) {
        return None;
    }
    let v: u32 = (c0 as u32 - 48) * 1000 + (c1 as u32 - 48) * 100 + (c2 as u32 - 48) * 10 + (
    c3 as u32 - 48);
    Some(v as u16)
}

/// Decides `is_resolution_token`, returning the normalized resolution.
pub fn resolution_token(t: &Vec<char>) -> (r: Option<u16>)
    ensures
        is_resolution_token(t@) ==> r == Some(resolution_val(t@)),
        !is_resolution_token(t@) ==> r is None,
{
    if t.len() == 2 {
        if t[0] == '4' && t[1] == 'K' {
            assert(t@ =~= seq!['4', 'K']);
            return Some(2160);
        }
        assert(t@ != seq!['4', 'K']) by {
            if t@ == seq!['4', 'K'] {
                assert(t@[0] == '4' && t@[1] == 'K');
            }
        }
        assert(!is_resolution_token(t@));
        return None;
    }
    if t.len() == 4 {
        if t[0] == '7' && t[1] == '2' && t[2] == '0' && t[3] == 'p' {
            assert(t@ =~= seq!['7', '2', '0', 'p']);
            return Some(720);
        }
        assert(!is_resolution_token(t@)) by {
            if t@ == seq!['7', '2', '0', 'p'] {
                assert(t@[0] == '7' && t@[1] == '2' && t@[2] == '0' && t@[3] == 'p');
            }
        }
        return None;
    }
    if t.len() == 5 {
        if t[0] == '1' && t[1] == '0' && t[2] == '8' && t[3] == '0' && t[4] == 'p' {
            assert(t@ =~= seq!['1', '0', '8', '0', 'p']);
            return Some(1080);
        }
        if t[0] == '2' && t[1] == '1' && t[2] == '6' && t[3] == '0' && t[4] == 'p' {
            assert(t@ =~= seq!['2', '1', '6', '0', 'p']);
            return Some(2160);
        }
        assert(!is_resolution_token(t@)) by {
            if t@ == seq!['1', '0', '8', '0', 'p'] {
                assert(t@[0] == '1' && t@[1] == '0' && t@[2] == '8' && t@[3] == '0' && t@[4]
                    == 'p');
            }
            if t@ == seq!['2', '1', '6', '0', 'p'] {
                assert(t@[0] == '2' && t@[1] == '1' && t@[2] == '6' && t@[3] == '0' && t@[4]
                    == 'p');
            }
        }
        return None;
    }
    assert(!is_resolution_token(t@));
    None
}

/// Decides `encoding_hit`.
pub fn encoding_hit_token(t: &Vec<char>) -> (r: Option<MediaEncodingFormat>)
    ensures
        r == encoding_hit(t@),
{
    let l = to_lower_vec(t);
    let px264: Vec<char> = vec!['x', '2', '6', '4'];
    let px265: Vec<char> = vec!['x', '2', '6', '5'];
    let ph264: Vec<char> = vec!['h', '2', '6', '4'];
    let ph265: Vec<char> = vec!['h', '2', '6', '5'];
    if contains_vec(&l, &px264) {
        Some(MediaEncodingFormat::X264)
    } else if contains_vec(&l, &px265) {
        Some(MediaEncodingFormat::X265)
    } else if contains_vec(&l, &ph264) {
        Some(MediaEncodingFormat::H264)
    } else if contains_vec(&l, &ph265) {
        Some(MediaEncodingFormat::H265)
    } else {
        None
    }
}

/// Decides `encoding_of` on a character vector.
pub fn encoding_of_chars(t: &Vec<char>) -> (r: Option<MediaEncodingFormat>)
    ensures
        r == encoding_of(t@),
{
    let l = to_lower_vec(t);
    let ghost ls = lower_seq(t@);
    if l.len() == 4 {
        let c0 = l[0];
        let c1 = l[1];
        let c2 = l[2];
        let c3 = l[3];
        if c1 == '2' && c2 == '6' {
            if c0 == 'x' && c3 == '4' {
                assert(ls =~= seq!['x', '2', '6', '4']);
                return Some(MediaEncodingFormat::X264);
            }
            if c0 == 'x' && c3 == '5' {
                assert(ls =~= seq!['x', '2', '6', '5']);
                return Some(MediaEncodingFormat::X265);
            }
            if c0 == 'h' && c3 == '4' {
                assert(ls =~= seq!['h', '2', '6', '4']);
                return Some(MediaEncodingFormat::H264);
            }
            if c0 == 'h' && c3 == '5' {
                assert(ls =~= seq!['h', '2', '6', '5']);
                return Some(MediaEncodingFormat::H265);
            }
        }
        proof {
            lemma_not_named(ls);
        }
        return None;
    }
    if l.len() == 5 {
        let c0 = l[0];
        let c1 = l[1];
        let c2 = l[2];
        let c3 = l[3];
        let c4 = l[4];
        if c1 == '.' && c2 == '2' && c3 == '6' {
            if c0 == 'x' && c4 == '4' {
                assert(ls =~= seq!['x', '.', '2', '6', '4']);
                return Some(MediaEncodingFormat::X264);
            }
            if c0 == 'x' && c4 == '5' {
                assert(ls =~= seq!['x', '.', '2', '6', '5']);
                return Some(MediaEncodingFormat::X265);
            }
            if c0 == 'h' && c4 == '4' {
                assert(ls =~= seq!['h', '.', '2', '6', '4']);
                return Some(MediaEncodingFormat::H264);
            }
            if c0 == 'h' && c4 == '5' {
                assert(ls =~= seq!['h', '.', '2', '6', '5']);
                return Some(MediaEncodingFormat::H265);
            }
        }
        proof {
            lemma_not_named(ls);
        }
        return None;
    }
    proof {
        lemma_not_named(ls);
    }
    None
}

/// A sequence that differs from every exact encoding name yields `None`.
proof fn lemma_not_named(l: Seq<char>)
    requires
        l != seq!['x', '2', '6', '4'],
        l != seq!['x', '.', '2', '6', '4'],
        l != seq!['x', '2', '6', '5'],
        l != seq!['x', '.', '2', '6', '5'],
        l != seq!['h', '2', '6', '4'],
        l != seq!['h', '.', '2', '6', '4'],
        l != seq!['h', '2', '6', '5'],
        l != seq!['h', '.', '2', '6', '5'],
    ensures
        forall|t: Seq<char>| lower_seq(t) == l ==> encoding_of(t) is None,
{
}

impl MediaEncodingFormat {
    /// The format named by `input` as a whole word: `x264`, `x.264`, `x265`,
    /// `x.265`, `h264`, `h.264`, `h265` or `h.265`, case-insensitively.
    pub fn from(input: &str) -> (r: Option<MediaEncodingFormat>)
        ensures
            r == encoding_of(input@),
    {
        let chars = crate::chars::str_to_chars(input);
        encoding_of_chars(&chars)
    }
}

} // verus!

