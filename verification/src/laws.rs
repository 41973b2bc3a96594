//! Laws of the parser, stated over the specification functions and proved
//! once for all inputs: which year a scan reports, how resolutions
//! normalize, and that parsing its own composed output preserves the media
//! name.

use vstd::prelude::*;
use crate::chars::is_ws_char;
use crate::chars::is_digit_char;
use crate::chars::digit_val;
use crate::chars::lower_char;
use crate::chars::upper_char;
use crate::parse::ScanState;
use crate::parse::scan;
use crate::parse::scan_of;
use crate::parse::title_case_word;
use crate::parse::title_cased;
use crate::parse::media_name_of;
use crate::sanitize::clean_spec;
use crate::sanitize::compose_base;
use crate::split::split_ws;
use crate::split::join_space;
use crate::split::replace_dots;
use crate::split::stem_of;
use crate::split::rfind_dot;
use crate::split::good_token;
use crate::split::lemma_split_ws_tokens;
use crate::split::lemma_split_join;
use crate::tokens::is_metadata_token;
use crate::tokens::is_year_token;
use crate::tokens::year_val;
use crate::tokens::is_resolution_token;
use crate::tokens::resolution_val;

verus! {

/// No character of `s` is `c`.
pub open spec fn seq_avoids(s: Seq<char>, c: char) -> bool {
    forall|i: int| 0 <= i < s.len() ==> s[i] != c
}

/// No token matches any metadata pattern.
pub open spec fn all_title_tokens(ts: Seq<Seq<char>>) -> bool {
    forall|k: int| 0 <= k < ts.len() ==> !is_metadata_token(#[trigger] ts[k])
}

/// A scan of pure title tokens reports no metadata: every token joins the
/// title, in order, and the metadata phase never starts.
pub proof fn lemma_scan_all_title(ts: Seq<Seq<char>>)
    requires
        all_title_tokens(ts),
    ensures
        scan(ts).year is None,
        scan(ts).res is None,
        scan(ts).enc is None,
        !scan(ts).started,
        scan(ts).title == ts,
        scan(ts).extra == Seq::<Seq<char>>::empty(),
    decreases ts.len(),
{
    if ts.len() == 0 {
        assert(scan(ts).title =~= ts);
    } else {
        assert(all_title_tokens(ts.drop_last())) by {
            assert(forall|k: int|
                0 <= k < ts.drop_last().len() ==> ts.drop_last()[k] == ts[k]);
        }
        lemma_scan_all_title(ts.drop_last());
        assert(!is_metadata_token(ts.last()));
        assert(scan(ts).title =~= ts);
    }
}

/// The value of the last standalone year token, if any.
pub open spec fn last_year(ts: Seq<Seq<char>>) -> Option<u16>
    decreases ts.len(),
{
    if ts.len() == 0 {
        None
    } else if is_year_token(ts.last()) {
        Some(year_val(ts.last()))
    } else {
        last_year(ts.drop_last())
    }
}

/// A scan reports exactly the last year token's value.
pub proof fn lemma_scan_year(ts: Seq<Seq<char>>)
    ensures
        scan(ts).year == last_year(ts),
    decreases ts.len(),
{
    if ts.len() > 0 {
        lemma_scan_year(ts.drop_last());
    }
}

/// `last_year` is `None` exactly when no token is a year token, and a
/// reported year always lies in [1900, 2099].
pub proof fn lemma_last_year(ts: Seq<Seq<char>>)
    ensures
        (last_year(ts) is None) <==> (forall|k: int|
            0 <= k < ts.len() ==> !is_year_token(#[trigger] ts[k])),
        match last_year(ts) {
            Some(y) => 1900 <= y <= 2099,
            None => true,
        },
    decreases ts.len(),
{
    if ts.len() > 0 {
        lemma_last_year(ts.drop_last());
        assert(forall|k: int| 0 <= k < ts.drop_last().len() ==> ts.drop_last()[k] == ts[k]);
        assert(ts.last() == ts[ts.len() - 1]);
        if is_year_token(ts.last()) {
            let t = ts.last();
            assert(is_digit_char(t[2]) && is_digit_char(t[3]));
            assert(0 <= digit_val(t[2]) <= 9 && 0 <= digit_val(t[3]) <= 9);
            assert(1900 <= year_val(t) <= 2099);
        }
    }
}

/// Law: for a filename whose stem holds a standalone 4-digit token starting
/// `19` or `20`, the parsed release year is that token's value — the last
/// such token when several occur — and it lies in [1900, 2099]; with no such
/// whole token (a year embedded in a longer run never is one) no year is
/// reported.
pub proof fn lemma_release_year(stem: Seq<char>)
    ensures
        scan_of(stem).year == last_year(split_ws(replace_dots(stem))),
        (scan_of(stem).year is None) <==> (forall|k: int|
            0 <= k < split_ws(replace_dots(stem)).len() ==> !is_year_token(
                #[trigger] split_ws(replace_dots(stem))[k],
            )),
        match scan_of(stem).year {
            Some(y) => 1900 <= y <= 2099,
            None => true,
        },
{
    lemma_scan_year(split_ws(replace_dots(stem)));
    lemma_last_year(split_ws(replace_dots(stem)));
}

/// Law: the resolution tokens normalize deterministically: `4K` and `2160p`
/// to 2160, `1080p` to 1080, `720p` to 720, and nothing else is one.
pub proof fn lemma_resolution_normalization()
    ensures
        is_resolution_token(seq!['4', 'K']) && resolution_val(seq!['4', 'K']) == 2160,
        is_resolution_token(seq!['2', '1', '6', '0', 'p']) && resolution_val(
            seq!['2', '1', '6', '0', 'p'],
        ) == 2160,
        is_resolution_token(seq!['1', '0', '8', '0', 'p']) && resolution_val(
            seq!['1', '0', '8', '0', 'p'],
        ) == 1080,
        is_resolution_token(seq!['7', '2', '0', 'p']) && resolution_val(
            seq!['7', '2', '0', 'p'],
        ) == 720,
{
}

/// Title-casing keeps a word's length, keeps it free of whitespace and of
/// any dot it avoided, and is idempotent.
pub proof fn lemma_title_case_word(w: Seq<char>)
    ensures
        title_case_word(w).len() == w.len(),
        good_token(w) ==> good_token(title_case_word(w)),
        seq_avoids(w, '.') ==> seq_avoids(title_case_word(w), '.'),
        title_case_word(title_case_word(w)) == title_case_word(w),
{
    if w.len() == 0 {
    } else {
        let t = title_case_word(w);
        assert(t[0] == upper_char(w[0]));
        assert(forall|j: int| 1 <= j < t.len() ==> t[j] == lower_char(w[j]));
        if good_token(w) {
            assert forall|j: int| 0 <= j < t.len() implies !is_ws_char(t[j]) by {
                if j == 0 {
                    assert(!is_ws_char(w[0]));
                } else {
                    assert(!is_ws_char(w[j]));
                }
            }
        }
        if seq_avoids(w, '.') {
            assert forall|j: int| 0 <= j < t.len() implies t[j] != '.' by {
                if j == 0 {
                    assert(w[0] != '.');
                } else {
                    assert(w[j] != '.');
                }
            }
        }
        let tt = title_case_word(t);
        assert(tt[0] == upper_char(upper_char(w[0])));
        assert(upper_char(upper_char(w[0])) == upper_char(w[0]));
        assert forall|j: int| 1 <= j < tt.len() implies tt[j] == t[j] by {
            assert(tt[j] == lower_char(t[j]));
            assert(t[j] == lower_char(w[j]));
            assert(lower_char(lower_char(w[j])) == lower_char(w[j]));
        }
        assert(tt =~= t);
    }
}

/// Replacing dots leaves no dot behind.
pub proof fn lemma_replace_dots_avoids(s: Seq<char>)
    ensures
        seq_avoids(replace_dots(s), '.'),
{
    assert forall|i: int| 0 <= i < replace_dots(s).len() implies replace_dots(s)[i] != '.' by {
        assert(replace_dots(s)[i] == if s[i] == '.' {
            ' '
        } else {
            s[i]
        });
    }
}

/// Tokens of a dot-free text are dot-free.
pub proof fn lemma_split_ws_avoids(s: Seq<char>, c: char)
    requires
        seq_avoids(s, c),
    ensures
        forall|k: int| 0 <= k < split_ws(s).len() ==> seq_avoids(#[trigger] split_ws(s)[k], c),
    decreases s.len(),
{
    if s.len() == 0 {
    } else if is_ws_char(s[0]) {
        assert(seq_avoids(s.drop_first(), c)) by {
            assert(forall|i: int|
                0 <= i < s.drop_first().len() ==> s.drop_first()[i] == s[i + 1]);
        }
        lemma_split_ws_avoids(s.drop_first(), c);
        assert forall|k: int| 0 <= k < split_ws(s).len() implies seq_avoids(
            #[trigger] split_ws(s)[k],
            c,
        ) by {
            assert(split_ws(s)[k] == split_ws(s.drop_first())[k]);
        }
    } else {
        let tl = crate::split::token_len(s) as int;
        crate::split::lemma_token_len(s);
        let t = s.take(tl);
        let rest = s.skip(tl);
        assert(seq_avoids(t, c)) by {
            assert(forall|i: int| 0 <= i < t.len() ==> t[i] == s[i]);
        }
        assert(seq_avoids(rest, c)) by {
            assert(forall|i: int| 0 <= i < rest.len() ==> rest[i] == s[i + tl]);
        }
        lemma_split_ws_avoids(rest, c);
        assert forall|k: int| 0 <= k < split_ws(s).len() implies seq_avoids(
            #[trigger] split_ws(s)[k],
            c,
        ) by {
            if k == 0 {
                assert(split_ws(s)[0] == t);
            } else {
                assert(split_ws(s)[k] == split_ws(rest)[k - 1]);
            }
        }
    }
}

/// Joining dot-free tokens with spaces yields a dot-free text.
pub proof fn lemma_join_avoids(ts: Seq<Seq<char>>, c: char)
    requires
        c != ' ',
        forall|k: int| 0 <= k < ts.len() ==> seq_avoids(#[trigger] ts[k], c),
    ensures
        seq_avoids(join_space(ts), c),
    decreases ts.len(),
{
    if ts.len() <= 1 {
    } else {
        assert(forall|k: int|
            0 <= k < ts.drop_first().len() ==> ts.drop_first()[k] == ts[k + 1]);
        lemma_join_avoids(ts.drop_first(), c);
        let s = join_space(ts);
        let t = ts[0];
        let rest = join_space(ts.drop_first());
        assert(s == t + seq![' '] + rest);
        assert forall|i: int| 0 <= i < s.len() implies s[i] != c by {
            if i < t.len() {
                assert(s[i] == t[i]);
            } else if i == t.len() {
                assert(s[i] == ' ');
            } else {
                assert(s[i] == rest[i - t.len() - 1]);
            }
        }
    }
}

/// A dot-free name has no extension: it is its own stem.
pub proof fn lemma_avoids_stem(s: Seq<char>)
    requires
        seq_avoids(s, '.'),
    ensures
        rfind_dot(s) is None,
        stem_of(s) == s,
    decreases s.len(),
{
    if s.len() > 0 {
        assert(s.last() != '.');
        assert(seq_avoids(s.drop_last(), '.')) by {
            assert(forall|i: int| 0 <= i < s.drop_last().len() ==> s.drop_last()[i] == s[i]);
        }
        lemma_avoids_stem(s.drop_last());
    }
}

/// Law: parsing is idempotent on its own composed output. For a filename
/// whose stem holds only title tokens — none matching a metadata pattern,
/// before or after title-casing — and whose inferred media name survives
/// sanitization unchanged, the composed name is exactly that media name,
/// and parsing it infers the same media name again.
pub proof fn lemma_parse_compose_media_name(x: Seq<char>)
    requires
        all_title_tokens(split_ws(replace_dots(stem_of(x)))),
        all_title_tokens(title_cased(split_ws(replace_dots(stem_of(x))))),
        clean_spec(media_name_of(stem_of(x))) == Some(media_name_of(stem_of(x))),
    ensures
        clean_spec(
            compose_base(
                media_name_of(stem_of(x)),
                scan_of(stem_of(x)).year,
                scan_of(stem_of(x)).res,
            ),
        ) == Some(media_name_of(stem_of(x))),
        media_name_of(stem_of(media_name_of(stem_of(x)))) == media_name_of(stem_of(x)),
{
    let stem = stem_of(x);
    let toks = split_ws(replace_dots(stem));
    let tc_toks = title_cased(toks);
    let m = media_name_of(stem);

    lemma_scan_all_title(toks);
    assert(scan_of(stem).year is None && scan_of(stem).res is None);
    assert(m == join_space(tc_toks));
    assert(compose_base(m, scan_of(stem).year, scan_of(stem).res) == m);

    lemma_split_ws_tokens(replace_dots(stem));
    lemma_replace_dots_avoids(stem);
    lemma_split_ws_avoids(replace_dots(stem), '.');
    assert forall|k: int| 0 <= k < tc_toks.len() implies good_token(#[trigger] tc_toks[k])
        && seq_avoids(tc_toks[k], '.') by {
        assert(tc_toks[k] == title_case_word(toks[k]));
        assert(good_token(toks[k]));
        assert(seq_avoids(toks[k], '.'));
        lemma_title_case_word(toks[k]);
    }
    lemma_join_avoids(tc_toks, '.');
    lemma_avoids_stem(m);
    assert(stem_of(m) == m);

    assert(replace_dots(m) =~= m) by {
        assert(seq_avoids(m, '.'));
        assert(forall|i: int|
            0 <= i < m.len() ==> replace_dots(m)[i] == (if m[i] == '.' {
                ' '
            } else {
                m[i]
            }));
    }
    lemma_split_join(tc_toks);
    assert(split_ws(replace_dots(m)) == tc_toks);

    lemma_scan_all_title(tc_toks);
    assert(scan_of(m).title == tc_toks);
    assert(title_cased(tc_toks) =~= tc_toks) by {
        assert forall|k: int| 0 <= k < tc_toks.len() implies title_cased(tc_toks)[k]
            == tc_toks[k] by {
            assert(title_cased(tc_toks)[k] == title_case_word(tc_toks[k]));
            assert(tc_toks[k] == title_case_word(toks[k]));
            lemma_title_case_word(toks[k]);
        }
    }
    assert(media_name_of(stem_of(m)) == join_space(title_cased(tc_toks)));
    assert(media_name_of(stem_of(m)) == m);
}

} // verus!
