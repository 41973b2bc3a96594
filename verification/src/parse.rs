//! The filename metadata parser: stem/extension split, token scan with the
//! metadata-phase rule, title casing, and assembly of a `MovieMetadata`.

use vstd::prelude::*;
use crate::chars::lower_char;
use crate::chars::upper_char;
use crate::chars::lower_seq;
use crate::chars::str_to_chars;
use crate::chars::chars_to_string;
use crate::chars::to_lower_char;
use crate::chars::to_upper_char;
use crate::models::MediaEncodingFormat;
use crate::models::MovieMetadata;
use crate::split::views_of;
use crate::split::split_ws;
use crate::split::replace_dots;
use crate::split::stem_of;
use crate::split::ext_of;
use crate::split::join_space;
use crate::split::tokenize;
use crate::split::replace_dots_vec;
use crate::split::join_space_vec;
use crate::split::rfind_dot_vec;
use crate::tokens::is_year_token;
use crate::tokens::year_val;
use crate::tokens::is_resolution_token;
use crate::tokens::resolution_val;
use crate::tokens::is_encoding_trigger;
use crate::tokens::encoding_hit;
use crate::tokens::year_token;
use crate::tokens::resolution_token;
use crate::tokens::encoding_hit_token;

verus! {

/// The parser's fold state over the token list.
pub ghost struct ScanState {
    pub year: Option<u16>,
    pub res: Option<u16>,
    pub enc: Option<MediaEncodingFormat>,
    pub title: Seq<Seq<char>>,
    pub extra: Seq<Seq<char>>,
    pub started: bool,
}

pub open spec fn scan_init() -> ScanState {
    ScanState {
        year: None,
        res: None,
        enc: None,
        title: Seq::empty(),
        extra: Seq::empty(),
        started: false,
    }
}

/// One token: a year, resolution or encoding match updates that field (later
/// matches overwrite earlier ones) and starts the metadata phase; any other
/// token joins the title before the phase and the leftovers after it.
pub open spec fn scan_step(st: ScanState, t: Seq<char>) -> ScanState {
    if is_year_token(t) {
        ScanState { year: Some(year_val(t)), started: true, ..st }
    } else if is_resolution_token(t) {
        ScanState { res: Some(resolution_val(t)), started: true, ..st }
    } else if is_encoding_trigger(t) {
        ScanState { enc: encoding_hit(t), started: true, ..st }
    } else if !st.started {
        ScanState { title: st.title.push(t), ..st }
    } else {
        ScanState { extra: st.extra.push(t), ..st }
    }
}

/// The fold of `scan_step` over the tokens, left to right.
pub open spec fn scan(toks: Seq<Seq<char>>) -> ScanState
    decreases toks.len(),
{
    if toks.len() == 0 {
        scan_init()
    } else {
        scan_step(scan(toks.drop_last()), toks.last())
    }
}

pub proof fn lemma_scan_push(toks: Seq<Seq<char>>, t: Seq<char>)
    ensures
        scan(toks.push(t)) == scan_step(scan(toks), t),
{
    assert(toks.push(t).drop_last() =~= toks);
    assert(toks.push(t).last() == t);
}

/// Title-casing of one word: first character upper, the rest lower.
pub open spec fn title_case_word(w: Seq<char>) -> Seq<char> {
    if w.len() == 0 {
        w
    } else {
        seq![upper_char(w[0])] + w.drop_first().map_values(|c: char| lower_char(c))
    }
}

/// Title-casing of every token.
pub open spec fn title_cased(ts: Seq<Seq<char>>) -> Seq<Seq<char>> {
    ts.map_values(|t: Seq<char>| title_case_word(t))
}

/// The scan of a raw stem: dots become spaces, then the tokens are folded.
pub open spec fn scan_of(stem: Seq<char>) -> ScanState {
    scan(split_ws(replace_dots(stem)))
}

/// The inferred, title-cased media name of a raw stem.
pub open spec fn media_name_of(stem: Seq<char>) -> Seq<char> {
    join_space(title_cased(scan_of(stem).title))
}

/// Title-casing of a whole string, word by word, single-space joined.
pub open spec fn title_case_string(s: Seq<char>) -> Seq<char> {
    join_space(title_cased(split_ws(s)))
}

/// The views of a vector of strings.
pub open spec fn string_views(ss: Seq<String>) -> Seq<Seq<char>> {
    ss.map_values(|s: String| s@)
}

fn copy_chars(v: &Vec<char>) -> (r: Vec<char>)
    ensures
        r@ == v@,
{
    let mut r: Vec<char> = Vec::new();
    let mut i: usize = 0;
    while i < v.len()
        invariant
            i <= v.len(),
            r@.len() == i,
            forall|j: int| 0 <= j < i ==> r@[j] == v@[j],
        decreases v.len() - i,
    {
        r.push(v[i]);
        i += 1;
    }
    assert(r@ =~= v@);
    r
}

fn title_case_word_vec(w: &Vec<char>) -> (r: Vec<char>)
    ensures
        r@ == title_case_word(w@),
{
    let mut r: Vec<char> = Vec::new();
    if w.len() == 0 {
        assert(r@ =~= title_case_word(w@));
        return r;
    }
    r.push(to_upper_char(w[0]));
    let mut i: usize = 1;
    while i < w.len()
        invariant
            1 <= i <= w.len(),
            w.len() > 0,
            r@.len() == i,
            r@[0] == upper_char(w@[0]),
            forall|j: int| 1 <= j < i ==> r@[j] == lower_char(w@[j]),
        decreases w.len() - i,
    {
        r.push(to_lower_char(w[i]));
        i += 1;
    }
    assert(r@ =~= title_case_word(w@));
    r
}

/// Runs the token scan; the five results are the fields of `scan`'s fold.
fn scan_tokens(toks: &Vec<Vec<char>>) -> (r: (
    Option<u16>,
    Option<u16>,
    Option<MediaEncodingFormat>,
    Vec<Vec<char>>,
    Vec<Vec<char>>,
))
    ensures
        ({
            let st = scan(views_of(toks@));
            &&& r.0 == st.year
            &&& r.1 == st.res
            &&& r.2 == st.enc
            &&& views_of(r.3@) == st.title
            &&& views_of(r.4@) == st.extra
        }),
{
    let mut year: Option<u16> = None;
    let mut res: Option<u16> = None;
    let mut enc: Option<MediaEncodingFormat> = None;
    let mut started = false;
    let mut title: Vec<Vec<char>> = Vec::new();
    let mut extra: Vec<Vec<char>> = Vec::new();
    let mut i: usize = 0;
    proof {
        assert(views_of(toks@).take(0) =~= Seq::<Seq<char>>::empty());
        assert(views_of(title@) =~= Seq::<Seq<char>>::empty());
        assert(views_of(extra@) =~= Seq::<Seq<char>>::empty());
    }
    while i < toks.len()
        invariant
            i <= toks.len(),
            ({
                let st = scan(views_of(toks@).take(i as int));
                &&& year == st.year
                &&& res == st.res
                &&& enc == st.enc
                &&& started == st.started
                &&& views_of(title@) == st.title
                &&& views_of(extra@) == st.extra
            }),
        decreases toks.len() - i,
    {
        let t = &toks[i];
        proof {
            lemma_scan_push(views_of(toks@).take(i as int), t@);
            assert(views_of(toks@).take(i as int).push(t@) =~= views_of(toks@).take(i + 1));
        }
        if let Some(y) = year_token(t) {
            year = Some(y);
            started = true;
        } else if let Some(rv) = resolution_token(t) {
            res = Some(rv);
            started = true;
        } else if let Some(e) = encoding_hit_token(t) {
            enc = Some(e);
            started = true;
        } else if !started {
            let ghost old_title = views_of(title@);
            title.push(copy_chars(t));
            proof {
                assert(views_of(title@) =~= old_title.push(t@));
            }
        } else {
            let ghost old_extra = views_of(extra@);
            extra.push(copy_chars(t));
            proof {
                assert(views_of(extra@) =~= old_extra.push(t@));
            }
        }
        i += 1;
    }
    proof {
        assert(views_of(toks@).take(toks@.len() as int) =~= views_of(toks@));
    }
    (year, res, enc, title, extra)
}

/// Splits a filename at its last dot into the raw stem and the extension.
/// A name without a dot has an empty extension.
pub fn get_raw_file_name_and_extension<'a>(file_name: &'a str) -> (r: (&'a str, String))
    ensures
        r.0@ == stem_of(file_name@),
        r.1@ == ext_of(file_name@),
{
    let chars = str_to_chars(file_name);
    let n = file_name.unicode_len();
    match rfind_dot_vec(&chars) {
        Some(i) => {
            proof {
                crate::split::lemma_rfind_dot_some(file_name@, i as int);
            }
            let name = file_name.substring_char(0, i);
            let ext = file_name.substring_char(i + 1, n);
            proof {
                assert(file_name@.subrange(0, i as int) =~= file_name@.take(i as int));
                assert(file_name@.subrange(i + 1, file_name@.len() as int) =~= file_name@.skip(
                    i + 1,
                ));
            }
            (name, ext.to_owned())
        },
        None => {
            let ext = String::new();
            (file_name, ext)
        },
    }
}

/// Title-cases each whitespace-separated word of `input` and joins the words
/// back with single spaces.
pub fn to_title_case(input: &str) -> (r: String)
    ensures
        r@ == title_case_string(input@),
{
    let chars = str_to_chars(input);
    let toks = tokenize(&chars);
    let mut cased: Vec<Vec<char>> = Vec::new();
    let mut i: usize = 0;
    proof {
        assert(views_of(cased@) =~= title_cased(views_of(toks@).take(0)));
    }
    while i < toks.len()
        invariant
            i <= toks.len(),
            views_of(cased@) == title_cased(views_of(toks@).take(i as int)),
        decreases toks.len() - i,
    {
        let ghost before = views_of(cased@);
        cased.push(title_case_word_vec(&toks[i]));
        proof {
            assert(views_of(cased@) =~= before.push(title_case_word(toks@[i as int]@)));
            assert(views_of(cased@) =~= title_cased(views_of(toks@).take(i + 1)));
        }
        i += 1;
    }
    proof {
        assert(views_of(toks@).take(toks@.len() as int) =~= views_of(toks@));
    }
    let joined = join_space_vec(&cased);
    chars_to_string(&joined)
}

/// Parses a raw stem and extension into the metadata record. The token scan
/// follows the metadata-phase rule; the media name is the title tokens,
/// title-cased and joined with single spaces; the stored extension is
/// lower-cased.
pub fn compose_movie_metadata(raw_file_name: &str, file_extension: String) -> (r: MovieMetadata)
    ensures
        r.original_file_name@ == raw_file_name@,
        r.media_name@ == media_name_of(raw_file_name@),
        r.release_year == scan_of(raw_file_name@).year,
        r.resolution == scan_of(raw_file_name@).res,
        r.encoding_format == scan_of(raw_file_name@).enc,
        string_views(r.additional_data@) == scan_of(raw_file_name@).extra,
        r.file_extension@ == lower_seq(file_extension@),
        r.imdb_id is None,
{
    let chars = str_to_chars(raw_file_name);
    let sanitized = replace_dots_vec(&chars);
    let toks = tokenize(&sanitized);
    let (year, res, enc, title, extra) = scan_tokens(&toks);

    let mut cased: Vec<Vec<char>> = Vec::new();
    let mut i: usize = 0;
    proof {
        assert(views_of(cased@) =~= title_cased(views_of(title@).take(0)));
    }
    while i < title.len()
        invariant
            i <= title.len(),
            views_of(cased@) == title_cased(views_of(title@).take(i as int)),
        decreases title.len() - i,
    {
        let ghost before = views_of(cased@);
        cased.push(title_case_word_vec(&title[i]));
        proof {
            assert(views_of(cased@) =~= before.push(title_case_word(title@[i as int]@)));
            assert(views_of(cased@) =~= title_cased(views_of(title@).take(i + 1)));
        }
        i += 1;
    }
    proof {
        assert(views_of(title@).take(title@.len() as int) =~= views_of(title@));
    }
    let joined = join_space_vec(&cased);
    let media_name = chars_to_string(&joined);

    let mut additional_data: Vec<String> = Vec::new();
    let mut k: usize = 0;
    proof {
        assert(string_views(additional_data@) =~= views_of(extra@).take(0));
    }
    while k < extra.len()
        invariant
            k <= extra.len(),
            string_views(additional_data@) == views_of(extra@).take(k as int),
        decreases extra.len() - k,
    {
        let ghost before = string_views(additional_data@);
        additional_data.push(chars_to_string(&extra[k]));
        proof {
            assert(string_views(additional_data@) =~= before.push(extra@[k as int]@));
            assert(string_views(additional_data@) =~= views_of(extra@).take(k + 1));
        }
        k += 1;
    }
    proof {
        assert(views_of(extra@).take(extra@.len() as int) =~= views_of(extra@));
    }

    let ext_chars = str_to_chars(file_extension.as_str());
    let ext_lower = crate::chars::to_lower_vec(&ext_chars);
    let file_extension_lower = chars_to_string(&ext_lower);

    MovieMetadata {
        original_file_name: raw_file_name.to_owned(),
        media_name,
        release_year: year,
        encoding_format: enc,
        resolution: res,
        additional_data,
        file_extension: file_extension_lower,
        imdb_id: None,
    }
}

/// `m` is exactly what parsing `file_name` yields: the stem (before the
/// last dot) scanned for metadata, the extension stored lower-cased.
pub open spec fn parsed_from(m: MovieMetadata, file_name: Seq<char>) -> bool {
    &&& m.original_file_name@ == stem_of(file_name)
    &&& m.media_name@ == media_name_of(stem_of(file_name))
    &&& m.release_year == scan_of(stem_of(file_name)).year
    &&& m.resolution == scan_of(stem_of(file_name)).res
    &&& m.encoding_format == scan_of(stem_of(file_name)).enc
    &&& string_views(m.additional_data@) == scan_of(stem_of(file_name)).extra
    &&& m.file_extension@ == lower_seq(ext_of(file_name))
    &&& m.imdb_id is None
}

/// Parses a full filename: the stem (before the last dot) is scanned for
/// metadata, the extension (after it) is stored lower-cased.
pub fn parse_to_movie_metadata(file_name: &str) -> (r: MovieMetadata)
    ensures
        parsed_from(r, file_name@),
{
    let (raw_file_name, file_extension) = get_raw_file_name_and_extension(file_name);
    compose_movie_metadata(raw_file_name, file_extension)
}

} // verus!
