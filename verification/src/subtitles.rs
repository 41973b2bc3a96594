//! The subtitle selector: candidates at a directory's root are ranked
//! (names containing `english` first, then `en`, then lexicographically);
//! with no candidate the subdirectories are searched depth-first, bounded
//! by an explicit depth limit.

use vstd::prelude::*;
use crate::chars::contains_seq;
use crate::chars::lower_seq;
use crate::chars::lex_le;
use crate::chars::lemma_lex_total;
use crate::chars::lemma_lex_trans;
use crate::chars::str_to_chars;
use crate::chars::to_lower_vec;
use crate::chars::contains_vec;
use crate::chars::lex_le_vec;
use crate::chars::chars_to_string;
use crate::chars::append_chars;
use crate::classify::FsEntry;
use crate::classify::entry_names;
use crate::classify::is_subtitle_name;
use crate::classify::is_subtitle_file;
use crate::parse::string_views;

verus! {

/// One directory: its name, its regular files, and its subdirectories.
#[derive(Debug)]
pub struct DirTree {
    pub name: String,
    pub files: Vec<FsEntry>,
    pub subdirs: Vec<DirTree>,
}

/// The name mentions `english`, case-insensitively.
pub open spec fn english_hit(name: Seq<char>) -> bool {
    contains_seq(lower_seq(name), seq!['e', 'n', 'g', 'l', 'i', 's', 'h'])
}

/// The name mentions `en`, case-insensitively.
pub open spec fn en_hit(name: Seq<char>) -> bool {
    contains_seq(lower_seq(name), seq!['e', 'n'])
}

/// Ranking of subtitle candidates: names containing `english` come first,
/// then names containing `en`, then lexicographic order of the lower-cased
/// name.
pub open spec fn rank_le(a: Seq<char>, b: Seq<char>) -> bool {
    if english_hit(a) != english_hit(b) {
        english_hit(a)
    } else if en_hit(a) != en_hit(b) {
        en_hit(a)
    } else {
        lex_le(lower_seq(a), lower_seq(b))
    }
}

/// The two boolean keys of the ranking, folded into one number: smaller
/// ranks first.
pub open spec fn rank_num(x: Seq<char>) -> int {
    (if english_hit(x) {
        0int
    } else {
        2int
    }) + (if en_hit(x) {
        0int
    } else {
        1int
    })
}

proof fn lemma_rank_characterize(a: Seq<char>, b: Seq<char>)
    ensures
        rank_le(a, b) == (rank_num(a) < rank_num(b) || (rank_num(a) == rank_num(b) && lex_le(
            lower_seq(a),
            lower_seq(b),
        ))),
{
}

/// `rank_le` is total.
pub proof fn lemma_rank_total(a: Seq<char>, b: Seq<char>)
    ensures
        rank_le(a, b) || rank_le(b, a),
{
    lemma_rank_characterize(a, b);
    lemma_rank_characterize(b, a);
    lemma_lex_total(lower_seq(a), lower_seq(b));
}

/// `rank_le` is transitive.
pub proof fn lemma_rank_trans(a: Seq<char>, b: Seq<char>, c: Seq<char>)
    requires
        rank_le(a, b),
        rank_le(b, c),
    ensures
        rank_le(a, c),
{
    lemma_rank_characterize(a, b);
    lemma_rank_characterize(b, c);
    lemma_rank_characterize(a, c);
    if rank_num(a) == rank_num(b) && rank_num(b) == rank_num(c) {
        lemma_lex_trans(lower_seq(a), lower_seq(b), lower_seq(c));
    }
}

/// Decides `rank_le`.
fn rank_le_names(a: &String, b: &String) -> (r: bool)
    ensures
        r == rank_le(a@, b@),
{
    let ac = str_to_chars(a.as_str());
    let bc = str_to_chars(b.as_str());
    let al = to_lower_vec(&ac);
    let bl = to_lower_vec(&bc);
    let english: Vec<char> = vec!['e', 'n', 'g', 'l', 'i', 's', 'h'];
    let en: Vec<char> = vec!['e', 'n'];
    let ae = contains_vec(&al, &english);
    let be = contains_vec(&bl, &english);
    if ae != be {
        return ae;
    }
    let an = contains_vec(&al, &en);
    let bn = contains_vec(&bl, &en);
    if an != bn {
        return an;
    }
    lex_le_vec(&al, &bl)
}

/// The subtitle names among `names`, order kept.
pub open spec fn filtered_subtitles(names: Seq<Seq<char>>) -> Seq<Seq<char>>
    decreases names.len(),
{
    if names.len() == 0 {
        names
    } else if is_subtitle_name(names.last()) {
        filtered_subtitles(names.drop_last()) + seq![names.last()]
    } else {
        filtered_subtitles(names.drop_last())
    }
}

/// Index of the best-ranked candidate; the first wins among equally ranked.
pub open spec fn best_index(cands: Seq<Seq<char>>) -> int
    decreases cands.len(),
{
    if cands.len() <= 1 {
        0
    } else {
        let b = best_index(cands.drop_last());
        if rank_le(cands[b], cands.last()) {
            b
        } else {
            cands.len() - 1
        }
    }
}

pub proof fn lemma_best_index(cands: Seq<Seq<char>>)
    requires
        cands.len() > 0,
    ensures
        0 <= best_index(cands) < cands.len(),
        forall|j: int| 0 <= j < cands.len() ==> rank_le(cands[best_index(cands)], cands[j]),
        forall|j: int| 0 <= j < best_index(cands) ==> !rank_le(cands[j], cands[best_index(cands)]),
    decreases cands.len(),
{
    if cands.len() == 1 {
        lemma_rank_total(cands[0], cands[0]);
    } else {
        let pre = cands.drop_last();
        lemma_best_index(pre);
        let b = best_index(pre);
        let n = cands.len() - 1;
        assert(forall|j: int| 0 <= j < n ==> cands[j] == pre[j]);
        if rank_le(cands[b], cands.last()) {
            assert forall|j: int| 0 <= j < cands.len() implies rank_le(
                cands[best_index(cands)],
                cands[j],
            ) by {
                if j < n {
                    assert(rank_le(pre[b], pre[j]));
                }
            }
        } else {
            assert(cands.last() == cands[n]);
            assert(best_index(cands) == n);
            lemma_rank_total(cands[b], cands[n]);
            assert(rank_le(cands[n], cands[b]));
            assert forall|j: int| 0 <= j < cands.len() implies rank_le(
                cands[best_index(cands)],
                cands[j],
            ) by {
                if j < n {
                    assert(rank_le(pre[b], pre[j]));
                    lemma_rank_trans(cands[n], cands[b], cands[j]);
                } else {
                    lemma_rank_total(cands[n], cands[n]);
                }
            }
            assert forall|j: int| 0 <= j < best_index(cands) implies !rank_le(
                cands[j],
                cands[best_index(cands)],
            ) by {
                if rank_le(cands[j], cands[n]) {
                    if j < b {
                        assert(!rank_le(pre[j], pre[b]));
                        lemma_rank_total(cands[j], cands[b]);
                        assert(rank_le(cands[b], cands[j]));
                        lemma_rank_trans(cands[b], cands[j], cands[n]);
                    } else if j == b {
                    } else {
                        assert(rank_le(pre[b], pre[j]));
                        lemma_rank_trans(cands[b], cands[j], cands[n]);
                    }
                }
            }
        }
    }
}

/// Index of the best-ranked name; among equally ranked names the first wins.
pub fn best_subtitle_index(names: &Vec<String>) -> (r: usize)
    requires
        names@.len() > 0,
    ensures
        r == best_index(string_views(names@)),
{
    let mut bi: usize = 0;
    let mut i: usize = 1;
    proof {
        assert(string_views(names@).take(1) =~= seq![names@[0]@]);
    }
    while i < names.len()
        invariant
            1 <= i <= names.len(),
            bi < i,
            bi == best_index(string_views(names@).take(i as int)),
        decreases names.len() - i,
    {
        let ghost pre = string_views(names@).take(i as int);
        let ghost full = string_views(names@).take(i + 1);
        proof {
            assert(full.drop_last() =~= pre);
            assert(full.last() == names@[i as int]@);
            assert(full[bi as int] == names@[bi as int]@);
        }
        if rank_le_names(&names[bi], &names[i]) {
            proof {
                assert(best_index(full) == bi as int);
            }
        } else {
            bi = i;
            proof {
                assert(best_index(full) == full.len() - 1);
            }
        }
        i += 1;
    }
    proof {
        assert(string_views(names@).take(names@.len() as int) =~= string_views(names@));
    }
    bi
}

/// The subtitle found in a directory, as path components from its root:
/// the best-ranked candidate among the root's own subtitle files, else the
/// first hit in a depth-first search of the subdirectories, bounded by
/// `depth`.
pub open spec fn find_subtitle(d: DirTree, depth: nat) -> Option<Seq<Seq<char>>>
    decreases depth, 0nat, 0nat,
{
    let cands = filtered_subtitles(entry_names(d.files@));
    if cands.len() > 0 {
        Some(seq![cands[best_index(cands)]])
    } else if depth == 0 {
        None
    } else {
        find_in_subdirs(d.subdirs@, (depth - 1) as nat)
    }
}

/// The first subdirectory whose subtree holds a subtitle wins.
pub open spec fn find_in_subdirs(ds: Seq<DirTree>, depth: nat) -> Option<Seq<Seq<char>>>
    decreases depth, 1nat, ds.len(),
{
    if ds.len() == 0 {
        None
    } else {
        match find_subtitle(ds[0], depth) {
            Some(path) => Some(seq![ds[0].name@] + path),
            None => find_in_subdirs(ds.drop_first(), depth),
        }
    }
}

/// Searches a directory for the subtitle to keep; the returned path
/// components lead from the directory's root to the chosen file.
pub fn get_subtitle_entry(dir: &DirTree, depth: u32) -> (r: Option<Vec<String>>)
    ensures
        match r {
            Some(path) => find_subtitle(*dir, depth as nat) == Some(string_views(path@)),
            None => find_subtitle(*dir, depth as nat) is None,
        },
    decreases depth,
{
    let mut cands: Vec<String> = Vec::new();
    let mut i: usize = 0;
    proof {
        assert(entry_names(dir.files@).take(0) =~= Seq::<Seq<char>>::empty());
        assert(string_views(cands@) =~= filtered_subtitles(entry_names(dir.files@).take(0)));
    }
    while i < dir.files.len()
        invariant
            i <= dir.files@.len(),
            string_views(cands@) == filtered_subtitles(entry_names(dir.files@).take(i as int)),
        decreases dir.files@.len() - i,
    {
        let ghost pre = entry_names(dir.files@).take(i as int);
        proof {
            assert(entry_names(dir.files@).take(i + 1).drop_last() =~= pre);
            assert(entry_names(dir.files@).take(i + 1).last() == dir.files@[i as int].name@);
        }
        if is_subtitle_file(dir.files[i].name.as_str()) {
            let ghost before = string_views(cands@);
            cands.push(dir.files[i].name.clone());
            proof {
                assert(string_views(cands@) =~= before.push(dir.files@[i as int].name@));
            }
        }
        proof {
            assert(string_views(cands@) =~= filtered_subtitles(
                entry_names(dir.files@).take(i + 1),
            ));
        }
        i += 1;
    }
    proof {
        assert(entry_names(dir.files@).take(dir.files@.len() as int) =~= entry_names(
            dir.files@,
        ));
    }
    if cands.len() > 0 {
        let bi = best_subtitle_index(&cands);
        proof {
            crate::subtitles::lemma_best_index(string_views(cands@));
        }
        let mut path: Vec<String> = Vec::new();
        path.push(cands[bi].clone());
        proof {
            assert(string_views(path@) =~= seq![
                string_views(cands@)[best_index(string_views(cands@))],
            ]);
        }
        return Some(path);
    }
    if depth == 0 {
        return None;
    }
    let mut k: usize = 0;
    proof {
        assert(dir.subdirs@.skip(0) =~= dir.subdirs@);
    }
    while k < dir.subdirs.len()
        invariant
            k <= dir.subdirs@.len(),
            depth >= 1,
            string_views(cands@) == filtered_subtitles(entry_names(dir.files@)),
            cands@.len() == 0,
            find_subtitle(*dir, depth as nat) == find_in_subdirs(
                dir.subdirs@.skip(k as int),
                (depth - 1) as nat,
            ),
        decreases dir.subdirs@.len() - k,
    {
        let ghost tail = dir.subdirs@.skip(k as int);
        proof {
            assert(tail[0] == dir.subdirs@[k as int]);
            assert(tail.drop_first() =~= dir.subdirs@.skip(k + 1));
        }
        match get_subtitle_entry(&dir.subdirs[k], depth - 1) {
            Some(inner) => {
                let mut path: Vec<String> = Vec::new();
                path.push(dir.subdirs[k].name.clone());
                let mut m: usize = 0;
                while m < inner.len()
                    invariant
                        m <= inner@.len(),
                        path@.len() == 1 + m,
                        path@[0]@ == dir.subdirs@[k as int].name@,
                        forall|j: int| 0 <= j < m ==> path@[j + 1]@ == inner@[j]@,
                        k < dir.subdirs@.len(),
                    decreases inner@.len() - m,
                {
                    path.push(inner[m].clone());
                    m += 1;
                }
                proof {
                    assert(string_views(path@) =~= seq![dir.subdirs@[k as int].name@]
                        + string_views(inner@));
                }
                return Some(path);
            },
            None => {
            },
        }
        k += 1;
    }
    proof {
        assert(dir.subdirs@.skip(dir.subdirs@.len() as int) =~= Seq::<DirTree>::empty());
    }
    None
}

/// Whether the chosen subtitle must first be copied to the directory root:
/// only when it lies in a subdirectory and no root file already bears its
/// name, so that nothing is silently overwritten.
pub fn subtitle_copy_needed(dir: &DirTree, path: &Vec<String>) -> (r: bool)
    requires
        path@.len() >= 1,
    ensures
        r == (path@.len() > 1 && !entry_names(dir.files@).contains(
            path@[path@.len() - 1]@,
        )),
{
    if path.len() <= 1 {
        return false;
    }
    let target = &path[path.len() - 1];
    let mut i: usize = 0;
    while i < dir.files.len()
        invariant
            i <= dir.files@.len(),
            path@.len() > 1,
            target@ == path@[path@.len() - 1]@,
            forall|j: int| 0 <= j < i ==> entry_names(dir.files@)[j] != target@,
        decreases dir.files@.len() - i,
    {
        if dir.files[i].name.eq(target) {
            assert(entry_names(dir.files@)[i as int] == target@);
            return false;
        }
        i += 1;
    }
    assert(forall|j: int| 0 <= j < dir.files@.len() ==> entry_names(dir.files@)[j] != target@);
    true
}

/// Makes a relative URL on the subtitle host absolute; absolute URLs pass
/// through unchanged.
pub fn normalize_url(url: &str) -> (r: String)
    ensures
        url@.len() > 0 && url@[0] == '/' ==> r@ == "https://www.opensubtitles.org"@ + url@,
        !(url@.len() > 0 && url@[0] == '/') ==> r@ == url@,
{
    let n = url.unicode_len();
    if n > 0 && url.get_char(0) == '/' {
        let host = "https://www.opensubtitles.org";
        let mut out = str_to_chars(host);
        let tail = str_to_chars(url);
        append_chars(&mut out, &tail);
        chars_to_string(&out)
    } else {
        let out = str_to_chars(url);
        chars_to_string(&out)
    }
}

} // verus!
