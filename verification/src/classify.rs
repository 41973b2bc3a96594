//! Classification of directory entries by extension, choice of the kept
//! video (largest; first seen wins ties), and the grouping helpers for loose
//! files at the library root.

use vstd::prelude::*;
use crate::chars::lower_seq;
use crate::chars::matches_at;
use crate::chars::str_to_chars;
use crate::chars::chars_eq;
use crate::chars::to_lower_vec;
use crate::parse::string_views;
use crate::split::stem_of;
use crate::split::ext_of;
use crate::split::rfind_dot_vec;

verus! {

/// One regular file at a directory root: its name and byte size.
#[derive(Debug, Clone)]
pub struct FsEntry {
    pub name: String,
    pub size: u64,
}

/// The names of a sequence of entries.
pub open spec fn entry_names(es: Seq<FsEntry>) -> Seq<Seq<char>> {
    es.map_values(|e: FsEntry| e.name@)
}

/// A video file: its lower-cased extension is `avi`, `mkv`, `mp4` or `mov`.
pub open spec fn is_video_name(name: Seq<char>) -> bool {
    let e = lower_seq(ext_of(name));
    ||| e == seq!['a', 'v', 'i']
    ||| e == seq!['m', 'k', 'v']
    ||| e == seq!['m', 'p', '4']
    ||| e == seq!['m', 'o', 'v']
}

/// A subtitle file: its extension is exactly `srt`.
pub open spec fn is_subtitle_name(name: Seq<char>) -> bool {
    ext_of(name) == seq!['s', 'r', 't']
}

/// The characters of a filename's extension (after its last dot).
pub fn ext_chars(name: &str) -> (r: Vec<char>)
    ensures
        r@ == ext_of(name@),
{
    let chars = str_to_chars(name);
    match rfind_dot_vec(&chars) {
        Some(i) => {
            proof {
                crate::split::lemma_rfind_dot_some(name@, i as int);
            }
            assert(i < chars.len());
            let mut e: Vec<char> = Vec::new();
            let mut k = i + 1;
            while k < chars.len()
                invariant
                    i < k <= chars.len(),
                    chars@ == name@,
                    e@.len() == k - i - 1,
                    forall|j: int| 0 <= j < k - i - 1 ==> e@[j] == name@[i + 1 + j],
                decreases chars.len() - k,
            {
                e.push(chars[k]);
                k += 1;
            }
            assert(e@ =~= ext_of(name@));
            e
        },
        None => {
            let e: Vec<char> = Vec::new();
            assert(e@ =~= ext_of(name@));
            e
        },
    }
}

/// Decides `is_video_name`.
pub fn is_video_file(name: &str) -> (r: bool)
    ensures
        r == is_video_name(name@),
{
    let ext = ext_chars(name);
    let low = to_lower_vec(&ext);
    let avi: Vec<char> = vec!['a', 'v', 'i'];
    let mkv: Vec<char> = vec!['m', 'k', 'v'];
    let mp4: Vec<char> = vec!['m', 'p', '4'];
    let mov: Vec<char> = vec!['m', 'o', 'v'];
    chars_eq(&low, &avi) || chars_eq(&low, &mkv) || chars_eq(&low, &mp4) || chars_eq(&low, &mov)
}

/// Decides `is_subtitle_name`.
pub fn is_subtitle_file(name: &str) -> (r: bool)
    ensures
        r == is_subtitle_name(name@),
{
    let ext = ext_chars(name);
    let srt: Vec<char> = vec!['s', 'r', 't'];
    chars_eq(&ext, &srt)
}

/// The video names among `names`, order kept.
pub open spec fn filtered_videos(names: Seq<Seq<char>>) -> Seq<Seq<char>>
    decreases names.len(),
{
    if names.len() == 0 {
        names
    } else if is_video_name(names.last()) {
        filtered_videos(names.drop_last()) + seq![names.last()]
    } else {
        filtered_videos(names.drop_last())
    }
}

/// Keeps the names of video files, in their original order.
pub fn filter_video_files(file_names: &Vec<String>) -> (r: Vec<String>)
    ensures
        string_views(r@) == filtered_videos(string_views(file_names@)),
{
    let mut r: Vec<String> = Vec::new();
    let mut i: usize = 0;
    proof {
        assert(string_views(file_names@).take(0) =~= Seq::<Seq<char>>::empty());
        assert(string_views(r@) =~= filtered_videos(string_views(file_names@).take(0)));
    }
    while i < file_names.len()
        invariant
            i <= file_names.len(),
            string_views(r@) == filtered_videos(string_views(file_names@).take(i as int)),
        decreases file_names.len() - i,
    {
        let ghost pre = string_views(file_names@).take(i as int);
        proof {
            assert(string_views(file_names@).take(i + 1).drop_last() =~= pre);
            assert(string_views(file_names@).take(i + 1).last() == file_names@[i as int]@);
        }
        if is_video_file(file_names[i].as_str()) {
            let ghost before = string_views(r@);
            r.push(file_names[i].clone());
            proof {
                assert(string_views(r@) =~= before.push(file_names@[i as int]@));
                assert(string_views(r@) =~= filtered_videos(
                    string_views(file_names@).take(i + 1),
                ));
            }
        }
        i += 1;
    }
    proof {
        assert(string_views(file_names@).take(file_names@.len() as int) =~= string_views(
            file_names@,
        ));
    }
    r
}

/// Index of the kept video among `entries`: a video file of maximal size;
/// among equally large ones the first seen wins. `None` when no entry is a
/// video file.
pub open spec fn pick_video(entries: Seq<FsEntry>) -> Option<int>
    decreases entries.len(),
{
    if entries.len() == 0 {
        None
    } else {
        let p = pick_video(entries.drop_last());
        let j = entries.len() - 1;
        if !is_video_name(entries.last().name@) {
            p
        } else {
            match p {
                None => Some(j),
                Some(b) => if entries.last().size > entries[b].size {
                    Some(j)
                } else {
                    p
                },
            }
        }
    }
}

/// The chosen video is a video file of maximal size, and the first seen
/// among equally large ones; `None` only when no entry is a video file.
pub proof fn lemma_pick_video(entries: Seq<FsEntry>)
    ensures
        match pick_video(entries) {
            Some(i) => {
                &&& 0 <= i < entries.len()
                &&& is_video_name(entries[i].name@)
                &&& forall|j: int|
                    0 <= j < entries.len() && is_video_name(entries[j].name@) ==> entries[j].size
                        <= entries[i].size
                &&& forall|j: int|
                    0 <= j < i && is_video_name(entries[j].name@) ==> entries[j].size
                        < entries[i].size
            },
            None => forall|j: int| 0 <= j < entries.len() ==> !is_video_name(entries[j].name@),
        },
    decreases entries.len(),
{
    if entries.len() > 0 {
        let pre = entries.drop_last();
        lemma_pick_video(pre);
        assert(forall|j: int| 0 <= j < pre.len() ==> pre[j] == entries[j]);
        assert(entries.last() == entries[entries.len() - 1]);
    }
}

/// Decides `pick_video`.
pub fn get_video_file_entry(entries: &Vec<FsEntry>) -> (r: Option<usize>)
    ensures
        match r {
            Some(i) => pick_video(entries@) == Some(i as int),
            None => pick_video(entries@) is None,
        },
{
    let mut best: Option<usize> = None;
    let mut i: usize = 0;
    proof {
        assert(entries@.take(0) =~= Seq::<FsEntry>::empty());
    }
    while i < entries.len()
        invariant
            i <= entries.len(),
            match best {
                Some(bi) => bi < i && pick_video(entries@.take(i as int)) == Some(bi as int),
                None => pick_video(entries@.take(i as int)) is None,
            },
        decreases entries.len() - i,
    {
        let ghost pre = entries@.take(i as int);
        let ghost full = entries@.take(i + 1);
        proof {
            assert(full.drop_last() =~= pre);
            assert(full.last() == entries@[i as int]);
            if let Some(bi) = best {
                assert(full[bi as int] == entries@[bi as int]);
            }
        }
        if is_video_file(entries[i].name.as_str()) {
            match best {
                None => {
                    best = Some(i);
                },
                Some(bi) => {
                    if entries[i].size > entries[bi].size {
                        best = Some(i);
                    }
                },
            }
        }
        i += 1;
    }
    proof {
        assert(entries@.take(entries@.len() as int) =~= entries@);
    }
    best
}

/// `name`'s stem strictly extends `base_stem`.
pub open spec fn is_related_name(name: Seq<char>, base_stem: Seq<char>) -> bool {
    matches_at(stem_of(name), base_stem, 0) && stem_of(name) != base_stem
}

/// The related names among `names`, order kept.
pub open spec fn filtered_related(names: Seq<Seq<char>>, base_stem: Seq<char>) -> Seq<Seq<char>>
    decreases names.len(),
{
    if names.len() == 0 {
        names
    } else if is_related_name(names.last(), base_stem) {
        filtered_related(names.drop_last(), base_stem) + seq![names.last()]
    } else {
        filtered_related(names.drop_last(), base_stem)
    }
}

fn stem_chars(name: &str) -> (r: Vec<char>)
    ensures
        r@ == stem_of(name@),
{
    let chars = str_to_chars(name);
    match rfind_dot_vec(&chars) {
        Some(i) => {
            proof {
                crate::split::lemma_rfind_dot_some(name@, i as int);
            }
            let mut st: Vec<char> = Vec::new();
            let mut k: usize = 0;
            while k < i
                invariant
                    k <= i < chars@.len(),
                    chars@ == name@,
                    st@.len() == k,
                    forall|j: int| 0 <= j < k ==> st@[j] == name@[j],
                decreases i - k,
            {
                st.push(chars[k]);
                k += 1;
            }
            assert(st@ =~= stem_of(name@));
            st
        },
        None => {
            assert(chars@ =~= stem_of(name@));
            chars
        },
    }
}

fn starts_with_chars(s: &Vec<char>, pat: &Vec<char>) -> (r: bool)
    ensures
        r == matches_at(s@, pat@, 0),
{
    if pat.len() > s.len() {
        return false;
    }
    let mut i: usize = 0;
    while i < pat.len()
        invariant
            pat.len() <= s.len(),
            i <= pat.len(),
            forall|j: int| 0 <= j < i ==> s@[j] == pat@[j],
        decreases pat.len() - i,
    {
        if s[i] != pat[i] {
            return false;
        }
        i += 1;
    }
    true
}

/// Names whose stem strictly extends the stem of `file_name`, order kept:
/// the files that belong beside that video when it moves into its own folder.
pub fn find_files_with_same_prefix(file_names: &Vec<String>, file_name: &str) -> (r: Vec<String>)
    ensures
        string_views(r@) == filtered_related(string_views(file_names@), stem_of(file_name@)),
{
    let base = stem_chars(file_name);
    let mut r: Vec<String> = Vec::new();
    let mut i: usize = 0;
    proof {
        assert(string_views(file_names@).take(0) =~= Seq::<Seq<char>>::empty());
        assert(string_views(r@) =~= filtered_related(
            string_views(file_names@).take(0),
            base@,
        ));
    }
    while i < file_names.len()
        invariant
            base@ == stem_of(file_name@),
            i <= file_names.len(),
            string_views(r@) == filtered_related(
                string_views(file_names@).take(i as int),
                base@,
            ),
        decreases file_names.len() - i,
    {
        let ghost pre = string_views(file_names@).take(i as int);
        proof {
            assert(string_views(file_names@).take(i + 1).drop_last() =~= pre);
            assert(string_views(file_names@).take(i + 1).last() == file_names@[i as int]@);
        }
        let st = stem_chars(file_names[i].as_str());
        let is_prefix = starts_with_chars(&st, &base);
        let same = chars_eq(&st, &base);
        if is_prefix && !same {
            let ghost before = string_views(r@);
            r.push(file_names[i].clone());
            proof {
                assert(string_views(r@) =~= before.push(file_names@[i as int]@));
                assert(string_views(r@) =~= filtered_related(
                    string_views(file_names@).take(i + 1),
                    base@,
                ));
            }
        }
        i += 1;
    }
    proof {
        assert(string_views(file_names@).take(file_names@.len() as int) =~= string_views(
            file_names@,
        ));
    }
    r
}

/// The names of `all` that are not in `included`, order kept.
pub open spec fn excluded_names(all: Seq<Seq<char>>, included: Seq<Seq<char>>) -> Seq<Seq<char>>
    decreases all.len(),
{
    if all.len() == 0 {
        all
    } else if !included.contains(all.last()) {
        excluded_names(all.drop_last(), included) + seq![all.last()]
    } else {
        excluded_names(all.drop_last(), included)
    }
}

fn contains_string(v: &Vec<String>, x: &String) -> (r: bool)
    ensures
        r == string_views(v@).contains(x@),
{
    let mut i: usize = 0;
    while i < v.len()
        invariant
            i <= v.len(),
            forall|j: int| 0 <= j < i ==> string_views(v@)[j] != x@,
        decreases v.len() - i,
    {
        if v[i].eq(x) {
            assert(string_views(v@)[i as int] == x@);
            return true;
        }
        i += 1;
    }
    assert(forall|j: int| 0 <= j < v@.len() ==> string_views(v@)[j] != x@);
    false
}

/// The entries to delete when only `included` are kept: everything else,
/// in enumeration order.
pub fn delete_excluded_files(all: &Vec<String>, included: &Vec<String>) -> (r: Vec<String>)
    ensures
        string_views(r@) == excluded_names(string_views(all@), string_views(included@)),
{
    let mut r: Vec<String> = Vec::new();
    let mut i: usize = 0;
    proof {
        assert(string_views(all@).take(0) =~= Seq::<Seq<char>>::empty());
        assert(string_views(r@) =~= excluded_names(
            string_views(all@).take(0),
            string_views(included@),
        ));
    }
    while i < all.len()
        invariant
            i <= all.len(),
            string_views(r@) == excluded_names(
                string_views(all@).take(i as int),
                string_views(included@),
            ),
        decreases all.len() - i,
    {
        let ghost pre = string_views(all@).take(i as int);
        proof {
            assert(string_views(all@).take(i + 1).drop_last() =~= pre);
            assert(string_views(all@).take(i + 1).last() == all@[i as int]@);
        }
        if !contains_string(included, &all[i]) {
            let ghost before = string_views(r@);
            r.push(all[i].clone());
            proof {
                assert(string_views(r@) =~= before.push(all@[i as int]@));
                assert(string_views(r@) =~= excluded_names(
                    string_views(all@).take(i + 1),
                    string_views(included@),
                ));
            }
        }
        i += 1;
    }
    proof {
        assert(string_views(all@).take(all@.len() as int) =~= string_views(all@));
    }
    r
}

} // verus!
