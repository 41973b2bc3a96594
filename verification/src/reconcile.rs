//! The per-directory reconciliation planner: the idempotency rule, the
//! state machine that turns one directory's listing into planned filesystem
//! actions, and the enrichment step after the external title lookup.
//!
//! The surrounding application lists the directory, asks the planner what to
//! do, and carries the actions out in order: copy the nested subtitle up,
//! delete everything not kept, rename the video, rename the subtitle or run
//! the title lookup, write the marker, rename the directory.

use vstd::prelude::*;
use crate::chars::str_to_chars;
use crate::chars::chars_to_string;
use crate::chars::append_chars;
use crate::classify::FsEntry;
use crate::classify::entry_names;
use crate::classify::pick_video;
use crate::classify::get_video_file_entry;
use crate::classify::ext_chars;
use crate::models::MovieMetadata;
use crate::models::ImdbResult;
use crate::parse::parsed_from;
use crate::parse::string_views;
use crate::parse::media_name_of;
use crate::parse::scan_of;
use crate::parse::parse_to_movie_metadata;
use crate::sanitize::clean_spec;
use crate::sanitize::compose_base;
use crate::sanitize::composed_of;
use crate::sanitize::compose_media_name_checked;
use crate::split::ext_of;
use crate::split::stem_of;
use crate::subtitles::DirTree;
use crate::subtitles::find_subtitle;
use crate::subtitles::find_in_subdirs;
use crate::subtitles::get_subtitle_entry;
use crate::subtitles::subtitle_copy_needed;

verus! {

/// The idempotency rule: a directory is skipped only when its marker file
/// was read and deserialized successfully and fewer than 2 regular files
/// remain at its root.
pub open spec fn already_reconciled(marker_valid: bool, root_file_count: int) -> bool {
    marker_valid && root_file_count < 2
}

/// Decides the idempotency rule: `true` means the directory needs work.
pub fn needs_processing(marker_valid: bool, root_file_count: usize) -> (r: bool)
    ensures
        r == !already_reconciled(marker_valid, root_file_count as int),
{
    !(marker_valid && root_file_count < 2)
}

/// A base path joined with a file name by a single separator.
pub open spec fn joined_path(base: Seq<char>, name: Seq<char>) -> Seq<char> {
    if base.len() == 0 {
        name
    } else if base.last() == '/' {
        base + name
    } else {
        base + seq!['/'] + name
    }
}

/// Joins a base path and a file name.
pub fn merge_base_with_file(base_path: &str, file_name: &str) -> (r: String)
    ensures
        r@ == joined_path(base_path@, file_name@),
{
    let mut out = str_to_chars(base_path);
    let tail = str_to_chars(file_name);
    if out.len() == 0 {
        return chars_to_string(&tail);
    }
    if out[out.len() - 1] != '/' {
        out.push('/');
        append_chars(&mut out, &tail);
        proof {
            assert(out@ =~= base_path@ + seq!['/'] + file_name@);
        }
    } else {
        append_chars(&mut out, &tail);
    }
    chars_to_string(&out)
}

/// A planned copy of the found subtitle up to the directory root.
#[derive(Debug)]
pub struct CopyAction {
    /// Path components from the directory root to the found subtitle.
    pub from_components: Vec<String>,
    /// Destination file name at the directory root.
    pub to_name: String,
}

/// One planned removal at the directory root.
#[derive(Debug)]
pub struct DeleteAction {
    pub name: String,
    pub is_dir: bool,
}

/// The planned actions for one directory that holds a video.
#[derive(Debug)]
pub struct ReconcilePlan {
    /// Performed first, when the subtitle lies in a subdirectory.
    pub subtitle_copy: Option<CopyAction>,
    /// The kept video's current name.
    pub video_name: String,
    /// The kept subtitle's root file name after any copy.
    pub subtitle_name: Option<String>,
    /// Everything else at the root: files singly, subdirectories recursively.
    pub deletions: Vec<DeleteAction>,
    /// Metadata parsed from the video's or the folder's name.
    pub metadata: MovieMetadata,
    /// The sanitized canonical display name.
    pub composed_name: String,
    /// New name for the video file.
    pub video_rename_to: String,
    /// New name for the subtitle file, when one is kept.
    pub subtitle_rename_to: Option<String>,
    /// With no subtitle, the external title lookup runs after the video
    /// rename; its result feeds `enrich_metadata`.
    pub needs_lookup: bool,
}

/// What the planner decides for one directory.
#[derive(Debug)]
pub enum ReconcileOutcome {
    /// The idempotency rule says the directory was reconciled before.
    Skip,
    /// No video file at the root: the directory is left untouched but for
    /// the unconditional subtitle relocation.
    NoVideo { subtitle_copy: Option<CopyAction> },
    /// The composed name failed sanitization: nothing may be written.
    InvalidName { subtitle_copy: Option<CopyAction> },
    /// The full set of planned actions.
    Proceed(ReconcilePlan),
}

/// The views of a planned copy.
pub open spec fn copy_views(c: Option<CopyAction>) -> Option<(Seq<Seq<char>>, Seq<char>)> {
    match c {
        None => None,
        Some(a) => Some((string_views(a.from_components@), a.to_name@)),
    }
}

/// The copy the selector's side effect calls for: only a subtitle found in a
/// subdirectory, and only when no root file already bears its name.
pub open spec fn planned_copy(d: DirTree, depth: nat, c: Option<CopyAction>) -> bool {
    match find_subtitle(d, depth) {
        None => c is None,
        Some(path) => {
            if path.len() > 1 && !entry_names(d.files@).contains(path.last()) {
                copy_views(c) == Some((path, path.last()))
            } else {
                c is None
            }
        },
    }
}

/// The view of an optional string.
pub open spec fn opt_view(s: Option<String>) -> Option<Seq<char>> {
    match s {
        None => None,
        Some(x) => Some(x@),
    }
}

/// The kept subtitle's root name: the found subtitle's file name.
pub open spec fn planned_subtitle(d: DirTree, depth: nat, s: Option<Seq<char>>) -> bool {
    match find_subtitle(d, depth) {
        None => s is None,
        Some(path) => s == Some(path.last()),
    }
}

/// A root file name that survives the purge.
pub open spec fn kept_name(name: Seq<char>, keep_video: Seq<char>, keep_sub: Option<Seq<char>>) -> bool {
    name == keep_video || keep_sub == Some(name)
}

/// The root file names to delete, order kept.
pub open spec fn file_deletions(
    files: Seq<FsEntry>,
    keep_video: Seq<char>,
    keep_sub: Option<Seq<char>>,
) -> Seq<Seq<char>>
    decreases files.len(),
{
    if files.len() == 0 {
        Seq::empty()
    } else if kept_name(files.last().name@, keep_video, keep_sub) {
        file_deletions(files.drop_last(), keep_video, keep_sub)
    } else {
        file_deletions(files.drop_last(), keep_video, keep_sub) + seq![files.last().name@]
    }
}

/// The names of the subdirectories.
pub open spec fn subdir_names(ds: Seq<DirTree>) -> Seq<Seq<char>> {
    ds.map_values(|d: DirTree| d.name@)
}

/// The views of the planned deletions.
pub open spec fn del_views(ds: Seq<DeleteAction>) -> Seq<(Seq<char>, bool)> {
    ds.map_values(|d: DeleteAction| (d.name@, d.is_dir))
}

/// Every root entry but the kept video and subtitle is deleted: files
/// singly, then every subdirectory recursively.
pub open spec fn planned_deletions(
    dels: Seq<DeleteAction>,
    files: Seq<FsEntry>,
    subdirs: Seq<DirTree>,
    keep_video: Seq<char>,
    keep_sub: Option<Seq<char>>,
) -> bool {
    del_views(dels) == file_deletions(files, keep_video, keep_sub).map_values(
        |n: Seq<char>| (n, false),
    ) + subdir_names(subdirs).map_values(|n: Seq<char>| (n, true))
}

/// The name handed to the parser: the folder's own name (with the video's
/// extension) when it is longer than the video's name.
pub open spec fn parse_source(dir_name: Seq<char>, video_name: Seq<char>) -> Seq<char> {
    if dir_name.len() > video_name.len() {
        dir_name + seq!['.'] + ext_of(video_name)
    } else {
        video_name
    }
}

/// The sanitized composed name that parsing `file_name` leads to.
pub open spec fn composed_from_name(file_name: Seq<char>) -> Option<Seq<char>> {
    let stem = stem_of(file_name);
    clean_spec(compose_base(media_name_of(stem), scan_of(stem).year, scan_of(stem).res))
}

/// A found subtitle path always has at least one component.
pub proof fn lemma_find_subtitle_nonempty(d: DirTree, depth: nat)
    ensures
        match find_subtitle(d, depth) {
            Some(p) => p.len() >= 1,
            None => true,
        },
    decreases depth, 0nat, 0nat,
{
    let cands = crate::subtitles::filtered_subtitles(entry_names(d.files@));
    if cands.len() > 0 {
    } else if depth == 0 {
    } else {
        lemma_find_in_subdirs_nonempty(d.subdirs@, (depth - 1) as nat);
    }
}

proof fn lemma_find_in_subdirs_nonempty(ds: Seq<DirTree>, depth: nat)
    ensures
        match find_in_subdirs(ds, depth) {
            Some(p) => p.len() >= 1,
            None => true,
        },
    decreases depth, 1nat, ds.len(),
{
    if ds.len() > 0 {
        lemma_find_subtitle_nonempty(ds[0], depth);
        lemma_find_in_subdirs_nonempty(ds.drop_first(), depth);
    }
}

fn copy_strings(v: &Vec<String>) -> (r: Vec<String>)
    ensures
        r@ == v@,
{
    let mut r: Vec<String> = Vec::new();
    let mut i: usize = 0;
    while i < v.len()
        invariant
            i <= v.len(),
            r@.len() == i,
            forall|j: int| 0 <= j < i ==> r@[j] == v@[j],
        decreases v.len() - i,
    {
        r.push(v[i].clone());
        i += 1;
    }
    assert(r@ =~= v@);
    r
}

fn build_deletions(
    files: &Vec<FsEntry>,
    subdirs_names: &Vec<String>,
    keep_video: &String,
    keep_sub: &Option<String>,
) -> (r: Vec<DeleteAction>)
    ensures
        del_views(r@) == file_deletions(files@, keep_video@, opt_view(*keep_sub)).map_values(
            |n: Seq<char>| (n, false),
        ) + string_views(subdirs_names@).map_values(|n: Seq<char>| (n, true)),
{
    let ghost ks = opt_view(*keep_sub);
    let mut r: Vec<DeleteAction> = Vec::new();
    let mut i: usize = 0;
    proof {
        assert(files@.take(0) =~= Seq::<FsEntry>::empty());
        assert(del_views(r@) =~= file_deletions(files@.take(0), keep_video@, ks).map_values(
            |n: Seq<char>| (n, false),
        ));
    }
    while i < files.len()
        invariant
            i <= files.len(),
            ks == opt_view(*keep_sub),
            del_views(r@) == file_deletions(files@.take(i as int), keep_video@, ks).map_values(
                |n: Seq<char>| (n, false),
            ),
        decreases files.len() - i,
    {
        let ghost pre = files@.take(i as int);
        proof {
            assert(files@.take(i + 1).drop_last() =~= pre);
            assert(files@.take(i + 1).last() == files@[i as int]);
        }
        let name = &files[i].name;
        let is_kept_video = name.eq(keep_video);
        let is_kept_sub = match keep_sub {
            Some(s) => name.eq(s),
            None => false,
        };
        if !is_kept_video && !is_kept_sub {
            let ghost before = del_views(r@);
            r.push(DeleteAction { name: name.clone(), is_dir: false });
            proof {
                assert(del_views(r@) =~= before.push((files@[i as int].name@, false)));
                assert(del_views(r@) =~= file_deletions(
                    files@.take(i + 1),
                    keep_video@,
                    ks,
                ).map_values(|n: Seq<char>| (n, false)));
            }
        } else {
            proof {
                assert(kept_name(files@[i as int].name@, keep_video@, ks));
            }
        }
        i += 1;
    }
    proof {
        assert(files@.take(files@.len() as int) =~= files@);
    }
    let ghost file_part = del_views(r@);
    let mut k: usize = 0;
    proof {
        assert(string_views(subdirs_names@).take(0) =~= Seq::<Seq<char>>::empty());
        assert(del_views(r@) =~= file_part + string_views(subdirs_names@).take(0).map_values(
            |n: Seq<char>| (n, true),
        ));
    }
    while k < subdirs_names.len()
        invariant
            k <= subdirs_names.len(),
            del_views(r@) == file_part + string_views(subdirs_names@).take(k as int).map_values(
                |n: Seq<char>| (n, true),
            ),
        decreases subdirs_names.len() - k,
    {
        let ghost before = del_views(r@);
        r.push(DeleteAction { name: subdirs_names[k].clone(), is_dir: true });
        proof {
            assert(del_views(r@) =~= before.push((subdirs_names@[k as int]@, true)));
            assert(del_views(r@) =~= file_part + string_views(subdirs_names@).take(
                k + 1,
            ).map_values(|n: Seq<char>| (n, true)));
        }
        k += 1;
    }
    proof {
        assert(string_views(subdirs_names@).take(subdirs_names@.len() as int) =~= string_views(
            subdirs_names@,
        ));
    }
    r
}

/// Plans the reconciliation of one directory. `marker_valid` says whether a
/// marker file was read and deserialized successfully; `depth` bounds the
/// subtitle search. The outcome is `Skip` exactly when the idempotency rule
/// holds; with no video only the subtitle relocation is planned; a composed
/// name that fails sanitization rejects the directory; otherwise the full
/// plan comes back.
pub fn plan_directory(dir: &DirTree, marker_valid: bool, depth: u32) -> (r: ReconcileOutcome)
    ensures
        ({
            let done_before = already_reconciled(marker_valid, dir.files@.len() as int);
            match r {
                ReconcileOutcome::Skip => done_before,
                ReconcileOutcome::NoVideo { subtitle_copy } => {
                    &&& !done_before
                    &&& planned_copy(*dir, depth as nat, subtitle_copy)
                    &&& pick_video(dir.files@) is None
                },
                ReconcileOutcome::InvalidName { subtitle_copy } => {
                    &&& !done_before
                    &&& planned_copy(*dir, depth as nat, subtitle_copy)
                    &&& match pick_video(dir.files@) {
                        Some(i) => composed_from_name(
                            parse_source(dir.name@, dir.files@[i].name@),
                        ) is None,
                        None => false,
                    }
                },
                ReconcileOutcome::Proceed(plan) => {
                    &&& !done_before
                    &&& planned_copy(*dir, depth as nat, plan.subtitle_copy)
                    &&& match pick_video(dir.files@) {
                        Some(i) => plan.video_name@ == dir.files@[i].name@,
                        None => false,
                    }
                    &&& planned_subtitle(*dir, depth as nat, opt_view(plan.subtitle_name))
                    &&& planned_deletions(
                        plan.deletions@,
                        dir.files@,
                        dir.subdirs@,
                        plan.video_name@,
                        opt_view(plan.subtitle_name),
                    )
                    &&& parsed_from(plan.metadata, parse_source(dir.name@, plan.video_name@))
                    &&& Some(plan.composed_name@) == composed_from_name(
                        parse_source(dir.name@, plan.video_name@),
                    )
                    &&& Some(plan.composed_name@) == composed_of(plan.metadata)
                    &&& plan.video_rename_to@ == plan.composed_name@ + seq!['.']
                        + plan.metadata.file_extension@
                    &&& match plan.subtitle_rename_to {
                        Some(t) => plan.subtitle_name is Some && t@ == plan.composed_name@
                            + seq!['.', 'e', 'n', '.', 's', 'r', 't'],
                        None => plan.subtitle_name is None,
                    }
                    &&& plan.needs_lookup == (plan.subtitle_name is None)
                },
            }
        }),
{
    if !needs_processing(marker_valid, dir.files.len()) {
        return ReconcileOutcome::Skip;
    }
    let found = get_subtitle_entry(dir, depth);
    proof {
        lemma_find_subtitle_nonempty(*dir, depth as nat);
    }
    let (subtitle_copy, subtitle_name): (Option<CopyAction>, Option<String>) = match found {
        None => (None, None),
        Some(path) => {
            assert(path@.len() >= 1);
            let last = path[path.len() - 1].clone();
            if subtitle_copy_needed(dir, &path) {
                let comps = copy_strings(&path);
                (Some(CopyAction { from_components: comps, to_name: last.clone() }), Some(last))
            } else {
                (None, Some(last))
            }
        },
    };
    let vi = match get_video_file_entry(&dir.files) {
        None => {
            return ReconcileOutcome::NoVideo { subtitle_copy };
        },
        Some(i) => i,
    };
    proof {
        crate::classify::lemma_pick_video(dir.files@);
    }
    let video_name = dir.files[vi].name.clone();

    let mut subdir_name_list: Vec<String> = Vec::new();
    let mut k: usize = 0;
    while k < dir.subdirs.len()
        invariant
            k <= dir.subdirs@.len(),
            subdir_name_list@.len() == k,
            forall|j: int| 0 <= j < k ==> subdir_name_list@[j]@ == dir.subdirs@[j].name@,
        decreases dir.subdirs@.len() - k,
    {
        subdir_name_list.push(dir.subdirs[k].name.clone());
        k += 1;
    }
    proof {
        assert(string_views(subdir_name_list@) =~= subdir_names(dir.subdirs@));
    }
    let deletions = build_deletions(&dir.files, &subdir_name_list, &video_name, &subtitle_name);

    let dir_chars = str_to_chars(dir.name.as_str());
    let vid_chars = str_to_chars(video_name.as_str());
    let source: String = if dir_chars.len() > vid_chars.len() {
        let mut s = dir_chars;
        s.push('.');
        let ext = ext_chars(video_name.as_str());
        append_chars(&mut s, &ext);
        proof {
            assert(s@ =~= parse_source(dir.name@, video_name@));
        }
        chars_to_string(&s)
    } else {
        video_name.clone()
    };
    assert(source@ == parse_source(dir.name@, video_name@));

    let metadata = parse_to_movie_metadata(source.as_str());
    let composed_name = match compose_media_name_checked(&metadata) {
        None => {
            proof {
                assert(composed_of(metadata) == composed_from_name(source@));
            }
            return ReconcileOutcome::InvalidName { subtitle_copy };
        },
        Some(c) => c,
    };
    proof {
        assert(composed_of(metadata) == composed_from_name(source@));
    }

    let mut target = str_to_chars(composed_name.as_str());
    target.push('.');
    let ext2 = str_to_chars(metadata.file_extension.as_str());
    append_chars(&mut target, &ext2);
    proof {
        assert(target@ =~= composed_name@ + seq!['.'] + metadata.file_extension@);
    }
    let video_rename_to = chars_to_string(&target);

    let subtitle_rename_to: Option<String> = match &subtitle_name {
        Some(_) => {
            let mut st = str_to_chars(composed_name.as_str());
            let suffix: Vec<char> = vec!['.', 'e', 'n', '.', 's', 'r', 't'];
            append_chars(&mut st, &suffix);
            Some(chars_to_string(&st))
        },
        None => None,
    };
    let needs_lookup = subtitle_rename_to.is_none();

    ReconcileOutcome::Proceed(
        ReconcilePlan {
            subtitle_copy,
            video_name,
            subtitle_name,
            deletions,
            metadata,
            composed_name,
            video_rename_to,
            subtitle_rename_to,
            needs_lookup,
        },
    )
}

/// Applies a successful external lookup: the media name and id are
/// overwritten and the display name recomposed. When the enriched name fails
/// sanitization the record is left as it was and `None` comes back — the
/// lookup then counts as not found.
pub fn enrich_metadata(metadata: &mut MovieMetadata, info: ImdbResult) -> (r: Option<String>)
    requires
        old(metadata).imdb_id is None,
    ensures
        match r {
            Some(name) => {
                &&& final(metadata).media_name@ == info.title@
                &&& final(metadata).imdb_id == Some(info.id)
                &&& final(metadata).original_file_name == old(metadata).original_file_name
                &&& final(metadata).release_year == old(metadata).release_year
                &&& final(metadata).resolution == old(metadata).resolution
                &&& final(metadata).encoding_format == old(metadata).encoding_format
                &&& final(metadata).additional_data == old(metadata).additional_data
                &&& final(metadata).file_extension == old(metadata).file_extension
                &&& Some(name@) == composed_of(*final(metadata))
            },
            None => {
                &&& *final(metadata) == *old(metadata)
                &&& composed_of(
                    MovieMetadata {
                        media_name: info.title,
                        imdb_id: Some(info.id),
                        ..*old(metadata)
                    },
                ) is None
            },
        },
{
    let prev_name = metadata.media_name.clone();
    metadata.media_name = info.title;
    metadata.imdb_id = Some(info.id);
    match compose_media_name_checked(metadata) {
        Some(name) => Some(name),
        None => {
            metadata.media_name = prev_name;
            metadata.imdb_id = None;
            assert(*metadata =~= *old(metadata));
            None
        },
    }
}

} // verus!
