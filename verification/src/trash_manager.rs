use vstd::prelude::*;
use vstd::string::*;
use crate::content::{base_name, basename, ContentStore};
use crate::error::StoreError;
use crate::schema::{NoteWithAttachments, NoteWithAttachmentsView, AttachmentView};
use crate::time::{date_seq, format_ymd, DateStamp};

verus! {

/// The paths a delete disposes of: the note's rendered file first, then
/// every attachment blob, in table order.
pub open spec fn all_paths(nwa: NoteWithAttachmentsView) -> Seq<Seq<char>> {
    seq![nwa.note.file_path] + nwa.attachments.map_values(|a: AttachmentView| a.file_path)
}

/// The dated folder a day's disposals are archived in:
/// `{notes_folder}/trash/{YYYY-MM-DD}`.
pub open spec fn trash_dir_spec(folder: Seq<char>, date: DateStamp) -> Seq<char> {
    folder + "/trash/"@ + date_seq(date.year as int, date.month as int, date.day as int)
}

/// One archival step. A path with no file behind it is skipped. A path
/// whose base name is empty cannot be archived, and a base name that
/// already sits in the trash folder must not be overwritten: both
/// refuse (`None`). Otherwise the file moves into `dir` under its base
/// name.
pub open spec fn step_trash(
    m: Map<Seq<char>, Seq<char>>,
    src: Seq<char>,
    dir: Seq<char>,
) -> Option<Map<Seq<char>, Seq<char>>> {
    if !m.contains_key(src) {
        Some(m)
    } else {
        let b = basename(src);
        if b.len() == 0 {
            None
        } else {
            let dst = dir + seq!['/'] + b;
            if m.contains_key(dst) && dst != src {
                None
            } else {
                Some(m.remove(src).insert(dst, m[src]))
            }
        }
    }
}

/// The archival steps for `srcs`, applied first to last; the first
/// refusal stops the walk.
pub open spec fn trash_fold(
    m: Map<Seq<char>, Seq<char>>,
    srcs: Seq<Seq<char>>,
    dir: Seq<char>,
) -> Option<Map<Seq<char>, Seq<char>>>
    decreases srcs.len(),
{
    if srcs.len() == 0 {
        Some(m)
    } else {
        match step_trash(m, srcs[0], dir) {
            Some(m2) => trash_fold(m2, srcs.subrange(1, srcs.len() as int), dir),
            None => None,
        }
    }
}

/// Extending the walk by one path applies one more step to its outcome.
proof fn lemma_fold_push(
    m: Map<Seq<char>, Seq<char>>,
    s: Seq<Seq<char>>,
    x: Seq<char>,
    dir: Seq<char>,
)
    ensures
        trash_fold(m, s.push(x), dir) == match trash_fold(m, s, dir) {
            Some(m2) => step_trash(m2, x, dir),
            None => None,
        },
    decreases s.len(),
{
    let t = s.push(x);
    assert(t.len() == s.len() + 1);
    if s.len() == 0 {
        assert(t[0] == x);
        assert(t.subrange(1, t.len() as int) =~= Seq::<Seq<char>>::empty());
        match step_trash(m, x, dir) {
            Some(m2) => {
                assert(trash_fold(m2, t.subrange(1, t.len() as int), dir) == Some(m2));
                assert(trash_fold(m, t, dir) == step_trash(m, x, dir));
            },
            None => {
                assert(trash_fold(m, t, dir) is None);
            },
        }
        assert(trash_fold(m, s, dir) == Some(m));
    } else {
        assert(t[0] == s[0]);
        match step_trash(m, s[0], dir) {
            Some(m2) => {
                assert(t.subrange(1, t.len() as int) =~= s.subrange(1, s.len() as int).push(x));
                lemma_fold_push(m2, s.subrange(1, s.len() as int), x, dir);
                assert(trash_fold(m, t, dir) == trash_fold(
                    m2,
                    s.subrange(1, s.len() as int).push(x),
                    dir,
                ));
                assert(trash_fold(m, s, dir) == trash_fold(m2, s.subrange(1, s.len() as int), dir));
            },
            None => {
                assert(trash_fold(m, t, dir) is None);
                assert(trash_fold(m, s, dir) is None);
            },
        }
    }
}

/// A walk that has already refused on a prefix refuses as a whole.
proof fn lemma_fold_none(
    m: Map<Seq<char>, Seq<char>>,
    s: Seq<Seq<char>>,
    dir: Seq<char>,
    k: int,
)
    requires
        0 <= k <= s.len(),
        trash_fold(m, s.take(k), dir) is None,
    ensures
        trash_fold(m, s, dir) is None,
    decreases s.len() - k,
{
    if k == s.len() {
        assert(s.take(k) =~= s);
    } else {
        assert(s.take(k + 1) =~= s.take(k).push(s[k]));
        lemma_fold_push(m, s.take(k), s[k], dir);
        lemma_fold_none(m, s, dir, k + 1);
    }
}

/// `p` lies under the directory `dir`: it begins with `dir` followed
/// by a separator.
pub open spec fn under_dir(p: Seq<char>, dir: Seq<char>) -> bool {
    dir.len() + 1 <= p.len() && p.subrange(0, dir.len() as int + 1) == dir + seq!['/']
}

/// An archival destination lies under the trash folder.
proof fn lemma_dst_under(dir: Seq<char>, b: Seq<char>)
    ensures
        under_dir(dir + seq!['/'] + b, dir),
{
    let dst = dir + seq!['/'] + b;
    assert(dst.subrange(0, dir.len() as int + 1) =~= dir + seq!['/']);
}

/// Outside the trash folder, a successful walk only ever removes
/// files: whatever it leaves there was there before, unchanged.
proof fn lemma_fold_outside(
    m: Map<Seq<char>, Seq<char>>,
    srcs: Seq<Seq<char>>,
    dir: Seq<char>,
    p: Seq<char>,
)
    requires
        trash_fold(m, srcs, dir) is Some,
        !under_dir(p, dir),
    ensures
        trash_fold(m, srcs, dir).unwrap().contains_key(p) ==> m.contains_key(p) && trash_fold(
            m,
            srcs,
            dir,
        ).unwrap()[p] == m[p],
    decreases srcs.len(),
{
    if srcs.len() > 0 {
        let rest = srcs.subrange(1, srcs.len() as int);
        let m2 = step_trash(m, srcs[0], dir).unwrap();
        if m.contains_key(srcs[0]) {
            let b = basename(srcs[0]);
            let dst = dir + seq!['/'] + b;
            lemma_dst_under(dir, b);
            assert(p != dst);
        }
        lemma_fold_outside(m2, rest, dir, p);
    }
}

/// A file already archived under the trash folder survives a
/// successful walk untouched, as long as no walked path lies under the
/// folder: the walk refuses to overwrite it and never removes it.
proof fn lemma_fold_keeps_archived(
    m: Map<Seq<char>, Seq<char>>,
    srcs: Seq<Seq<char>>,
    dir: Seq<char>,
    q: Seq<char>,
)
    requires
        trash_fold(m, srcs, dir) is Some,
        m.contains_key(q),
        under_dir(q, dir),
        forall|k: int| 0 <= k < srcs.len() ==> !under_dir(#[trigger] srcs[k], dir),
    ensures
        trash_fold(m, srcs, dir).unwrap().contains_key(q),
        trash_fold(m, srcs, dir).unwrap()[q] == m[q],
    decreases srcs.len(),
{
    if srcs.len() > 0 {
        let rest = srcs.subrange(1, srcs.len() as int);
        assert(!under_dir(srcs[0], dir));
        let m2 = step_trash(m, srcs[0], dir).unwrap();
        if m.contains_key(srcs[0]) {
            let b = basename(srcs[0]);
            let dst = dir + seq!['/'] + b;
            lemma_dst_under(dir, b);
            assert(dst != srcs[0]);
            if dst == q {
                assert(m.contains_key(dst) && dst != srcs[0]);
                assert(step_trash(m, srcs[0], dir) is None);
            }
            assert(m2.contains_key(q) && m2[q] == m[q]);
        }
        assert forall|k: int| 0 <= k < rest.len() implies !under_dir(#[trigger] rest[k], dir) by {
            assert(rest[k] == srcs[k + 1]);
        }
        lemma_fold_keeps_archived(m2, rest, dir, q);
    }
}

/// Delete with MoveToTrash, seen across the whole walk: when the walk
/// succeeds on pairwise-distinct paths, none of which lies under the
/// trash folder itself, no file remains at any walked path, and every
/// walked file that existed now sits in the trash folder under its
/// base name, content unchanged.
pub proof fn lemma_trash_walk_moves(
    m: Map<Seq<char>, Seq<char>>,
    srcs: Seq<Seq<char>>,
    dir: Seq<char>,
    m1: Map<Seq<char>, Seq<char>>,
)
    requires
        trash_fold(m, srcs, dir) == Some(m1),
        forall|k: int| 0 <= k < srcs.len() ==> !under_dir(#[trigger] srcs[k], dir),
        forall|k: int, j: int| 0 <= k < j < srcs.len() ==> srcs[k] != srcs[j],
    ensures
        forall|k: int| 0 <= k < srcs.len() ==> !m1.contains_key(#[trigger] srcs[k]),
        forall|k: int|
            0 <= k < srcs.len() && m.contains_key(#[trigger] srcs[k]) ==> m1.contains_key(
                dir + seq!['/'] + basename(srcs[k]),
            ) && m1[dir + seq!['/'] + basename(srcs[k])] == m[srcs[k]],
    decreases srcs.len(),
{
    if srcs.len() > 0 {
        let rest = srcs.subrange(1, srcs.len() as int);
        let src0 = srcs[0];
        assert(!under_dir(src0, dir));
        let m2 = step_trash(m, src0, dir).unwrap();
        assert(trash_fold(m2, rest, dir) == Some(m1));
        assert forall|k: int| 0 <= k < rest.len() implies !under_dir(#[trigger] rest[k], dir) by {
            assert(rest[k] == srcs[k + 1]);
        }
        assert forall|k: int, j: int| 0 <= k < j < rest.len() implies rest[k] != rest[j] by {
            assert(rest[k] == srcs[k + 1] && rest[j] == srcs[j + 1]);
        }
        lemma_trash_walk_moves(m2, rest, dir, m1);
        if m.contains_key(src0) {
            let b = basename(src0);
            let dst = dir + seq!['/'] + b;
            lemma_dst_under(dir, b);
            assert(!m2.contains_key(src0));
            lemma_fold_outside(m2, rest, dir, src0);
            assert(!m1.contains_key(src0));
            assert(m2.contains_key(dst) && m2[dst] == m[src0]);
            lemma_fold_keeps_archived(m2, rest, dir, dst);
            assert(m1.contains_key(dst) && m1[dst] == m[src0]);
        } else {
            assert(m2 == m);
            lemma_fold_outside(m2, rest, dir, src0);
            assert(!m1.contains_key(src0));
        }
        assert forall|k: int|
            0 <= k < srcs.len() && m.contains_key(#[trigger] srcs[k]) implies m1.contains_key(
            dir + seq!['/'] + basename(srcs[k]),
        ) && m1[dir + seq!['/'] + basename(srcs[k])] == m[srcs[k]] by {
            if k > 0 {
                assert(rest[k - 1] == srcs[k]);
                assert(srcs[k] != src0);
                if m.contains_key(src0) {
                    let b0 = basename(src0);
                    let dst0 = dir + seq!['/'] + b0;
                    lemma_dst_under(dir, b0);
                    assert(srcs[k] != dst0);
                }
                assert(m2.contains_key(rest[k - 1]) && m2[rest[k - 1]] == m[srcs[k]]);
                assert(m1.contains_key(dir + seq!['/'] + basename(rest[k - 1])));
                assert(m1[dir + seq!['/'] + basename(rest[k - 1])] == m2[rest[k - 1]]);
            }
        }
        assert forall|k: int| 0 <= k < srcs.len() implies !m1.contains_key(#[trigger] srcs[k]) by {
            if k > 0 {
                assert(rest[k - 1] == srcs[k]);
                assert(!m1.contains_key(rest[k - 1]));
            }
        }
    }
}

/// Delete with MoveToTrash, stated of the whole operation: when the
/// archival walk of a note and its attachments succeeds, and the
/// walked paths are pairwise distinct with none lying under the dated
/// trash folder itself, then no file remains at the note's original
/// path, a file with its base name sits under
/// `{notes_folder}/trash/{date}` holding the original content, and the
/// same holds of every attachment file that existed.
pub proof fn lemma_move_to_trash_archives(
    m: Map<Seq<char>, Seq<char>>,
    nwa: NoteWithAttachmentsView,
    folder: Seq<char>,
    date: DateStamp,
    m1: Map<Seq<char>, Seq<char>>,
)
    requires
        trash_fold(m, all_paths(nwa), trash_dir_spec(folder, date)) == Some(m1),
        forall|k: int|
            0 <= k < all_paths(nwa).len() ==> !under_dir(
                #[trigger] all_paths(nwa)[k],
                trash_dir_spec(folder, date),
            ),
        forall|k: int, j: int|
            0 <= k < j < all_paths(nwa).len() ==> all_paths(nwa)[k] != all_paths(nwa)[j],
    ensures
        !m1.contains_key(nwa.note.file_path),
        m.contains_key(nwa.note.file_path) ==> m1.contains_key(
            trash_dir_spec(folder, date) + seq!['/'] + basename(nwa.note.file_path),
        ) && m1[trash_dir_spec(folder, date) + seq!['/'] + basename(nwa.note.file_path)]
            == m[nwa.note.file_path],
        forall|k: int|
            0 <= k < nwa.attachments.len() ==> !m1.contains_key(
                (#[trigger] nwa.attachments[k]).file_path,
            ),
        forall|k: int|
            0 <= k < nwa.attachments.len() && m.contains_key(
                (#[trigger] nwa.attachments[k]).file_path,
            ) ==> m1.contains_key(
                trash_dir_spec(folder, date) + seq!['/'] + basename(nwa.attachments[k].file_path),
            ) && m1[trash_dir_spec(folder, date) + seq!['/'] + basename(
                nwa.attachments[k].file_path,
            )] == m[nwa.attachments[k].file_path],
{
    let paths = all_paths(nwa);
    let dir = trash_dir_spec(folder, date);
    lemma_trash_walk_moves(m, paths, dir, m1);
    assert(paths[0] == nwa.note.file_path);
    assert forall|k: int| 0 <= k < nwa.attachments.len() implies !m1.contains_key(
        (#[trigger] nwa.attachments[k]).file_path,
    ) by {
        assert(paths[k + 1] == nwa.attachments[k].file_path);
        assert(!m1.contains_key(paths[k + 1]));
    }
    assert forall|k: int|
        0 <= k < nwa.attachments.len() && m.contains_key(
            (#[trigger] nwa.attachments[k]).file_path,
        ) implies m1.contains_key(
        dir + seq!['/'] + basename(nwa.attachments[k].file_path),
    ) && m1[dir + seq!['/'] + basename(nwa.attachments[k].file_path)]
        == m[nwa.attachments[k].file_path] by {
        assert(paths[k + 1] == nwa.attachments[k].file_path);
        assert(m.contains_key(paths[k + 1]));
        assert(m1.contains_key(dir + seq!['/'] + basename(paths[k + 1])));
        assert(m1[dir + seq!['/'] + basename(paths[k + 1])] == m[paths[k + 1]]);
    }
}

/// Delete with MoveToTrash, seen at one file: a successful archival
/// step on a file that exists moves it out of its original path, and a
/// file of the same base name then sits in the trash folder holding the
/// original content.
pub proof fn lemma_trash_step_moves(
    m: Map<Seq<char>, Seq<char>>,
    src: Seq<char>,
    dir: Seq<char>,
)
    requires
        m.contains_key(src),
        step_trash(m, src, dir) is Some,
        dir + seq!['/'] + basename(src) != src,
    ensures
        !step_trash(m, src, dir).unwrap().contains_key(src),
        step_trash(m, src, dir).unwrap().contains_key(dir + seq!['/'] + basename(src)),
        step_trash(m, src, dir).unwrap()[dir + seq!['/'] + basename(src)] == m[src],
{
}

/// Archives one file into the trash folder, carrying the file's base
/// name over; skips paths with no file behind them and refuses to
/// overwrite an archived file of the same name.
fn trash_step(content: &mut ContentStore, src: &str, dir: &str) -> (r: Result<(), StoreError>)
    requires
        old(content).wf(),
    ensures
        final(content).wf(),
        match r {
            Ok(_) => step_trash(old(content)@, src@, dir@) is Some && Some(final(content)@)
                == step_trash(old(content)@, src@, dir@),
            Err(e) => e == StoreError::IoFailure && step_trash(old(content)@, src@, dir@) is None
                && final(content)@ == old(content)@,
        },
{
    if content.contains(src) {
        let b = base_name(src);
        if b.unicode_len() == 0 {
            return Err(StoreError::IoFailure);
        }
        let mut dst = String::from_str(dir);
        dst.append("/");
        dst.append(b.as_str());
        proof {
            reveal_strlit("/");
            assert(("/")@ =~= seq!['/']);
            assert(dst@ == dir@ + seq!['/'] + basename(src@));
        }
        match content.rename(src, dst.as_str()) {
            Ok(_) => Ok(()),
            Err(e) => Err(e),
        }
    } else {
        Ok(())
    }
}

/// The archival arm of the deletion policy.
pub struct TrashManager;

impl TrashManager {
    /// Moves the note's rendered file and every attachment blob into
    /// `{notes_folder}/trash/{YYYY-MM-DD}` for the given day, keeping
    /// base names. Paths with no file behind them are skipped. The call
    /// fails with `IoFailure` exactly when the walk refuses: a file
    /// whose base name is empty, or whose base name already sits in the
    /// trash folder (archiving must not overwrite archived content);
    /// the files before the refusal stay moved — the walk rolls
    /// forward, it does not undo.
    pub fn move_to_trash(
        notes_folder: &str,
        note: &NoteWithAttachments,
        date: &DateStamp,
        content: &mut ContentStore,
    ) -> (r: Result<(), StoreError>)
        requires
            old(content).wf(),
            date.wf(),
        ensures
            final(content).wf(),
            match r {
                Ok(_) => trash_fold(
                    old(content)@,
                    all_paths(note@),
                    trash_dir_spec(notes_folder@, *date),
                ) == Some(final(content)@),
                Err(e) => {
                    &&& e == StoreError::IoFailure
                    &&& trash_fold(
                        old(content)@,
                        all_paths(note@),
                        trash_dir_spec(notes_folder@, *date),
                    ) is None
                    &&& exists|k: int|
                        {
                            &&& 0 <= k < all_paths(note@).len()
                            &&& trash_fold(
                                old(content)@,
                                all_paths(note@).take(k),
                                trash_dir_spec(notes_folder@, *date),
                            ) == Some(final(content)@)
                            &&& step_trash(
                                final(content)@,
                                all_paths(note@)[k],
                                trash_dir_spec(notes_folder@, *date),
                            ) is None
                        }
                },
            },
    {
        let mut dir = String::from_str(notes_folder);
        dir.append("/trash/");
        let ds = format_ymd(date);
        dir.append(ds.as_str());
        proof {
            assert(dir@ == trash_dir_spec(notes_folder@, *date));
        }
        let ghost m0 = content@;
        let ghost paths = all_paths(note@);
        let ghost dirv = dir@;
        proof {
            assert(paths[0] == note@.note.file_path);
            assert(paths.take(0) =~= Seq::<Seq<char>>::empty());
            assert(paths.take(1) =~= paths.take(0).push(paths[0]));
            lemma_fold_push(m0, paths.take(0), paths[0], dirv);
        }
        match trash_step(content, note.note.file_path.as_str(), dir.as_str()) {
            Ok(_) => {},
            Err(e) => {
                proof {
                    assert(trash_fold(m0, paths.take(0), dirv) == Some(content@));
                    assert(trash_fold(m0, paths.take(1), dirv) is None);
                    lemma_fold_none(m0, paths, dirv, 1);
                }
                return Err(e);
            },
        }
        let mut i: usize = 0;
        while i < note.attachments.len()
            invariant
                old(content).wf(),
                content.wf(),
                i <= note.attachments@.len(),
                m0 == old(content)@,
                paths == all_paths(note@),
                dirv == trash_dir_spec(notes_folder@, *date),
                dir@ == dirv,
                paths.len() == note.attachments@.len() + 1,
                trash_fold(m0, paths.take(i + 1), dirv) == Some(content@),
            decreases note.attachments@.len() - i,
        {
            proof {
                assert(paths[i + 1] == note.attachments@[i as int]@.file_path);
                assert(paths.take(i + 2) =~= paths.take(i + 1).push(paths[i + 1]));
                lemma_fold_push(m0, paths.take(i + 1), paths[i + 1], dirv);
            }
            match trash_step(content, note.attachments[i].file_path.as_str(), dir.as_str()) {
                Ok(_) => {},
                Err(e) => {
                    proof {
                        assert(trash_fold(m0, paths.take(i + 2), dirv) is None);
                        lemma_fold_none(m0, paths, dirv, i + 2);
                    }
                    return Err(e);
                },
            }
            i += 1;
        }
        proof {
            assert(paths.take(paths.len() as int) =~= paths);
        }
        Ok(())
    }
}

} // verus!
