use vstd::prelude::*;
use crate::content::ContentStore;
use crate::error::StoreError;
use crate::schema::NoteWithAttachments;
use crate::trash_manager::all_paths;

verus! {

/// The map left after removing every path of `srcs`, first to last.
pub open spec fn remove_paths(
    m: Map<Seq<char>, Seq<char>>,
    srcs: Seq<Seq<char>>,
) -> Map<Seq<char>, Seq<char>>
    decreases srcs.len(),
{
    if srcs.len() == 0 {
        m
    } else {
        remove_paths(m.remove(srcs[0]), srcs.subrange(1, srcs.len() as int))
    }
}

/// Removing one more path removes it from the accumulated result.
proof fn lemma_remove_paths_push(m: Map<Seq<char>, Seq<char>>, s: Seq<Seq<char>>, x: Seq<char>)
    ensures
        remove_paths(m, s.push(x)) == remove_paths(m, s).remove(x),
    decreases s.len(),
{
    let t = s.push(x);
    if s.len() == 0 {
        assert(t[0] == x);
        assert(t.subrange(1, t.len() as int) =~= Seq::<Seq<char>>::empty());
        assert(remove_paths(m.remove(x), t.subrange(1, t.len() as int)) == m.remove(x));
    } else {
        assert(t[0] == s[0]);
        assert(t.subrange(1, t.len() as int) =~= s.subrange(1, s.len() as int).push(x));
        lemma_remove_paths_push(m.remove(s[0]), s.subrange(1, s.len() as int), x);
    }
}

/// A removed walk keeps exactly the bindings of the start whose paths
/// were not walked, with their content untouched.
pub proof fn lemma_remove_paths_at(
    m: Map<Seq<char>, Seq<char>>,
    srcs: Seq<Seq<char>>,
    p: Seq<char>,
)
    ensures
        remove_paths(m, srcs).contains_key(p) <==> (m.contains_key(p) && !srcs.contains(p)),
        remove_paths(m, srcs).contains_key(p) ==> remove_paths(m, srcs)[p] == m[p],
    decreases srcs.len(),
{
    if srcs.len() > 0 {
        let rest = srcs.subrange(1, srcs.len() as int);
        lemma_remove_paths_at(m.remove(srcs[0]), rest, p);
        assert(srcs.contains(srcs[0]));
        if p == srcs[0] {
            assert(!m.remove(srcs[0]).contains_key(p));
        } else {
            assert(m.remove(srcs[0]).contains_key(p) == m.contains_key(p));
            assert(srcs.contains(p) <==> rest.contains(p)) by {
                if srcs.contains(p) {
                    let i = choose|i: int| 0 <= i < srcs.len() && srcs[i] == p;
                    assert(i > 0);
                    assert(rest[i - 1] == p);
                }
                if rest.contains(p) {
                    let i = choose|i: int| 0 <= i < rest.len() && rest[i] == p;
                    assert(srcs[i + 1] == p);
                }
            }
        }
    }
}

/// Delete with Permanent: after the walk no file remains at any
/// disposed path, and no path gains a file — in particular nothing new
/// appears under the trash root.
pub proof fn lemma_permanent_removes(m: Map<Seq<char>, Seq<char>>, srcs: Seq<Seq<char>>)
    ensures
        forall|i: int|
            0 <= i < srcs.len() ==> !remove_paths(m, srcs).contains_key(#[trigger] srcs[i]),
        forall|p: Seq<char>|
            #[trigger] remove_paths(m, srcs).contains_key(p) ==> m.contains_key(p),
{
    assert forall|i: int| 0 <= i < srcs.len() implies !remove_paths(m, srcs).contains_key(
        #[trigger] srcs[i],
    ) by {
        lemma_remove_paths_at(m, srcs, srcs[i]);
        assert(srcs.contains(srcs[i]));
    }
    assert forall|p: Seq<char>| #[trigger] remove_paths(m, srcs).contains_key(
        p,
    ) implies m.contains_key(p) by {
        lemma_remove_paths_at(m, srcs, p);
    }
}

/// The purge arm of the deletion policy: no archive, no recovery.
pub struct PermanentDelete;

impl PermanentDelete {
    /// Removes the note's rendered file and every attachment blob
    /// outright. A path with no file behind it is not an error —
    /// disposal is idempotent — so the call always succeeds, and no
    /// other file is touched.
    pub fn delete(note: &NoteWithAttachments, content: &mut ContentStore) -> (r: Result<
        (),
        StoreError,
    >)
        requires
            old(content).wf(),
        ensures
            final(content).wf(),
            r is Ok,
            final(content)@ == remove_paths(old(content)@, all_paths(note@)),
    {
        let ghost m0 = content@;
        let ghost paths = all_paths(note@);
        proof {
            assert(paths[0] == note@.note.file_path);
            assert(paths.take(0) =~= Seq::<Seq<char>>::empty());
            assert(paths.take(1) =~= paths.take(0).push(paths[0]));
            lemma_remove_paths_push(m0, paths.take(0), paths[0]);
        }
        let _ = content.remove(note.note.file_path.as_str());
        let mut i: usize = 0;
        while i < note.attachments.len()
            invariant
                content.wf(),
                i <= note.attachments@.len(),
                m0 == old(content)@,
                paths == all_paths(note@),
                paths.len() == note.attachments@.len() + 1,
                content@ == remove_paths(m0, paths.take(i + 1)),
            decreases note.attachments@.len() - i,
        {
            proof {
                assert(paths[i + 1] == note.attachments@[i as int]@.file_path);
                assert(paths.take(i + 2) =~= paths.take(i + 1).push(paths[i + 1]));
                lemma_remove_paths_push(m0, paths.take(i + 1), paths[i + 1]);
            }
            let _ = content.remove(note.attachments[i].file_path.as_str());
            i += 1;
        }
        proof {
            assert(paths.take(paths.len() as int) =~= paths);
        }
        Ok(())
    }
}

} // verus!
