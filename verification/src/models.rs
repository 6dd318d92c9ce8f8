use vstd::prelude::*;
use vstd::string::*;

verus! {

/// The index of the first newline of `s` at or after `from`, or the
/// length of `s` when no newline follows.
pub open spec fn find_nl(s: Seq<char>, from: int) -> int
    decreases s.len() - from,
{
    if from < 0 || from >= s.len() {
        s.len() as int
    } else if s[from] == '\n' {
        from
    } else {
        find_nl(s, from + 1)
    }
}

/// A title line with every leading `# ` marker removed, as
/// `trim_start_matches` strips a repeated pattern.
pub open spec fn strip_hashes(t: Seq<char>) -> Seq<char>
    decreases t.len(),
{
    if t.len() >= 2 && t[0] == '#' && t[1] == ' ' {
        strip_hashes(t.subrange(2, t.len() as int))
    } else {
        t
    }
}

/// The title a markdown document carries: its first line, stripped of
/// leading `# ` markers.
pub open spec fn title_of(c: Seq<char>) -> Seq<char> {
    strip_hashes(c.subrange(0, find_nl(c, 0)))
}

/// Where the body of a markdown document begins: right after the
/// second newline — the title line and the blank separator line — or
/// at the end when there is no second newline.
pub open spec fn body_start(c: Seq<char>) -> int {
    if find_nl(c, 0) == c.len() {
        c.len() as int
    } else if find_nl(c, find_nl(c, 0) + 1) == c.len() {
        c.len() as int
    } else {
        find_nl(c, find_nl(c, 0) + 1) + 1
    }
}

/// The body a markdown document carries: everything after the blank
/// separator line.
pub open spec fn body_of(c: Seq<char>) -> Seq<char> {
    c.subrange(body_start(c), c.len() as int)
}

/// Markdown round trip: rendering a note and parsing the result
/// recovers the title and the body exactly, for every title that has
/// no newline and does not itself begin with a `# ` marker (one that
/// did would lose the marker to stripping), and for every body.
pub proof fn lemma_markdown_round_trip(t: Seq<char>, b: Seq<char>)
    requires
        forall|i: int| 0 <= i < t.len() ==> t[i] != '\n',
        !(t.len() >= 2 && t[0] == '#' && t[1] == ' '),
    ensures
        title_of("# "@ + t + "\n\n"@ + b) == t,
        body_of("# "@ + t + "\n\n"@ + b) == b,
{
    reveal_strlit("# ");
    reveal_strlit("\n\n");
    let c = "# "@ + t + "\n\n"@ + b;
    let k = 2 + t.len() as int;
    assert(c.len() == t.len() + b.len() + 4);
    assert(c[k] == '\n');
    assert forall|j: int| 0 <= j < k implies c[j] != '\n' by {
        if j >= 2 {
            assert(c[j] == t[j - 2]);
        }
    }
    lemma_find_nl_skip(c, 0, k);
    assert(find_nl(c, 0) == k);
    let u = c.subrange(0, k);
    assert(u =~= "# "@ + t);
    assert(u.len() >= 2 && u[0] == '#' && u[1] == ' ');
    assert(u.subrange(2, u.len() as int) =~= t);
    assert(strip_hashes(t) == t);
    assert(title_of(c) == t);
    assert(c[k + 1] == '\n');
    assert(find_nl(c, k + 1) == k + 1);
    assert(body_start(c) == k + 2);
    assert(c.subrange(k + 2, c.len() as int) =~= b);
}

/// A note of the markdown storage flow: identity, title, and markdown
/// body.
#[derive(Debug)]
pub struct Note {
    /// Unique identifier.
    pub id: String,
    /// Note title.
    pub title: String,
    /// Note content, markdown.
    pub body: String,
}

impl Clone for Note {
    fn clone(&self) -> (r: Note)
        ensures
            r.id@ == self.id@,
            r.title@ == self.title@,
            r.body@ == self.body@,
    {
        Note { id: self.id.clone(), title: self.title.clone(), body: self.body.clone() }
    }
}

/// A stretch with no newline leaves the first-newline search where it
/// would start past the stretch.
proof fn lemma_find_nl_skip(s: Seq<char>, from: int, i: int)
    requires
        0 <= from <= i <= s.len(),
        forall|j: int| from <= j < i ==> s[j] != '\n',
    ensures
        find_nl(s, from) == find_nl(s, i),
    decreases i - from,
{
    if from < i {
        lemma_find_nl_skip(s, from + 1, i);
    }
}

/// The first newline at or after `from`, with the search's defining
/// facts laid out for the callers.
fn find_newline(s: &str, from: usize, n: usize) -> (r: usize)
    requires
        n == s@.len(),
        from <= n,
    ensures
        r == find_nl(s@, from as int),
        from <= r <= n,
        r < n ==> s@[r as int] == '\n',
{
    let mut i = from;
    while i < n
        invariant
            from <= i <= n,
            n == s@.len(),
            forall|j: int| from <= j < i ==> s@[j] != '\n',
        decreases n - i,
    {
        if s.get_char(i) == '\n' {
            proof {
                lemma_find_nl_skip(s@, from as int, i as int);
            }
            return i;
        }
        i += 1;
    }
    proof {
        lemma_find_nl_skip(s@, from as int, n as int);
    }
    n
}

/// Stripping is unmoved by removing one `# ` marker it would strip.
proof fn lemma_strip_step(t: Seq<char>, k: int)
    requires
        0 <= k,
        k + 2 <= t.len(),
        t[k] == '#',
        t[k + 1] == ' ',
    ensures
        strip_hashes(t.subrange(k, t.len() as int)) == strip_hashes(
            t.subrange(k + 2, t.len() as int),
        ),
{
    let u = t.subrange(k, t.len() as int);
    assert(u[0] == '#' && u[1] == ' ');
    assert(u.subrange(2, u.len() as int) =~= t.subrange(k + 2, t.len() as int));
}

impl Note {
    /// Renders the note in its markdown form: a `# ` heading with the
    /// title, a blank line, then the body.
    pub fn to_markdown(&self) -> (r: String)
        ensures
            r@ == "# "@ + self.title@ + "\n\n"@ + self.body@,
    {
        let mut s = String::from_str("# ");
        s.append(self.title.as_str());
        s.append("\n\n");
        s.append(self.body.as_str());
        s
    }

    /// Parses markdown content back into a note: the title is the
    /// first line without its leading `# ` markers, and the body is
    /// everything after the blank separator line.
    pub fn from_markdown(id: String, content: &str) -> (r: Note)
        ensures
            r.id@ == id@,
            r.title@ == title_of(content@),
            r.body@ == body_of(content@),
    {
        let n = content.unicode_len();
        let first = find_newline(content, 0, n);
        let line = content.substring_char(0, first);
        let m = line.unicode_len();
        let mut start: usize = 0;
        proof {
            assert(line@.subrange(0, m as int) =~= line@);
        }
        while m - start >= 2 && line.get_char(start) == '#' && line.get_char(start + 1) == ' '
            invariant
                start <= m,
                m == line@.len(),
                strip_hashes(line@) == strip_hashes(line@.subrange(start as int, m as int)),
            decreases m - start,
        {
            proof {
                lemma_strip_step(line@, start as int);
            }
            start += 2;
        }
        let title = String::from_str(line.substring_char(start, m));
        proof {
            let u = line@.subrange(start as int, m as int);
            assert(!(u.len() >= 2 && u[0] == '#' && u[1] == ' '));
            assert(strip_hashes(u) == u);
            assert(title@ == title_of(content@));
        }
        let body = if first == n {
            String::new()
        } else {
            let second = find_newline(content, first + 1, n);
            if second == n {
                String::new()
            } else {
                String::from_str(content.substring_char(second + 1, n))
            }
        };
        proof {
            assert(body@ =~= body_of(content@));
        }
        Note { id, title, body }
    }
}

} // verus!
