//! Mirroring the statusline of projects to a fast place.

use crate::state_manager::{mirror_path, StateManager};
use crate::text::{cat, cat3, eq_text, join_path, joined_path, lines, lines_of, texts, trim, trim_text};
use vstd::prelude::*;
use vstd::string::*;

verus! {

/// Where a project's statusline is mirrored to.
pub fn shm_cache_path(canonical_dir: &str, mirror_prefix: &str) -> (r: String)
    ensures
        r@ == mirror_path(mirror_prefix@, canonical_dir@),
{
    cat(mirror_prefix, &StateManager::project_hash(canonical_dir))
}

/// What the paths of all mirrors begin with: a directory in shared memory, where
/// there is any, and a name.
pub fn mirror_prefix(dev_shm_is_dir: bool, name: &str) -> (r: String)
    ensures
        r@ == (if dev_shm_is_dir {
            "/dev/shm"@
        } else {
            "/tmp"@
        }) + "/"@ + name@,
{
    if dev_shm_is_dir {
        cat3("/dev/shm", "/", name)
    } else {
        cat3("/tmp", "/", name)
    }
}

/// Where a project's statusline is.
pub fn source_cache_path(project_dir: &str) -> (r: String)
    ensures
        r@ == joined_path(joined_path(project_dir@, ".dut-serial"@), "statusline-cache"@),
{
    join_path(&join_path(project_dir, ".dut-serial"), "statusline-cache")
}

/// Whether the content of a statusline is mirrored: there is some.
pub fn worth_mirroring(content: &[u8]) -> (r: bool)
    ensures
        r == (content@.len() > 0),
{
    content.len() > 0
}

/// Where projects come from.
pub enum ProjectSource {
    /// This directory.
    Dir(String),
    /// The directories that this file lists.
    Registry(String),
}

/// The model of a `ProjectSource`.
pub enum SourceView {
    Dir(Seq<char>),
    Registry(Seq<char>),
}

impl View for ProjectSource {
    type V = SourceView;

    open spec fn view(&self) -> SourceView {
        match *self {
            ProjectSource::Dir(s) => SourceView::Dir(s@),
            ProjectSource::Registry(s) => SourceView::Registry(s@),
        }
    }
}

/// The models of the sources.
pub open spec fn sources_of(v: Seq<ProjectSource>) -> Seq<SourceView> {
    Seq::new(v.len(), |i: int| v[i]@)
}

/// What the arguments from `i` on name; nothing where one is not known. An option
/// at the end, without its value, names nothing.
pub open spec fn watch_args(args: Seq<Seq<char>>, i: int) -> Option<Seq<SourceView>>
    decreases args.len() - i,
{
    if i < 0 || i >= args.len() {
        Some(Seq::empty())
    } else if args[i] != "--project-dir"@ && args[i] != "--registry"@ {
        None
    } else if i + 1 >= args.len() {
        Some(Seq::empty())
    } else {
        let first = if args[i] == "--project-dir"@ {
            SourceView::Dir(args[i + 1])
        } else {
            SourceView::Registry(args[i + 1])
        };
        match watch_args(args, i + 2) {
            Some(rest) => Some(seq![first] + rest),
            None => None,
        }
    }
}

/// Reads the command line, without the program's name; nothing where an argument
/// is not known.
pub fn parse_watch_args(args: &Vec<String>) -> (r: Option<Vec<ProjectSource>>)
    ensures
        match watch_args(texts(args@), 0) {
            Some(s) => r matches Some(v) && sources_of(v@) == s,
            None => r is None,
        },
{
    let ghost all = texts(args@);
    let mut r: Vec<ProjectSource> = Vec::new();
    let mut i: usize = 0;
    let ghost mut rest = watch_args(all, 0);
    assert(rest matches Some(s) ==> sources_of(r@) + s =~= s);
    while i < args.len()
        invariant
            i <= args@.len(),
            all == texts(args@),
            rest == watch_args(all, i as int),
            match watch_args(all, 0) {
                Some(s) => rest matches Some(t) && s == sources_of(r@) + t,
                None => rest is None,
            },
        decreases args@.len() - i,
    {
        assert(all[i as int] == args@[i as int]@);
        let dir: bool = eq_text(&args[i], "--project-dir");
        if !dir && !eq_text(&args[i], "--registry") {
            return None;
        }
        if i + 1 >= args.len() {
            assert(sources_of(r@) + Seq::<SourceView>::empty() =~= sources_of(r@));
            return Some(r);
        }
        assert(all[i + 1] == args@[i + 1]@);
        let ghost before = r@;
        let value = args[i + 1].clone();
        let first = if dir {
            ProjectSource::Dir(value)
        } else {
            ProjectSource::Registry(value)
        };
        let ghost view = first@;
        r.push(first);
        proof {
            assert(sources_of(r@) =~= sources_of(before).push(view));
            let next = watch_args(all, i + 2);
            if let Some(t) = next {
                assert(sources_of(r@) + t =~= sources_of(before) + (seq![view] + t));
            }
            rest = next;
        }
        i = i + 2;
    }
    assert(sources_of(r@) + Seq::<SourceView>::empty() =~= sources_of(r@));
    Some(r)
}

/// The lines that are not blank, without spaces around them.
pub open spec fn listed(ls: Seq<Seq<char>>) -> Seq<Seq<char>>
    decreases ls.len(),
{
    if ls.len() == 0 {
        Seq::empty()
    } else {
        let rest = listed(ls.drop_last());
        if trim(ls.last()).len() == 0 {
            rest
        } else {
            rest.push(trim(ls.last()))
        }
    }
}

/// The directories that a registry lists, one on each line.
pub fn registry_projects(content: &str) -> (r: Vec<String>)
    ensures
        texts(r@) == listed(lines(content@)),
{
    let all = lines_of(content);
    let ghost ls = lines(content@);
    let mut r: Vec<String> = Vec::new();
    let mut i: usize = 0;
    assert(texts(r@) =~= listed(ls.subrange(0, 0)));
    while i < all.len()
        invariant
            i <= all@.len(),
            ls == texts(all@),
            texts(r@) == listed(ls.subrange(0, i as int)),
        decreases all@.len() - i,
    {
        let ghost t = ls.subrange(0, i + 1);
        assert(t.drop_last() =~= ls.subrange(0, i as int));
        assert(t.last() == all@[i as int]@);
        let line = trim_text(&all[i]);
        if !line.as_str().is_empty() {
            let ghost before = r@;
            let ghost view = line@;
            r.push(line);
            assert(texts(r@) =~= texts(before).push(view));
        }
        i = i + 1;
    }
    assert(ls.subrange(0, ls.len() as int) =~= ls);
    r
}

// ── Laws ────────────────────────────────────────────────────────────────────

/// Law: each option names a directory or a list of them, in order; an option that lacks
/// its value is left out, and one that is not known refuses them all.
pub proof fn law_watch_arguments(a: Seq<char>, value: Seq<char>, rest: Seq<Seq<char>>)
    ensures
        watch_args(Seq::empty(), 0) == Some(Seq::<SourceView>::empty()),
        watch_args(seq!["--project-dir"@, value] + rest, 0) == (match watch_args(rest, 0) {
            Some(more) => Some(seq![SourceView::Dir(value)] + more),
            None => None,
        }),
        watch_args(seq!["--registry"@, value] + rest, 0) == (match watch_args(rest, 0) {
            Some(more) => Some(seq![SourceView::Registry(value)] + more),
            None => None,
        }),
        a == "--project-dir"@ || a == "--registry"@ ==> watch_args(seq![a], 0) == Some(
            Seq::<SourceView>::empty(),
        ),
        a != "--project-dir"@ && a != "--registry"@ ==> watch_args(seq![a] + rest, 0) is None,
{
    reveal_strlit("--project-dir");
    reveal_strlit("--registry");
    assert("--project-dir"@.len() != "--registry"@.len());
    let p = seq!["--project-dir"@, value];
    let r = seq!["--registry"@, value];
    assert((p + rest)[0] == p[0] && (p + rest)[1] == value);
    assert((r + rest)[0] == r[0] && (r + rest)[1] == value);
    lemma_watch_shift(p, rest, 0);
    lemma_watch_shift(r, rest, 0);
    assert((seq![a] + rest)[0] == a);
    assert(seq![a][0] == a);
}

proof fn lemma_watch_shift(a: Seq<Seq<char>>, b: Seq<Seq<char>>, i: int)
    requires
        0 <= i,
    ensures
        watch_args(a + b, a.len() + i) == watch_args(b, i),
    decreases b.len() - i,
{
    if i < b.len() {
        assert((a + b)[a.len() + i] == b[i]);
        if i + 1 < b.len() {
            assert((a + b)[a.len() + i + 1] == b[i + 1]);
            lemma_watch_shift(a, b, i + 2);
        }
    }
}

/// Law: a list holds its lines that are not blank, without the white space around them.
pub proof fn law_lists(
    ls: Seq<Seq<char>>,
    before: Seq<char>,
    s: Seq<char>,
    after: Seq<char>,
)
    requires
        crate::text::all_space(before),
        crate::text::all_space(after),
        crate::text::is_trimmed(s),
    ensures
        listed(Seq::empty()).len() == 0,
        s.len() > 0 ==> listed(ls.push(before + s + after)) == listed(ls).push(s),
        s.len() == 0 ==> listed(ls.push(before + s + after)) == listed(ls),
{
    crate::text::law_trim(before, s, after);
    assert(ls.push(before + s + after).drop_last() =~= ls);
}

/// Law: the shared files lie in memory where that can be had, else in `/tmp`.
pub proof fn law_mirror_places(shm: bool, name: &str, r: String)
    requires
        call_ensures(mirror_prefix, (shm, name), r),
    ensures
        shm ==> r@ == "/dev/shm"@ + "/"@ + name@,
        !shm ==> r@ == "/tmp"@ + "/"@ + name@,
{
}

} // verus!
