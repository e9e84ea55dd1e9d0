use vstd::prelude::*;

use crate::paths::{paths_equal, same_path, spec_path_components};
use crate::sources_config::{dir_views, SourcesConfig};

verus! {

/// The kind of a debounced file system event: a change, or a change that
/// is still going on.
#[derive(Clone, Copy, Debug, PartialEq, Eq, Structural)]
pub enum EventKind {
    Any,
    AnyContinuous,
}

/// A debounced file system event.
#[derive(Debug)]
pub struct FileEvent {
    pub kind: EventKind,
    pub path: String,
}

/// Whether some event is a settled change of the file at `file_path`.
pub open spec fn spec_concerns_file(events: Seq<FileEvent>, file_path: Seq<char>) -> bool {
    exists|i: int|
        0 <= i < events.len() && (#[trigger] events[i]).kind == EventKind::Any && paths_equal(
            events[i].path@,
            file_path,
        )
}

/// A batch of events concerns a file exactly when some event in it, at any
/// place, is a settled change of a path that is the same path as the
/// file's; a batch made of two parts concerns the file exactly when one of
/// the parts does.
pub proof fn lemma_concerns_file_anywhere(a: Seq<FileEvent>, b: Seq<FileEvent>, file_path: Seq<char>, i: int)
    ensures
        0 <= i < a.len() && a[i].kind == EventKind::Any && spec_path_components(a[i].path@) == spec_path_components(
            file_path,
        ) ==> spec_concerns_file(a, file_path),
        (forall|j: int|
            0 <= j < a.len() ==> (#[trigger] a[j]).kind != EventKind::Any || spec_path_components(a[j].path@)
                != spec_path_components(file_path)) ==> !spec_concerns_file(a, file_path),
        spec_concerns_file(a + b, file_path) == (spec_concerns_file(a, file_path) || spec_concerns_file(
            b,
            file_path,
        )),
{
    if spec_concerns_file(a + b, file_path) {
        let j = choose|j: int|
            0 <= j < (a + b).len() && (#[trigger] (a + b)[j]).kind == EventKind::Any && paths_equal(
                (a + b)[j].path@,
                file_path,
            );
        if j < a.len() {
            assert(a[j] == (a + b)[j]);
        } else {
            assert(b[j - a.len()] == (a + b)[j]);
        }
    }
    if spec_concerns_file(a, file_path) {
        let j = choose|j: int|
            0 <= j < a.len() && (#[trigger] a[j]).kind == EventKind::Any && paths_equal(a[j].path@, file_path);
        assert((a + b)[j] == a[j]);
    }
    if spec_concerns_file(b, file_path) {
        let j = choose|j: int|
            0 <= j < b.len() && (#[trigger] b[j]).kind == EventKind::Any && paths_equal(b[j].path@, file_path);
        assert((a + b)[a.len() + j] == b[j]);
    }
    if 0 <= i < a.len() && a[i].kind == EventKind::Any && spec_path_components(a[i].path@)
        == spec_path_components(file_path) {
        assert(a[i].kind == EventKind::Any);
    }
}

/// Whether some event is a settled change of the file at `file_path`.
pub fn concerns_file(events: &Vec<FileEvent>, file_path: &str) -> (res: bool)
    ensures
        res == spec_concerns_file(events@, file_path@),
{
    let mut i: usize = 0;
    while i < events.len()
        invariant
            i <= events.len(),
            forall|j: int|
                0 <= j < i ==> !((#[trigger] events@[j]).kind == EventKind::Any && paths_equal(
                    events@[j].path@,
                    file_path@,
                )),
        decreases events.len() - i,
    {
        if events[i].kind == EventKind::Any && same_path(events[i].path.as_str(), file_path) {
            return true;
        }
        i += 1;
    }
    false
}

/// Whether some event is a settled change.
pub open spec fn spec_any_change(events: Seq<FileEvent>) -> bool {
    exists|i: int| 0 <= i < events.len() && (#[trigger] events[i]).kind == EventKind::Any
}

/// A batch of events counts as a change exactly when some event in it, at
/// any place, is a settled change: a batch holding such an event counts,
/// one holding none does not, and a batch made of two parts counts exactly
/// when one of the parts does.
pub proof fn lemma_any_change_anywhere(a: Seq<FileEvent>, b: Seq<FileEvent>, i: int)
    ensures
        0 <= i < a.len() && a[i].kind == EventKind::Any ==> spec_any_change(a),
        (forall|j: int| 0 <= j < a.len() ==> (#[trigger] a[j]).kind != EventKind::Any) ==> !spec_any_change(a),
        spec_any_change(a + b) == (spec_any_change(a) || spec_any_change(b)),
{
    if spec_any_change(a + b) {
        let j = choose|j: int| 0 <= j < (a + b).len() && (#[trigger] (a + b)[j]).kind == EventKind::Any;
        if j < a.len() {
            assert(a[j] == (a + b)[j]);
        } else {
            assert(b[j - a.len()] == (a + b)[j]);
        }
    }
    if spec_any_change(a) {
        let j = choose|j: int| 0 <= j < a.len() && (#[trigger] a[j]).kind == EventKind::Any;
        assert((a + b)[j] == a[j]);
    }
    if spec_any_change(b) {
        let j = choose|j: int| 0 <= j < b.len() && (#[trigger] b[j]).kind == EventKind::Any;
        assert((a + b)[a.len() + j] == b[j]);
    }
    if 0 <= i < a.len() && a[i].kind == EventKind::Any {
        assert(a[i].kind == EventKind::Any);
    }
}

/// Whether some event is a settled change.
pub fn any_change(events: &Vec<FileEvent>) -> (res: bool)
    ensures
        res == spec_any_change(events@),
{
    let mut i: usize = 0;
    while i < events.len()
        invariant
            i <= events.len(),
            forall|j: int| 0 <= j < i ==> (#[trigger] events@[j]).kind != EventKind::Any,
        decreases events.len() - i,
    {
        if events[i].kind == EventKind::Any {
            return true;
        }
        i += 1;
    }
    false
}

/// The component sequences of a sequence of paths: what tells paths apart
/// as `std::path::Path` compares them.
pub open spec fn path_keys(paths: Seq<Seq<char>>) -> Seq<Seq<Seq<char>>> {
    paths.map_values(|p: Seq<char>| spec_path_components(p))
}

/// The watched directories to stop watching, in order: those that are not
/// the same path as any of the new ones.
pub open spec fn paths_to_unwatch(watched: Seq<Seq<char>>, new_paths: Seq<Seq<char>>) -> Seq<Seq<char>>
    decreases watched.len(),
{
    if watched.len() == 0 {
        seq![]
    } else {
        let last = watched[watched.len() - 1];
        let prev = paths_to_unwatch(watched.subrange(0, watched.len() - 1), new_paths);
        if path_keys(new_paths).contains(spec_path_components(last)) {
            prev
        } else {
            prev.push(last)
        }
    }
}

/// The new directories to start watching, in order: those that are not the
/// same path as a watched one, and of several texts of one path the first.
pub open spec fn paths_to_watch(watched: Set<Seq<Seq<char>>>, new_paths: Seq<Seq<char>>) -> Seq<Seq<char>>
    decreases new_paths.len(),
{
    if new_paths.len() == 0 {
        seq![]
    } else {
        let last = new_paths[new_paths.len() - 1];
        let prev = paths_to_watch(watched, new_paths.subrange(0, new_paths.len() - 1));
        if watched.contains(spec_path_components(last)) || path_keys(prev).contains(spec_path_components(last)) {
            prev
        } else {
            prev.push(last)
        }
    }
}

/// The paths of `paths`, in order, but those that are the same path as
/// `path`.
pub open spec fn paths_without(paths: Seq<Seq<char>>, path: Seq<char>) -> Seq<Seq<char>>
    decreases paths.len(),
{
    if paths.len() == 0 {
        seq![]
    } else {
        let last = paths[paths.len() - 1];
        let prev = paths_without(paths.subrange(0, paths.len() - 1), path);
        if paths_equal(last, path) {
            prev
        } else {
            prev.push(last)
        }
    }
}

proof fn lemma_seq_push_contains<A>(s: Seq<A>, x: A)
    ensures
        forall|p: A| #[trigger] s.push(x).contains(p) <==> (s.contains(p) || p == x),
{
    assert forall|p: A| #[trigger] s.push(x).contains(p) <==> (s.contains(p) || p == x) by {
        if s.push(x).contains(p) {
            let j = choose|j: int| 0 <= j < s.len() + 1 && s.push(x)[j] == p;
            if j < s.len() {
                assert(s[j] == p);
            }
        }
        if s.contains(p) {
            let j = choose|j: int| 0 <= j < s.len() && s[j] == p;
            assert(s.push(x)[j] == p);
        }
        if p == x {
            assert(s.push(x)[s.len() as int] == p);
        }
    }
}

proof fn lemma_push_no_duplicates<A>(s: Seq<A>, x: A)
    requires
        s.no_duplicates(),
        !s.contains(x),
    ensures
        s.push(x).no_duplicates(),
{
    assert forall|i: int, j: int| 0 <= i < s.len() + 1 && 0 <= j < s.len() + 1 && i != j implies s.push(x)[i]
        != s.push(x)[j] by {
        if i == s.len() {
            assert(s.contains(s[j]));
        } else if j == s.len() {
            assert(s.contains(s[i]));
        }
    }
}

proof fn lemma_keys_push(s: Seq<Seq<char>>, x: Seq<char>)
    ensures
        path_keys(s.push(x)) == path_keys(s).push(spec_path_components(x)),
        forall|k: Seq<Seq<char>>| #[trigger] path_keys(s.push(x)).contains(k) <==> (path_keys(s).contains(k) || k
            == spec_path_components(x)),
        forall|p: Seq<char>| #[trigger] s.push(x).contains(p) <==> (s.contains(p) || p == x),
{
    assert(path_keys(s.push(x)) =~= path_keys(s).push(spec_path_components(x)));
    lemma_seq_push_contains(path_keys(s), spec_path_components(x));
    lemma_seq_push_contains(s, x);
}

proof fn lemma_keys_prefix(s: Seq<Seq<char>>, i: int)
    requires
        0 <= i < s.len(),
    ensures
        s.take(i + 1).subrange(0, i) == s.take(i),
        s.take(i + 1)[i] == s[i],
        s.take(i + 1) == s.take(i).push(s[i]),
        path_keys(s).take(i + 1) == path_keys(s.take(i + 1)),
{
    assert(s.take(i + 1).subrange(0, i) =~= s.take(i));
    assert(s.take(i + 1) =~= s.take(i).push(s[i]));
    assert(path_keys(s).take(i + 1) =~= path_keys(s.take(i + 1)));
}

/// What is stopped: exactly the watched directories that are not the same
/// path as a new one, each path once.
proof fn lemma_unwatch_members(watched: Seq<Seq<char>>, new_paths: Seq<Seq<char>>)
    ensures
        forall|p: Seq<char>| #[trigger] paths_to_unwatch(watched, new_paths).contains(p) <==> (watched.contains(p)
            && !path_keys(new_paths).contains(spec_path_components(p))),
        forall|k: Seq<Seq<char>>| #[trigger] path_keys(paths_to_unwatch(watched, new_paths)).contains(k) <==> (path_keys(
            watched,
        ).contains(k) && !path_keys(new_paths).contains(k)),
        path_keys(watched).no_duplicates() ==> path_keys(paths_to_unwatch(watched, new_paths)).no_duplicates(),
    decreases watched.len(),
{
    if watched.len() > 0 {
        let n = watched.len() - 1;
        let init = watched.subrange(0, n);
        let last = watched[n];
        assert(watched =~= init.push(last));
        lemma_unwatch_members(init, new_paths);
        lemma_keys_push(init, last);
        let prev = paths_to_unwatch(init, new_paths);
        if !path_keys(new_paths).contains(spec_path_components(last)) {
            lemma_keys_push(prev, last);
            if path_keys(watched).no_duplicates() {
                assert(path_keys(watched)[n] == spec_path_components(last));
                assert(!path_keys(init).contains(spec_path_components(last))) by {
                    if path_keys(init).contains(spec_path_components(last)) {
                        let j = choose|j: int| 0 <= j < init.len() && path_keys(init)[j] == spec_path_components(last);
                        assert(path_keys(watched)[j] == path_keys(watched)[n]);
                    }
                }
                assert(path_keys(init) =~= path_keys(watched).subrange(0, n));
                assert(path_keys(init).no_duplicates());
                lemma_push_no_duplicates(path_keys(prev), spec_path_components(last));
            }
        } else {
            if path_keys(watched).no_duplicates() {
                assert(path_keys(init) =~= path_keys(watched).subrange(0, n));
            }
        }
    }
}

/// What is started: exactly the new directories that are not the same path
/// as a watched one, each path once, by one of its texts.
proof fn lemma_watch_members(watched: Set<Seq<Seq<char>>>, new_paths: Seq<Seq<char>>)
    ensures
        forall|p: Seq<char>| #[trigger] paths_to_watch(watched, new_paths).contains(p) ==> new_paths.contains(p),
        forall|k: Seq<Seq<char>>| #[trigger] path_keys(paths_to_watch(watched, new_paths)).contains(k) <==> (path_keys(
            new_paths,
        ).contains(k) && !watched.contains(k)),
        path_keys(paths_to_watch(watched, new_paths)).no_duplicates(),
    decreases new_paths.len(),
{
    if new_paths.len() > 0 {
        let n = new_paths.len() - 1;
        let init = new_paths.subrange(0, n);
        let last = new_paths[n];
        assert(new_paths =~= init.push(last));
        lemma_watch_members(watched, init);
        lemma_keys_push(init, last);
        let prev = paths_to_watch(watched, init);
        if !(watched.contains(spec_path_components(last)) || path_keys(prev).contains(spec_path_components(last))) {
            lemma_keys_push(prev, last);
            lemma_push_no_duplicates(path_keys(prev), spec_path_components(last));
        }
    }
}

/// What stays when a path is taken out: every other path, each once.
proof fn lemma_without_members(paths: Seq<Seq<char>>, path: Seq<char>)
    ensures
        forall|k: Seq<Seq<char>>| #[trigger] path_keys(paths_without(paths, path)).contains(k) <==> (path_keys(
            paths,
        ).contains(k) && k != spec_path_components(path)),
        path_keys(paths).no_duplicates() ==> path_keys(paths_without(paths, path)).no_duplicates(),
    decreases paths.len(),
{
    if paths.len() > 0 {
        let n = paths.len() - 1;
        let init = paths.subrange(0, n);
        let last = paths[n];
        assert(paths =~= init.push(last));
        lemma_without_members(init, path);
        lemma_keys_push(init, last);
        let prev = paths_without(init, path);
        if path_keys(paths).no_duplicates() {
            assert(path_keys(init) =~= path_keys(paths).subrange(0, n));
        }
        if !paths_equal(last, path) {
            lemma_keys_push(prev, last);
            if path_keys(paths).no_duplicates() {
                assert(path_keys(paths)[n] == spec_path_components(last));
                assert(!path_keys(init).contains(spec_path_components(last))) by {
                    if path_keys(init).contains(spec_path_components(last)) {
                        let j = choose|j: int| 0 <= j < init.len() && path_keys(init)[j] == spec_path_components(last);
                        assert(path_keys(paths)[j] == path_keys(paths)[n]);
                    }
                }
                lemma_push_no_duplicates(path_keys(prev), spec_path_components(last));
            }
        }
    }
}

/// Whether some path of `v` is the same path as `path`.
fn has_path(v: &Vec<String>, path: &str) -> (res: bool)
    ensures
        res == path_keys(dir_views(v@)).contains(spec_path_components(path@)),
{
    let mut i: usize = 0;
    while i < v.len()
        invariant
            i <= v.len(),
            forall|j: int| 0 <= j < i ==> spec_path_components(#[trigger] v@[j]@) != spec_path_components(path@),
        decreases v.len() - i,
    {
        if same_path(v[i].as_str(), path) {
            proof {
                assert(path_keys(dir_views(v@))[i as int] == spec_path_components(path@));
            }
            return true;
        }
        i += 1;
    }
    proof {
        if path_keys(dir_views(v@)).contains(spec_path_components(path@)) {
            let j = choose|j: int| 0 <= j < v@.len() && path_keys(dir_views(v@))[j] == spec_path_components(path@);
            assert(spec_path_components(v@[j]@) == spec_path_components(path@));
        }
    }
    false
}

/// The directories a multi-directory watcher watches, each path once, as
/// `std::path::Path` tells paths apart.
#[derive(Debug)]
pub struct WatchedPaths {
    paths: Vec<String>,
}

/// The directories to stop watching and to start watching to go from the
/// watched set to a new one.
#[derive(Debug)]
pub struct WatchPlan {
    pub to_delete: Vec<String>,
    pub to_add: Vec<String>,
}

impl WatchedPaths {
    /// The texts of the watched directories, in the order they were added.
    pub closed spec fn held(&self) -> Seq<Seq<char>> {
        dir_views(self.paths@)
    }

    /// The watched directories, each by its components.
    pub open spec fn view_set(&self) -> Set<Seq<Seq<char>>> {
        path_keys(self.held()).to_set()
    }

    /// No two watched directories are the same path.
    #[verifier::type_invariant]
    closed spec fn well_formed(&self) -> bool {
        path_keys(dir_views(self.paths@)).no_duplicates()
    }

    /// A watcher that watches nothing.
    pub fn new() -> (res: WatchedPaths)
        ensures
            res.held() == Seq::<Seq<char>>::empty(),
            res.view_set() == Set::<Seq<Seq<char>>>::empty(),
    {
        let res = WatchedPaths { paths: Vec::new() };
        proof {
            assert(res.held() =~= Seq::<Seq<char>>::empty());
            assert(res.view_set() =~= Set::<Seq<Seq<char>>>::empty());
        }
        res
    }

    /// Whether the directory is watched, under this text or another text of
    /// the same path.
    pub fn contains(&self, path: &str) -> (res: bool)
        ensures
            res == self.view_set().contains(spec_path_components(path@)),
    {
        has_path(&self.paths, path)
    }

    /// The directories to stop watching (the watched ones that are not the
    /// same path as a new one) and to start watching (the new ones that are
    /// not the same path as a watched one, each path once).
    pub fn plan_update(&self, new_paths: &Vec<String>) -> (res: WatchPlan)
        ensures
            dir_views(res.to_delete@) == paths_to_unwatch(self.held(), dir_views(new_paths@)),
            dir_views(res.to_add@) == paths_to_watch(self.view_set(), dir_views(new_paths@)),
            path_keys(dir_views(res.to_delete@)).to_set() == self.view_set().difference(
                path_keys(dir_views(new_paths@)).to_set(),
            ),
            path_keys(dir_views(res.to_add@)).to_set() == path_keys(dir_views(new_paths@)).to_set().difference(
                self.view_set(),
            ),
            path_keys(dir_views(res.to_delete@)).no_duplicates(),
            path_keys(dir_views(res.to_add@)).no_duplicates(),
    {
        proof {
            use_type_invariant(self);
        }
        let ghost held = self.held();
        let ghost news = dir_views(new_paths@);
        let mut to_delete: Vec<String> = Vec::new();
        let mut i: usize = 0;
        while i < self.paths.len()
            invariant
                i <= self.paths.len(),
                held == dir_views(self.paths@),
                news == dir_views(new_paths@),
                dir_views(to_delete@) == paths_to_unwatch(held.take(i as int), news),
            decreases self.paths.len() - i,
        {
            proof {
                lemma_keys_prefix(held, i as int);
            }
            if !has_path(new_paths, self.paths[i].as_str()) {
                let ghost before = to_delete@;
                to_delete.push(self.paths[i].clone());
                proof {
                    assert(dir_views(to_delete@) =~= dir_views(before).push(held[i as int]));
                }
            }
            i += 1;
        }
        let mut to_add: Vec<String> = Vec::new();
        let mut j: usize = 0;
        while j < new_paths.len()
            invariant
                j <= new_paths.len(),
                news == dir_views(new_paths@),
                dir_views(to_add@) == paths_to_watch(self.view_set(), news.take(j as int)),
            decreases new_paths.len() - j,
        {
            proof {
                lemma_keys_prefix(news, j as int);
            }
            let p = new_paths[j].as_str();
            if !self.contains(p) && !has_path(&to_add, p) {
                let ghost before = to_add@;
                to_add.push(new_paths[j].clone());
                proof {
                    assert(dir_views(to_add@) =~= dir_views(before).push(news[j as int]));
                }
            }
            j += 1;
        }
        proof {
            assert(held.take(held.len() as int) =~= held);
            assert(news.take(news.len() as int) =~= news);
            lemma_unwatch_members(held, news);
            lemma_watch_members(self.view_set(), news);
            assert(path_keys(dir_views(to_delete@)).to_set() =~= self.view_set().difference(path_keys(news).to_set()));
            assert(path_keys(dir_views(to_add@)).to_set() =~= path_keys(news).to_set().difference(self.view_set()));
        }
        WatchPlan { to_delete, to_add }
    }

    /// Records that the watcher stopped watching a directory: the watched
    /// path that is the same path as `path`, if any, leaves.
    pub fn remove(&mut self, path: &str)
        ensures
            final(self).held() == paths_without(old(self).held(), path@),
            final(self).view_set() == old(self).view_set().remove(spec_path_components(path@)),
    {
        proof {
            use_type_invariant(&*self);
        }
        let ghost held = self.held();
        let mut kept: Vec<String> = Vec::new();
        let mut i: usize = 0;
        while i < self.paths.len()
            invariant
                i <= self.paths.len(),
                held == dir_views(self.paths@),
                dir_views(kept@) == paths_without(held.take(i as int), path@),
            decreases self.paths.len() - i,
        {
            proof {
                lemma_keys_prefix(held, i as int);
            }
            if !same_path(self.paths[i].as_str(), path) {
                let ghost before = kept@;
                kept.push(self.paths[i].clone());
                proof {
                    assert(dir_views(kept@) =~= dir_views(before).push(held[i as int]));
                }
            }
            i += 1;
        }
        proof {
            assert(held.take(held.len() as int) =~= held);
            lemma_without_members(held, path@);
        }
        self.paths = kept;
        proof {
            assert(self.view_set() =~= old(self).view_set().remove(spec_path_components(path@)));
        }
    }

    /// Records that the watcher started watching a directory. Where the same
    /// path is watched already, under any text, nothing changes.
    pub fn insert(&mut self, path: &str)
        ensures
            old(self).view_set().contains(spec_path_components(path@)) ==> final(self).held() == old(self).held(),
            !old(self).view_set().contains(spec_path_components(path@)) ==> final(self).held() == old(
                self,
            ).held().push(path@),
            final(self).view_set() == old(self).view_set().insert(spec_path_components(path@)),
    {
        proof {
            use_type_invariant(&*self);
        }
        if !has_path(&self.paths, path) {
            let ghost held = self.held();
            let mut paths: Vec<String> = Vec::new();
            let mut i: usize = 0;
            while i < self.paths.len()
                invariant
                    i <= self.paths.len(),
                    held == dir_views(self.paths@),
                    dir_views(paths@) == held.take(i as int),
                decreases self.paths.len() - i,
            {
                let ghost before = paths@;
                paths.push(self.paths[i].clone());
                proof {
                    lemma_keys_prefix(held, i as int);
                    assert(dir_views(paths@) =~= dir_views(before).push(held[i as int]));
                }
                i += 1;
            }
            proof {
                assert(held.take(held.len() as int) =~= held);
            }
            let ghost before = paths@;
            paths.push(String::from_str(path));
            proof {
                assert(dir_views(paths@) =~= held.push(path@));
                lemma_keys_push(held, path@);
                lemma_push_no_duplicates(path_keys(held), spec_path_components(path@));
            }
            self.paths = paths;
        }
        proof {
            assert(self.view_set() =~= old(self).view_set().insert(spec_path_components(path@)));
        }
    }
}

/// Carrying out an update plan in full, stopping every watch it lists and
/// starting every one it lists, leaves exactly the new directories watched.
pub proof fn lemma_plan_reaches_new_paths(
    watched: Set<Seq<Seq<char>>>,
    new_paths: Seq<Seq<char>>,
    to_delete: Seq<Seq<char>>,
    to_add: Seq<Seq<char>>,
)
    requires
        path_keys(to_delete).to_set() == watched.difference(path_keys(new_paths).to_set()),
        path_keys(to_add).to_set() == path_keys(new_paths).to_set().difference(watched),
    ensures
        watched.difference(path_keys(to_delete).to_set()).union(path_keys(to_add).to_set()) == path_keys(
            new_paths,
        ).to_set(),
{
    assert(watched.difference(path_keys(to_delete).to_set()).union(path_keys(to_add).to_set()) =~= path_keys(
        new_paths,
    ).to_set());
}

/// Carrying out an update plan where some calls fail: the directories that
/// could not be unwatched (`failed_unwatch`, among those to stop) stay, and
/// of those to start only the ones that could be watched (`done_watch`) are
/// added. The watched set is then what was watched and stays wanted, the
/// failed unwatches, and the successful watches.
pub proof fn lemma_plan_with_failures(
    watched: Set<Seq<Seq<char>>>,
    new_paths: Seq<Seq<char>>,
    to_delete: Seq<Seq<char>>,
    to_add: Seq<Seq<char>>,
    failed_unwatch: Set<Seq<Seq<char>>>,
    done_watch: Set<Seq<Seq<char>>>,
)
    requires
        path_keys(to_delete).to_set() == watched.difference(path_keys(new_paths).to_set()),
        path_keys(to_add).to_set() == path_keys(new_paths).to_set().difference(watched),
        failed_unwatch.subset_of(path_keys(to_delete).to_set()),
        done_watch.subset_of(path_keys(to_add).to_set()),
    ensures
        watched.difference(path_keys(to_delete).to_set().difference(failed_unwatch)).union(done_watch)
            == watched.intersect(path_keys(new_paths).to_set()).union(failed_unwatch).union(done_watch),
{
    assert(watched.difference(path_keys(to_delete).to_set().difference(failed_unwatch)).union(done_watch)
        =~= watched.intersect(path_keys(new_paths).to_set()).union(failed_unwatch).union(done_watch));
}

/// An update to the directories that are already watched plans nothing: no
/// watch is stopped and none is started.
pub proof fn lemma_plan_of_watched_is_empty(held: Seq<Seq<char>>, new_paths: Seq<Seq<char>>)
    requires
        path_keys(new_paths).to_set() == path_keys(held).to_set(),
    ensures
        paths_to_unwatch(held, new_paths).len() == 0,
        paths_to_watch(path_keys(held).to_set(), new_paths).len() == 0,
{
    lemma_unwatch_members(held, new_paths);
    lemma_watch_members(path_keys(held).to_set(), new_paths);
    let d = paths_to_unwatch(held, new_paths);
    if d.len() > 0 {
        assert(path_keys(d).contains(path_keys(d)[0]));
        assert(path_keys(held).to_set().contains(path_keys(d)[0]));
    }
    let a = paths_to_watch(path_keys(held).to_set(), new_paths);
    if a.len() > 0 {
        assert(path_keys(a).contains(path_keys(a)[0]));
        assert(path_keys(new_paths).to_set().contains(path_keys(a)[0]));
    }
}

/// What the sync service does next.
#[derive(Debug)]
pub enum WatchAction {
    /// Stop the sync that is running.
    AbortSync,
    /// Start a sync with the current sources.
    StartSync,
    /// Watch exactly these source directories.
    WatchDirs(Vec<String>),
}

/// The state of the sync service: whether a sync was started (which a new
/// one aborts first).
#[derive(Debug)]
pub struct SyncSupervisor {
    pub sync_started: bool,
}

impl SyncSupervisor {
    /// A service that has not started a sync yet.
    pub fn new() -> (res: SyncSupervisor)
        ensures
            !res.sync_started,
    {
        SyncSupervisor { sync_started: false }
    }

    /// The sources configuration was (re)loaded: stop the running sync if
    /// any, start one with the new sources, and watch their directories.
    pub fn on_config(&mut self, sources: &SourcesConfig) -> (res: Vec<WatchAction>)
        ensures
            final(self).sync_started,
            old(self).sync_started ==> res@.len() == 3 && res@[0] is AbortSync && res@[1] is StartSync
                && (res@[2] matches WatchAction::WatchDirs(d) && dir_views(d@) == sources.spec_paths()),
            !old(self).sync_started ==> res@.len() == 2 && res@[0] is StartSync && (res@[1] matches WatchAction::WatchDirs(d)
                && dir_views(d@) == sources.spec_paths()),
    {
        let mut actions: Vec<WatchAction> = Vec::new();
        if self.sync_started {
            actions.push(WatchAction::AbortSync);
        }
        actions.push(WatchAction::StartSync);
        actions.push(WatchAction::WatchDirs(sources.iter_paths()));
        self.sync_started = true;
        actions
    }

    /// Files changed in the watched directories: when some change has
    /// settled, stop the running sync if any and start a new one; otherwise
    /// do nothing.
    pub fn on_files_changed(&mut self, events: &Vec<FileEvent>) -> (res: Vec<WatchAction>)
        ensures
            !spec_any_change(events@) ==> res@.len() == 0 && final(self).sync_started == old(self).sync_started,
            spec_any_change(events@) && old(self).sync_started ==> res@.len() == 2 && res@[0] is AbortSync
                && res@[1] is StartSync && final(self).sync_started,
            spec_any_change(events@) && !old(self).sync_started ==> res@.len() == 1 && res@[0] is StartSync
                && final(self).sync_started,
    {
        let mut actions: Vec<WatchAction> = Vec::new();
        if any_change(events) {
            if self.sync_started {
                actions.push(WatchAction::AbortSync);
            }
            actions.push(WatchAction::StartSync);
            self.sync_started = true;
        }
        actions
    }
}

} // verus!
