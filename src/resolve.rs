//! Turning path arguments into an ordered list of sources. What the file
//! system says of a path (its metadata, or the items of a walk below it) is
//! gathered by the caller and handed in as a `Probe`; the decisions are made
//! here.
use vstd::prelude::*;

verus! {

/// One item met while walking the tree below a path, in walking order.
pub enum WalkItem {
    /// A directory, the root of the walk included.
    Directory,
    /// Anything else, with its path.
    File(String),
    /// The walk could not go on below some point; the message says why.
    Failed(String),
}

/// What the file system said about one path argument.
pub enum Probe {
    /// Nothing was asked (the standard input sentinel).
    Unprobed,
    /// Whether the path is a directory, or why its metadata could not be read.
    Metadata(Result<bool, String>),
    /// The items of a depth-first walk rooted at the path.
    Walk(Vec<WalkItem>),
}

/// What has to be asked of the file system about one path argument.
#[derive(PartialEq, Eq, Structural, Clone, Copy, Debug)]
pub enum Request {
    /// Nothing.
    Nothing,
    /// Its metadata.
    Metadata,
    /// A walk of the tree below it.
    Walk,
}

/// A resolved entry with its strings seen as character sequences.
pub type EntryView = Result<Seq<char>, Seq<char>>;

/// The path that stands for standard input.
pub open spec fn stdin_path() -> Seq<char> {
    seq!['-']
}

/// The message for a directory given without recursion.
pub open spec fn directory_message(path: Seq<char>) -> Seq<char> {
    path + " is a directory"@
}

pub open spec fn entry_view(e: Result<String, String>) -> EntryView {
    match e {
        Ok(p) => Ok(p@),
        Err(m) => Err(m@),
    }
}

pub open spec fn entries_view(v: Seq<Result<String, String>>) -> Seq<EntryView> {
    v.map_values(|e: Result<String, String>| entry_view(e))
}

/// What is asked of the file system about `path`: nothing for the sentinel,
/// otherwise a walk when recursing and the metadata when not.
pub open spec fn request_of(path: Seq<char>, recursive: bool) -> Request {
    if path == stdin_path() {
        Request::Nothing
    } else if recursive {
        Request::Walk
    } else {
        Request::Metadata
    }
}

/// Whether `probe` answers `request`.
pub open spec fn answers(request: Request, probe: Probe) -> bool {
    match request {
        Request::Nothing => probe is Unprobed,
        Request::Metadata => probe is Metadata,
        Request::Walk => probe is Walk,
    }
}

/// The entries that a walk yields: a file for each non-directory item and an
/// error for each failure, in walking order; directories yield nothing.
pub open spec fn walk_entries(items: Seq<WalkItem>) -> Seq<EntryView>
    decreases items.len(),
{
    if items.len() == 0 {
        seq![]
    } else {
        let rest = walk_entries(items.drop_last());
        match items.last() {
            WalkItem::Directory => rest,
            WalkItem::File(p) => rest.push(Ok(p@)),
            WalkItem::Failed(m) => rest.push(Err(m@)),
        }
    }
}

/// The entries that one path argument resolves to, given what was probed.
pub open spec fn path_entries(path: Seq<char>, probe: Probe) -> Seq<EntryView> {
    if path == stdin_path() {
        seq![Ok(path)]
    } else {
        match probe {
            Probe::Metadata(Err(m)) => seq![Err(m@)],
            Probe::Metadata(Ok(true)) => seq![Err(directory_message(path))],
            Probe::Metadata(Ok(false)) => seq![Ok(path)],
            Probe::Walk(items) => walk_entries(items@),
            Probe::Unprobed => seq![Ok(path)],
        }
    }
}

/// The entries of all path arguments, in argument order.
pub open spec fn resolved(paths: Seq<String>, probes: Seq<Probe>) -> Seq<EntryView>
    decreases paths.len(),
{
    if paths.len() == 0 || probes.len() == 0 {
        seq![]
    } else {
        resolved(paths.drop_last(), probes.drop_last()) + path_entries(
            paths.last()@,
            probes.last(),
        )
    }
}

/// Whether each probe answers what its path argument asks.
pub open spec fn probes_fit(paths: Seq<String>, recursive: bool, probes: Seq<Probe>) -> bool {
    &&& probes.len() == paths.len()
    &&& forall|i: int| 0 <= i < paths.len() ==> answers(request_of(paths[i]@, recursive), probes[i])
}

/// Whether `path` is the standard input sentinel `"-"`.
pub fn is_stdin(path: &str) -> (r: bool)
    ensures
        r == (path@ == stdin_path()),
{
    if path.unicode_len() == 1 {
        let c = path.get_char(0);
        if c == '-' {
            assert(path@ =~= stdin_path());
        }
        c == '-'
    } else {
        false
    }
}

/// What the caller has to ask the file system about `path`.
pub fn probe_request(path: &String, recursive: bool) -> (r: Request)
    ensures
        r == request_of(path@, recursive),
{
    if is_stdin(path.as_str()) {
        Request::Nothing
    } else if recursive {
        Request::Walk
    } else {
        Request::Metadata
    }
}

/// Whether each probe in `probes` answers what the path argument at the same
/// place asks.
pub fn probes_answer(paths: &Vec<String>, recursive: bool, probes: &Vec<Probe>) -> (r: bool)
    ensures
        r == probes_fit(paths@, recursive, probes@),
{
    if probes.len() != paths.len() {
        return false;
    }
    let mut i: usize = 0;
    while i < paths.len()
        invariant
            probes.len() == paths.len(),
            i <= paths.len(),
            forall|j: int| 0 <= j < i ==> answers(request_of(paths[j]@, recursive), probes[j]),
        decreases paths.len() - i,
    {
        let fits = match (probe_request(&paths[i], recursive), &probes[i]) {
            (Request::Nothing, Probe::Unprobed) => true,
            (Request::Metadata, Probe::Metadata(_)) => true,
            (Request::Walk, Probe::Walk(_)) => true,
            _ => false,
        };
        if !fits {
            return false;
        }
        i = i + 1;
    }
    true
}

/// The entries that a walk yields: each item that is not a directory, in
/// walking order.
pub fn walk_files(items: &Vec<WalkItem>) -> (r: Vec<Result<String, String>>)
    ensures
        entries_view(r@) == walk_entries(items@),
{
    let mut out: Vec<Result<String, String>> = Vec::new();
    let mut i: usize = 0;
    while i < items.len()
        invariant
            i <= items.len(),
            entries_view(out@) == walk_entries(items@.take(i as int)),
        decreases items.len() - i,
    {
        proof {
            assert(items@.take(i as int + 1).drop_last() =~= items@.take(i as int));
        }
        let ghost before = out@;
        match &items[i] {
            WalkItem::Directory => {},
            WalkItem::File(p) => {
                out.push(Ok(p.clone()));
                assert(entries_view(out@) =~= entries_view(before).push(Ok(p@)));
            },
            WalkItem::Failed(m) => {
                out.push(Err(m.clone()));
                assert(entries_view(out@) =~= entries_view(before).push(Err(m@)));
            },
        }
        i = i + 1;
    }
    proof {
        assert(items@.take(items.len() as int) =~= items@);
    }
    out
}

/// The entries that the path argument `path` resolves to, given what the
/// file system said of it.
pub fn resolve_path(path: &String, probe: &Probe) -> (r: Vec<Result<String, String>>)
    ensures
        entries_view(r@) == path_entries(path@, *probe),
{
    let r = if is_stdin(path.as_str()) {
        vec![Ok(path.clone())]
    } else {
        match probe {
            Probe::Metadata(Err(m)) => vec![Err(m.clone())],
            Probe::Metadata(Ok(true)) => {
                let mut message = path.clone();
                message.append(" is a directory");
                vec![Err(message)]
            },
            Probe::Metadata(Ok(false)) => vec![Ok(path.clone())],
            Probe::Walk(items) => {
                return walk_files(items);
            },
            Probe::Unprobed => vec![Ok(path.clone())],
        }
    };
    assert(entries_view(r@) =~= path_entries(path@, *probe));
    r
}

/// Resolves the path arguments `paths`, in order, into entries: a path to
/// read from, or a message saying why a path cannot be read. `probes[i]` is
/// what the file system said of `paths[i]`, as `probe_request` asked.
pub fn find_files(paths: &Vec<String>, recursive: bool, probes: &Vec<Probe>) -> (r: Vec<
    Result<String, String>,
>)
    requires
        probes_fit(paths@, recursive, probes@),
    ensures
        entries_view(r@) == resolved(paths@, probes@),
{
    let mut out: Vec<Result<String, String>> = Vec::new();
    let mut i: usize = 0;
    while i < paths.len()
        invariant
            probes.len() == paths.len(),
            i <= paths.len(),
            entries_view(out@) == resolved(paths@.take(i as int), probes@.take(i as int)),
        decreases paths.len() - i,
    {
        proof {
            assert(paths@.take(i as int + 1).drop_last() =~= paths@.take(i as int));
            assert(probes@.take(i as int + 1).drop_last() =~= probes@.take(i as int));
        }
        let mut found = resolve_path(&paths[i], &probes[i]);
        let ghost before = out@;
        let ghost added = found@;
        out.append(&mut found);
        proof {
            assert(entries_view(out@) =~= entries_view(before) + entries_view(added));
        }
        i = i + 1;
    }
    proof {
        assert(paths@.take(paths.len() as int) =~= paths@);
        assert(probes@.take(probes.len() as int) =~= probes@);
    }
    out
}

/// Whether `probe` is a walk that met a file with path `p`.
pub open spec fn walk_met_file(probe: Probe, p: Seq<char>) -> bool {
    match probe {
        Probe::Walk(items) => exists|k: int|
            0 <= k < items@.len() && (#[trigger] items@[k] matches WalkItem::File(f) && f@ == p),
        _ => false,
    }
}

/// Whether the path argument `path`, probed as `probe`, can yield the entry
/// path `p`: the sentinel yields itself, a walk yields the files it met.
pub open spec fn yields_path(path: Seq<char>, probe: Probe, p: Seq<char>) -> bool {
    (path == stdin_path() && p == stdin_path()) || walk_met_file(probe, p)
}

proof fn lemma_walk_entries(items: Seq<WalkItem>, p: Seq<char>)
    ensures
        walk_entries(items).contains(Ok(p)) <==> exists|k: int|
            0 <= k < items.len() && (#[trigger] items[k] matches WalkItem::File(f) && f@ == p),
    decreases items.len(),
{
    if items.len() > 0 {
        let init = items.drop_last();
        let rest = walk_entries(init);
        lemma_walk_entries(init, p);
        let last = items.last();
        if exists|k: int| 0 <= k < init.len() && (#[trigger] init[k] matches WalkItem::File(f) && f@ == p) {
            let k = choose|k: int| 0 <= k < init.len() && (#[trigger] init[k] matches WalkItem::File(f) && f@ == p);
            assert(items[k] == init[k]);
        }
        if exists|k: int| 0 <= k < items.len() && (#[trigger] items[k] matches WalkItem::File(f) && f@ == p) {
            let k = choose|k: int| 0 <= k < items.len() && (#[trigger] items[k] matches WalkItem::File(f) && f@ == p);
            if k < init.len() {
                assert(init[k] == items[k]);
            }
        }
        match last {
            WalkItem::Directory => {},
            WalkItem::File(f) => {
                let all = rest.push(Ok(f@));
                assert(all[rest.len() as int] == Ok::<Seq<char>, Seq<char>>(f@));
                if rest.contains(Ok(p)) {
                    let j = choose|j: int| 0 <= j < rest.len() && rest[j] == Ok::<Seq<char>, Seq<char>>(p);
                    assert(all[j] == rest[j]);
                }
                if all.contains(Ok(p)) && f@ != p {
                    let j = choose|j: int| 0 <= j < all.len() && all[j] == Ok::<Seq<char>, Seq<char>>(p);
                    assert(rest[j] == all[j]);
                }
            },
            WalkItem::Failed(m) => {
                let all = rest.push(Err(m@));
                if rest.contains(Ok(p)) {
                    let j = choose|j: int| 0 <= j < rest.len() && rest[j] == Ok::<Seq<char>, Seq<char>>(p);
                    assert(all[j] == rest[j]);
                }
                if all.contains(Ok(p)) {
                    let j = choose|j: int| 0 <= j < all.len() && all[j] == Ok::<Seq<char>, Seq<char>>(p);
                    assert(rest[j] == all[j]);
                }
            },
        }
    }
}

proof fn lemma_resolved_contains(paths: Seq<String>, probes: Seq<Probe>, e: EntryView)
    requires
        probes.len() == paths.len(),
    ensures
        resolved(paths, probes).contains(e) <==> exists|i: int|
            0 <= i < paths.len() && #[trigger] path_entries(paths[i]@, probes[i]).contains(e),
    decreases paths.len(),
{
    if paths.len() > 0 {
        let ip = paths.drop_last();
        let iq = probes.drop_last();
        lemma_resolved_contains(ip, iq, e);
        let a = resolved(ip, iq);
        let b = path_entries(paths.last()@, probes.last());
        let n = paths.len() - 1;
        if exists|i: int| 0 <= i < ip.len() && #[trigger] path_entries(ip[i]@, iq[i]).contains(e) {
            let i = choose|i: int| 0 <= i < ip.len() && #[trigger] path_entries(ip[i]@, iq[i]).contains(e);
            assert(ip[i] == paths[i] && iq[i] == probes[i]);
        }
        if exists|i: int| 0 <= i < paths.len() && #[trigger] path_entries(paths[i]@, probes[i]).contains(e) {
            let i = choose|i: int| 0 <= i < paths.len() && #[trigger] path_entries(paths[i]@, probes[i]).contains(e);
            if i < n {
                assert(ip[i] == paths[i] && iq[i] == probes[i]);
            }
        }
        if a.contains(e) {
            let j = choose|j: int| 0 <= j < a.len() && a[j] == e;
            assert((a + b)[j] == e);
        }
        if b.contains(e) {
            let j = choose|j: int| 0 <= j < b.len() && b[j] == e;
            assert((a + b)[a.len() + j] == e);
        }
        if (a + b).contains(e) {
            let j = choose|j: int| 0 <= j < (a + b).len() && (a + b)[j] == e;
            if j < a.len() {
                assert(a[j] == e);
            } else {
                assert(b[j - a.len()] == e);
            }
        }
    }
}

/// Without recursion each path argument yields exactly one entry, at its own
/// place: the sentinel is asked nothing of the file system and stands for
/// itself, and a directory yields the message `"<path> is a directory"`.
pub proof fn lemma_plain_resolution(paths: Seq<String>, probes: Seq<Probe>)
    requires
        probes_fit(paths, false, probes),
    ensures
        resolved(paths, probes).len() == paths.len(),
        forall|i: int|
            0 <= i < paths.len() && paths[i]@ == stdin_path() ==> request_of(paths[i]@, false)
                == Request::Nothing && resolved(paths, probes)[i] == Ok::<Seq<char>, Seq<char>>(
                stdin_path(),
            ),
        forall|i: int|
            0 <= i < paths.len() && paths[i]@ != stdin_path() && probes[i] == Probe::Metadata(
                Ok(true),
            ) ==> resolved(paths, probes)[i] == Err::<Seq<char>, Seq<char>>(
                directory_message(paths[i]@),
            ),
{
    if paths.len() > 0 {
        lemma_plain_entries(paths, probes, 0);
    }
    assert forall|i: int| 0 <= i < paths.len() implies #[trigger] resolved(paths, probes)[i]
        == path_entries(paths[i]@, probes[i])[0] by {
        lemma_plain_entries(paths, probes, i);
    }
}

proof fn lemma_plain_entries(paths: Seq<String>, probes: Seq<Probe>, i: int)
    requires
        probes_fit(paths, false, probes),
        0 <= i < paths.len(),
    ensures
        resolved(paths, probes).len() == paths.len(),
        resolved(paths, probes)[i] == path_entries(paths[i]@, probes[i])[0],
    decreases paths.len(),
{
    let ip = paths.drop_last();
    let iq = probes.drop_last();
    assert forall|j: int| 0 <= j < ip.len() implies answers(request_of(ip[j]@, false), iq[j]) by {
        assert(ip[j] == paths[j] && iq[j] == probes[j]);
    }
    let n = paths.len() - 1;
    assert(answers(request_of(paths[n]@, false), probes[n]));
    let a = resolved(ip, iq);
    let b = path_entries(paths.last()@, probes.last());
    if n > 0 {
        lemma_plain_entries(ip, iq, if i < n { i } else { 0 });
    }
    if i < n {
        assert(ip[i] == paths[i] && iq[i] == probes[i]);
        assert((a + b)[i] == a[i]);
    } else {
        assert((a + b)[i] == b[0]);
    }
}

/// With recursion, every file that a walk met is among the entries, and every
/// path among the entries is a file that a walk met or the sentinel given as
/// an argument, which is asked nothing of the file system: directories yield
/// no entry.
pub proof fn lemma_recursive_resolution(paths: Seq<String>, probes: Seq<Probe>)
    requires
        probes_fit(paths, true, probes),
    ensures
        forall|i: int, p: Seq<char>|
            0 <= i < paths.len() && walk_met_file(probes[i], p) ==> resolved(paths, probes).contains(
                Ok(p),
            ),
        forall|i: int|
            0 <= i < paths.len() && paths[i]@ == stdin_path() ==> request_of(paths[i]@, true)
                == Request::Nothing && resolved(paths, probes).contains(Ok(stdin_path())),
        forall|p: Seq<char>|
            resolved(paths, probes).contains(Ok(p)) ==> exists|i: int|
                0 <= i < paths.len() && #[trigger] yields_path(paths[i]@, probes[i], p),
{
    assert forall|i: int, p: Seq<char>|
        0 <= i < paths.len() && walk_met_file(probes[i], p) implies resolved(
        paths,
        probes,
    ).contains(Ok(p)) by {
        assert(answers(request_of(paths[i]@, true), probes[i]));
        let items = probes[i]->Walk_0@;
        lemma_walk_entries(items, p);
        lemma_resolved_contains(paths, probes, Ok(p));
        assert(path_entries(paths[i]@, probes[i]).contains(Ok(p)));
    }
    assert forall|i: int|
        0 <= i < paths.len() && paths[i]@ == stdin_path() implies resolved(paths, probes).contains(
        Ok(stdin_path()),
    ) by {
        lemma_resolved_contains(paths, probes, Ok(stdin_path()));
        assert(path_entries(paths[i]@, probes[i])[0] == Ok::<Seq<char>, Seq<char>>(stdin_path()));
        assert(path_entries(paths[i]@, probes[i]).contains(Ok(stdin_path())));
    }
    assert forall|p: Seq<char>| resolved(paths, probes).contains(Ok(p)) implies exists|i: int|
        0 <= i < paths.len() && #[trigger] yields_path(paths[i]@, probes[i], p) by {
        lemma_resolved_contains(paths, probes, Ok(p));
        let i = choose|i: int|
            0 <= i < paths.len() && #[trigger] path_entries(paths[i]@, probes[i]).contains(Ok(p));
        assert(answers(request_of(paths[i]@, true), probes[i]));
        let pe = path_entries(paths[i]@, probes[i]);
        if paths[i]@ == stdin_path() {
            let j = choose|j: int| 0 <= j < pe.len() && pe[j] == Ok::<Seq<char>, Seq<char>>(p);
            assert(pe[j] == pe[0]);
            assert(p == stdin_path());
        } else {
            let items = probes[i]->Walk_0@;
            lemma_walk_entries(items, p);
            assert(walk_met_file(probes[i], p));
        }
        assert(yields_path(paths[i]@, probes[i], p));
    }
}

} // verus!
