//! The walk over everything below a directory.
//!
//! Whoever walks reads the directories; which one is read next, what was found
//! and in which order it comes out is settled here. A directory that cannot be
//! read is answered with no entries.

use crate::paths;
use crate::paths::join_path;
use crate::text;
use vstd::multiset::Multiset;
use vstd::prelude::*;

verus! {

/// A name that a directory holds.
#[derive(Debug, PartialEq, Eq)]
pub struct DirEntry {
    pub name: String,
    pub is_dir: bool,
}

/// What a [`DirEntry`] says.
#[verifier::ext_equal]
pub struct DirEntryView {
    pub name: Seq<char>,
    pub is_dir: bool,
}

impl View for DirEntry {
    type V = DirEntryView;

    open spec fn view(&self) -> DirEntryView {
        DirEntryView { name: self.name@, is_dir: self.is_dir }
    }
}

/// A walk over everything below a base. Paths are relative to the base, with
/// `/` between names; the base itself is the empty path.
#[derive(Debug)]
pub struct Walk {
    /// The directories that are still to be read.
    pending: Vec<String>,
    dirs: Vec<String>,
    files: Vec<String>,
}

/// What a [`Walk`] holds.
#[verifier::ext_equal]
pub struct WalkView {
    pub pending: Seq<Seq<char>>,
    pub dirs: Seq<Seq<char>>,
    pub files: Seq<Seq<char>>,
}

impl View for Walk {
    type V = WalkView;

    closed spec fn view(&self) -> WalkView {
        WalkView {
            pending: text::views(self.pending@),
            dirs: text::views(self.dirs@),
            files: text::views(self.files@),
        }
    }
}

impl WalkView {
    /// A walk that starts at a directory.
    pub open spec fn started() -> WalkView {
        WalkView { pending: seq![Seq::<char>::empty()], dirs: seq![], files: seq![] }
    }

    /// A walk whose base is a file: there is nothing else to find.
    pub open spec fn of_file() -> WalkView {
        WalkView { pending: seq![], dirs: seq![], files: seq![Seq::<char>::empty()] }
    }

    /// The walk after the directory to be read next was taken.
    pub open spec fn taken(self) -> WalkView {
        WalkView { pending: self.pending.drop_last(), ..self }
    }

    /// The walk after an entry of the directory `dir` was seen.
    pub open spec fn seen(self, dir: Seq<char>, entry: DirEntryView) -> WalkView {
        let path = paths::path_join(dir, entry.name);
        if entry.is_dir {
            WalkView { pending: self.pending.push(path), dirs: self.dirs.push(path), ..self }
        } else {
            WalkView { files: self.files.push(path), ..self }
        }
    }

    /// The walk after the entries of the directory `dir` were seen.
    pub open spec fn visited(self, dir: Seq<char>, entries: Seq<DirEntryView>) -> WalkView
        decreases entries.len(),
    {
        if entries.len() == 0 {
            self
        } else {
            self.visited(dir, entries.drop_last()).seen(dir, entries.last())
        }
    }
}

/// Whether `listed` holds `found`, each path as often, in the order in which
/// paths compare: name by name.
pub open spec fn listed_in_order(listed: Seq<Seq<char>>, found: Seq<Seq<char>>) -> bool {
    text::sorted(Some('/'), listed) && listed.to_multiset() == found.to_multiset()
}

impl Walk {
    /// A walk that starts at a directory.
    pub fn new() -> (r: Self)
        ensures
            r@ == WalkView::started(),
    {
        let mut pending: Vec<String> = Vec::new();
        pending.push(String::new());
        let r = Walk { pending, dirs: Vec::new(), files: Vec::new() };
        assert(r@ =~= WalkView::started());
        r
    }

    /// A walk whose base is a file.
    pub fn of_file() -> (r: Self)
        ensures
            r@ == WalkView::of_file(),
    {
        let mut files: Vec<String> = Vec::new();
        files.push(String::new());
        let r = Walk { pending: Vec::new(), dirs: Vec::new(), files };
        assert(r@ =~= WalkView::of_file());
        r
    }

    /// The directory to be read next: the one that was found last.
    pub fn next(&mut self) -> (r: Option<String>)
        ensures
            match r {
                Some(dir) => old(self)@.pending.len() > 0 && dir@ == old(self)@.pending.last()
                    && final(self)@ == old(self)@.taken(),
                None => old(self)@.pending.len() == 0 && final(self)@ == old(self)@,
            },
    {
        let ghost before = self@;
        let r = self.pending.pop();
        proof {
            if r is Some {
                assert(self@ =~= before.taken());
            } else {
                assert(self@ =~= before);
            }
        }
        r
    }

    /// Notes what the directory `dir` holds.
    pub fn visit(&mut self, dir: &str, entries: &Vec<DirEntry>)
        ensures
            final(self)@ == old(self)@.visited(dir@, text::views(entries@)),
    {
        let ghost before = self@;
        let ghost all = text::views(entries@);
        assert(all.take(0) =~= seq![]);
        for i in 0..entries.len()
            invariant
                all == text::views(entries@),
                self@ == before.visited(dir@, all.take(i as int)),
        {
            let ghost now = self@;
            assert(all.take(i + 1).drop_last() =~= all.take(i as int));
            assert(all.take(i + 1).last() == entries@[i as int]@);
            let path = join_path(dir, entries[i].name.as_str());
            if entries[i].is_dir {
                self.dirs.push(path.clone());
                self.pending.push(path);
            } else {
                self.files.push(path);
            }
            assert(self@ =~= now.seen(dir@, entries@[i as int]@));
        }
        assert(all.take(all.len() as int) =~= all);
    }

    /// The files that were found, in order.
    pub fn files(&self) -> (r: Vec<String>)
        ensures
            listed_in_order(text::views(r@), self@.files),
    {
        text::sort(Some('/'), text::clone_vec(&self.files))
    }

    /// Everything that was found, directories and files, in order.
    pub fn everything(&self) -> (r: Vec<String>)
        ensures
            listed_in_order(text::views(r@), self@.dirs + self@.files),
    {
        let mut found = text::clone_vec(&self.dirs);
        let mut files = text::clone_vec(&self.files);
        found.append(&mut files);
        assert(text::views(found@) =~= self@.dirs + self@.files);
        text::sort(Some('/'), found)
    }
}

// ---------------------------------------------------------------------------
// laws
// ---------------------------------------------------------------------------

/// What stands at a path: a file, or a directory with what it holds.
pub enum FileTree {
    File,
    Dir { entries: Seq<(Seq<char>, FileTree)> },
}

/// What reading a directory that holds `entries` gives.
pub open spec fn listing(entries: Seq<(Seq<char>, FileTree)>) -> Seq<DirEntryView> {
    Seq::new(
        entries.len(),
        |i: int| DirEntryView { name: entries[i].0, is_dir: entries[i].1 is Dir },
    )
}

/// The paths of the directories, or else of the files, below the directory
/// `dir`, which holds `entries`.
pub open spec fn paths_below(
    dir: Seq<char>,
    entries: Seq<(Seq<char>, FileTree)>,
    dirs: bool,
) -> Multiset<Seq<char>>
    decreases entries,
{
    if entries.len() == 0 {
        Multiset::empty()
    } else {
        let rest = paths_below(dir, entries.drop_last(), dirs);
        let path = paths::path_join(dir, entries.last().0);
        match entries.last().1 {
            FileTree::File => if dirs {
                rest
            } else {
                rest.insert(path)
            },
            FileTree::Dir { entries: held } => {
                let below = rest.add(paths_below(path, held, dirs));
                if dirs {
                    below.insert(path)
                } else {
                    below
                }
            },
        }
    }
}

/// How many directories there are below a directory that holds `entries`.
pub open spec fn dirs_below(entries: Seq<(Seq<char>, FileTree)>) -> nat
    decreases entries,
{
    if entries.len() == 0 {
        0
    } else {
        dirs_below(entries.drop_last()) + match entries.last().1 {
            FileTree::File => 0,
            FileTree::Dir { entries: held } => 1 + dirs_below(held),
        }
    }
}

/// What the directories among `entries` hold.
pub open spec fn held_below(entries: Seq<(Seq<char>, FileTree)>) -> Seq<
    Seq<(Seq<char>, FileTree)>,
>
    decreases entries.len(),
{
    if entries.len() == 0 {
        seq![]
    } else {
        let rest = held_below(entries.drop_last());
        match entries.last().1 {
            FileTree::File => rest,
            FileTree::Dir { entries: held } => rest.push(held),
        }
    }
}

/// How many directories are still to be read, where those that wait hold
/// `held`.
pub open spec fn to_read(held: Seq<Seq<(Seq<char>, FileTree)>>) -> nat
    decreases held.len(),
{
    if held.len() == 0 {
        0
    } else {
        to_read(held.drop_last()) + 1 + dirs_below(held.last())
    }
}

/// The walk carried to its end, where the directories that wait hold `held`.
pub open spec fn walked(w: WalkView, held: Seq<Seq<(Seq<char>, FileTree)>>) -> WalkView
    decreases to_read(held),
{
    if held.len() == 0 {
        w
    } else {
        proof {
            lemma_to_read_added(held.drop_last(), held.last());
        }
        walked(
            w.taken().visited(w.pending.last(), listing(held.last())),
            held.drop_last() + held_below(held.last()),
        )
    }
}

/// Reading a directory leaves those below it to be read.
pub proof fn lemma_to_read_added(
    held: Seq<Seq<(Seq<char>, FileTree)>>,
    entries: Seq<(Seq<char>, FileTree)>,
)
    ensures
        to_read(held + held_below(entries)) == to_read(held) + dirs_below(entries),
    decreases entries.len(),
{
    if entries.len() == 0 {
        assert(held + held_below(entries) =~= held);
    } else {
        lemma_to_read_added(held, entries.drop_last());
        let rest = held_below(entries.drop_last());
        match entries.last().1 {
            FileTree::File => {},
            FileTree::Dir { entries: inner } => {
                assert((held + rest.push(inner)).drop_last() =~= held + rest);
            },
        }
    }
}

/// The paths below the directories that wait.
pub open spec fn paths_waiting(
    pending: Seq<Seq<char>>,
    held: Seq<Seq<(Seq<char>, FileTree)>>,
    dirs: bool,
) -> Multiset<Seq<char>>
    decreases held.len(),
{
    if held.len() == 0 {
        Multiset::empty()
    } else {
        paths_waiting(pending.drop_last(), held.drop_last(), dirs).add(
            paths_below(pending.last(), held.last(), dirs),
        )
    }
}

proof fn lemma_added_to_both<V>(
    a: Multiset<V>,
    p: Multiset<V>,
    x: Multiset<V>,
    b: Multiset<V>,
    more: Multiset<V>,
)
    requires
        a.add(p) == x.add(b),
    ensures
        a.add(p.add(more)) == x.add(b.add(more)),
        a.add(more).add(p) == x.add(b.add(more)),
{
    assert forall|v: V|
        a.add(p.add(more)).count(v) == x.add(b.add(more)).count(v) && a.add(more).add(p).count(v)
            == x.add(b.add(more)).count(v) by {
        assert(a.add(p).count(v) == a.count(v) + p.count(v));
        assert(x.add(b).count(v) == x.count(v) + b.count(v));
    }
    assert(a.add(p.add(more)) =~= x.add(b.add(more)));
    assert(a.add(more).add(p) =~= x.add(b.add(more)));
}

proof fn lemma_visit_accounts(
    w: WalkView,
    held: Seq<Seq<(Seq<char>, FileTree)>>,
    dir: Seq<char>,
    entries: Seq<(Seq<char>, FileTree)>,
)
    requires
        w.pending.len() == held.len(),
    ensures
        ({
            let after = w.visited(dir, listing(entries));
            let waiting = held + held_below(entries);
            &&& after.pending.len() == waiting.len()
            &&& after.files.to_multiset().add(paths_waiting(after.pending, waiting, false))
                == w.files.to_multiset().add(paths_waiting(w.pending, held, false)).add(
                paths_below(dir, entries, false),
            )
            &&& after.dirs.to_multiset().add(paths_waiting(after.pending, waiting, true))
                == w.dirs.to_multiset().add(paths_waiting(w.pending, held, true)).add(
                paths_below(dir, entries, true),
            )
        }),
    decreases entries.len(),
{
    broadcast use vstd::seq_lib::group_to_multiset_ensures;

    let after = w.visited(dir, listing(entries));
    let waiting = held + held_below(entries);
    if entries.len() == 0 {
        assert(waiting =~= held);
        assert(listing(entries) =~= seq![]);
        assert(w.files.to_multiset().add(paths_waiting(w.pending, held, false)).add(
            Multiset::empty(),
        ) =~= w.files.to_multiset().add(paths_waiting(w.pending, held, false)));
        assert(w.dirs.to_multiset().add(paths_waiting(w.pending, held, true)).add(
            Multiset::empty(),
        ) =~= w.dirs.to_multiset().add(paths_waiting(w.pending, held, true)));
    } else {
        let front = entries.drop_last();
        lemma_visit_accounts(w, held, dir, front);
        assert(listing(entries).drop_last() =~= listing(front));
        let before = w.visited(dir, listing(front));
        let rest = held + held_below(front);
        let path = paths::path_join(dir, entries.last().0);
        let files = w.files.to_multiset().add(paths_waiting(w.pending, held, false));
        let dirs = w.dirs.to_multiset().add(paths_waiting(w.pending, held, true));
        match entries.last().1 {
            FileTree::File => {
                assert(waiting =~= rest);
                assert(after.pending == before.pending);
                let one = Multiset::<Seq<char>>::singleton(path);
                assert(after.files.to_multiset() =~= before.files.to_multiset().add(one));
                lemma_added_to_both(
                    before.files.to_multiset(),
                    paths_waiting(before.pending, rest, false),
                    files,
                    paths_below(dir, front, false),
                    one,
                );
            },
            FileTree::Dir { entries: inner } => {
                assert(waiting =~= rest.push(inner));
                assert(waiting.drop_last() =~= rest);
                assert(after.pending.drop_last() =~= before.pending);
                let one = Multiset::<Seq<char>>::singleton(path);
                assert(after.dirs.to_multiset() =~= before.dirs.to_multiset().add(one));
                lemma_added_to_both(
                    before.files.to_multiset(),
                    paths_waiting(before.pending, rest, false),
                    files,
                    paths_below(dir, front, false),
                    paths_below(path, inner, false),
                );
                lemma_added_to_both(
                    before.dirs.to_multiset(),
                    paths_waiting(before.pending, rest, true),
                    dirs,
                    paths_below(dir, front, true),
                    paths_below(path, inner, true),
                );
                lemma_added_to_both(
                    before.dirs.to_multiset(),
                    paths_waiting(after.pending, waiting, true),
                    dirs,
                    paths_below(dir, front, true).add(paths_below(path, inner, true)),
                    one,
                );
            },
        }
    }
}

proof fn lemma_walk_accounts(w: WalkView, held: Seq<Seq<(Seq<char>, FileTree)>>)
    requires
        w.pending.len() == held.len(),
    ensures
        walked(w, held).pending.len() == 0,
        walked(w, held).files.to_multiset() == w.files.to_multiset().add(
            paths_waiting(w.pending, held, false),
        ),
        walked(w, held).dirs.to_multiset() == w.dirs.to_multiset().add(
            paths_waiting(w.pending, held, true),
        ),
    decreases to_read(held),
{
    if held.len() == 0 {
        assert(w.files.to_multiset().add(Multiset::empty()) =~= w.files.to_multiset());
        assert(w.dirs.to_multiset().add(Multiset::empty()) =~= w.dirs.to_multiset());
    } else {
        let t = w.taken();
        let rest = held.drop_last();
        lemma_to_read_added(rest, held.last());
        lemma_visit_accounts(t, rest, w.pending.last(), held.last());
        lemma_walk_accounts(
            t.visited(w.pending.last(), listing(held.last())),
            rest + held_below(held.last()),
        );
        assert(t.files.to_multiset().add(paths_waiting(t.pending, rest, false)).add(
            paths_below(w.pending.last(), held.last(), false),
        ) =~= w.files.to_multiset().add(paths_waiting(w.pending, held, false)));
        assert(t.dirs.to_multiset().add(paths_waiting(t.pending, rest, true)).add(
            paths_below(w.pending.last(), held.last(), true),
        ) =~= w.dirs.to_multiset().add(paths_waiting(w.pending, held, true)));
    }
}

/// A walk that is told truly what each directory holds ends, having found every
/// file and every directory below its base, each once.
pub proof fn law_walk_finds_everything(entries: Seq<(Seq<char>, FileTree)>)
    ensures
        ({
            let end = walked(WalkView::started(), seq![entries]);
            &&& end.pending.len() == 0
            &&& end.files.to_multiset() == paths_below(seq![], entries, false)
            &&& end.dirs.to_multiset() == paths_below(seq![], entries, true)
        }),
{
    broadcast use vstd::seq_lib::group_to_multiset_ensures;

    let w = WalkView::started();
    let held = seq![entries];
    lemma_walk_accounts(w, held);
    assert(held.drop_last() =~= seq![]);
    assert(w.files.to_multiset() =~= Multiset::empty());
    assert(w.dirs.to_multiset() =~= Multiset::empty());
    assert(w.pending.last() == Seq::<char>::empty());
    assert(paths_waiting(w.pending.drop_last(), held.drop_last(), false) =~= Multiset::empty());
    assert(paths_waiting(w.pending.drop_last(), held.drop_last(), true) =~= Multiset::empty());
    assert(w.files.to_multiset().add(paths_waiting(w.pending, held, false)) =~= paths_below(
        seq![],
        entries,
        false,
    ));
    assert(w.dirs.to_multiset().add(paths_waiting(w.pending, held, true)) =~= paths_below(
        seq![],
        entries,
        true,
    ));
}

/// What was found comes out in one order only: two listings of the same paths
/// are the same.
pub proof fn law_listing_is_unique(a: Seq<Seq<char>>, b: Seq<Seq<char>>, found: Seq<Seq<char>>)
    requires
        listed_in_order(a, found),
        listed_in_order(b, found),
    ensures
        a == b,
    decreases a.len(),
{
    broadcast use vstd::seq_lib::group_to_multiset_ensures;

    assert(a.len() == a.to_multiset().len());
    assert(b.len() == b.to_multiset().len());
    if a.len() == 0 {
        assert(a =~= b);
    } else {
        let x = a.last();
        let y = b.last();
        assert(a.contains(x));
        assert(b.contains(y));
        assert(b.to_multiset().count(x) > 0);
        assert(a.to_multiset().count(y) > 0);
        assert(b.contains(x));
        assert(a.contains(y));
        let i = choose|i: int| 0 <= i < b.len() && b[i] == x;
        let j = choose|j: int| 0 <= j < a.len() && a[j] == y;
        text::lemma_precedes_total(Some('/'), x, x);
        text::lemma_precedes_total(Some('/'), y, y);
        assert(text::precedes(Some('/'), x, y));
        assert(text::precedes(Some('/'), y, x));
        text::lemma_precedes_antisymmetric(Some('/'), x, y);
        let front = a.drop_last();
        assert(a =~= front.push(x));
        assert(b =~= b.drop_last().push(x));
        assert(front.to_multiset().insert(x) == a.to_multiset());
        assert(b.drop_last().to_multiset().insert(x) == b.to_multiset());
        assert(front.to_multiset() =~= a.to_multiset().remove(x));
        assert(b.drop_last().to_multiset() =~= b.to_multiset().remove(x));
        law_listing_is_unique(front, b.drop_last(), front);
    }
}

} // verus!
