//! Where the rollout transcript of a Codex session is, and the search for it.

use vstd::prelude::*;
use crate::json::{Json, JsonView};
use crate::{paths, text};

verus! {

/// The most directories that a search lists.
pub const ROLLOUT_MAX_DIRS_SCANNED: usize = 4_000;

// ---- the search for a transcript ----

/// An entry of a directory. `place` is what the caller finds it by.
pub struct DirEntry {
    pub place: usize,
    pub name: String,
    pub is_dir: bool,
}

/// An entry of a directory.
pub struct EntryView {
    pub place: usize,
    pub name: Seq<char>,
    pub is_dir: bool,
}

impl View for DirEntry {
    type V = EntryView;

    open spec fn view(&self) -> EntryView {
        EntryView { place: self.place, name: self.name@, is_dir: self.is_dir }
    }
}

/// The views of the entries of a directory.
pub open spec fn listing_view(entries: Seq<DirEntry>) -> Seq<EntryView> {
    Seq::new(entries.len(), |i: int| entries[i]@)
}

/// Whether an entry is the transcript of the session: a file whose name ends in `.jsonl` and
/// holds the name of the session.
pub open spec fn is_transcript(e: EntryView, session_id: Seq<char>) -> bool {
    &&& !e.is_dir
    &&& ".jsonl"@.is_suffix_of(e.name)
    &&& text::occurs(session_id, e.name)
}

/// The first transcript of the session in a directory.
pub open spec fn transcript_in(entries: Seq<EntryView>, session_id: Seq<char>) -> Option<usize>
    decreases entries.len(),
{
    if entries.len() == 0 {
        None
    } else if is_transcript(entries[0], session_id) {
        Some(entries[0].place)
    } else {
        transcript_in(entries.drop_first(), session_id)
    }
}

/// The directories with `e` among them, in the order of their names.
pub open spec fn placed(dirs: Seq<EntryView>, e: EntryView) -> Seq<EntryView>
    decreases dirs.len(),
{
    if dirs.len() > 0 && text::precedes(e.name, dirs.last().name) {
        placed(dirs.drop_last(), e).push(dirs.last())
    } else {
        dirs.push(e)
    }
}

/// The directories among the entries, in the order of their names.
pub open spec fn subdirs(entries: Seq<EntryView>) -> Seq<EntryView>
    decreases entries.len(),
{
    if entries.len() == 0 {
        Seq::empty()
    } else if entries.last().is_dir {
        placed(subdirs(entries.drop_last()), entries.last())
    } else {
        subdirs(entries.drop_last())
    }
}

/// What the caller finds the entries by.
pub open spec fn places(entries: Seq<EntryView>) -> Seq<usize> {
    Seq::new(entries.len(), |i: int| entries[i].place)
}

/// A search: the directories that are still to be listed, the next one last, and how many
/// more may be listed.
pub struct SearchView {
    pub session_id: Seq<char>,
    pub pending: Seq<usize>,
    pub budget: nat,
}

/// A search for the transcript of a session.
pub struct RolloutSearch {
    pub session_id: String,
    pub pending: Vec<usize>,
    pub budget: usize,
}

impl View for RolloutSearch {
    type V = SearchView;

    open spec fn view(&self) -> SearchView {
        SearchView {
            session_id: self.session_id@,
            pending: self.pending@,
            budget: self.budget as nat,
        }
    }
}

/// Whether the search is over.
pub open spec fn is_over(st: SearchView) -> bool {
    st.pending.len() == 0 || st.budget == 0
}

/// The search after the next directory was taken.
pub open spec fn taken(st: SearchView) -> SearchView {
    SearchView { pending: st.pending.drop_last(), budget: (st.budget - 1) as nat, ..st }
}

/// The search after a directory without a transcript was listed.
pub open spec fn spread(st: SearchView, entries: Seq<EntryView>) -> SearchView {
    SearchView { pending: st.pending + places(subdirs(entries)), ..st }
}

/// The entries at the given positions.
spec fn picked(entries: Seq<EntryView>, order: Seq<usize>) -> Seq<EntryView> {
    Seq::new(order.len(), |k: int| entries[order[k] as int])
}

/// Puts the entry at `i` in its place.
fn place_dir(entries: &Vec<DirEntry>, order: &mut Vec<usize>, i: usize)
    requires
        i < entries.len(),
        forall|k: int| 0 <= k < old(order)@.len() ==> #[trigger] old(order)@[k] < entries.len(),
    ensures
        picked(listing_view(entries@), final(order)@) == placed(
            picked(listing_view(entries@), old(order)@),
            entries@[i as int]@,
        ),
        forall|k: int| 0 <= k < final(order)@.len() ==> #[trigger] final(order)@[k] < entries.len(),
{
    let ghost all = listing_view(entries@);
    let ghost was = order@;
    let ghost dirs = picked(all, was);
    let ghost e = entries@[i as int]@;
    let mut j: usize = order.len();
    assert(dirs.take(j as int) =~= dirs);
    assert(placed(dirs, e) =~= placed(dirs.take(j as int), e) + dirs.skip(j as int));
    while j > 0 && text::before(entries[i].name.as_str(), entries[order[j - 1]].name.as_str())
        invariant
            i < entries.len(),
            j <= order.len(),
            order@ == was,
            all == listing_view(entries@),
            dirs == picked(all, was),
            e == entries@[i as int]@,
            forall|k: int| 0 <= k < order@.len() ==> #[trigger] order@[k] < entries.len(),
            placed(dirs, e) == placed(dirs.take(j as int), e) + dirs.skip(j as int),
        decreases j,
    {
        proof {
            let now = dirs.take(j as int);
            assert(now.drop_last() =~= dirs.take(j - 1));
            assert(now.last() == entries@[was[j - 1] as int]@);
            assert(placed(dirs, e) =~= placed(dirs.take(j - 1), e) + dirs.skip(j - 1));
        }
        j -= 1;
    }
    proof {
        let now = dirs.take(j as int);
        if j > 0 {
            assert(now.last() == entries@[was[j - 1] as int]@);
        }
        assert(placed(now, e) == now.push(e));
    }
    order.insert(j, i);
    assert(picked(all, order@) =~= placed(dirs, e));
}

/// The places of the directories among the entries, in the order of their names.
fn subdir_places(entries: &Vec<DirEntry>) -> (r: Vec<usize>)
    ensures
        r@ == places(subdirs(listing_view(entries@))),
{
    let ghost all = listing_view(entries@);
    let mut order: Vec<usize> = Vec::new();
    let mut i: usize = 0;
    assert(all.take(0) =~= Seq::<EntryView>::empty());
    assert(picked(all, order@) =~= subdirs(all.take(0)));
    while i < entries.len()
        invariant
            i <= entries.len(),
            all == listing_view(entries@),
            forall|k: int| 0 <= k < order@.len() ==> #[trigger] order@[k] < entries.len(),
            picked(all, order@) == subdirs(all.take(i as int)),
        decreases entries.len() - i,
    {
        if entries[i].is_dir {
            place_dir(entries, &mut order, i);
        }
        proof {
            let now = all.take(i + 1);
            assert(now.drop_last() =~= all.take(i as int));
            assert(now.last() == entries@[i as int]@);
        }
        i += 1;
    }
    assert(all.take(i as int) =~= all);
    let mut out: Vec<usize> = Vec::new();
    let mut k: usize = 0;
    while k < order.len()
        invariant
            k <= order.len(),
            all == listing_view(entries@),
            forall|k: int| 0 <= k < order@.len() ==> #[trigger] order@[k] < entries.len(),
            out@ == places(picked(all, order@)).take(k as int),
        decreases order.len() - k,
    {
        assert(order@[k as int] < entries.len());
        out.push(entries[order[k]].place);
        assert(out@ =~= places(picked(all, order@)).take(k + 1));
        k += 1;
    }
    assert(out@ =~= places(picked(all, order@)));
    out
}

/// The place of the first transcript of the session in a directory.
fn find_transcript(entries: &Vec<DirEntry>, session_id: &str) -> (r: Option<usize>)
    ensures
        r == transcript_in(listing_view(entries@), session_id@),
{
    let ghost all = listing_view(entries@);
    let mut i: usize = 0;
    assert(all.skip(0) =~= all);
    while i < entries.len()
        invariant
            i <= entries.len(),
            all == listing_view(entries@),
            transcript_in(all, session_id@) == transcript_in(all.skip(i as int), session_id@),
        decreases entries.len() - i,
    {
        let e = &entries[i];
        assert(all.skip(i as int)[0] == e@);
        assert(all.skip(i as int).drop_first() =~= all.skip(i + 1));
        if !e.is_dir && text::ends_with(e.name.as_str(), ".jsonl") && text::contains(
            e.name.as_str(),
            session_id,
        ) {
            return Some(e.place);
        }
        i += 1;
    }
    None
}

impl RolloutSearch {
    /// The search for the transcript of a session under a directory.
    pub fn new(session_id: &str, root: usize) -> (r: RolloutSearch)
        ensures
            r@ == search_start(session_id@, root),
    {
        let mut pending: Vec<usize> = Vec::new();
        pending.push(root);
        assert(pending@ =~= seq![root]);
        RolloutSearch { session_id: session_id.to_owned(), pending, budget: ROLLOUT_MAX_DIRS_SCANNED }
    }

    /// Takes the directory that is to be listed next; `None` where the search is over.
    pub fn next(&mut self) -> (r: Option<usize>)
        ensures
            r is None <==> is_over(old(self)@),
            r is None ==> final(self)@ == old(self)@,
            r is Some ==> r->0 == old(self)@.pending.last() && final(self)@ == taken(old(self)@),
    {
        if self.budget == 0 {
            return None;
        }
        match self.pending.pop() {
            Some(place) => {
                self.budget = self.budget - 1;
                Some(place)
            },
            None => None,
        }
    }

    /// Takes the entries of the directory into account: gives the transcript where it is one of
    /// them, and else goes on with the directories among them.
    pub fn listed(&mut self, entries: &Vec<DirEntry>) -> (r: Option<usize>)
        ensures
            r == transcript_in(listing_view(entries@), old(self)@.session_id),
            r is Some ==> final(self)@ == old(self)@,
            r is None ==> final(self)@ == spread(old(self)@, listing_view(entries@)),
    {
        let hit = find_transcript(entries, self.session_id.as_str());
        if hit.is_none() {
            let mut more = subdir_places(entries);
            self.pending.append(&mut more);
        }
        hit
    }
}

/// The search before any directory was listed.
pub open spec fn search_start(session_id: Seq<char>, root: usize) -> SearchView {
    SearchView { session_id, pending: seq![root], budget: ROLLOUT_MAX_DIRS_SCANNED as nat }
}

// ---- where the transcript is ----

/// Where the transcript of a session is: a file, or somewhere under a directory.
pub enum RolloutPlace {
    File(String),
    Tree(String),
}

/// Where the transcript of a session is.
pub enum PlaceView {
    File(Seq<char>),
    Tree(Seq<char>),
}

impl View for RolloutPlace {
    type V = PlaceView;

    open spec fn view(&self) -> PlaceView {
        match self {
            RolloutPlace::File(path) => PlaceView::File(path@),
            RolloutPlace::Tree(path) => PlaceView::Tree(path@),
        }
    }
}

/// The transcript that the payload names.
pub open spec fn named_transcript(p: JsonView) -> Option<Seq<char>> {
    match p.str_at("transcript_path"@) {
        Some(path) => if path.len() > 0 {
            Some(path)
        } else {
            None
        },
        None => None,
    }
}

/// The directory of Codex: `$CODEX_HOME` where it is set and not empty, else `.codex` in the
/// home directory.
pub open spec fn codex_dir(codex_home: Option<Seq<char>>, home: Option<Seq<char>>) -> Option<
    Seq<char>,
> {
    if codex_home is Some && codex_home->0.len() > 0 {
        codex_home
    } else {
        match home {
            Some(home) => Some(paths::under(home, ".codex"@)),
            None => None,
        }
    }
}

/// Where the transcript is: the file that the payload names, where there is one, else under
/// the sessions of Codex.
pub open spec fn rollout_place(
    p: JsonView,
    is_file: bool,
    codex_home: Option<Seq<char>>,
    home: Option<Seq<char>>,
) -> Option<PlaceView> {
    if named_transcript(p) is Some && is_file {
        Some(PlaceView::File(named_transcript(p)->0))
    } else {
        match codex_dir(codex_home, home) {
            Some(dir) => Some(PlaceView::Tree(paths::under(dir, "sessions"@))),
            None => None,
        }
    }
}

/// The transcript that the payload names.
pub fn transcript_path(payload: &Json) -> (r: Option<String>)
    ensures
        match r {
            Some(path) => named_transcript(payload@) == Some(path@),
            None => named_transcript(payload@) is None,
        },
{
    match payload.str_at("transcript_path") {
        Some(path) => if path.is_empty() {
            None
        } else {
            Some(path.to_owned())
        },
        None => None,
    }
}

/// Where the transcript of the session is. `is_file` says whether the path that the payload
/// names is that of a file; the other arguments are what `$CODEX_HOME` and `$HOME` hold.
pub fn codex_rollout_path(
    payload: &Json,
    is_file: bool,
    codex_home: Option<&str>,
    home: Option<&str>,
) -> (r: Option<RolloutPlace>)
    ensures
        match r {
            Some(place) => rollout_place(
                payload@,
                is_file,
                text::ref_text(codex_home),
                text::ref_text(home),
            ) == Some(place@),
            None => rollout_place(
                payload@,
                is_file,
                text::ref_text(codex_home),
                text::ref_text(home),
            ) is None,
        },
{
    if is_file {
        if let Some(path) = transcript_path(payload) {
            return Some(RolloutPlace::File(path));
        }
    }
    proof {
        reveal_strlit(".codex");
        reveal_strlit("sessions");
    }
    if let Some(dir) = codex_home {
        if !dir.is_empty() {
            return Some(RolloutPlace::Tree(paths::join(dir, "sessions")));
        }
    }
    match home {
        Some(home) => Some(
            RolloutPlace::Tree(paths::join(paths::join(home, ".codex").as_str(), "sessions")),
        ),
        None => None,
    }
}

// ---- what the search finds ----

/// What the directories hold: the entries of the one at a place, `None` where it cannot be
/// listed.
pub type Listings = spec_fn(usize) -> Option<Seq<EntryView>>;

/// What a search comes to when the directories are listed as it asks.
pub open spec fn search_result(listings: Listings, st: SearchView) -> Option<usize>
    decreases st.budget,
{
    if is_over(st) {
        None
    } else {
        match listings(st.pending.last()) {
            Some(entries) => match transcript_in(entries, st.session_id) {
                Some(place) => Some(place),
                None => search_result(listings, spread(taken(st), entries)),
            },
            None => search_result(listings, taken(st)),
        }
    }
}

/// Depth first: the transcript in the directory itself, else the first one under its
/// directories, those with the greatest names first. With it, how many more directories may be
/// listed.
pub open spec fn found_under(
    listings: Listings,
    dir: usize,
    session_id: Seq<char>,
    budget: nat,
) -> (Option<usize>, nat)
    decreases budget, 0nat,
{
    if budget == 0 {
        (None, 0)
    } else {
        let left = (budget - 1) as nat;
        match listings(dir) {
            Some(entries) => match transcript_in(entries, session_id) {
                Some(place) => (Some(place), left),
                None => found_among(listings, places(subdirs(entries)), session_id, left),
            },
            None => (None, left),
        }
    }
}

/// The first transcript under the given directories, the last of them first.
pub open spec fn found_among(
    listings: Listings,
    dirs: Seq<usize>,
    session_id: Seq<char>,
    budget: nat,
) -> (Option<usize>, nat)
    decreases budget, dirs.len() + 1,
{
    if dirs.len() == 0 {
        (None, budget)
    } else {
        let (hit, left) = found_under(listings, dirs.last(), session_id, budget);
        if hit is Some || left > budget {
            (hit, left)
        } else {
            found_among(listings, dirs.drop_last(), session_id, left)
        }
    }
}

proof fn lemma_budget_shrinks(listings: Listings, dirs: Seq<usize>, session_id: Seq<char>, budget: nat)
    ensures
        found_among(listings, dirs, session_id, budget).1 <= budget,
        forall|dir: usize| (#[trigger] found_under(listings, dir, session_id, budget)).1 <= budget,
        budget == 0 ==> found_among(listings, dirs, session_id, budget).0 is None,
    decreases budget, dirs.len(),
{
    assert forall|dir: usize| (#[trigger] found_under(listings, dir, session_id, budget)).1
        <= budget by {
        if budget > 0 {
            if let Some(entries) = listings(dir) {
                lemma_budget_shrinks(
                    listings,
                    places(subdirs(entries)),
                    session_id,
                    (budget - 1) as nat,
                );
            }
        }
    }
    if dirs.len() > 0 {
        let (hit, left) = found_under(listings, dirs.last(), session_id, budget);
        if hit is None {
            lemma_budget_shrinks(listings, dirs.drop_last(), session_id, left);
        }
    }
}

proof fn lemma_found_among_both(
    listings: Listings,
    base: Seq<usize>,
    dirs: Seq<usize>,
    session_id: Seq<char>,
    budget: nat,
)
    ensures
        found_among(listings, base + dirs, session_id, budget) == ({
            let (hit, left) = found_among(listings, dirs, session_id, budget);
            if hit is Some {
                (hit, left)
            } else {
                found_among(listings, base, session_id, left)
            }
        }),
    decreases dirs.len(),
{
    if dirs.len() == 0 {
        assert(base + dirs =~= base);
    } else {
        assert((base + dirs).drop_last() =~= base + dirs.drop_last());
        lemma_budget_shrinks(listings, dirs, session_id, budget);
        let (hit, left) = found_under(listings, dirs.last(), session_id, budget);
        if hit is None {
            lemma_found_among_both(listings, base, dirs.drop_last(), session_id, left);
        }
    }
}

proof fn lemma_search_goes_depth_first(listings: Listings, st: SearchView)
    ensures
        search_result(listings, st) == found_among(
            listings,
            st.pending,
            st.session_id,
            st.budget,
        ).0,
    decreases st.budget,
{
    reveal_with_fuel(found_under, 2);
    reveal_with_fuel(found_among, 2);
    lemma_budget_shrinks(listings, st.pending, st.session_id, st.budget);
    if !is_over(st) {
        let next = taken(st);
        match listings(st.pending.last()) {
            Some(entries) => {
                if transcript_in(entries, st.session_id) is None {
                    lemma_search_goes_depth_first(listings, spread(next, entries));
                    lemma_found_among_both(
                        listings,
                        next.pending,
                        places(subdirs(entries)),
                        st.session_id,
                        next.budget,
                    );
                }
            },
            None => {
                lemma_search_goes_depth_first(listings, next);
            },
        }
    }
}

/// A search that is answered with the entries of the directories that it asks for finds what
/// going through them depth first finds, the greatest names first.
pub proof fn search_goes_depth_first(listings: Listings, session_id: Seq<char>, root: usize)
    ensures
        search_result(listings, search_start(session_id, root)) == found_under(
            listings,
            root,
            session_id,
            ROLLOUT_MAX_DIRS_SCANNED as nat,
        ).0,
{
    reveal_with_fuel(found_among, 2);
    let budget = ROLLOUT_MAX_DIRS_SCANNED as nat;
    lemma_search_goes_depth_first(listings, search_start(session_id, root));
    lemma_budget_shrinks(listings, seq![root], session_id, budget);
    let (hit, left) = found_under(listings, root, session_id, budget);
    assert(seq![root].drop_last() =~= Seq::<usize>::empty());
    assert(seq![root].last() == root);
}

/// Whether the entries are in the order of their names.
pub open spec fn by_name(entries: Seq<EntryView>) -> bool {
    forall|i: int, j: int|
        0 <= i < j < entries.len() ==> !text::precedes(
            (#[trigger] entries[j]).name,
            (#[trigger] entries[i]).name,
        )
}

proof fn lemma_placed(dirs: Seq<EntryView>, e: EntryView)
    requires
        by_name(dirs),
    ensures
        by_name(placed(dirs, e)),
        forall|x: EntryView| #[trigger]
            placed(dirs, e).contains(x) <==> dirs.contains(x) || x == e,
    decreases dirs.len(),
{
    let all = placed(dirs, e);
    if dirs.len() > 0 && text::precedes(e.name, dirs.last().name) {
        let rest = dirs.drop_last();
        let some = placed(rest, e);
        assert(by_name(rest)) by {
            assert forall|i: int, j: int| 0 <= i < j < rest.len() implies !text::precedes(
                (#[trigger] rest[j]).name,
                (#[trigger] rest[i]).name,
            ) by {
                assert(rest[i] == dirs[i] && rest[j] == dirs[j]);
            }
        }
        lemma_placed(rest, e);
        assert forall|x: EntryView| #[trigger] all.contains(x) <==> dirs.contains(x) || x == e by {
            if all.contains(x) {
                let k = choose|k: int| 0 <= k < all.len() && all[k] == x;
                if k < some.len() {
                    assert(some[k] == x);
                    assert(some.contains(x));
                    if rest.contains(x) {
                        let m = choose|m: int| 0 <= m < rest.len() && rest[m] == x;
                        assert(dirs[m] == x);
                    }
                } else {
                    assert(dirs[dirs.len() - 1] == x);
                }
            }
            if dirs.contains(x) {
                let k = choose|k: int| 0 <= k < dirs.len() && dirs[k] == x;
                if k < rest.len() {
                    assert(rest[k] == x);
                    assert(some.contains(x));
                    let m = choose|m: int| 0 <= m < some.len() && some[m] == x;
                    assert(all[m] == x);
                } else {
                    assert(all[all.len() - 1] == x);
                }
            }
            if x == e {
                assert(some.contains(e));
                let m = choose|m: int| 0 <= m < some.len() && some[m] == e;
                assert(all[m] == e);
            }
        }
        assert forall|i: int, j: int| 0 <= i < j < all.len() implies !text::precedes(
            (#[trigger] all[j]).name,
            (#[trigger] all[i]).name,
        ) by {
            if j < some.len() {
                assert(all[i] == some[i] && all[j] == some[j]);
            } else {
                assert(all[j] == dirs.last());
                assert(some.contains(some[i]));
                if rest.contains(some[i]) {
                    let m = choose|m: int| 0 <= m < rest.len() && rest[m] == some[i];
                    assert(dirs[m] == some[i]);
                    assert(dirs[dirs.len() - 1] == dirs.last());
                } else if text::precedes(dirs.last().name, e.name) {
                    text::precedes_is_transitive(e.name, dirs.last().name, e.name);
                    text::precedes_is_irreflexive(e.name);
                }
            }
        }
    } else {
        assert forall|i: int, j: int| 0 <= i < j < all.len() implies !text::precedes(
            (#[trigger] all[j]).name,
            (#[trigger] all[i]).name,
        ) by {
            assert(all[i] == dirs[i]);
            if j < dirs.len() {
                assert(all[j] == dirs[j]);
            } else if text::precedes(e.name, dirs[i].name) {
                let last = dirs[dirs.len() - 1];
                if i < dirs.len() - 1 {
                    text::precedes_is_total(last.name, dirs[i].name);
                    if dirs[i].name != last.name {
                        text::precedes_is_transitive(e.name, dirs[i].name, last.name);
                    }
                }
            }
        }
        assert forall|x: EntryView| #[trigger] all.contains(x) <==> dirs.contains(x) || x == e by {
            if all.contains(x) {
                let k = choose|k: int| 0 <= k < all.len() && all[k] == x;
                if k < dirs.len() {
                    assert(dirs[k] == x);
                }
            }
            if dirs.contains(x) {
                let k = choose|k: int| 0 <= k < dirs.len() && dirs[k] == x;
                assert(all[k] == x);
            }
            assert(all[dirs.len() as int] == e);
        }
    }
}

/// The directories that a search goes on with are those among the entries, in the order of
/// their names.
pub proof fn subdirs_are_in_order(entries: Seq<EntryView>)
    ensures
        by_name(subdirs(entries)),
        forall|e: EntryView| #[trigger]
            subdirs(entries).contains(e) <==> entries.contains(e) && e.is_dir,
    decreases entries.len(),
{
    if entries.len() > 0 {
        let rest = entries.drop_last();
        subdirs_are_in_order(rest);
        lemma_placed(subdirs(rest), entries.last());
        assert forall|e: EntryView| #[trigger]
            subdirs(entries).contains(e) <==> entries.contains(e) && e.is_dir by {
            assert(subdirs(rest).contains(e) <==> rest.contains(e) && e.is_dir);
            assert(placed(subdirs(rest), entries.last()).contains(e) <==> subdirs(rest).contains(e)
                || e == entries.last());
            if entries.contains(e) {
                let k = choose|k: int| 0 <= k < entries.len() && entries[k] == e;
                if k < rest.len() {
                    assert(rest[k] == e);
                }
            }
            if rest.contains(e) {
                let k = choose|k: int| 0 <= k < rest.len() && rest[k] == e;
                assert(entries[k] == e);
            }
            assert(entries[entries.len() - 1] == entries.last());
        }
    }
}

/// Whether a directory is one of the entries of another.
pub open spec fn is_child(listings: Listings, parent: usize, dir: usize) -> bool {
    listings(parent) is Some && exists|i: int|
        0 <= i < listings(parent)->0.len() && (#[trigger] listings(parent)->0[i]).is_dir
            && listings(parent)->0[i].place == dir
}

/// Whether every directory of a path is an entry of the one before it.
pub open spec fn is_path(listings: Listings, path: Seq<usize>) -> bool {
    forall|i: int| 0 < i < path.len() ==> is_child(listings, path[i - 1], #[trigger] path[i])
}

/// Whether a directory is the root or anywhere below it.
pub open spec fn is_under(listings: Listings, root: usize, dir: usize) -> bool {
    exists|path: Seq<usize>| #[trigger]
        is_path(listings, path) && path.len() > 0 && path[0] == root && path.last() == dir
}

/// Whether `place` is a transcript of the session in the root or anywhere below it.
pub open spec fn is_transcript_under(
    listings: Listings,
    root: usize,
    session_id: Seq<char>,
    place: usize,
) -> bool {
    exists|dir: usize, i: int|
        #![trigger listings(dir)->0[i]]
        is_under(listings, root, dir) && listings(dir) is Some && 0 <= i < listings(dir)->0.len()
            && is_transcript(listings(dir)->0[i], session_id) && listings(dir)->0[i].place == place
}

proof fn lemma_transcript_in(entries: Seq<EntryView>, session_id: Seq<char>) -> (i: int)
    requires
        transcript_in(entries, session_id) is Some,
    ensures
        0 <= i < entries.len(),
        is_transcript(entries[i], session_id),
        entries[i].place == transcript_in(entries, session_id)->0,
    decreases entries.len(),
{
    if is_transcript(entries[0], session_id) {
        0
    } else {
        lemma_transcript_in(entries.drop_first(), session_id) + 1
    }
}

proof fn lemma_child_is_under(listings: Listings, root: usize, parent: usize, dir: usize)
    requires
        is_under(listings, root, parent),
        is_child(listings, parent, dir),
    ensures
        is_under(listings, root, dir),
{
    let path = choose|path: Seq<usize>| #[trigger]
        is_path(listings, path) && path.len() > 0 && path[0] == root && path.last() == parent;
    let longer = path.push(dir);
    assert forall|i: int| 0 < i < longer.len() implies is_child(
        listings,
        longer[i - 1],
        #[trigger] longer[i],
    ) by {
        assert(longer[i - 1] == path[i - 1]);
        if i < path.len() {
            assert(longer[i] == path[i]);
        }
    }
    assert(is_path(listings, longer));
}

/// Whether all directories that a search has yet to list are the root or below it.
pub open spec fn stays_under(listings: Listings, root: usize, st: SearchView) -> bool {
    forall|i: int| 0 <= i < st.pending.len() ==> is_under(listings, root, #[trigger] st.pending[i])
}

proof fn lemma_spread_stays_under(
    listings: Listings,
    root: usize,
    st: SearchView,
    dir: usize,
    entries: Seq<EntryView>,
)
    requires
        stays_under(listings, root, st),
        is_under(listings, root, dir),
        listings(dir) == Some(entries),
    ensures
        stays_under(listings, root, spread(st, entries)),
{
    let more = subdirs(entries);
    let next = spread(st, entries);
    subdirs_are_in_order(entries);
    assert forall|i: int| 0 <= i < next.pending.len() implies is_under(
        listings,
        root,
        #[trigger] next.pending[i],
    ) by {
        if i < st.pending.len() {
            assert(next.pending[i] == st.pending[i]);
        } else {
            let k = i - st.pending.len();
            assert(next.pending[i] == more[k].place);
            assert(more.contains(more[k]));
            let m = choose|m: int| 0 <= m < entries.len() && entries[m] == more[k];
            assert(listings(dir)->0[m].is_dir);
            lemma_child_is_under(listings, root, dir, more[k].place);
        }
    }
}

proof fn lemma_search_finds(listings: Listings, root: usize, st: SearchView)
    requires
        stays_under(listings, root, st),
    ensures
        match search_result(listings, st) {
            Some(place) => is_transcript_under(listings, root, st.session_id, place),
            None => true,
        },
    decreases st.budget,
{
    if !is_over(st) {
        let dir = st.pending.last();
        assert(st.pending[st.pending.len() - 1] == dir);
        let next = taken(st);
        assert forall|i: int| 0 <= i < next.pending.len() implies is_under(
            listings,
            root,
            #[trigger] next.pending[i],
        ) by {
            assert(next.pending[i] == st.pending[i]);
        }
        match listings(dir) {
            Some(entries) => {
                if transcript_in(entries, st.session_id) is Some {
                    let i = lemma_transcript_in(entries, st.session_id);
                    assert(listings(dir)->0[i] == entries[i]);
                } else {
                    lemma_spread_stays_under(listings, root, next, dir, entries);
                    lemma_search_finds(listings, root, spread(next, entries));
                }
            },
            None => {
                lemma_search_finds(listings, root, next);
            },
        }
    }
}

/// What a search finds is a transcript of the session, in the directory that it began with or
/// anywhere below it.
pub proof fn search_finds_a_transcript(listings: Listings, session_id: Seq<char>, root: usize)
    ensures
        match search_result(listings, search_start(session_id, root)) {
            Some(place) => is_transcript_under(listings, root, session_id, place),
            None => true,
        },
{
    assert(is_path(listings, seq![root]));
    lemma_search_finds(listings, root, search_start(session_id, root));
}

// ---- what a listing gives ----

/// The transcript in a directory is the first of its files whose name ends in `.jsonl` and has
/// the name of the session in it, and there is none exactly where there is no such file.
pub proof fn first_matching_file_is_the_transcript(entries: Seq<EntryView>, session_id: Seq<char>)
    ensures
        transcript_in(entries, session_id) is None <==> forall|i: int|
            0 <= i < entries.len() ==> (#[trigger] entries[i]).is_dir || !".jsonl"@.is_suffix_of(
                entries[i].name,
            ) || !text::occurs(session_id, entries[i].name),
        transcript_in(entries, session_id) is Some ==> exists|i: int|
            #![trigger entries[i]]
            {
                &&& 0 <= i < entries.len()
                &&& !entries[i].is_dir
                &&& ".jsonl"@.is_suffix_of(entries[i].name)
                &&& text::occurs(session_id, entries[i].name)
                &&& transcript_in(entries, session_id) == Some(entries[i].place)
                &&& forall|j: int|
                    0 <= j < i ==> (#[trigger] entries[j]).is_dir || !".jsonl"@.is_suffix_of(
                        entries[j].name,
                    ) || !text::occurs(session_id, entries[j].name)
            },
    decreases entries.len(),
{
    if entries.len() > 0 {
        let rest = entries.drop_first();
        first_matching_file_is_the_transcript(rest, session_id);
        if is_transcript(entries[0], session_id) {
            assert(transcript_in(entries, session_id) == Some(entries[0].place));
        } else if transcript_in(rest, session_id) is None {
            assert forall|i: int| 0 <= i < entries.len() implies (#[trigger] entries[i]).is_dir
                || !".jsonl"@.is_suffix_of(entries[i].name) || !text::occurs(
                session_id,
                entries[i].name,
            ) by {
                if i > 0 {
                    assert(rest[i - 1] == entries[i]);
                }
            }
        } else {
            let k = choose|i: int|
                #![trigger rest[i]]
                {
                    &&& 0 <= i < rest.len()
                    &&& !rest[i].is_dir
                    &&& ".jsonl"@.is_suffix_of(rest[i].name)
                    &&& text::occurs(session_id, rest[i].name)
                    &&& transcript_in(rest, session_id) == Some(rest[i].place)
                    &&& forall|j: int|
                        0 <= j < i ==> (#[trigger] rest[j]).is_dir || !".jsonl"@.is_suffix_of(
                            rest[j].name,
                        ) || !text::occurs(session_id, rest[j].name)
                };
            assert(entries[k + 1] == rest[k]);
            assert forall|j: int| 0 <= j < k + 1 implies (#[trigger] entries[j]).is_dir
                || !".jsonl"@.is_suffix_of(entries[j].name) || !text::occurs(
                session_id,
                entries[j].name,
            ) by {
                if j > 0 {
                    assert(rest[j - 1] == entries[j]);
                }
            }
        }
    }
}

proof fn lemma_placed_once(dirs: Seq<EntryView>, e: EntryView)
    ensures
        placed(dirs, e).to_multiset() == dirs.to_multiset().insert(e),
    decreases dirs.len(),
{
    broadcast use vstd::seq_lib::group_to_multiset_ensures;

    if dirs.len() > 0 && text::precedes(e.name, dirs.last().name) {
        let rest = dirs.drop_last();
        lemma_placed_once(rest, e);
        assert(rest.push(dirs.last()) =~= dirs);
        assert(placed(dirs, e).to_multiset() =~= dirs.to_multiset().insert(e));
    }
}

/// Every directory among the entries is kept, as often as it is there, and nothing else is.
pub proof fn no_directory_is_lost(entries: Seq<EntryView>)
    ensures
        subdirs(entries).to_multiset() == entries.filter(|e: EntryView| e.is_dir).to_multiset(),
        subdirs(entries).len() == entries.filter(|e: EntryView| e.is_dir).len(),
    decreases entries.len(),
{
    broadcast use vstd::seq_lib::group_to_multiset_ensures;

    reveal(Seq::filter);
    let is_dir = |e: EntryView| e.is_dir;
    if entries.len() > 0 {
        let rest = entries.drop_last();
        no_directory_is_lost(rest);
        lemma_placed_once(subdirs(rest), entries.last());
        assert(subdirs(entries).to_multiset() =~= entries.filter(is_dir).to_multiset());
    }
    assert(subdirs(entries).len() == subdirs(entries).to_multiset().len());
    assert(entries.filter(is_dir).len() == entries.filter(is_dir).to_multiset().len());
}

/// A search goes on with all directories that were listed, after those that it had yet to list:
/// the one with the greatest name is listed next.
pub proof fn greatest_name_is_listed_next(st: SearchView, entries: Seq<EntryView>)
    ensures
        ({
            let next = spread(st, entries);
            let dirs = entries.filter(|e: EntryView| e.is_dir);
            &&& next.session_id == st.session_id
            &&& next.budget == st.budget
            &&& next.pending.len() == st.pending.len() + dirs.len()
            &&& next.pending.take(st.pending.len() as int) == st.pending
            &&& forall|k: int|
                0 <= k < dirs.len() ==> next.pending[st.pending.len() + k] == (
                #[trigger] subdirs(entries)[k]).place
            &&& dirs.len() > 0 ==> exists|i: int|
                #![trigger entries[i]]
                {
                    &&& 0 <= i < entries.len()
                    &&& entries[i].is_dir
                    &&& next.pending.last() == entries[i].place
                    &&& forall|j: int|
                        0 <= j < entries.len() && (#[trigger] entries[j]).is_dir
                            ==> !text::precedes(entries[i].name, entries[j].name)
                }
        }),
{
    let next = spread(st, entries);
    let dirs = entries.filter(|e: EntryView| e.is_dir);
    let sorted = subdirs(entries);
    no_directory_is_lost(entries);
    subdirs_are_in_order(entries);
    assert(next.pending.take(st.pending.len() as int) =~= st.pending);
    if dirs.len() > 0 {
        let e = sorted.last();
        assert(sorted[sorted.len() - 1] == e);
        assert(sorted.contains(e));
        let i = choose|i: int| 0 <= i < entries.len() && entries[i] == e;
        assert(next.pending.last() == e.place);
        assert(entries[i] == e);
        assert forall|j: int| 0 <= j < entries.len() && (#[trigger] entries[j]).is_dir implies
            !text::precedes(entries[i].name, entries[j].name) by {
            assert(entries.contains(entries[j]));
            assert(sorted.contains(entries[j]));
            let k = choose|k: int| 0 <= k < sorted.len() && sorted[k] == entries[j];
            if k == sorted.len() - 1 {
                text::precedes_is_irreflexive(e.name);
            } else {
                assert(!text::precedes(sorted[sorted.len() - 1].name, sorted[k].name));
            }
        }
    }
}

/// A search begins with one directory and lists at most 4000; each that it takes counts, and it
/// is over where none is left to list or to count.
pub proof fn searches_are_limited(session_id: Seq<char>, root: usize, st: SearchView)
    ensures
        search_start(session_id, root).session_id == session_id,
        search_start(session_id, root).pending == seq![root],
        search_start(session_id, root).budget == 4000,
        is_over(st) <==> st.pending.len() == 0 || st.budget == 0,
        !is_over(st) ==> taken(st).budget + 1 == st.budget && taken(st).pending.push(
            st.pending.last(),
        ) == st.pending && taken(st).session_id == st.session_id,
{
    if !is_over(st) {
        assert(taken(st).pending.push(st.pending.last()) =~= st.pending);
    }
}

/// The transcript is the file that the payload names, where it names one and that is a file; else
/// it is under the sessions in the directory of Codex, which is the one that is set, else `.codex`
/// at home; and nowhere where there is no such directory.
pub proof fn transcripts_have_their_place(
    p: JsonView,
    is_file: bool,
    codex_home: Option<Seq<char>>,
    home: Option<Seq<char>>,
)
    ensures
        ({
            let told = p.str_at("transcript_path"@);
            let place = rollout_place(p, is_file, codex_home, home);
            if is_file && told is Some && told->0.len() > 0 {
                place == Some(PlaceView::File(told->0))
            } else if codex_home is Some && codex_home->0.len() > 0 {
                place == Some(PlaceView::Tree(paths::under(codex_home->0, "sessions"@)))
            } else if home is Some {
                place == Some(
                    PlaceView::Tree(
                        paths::under(paths::under(home->0, ".codex"@), "sessions"@),
                    ),
                )
            } else {
                place is None
            }
        }),
        named_transcript(p) == (if p.str_at("transcript_path"@) is Some && p.str_at(
            "transcript_path"@,
        )->0.len() > 0 {
            p.str_at("transcript_path"@)
        } else {
            None
        }),
{
}

/// Entries, searches and places are seen as they are.
pub proof fn searches_are_seen_as_they_are(
    entries: Seq<DirEntry>,
    i: int,
    search: RolloutSearch,
    path: String,
)
    requires
        0 <= i < entries.len(),
    ensures
        listing_view(entries).len() == entries.len(),
        listing_view(entries)[i] == entries[i]@,
        entries[i]@.place == entries[i].place,
        entries[i]@.name == entries[i].name@,
        entries[i]@.is_dir == entries[i].is_dir,
        search@.session_id == search.session_id@,
        search@.pending == search.pending@,
        search@.budget == search.budget,
        RolloutPlace::File(path)@ == PlaceView::File(path@),
        RolloutPlace::Tree(path)@ == PlaceView::Tree(path@),
{
}

} // verus!
