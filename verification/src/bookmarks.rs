//! Timestamped bookmarks per file.
//!
//! A bookmark's position is seconds as `f64`, held by its bits
//! (`f64::to_bits`); bookmarks of a file are kept in the order of
//! `f64::total_cmp` on their positions, which is the order of `total_key`.
use vstd::prelude::*;
use crate::keyed::KeyedVec;
use vstd::seq_lib::group_to_multiset_ensures;

verus! {

#[derive(Debug)]
pub struct Bookmark {
    pub id: u64,
    /// `f64::to_bits` of the position, in seconds.
    pub position: u64,
    pub label: String,
    /// Milliseconds since the Unix epoch.
    pub created: i64,
}

pub struct BookmarkView {
    pub id: u64,
    pub position: u64,
    pub label: Seq<char>,
    pub created: i64,
}

impl View for Bookmark {
    type V = BookmarkView;

    open spec fn view(&self) -> BookmarkView {
        BookmarkView { id: self.id, position: self.position, label: self.label@, created: self.created }
    }
}

/// The integer whose order is `f64::total_cmp`'s order on the float with these bits.
pub open spec fn total_key(bits: u64) -> i64 {
    let x = bits as i64;
    x ^ ((((x >> 63u64) as u64) >> 1u64) as i64)
}

pub fn total_order_key(bits: u64) -> (r: i64)
    ensures
        r == total_key(bits),
{
    let x = bits as i64;
    x ^ ((((x >> 63u64) as u64) >> 1u64) as i64)
}

impl Bookmark {
    /// A bookmark whose id is the time `id_ms` (milliseconds, as `u64`), made at
    /// time `created` (milliseconds).
    pub fn new_at(position: u64, label: String, id_ms: i64, created: i64) -> (b: Bookmark)
        ensures
            b@ == (BookmarkView { id: id_ms as u64, position, label: label@, created }),
    {
        Bookmark { id: id_ms as u64, position, label, created }
    }

    /// A bookmark made now: its id is the current time in milliseconds, and
    /// the clock is read a second time for its creation time.
    pub fn new(position: u64, label: String) -> (b: Bookmark)
        ensures
            b@.position == position,
            b@.label == label@,
            b@.created >= 0,
            b@.id <= i64::MAX,
    {
        let id_ms = crate::clock::now_millis();
        let created = crate::clock::now_millis();
        Bookmark::new_at(position, label, id_ms, created)
    }

    pub fn copy(&self) -> (r: Bookmark)
        ensures
            r@ == self@,
    {
        Bookmark { id: self.id, position: self.position, label: self.label.clone(), created: self.created }
    }
}

/// The bookmarks of one file.
pub struct BookmarkList(pub Vec<Bookmark>);

impl View for BookmarkList {
    type V = Seq<BookmarkView>;

    open spec fn view(&self) -> Seq<BookmarkView> {
        self.0@.map_values(|b: Bookmark| b@)
    }
}

/// The first index from `j` on whose key is greater than `k` (or the length).
pub open spec fn first_greater(s: Seq<BookmarkView>, k: i64, j: int) -> int
    decreases s.len() - j,
{
    if j < 0 || j >= s.len() {
        s.len() as int
    } else if total_key(s[j].position) > k {
        j
    } else {
        first_greater(s, k, j + 1)
    }
}

/// Inserting into a list sorted by key: after every bookmark that does not come later.
pub open spec fn insert_sorted(s: Seq<BookmarkView>, b: BookmarkView) -> Seq<BookmarkView> {
    s.insert(first_greater(s, total_key(b.position), 0), b)
}

/// A stable sort by key (as `sort_by` with `total_cmp` on the positions does).
pub open spec fn sorted_by_position(s: Seq<BookmarkView>) -> Seq<BookmarkView>
    decreases s.len(),
{
    if s.len() == 0 {
        s
    } else {
        insert_sorted(sorted_by_position(s.drop_last()), s.last())
    }
}

/// The list without the bookmarks with this id.
pub open spec fn without_id(s: Seq<BookmarkView>, id: u64) -> Seq<BookmarkView>
    decreases s.len(),
{
    if s.len() == 0 {
        s
    } else {
        let r = without_id(s.drop_last(), id);
        if s.last().id == id {
            r
        } else {
            r.push(s.last())
        }
    }
}

/// The first index from `j` on that holds the id (or the length).
pub open spec fn first_with_id(s: Seq<BookmarkView>, id: u64, j: int) -> int
    decreases s.len() - j,
{
    if j < 0 || j >= s.len() {
        s.len() as int
    } else if s[j].id == id {
        j
    } else {
        first_with_id(s, id, j + 1)
    }
}

/// The list with the first bookmark with this id relabelled.
pub open spec fn relabelled(s: Seq<BookmarkView>, id: u64, label: Seq<char>) -> Seq<BookmarkView> {
    let i = first_with_id(s, id, 0);
    if 0 <= i < s.len() {
        s.update(i, BookmarkView { label, ..s[i] })
    } else {
        s
    }
}

proof fn lemma_first_greater_bounds(s: Seq<BookmarkView>, k: i64, j: int)
    requires
        0 <= j <= s.len(),
    ensures
        j <= first_greater(s, k, j) <= s.len(),
    decreases s.len() - j,
{
    if j < s.len() && total_key(s[j].position) <= k {
        lemma_first_greater_bounds(s, k, j + 1);
    }
}

proof fn lemma_first_with_id_bounds(s: Seq<BookmarkView>, id: u64, j: int)
    requires
        0 <= j <= s.len(),
    ensures
        j <= first_with_id(s, id, j) <= s.len(),
    decreases s.len() - j,
{
    if j < s.len() && s[j].id != id {
        lemma_first_with_id_bounds(s, id, j + 1);
    }
}

fn insert_in_order(list: &mut Vec<Bookmark>, b: Bookmark)
    ensures
        final(list)@.map_values(|x: Bookmark| x@) == insert_sorted(old(list)@.map_values(|x: Bookmark| x@), b@),
{
    let ghost s = list@.map_values(|x: Bookmark| x@);
    let k = total_order_key(b.position);
    let mut i: usize = 0;
    while i < list.len() && total_order_key(list[i].position) <= k
        invariant
            i <= list.len(),
            s == list@.map_values(|x: Bookmark| x@),
            first_greater(s, k, i as int) == first_greater(s, k, 0),
        decreases list.len() - i,
    {
        i = i + 1;
    }
    let ghost bv = b@;
    list.insert(i, b);
    proof {
        assert(list@.map_values(|x: Bookmark| x@) =~= s.insert(i as int, bv));
    }
}

impl BookmarkList {
    pub fn new() -> (r: BookmarkList)
        ensures
            r@ == Seq::<BookmarkView>::empty(),
    {
        let r = BookmarkList(Vec::new());
        assert(r@ =~= Seq::<BookmarkView>::empty());
        r
    }

    /// Adds a bookmark and sorts the list by position (stably).
    pub fn add(&mut self, b: Bookmark)
        ensures
            final(self)@ == sorted_by_position(old(self)@.push(b@)),
    {
        let mut items: Vec<Bookmark> = Vec::new();
        std::mem::swap(&mut items, &mut self.0);
        let ghost all = old(self)@.push(b@);
        items.push(b);
        proof {
            assert(items@.map_values(|x: Bookmark| x@) =~= all);
        }
        let mut sorted: Vec<Bookmark> = Vec::new();
        let mut i: usize = 0;
        while i < items.len()
            invariant
                i <= items.len(),
                items@.map_values(|x: Bookmark| x@) == all,
                sorted@.map_values(|x: Bookmark| x@) == sorted_by_position(all.take(i as int)),
            decreases items.len() - i,
        {
            insert_in_order(&mut sorted, items[i].copy());
            proof {
                assert(all.take(i + 1).drop_last() =~= all.take(i as int));
                assert(all.take(i + 1).last() == all[i as int]);
            }
            i = i + 1;
        }
        proof {
            assert(all.take(items.len() as int) =~= all);
        }
        self.0 = sorted;
    }

    /// Removes the bookmarks with this id.
    pub fn remove_id(&mut self, id: u64)
        ensures
            final(self)@ == without_id(old(self)@, id),
    {
        let ghost s = self@;
        let mut out: Vec<Bookmark> = Vec::new();
        let mut i: usize = 0;
        while i < self.0.len()
            invariant
                i <= self.0.len(),
                s == self@,
                out@.map_values(|x: Bookmark| x@) == without_id(s.take(i as int), id),
            decreases self.0.len() - i,
        {
            let ghost before = out@;
            if self.0[i].id != id {
                out.push(self.0[i].copy());
                assert(out@.map_values(|x: Bookmark| x@) =~= before.map_values(|x: Bookmark| x@).push(
                    s[i as int],
                ));
            }
            proof {
                assert(s.take(i + 1).drop_last() =~= s.take(i as int));
                assert(s.take(i + 1).last() == s[i as int]);
            }
            i = i + 1;
        }
        proof {
            assert(s.take(self.0.len() as int) =~= s);
        }
        self.0 = out;
    }

    /// Relabels the first bookmark with this id.
    pub fn relabel(&mut self, id: u64, label: String)
        ensures
            final(self)@ == relabelled(old(self)@, id, label@),
    {
        let ghost s = self@;
        let mut i: usize = 0;
        while i < self.0.len() && self.0[i].id != id
            invariant
                i <= self.0.len(),
                s == self@,
                first_with_id(s, id, i as int) == first_with_id(s, id, 0),
            decreases self.0.len() - i,
        {
            i = i + 1;
        }
        if i < self.0.len() {
            let mut items: Vec<Bookmark> = Vec::new();
            std::mem::swap(&mut items, &mut self.0);
            let mut b = items.remove(i);
            b.label = label;
            let ghost bv = b@;
            items.insert(i, b);
            proof {
                assert(items@.map_values(|x: Bookmark| x@) =~= s.update(i as int, bv));
            }
            self.0 = items;
        }
    }
}

/// Bookmarks by file (the path as text).
pub struct BookmarkStore {
    map: KeyedVec<BookmarkList>,
}

impl View for BookmarkStore {
    type V = Map<Seq<char>, Seq<BookmarkView>>;

    closed spec fn view(&self) -> Map<Seq<char>, Seq<BookmarkView>> {
        self.map@
    }
}

/// The bookmarks of a file (none when it has no entry).
pub open spec fn bookmarks_of(m: Map<Seq<char>, Seq<BookmarkView>>, file: Seq<char>) -> Seq<BookmarkView> {
    if m.contains_key(file) {
        m[file]
    } else {
        Seq::empty()
    }
}

impl BookmarkStore {
    pub fn new() -> (s: BookmarkStore)
        ensures
            s@ == Map::<Seq<char>, Seq<BookmarkView>>::empty(),
    {
        BookmarkStore { map: KeyedVec::new() }
    }

    /// Adds a bookmark to a file; its list stays sorted by position.
    pub fn add(&mut self, file: &str, bookmark: Bookmark)
        ensures
            final(self)@ == old(self)@.insert(file@, sorted_by_position(bookmarks_of(old(self)@, file@).push(bookmark@))),
    {
        let mut list = match self.map.take(file) {
            Some(l) => l,
            None => BookmarkList::new(),
        };
        assert(list@ == bookmarks_of(old(self)@, file@));
        let ghost mid = self@;
        list.add(bookmark);
        self.map.set(String::from_str(file), list);
        proof {
            assert(self@ =~= old(self)@.insert(file@, sorted_by_position(bookmarks_of(old(self)@, file@).push(bookmark@))));
        }
    }

    /// Removes the bookmark with this id from a file.
    pub fn remove(&mut self, file: &str, id: u64)
        ensures
            old(self)@.contains_key(file@) ==> final(self)@ == old(self)@.insert(file@, without_id(old(self)@[file@], id)),
            !old(self)@.contains_key(file@) ==> final(self)@ == old(self)@,
    {
        match self.map.take(file) {
            Some(mut list) => {
                list.remove_id(id);
                self.map.set(String::from_str(file), list);
                proof {
                    assert(self@ =~= old(self)@.insert(file@, without_id(old(self)@[file@], id)));
                }
            },
            None => {
                proof {
                    assert(self@ =~= old(self)@);
                }
            },
        }
    }

    /// The bookmarks of a file, by position.
    pub fn get(&self, file: &str) -> (r: &[Bookmark])
        ensures
            r@.map_values(|b: Bookmark| b@) == bookmarks_of(self@, file@),
    {
        match self.map.get(file) {
            Some(l) => l.0.as_slice(),
            None => {
                let e: &[Bookmark] = &[];
                assert(e@.map_values(|b: Bookmark| b@) =~= Seq::<BookmarkView>::empty());
                e
            },
        }
    }

    /// Relabels the bookmark with this id in a file.
    pub fn update_label(&mut self, file: &str, id: u64, label: String)
        ensures
            old(self)@.contains_key(file@) ==> final(self)@ == old(self)@.insert(
                file@,
                relabelled(old(self)@[file@], id, label@),
            ),
            !old(self)@.contains_key(file@) ==> final(self)@ == old(self)@,
    {
        match self.map.take(file) {
            Some(mut list) => {
                list.relabel(id, label);
                self.map.set(String::from_str(file), list);
                proof {
                    assert(self@ =~= old(self)@.insert(file@, relabelled(old(self)@[file@], id, label@)));
                }
            },
            None => {
                proof {
                    assert(self@ =~= old(self)@);
                }
            },
        }
    }

    /// The files and their bookmarks, as stored.
    pub fn files(&self) -> (r: &KeyedVec<BookmarkList>)
        ensures
            r@ == self@,
    {
        &self.map
    }

    /// A store made of stored lists.
    pub fn from_files(map: KeyedVec<BookmarkList>) -> (s: BookmarkStore)
        ensures
            s@ == map@,
    {
        BookmarkStore { map }
    }
}

impl Default for BookmarkStore {
    fn default() -> (s: BookmarkStore)
        ensures
            s@ == Map::<Seq<char>, Seq<BookmarkView>>::empty(),
    {
        BookmarkStore::new()
    }
}

/// Every bookmark comes no later than those after it (by `total_key` of the positions).
pub open spec fn sorted_by_key(s: Seq<BookmarkView>) -> bool {
    forall|i: int, j: int| 0 <= i <= j < s.len() ==> total_key(#[trigger] s[i].position) <= total_key(#[trigger] s[j].position)
}

proof fn lemma_first_greater(s: Seq<BookmarkView>, k: i64, j: int)
    requires
        0 <= j <= s.len(),
    ensures
        j <= first_greater(s, k, j) <= s.len(),
        forall|i: int| j <= i < first_greater(s, k, j) ==> total_key(#[trigger] s[i].position) <= k,
        first_greater(s, k, j) < s.len() ==> total_key(s[first_greater(s, k, j)].position) > k,
    decreases s.len() - j,
{
    if j < s.len() && total_key(s[j].position) <= k {
        lemma_first_greater(s, k, j + 1);
    }
}

proof fn lemma_insert_sorted(s: Seq<BookmarkView>, b: BookmarkView)
    ensures
        sorted_by_key(s) ==> sorted_by_key(insert_sorted(s, b)),
        insert_sorted(s, b).to_multiset() =~= s.to_multiset().insert(b),
        insert_sorted(s, b).len() == s.len() + 1,
{
    broadcast use group_to_multiset_ensures;
    let k = total_key(b.position);
    lemma_first_greater(s, k, 0);
    let i = first_greater(s, k, 0);
    let t = s.insert(i, b);
    assert(t.remove(i) =~= s);
    assert(t[i] == b);
    assert(t.contains(b));
    if sorted_by_key(s) {
        assert forall|x: int, y: int| 0 <= x <= y < t.len() implies total_key(#[trigger] t[x].position) <= total_key(
            #[trigger] t[y].position,
        ) by {
            if y < i {
                assert(t[x] == s[x] && t[y] == s[y]);
            } else if y == i {
                if x < i {
                    assert(t[x] == s[x]);
                }
            } else if x < i {
                assert(t[x] == s[x] && t[y] == s[y - 1]);
            } else if x == i {
                assert(t[y] == s[y - 1]);
                assert(total_key(s[i].position) <= total_key(s[y - 1].position));
            } else {
                assert(t[x] == s[x - 1] && t[y] == s[y - 1]);
            }
        }
    }
}

/// However bookmarks were added, the list is ordered by position and holds
/// each of them exactly as often as they were added.
pub proof fn sorting_keeps_every_bookmark_in_order(s: Seq<BookmarkView>)
    ensures
        sorted_by_key(sorted_by_position(s)),
        sorted_by_position(s).to_multiset() =~= s.to_multiset(),
        sorted_by_position(s).len() == s.len(),
    decreases s.len(),
{
    broadcast use group_to_multiset_ensures;
    if s.len() > 0 {
        let d = s.drop_last();
        sorting_keeps_every_bookmark_in_order(d);
        lemma_insert_sorted(sorted_by_position(d), s.last());
        assert(d.push(s.last()) =~= s);
    }
}

/// Adding a bookmark to a file keeps its list ordered by position, with the
/// new bookmark in it and every earlier one still there.
pub proof fn added_bookmark_is_kept_in_order(m: Map<Seq<char>, Seq<BookmarkView>>, file: Seq<char>, b: BookmarkView)
    ensures
        ({
            let after = m.insert(file, sorted_by_position(bookmarks_of(m, file).push(b)));
            &&& sorted_by_key(bookmarks_of(after, file))
            &&& bookmarks_of(after, file).to_multiset() =~= bookmarks_of(m, file).to_multiset().insert(b)
            &&& bookmarks_of(after, file).len() == bookmarks_of(m, file).len() + 1
        }),
{
    broadcast use group_to_multiset_ensures;
    sorting_keeps_every_bookmark_in_order(bookmarks_of(m, file).push(b));
}

/// Removing by id leaves no bookmark with that id and keeps all the others, in order.
pub proof fn removed_id_is_gone(s: Seq<BookmarkView>, id: u64)
    ensures
        forall|i: int| 0 <= i < without_id(s, id).len() ==> #[trigger] without_id(s, id)[i].id != id,
        forall|x: BookmarkView| s.contains(x) && x.id != id ==> #[trigger] without_id(s, id).contains(x),
        without_id(s, id).len() <= s.len(),
    decreases s.len(),
{
    if s.len() > 0 {
        let d = s.drop_last();
        removed_id_is_gone(d, id);
        let r = without_id(d, id);
        assert forall|x: BookmarkView| s.contains(x) && x.id != id implies #[trigger] without_id(s, id).contains(x) by {
            let j = choose|j: int| 0 <= j < s.len() && s[j] == x;
            if j < d.len() {
                assert(d[j] == x);
                assert(d.contains(x));
                assert(without_id(d, id).contains(x));
                let k = choose|k: int| 0 <= k < r.len() && r[k] == x;
                if s.last().id != id {
                    assert(r.push(s.last())[k] == x);
                }
            } else {
                assert(r.push(s.last())[r.len() as int] == x);
            }
        }
        if s.last().id != id {
            assert forall|i: int| 0 <= i < without_id(s, id).len() implies #[trigger] without_id(s, id)[i].id != id by {
                if i < r.len() {
                    assert(without_id(s, id)[i] == r[i]);
                }
            }
        }
    }
}

proof fn lemma_first_with_id(s: Seq<BookmarkView>, id: u64, j: int)
    requires
        0 <= j <= s.len(),
    ensures
        j <= first_with_id(s, id, j) <= s.len(),
        forall|m: int| j <= m < first_with_id(s, id, j) ==> s[m].id != id,
        first_with_id(s, id, j) < s.len() ==> s[first_with_id(s, id, j)].id == id,
    decreases s.len() - j,
{
    if j < s.len() && s[j].id != id {
        lemma_first_with_id(s, id, j + 1);
    }
}

/// Index `k` holds the first bookmark with this id.
pub open spec fn first_holding(s: Seq<BookmarkView>, id: u64, k: int) -> bool {
    &&& 0 <= k < s.len()
    &&& s[k].id == id
    &&& forall|j: int| 0 <= j < k ==> s[j].id != id
}

/// Renaming bookmark `id` gives the first bookmark with that id the new label
/// (keeping its id, position and time) and leaves every other bookmark, and
/// the length, as they were.
pub proof fn relabel_renames_only_that_bookmark(s: Seq<BookmarkView>, id: u64, label: Seq<char>)
    ensures
        relabelled(s, id, label).len() == s.len(),
        forall|k: int|
            first_holding(s, id, k) ==> #[trigger] relabelled(s, id, label)[k] == (BookmarkView {
                id: s[k].id,
                position: s[k].position,
                label,
                created: s[k].created,
            }),
        forall|k: int|
            0 <= k < s.len() && !first_holding(s, id, k) ==> #[trigger] relabelled(s, id, label)[k] == s[k],
{
    lemma_first_with_id(s, id, 0);
    let i = first_with_id(s, id, 0);
    assert forall|k: int| first_holding(s, id, k) implies k == i by {
        if k < i {
            assert(s[k].id != id);
        } else if k > i {
            assert(s[i].id != id);
        }
    }
    assert forall|k: int| 0 <= k < s.len() && !first_holding(s, id, k) implies k != i by {
        if k == i {
            assert(first_holding(s, id, k));
        }
    }
}

} // verus!
