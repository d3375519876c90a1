use vstd::prelude::*;

use crate::error::DirError;
use crate::keys::{fresh_uuid, is_simple_uuid};
use crate::names::{copy_list, ids_of};
use crate::storage::SingleKvStorage;

verus! {

/// The ids of the content stored on one calendar day, the day given as a day
/// number (days from the start of the common era).
pub struct DayBucket {
    pub day: i32,
    pub ids: Vec<String>,
}

pub struct BucketView {
    pub day: int,
    pub ids: Seq<Seq<char>>,
}

impl View for DayBucket {
    type V = BucketView;

    open spec fn view(&self) -> BucketView {
        BucketView { day: self.day as int, ids: ids_of(self.ids@) }
    }
}

impl DayBucket {
    pub fn copy(&self) -> (r: DayBucket)
        ensures
            r@ == self@,
    {
        DayBucket { day: self.day, ids: copy_list(&self.ids) }
    }
}

/// What a content store holds: the bodies by id, the date index, the day of
/// the last expiry sweep, and the retention in days (0: content never expires).
pub struct ContentView {
    pub contents: Map<Seq<char>, Seq<char>>,
    pub index: Seq<BucketView>,
    pub last_check: Option<int>,
    pub expire: nat,
}

pub open spec fn has_bucket(b: Seq<BucketView>, day: int) -> bool {
    exists|i: int| 0 <= i < b.len() && b[i].day == day
}

/// The position of the first bucket of `day`.
pub open spec fn first_bucket(b: Seq<BucketView>, day: int) -> int {
    choose|i: int| 0 <= i < b.len() && b[i].day == day && forall|j: int| 0 <= j < i ==> b[j].day != day
}

/// The index after `id` was filed under `day`.
pub open spec fn indexed(b: Seq<BucketView>, day: int, id: Seq<char>) -> Seq<BucketView> {
    if has_bucket(b, day) {
        let i = first_bucket(b, day);
        b.update(i, BucketView { day, ids: b[i].ids.push(id) })
    } else {
        b.push(BucketView { day, ids: seq![id] })
    }
}

/// The store after `body` was added under `id` on `day`.
pub open spec fn added(m: ContentView, id: Seq<char>, day: int, body: Seq<char>) -> ContentView {
    ContentView { contents: m.contents.insert(id, body), index: indexed(m.index, day, id), ..m }
}

/// The ids listed in the buckets of days before `cutoff`.
pub open spec fn expired_ids(b: Seq<BucketView>, cutoff: int) -> Set<Seq<char>> {
    Set::new(|k: Seq<char>| exists|i: int| 0 <= i < b.len() && b[i].day < cutoff && #[trigger] b[i].ids.contains(k))
}

/// The buckets of days from `cutoff` on, in index order.
pub open spec fn kept_buckets(b: Seq<BucketView>, cutoff: int) -> Seq<BucketView> {
    b.filter(|bk: BucketView| bk.day >= cutoff)
}

/// Whether a sweep on `today` does anything: expiry is on and none ran yet
/// that day.
pub open spec fn sweep_due(m: ContentView, today: int) -> bool {
    m.expire != 0 && !(m.last_check matches Some(d) && d >= today)
}

/// The store after an expiry sweep on `today`: where one is due, every bucket
/// of a day before `today - expire` goes, and with it every content it lists.
pub open spec fn swept(m: ContentView, today: int) -> ContentView {
    if sweep_due(m, today) {
        let cutoff = today - m.expire;
        ContentView {
            contents: m.contents.remove_keys(expired_ids(m.index, cutoff)),
            index: kept_buckets(m.index, cutoff),
            last_check: Some(today),
            expire: m.expire,
        }
    } else {
        m
    }
}

/// The content store: bodies by id, with a date index for expiry.
pub struct ContentInterface {
    storage: SingleKvStorage<String>,
    storage_index: Vec<DayBucket>,
    last_expire_check: Option<i32>,
    content_expire: u32,
}

impl View for ContentInterface {
    type V = ContentView;

    closed spec fn view(&self) -> ContentView {
        ContentView {
            contents: self.storage@.map_values(|s: String| s@),
            index: self.storage_index@.map_values(|b: DayBucket| b@),
            last_check: match self.last_expire_check {
                Some(d) => Some(d as int),
                None => None,
            },
            expire: self.content_expire as nat,
        }
    }
}

impl ContentInterface {
    pub closed spec fn wf(&self) -> bool {
        self.storage.wf()
    }

    /// An empty store whose content expires after `content_expire` days (never,
    /// for 0).
    pub fn new(content_expire: u32) -> (r: ContentInterface)
        ensures
            r.wf(),
            r@.contents == Map::<Seq<char>, Seq<char>>::empty(),
            r@.index == Seq::<BucketView>::empty(),
            r@.last_check == None::<int>,
            r@.expire == content_expire,
    {
        let r = ContentInterface {
            storage: SingleKvStorage::new(),
            storage_index: Vec::new(),
            last_expire_check: None,
            content_expire,
        };
        assert(r@.contents =~= Map::<Seq<char>, Seq<char>>::empty());
        assert(r@.index =~= Seq::<BucketView>::empty());
        r
    }

    /// The date index, bucket by bucket.
    pub fn index_buckets(&self) -> (r: &Vec<DayBucket>)
        ensures
            r@.map_values(|b: DayBucket| b@) == self@.index,
    {
        &self.storage_index
    }

    pub fn get_content(&self, id: &str) -> (r: Result<String, DirError>)
        requires
            self.wf(),
        ensures
            match r {
                Ok(body) => self@.contents.contains_key(id@) && body@ == self@.contents[id@],
                Err(e) => e == DirError::NotFound && !self@.contents.contains_key(id@),
            },
    {
        match self.storage.get_single(id) {
            Some(body) => Ok(body.clone()),
            None => Err(DirError::NotFound),
        }
    }

    /// Files `id` under `day` in the date index.
    fn index_add(&mut self, day: i32, id: String)
        requires
            old(self).wf(),
        ensures
            final(self).wf(),
            final(self)@ == (ContentView { index: indexed(old(self)@.index, day as int, id@), ..old(self)@ }),
    {
        let ghost b = self@.index;
        let ghost v = id@;
        let mut i: usize = 0;
        while i < self.storage_index.len()
            invariant
                self.wf(),
                self@ == old(self)@,
                b == self@.index,
                v == id@,
                0 <= i <= b.len(),
                forall|j: int| 0 <= j < i ==> b[j].day != day as int,
            decreases b.len() - i,
        {
            assert(b[i as int] == self.storage_index@[i as int]@);
            if self.storage_index[i].day == day {
                let mut bk = self.storage_index[i].copy();
                let ghost before = bk@;
                let ghost old_ids = bk.ids@;
                bk.ids.push(id);
                assert(bk.ids@ == old_ids.push(bk.ids@[old_ids.len() as int]));
                assert forall|k: int| 0 <= k < bk.ids@.len() implies ids_of(bk.ids@)[k] == before.ids.push(v)[k] by {
                    if k < old_ids.len() {
                        assert(bk.ids@[k] == old_ids[k]);
                    }
                }
                assert(ids_of(bk.ids@) =~= before.ids.push(v));
                self.storage_index.set(i, bk);
                proof {
                    let f = first_bucket(b, day as int);
                    assert(has_bucket(b, day as int));
                    if f < i {
                        assert(b[f].day != day as int);
                    }
                    if i < f {
                        assert(b[i as int].day != day as int);
                    }
                    assert(self@.index =~= indexed(b, day as int, v));
                }
                return;
            }
            i = i + 1;
        }
        let mut ids: Vec<String> = Vec::new();
        ids.push(id);
        let bk = DayBucket { day, ids };
        assert(ids_of(bk.ids@) =~= seq![v]);
        self.storage_index.push(bk);
        assert(self@.index =~= b.push(BucketView { day: day as int, ids: seq![v] }));
    }

    /// Stores `body` under `id` and files `id` under `day`; where `id` is
    /// already in use, nothing changes.
    pub fn add_content_on(&mut self, id: String, day: i32, body: &str) -> (r: Result<(), DirError>)
        requires
            old(self).wf(),
        ensures
            final(self).wf(),
            old(self)@.contents.contains_key(id@) ==> r == Err::<(), DirError>(DirError::AlreadyExists)
                && final(self)@ == old(self)@,
            !old(self)@.contents.contains_key(id@) ==> r == Ok::<(), DirError>(())
                && final(self)@ == added(old(self)@, id@, day as int, body@),
    {
        if self.storage.contains(id.as_str()) {
            return Err(DirError::AlreadyExists);
        }
        self.storage.put_single(id.as_str(), body.to_owned());
        self.index_add(day, id);
        assert(self@.contents =~= old(self)@.contents.insert(id@, body@));
        Ok(())
    }

    /// Stores `body` under a fresh random id, filed under today's date, and
    /// returns the id. Only where a stored id has the same form can the draw
    /// clash; then nothing changes.
    pub fn add_content(&mut self, body: &str) -> (r: Result<String, DirError>)
        requires
            old(self).wf(),
        ensures
            final(self).wf(),
            (forall|k: Seq<char>| #[trigger] old(self)@.contents.contains_key(k) ==> !is_simple_uuid(k))
                ==> r is Ok,
            match r {
                Ok(id) => {
                    &&& is_simple_uuid(id@)
                    &&& !old(self)@.contents.contains_key(id@)
                    &&& exists|day: int| final(self)@ == added(old(self)@, id@, day, body@)
                },
                Err(e) => {
                    &&& e == DirError::AlreadyExists
                    &&& final(self)@ == old(self)@
                    &&& exists|k: Seq<char>| #[trigger] old(self)@.contents.contains_key(k) && is_simple_uuid(k)
                },
            },
    {
        let id = fresh_uuid();
        let day = crate::clock::today();
        let r = id.clone();
        match self.add_content_on(id, day, body) {
            Ok(()) => Ok(r),
            Err(e) => Err(e),
        }
    }

    /// Deletes every content listed in `ids`.
    fn delete_all(&mut self, ids: &Vec<String>)
        requires
            old(self).wf(),
        ensures
            final(self).wf(),
            final(self)@ == (ContentView {
                contents: old(self)@.contents.remove_keys(ids_of(ids@).to_set()),
                ..old(self)@
            }),
    {
        let mut j: usize = 0;
        assert(ids_of(ids@).subrange(0, 0).to_set() =~= Set::<Seq<char>>::empty());
        assert(old(self)@.contents.remove_keys(Set::<Seq<char>>::empty()) =~= old(self)@.contents);
        while j < ids.len()
            invariant
                self.wf(),
                0 <= j <= ids.len(),
                self@ == (ContentView {
                    contents: old(self)@.contents.remove_keys(ids_of(ids@).subrange(0, j as int).to_set()),
                    ..old(self)@
                }),
            decreases ids.len() - j,
        {
            let ghost pre = self@.contents;
            self.storage.del_single(ids[j].as_str());
            proof {
                let s = ids_of(ids@);
                assert(s[j as int] == ids@[j as int]@);
                let p = s.subrange(0, j as int);
                let q = s.subrange(0, j + 1);
                assert(q =~= p.push(s[j as int]));
                assert forall|k: Seq<char>| #[trigger] q.to_set().contains(k) <==> p.to_set().insert(s[j as int]).contains(k) by {
                    crate::names::lemma_push_contains(p, s[j as int], k);
                }
                assert(q.to_set() =~= p.to_set().insert(s[j as int]));
                assert(self@.contents =~= pre.remove(s[j as int]));
                assert(self@.contents =~= old(self)@.contents.remove_keys(s.subrange(0, j + 1).to_set()));
            }
            j = j + 1;
        }
        assert(ids_of(ids@).subrange(0, ids.len() as int) =~= ids_of(ids@));
    }

    /// The expiry sweep, run on day `today`. It does nothing where expiry is
    /// off or a sweep already ran on `today` or later; otherwise it deletes
    /// every content listed in a bucket of a day before `today - expire`,
    /// then those buckets.
    pub fn clean_contents_on(&mut self, today: i32)
        requires
            old(self).wf(),
        ensures
            final(self).wf(),
            final(self)@ == swept(old(self)@, today as int),
    {
        if self.content_expire == 0 {
            return;
        }
        match self.last_expire_check {
            Some(d) => {
                if d >= today {
                    return;
                }
            },
            None => {},
        }
        self.last_expire_check = Some(today);
        let cutoff: i64 = today as i64 - self.content_expire as i64;
        let ghost b = self@.index;
        let ghost c = cutoff as int;
        let mut kept: Vec<DayBucket> = Vec::new();
        proof {
            assert(b.subrange(0, 0) =~= Seq::<BucketView>::empty());
            reveal(Seq::filter);
            assert(kept@.map_values(|x: DayBucket| x@) =~= kept_buckets(b.subrange(0, 0), c));
            assert(expired_ids(b.subrange(0, 0), c) =~= Set::<Seq<char>>::empty());
            assert(old(self)@.contents.remove_keys(Set::<Seq<char>>::empty()) =~= old(self)@.contents);
        }
        let mut i: usize = 0;
        while i < self.storage_index.len()
            invariant
                self.wf(),
                b == self@.index,
                c == cutoff as int,
                c == today as int - old(self)@.expire,
                0 <= i <= b.len(),
                self@.last_check == Some(today as int),
                self@.expire == old(self)@.expire,
                self@.contents == old(self)@.contents.remove_keys(expired_ids(b.subrange(0, i as int), c)),
                kept@.map_values(|x: DayBucket| x@) == kept_buckets(b.subrange(0, i as int), c),
            decreases b.len() - i,
        {
            let bk = self.storage_index[i].copy();
            let ghost pre = self@.contents;
            let ghost old_kept = kept@;
            assert(bk@ == b[i as int]);
            proof {
                assert(b.subrange(0, i + 1) =~= b.subrange(0, i as int).push(b[i as int]));
                lemma_expired_ids_push(b.subrange(0, i as int), b[i as int], c);
                reveal(Seq::filter);
                assert(b.subrange(0, i + 1).drop_last() =~= b.subrange(0, i as int));
            }
            if (bk.day as i64) < cutoff {
                self.delete_all(&bk.ids);
                assert(self@.contents =~= old(self)@.contents.remove_keys(expired_ids(b.subrange(0, i + 1), c)));
            } else {
                kept.push(bk);
                assert(kept@.map_values(|x: DayBucket| x@) =~= old_kept.map_values(|x: DayBucket| x@).push(b[i as int]));
                assert(expired_ids(b.subrange(0, i + 1), c) =~= expired_ids(b.subrange(0, i as int), c));
            }
            i = i + 1;
        }
        self.storage_index = kept;
        assert(b.subrange(0, b.len() as int) =~= b);
        assert(self@.contents =~= swept(old(self)@, today as int).contents);
    }

    /// The expiry sweep, run on the local calendar date.
    pub fn clean_contents(&mut self)
        requires
            old(self).wf(),
        ensures
            final(self).wf(),
            exists|today: int| final(self)@ == swept(old(self)@, today),
    {
        let today = crate::clock::today();
        self.clean_contents_on(today);
    }
}

/// The ids listed in expired buckets of `p.push(x)`: those of `p`, and those
/// of `x` if it is expired.
pub proof fn lemma_expired_ids_push(p: Seq<BucketView>, x: BucketView, cutoff: int)
    ensures
        expired_ids(p.push(x), cutoff) == if x.day < cutoff {
            expired_ids(p, cutoff).union(x.ids.to_set())
        } else {
            expired_ids(p, cutoff)
        },
{
    let q = p.push(x);
    let lhs = expired_ids(q, cutoff);
    let rhs = if x.day < cutoff {
        expired_ids(p, cutoff).union(x.ids.to_set())
    } else {
        expired_ids(p, cutoff)
    };
    assert forall|k: Seq<char>| lhs.contains(k) <==> rhs.contains(k) by {
        if lhs.contains(k) {
            let i = choose|i: int| 0 <= i < q.len() && q[i].day < cutoff && #[trigger] q[i].ids.contains(k);
            if i < p.len() {
                assert(q[i] == p[i]);
                assert(expired_ids(p, cutoff).contains(k));
            }
        }
        if expired_ids(p, cutoff).contains(k) {
            let i = choose|i: int| 0 <= i < p.len() && p[i].day < cutoff && #[trigger] p[i].ids.contains(k);
            assert(q[i] == p[i]);
        }
        if x.day < cutoff && x.ids.to_set().contains(k) {
            assert(q[p.len() as int] == x);
        }
    }
    assert(lhs =~= rhs);
}

/// What `add_content_on` stored under an id, `get_content` gives back for
/// that id, character for character.
pub proof fn lemma_round_trip(m: ContentView, id: Seq<char>, day: int, body: Seq<char>)
    ensures
        added(m, id, day, body).contents.contains_key(id),
        added(m, id, day, body).contents[id] == body,
{
}

/// A second sweep on the same day changes nothing.
pub proof fn lemma_sweep_once_per_day(m: ContentView, today: int)
    ensures
        swept(swept(m, today), today) == swept(m, today),
{
}

/// With a retention of three days, a sweep on day `today` deletes content
/// filed four days earlier and keeps content filed two days earlier, together
/// with the bucket of that day; content that is also filed under an expired
/// day goes with that day.
pub proof fn lemma_expiry_boundary(
    m: ContentView,
    today: int,
    gone: Seq<char>,
    kept: Seq<char>,
    g: int,
    k: int,
)
    requires
        m.expire == 3,
        !(m.last_check matches Some(d) && d >= today),
        0 <= g < m.index.len(),
        m.index[g].day == today - 4,
        m.index[g].ids.contains(gone),
        0 <= k < m.index.len(),
        m.index[k].day == today - 2,
        m.index[k].ids.contains(kept),
        m.contents.contains_key(kept),
        !expired_ids(m.index, today - 3).contains(kept),
    ensures
        !swept(m, today).contents.contains_key(gone),
        swept(m, today).contents.contains_key(kept),
        swept(m, today).contents[kept] == m.contents[kept],
        swept(m, today).index.contains(m.index[k]),
{
    let cutoff = today - 3;
    assert(expired_ids(m.index, cutoff).contains(gone));
    m.index.lemma_filter_contains(|bk: BucketView| bk.day >= cutoff, k);
}

} // verus!
