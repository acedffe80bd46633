//! The multipart session registry: the in-memory map from upload ID to the
//! session's target path, filenames, media type and the time of its last
//! part upload.
//!
//! The sweep logic of the background cleanup lives here as plain functions
//! over the registry and a clock reading: which session wakes the scheduler,
//! how long it sleeps, and which sessions an expired sweep removes.

use vstd::prelude::*;

verus! {

/// One in-flight multipart upload.
pub struct MultipartUploadItem {
    pub path: String,
    pub filename: Option<String>,
    pub encoded_filename: Option<String>,
    pub mime_type: String,
    /// Unix seconds of the session's creation or last part upload.
    pub last_upload_at: i64,
}

/// The mathematical shadow of a session.
pub struct MultipartUploadItemV {
    pub path: Seq<char>,
    pub filename: Option<Seq<char>>,
    pub encoded_filename: Option<Seq<char>>,
    pub mime_type: Seq<char>,
    pub last_upload_at: i64,
}

impl View for MultipartUploadItem {
    type V = MultipartUploadItemV;

    open spec fn view(&self) -> MultipartUploadItemV {
        MultipartUploadItemV {
            path: self.path@,
            filename: self.filename.deep_view(),
            encoded_filename: self.encoded_filename.deep_view(),
            mime_type: self.mime_type@,
            last_upload_at: self.last_upload_at,
        }
    }
}

impl DeepView for MultipartUploadItem {
    type V = MultipartUploadItemV;

    open spec fn deep_view(&self) -> MultipartUploadItemV {
        self.view()
    }
}

impl Clone for MultipartUploadItem {
    fn clone(&self) -> (r: Self)
        ensures
            r@ == self@,
    {
        MultipartUploadItem {
            path: self.path.clone(),
            filename: match &self.filename {
                Some(s) => Some(s.clone()),
                None => None,
            },
            encoded_filename: match &self.encoded_filename {
                Some(s) => Some(s.clone()),
                None => None,
            },
            mime_type: self.mime_type.clone(),
            last_upload_at: self.last_upload_at,
        }
    }
}

pub open spec fn session_views(s: Seq<(String, MultipartUploadItem)>) -> Seq<
    (Seq<char>, MultipartUploadItemV),
> {
    s.map_values(|p: (String, MultipartUploadItem)| (p.0@, p.1@))
}

/// The session stored under an upload ID.
pub open spec fn spec_session_lookup(
    s: Seq<(Seq<char>, MultipartUploadItemV)>,
    id: Seq<char>,
) -> Option<MultipartUploadItemV>
    decreases s.len(),
{
    if s.len() == 0 {
        None
    } else if s.first().0 == id {
        Some(s.first().1)
    } else {
        spec_session_lookup(s.drop_first(), id)
    }
}

pub open spec fn ids_unique(s: Seq<(Seq<char>, MultipartUploadItemV)>) -> bool {
    forall|i: int, j: int|
        0 <= i < j < s.len() ==> (#[trigger] s[i]).0 != (#[trigger] s[j]).0
}

/// Whether a session is stale at time `now` for the given TTL: its last
/// upload lies strictly more than `ttl` seconds in the past.
pub open spec fn is_expired(item: MultipartUploadItemV, now: i64, ttl: i64) -> bool {
    now - item.last_upload_at > ttl
}

/// The sessions a sweep at time `now` keeps.
pub open spec fn spec_keep_live(
    s: Seq<(Seq<char>, MultipartUploadItemV)>,
    now: i64,
    ttl: i64,
) -> Seq<(Seq<char>, MultipartUploadItemV)>
    decreases s.len(),
{
    if s.len() == 0 {
        s
    } else if is_expired(s.first().1, now, ttl) {
        spec_keep_live(s.drop_first(), now, ttl)
    } else {
        seq![s.first()] + spec_keep_live(s.drop_first(), now, ttl)
    }
}

/// The upload IDs a sweep at time `now` removes.
pub open spec fn spec_expired_ids(
    s: Seq<(Seq<char>, MultipartUploadItemV)>,
    now: i64,
    ttl: i64,
) -> Seq<Seq<char>>
    decreases s.len(),
{
    if s.len() == 0 {
        Seq::<Seq<char>>::empty()
    } else if is_expired(s.first().1, now, ttl) {
        seq![s.first().0] + spec_expired_ids(s.drop_first(), now, ttl)
    } else {
        spec_expired_ids(s.drop_first(), now, ttl)
    }
}

/// The registry of live multipart sessions, unique by upload ID.
pub struct SessionRegistry {
    sessions: Vec<(String, MultipartUploadItem)>,
}

impl View for SessionRegistry {
    type V = Seq<(Seq<char>, MultipartUploadItemV)>;

    closed spec fn view(&self) -> Seq<(Seq<char>, MultipartUploadItemV)> {
        session_views(self.sessions@)
    }
}

impl SessionRegistry {
    pub open spec fn wf(&self) -> bool {
        ids_unique(self@)
    }

    pub fn new() -> (r: Self)
        ensures
            r@ == Seq::<(Seq<char>, MultipartUploadItemV)>::empty(),
            r.wf(),
    {
        let r = SessionRegistry { sessions: Vec::new() };
        assert(r@ =~= Seq::<(Seq<char>, MultipartUploadItemV)>::empty());
        r
    }

    /// The index of an upload ID, or the length when absent.
    fn find_index(&self, upload_id: &str) -> (r: usize)
        ensures
            r <= self@.len(),
            r < self@.len() ==> self@[r as int].0 == upload_id@ && spec_session_lookup(
                self@,
                upload_id@,
            ) == Some(self@[r as int].1) && (forall|j: int|
                0 <= j < r ==> (#[trigger] self@[j]).0 != upload_id@),
            r == self@.len() ==> spec_session_lookup(self@, upload_id@) is None,
    {
        let n = self.sessions.len();
        let mut i: usize = 0;
        assert(self@.skip(0) == self@);
        while i < n
            invariant_except_break
                spec_session_lookup(self@, upload_id@) == spec_session_lookup(
                    self@.skip(i as int),
                    upload_id@,
                ),
                forall|j: int| 0 <= j < i ==> (#[trigger] self@[j]).0 != upload_id@,
            invariant
                i <= n,
                n == self.sessions@.len(),
            ensures
                i < n ==> self@[i as int].0 == upload_id@ && spec_session_lookup(self@, upload_id@)
                    == Some(self@[i as int].1) && (forall|j: int|
                    0 <= j < i ==> (#[trigger] self@[j]).0 != upload_id@),
                i == n ==> spec_session_lookup(self@, upload_id@) is None,
            decreases n - i,
        {
            let ghost mid = self@.skip(i as int);
            proof {
                assert(mid.first() == self@[i as int]);
                assert(mid.drop_first() =~= self@.skip(i + 1));
            }
            if crate::text::str_eq(self.sessions[i].0.as_str(), upload_id) {
                break;
            }
            i = i + 1;
        }
        if i == n {
            assert(self@.skip(n as int) =~= Seq::<(Seq<char>, MultipartUploadItemV)>::empty());
        }
        i
    }

    /// Whether an upload ID is registered.
    pub fn contains(&self, upload_id: &str) -> (r: bool)
        ensures
            r == (spec_session_lookup(self@, upload_id@) is Some),
    {
        self.find_index(upload_id) < self.sessions.len()
    }

    /// Fetch a session by upload ID.
    pub fn get(&self, upload_id: &str) -> (r: Option<MultipartUploadItem>)
        ensures
            r.deep_view() == spec_session_lookup(self@, upload_id@),
    {
        let i = self.find_index(upload_id);
        if i < self.sessions.len() {
            Some(self.sessions[i].1.clone())
        } else {
            None
        }
    }

    /// Register a session under a fresh or existing ID; an existing entry is
    /// replaced, as a map insert replaces.
    pub fn insert(&mut self, upload_id: String, item: MultipartUploadItem)
        requires
            old(self).wf(),
        ensures
            final(self).wf(),
            spec_session_lookup(final(self)@, upload_id@) == Some(item@),
            forall|id: Seq<char>|
                id != upload_id@ ==> #[trigger] spec_session_lookup(final(self)@, id)
                    == spec_session_lookup(old(self)@, id),
    {
        let i = self.find_index(upload_id.as_str());
        let ghost old_view = self@;
        if i < self.sessions.len() {
            self.sessions.remove(i);
            proof {
                assert(self@ =~= old_view.take(i as int) + old_view.skip(i + 1));
                lemma_remove_keeps_others(old_view, i as int, upload_id@);
                lemma_unique_remove_absent(old_view, i as int, upload_id@);
            }
        }
        let ghost mid_view = self@;
        self.sessions.push((upload_id, item));
        proof {
            assert(self@ =~= mid_view.push((upload_id@, item@)));
            lemma_push_lookup(mid_view, upload_id@, item@);
            assert forall|p: int, q: int| 0 <= p < q < self@.len() implies (
            #[trigger] self@[p]).0 != (#[trigger] self@[q]).0 by {
                if q == self@.len() - 1 {
                    assert(self@[q].0 == upload_id@);
                    lemma_no_id_no_lookup(mid_view, upload_id@, p);
                }
            }
        }
    }

    /// Remove a session, handing it back when it was there.
    pub fn remove(&mut self, upload_id: &str) -> (r: Option<MultipartUploadItem>)
        requires
            old(self).wf(),
        ensures
            final(self).wf(),
            r.deep_view() == spec_session_lookup(old(self)@, upload_id@),
            spec_session_lookup(final(self)@, upload_id@) is None,
            forall|id: Seq<char>|
                id != upload_id@ ==> #[trigger] spec_session_lookup(final(self)@, id)
                    == spec_session_lookup(old(self)@, id),
    {
        let i = self.find_index(upload_id);
        let ghost old_view = self@;
        if i < self.sessions.len() {
            let pair = self.sessions.remove(i);
            proof {
                assert(self@ =~= old_view.take(i as int) + old_view.skip(i + 1));
                lemma_remove_keeps_others(old_view, i as int, upload_id@);
                lemma_unique_remove_absent(old_view, i as int, upload_id@);
            }
            Some(pair.1)
        } else {
            None
        }
    }

    /// Advance a session's `last_upload_at`; false when the ID is unknown.
    pub fn touch(&mut self, upload_id: &str, now: i64) -> (r: bool)
        requires
            old(self).wf(),
        ensures
            final(self).wf(),
            r == (spec_session_lookup(old(self)@, upload_id@) is Some),
            !r ==> final(self)@ == old(self)@,
            r ==> spec_session_lookup(final(self)@, upload_id@) == Some(
                MultipartUploadItemV {
                    last_upload_at: now,
                    ..spec_session_lookup(old(self)@, upload_id@)->0
                },
            ),
            forall|id: Seq<char>|
                id != upload_id@ ==> #[trigger] spec_session_lookup(final(self)@, id)
                    == spec_session_lookup(old(self)@, id),
    {
        let i = self.find_index(upload_id);
        if i < self.sessions.len() {
            let mut item = self.sessions[i].1.clone();
            item.last_upload_at = now;
            let id_owned = self.sessions[i].0.clone();
            self.insert(id_owned, item);
            true
        } else {
            false
        }
    }

    /// The number of live sessions.
    pub fn len(&self) -> (r: usize)
        ensures
            r == self@.len(),
    {
        self.sessions.len()
    }

    /// The earliest `last_upload_at` over all sessions: the time the cleanup
    /// scheduler must wake for. Nothing else is promised of which session
    /// carries it.
    pub fn earliest_last_upload(&self) -> (r: Option<i64>)
        ensures
            r is Some <==> self@.len() > 0,
            r matches Some(t) ==> (exists|i: int|
                0 <= i < self@.len() && (#[trigger] self@[i]).1.last_upload_at == t) && (forall|
                i: int,
            |
                0 <= i < self@.len() ==> t <= (#[trigger] self@[i]).1.last_upload_at),
    {
        let n = self.sessions.len();
        if n == 0 {
            return None;
        }
        let mut best = self.sessions[0].1.last_upload_at;
        let mut i: usize = 1;
        assert((self@[0]).1.last_upload_at == best);
        while i < n
            invariant
                1 <= i <= n,
                n == self.sessions@.len(),
                n == self@.len(),
                exists|j: int| 0 <= j < i && (#[trigger] self@[j]).1.last_upload_at == best,
                forall|j: int| 0 <= j < i ==> best <= (#[trigger] self@[j]).1.last_upload_at,
            decreases n - i,
        {
            let t = self.sessions[i].1.last_upload_at;
            if t < best {
                best = t;
                assert((self@[i as int]).1.last_upload_at == best);
            }
            i = i + 1;
        }
        Some(best)
    }

    /// Remove every session stale at time `now` and hand their IDs back.
    ///
    /// This is the registry half of the TTL sweep: afterwards exactly the
    /// live sessions remain, and the returned IDs are exactly the stale ones,
    /// in registry order.
    pub fn remove_expired(&mut self, now: i64, ttl: i64) -> (r: Vec<String>)
        requires
            old(self).wf(),
        ensures
            final(self).wf(),
            final(self)@ == spec_keep_live(old(self)@, now, ttl),
            r.deep_view() == spec_expired_ids(old(self)@, now, ttl),
    {
        let ghost old_view = self@;
        let mut kept: Vec<(String, MultipartUploadItem)> = Vec::new();
        let mut removed: Vec<String> = Vec::new();
        let n = self.sessions.len();
        let mut i: usize = 0;
        assert(old_view.skip(0) == old_view);
        while i < n
            invariant
                i <= n,
                n == self.sessions@.len(),
                self@ == old_view,
                spec_keep_live(old_view, now, ttl) =~= session_views(kept@) + spec_keep_live(
                    old_view.skip(i as int),
                    now,
                    ttl,
                ),
                spec_expired_ids(old_view, now, ttl) =~= removed.deep_view() + spec_expired_ids(
                    old_view.skip(i as int),
                    now,
                    ttl,
                ),
            decreases n - i,
        {
            let ghost mid = old_view.skip(i as int);
            proof {
                assert(mid.first() == old_view[i as int]);
                assert(mid.drop_first() =~= old_view.skip(i + 1));
            }
            let stale = (now as i128) - (self.sessions[i].1.last_upload_at as i128) > (
            ttl as i128);
            if stale {
                let ghost old_removed = removed.deep_view();
                removed.push(self.sessions[i].0.clone());
                proof {
                    assert(removed.deep_view() =~= old_removed.push(old_view[i as int].0));
                }
            } else {
                let ghost old_kept = session_views(kept@);
                let pair = (self.sessions[i].0.clone(), self.sessions[i].1.clone());
                kept.push(pair);
                proof {
                    assert(session_views(kept@) =~= old_kept.push(old_view[i as int]));
                }
            }
            i = i + 1;
        }
        proof {
            assert(old_view.skip(n as int) =~= Seq::<(Seq<char>, MultipartUploadItemV)>::empty());
        }
        self.sessions = kept;
        proof {
            assert(self@ == spec_keep_live(old_view, now, ttl));
            lemma_keep_live_unique(old_view, now, ttl);
        }
        removed
    }
}

/// Looking any ID up after a push: the pushed pair answers its own ID, the
/// rest answer as before.
proof fn lemma_push_lookup(
    s: Seq<(Seq<char>, MultipartUploadItemV)>,
    id: Seq<char>,
    item: MultipartUploadItemV,
)
    ensures
        spec_session_lookup(s.push((id, item)), id) == if spec_session_lookup(s, id) is Some {
            spec_session_lookup(s, id)
        } else {
            Some(item)
        },
        forall|other: Seq<char>|
            other != id ==> #[trigger] spec_session_lookup(s.push((id, item)), other)
                == spec_session_lookup(s, other),
    decreases s.len(),
{
    let p = s.push((id, item));
    if s.len() == 0 {
        assert(p.first() == (id, item));
        assert(p.drop_first() =~= s);
    } else {
        lemma_push_lookup(s.drop_first(), id, item);
        assert(p.first() == s.first());
        assert(p.drop_first() =~= s.drop_first().push((id, item)));
        assert forall|other: Seq<char>| other != id implies #[trigger] spec_session_lookup(
            p,
            other,
        ) == spec_session_lookup(s, other) by {
            if s.first().0 != other {
                assert(spec_session_lookup(s.drop_first().push((id, item)), other)
                    == spec_session_lookup(s.drop_first(), other));
            }
        }
        if s.first().0 != id {
            assert(spec_session_lookup(p, id) == spec_session_lookup(
                s.drop_first().push((id, item)),
                id,
            ));
        }
    }
}

/// In a registry about to receive a fresh pair, no earlier entry carries an
/// ID whose lookup fails.
proof fn lemma_no_id_no_lookup(s: Seq<(Seq<char>, MultipartUploadItemV)>, id: Seq<char>, p: int)
    requires
        0 <= p < s.len(),
        spec_session_lookup(s, id) is None,
    ensures
        s[p].0 != id,
    decreases s.len(),
{
    if p > 0 {
        lemma_no_id_no_lookup(s.drop_first(), id, p - 1);
        assert(s.drop_first()[p - 1] == s[p]);
    }
}

/// Removing the entry at `i` leaves every other ID's lookup unchanged, when
/// IDs are unique and `s[i]` carries `id`.
proof fn lemma_remove_keeps_others(s: Seq<(Seq<char>, MultipartUploadItemV)>, i: int, id: Seq<char>)
    requires
        ids_unique(s),
        0 <= i < s.len(),
        s[i].0 == id,
    ensures
        ids_unique(s.take(i) + s.skip(i + 1)),
        forall|other: Seq<char>|
            other != id ==> #[trigger] spec_session_lookup(s.take(i) + s.skip(i + 1), other)
                == spec_session_lookup(s, other),
    decreases s.len(),
{
    let rest = s.take(i) + s.skip(i + 1);
    assert(forall|j: int|
        0 <= j < rest.len() ==> #[trigger] rest[j] == if j < i {
            s[j]
        } else {
            s[j + 1]
        });
    assert(ids_unique(rest));
    if i == 0 {
        assert(rest =~= s.drop_first());
        assert forall|other: Seq<char>| other != id implies #[trigger] spec_session_lookup(
            rest,
            other,
        ) == spec_session_lookup(s, other) by {
            assert(s.first().0 == id);
        }
    } else {
        let d = s.drop_first();
        assert(d[i - 1].0 == id);
        assert(forall|p: int, q: int|
            0 <= p < q < d.len() ==> (#[trigger] d[p]).0 != (#[trigger] d[q]).0);
        lemma_remove_keeps_others(d, i - 1, id);
        assert(d.take(i - 1) + d.skip(i) =~= rest.drop_first());
        assert(rest.first() == s.first());
        assert forall|other: Seq<char>| other != id implies #[trigger] spec_session_lookup(
            rest,
            other,
        ) == spec_session_lookup(s, other) by {
            assert(spec_session_lookup(rest.drop_first(), other) == spec_session_lookup(
                d,
                other,
            ));
        }
    }
}

/// After removing the unique entry for `id`, its lookup fails.
proof fn lemma_unique_remove_absent(
    s: Seq<(Seq<char>, MultipartUploadItemV)>,
    i: int,
    id: Seq<char>,
)
    requires
        ids_unique(s),
        0 <= i < s.len(),
        s[i].0 == id,
    ensures
        spec_session_lookup(s.take(i) + s.skip(i + 1), id) is None,
{
    let rest = s.take(i) + s.skip(i + 1);
    assert forall|j: int| 0 <= j < rest.len() implies (#[trigger] rest[j]).0 != id by {
        if j < i {
            assert(rest[j] == s[j]);
        } else {
            assert(rest[j] == s[j + 1]);
        }
    }
    lemma_absent_lookup_none(rest, id);
}

proof fn lemma_absent_lookup_none(s: Seq<(Seq<char>, MultipartUploadItemV)>, id: Seq<char>)
    requires
        forall|j: int| 0 <= j < s.len() ==> (#[trigger] s[j]).0 != id,
    ensures
        spec_session_lookup(s, id) is None,
    decreases s.len(),
{
    if s.len() > 0 {
        assert(forall|j: int|
            0 <= j < s.drop_first().len() ==> (#[trigger] s.drop_first()[j]).0 != id);
        lemma_absent_lookup_none(s.drop_first(), id);
    }
}

/// A sweep keeps IDs unique.
proof fn lemma_keep_live_unique(s: Seq<(Seq<char>, MultipartUploadItemV)>, now: i64, ttl: i64)
    requires
        ids_unique(s),
    ensures
        ids_unique(spec_keep_live(s, now, ttl)),
        forall|j: int|
            0 <= j < spec_keep_live(s, now, ttl).len() ==> s.contains(
                #[trigger] spec_keep_live(s, now, ttl)[j],
            ),
    decreases s.len(),
{
    if s.len() > 0 {
        let d = s.drop_first();
        assert(forall|p: int, q: int|
            0 <= p < q < d.len() ==> (#[trigger] d[p]).0 != (#[trigger] d[q]).0);
        lemma_keep_live_unique(d, now, ttl);
        let kept = spec_keep_live(s, now, ttl);
        let kd = spec_keep_live(d, now, ttl);
        assert(forall|j: int| 0 <= j < d.len() ==> s.contains(#[trigger] d[j]));
        if is_expired(s.first().1, now, ttl) {
            assert(kept == kd);
        } else {
            assert(kept =~= seq![s.first()] + kd);
            assert forall|p: int, q: int| 0 <= p < q < kept.len() implies (
            #[trigger] kept[p]).0 != (#[trigger] kept[q]).0 by {
                if p == 0 {
                    let pair = kept[q];
                    assert(d.contains(pair));
                    let w = choose|w: int| 0 <= w < d.len() && d[w] == pair;
                    assert(s[w + 1] == pair);
                    assert(s[0].0 != s[w + 1].0);
                } else {
                    assert(kept[p] == kd[p - 1] && kept[q] == kd[q - 1]);
                }
            }
        }
    }
}

/// A sweep removes exactly the stale sessions: what remains is live, what
/// was live remains, and each removed ID belonged to a stale session.
pub proof fn lemma_sweep_exact(s: Seq<(Seq<char>, MultipartUploadItemV)>, now: i64, ttl: i64)
    ensures
        forall|j: int|
            0 <= j < spec_keep_live(s, now, ttl).len() ==> !is_expired(
                (#[trigger] spec_keep_live(s, now, ttl)[j]).1,
                now,
                ttl,
            ),
        forall|j: int|
            0 <= j < s.len() && !is_expired((#[trigger] s[j]).1, now, ttl) ==> spec_keep_live(
                s,
                now,
                ttl,
            ).contains(s[j]),
        forall|j: int|
            0 <= j < s.len() && is_expired((#[trigger] s[j]).1, now, ttl) ==> spec_expired_ids(
                s,
                now,
                ttl,
            ).contains(s[j].0),
    decreases s.len(),
{
    if s.len() > 0 {
        let d = s.drop_first();
        lemma_sweep_exact(d, now, ttl);
        let kept = spec_keep_live(s, now, ttl);
        let kd = spec_keep_live(d, now, ttl);
        let ed = spec_expired_ids(d, now, ttl);
        assert(forall|j: int| 1 <= j < s.len() ==> s[j] == #[trigger] d[j - 1]);
        if is_expired(s.first().1, now, ttl) {
            assert(spec_expired_ids(s, now, ttl) == seq![s.first().0] + ed);
            assert(spec_expired_ids(s, now, ttl)[0] == s.first().0);
            assert forall|j: int|
                0 <= j < s.len() && is_expired((#[trigger] s[j]).1, now, ttl) implies
                spec_expired_ids(s, now, ttl).contains(s[j].0) by {
                assert(j > 0 ==> s[j] == d[j - 1]);
                if j > 0 {
                    assert(s[j] == d[j - 1]);
                    assert(ed.contains(s[j].0));
                    let w = choose|w: int| 0 <= w < ed.len() && ed[w] == s[j].0;
                    assert(spec_expired_ids(s, now, ttl)[w + 1] == s[j].0);
                }
            }
            assert forall|j: int|
                0 <= j < s.len() && !is_expired((#[trigger] s[j]).1, now, ttl) implies
                kept.contains(s[j]) by {
                assert(j > 0 ==> s[j] == d[j - 1]);
                assert(kd.contains(s[j]));
            }
        } else {
            assert(kept =~= seq![s.first()] + kd);
            assert(kept[0] == s.first());
            assert forall|j: int|
                0 <= j < s.len() && !is_expired((#[trigger] s[j]).1, now, ttl) implies
                kept.contains(s[j]) by {
                if j > 0 {
                    assert(s[j] == d[j - 1]);
                    assert(kd.contains(s[j]));
                    let w = choose|w: int| 0 <= w < kd.len() && kd[w] == s[j];
                    assert(kept[w + 1] == s[j]);
                }
            }
            assert forall|j: int|
                0 <= j < s.len() && is_expired((#[trigger] s[j]).1, now, ttl) implies
                spec_expired_ids(s, now, ttl).contains(s[j].0) by {
                assert(j > 0 ==> s[j] == d[j - 1]);
                assert(ed.contains(s[j].0));
                assert(spec_expired_ids(s, now, ttl) == ed);
            }
        }
    }
}

/// The seconds the scheduler sleeps: one past the moment the earliest
/// session expires, held within the range a sleep can take.
pub open spec fn spec_cleanup_delay(earliest_last_upload: i64, now: i64, ttl: i64) -> u64 {
    let w = ttl - (now - earliest_last_upload) + 1;
    if w > u64::MAX {
        u64::MAX
    } else {
        w as u64
    }
}

/// How long the cleanup scheduler should wait before sweeping: one second
/// past the moment the earliest session expires, or nothing when that moment
/// has already passed.
pub fn cleanup_delay_seconds(earliest_last_upload: i64, now: i64, ttl: i64) -> (r: Option<u64>)
    requires
        0 <= ttl,
    ensures
        r matches Some(d) ==> ttl - (now - earliest_last_upload) > 0 && d == spec_cleanup_delay(
            earliest_last_upload,
            now,
            ttl,
        ),
        r is None ==> ttl - (now - earliest_last_upload) <= 0,
{
    let elapsed: i128 = now as i128 - earliest_last_upload as i128;
    if elapsed < ttl as i128 {
        let w: i128 = ttl as i128 - elapsed + 1;
        if w > u64::MAX as i128 {
            Some(u64::MAX)
        } else {
            Some(w as u64)
        }
    } else {
        None
    }
}

} // verus!
