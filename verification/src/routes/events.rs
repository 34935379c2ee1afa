//! The events feed: the stored image events of a user's cameras, newest first.

use vstd::prelude::*;
use vstd::utf8::*;
use crate::routes::reply::{bearer_credential, header_bytes, is_error, require_bearer, ApiError, UNAUTHORIZED};
use crate::text::{text_or, bytes_lt, lemma_bytes_lt_asymmetric, lemma_bytes_lt_irreflexive, lemma_bytes_lt_total, lemma_bytes_lt_transitive, text_less};

pub use crate::routes::reply::ErrorResponse;

verus! {

/// One image event as the API returns it.
pub struct EventResponse {
    pub device_id: String,
    pub timestamp: String,
    pub image_url: String,
    pub bucket: String,
}

/// The text of an event's fields: device, timestamp, image URL, bucket.
pub type EventView = (Seq<char>, Seq<char>, Seq<char>, Seq<char>);

impl View for EventResponse {
    type V = EventView;

    open spec fn view(&self) -> EventView {
        (self.device_id@, self.timestamp@, self.image_url@, self.bucket@)
    }
}

/// The views of a sequence of events.
pub open spec fn event_views(s: Seq<EventResponse>) -> Seq<EventView> {
    s.map_values(|e: EventResponse| e@)
}

/// The key events are ordered by: the bytes of their timestamp text.
pub open spec fn time_key(e: EventView) -> Seq<u8> {
    encode_utf8(e.1)
}

/// Whether no event of `s` has a later timestamp than one before it.
pub open spec fn newest_first(s: Seq<EventView>) -> bool {
    forall|i: int, j: int|
        0 <= i < j < s.len() ==> !bytes_lt(#[trigger] time_key(s[i]), #[trigger] time_key(s[j]))
}

/// Whether an event has the timestamp key `k`.
pub open spec fn has_key(k: Seq<u8>) -> spec_fn(EventView) -> bool {
    |e: EventView| time_key(e) == k
}

/// The events of `s` whose timestamp key is `k`, in their order in `s`.
pub open spec fn with_key(s: Seq<EventView>, k: Seq<u8>) -> Seq<EventView> {
    s.filter(has_key(k))
}

/// Whether `a` and `b` hold, for every timestamp, the same events in the same order.
pub open spec fn same_ties(a: Seq<EventView>, b: Seq<EventView>) -> bool {
    forall|k: Seq<u8>| #[trigger] with_key(a, k) == with_key(b, k)
}

proof fn lemma_filter_none<A>(s: Seq<A>, p: spec_fn(A) -> bool)
    requires
        forall|i: int| 0 <= i < s.len() ==> !p(#[trigger] s[i]),
    ensures
        s.filter(p) == Seq::<A>::empty(),
    decreases s.len(),
{
    reveal(Seq::filter);
    if s.len() > 0 {
        lemma_filter_none(s.drop_last(), p);
        assert(!p(s[s.len() - 1]));
    }
}

proof fn lemma_filter_single<A>(x: A, p: spec_fn(A) -> bool)
    ensures
        seq![x].filter(p) == (if p(x) { seq![x] } else { Seq::<A>::empty() }),
{
    Seq::<A>::empty().lemma_filter_push(x, p);
    assert(Seq::<A>::empty().push(x) =~= seq![x]);
    lemma_filter_none(Seq::<A>::empty(), p);
}

/// Inserting `v` at position `j` of a newest-first sequence whose first `j`
/// events are not older than `v` and whose others are older keeps it newest
/// first, and adds `v` after the events of equal time.
proof fn lemma_insert_keeps_order(s: Seq<EventView>, j: int, v: EventView)
    requires
        newest_first(s),
        0 <= j <= s.len(),
        forall|i: int| 0 <= i < j ==> !bytes_lt(#[trigger] time_key(s[i]), time_key(v)),
        forall|i: int| j <= i < s.len() ==> bytes_lt(#[trigger] time_key(s[i]), time_key(v)),
    ensures
        newest_first(s.insert(j, v)),
        forall|k: Seq<u8>|
            #[trigger] with_key(s.insert(j, v), k) == (if time_key(v) == k {
                with_key(s, k).push(v)
            } else {
                with_key(s, k)
            }),
{
    let t = s.insert(j, v);
    assert forall|a: int, b: int| 0 <= a < b < t.len() implies !bytes_lt(
        #[trigger] time_key(t[a]),
        #[trigger] time_key(t[b]),
    ) by {
        if a < j && b == j {
        } else if a == j {
            lemma_bytes_lt_asymmetric(time_key(t[b]), time_key(v));
        } else if a < j && b > j {
            assert(t[b] == s[b - 1]);
        } else if b < j {
            assert(t[a] == s[a] && t[b] == s[b]);
        } else {
            assert(t[a] == s[a - 1] && t[b] == s[b - 1]);
        }
    }
    assert forall|k: Seq<u8>|
        #[trigger] with_key(t, k) == (if time_key(v) == k {
            with_key(s, k).push(v)
        } else {
            with_key(s, k)
        }) by {
        let p = has_key(k);
        let pre = s.take(j);
        let post = s.skip(j);
        assert(s =~= pre + post);
        assert(t =~= pre + seq![v] + post);
        Seq::filter_distributes_over_add(pre, post, p);
        Seq::filter_distributes_over_add(pre, seq![v], p);
        Seq::filter_distributes_over_add(pre + seq![v], post, p);
        lemma_filter_single(v, p);
        if time_key(v) == k {
            assert forall|i: int| 0 <= i < post.len() implies !p(#[trigger] post[i]) by {
                assert(post[i] == s[i + j]);
                lemma_bytes_lt_irreflexive(time_key(v));
            }
            lemma_filter_none(post, p);
            assert(with_key(t, k) =~= with_key(s, k).push(v));
        } else {
            assert(with_key(t, k) =~= with_key(s, k));
        }
    }
}

/// Orders events newest first by timestamp text, keeping the events of one
/// timestamp in their given order (a stable sort).
pub fn sort_newest_first(events: Vec<EventResponse>) -> (sorted: Vec<EventResponse>)
    ensures
        newest_first(event_views(sorted@)),
        same_ties(event_views(sorted@), event_views(events@)),
        sorted@.len() == events@.len(),
{
    let ghost all = event_views(events@);
    let mut rest = events;
    let mut out: Vec<EventResponse> = Vec::new();
    let ghost mut done: int = 0;
    assert(all.take(0) =~= Seq::<EventView>::empty());
    assert(event_views(out@) =~= Seq::<EventView>::empty());
    while rest.len() > 0
        invariant
            0 <= done <= all.len(),
            event_views(rest@) == all.skip(done),
            out@.len() == done,
            newest_first(event_views(out@)),
            same_ties(event_views(out@), all.take(done)),
        decreases rest@.len(),
    {
        let ghost before = rest@;
        assert(event_views(before).len() == before.len());
        assert(done < all.len());
        let e = rest.remove(0);
        let ghost v = e@;
        assert(v == all[done]) by {
            assert(event_views(before)[0] == before[0]@);
            assert(all.skip(done)[0] == all[done]);
        }
        let ghost placed = event_views(out@);
        let mut j: usize = 0;
        while j < out.len() && !text_less(out[j].timestamp.as_str(), e.timestamp.as_str())
            invariant
                j <= out@.len(),
                placed == event_views(out@),
                v == e@,
                forall|i: int| 0 <= i < j ==> !bytes_lt(#[trigger] time_key(placed[i]), time_key(v)),
            decreases out@.len() - j,
        {
            j = j + 1;
        }
        proof {
            assert forall|i: int| j <= i < placed.len() implies bytes_lt(#[trigger] time_key(placed[i]), time_key(v)) by {
                let x = time_key(placed[j as int]);
                let y = time_key(placed[i]);
                if i > j {
                    assert(!bytes_lt(x, y));
                    if x != y {
                        lemma_bytes_lt_total(x, y);
                        lemma_bytes_lt_transitive(y, x, time_key(v));
                    }
                }
            }
            lemma_insert_keeps_order(placed, j as int, v);
        }
        out.insert(j, e);
        proof {
            assert(event_views(out@) =~= placed.insert(j as int, v));
            assert(all.take(done + 1) =~= all.take(done).push(v));
            assert forall|k: Seq<u8>| #[trigger] with_key(event_views(out@), k) == with_key(all.take(done + 1), k) by {
                all.take(done).lemma_filter_push(v, has_key(k));
            }
            assert(event_views(rest@) =~= all.skip(done + 1)) by {
                assert(rest@ =~= before.skip(1));
                assert forall|i: int| 0 <= i < rest@.len() implies event_views(rest@)[i] == all.skip(done + 1)[i] by {
                    assert(event_views(before)[i + 1] == before[i + 1]@);
                    assert(all.skip(done)[i + 1] == all[done + 1 + i]);
                }
            }
            done = done + 1;
        }
    }
    assert(all.take(done) =~= all);
    out
}

/// The first event of a newest-first sequence that holds an event of time key
/// `k` has a key no older than `k`.
proof fn lemma_first_not_older(s: Seq<EventView>, k: Seq<u8>, x: EventView)
    requires
        newest_first(s),
        s.len() > 0,
        with_key(s, k).contains(x),
    ensures
        !bytes_lt(time_key(s[0]), k),
{
    s.lemma_filter_contains_rev(has_key(k), x);
    let q = choose|q: int| 0 <= q < s.len() && s[q] == x;
    let i = choose|i: int| 0 <= i < with_key(s, k).len() && with_key(s, k)[i] == x;
    s.lemma_filter_pred(has_key(k), i);
    if q == 0 {
        lemma_bytes_lt_irreflexive(k);
    } else {
        assert(!bytes_lt(time_key(s[0]), time_key(s[q])));
    }
}

/// A non-empty newest-first sequence splits into its first event and the rest,
/// per timestamp.
proof fn lemma_with_key_first(s: Seq<EventView>, k: Seq<u8>)
    requires
        s.len() > 0,
    ensures
        with_key(s, k) == (if time_key(s[0]) == k {
            seq![s[0]]
        } else {
            Seq::<EventView>::empty()
        }) + with_key(s.drop_first(), k),
{
    assert(s =~= seq![s[0]] + s.drop_first());
    s.drop_first().lemma_filter_prepend(s[0], has_key(k));
}

/// Two newest-first arrangements that hold, for every timestamp, the same
/// events in the same order are the same sequence: the order of the events
/// feed is fully determined by its events.
pub proof fn lemma_newest_first_unique(a: Seq<EventView>, b: Seq<EventView>)
    requires
        newest_first(a),
        newest_first(b),
        same_ties(a, b),
    ensures
        a == b,
    decreases a.len(),
{
    if a.len() == 0 && b.len() == 0 {
        assert(a =~= b);
    } else if a.len() == 0 || b.len() == 0 {
        let (full, empty) = if a.len() > 0 { (a, b) } else { (b, a) };
        let k = time_key(full[0]);
        full.lemma_filter_contains(has_key(k), 0);
        lemma_filter_none(empty, has_key(k));
        assert(with_key(full, k) == with_key(empty, k));
        assert(false);
    } else {
        let ka = time_key(a[0]);
        let kb = time_key(b[0]);
        a.lemma_filter_contains(has_key(ka), 0);
        assert(with_key(b, ka) == with_key(a, ka));
        lemma_first_not_older(b, ka, a[0]);
        b.lemma_filter_contains(has_key(kb), 0);
        assert(with_key(a, kb) == with_key(b, kb));
        lemma_first_not_older(a, kb, b[0]);
        if ka != kb {
            lemma_bytes_lt_total(ka, kb);
        }
        let ra = a.drop_first();
        let rb = b.drop_first();
        lemma_with_key_first(a, ka);
        lemma_with_key_first(b, ka);
        assert(with_key(a, ka)[0] == a[0]);
        assert(with_key(b, ka)[0] == b[0]);
        assert forall|k: Seq<u8>| #[trigger] with_key(ra, k) == with_key(rb, k) by {
            lemma_with_key_first(a, k);
            lemma_with_key_first(b, k);
            assert(with_key(a, k) == with_key(b, k));
            if k == ka {
                assert(with_key(ra, k) =~= with_key(a, k).drop_first());
                assert(with_key(rb, k) =~= with_key(b, k).drop_first());
            } else {
                assert(with_key(ra, k) =~= with_key(a, k));
                assert(with_key(rb, k) =~= with_key(b, k));
            }
        }
        assert forall|i: int, j: int| 0 <= i < j < ra.len() implies !bytes_lt(
            #[trigger] time_key(ra[i]),
            #[trigger] time_key(ra[j]),
        ) by {
            assert(ra[i] == a[i + 1] && ra[j] == a[j + 1]);
        }
        assert forall|i: int, j: int| 0 <= i < j < rb.len() implies !bytes_lt(
            #[trigger] time_key(rb[i]),
            #[trigger] time_key(rb[j]),
        ) by {
            assert(rb[i] == b[i + 1] && rb[j] == b[j + 1]);
        }
        lemma_newest_first_unique(ra, rb);
        assert(a =~= seq![a[0]] + ra);
        assert(b =~= seq![b[0]] + rb);
    }
}

/// How many events the feed holds at most.
pub const FEED_LIMIT: usize = 50;

/// How many events one query of the events table asks for.
pub const QUERY_LIMIT: i32 = 50;

/// One stored event as the events table returns it: the text of each
/// attribute that holds a string.
pub struct EventItem {
    pub device_id: Option<String>,
    pub timestamp: Option<String>,
    pub image_url: Option<String>,
    pub bucket: Option<String>,
}

/// The text of an optional attribute, empty where it is missing.
pub open spec fn text_or_empty(o: Option<String>) -> Seq<char> {
    match o {
        Some(s) => s@,
        None => Seq::empty(),
    }
}

/// The event that a stored item stands for.
pub open spec fn item_view(item: EventItem) -> EventView {
    (
        text_or_empty(item.device_id),
        text_or_empty(item.timestamp),
        text_or_empty(item.image_url),
        text_or_empty(item.bucket),
    )
}

fn text_or_default(o: Option<String>) -> (s: String)
    ensures
        s@ == text_or_empty(o),
{
    match o {
        Some(s) => s,
        None => String::new(),
    }
}

/// The event of a stored item, each missing attribute read as empty text.
pub fn event_from_item(item: EventItem) -> (e: EventResponse)
    ensures
        e@ == item_view(item),
{
    EventResponse {
        device_id: text_or_default(item.device_id),
        timestamp: text_or_default(item.timestamp),
        image_url: text_or_default(item.image_url),
        bucket: text_or_default(item.bucket),
    }
}

/// The events of one batch of stored items.
pub open spec fn batch_events(batch: Vec<EventItem>) -> Seq<EventView> {
    batch@.map_values(|i: EventItem| item_view(i))
}

/// The events of all batches, batch after batch.
pub open spec fn all_events(batches: Seq<Vec<EventItem>>) -> Seq<EventView> {
    batches.map_values(|b: Vec<EventItem>| batch_events(b)).flatten()
}

/// The smaller of `a` and `b`.
pub open spec fn min_len(a: int, b: int) -> int {
    if a < b {
        a
    } else {
        b
    }
}

/// Whether `feed` is the first `FEED_LIMIT` events of the newest-first
/// arrangement of `events` (see `lemma_newest_first_unique`).
pub open spec fn is_feed_of(feed: Seq<EventView>, events: Seq<EventView>) -> bool {
    exists|s: Seq<EventView>|
        #![trigger same_ties(s, events)]
        newest_first(s) && same_ties(s, events) && s.len() == events.len() && feed == s.take(
            min_len(FEED_LIMIT as int, s.len() as int),
        )
}

/// The events feed: the events of all batches (one batch per camera, in
/// camera order), newest first, events of one timestamp in their stored
/// order, cut to `FEED_LIMIT`.
pub fn events_feed(batches: Vec<Vec<EventItem>>) -> (feed: Vec<EventResponse>)
    ensures
        is_feed_of(event_views(feed@), all_events(batches@)),
{
    let ghost given = batches@;
    let mut batches = batches;
    let mut all: Vec<EventResponse> = Vec::new();
    let ghost mut done: int = 0;
    assert(given.take(0).map_values(|b: Vec<EventItem>| batch_events(b)) =~= Seq::<Seq<EventView>>::empty());
    assert(event_views(all@) =~= all_events(given.take(0)));
    while batches.len() > 0
        invariant
            0 <= done <= given.len(),
            batches@ == given.skip(done),
            event_views(all@) == all_events(given.take(done)),
        decreases batches@.len(),
    {
        let ghost before = batches@;
        assert(done < given.len());
        let mut batch = batches.remove(0);
        assert(batch == given[done]);
        let ghost items = batch@;
        let ghost base = event_views(all@);
        let ghost mut used: int = 0;
        assert(base + batch_events(given[done]).take(0) =~= base);
        while batch.len() > 0
            invariant
                0 <= used <= items.len(),
                0 <= done < given.len(),
                items == given[done]@,
                batch@ == items.skip(used),
                event_views(all@) == base + batch_events(given[done]).take(used),
            decreases batch@.len(),
        {
            let ghost pending = batch@;
            let item = batch.remove(0);
            assert(item == items[used]) by {
                assert(pending[0] == items.skip(used)[0]);
            }
            let e = event_from_item(item);
            let ghost prev = all@;
            all.push(e);
            proof {
                assert(all@ == prev.push(e));
                assert(event_views(all@) =~= event_views(prev).push(e@));
                assert(batch_events(given[done])[used] == item_view(item));
                assert(event_views(all@) =~= base + batch_events(given[done]).take(used + 1));
                assert(batch@ =~= items.skip(used + 1));
                used = used + 1;
            }
        }
        proof {
            assert(batch_events(given[done]).take(used) =~= batch_events(given[done]));
            let f = |b: Vec<EventItem>| batch_events(b);
            assert(given.take(done + 1).map_values(f) =~= given.take(done).map_values(f).push(batch_events(given[done])));
            given.take(done).map_values(f).lemma_flatten_push(batch_events(given[done]));
            assert(batches@ =~= given.skip(done + 1));
            done = done + 1;
        }
    }
    assert(given.take(done) =~= given);
    let ghost collected = event_views(all@);
    let mut sorted = sort_newest_first(all);
    let ghost arranged = event_views(sorted@);
    sorted.truncate(FEED_LIMIT);
    proof {
        let cut = min_len(FEED_LIMIT as int, arranged.len() as int);
        assert(event_views(sorted@) =~= arranged.take(cut));
        assert(arranged.len() == collected.len());
    }
    sorted
}

/// The token of an events request, or status 401 `Missing token`.
pub fn events_token(header: Option<&[u8]>) -> (r: Result<String, ApiError>)
    ensures
        r is Ok <==> bearer_credential(header_bytes(header)) is Some,
        r matches Ok(t) ==> bearer_credential(header_bytes(header)) == Some(t@),
        r matches Err(e) ==> is_error(e, UNAUTHORIZED, "Missing token"@),
{
    require_bearer(header, "Missing token")
}

/// The table that holds the events: the configured one, else `image_events`.
pub fn events_table(configured: Option<String>) -> (t: String)
    ensures
        t@ == (match configured {
            Some(c) => c@,
            None => "image_events"@,
        }),
{
    text_or(configured, "image_events")
}

/// The feed holds at most `FEED_LIMIT` events, all of them stored events,
/// newest first, and it leaves out no event that is newer than one it holds.
pub proof fn lemma_feed_keeps_newest(feed: Seq<EventView>, events: Seq<EventView>)
    requires
        is_feed_of(feed, events),
    ensures
        feed.len() == min_len(FEED_LIMIT as int, events.len() as int),
        newest_first(feed),
        forall|i: int| 0 <= i < feed.len() ==> events.contains(#[trigger] feed[i]),
        forall|i: int, x: EventView|
            0 <= i < feed.len() && events.contains(x) && bytes_lt(
                #[trigger] time_key(feed[i]),
                #[trigger] time_key(x),
            ) ==> feed.contains(x),
{
    let s = choose|s: Seq<EventView>|
        #![trigger same_ties(s, events)]
        newest_first(s) && same_ties(s, events) && s.len() == events.len() && feed == s.take(
            min_len(FEED_LIMIT as int, s.len() as int),
        );
    let cut = min_len(FEED_LIMIT as int, s.len() as int);
    assert forall|a: int, b: int| 0 <= a < b < feed.len() implies !bytes_lt(
        #[trigger] time_key(feed[a]),
        #[trigger] time_key(feed[b]),
    ) by {
        assert(feed[a] == s[a] && feed[b] == s[b]);
    }
    assert forall|i: int| 0 <= i < feed.len() implies events.contains(#[trigger] feed[i]) by {
        let k = time_key(s[i]);
        s.lemma_filter_contains(has_key(k), i);
        assert(with_key(s, k) == with_key(events, k));
        events.lemma_filter_contains_rev(has_key(k), s[i]);
    }
    assert forall|i: int, x: EventView|
        0 <= i < feed.len() && events.contains(x) && bytes_lt(
            #[trigger] time_key(feed[i]),
            #[trigger] time_key(x),
        ) implies feed.contains(x) by {
        let k = time_key(x);
        let p = choose|p: int| 0 <= p < events.len() && events[p] == x;
        events.lemma_filter_contains(has_key(k), p);
        assert(with_key(s, k) == with_key(events, k));
        s.lemma_filter_contains_rev(has_key(k), x);
        let q = choose|q: int| 0 <= q < s.len() && s[q] == x;
        if q >= cut {
            assert(feed[i] == s[i]);
            assert(!bytes_lt(time_key(s[i]), time_key(s[q])));
        }
        assert(feed[q] == x);
    }
}

/// The text of each attribute of a stored item, in the order device,
/// timestamp, image URL, bucket.
pub open spec fn item_fields(item: EventItem) -> EventView {
    (
        text_or_empty(item.device_id),
        text_or_empty(item.timestamp),
        text_or_empty(item.image_url),
        text_or_empty(item.bucket),
    )
}

/// Whether `x` is the event of one of the stored items of `batches`.
pub open spec fn from_stored_item(x: EventView, batches: Seq<Vec<EventItem>>) -> bool {
    exists|b: int, j: int|
        0 <= b < batches.len() && 0 <= j < batches[b]@.len() && x == #[trigger] item_fields(
            batches[b]@[j],
        )
}

proof fn lemma_all_events_from_items(batches: Seq<Vec<EventItem>>, x: EventView)
    requires
        all_events(batches).contains(x),
    ensures
        from_stored_item(x, batches),
    decreases batches.len(),
{
    let f = |v: Vec<EventItem>| batch_events(v);
    let m = batches.map_values(f);
    assert(m.len() > 0);
    let rest = batches.drop_first();
    assert(m.drop_first() =~= rest.map_values(f));
    assert(all_events(batches) == m[0] + all_events(rest));
    let k = choose|k: int| 0 <= k < all_events(batches).len() && all_events(batches)[k] == x;
    if k < m[0].len() {
        assert(m[0][k] == x);
        assert(batch_events(batches[0])[k] == item_view(batches[0]@[k]));
        assert(item_fields(batches[0]@[k]) == x);
    } else {
        assert(all_events(rest)[k - m[0].len()] == x);
        lemma_all_events_from_items(rest, x);
        let (b, j) = choose|b: int, j: int|
            0 <= b < rest.len() && 0 <= j < rest[b]@.len() && x == #[trigger] item_fields(rest[b]@[j]);
        assert(rest[b] == batches[b + 1]);
        assert(item_fields(batches[b + 1]@[j]) == x);
    }
}

/// Every event of the feed is a stored item as the table returned it: its
/// device, timestamp, image URL and bucket are the texts of that item's
/// attributes of the same names (empty where an attribute is missing).
pub proof fn lemma_feed_events_are_stored_items(feed: Seq<EventView>, batches: Seq<Vec<EventItem>>)
    requires
        is_feed_of(feed, all_events(batches)),
    ensures
        forall|i: int| 0 <= i < feed.len() ==> from_stored_item(#[trigger] feed[i], batches),
{
    lemma_feed_keeps_newest(feed, all_events(batches));
    assert forall|i: int| 0 <= i < feed.len() implies from_stored_item(#[trigger] feed[i], batches) by {
        assert(all_events(batches).contains(feed[i]));
        lemma_all_events_from_items(batches, feed[i]);
    }
}

} // verus!
