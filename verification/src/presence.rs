//! Pairing online and offline events into presence intervals, and counting them.

use crate::buckets::{
    count_steps, counted_dates, counted_steps, counts_have_room, grid_consistent, grid_has_room,
    grid_shape, lemma_counted_dates_bound, lemma_counted_steps_within,
    update_bucket_counts_for_range,
};
use crate::clamp::{
    clamp_outcome, clamp_range_to_vrcx_uptime, lemma_clamp_containment, well_formed_timeline,
};
use crate::dto::{BucketValue, OnlineOfflineEventType, Row, TimeSpan, VrcxStartStopEvent};
use crate::local_time::{buckets_per_day, valid_bucket_minutes};
use vstd::prelude::*;

verus! {

/// A user may be reported on: no list of friends is set, or the user is on it.
pub open spec fn user_allowed(user_id: Seq<char>, friend_ids: Option<Vec<String>>) -> bool {
    match friend_ids {
        None => true,
        Some(ids) => exists|i: int| 0 <= i < ids.len() && (#[trigger] ids[i])@ == user_id,
    }
}

/// check if a given user has been filtered out by our configuration
pub fn is_user_allowed(user_id: &str, friend_ids: &Option<Vec<String>>) -> (allowed: bool)
    ensures
        allowed == user_allowed(user_id@, *friend_ids),
{
    // if friend ids is unset, then allow every user id
    match friend_ids {
        None => true,
        Some(ids) => {
            let wanted: String = user_id.to_owned();
            let mut i: usize = 0;
            while i < ids.len()
                invariant
                    i <= ids.len(),
                    *friend_ids == Some(*ids),
                    wanted@ == user_id@,
                    forall|k: int| 0 <= k < i ==> (#[trigger] ids[k])@ != user_id@,
                decreases ids.len() - i,
            {
                if ids[i] == wanted {
                    assert(friend_ids->Some_0[i as int]@ == user_id@);
                    return true;
                }
                i = i + 1;
            }
            false
        },
    }
}

/// A user and the instant they came online.
pub struct OnlineUser {
    pub user_id: String,
    pub online_since: i64,
}

/// The users that are online, each once, with the instant they came online.
pub struct OnlineUsers {
    pub users: Vec<OnlineUser>,
}

/// An offline event is earlier than the online event it answers.
#[derive(Clone, Copy, Debug, PartialEq, Eq, Structural)]
pub struct NegativeDuration {
    pub online_time: i64,
    pub offline_time: i64,
}

/// Clamping kept a part that is not of positive length.
#[derive(Clone, Copy, Debug, PartialEq, Eq, Structural)]
pub struct NonPositiveClamp {
    pub part: TimeSpan,
}

impl View for OnlineUsers {
    type V = Map<Seq<char>, i64>;

    /// Who is online, and since when.
    open spec fn view(&self) -> Map<Seq<char>, i64> {
        Map::new(
            |user: Seq<char>| exists|i: int| self.holds_at(user, i),
            |user: Seq<char>| self.users[choose|i: int| self.holds_at(user, i)].online_since,
        )
    }
}

impl OnlineUsers {
    /// Entry `i` is that of `user`.
    pub open spec fn holds_at(&self, user: Seq<char>, i: int) -> bool {
        0 <= i < self.users.len() && self.users[i].user_id@ == user
    }

    /// No user has two entries.
    pub open spec fn wf(&self) -> bool {
        forall|i: int, j: int|
            0 <= i < j < self.users.len() ==> (#[trigger] self.users[i]).user_id@ != (
            #[trigger] self.users[j]).user_id@
    }

    /// The user of entry `i` is online since the instant held there.
    proof fn lemma_entry(&self, user: Seq<char>, i: int)
        requires
            self.wf(),
            self.holds_at(user, i),
        ensures
            self@.dom().contains(user),
            self@[user] == self.users[i].online_since,
    {
        let chosen = choose|k: int| self.holds_at(user, k);
        assert(self.holds_at(user, chosen));
        if chosen < i {
            assert(self.users[chosen].user_id@ != self.users[i].user_id@);
        } else if i < chosen {
            assert(self.users[i].user_id@ != self.users[chosen].user_id@);
        }
    }

    /// Nobody is online.
    pub fn new() -> (online: OnlineUsers)
        ensures
            online.wf(),
            online@ == Map::<Seq<char>, i64>::empty(),
    {
        let online = OnlineUsers { users: Vec::new() };
        assert(online@ =~= Map::<Seq<char>, i64>::empty());
        online
    }

    /// Where the entry of `user_id` is, if there is one.
    fn position(&self, user_id: &String) -> (found: Option<usize>)
        ensures
            found matches Some(i) ==> self.holds_at(user_id@, i as int),
            found is None ==> forall|i: int| !self.holds_at(user_id@, i),
    {
        let mut i: usize = 0;
        while i < self.users.len()
            invariant
                i <= self.users.len(),
                forall|k: int| 0 <= k < i ==> !self.holds_at(user_id@, k),
            decreases self.users.len() - i,
        {
            if self.users[i].user_id == *user_id {
                return Some(i);
            }
            i = i + 1;
        }
        None
    }

    /// Since when `user_id` is online, if they are.
    pub fn online_since(&self, user_id: &String) -> (since: Option<i64>)
        requires
            self.wf(),
        ensures
            since == if self@.dom().contains(user_id@) {
                Some(self@[user_id@])
            } else {
                None
            },
    {
        match self.position(user_id) {
            Some(i) => {
                proof {
                    self.lemma_entry(user_id@, i as int);
                }
                Some(self.users[i].online_since)
            },
            None => None,
        }
    }

    /// The user is online since `online_since`, whatever was known of them before.
    pub fn insert(&mut self, user_id: &String, online_since: i64)
        requires
            old(self).wf(),
        ensures
            final(self).wf(),
            final(self)@ == old(self)@.insert(user_id@, online_since),
    {
        let ghost before = *self;
        let found: Option<usize> = self.position(user_id);
        match found {
            Some(i) => {
                self.users[i].online_since = online_since;
                proof {
                    assert forall|k: int| 0 <= k < self.users.len() implies (
                    #[trigger] self.users[k]).user_id == before.users[k].user_id by {}
                    assert(self.wf());
                    assert forall|user: Seq<char>, k: int|
                        self.holds_at(user, k) == before.holds_at(user, k) by {}
                    self.lemma_entry(user_id@, i as int);
                }
            },
            None => {
                self.users.push(OnlineUser { user_id: user_id.clone(), online_since });
                proof {
                    let last = before.users.len() as int;
                    assert forall|k: int| 0 <= k < last implies (#[trigger] self.users[k])
                        == before.users[k] by {}
                    assert forall|i: int, j: int| 0 <= i < j < self.users.len() implies (
                    #[trigger] self.users[i]).user_id@ != (#[trigger] self.users[j]).user_id@ by {
                        if j == last {
                            assert(!before.holds_at(user_id@, i));
                        } else {
                            assert(before.users[i].user_id@ != before.users[j].user_id@);
                        }
                    }
                    self.lemma_entry(user_id@, last);
                }
            },
        }
        proof {
            let wanted = before@.insert(user_id@, online_since);
            assert forall|user: Seq<char>| #[trigger]
                self@.dom().contains(user) == wanted.dom().contains(user) by {
                if self@.dom().contains(user) {
                    let k = choose|k: int| self.holds_at(user, k);
                    if user != user_id@ {
                        assert(before.holds_at(user, k));
                    }
                }
                if before@.dom().contains(user) {
                    let k = choose|k: int| before.holds_at(user, k);
                    assert(self.holds_at(user, k));
                }
            }
            assert forall|user: Seq<char>| #[trigger] self@.dom().contains(user) implies self@[user]
                == wanted[user] by {
                if user != user_id@ {
                    let k = choose|k: int| self.holds_at(user, k);
                    assert(before.holds_at(user, k));
                    self.lemma_entry(user, k);
                    before.lemma_entry(user, k);
                }
            }
            assert(self@ =~= wanted);
        }
    }

    /// The user is no longer online; returns since when they were, if they were.
    pub fn remove(&mut self, user_id: &String) -> (since: Option<i64>)
        requires
            old(self).wf(),
        ensures
            final(self).wf(),
            final(self)@ == old(self)@.remove(user_id@),
            since == if old(self)@.dom().contains(user_id@) {
                Some(old(self)@[user_id@])
            } else {
                None
            },
    {
        let ghost before = *self;
        let found: Option<usize> = self.position(user_id);
        match found {
            Some(i) => {
                proof {
                    before.lemma_entry(user_id@, i as int);
                }
                let entry: OnlineUser = self.users.remove(i);
                proof {
                    let wanted = before@.remove(user_id@);
                    assert forall|k: int| 0 <= k < self.users.len() implies (
                    #[trigger] self.users[k]) == before.users[if k < i {
                        k
                    } else {
                        k + 1
                    }] by {}
                    assert forall|a: int, b: int| 0 <= a < b < self.users.len() implies (
                    #[trigger] self.users[a]).user_id@ != (#[trigger] self.users[b]).user_id@ by {
                        let a0 = if a < i {
                            a
                        } else {
                            a + 1
                        };
                        let b0 = if b < i {
                            b
                        } else {
                            b + 1
                        };
                        assert(before.users[a0].user_id@ != before.users[b0].user_id@);
                    }
                    assert forall|user: Seq<char>| #[trigger]
                        self@.dom().contains(user) == wanted.dom().contains(user) by {
                        if self@.dom().contains(user) {
                            let k = choose|k: int| self.holds_at(user, k);
                            let k0 = if k < i {
                                k
                            } else {
                                k + 1
                            };
                            assert(before.holds_at(user, k0));
                            if user == user_id@ {
                                if k0 < i {
                                    assert(before.users[k0].user_id@ != before.users[i as int].user_id@);
                                } else {
                                    assert(before.users[i as int].user_id@ != before.users[k0].user_id@);
                                }
                            }
                        }
                        if wanted.dom().contains(user) {
                            let k0 = choose|k: int| before.holds_at(user, k);
                            let k = if k0 < i {
                                k0
                            } else {
                                k0 - 1
                            };
                            assert(self.holds_at(user, k));
                        }
                    }
                    assert forall|user: Seq<char>| #[trigger]
                        self@.dom().contains(user) implies self@[user] == wanted[user] by {
                        let k = choose|k: int| self.holds_at(user, k);
                        let k0 = if k < i {
                            k
                        } else {
                            k + 1
                        };
                        assert(before.holds_at(user, k0));
                        self.lemma_entry(user, k);
                        before.lemma_entry(user, k0);
                    }
                    assert(self@ =~= wanted);
                }
                Some(entry.online_since)
            },
            None => {
                proof {
                    assert(!before@.dom().contains(user_id@));
                    assert(self@ =~= before@.remove(user_id@));
                }
                None
            },
        }
    }
}

/// The row is left out: it is from before the start time, or of a user who
/// is not reported on.
pub open spec fn row_skipped(
    row: Row,
    start_time: Option<i64>,
    friend_ids: Option<Vec<String>>,
) -> bool {
    (start_time matches Some(start) && start > row.created_at) || !user_allowed(
        row.user_id@,
        friend_ids,
    )
}

/// Who is online after the row, where `online` were before it. A second
/// online event of a user replaces their first.
pub open spec fn online_after(
    online: Map<Seq<char>, i64>,
    row: Row,
    start_time: Option<i64>,
    friend_ids: Option<Vec<String>>,
) -> Map<Seq<char>, i64> {
    if row_skipped(row, start_time, friend_ids) {
        online
    } else {
        match row.event_type {
            OnlineOfflineEventType::Online => online.insert(row.user_id@, row.created_at),
            OnlineOfflineEventType::Offline => online.remove(row.user_id@),
        }
    }
}

/// The presence interval that the row completes, where `online` were online
/// before it: from a user's online event to the offline event that follows,
/// where that is later. An offline event at the very instant of the online
/// event completes nothing, and an earlier one is a fault.
pub open spec fn completed_interval(
    online: Map<Seq<char>, i64>,
    row: Row,
    start_time: Option<i64>,
    friend_ids: Option<Vec<String>>,
) -> Result<Option<TimeSpan>, NegativeDuration> {
    if row_skipped(row, start_time, friend_ids) || row.event_type
        == OnlineOfflineEventType::Online || !online.dom().contains(row.user_id@) {
        Ok(None)
    } else if row.created_at < online[row.user_id@] {
        Err(NegativeDuration { online_time: online[row.user_id@], offline_time: row.created_at })
    } else if row.created_at > online[row.user_id@] {
        Ok(Some(TimeSpan { start: online[row.user_id@], stop: row.created_at }))
    } else {
        Ok(None)
    }
}

impl OnlineUsers {
    /// Takes note of a row of the presence table and returns the presence
    /// interval that it completes, if any.
    pub fn observe(
        &mut self,
        row: &Row,
        start_time: Option<i64>,
        friend_ids: &Option<Vec<String>>,
    ) -> (outcome: Result<Option<TimeSpan>, NegativeDuration>)
        requires
            old(self).wf(),
        ensures
            final(self).wf(),
            final(self)@ == online_after(old(self)@, *row, start_time, *friend_ids),
            outcome == completed_interval(old(self)@, *row, start_time, *friend_ids),
    {
        // apply start_time filter
        match start_time {
            Some(start) => {
                if start > row.created_at {
                    return Ok(None);
                }
            },
            None => {},
        }
        if !is_user_allowed(row.user_id.as_str(), friend_ids) {
            return Ok(None);
        }
        match row.event_type {
            OnlineOfflineEventType::Online => {
                // it is intentional that this overwrites previous Online events,
                // because given two Online events in a row we should drop the first one
                self.insert(&row.user_id, row.created_at);
                Ok(None)
            },
            OnlineOfflineEventType::Offline => {
                match self.remove(&row.user_id) {
                    Some(online_time) => {
                        let offline_time: i64 = row.created_at;
                        if offline_time < online_time {
                            Err(NegativeDuration { online_time, offline_time })
                        } else if offline_time > online_time {
                            Ok(Some(TimeSpan::new(online_time, offline_time)))
                        } else {
                            // a simultaneous Online+Offline event is nonsensical: skip it
                            Ok(None)
                        }
                    },
                    // no matching online time, so drop the event
                    None => Ok(None),
                }
            },
        }
    }
}

/// Every part is of positive length.
pub open spec fn all_positive(parts: Seq<TimeSpan>) -> bool {
    forall|k: int| 0 <= k < parts.len() ==> (#[trigger] parts[k]).start < parts[k].stop
}

/// `part` is the first of `parts` that is not of positive length.
pub open spec fn is_first_fault(parts: Seq<TimeSpan>, part: TimeSpan) -> bool {
    exists|k: int|
        0 <= k < parts.len() && #[trigger] parts[k] == part && part.stop <= part.start
            && all_positive(parts.take(k))
}

/// The parts of `span` that are counted: those that clamping keeps.
/// Nothing is counted where clamping drops the span, or keeps a part that
/// is not of positive length.
pub open spec fn counted_parts(events: Seq<VrcxStartStopEvent>, span: TimeSpan) -> Seq<TimeSpan> {
    match clamp_outcome(events, span) {
        Some(parts) => if all_positive(parts) {
            parts
        } else {
            Seq::empty()
        },
        None => Seq::empty(),
    }
}

/// The number of counts that bucket `index` of `weekday` gains from `parts`.
pub open spec fn counts_of_parts(
    parts: Seq<TimeSpan>,
    bucket_minutes: int,
    utc_offset_seconds: int,
    weekday: int,
    index: int,
) -> nat
    decreases parts.len(),
{
    if parts.len() == 0 {
        0
    } else {
        counts_of_parts(parts.drop_last(), bucket_minutes, utc_offset_seconds, weekday, index)
            + counted_dates(bucket_minutes, utc_offset_seconds, parts.last(), weekday, index).len()
    }
}

/// The dates that bucket `index` of `weekday` gains from `parts`.
pub open spec fn dates_of_parts(
    parts: Seq<TimeSpan>,
    bucket_minutes: int,
    utc_offset_seconds: int,
    weekday: int,
    index: int,
) -> Set<i64>
    decreases parts.len(),
{
    if parts.len() == 0 {
        Set::empty()
    } else {
        dates_of_parts(parts.drop_last(), bucket_minutes, utc_offset_seconds, weekday, index).union(
            counted_dates(bucket_minutes, utc_offset_seconds, parts.last(), weekday, index),
        )
    }
}

/// The grid `after` holds what `before` held and what counting `parts` adds:
/// to each bucket the counts and the dates that it gains from them.
pub open spec fn counted_into(
    before: Seq<Vec<BucketValue>>,
    after: Seq<Vec<BucketValue>>,
    parts: Seq<TimeSpan>,
    bucket_minutes: int,
    utc_offset_seconds: int,
) -> bool {
    &&& grid_shape(after, buckets_per_day(bucket_minutes))
    &&& forall|d: int, b: int|
        0 <= d < 7 && 0 <= b < buckets_per_day(bucket_minutes) ==> (#[trigger] after[d][b]).online_count
            == before[d][b].online_count + counts_of_parts(
            parts,
            bucket_minutes,
            utc_offset_seconds,
            d,
            b,
        )
    &&& forall|d: int, b: int|
        0 <= d < 7 && 0 <= b < buckets_per_day(bucket_minutes) ==> (#[trigger] after[d][b]).dates()
            == before[d][b].dates().union(
            dates_of_parts(parts, bucket_minutes, utc_offset_seconds, d, b),
        )
}

/// The first parts give no more counts than all of them.
proof fn lemma_counts_of_prefix(
    parts: Seq<TimeSpan>,
    k: int,
    bucket_minutes: int,
    utc_offset_seconds: int,
    weekday: int,
    index: int,
)
    requires
        0 <= k <= parts.len(),
    ensures
        counts_of_parts(parts.take(k), bucket_minutes, utc_offset_seconds, weekday, index)
            <= counts_of_parts(parts, bucket_minutes, utc_offset_seconds, weekday, index),
    decreases parts.len(),
{
    if k == parts.len() {
        assert(parts.take(k) =~= parts);
    } else {
        assert(parts.drop_last().take(k) =~= parts.take(k));
        lemma_counts_of_prefix(
            parts.drop_last(),
            k,
            bucket_minutes,
            utc_offset_seconds,
            weekday,
            index,
        );
    }
}

/// Room for twice as many counts as counting `span` has steps is room for
/// counting the parts of `span` that clamping keeps.
pub proof fn lemma_room_for_presence(
    grid: Seq<Vec<BucketValue>>,
    events: Seq<VrcxStartStopEvent>,
    bucket_minutes: int,
    utc_offset_seconds: int,
    span: TimeSpan,
)
    requires
        well_formed_timeline(events),
        valid_bucket_minutes(bucket_minutes),
        grid_shape(grid, buckets_per_day(bucket_minutes)),
        -0x8000_0000 <= utc_offset_seconds < 0x8000_0000,
        span.start < span.stop,
        grid_has_room(grid, 2 * counted_steps(bucket_minutes, utc_offset_seconds, span)),
    ensures
        forall|d: int, b: int|
            0 <= d < 7 && 0 <= b < buckets_per_day(bucket_minutes) ==> (#[trigger] grid[d][b]).online_count
                + counts_of_parts(
                counted_parts(events, span),
                bucket_minutes,
                utc_offset_seconds,
                d,
                b,
            ) <= u32::MAX,
{
    let parts = counted_parts(events, span);
    let whole = counted_steps(bucket_minutes, utc_offset_seconds, span);
    lemma_clamp_containment(events, span);
    lemma_counted_steps_within(bucket_minutes, utc_offset_seconds, span, span);
    assert(parts.len() <= 2);
    assert forall|k: int| 0 <= k < parts.len() implies 0 <= counted_steps(
        bucket_minutes,
        utc_offset_seconds,
        #[trigger] parts[k],
    ) <= whole by {
        lemma_counted_steps_within(bucket_minutes, utc_offset_seconds, parts[k], span);
    }
    assert forall|d: int, b: int| 0 <= d < 7 && 0 <= b < buckets_per_day(bucket_minutes) implies (
    #[trigger] grid[d][b]).online_count + counts_of_parts(
        parts,
        bucket_minutes,
        utc_offset_seconds,
        d,
        b,
    ) <= u32::MAX by {
        reveal_with_fuel(counts_of_parts, 3);
        assert(grid[d][b].online_count + 2 * whole <= u32::MAX);
        if parts.len() >= 1 {
            let last = parts.last();
            assert(last == parts[parts.len() - 1]);
            lemma_counted_dates_bound(bucket_minutes, utc_offset_seconds, last, d, b);
            if parts.len() == 2 {
                let first = parts.drop_last().last();
                assert(first == parts[0]);
                lemma_counted_dates_bound(bucket_minutes, utc_offset_seconds, first, d, b);
            }
        }
    }
}

/// Counts a presence interval into the buckets, as far as the observer was
/// running during it.
///
/// The interval is clamped to the observer's uptime. Where it cannot be, it
/// is dropped and nothing is counted. A part of it that is not of positive
/// length is a fault, found before anything is counted.
pub fn count_presence_interval(
    time_span: TimeSpan,
    vrcx_start_stop_events: &[VrcxStartStopEvent],
    bucket_duration_minutes: u32,
    utc_offset_seconds: i32,
    buckets: &mut Vec<Vec<BucketValue>>,
) -> (outcome: Result<(), NonPositiveClamp>)
    requires
        well_formed_timeline(vrcx_start_stop_events@),
        valid_bucket_minutes(bucket_duration_minutes as int),
        grid_shape(old(buckets)@, buckets_per_day(bucket_duration_minutes as int)),
        forall|d: int, b: int|
            0 <= d < 7 && 0 <= b < buckets_per_day(bucket_duration_minutes as int) ==> (
            #[trigger] old(buckets)[d][b]).online_count + counts_of_parts(
                counted_parts(vrcx_start_stop_events@, time_span),
                bucket_duration_minutes as int,
                utc_offset_seconds as int,
                d,
                b,
            ) <= u32::MAX,
    ensures
        outcome is Err <==> (clamp_outcome(vrcx_start_stop_events@, time_span) matches Some(parts)
            && !all_positive(parts)),
        outcome matches Err(fault) ==> is_first_fault(
            clamp_outcome(vrcx_start_stop_events@, time_span)->0,
            fault.part,
        ),
        counted_into(
            old(buckets)@,
            final(buckets)@,
            counted_parts(vrcx_start_stop_events@, time_span),
            bucket_duration_minutes as int,
            utc_offset_seconds as int,
        ),
        counted_parts(vrcx_start_stop_events@, time_span).len() == 0 ==> final(buckets)@ == old(
            buckets,
        )@,
        grid_consistent(old(buckets)@) ==> grid_consistent(final(buckets)@),
{
    let ghost minutes = bucket_duration_minutes as int;
    let ghost offset = utc_offset_seconds as int;
    let ghost per_day = buckets_per_day(minutes);
    let ghost before = buckets@;
    proof {
        assert forall|d: int, b: int| 0 <= d < 7 && 0 <= b < per_day implies (
        #[trigger] buckets[d][b]).dates() == before[d][b].dates().union(
            dates_of_parts(Seq::<TimeSpan>::empty(), minutes, offset, d, b),
        ) by {
            assert(before[d][b].dates().union(Set::<i64>::empty()) =~= before[d][b].dates());
        }
    }
    let parts: Vec<TimeSpan> = match clamp_range_to_vrcx_uptime(
        time_span,
        vrcx_start_stop_events,
    ) {
        Ok(parts) => parts,
        // the range cannot be attributed to any uptime, so drop it
        Err(_) => {
            return Ok(());
        },
    };
    let mut k: usize = 0;
    while k < parts.len()
        invariant
            k <= parts.len(),
            forall|j: int| 0 <= j < k ==> (#[trigger] parts@[j]).start < parts@[j].stop,
            clamp_outcome(vrcx_start_stop_events@, time_span) == Some(parts@),
            buckets@ == before,
            before == old(buckets)@,
            grid_shape(before, per_day),
            per_day == buckets_per_day(bucket_duration_minutes as int),
            forall|d: int, b: int|
                0 <= d < 7 && 0 <= b < per_day ==> (#[trigger] buckets[d][b]).dates()
                    == before[d][b].dates().union(
                    dates_of_parts(Seq::<TimeSpan>::empty(), minutes, offset, d, b),
                ),
        decreases parts.len() - k,
    {
        if parts[k].is_negative_or_zero() {
            assert(all_positive(parts@.take(k as int)));
            return Err(NonPositiveClamp { part: parts[k] });
        }
        k = k + 1;
    }
    assert(counted_parts(vrcx_start_stop_events@, time_span) == parts@);
    // perfect, we got usable parts: update the buckets
    let mut k: usize = 0;
    proof {
        assert(parts@.take(0) =~= Seq::<TimeSpan>::empty());
    }
    while k < parts.len()
        invariant
            k <= parts.len(),
            minutes == bucket_duration_minutes,
            offset == utc_offset_seconds,
            per_day == buckets_per_day(minutes),
            valid_bucket_minutes(minutes),
            grid_shape(before, per_day),
            grid_shape(buckets@, per_day),
            forall|d: int, b: int|
                0 <= d < 7 && 0 <= b < per_day ==> (#[trigger] before[d][b]).online_count
                    + counts_of_parts(parts@, minutes, offset, d, b) <= u32::MAX,
            forall|d: int, b: int|
                0 <= d < 7 && 0 <= b < per_day ==> (#[trigger] buckets[d][b]).online_count
                    == before[d][b].online_count + counts_of_parts(
                    parts@.take(k as int),
                    minutes,
                    offset,
                    d,
                    b,
                ),
            forall|d: int, b: int|
                0 <= d < 7 && 0 <= b < per_day ==> (#[trigger] buckets[d][b]).dates()
                    == before[d][b].dates().union(
                    dates_of_parts(parts@.take(k as int), minutes, offset, d, b),
                ),
            grid_consistent(before) ==> grid_consistent(buckets@),
        decreases parts.len() - k,
    {
        let ghost previous = buckets@;
        let ghost done = parts@.take(k as int);
        let ghost next = parts@.take(k + 1);
        proof {
            assert(next.drop_last() =~= done);
            assert(next.last() == parts@[k as int]);
            assert forall|d: int, b: int| 0 <= d < 7 && 0 <= b < per_day implies (
            #[trigger] buckets[d][b]).online_count + counted_dates(
                minutes,
                offset,
                parts@[k as int],
                d,
                b,
            ).len() <= u32::MAX by {
                lemma_counts_of_prefix(parts@, k + 1, minutes, offset, d, b);
                assert(before[d][b].online_count + counts_of_parts(parts@, minutes, offset, d, b)
                    <= u32::MAX);
            }
        }
        update_bucket_counts_for_range(
            bucket_duration_minutes,
            utc_offset_seconds,
            parts[k],
            buckets,
        );
        proof {
            assert forall|d: int, b: int| 0 <= d < 7 && 0 <= b < per_day implies (
            #[trigger] buckets[d][b]).online_count == before[d][b].online_count
                + counts_of_parts(next, minutes, offset, d, b) && buckets[d][b].dates()
                == before[d][b].dates().union(dates_of_parts(next, minutes, offset, d, b)) by {
                let added = counted_dates(minutes, offset, parts@[k as int], d, b);
                assert(previous[d][b].online_count == before[d][b].online_count
                    + counts_of_parts(done, minutes, offset, d, b));
                assert(previous[d][b].dates() == before[d][b].dates().union(
                    dates_of_parts(done, minutes, offset, d, b),
                ));
                assert(buckets[d][b].dates() == previous[d][b].dates().union(added));
                assert(buckets[d][b].dates() =~= before[d][b].dates().union(
                    dates_of_parts(done, minutes, offset, d, b).union(added),
                ));
            }
        }
        k = k + 1;
    }
    proof {
        assert(parts@.take(k as int) =~= parts@);
    }
    Ok(())
}

/// Why a row of the presence table ends the run.
#[derive(Clone, Copy, Debug, PartialEq, Eq, Structural)]
pub enum PresenceFault {
    /// an offline event is earlier than the online event it answers
    NegativeDuration(NegativeDuration),
    /// clamping kept a part that is not of positive length
    NonPositiveClamp(NonPositiveClamp),
    /// some count of the grid has no room for counting the interval
    CountsFull { time_span: TimeSpan },
}

/// Takes note of a row of the presence table and counts the presence
/// interval that it completes, if any, as far as the observer was running
/// during it.
///
/// Before anything is counted, every count of the grid must have room for
/// twice as many counts as counting the whole interval has steps; that is
/// room for whatever parts clamping keeps of it. A fault leaves the grid as
/// it was.
pub fn process_row(
    online: &mut OnlineUsers,
    row: &Row,
    start_time: Option<i64>,
    friend_ids: &Option<Vec<String>>,
    vrcx_start_stop_events: &[VrcxStartStopEvent],
    bucket_duration_minutes: u32,
    utc_offset_seconds: i32,
    buckets: &mut Vec<Vec<BucketValue>>,
) -> (outcome: Result<(), PresenceFault>)
    requires
        old(online).wf(),
        well_formed_timeline(vrcx_start_stop_events@),
        valid_bucket_minutes(bucket_duration_minutes as int),
        grid_shape(old(buckets)@, buckets_per_day(bucket_duration_minutes as int)),
    ensures
        final(online).wf(),
        final(online)@ == online_after(old(online)@, *row, start_time, *friend_ids),
        grid_shape(final(buckets)@, buckets_per_day(bucket_duration_minutes as int)),
        grid_consistent(old(buckets)@) ==> grid_consistent(final(buckets)@),
        outcome is Err ==> final(buckets)@ == old(buckets)@,
        match completed_interval(old(online)@, *row, start_time, *friend_ids) {
            Err(fault) => outcome == Err::<(), PresenceFault>(
                PresenceFault::NegativeDuration(fault),
            ),
            Ok(None) => outcome is Ok && final(buckets)@ == old(buckets)@,
            Ok(Some(time_span)) => if !grid_has_room(
                old(buckets)@,
                2 * counted_steps(
                    bucket_duration_minutes as int,
                    utc_offset_seconds as int,
                    time_span,
                ),
            ) {
                outcome == Err::<(), PresenceFault>(PresenceFault::CountsFull { time_span })
            } else {
                &&& outcome is Err <==> (clamp_outcome(
                    vrcx_start_stop_events@,
                    time_span,
                ) matches Some(parts) && !all_positive(parts))
                &&& outcome matches Err(fault) ==> (fault matches PresenceFault::NonPositiveClamp(found)
                    && is_first_fault(
                    clamp_outcome(vrcx_start_stop_events@, time_span)->0,
                    found.part,
                ))
                &&& counted_into(
                    old(buckets)@,
                    final(buckets)@,
                    counted_parts(vrcx_start_stop_events@, time_span),
                    bucket_duration_minutes as int,
                    utc_offset_seconds as int,
                )
            },
        },
{
    let time_span: TimeSpan = match online.observe(row, start_time, friend_ids) {
        Ok(Some(time_span)) => time_span,
        Ok(None) => {
            return Ok(());
        },
        Err(fault) => {
            return Err(PresenceFault::NegativeDuration(fault));
        },
    };
    let steps: u64 = count_steps(bucket_duration_minutes, utc_offset_seconds, time_span);
    if !counts_have_room(buckets, 2 * steps) {
        return Err(PresenceFault::CountsFull { time_span });
    }
    proof {
        lemma_room_for_presence(
            buckets@,
            vrcx_start_stop_events@,
            bucket_duration_minutes as int,
            utc_offset_seconds as int,
            time_span,
        );
    }
    match count_presence_interval(
        time_span,
        vrcx_start_stop_events,
        bucket_duration_minutes,
        utc_offset_seconds,
        buckets,
    ) {
        Ok(()) => Ok(()),
        Err(fault) => Err(PresenceFault::NonPositiveClamp(fault)),
    }
}

} // verus!
