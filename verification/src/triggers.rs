//! The tasks that an alert has started and whose results are awaited. A result
//! of such a task counts once, and only within a day.
use vstd::prelude::*;

verus! {

/// A task that was started on a server, and until when its result counts.
#[derive(Debug, Clone, Copy)]
pub struct Awaited {
    pub cron_id: u64,
    pub server_id: u64,
    pub expires_at: u64,
}

/// Until when the results of a task on a server count, the last one started
/// last.
pub open spec fn awaited(v: Seq<Awaited>, cron_id: u64, server_id: u64) -> Seq<u64>
    decreases v.len(),
{
    if v.len() == 0 {
        seq![]
    } else {
        let before = awaited(v.drop_last(), cron_id, server_id);
        if v.last().cron_id == cron_id && v.last().server_id == server_id {
            before.push(v.last().expires_at)
        } else {
            before
        }
    }
}

/// The ones of them that still count.
pub open spec fn counting(v: Seq<u64>, now: u64) -> Seq<u64>
    decreases v.len(),
{
    if v.len() == 0 {
        seq![]
    } else if v.last() > now {
        counting(v.drop_last(), now).push(v.last())
    } else {
        counting(v.drop_last(), now)
    }
}

/// Until when the result of a task that was started at `now` counts.
pub open spec fn counts_until(now: u64) -> u64 {
    if now > u64::MAX - 86400 {
        u64::MAX
    } else {
        (now + 86400) as u64
    }
}

/// What is awaited of a task on a server, with one more that was started at `now`.
pub open spec fn reserved(v: Seq<u64>, now: u64) -> Seq<u64> {
    v.push(counts_until(now))
}

/// What is awaited of a task on a server, without the last.
pub open spec fn revoked(v: Seq<u64>) -> Seq<u64> {
    if v.len() > 0 {
        v.drop_last()
    } else {
        v
    }
}

/// Whether a result of a task on a server counts at `now`, and what is awaited of
/// it after that.
pub open spec fn taken(v: Seq<u64>, now: u64) -> (bool, Seq<u64>) {
    let left = counting(v, now);
    (left.len() > 0, revoked(left))
}

proof fn lemma_awaited_add(a: Seq<Awaited>, b: Seq<Awaited>, cron_id: u64, server_id: u64)
    ensures
        awaited(a + b, cron_id, server_id) == awaited(a, cron_id, server_id) + awaited(
            b,
            cron_id,
            server_id,
        ),
    decreases b.len(),
{
    if b.len() == 0 {
        assert(a + b =~= a);
        assert(awaited(a, cron_id, server_id) + awaited(b, cron_id, server_id) =~= awaited(
            a,
            cron_id,
            server_id,
        ));
    } else {
        lemma_awaited_add(a, b.drop_last(), cron_id, server_id);
        assert((a + b).drop_last() =~= a + b.drop_last());
        assert((a + b).last() == b.last());
        assert(awaited(a + b, cron_id, server_id) =~= awaited(a, cron_id, server_id) + awaited(
            b,
            cron_id,
            server_id,
        ));
    }
}

proof fn lemma_none_awaited(v: Seq<Awaited>, cron_id: u64, server_id: u64)
    requires
        forall|k: int|
            0 <= k < v.len() ==> !((#[trigger] v[k]).cron_id == cron_id && v[k].server_id
                == server_id),
    ensures
        awaited(v, cron_id, server_id) == Seq::<u64>::empty(),
    decreases v.len(),
{
    if v.len() > 0 {
        assert(v.last() == v[v.len() - 1]);
        assert forall|k: int| 0 <= k < v.drop_last().len() implies !((
        #[trigger] v.drop_last()[k]).cron_id == cron_id && v.drop_last()[k].server_id
            == server_id) by {
            assert(v.drop_last()[k] == v[k]);
        }
        lemma_none_awaited(v.drop_last(), cron_id, server_id);
    }
}

proof fn lemma_removed(v: Seq<Awaited>, i: int, cron_id: u64, server_id: u64, c: u64, s: u64)
    requires
        0 <= i < v.len(),
        v[i].cron_id == cron_id && v[i].server_id == server_id,
        forall|k: int|
            i < k < v.len() ==> !((#[trigger] v[k]).cron_id == cron_id && v[k].server_id
                == server_id),
    ensures
        c == cron_id && s == server_id ==> awaited(v, c, s).len() > 0 && awaited(v.remove(i), c, s)
            == awaited(v, c, s).drop_last(),
        c != cron_id || s != server_id ==> awaited(v.remove(i), c, s) == awaited(v, c, s),
{
    let a = v.take(i);
    let m = seq![v[i]];
    let b = v.skip(i + 1);
    assert(v =~= a + (m + b));
    assert(v.remove(i) =~= a + b);
    lemma_awaited_add(a, m + b, c, s);
    lemma_awaited_add(m, b, c, s);
    lemma_awaited_add(a, b, c, s);
    assert(m.drop_last() =~= seq![]);
    assert(awaited(m.drop_last(), c, s) =~= seq![]);
    if c == cron_id && s == server_id {
        assert forall|k: int| 0 <= k < b.len() implies !((#[trigger] b[k]).cron_id == cron_id
            && b[k].server_id == server_id) by {
            assert(b[k] == v[k + i + 1]);
        }
        lemma_none_awaited(b, c, s);
        assert(awaited(m, c, s) =~= seq![v[i].expires_at]);
        assert(awaited(v, c, s) =~= awaited(a, c, s).push(v[i].expires_at));
        assert(awaited(v.remove(i), c, s) =~= awaited(a, c, s));
        assert(awaited(v, c, s).drop_last() =~= awaited(a, c, s));
    } else {
        assert(awaited(m, c, s) =~= seq![]);
        assert(awaited(v, c, s) =~= awaited(a, c, s) + awaited(b, c, s));
    }
}

/// The tasks whose results are awaited.
pub struct PendingTriggers {
    awaited: Vec<Awaited>,
}

impl PendingTriggers {
    /// Until when the results of a task on a server count.
    pub closed spec fn of(&self, cron_id: u64, server_id: u64) -> Seq<u64> {
        awaited(self.awaited@, cron_id, server_id)
    }

    pub fn new() -> (r: PendingTriggers)
        ensures
            forall|c: u64, s: u64| #[trigger] r.of(c, s) == Seq::<u64>::empty(),
    {
        PendingTriggers { awaited: Vec::new() }
    }

    /// Awaits the result of a task that was started on a server.
    pub fn reserve_alert_trigger_result(&mut self, cron_id: u64, server_id: u64, now: u64)
        ensures
            forall|c: u64, s: u64| #[trigger]
                final(self).of(c, s) == if c == cron_id && s == server_id {
                    reserved(old(self).of(c, s), now)
                } else {
                    old(self).of(c, s)
                },
    {
        let expires_at: u64 = if now > u64::MAX - 86400 {
            u64::MAX
        } else {
            now + 86400
        };
        let ghost before = self.awaited@;
        self.awaited.push(Awaited { cron_id, server_id, expires_at });
        proof {
            assert(self.awaited@.drop_last() =~= before);
        }
    }

    /// Removes the last one of a task on a server, if there is one.
    fn take_last(&mut self, cron_id: u64, server_id: u64) -> (r: bool)
        ensures
            r == (old(self).of(cron_id, server_id).len() > 0),
            forall|c: u64, s: u64| #[trigger]
                final(self).of(c, s) == if r && c == cron_id && s == server_id {
                    old(self).of(c, s).drop_last()
                } else {
                    old(self).of(c, s)
                },
    {
        let ghost before = self.awaited@;
        let mut i: usize = self.awaited.len();
        while i > 0
            invariant
                i <= self.awaited@.len(),
                self.awaited@ == before,
                before == old(self).awaited@,
                forall|k: int|
                    i <= k < before.len() ==> !((#[trigger] before[k]).cron_id == cron_id
                        && before[k].server_id == server_id),
            decreases i,
        {
            i -= 1;
            if self.awaited[i].cron_id == cron_id && self.awaited[i].server_id == server_id {
                self.awaited.remove(i);
                proof {
                    lemma_removed(
                        before,
                        i as int,
                        cron_id,
                        server_id,
                        cron_id,
                        server_id,
                    );
                    assert forall|c: u64, s: u64| #[trigger]
                        self.of(c, s) == if c == cron_id && s == server_id {
                            old(self).of(c, s).drop_last()
                        } else {
                            old(self).of(c, s)
                        } by {
                        lemma_removed(before, i as int, cron_id, server_id, c, s);
                    }
                }
                return true;
            }
        }
        proof {
            lemma_none_awaited(before, cron_id, server_id);
        }
        false
    }

    /// Awaits the last result of a task on a server no longer.
    pub fn revoke_alert_trigger_result(&mut self, cron_id: u64, server_id: u64)
        ensures
            forall|c: u64, s: u64| #[trigger]
                final(self).of(c, s) == if c == cron_id && s == server_id {
                    revoked(old(self).of(c, s))
                } else {
                    old(self).of(c, s)
                },
    {
        self.take_last(cron_id, server_id);
    }

    /// Forgets what does not count any more.
    fn forget_expired(&mut self, now: u64)
        ensures
            forall|c: u64, s: u64| #[trigger]
                final(self).of(c, s) == counting(old(self).of(c, s), now),
    {
        let ghost all = self.awaited@;
        let mut kept: Vec<Awaited> = Vec::new();
        let mut i: usize = 0;
        while i < self.awaited.len()
            invariant
                i <= self.awaited@.len(),
                all == self.awaited@,
                all == old(self).awaited@,
                forall|c: u64, s: u64| #[trigger]
                    awaited(kept@, c, s) == counting(awaited(all.take(i as int), c, s), now),
            decreases self.awaited@.len() - i,
        {
            let a = self.awaited[i];
            let ghost before = kept@;
            if a.expires_at > now {
                kept.push(a);
            }
            proof {
                assert(all.take(i + 1).drop_last() =~= all.take(i as int));
                assert forall|c: u64, s: u64| #[trigger]
                    awaited(kept@, c, s) == counting(awaited(all.take(i + 1), c, s), now) by {
                    assert(awaited(before, c, s) == counting(
                        awaited(all.take(i as int), c, s),
                        now,
                    ));
                    let x = awaited(all.take(i as int), c, s);
                    assert(x.push(a.expires_at).drop_last() =~= x);
                    if a.expires_at > now {
                        assert(kept@.drop_last() =~= before);
                    }
                }
            }
            i += 1;
        }
        proof {
            assert(all.take(i as int) =~= all);
        }
        self.awaited = kept;
    }

    /// Takes a result of a task on a server: whether it counts. Each counts
    /// once.
    pub fn consume_alert_trigger_result(&mut self, cron_id: u64, server_id: u64, now: u64) -> (r:
        bool)
        ensures
            r == taken(old(self).of(cron_id, server_id), now).0,
            forall|c: u64, s: u64| #[trigger]
                final(self).of(c, s) == if c == cron_id && s == server_id {
                    taken(old(self).of(c, s), now).1
                } else {
                    counting(old(self).of(c, s), now)
                },
    {
        self.forget_expired(now);
        self.take_last(cron_id, server_id)
    }
}

/// What still counts later, counts now.
pub proof fn fewer_count_later(v: Seq<u64>, now: u64, later: u64)
    requires
        now <= later,
    ensures
        counting(counting(v, now), later) == counting(v, later),
    decreases v.len(),
{
    if v.len() > 0 {
        fewer_count_later(v.drop_last(), now, later);
        let x = counting(v.drop_last(), now);
        assert(x.push(v.last()).drop_last() =~= x);
    }
}

/// A result that is awaited no longer is as if it never had been.
pub proof fn revoking_undoes_reserving(v: Seq<u64>, now: u64)
    ensures
        revoked(reserved(v, now)) == v,
{
    assert(revoked(reserved(v, now)) =~= v);
}

/// The result of a task that was started at `now` counts for a day, and no
/// longer.
pub proof fn results_count_for_a_day(v: Seq<u64>, now: u64, later: u64)
    requires
        now + 86400 <= u64::MAX,
    ensures
        later < now + 24 * 60 * 60 ==> taken(reserved(v, now), later).0,
        later >= now + 24 * 60 * 60 ==> counting(reserved(v, now), later) == counting(v, later),
        later >= now + 24 * 60 * 60 ==> taken(reserved(v, now), later) == taken(v, later),
{
    assert(reserved(v, now).drop_last() =~= v);
}

/// A result counts once: where only one task was started, the second result that
/// comes of it does not count, however soon.
pub proof fn results_count_once(started: u64, now: u64, later: u64)
    requires
        now <= later,
    ensures
        !taken(taken(reserved(seq![], started), now).1, later).0,
        !taken(seq![], now).0,
        started <= now < started + 24 * 60 * 60 && now < u64::MAX ==> taken(
            reserved(seq![], started),
            now,
        ).0,
{
    let one = reserved(seq![], started);
    assert(one.drop_last() =~= seq![]);
    assert(counting(Seq::<u64>::empty(), now) =~= seq![]);
    assert(counting(Seq::<u64>::empty(), later) =~= seq![]);
    let left = counting(one, now);
    assert(left =~= one || left =~= seq![]);
    assert(taken(one, now).1 =~= seq![]);
}

/// Taking a result uses up one of those that still count, the one awaited last,
/// and no other.
pub proof fn one_result_is_used_up(v: Seq<u64>, now: u64)
    ensures
        taken(v, now).0 <==> exists|i: int| 0 <= i < v.len() && v[i] > now,
        taken(v, now).0 ==> taken(v, now).1.len() == v.filter(|t: u64| t > now).len() - 1,
        taken(v, now).1.is_prefix_of(v.filter(|t: u64| t > now)),
{
    lemma_counting(v, now);
    let left = v.filter(|t: u64| t > now);
    if taken(v, now).0 {
        assert(left.drop_last() =~= left.take(left.len() - 1));
    } else {
        assert(left =~= left.take(left.len() as int));
    }
}

proof fn lemma_counting(v: Seq<u64>, now: u64)
    ensures
        counting(v, now) == v.filter(|t: u64| t > now),
        counting(v, now).len() > 0 <==> exists|i: int| 0 <= i < v.len() && v[i] > now,
    decreases v.len(),
{
    reveal(Seq::filter);
    if v.len() > 0 {
        let front = v.drop_last();
        lemma_counting(front, now);
        if exists|i: int| 0 <= i < front.len() && front[i] > now {
            let i = choose|i: int| 0 <= i < front.len() && front[i] > now;
            assert(v[i] > now);
        }
        if v.last() > now {
            assert(v[v.len() - 1] > now);
        } else if exists|i: int| 0 <= i < v.len() && v[i] > now {
            let i = choose|i: int| 0 <= i < v.len() && v[i] > now;
            assert(front[i] > now);
        }
    }
}

} // verus!
