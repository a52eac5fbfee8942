//! What a pool promises to all its users together: no more connections are in
//! use than it has places, and no place is lost.

use vstd::prelude::*;

use crate::client::pool;
use crate::client::pool::{
    AcquireAction, AcquireEvent, AcquireStage, AuthMethod, IdleConnection, NegotiatedMeta, Pool,
    PoolError,
};
use crate::time::{Duration, Instant};

verus! {

/// How many acquisitions hold a place.
pub open spec fn places_held(stages: Seq<AcquireStage>) -> int
    decreases stages.len(),
{
    if stages.len() == 0 {
        0
    } else {
        places_held(stages.drop_last()) + if pool::holds_place(stages.last()) {
            1int
        } else {
            0
        }
    }
}

/// Whether every place of the pool is free, held by one of the acquisitions
/// under way, or taken by one of `in_use` connections.
pub open spec fn accounted<C, L: Clone, T: Clone>(
    pool: Pool<C, L, T>,
    stages: Seq<AcquireStage>,
    in_use: int,
) -> bool {
    in_use >= 0 && pool.available + places_held(stages) + in_use == pool.config.max_size
}

/// The number of places held is not negative, and counts each acquisition once.
proof fn lemma_places_held(stages: Seq<AcquireStage>, i: int, next: AcquireStage)
    requires
        0 <= i < stages.len(),
    ensures
        places_held(stages) >= if pool::holds_place(stages[i]) {
            1int
        } else {
            0
        },
        places_held(stages.update(i, next)) == places_held(stages) - (
        if pool::holds_place(stages[i]) {
            1int
        } else {
            0
        }) + if pool::holds_place(next) {
            1int
        } else {
            0
        },
    decreases stages.len(),
{
    let to = stages.update(i, next);
    lemma_places_not_negative(stages.drop_last());
    if i == stages.len() - 1 {
        assert(to.drop_last() =~= stages.drop_last());
    } else {
        assert(to.drop_last() =~= stages.drop_last().update(i, next));
        lemma_places_held(stages.drop_last(), i, next);
    }
}

/// The number of places held is not negative.
proof fn lemma_places_not_negative(stages: Seq<AcquireStage>)
    ensures
        places_held(stages) >= 0,
    decreases stages.len(),
{
    if stages.len() > 0 {
        lemma_places_not_negative(stages.drop_last());
    }
}

/// A new pool has all its places free.
pub proof fn law_new_pool_is_free<C, L: Clone, T: Clone>(pool: Pool<C, L, T>)
    requires
        pool.available == pool.config.max_size,
    ensures
        accounted(pool, Seq::empty(), 0),
{
}

/// An acquisition that begins holds no place yet.
pub proof fn law_begun_acquisition_holds_nothing<C, L: Clone, T: Clone>(
    pool: Pool<C, L, T>,
    stages: Seq<AcquireStage>,
    in_use: int,
)
    requires
        accounted(pool, stages, in_use),
    ensures
        accounted(pool, stages.push(AcquireStage::Permit), in_use),
{
    assert(stages.push(AcquireStage::Permit).drop_last() =~= stages);
}

/// Whatever happens to one of the acquisitions under way, no place is lost and
/// none is given out twice: a failed acquisition gives its place back, and one
/// that succeeds hands it on with its connection.
pub proof fn law_acquisition_keeps_places<C, L: Clone, T: Clone>(
    from: Pool<C, L, T>,
    stages: Seq<AcquireStage>,
    in_use: int,
    i: int,
    ev: AcquireEvent<C, L>,
    now: Instant,
    to: Pool<C, L, T>,
    next: AcquireStage,
    act: AcquireAction<C, T>,
)
    requires
        accounted(from, stages, in_use),
        0 <= i < stages.len(),
        Pool::goes_on(from, stages[i], ev, now, to, next, act),
    ensures
        pool::holds_place(stages[i]) ==> from.available < from.config.max_size,
        accounted(
            to,
            stages.update(i, next),
            if act is Use {
                in_use + 1
            } else {
                in_use
            },
        ),
{
    lemma_places_held(stages, i, next);
}

/// A connection that comes back gives its place back.
pub proof fn law_returned_connection_frees_place<C, L: Clone, T: Clone>(
    from: Pool<C, L, T>,
    stages: Seq<AcquireStage>,
    in_use: int,
    to: Pool<C, L, T>,
)
    requires
        accounted(from, stages, in_use),
        in_use > 0,
        to.config == from.config,
        to.available == from.available + 1,
    ensures
        from.available < from.config.max_size,
        accounted(to, stages, in_use - 1),
{
    lemma_places_not_negative(stages);
}

/// Never are more connections in use than the pool has places; and an
/// acquisition has to wait for a place only when all of them are taken.
pub proof fn law_in_use_within_bound<C, L: Clone, T: Clone>(
    pool: Pool<C, L, T>,
    stages: Seq<AcquireStage>,
    in_use: int,
)
    requires
        accounted(pool, stages, in_use),
    ensures
        in_use <= pool.config.max_size,
        pool.available == 0 ==> places_held(stages) + in_use == pool.config.max_size,
{
    lemma_places_not_negative(stages);
}

/// A connection that was idle no longer than the limit is used before any other
/// and before a new one is opened: with a free place, the acquisition asks to
/// ping the connection that came back first, if that one has not been idle for
/// longer than the limit, and leaves the others where they are.
pub proof fn law_idle_connection_is_used_again<C, L: Clone, T: Clone>(
    from: Pool<C, L, T>,
    now: Instant,
    to: Pool<C, L, T>,
    next: AcquireStage,
    act: AcquireAction<C, T>,
)
    requires
        Pool::goes_on(from, AcquireStage::Permit, AcquireEvent::Ready, now, to, next, act),
        from.available > 0,
        from.idle@.len() > 0,
        now.nanos - from.idle@[0].since.nanos <= from.config.idle_timeout.nanos,
    ensures
        act == (AcquireAction::<C, T>::Ping { conn: from.idle@[0].conn }),
        next == AcquireStage::Ping,
        to.available == from.available - 1,
        to.idle@ == from.idle@.skip(1),
{
}

/// Which connection is used is decided by how long each was idle: the first one
/// that was idle no longer than the limit, where those before it were idle for
/// longer; those are dropped. Where every one was idle for longer, all are
/// dropped and a new one is opened.
pub proof fn law_first_usable_connection_is_pinged<C, L: Clone, T: Clone>(
    from: Pool<C, L, T>,
    now: Instant,
    to: Pool<C, L, T>,
    next: AcquireStage,
    act: AcquireAction<C, T>,
    k: int,
)
    requires
        Pool::goes_on(from, AcquireStage::Permit, AcquireEvent::Ready, now, to, next, act),
        from.available > 0,
        0 <= k <= from.idle@.len(),
        forall|i: int|
            0 <= i < k ==> now.nanos - (#[trigger] from.idle@[i]).since.nanos
                > from.config.idle_timeout.nanos,
        k < from.idle@.len() ==> now.nanos - from.idle@[k].since.nanos
            <= from.config.idle_timeout.nanos,
    ensures
        k < from.idle@.len() ==> act == (AcquireAction::<C, T>::Ping { conn: from.idle@[k].conn })
            && next == AcquireStage::Ping && to.idle@ == from.idle@.skip(k + 1),
        k == from.idle@.len() ==> act is Connect && next == AcquireStage::Connect && to.idle@.len()
            == 0,
{
    lemma_stale_front(from.idle@, from.config.idle_timeout, now, k);
}

/// How many connections at the front were idle for longer than the limit.
proof fn lemma_stale_front<C>(s: Seq<IdleConnection<C>>, limit: Duration, now: Instant, k: int)
    requires
        0 <= k <= s.len(),
        forall|i: int| 0 <= i < k ==> now.nanos - (#[trigger] s[i]).since.nanos > limit.nanos,
        k < s.len() ==> now.nanos - s[k].since.nanos <= limit.nanos,
    ensures
        pool::stale_front(s, limit, now) == k,
    decreases k,
{
    if k > 0 {
        let rest = s.skip(1);
        assert(now.nanos - s[0].since.nanos > limit.nanos);
        assert forall|i: int| 0 <= i < k - 1 implies now.nanos - (#[trigger] rest[i]).since.nanos
            > limit.nanos by {
            assert(rest[i] == s[i + 1]);
        }
        lemma_stale_front(rest, limit, now, k - 1);
    }
}

/// Only how long connections were idle counts, not when: with every return and
/// the acquisition later by the same amount, the same connection is asked for,
/// or a new one as before.
pub proof fn law_only_idle_time_counts<C, L: Clone, T: Clone>(
    from: Pool<C, L, T>,
    now: Instant,
    to: Pool<C, L, T>,
    next: AcquireStage,
    act: AcquireAction<C, T>,
    later_from: Pool<C, L, T>,
    later: Instant,
    later_to: Pool<C, L, T>,
    later_next: AcquireStage,
    later_act: AcquireAction<C, T>,
)
    requires
        Pool::goes_on(from, AcquireStage::Permit, AcquireEvent::Ready, now, to, next, act),
        Pool::goes_on(
            later_from,
            AcquireStage::Permit,
            AcquireEvent::Ready,
            later,
            later_to,
            later_next,
            later_act,
        ),
        later_from.config.idle_timeout == from.config.idle_timeout,
        from.available > 0,
        later_from.available > 0,
        later_from.idle@.len() == from.idle@.len(),
        forall|i: int|
            0 <= i < from.idle@.len() ==> (#[trigger] later_from.idle@[i]).conn
                == from.idle@[i].conn && later_from.idle@[i].since.nanos
                - from.idle@[i].since.nanos == later.nanos - now.nanos,
    ensures
        act is Ping == later_act is Ping,
        act is Ping ==> act == later_act,
        next == later_next,
        to.idle@.len() == later_to.idle@.len(),
{
    lemma_stale_front_shifted(
        from.idle@,
        now,
        later_from.idle@,
        later,
        from.config.idle_timeout,
    );
}

/// The connections that were idle for too long are as many at a later time.
proof fn lemma_stale_front_shifted<C>(
    s: Seq<IdleConnection<C>>,
    now: Instant,
    t: Seq<IdleConnection<C>>,
    later: Instant,
    limit: Duration,
)
    requires
        s.len() == t.len(),
        forall|i: int|
            0 <= i < s.len() ==> (#[trigger] t[i]).since.nanos - s[i].since.nanos == later.nanos
                - now.nanos,
    ensures
        pool::stale_front(s, limit, now) == pool::stale_front(t, limit, later),
        0 <= pool::stale_front(s, limit, now) <= s.len(),
    decreases s.len(),
{
    if s.len() > 0 {
        let a = s.skip(1);
        let b = t.skip(1);
        assert(t[0].since.nanos - s[0].since.nanos == later.nanos - now.nanos);
        assert forall|i: int| 0 <= i < a.len() implies (#[trigger] b[i]).since.nanos
            - a[i].since.nanos == later.nanos - now.nanos by {
            assert(b[i] == t[i + 1]);
        }
        lemma_stale_front_shifted(a, now, b, later, limit);
    }
}

/// A connection that comes back to a pool without idle ones is the one that the
/// next acquisition asks to ping, until it has been idle for longer than the
/// limit; after that a new one is opened.
pub proof fn law_returned_connection_is_used_next<C, L: Clone, T: Clone>(
    from: Pool<C, L, T>,
    conn: C,
    since: Instant,
    mid: Pool<C, L, T>,
    now: Instant,
    to: Pool<C, L, T>,
    next: AcquireStage,
    act: AcquireAction<C, T>,
)
    requires
        from.idle@.len() == 0,
        from.config.max_size > 0,
        Pool::takes_back(from, conn, since, mid),
        Pool::goes_on(mid, AcquireStage::Permit, AcquireEvent::Ready, now, to, next, act),
    ensures
        now.nanos - since.nanos <= from.config.idle_timeout.nanos ==> act == (
        AcquireAction::<C, T>::Ping { conn }),
        now.nanos - since.nanos > from.config.idle_timeout.nanos ==> act is Connect,
        to.available == from.available,
        to.idle@.len() == 0,
{
    lemma_stale_front(
        mid.idle@,
        mid.config.idle_timeout,
        now,
        if now.nanos - since.nanos <= from.config.idle_timeout.nanos {
            0
        } else {
            1
        },
    );
    assert(mid.idle@[0].conn == conn);
}

/// A connection that comes back stands behind the idle ones that came back
/// before it, and none of those is moved; a pool that holds as many idle ones
/// as it may lets it go. Its place is free either way.
pub proof fn law_returned_connection_queues_up<C, L: Clone, T: Clone>(
    from: Pool<C, L, T>,
    conn: C,
    now: Instant,
    to: Pool<C, L, T>,
)
    requires
        Pool::takes_back(from, conn, now, to),
    ensures
        to.available == from.available + 1,
        forall|i: int| 0 <= i < from.idle@.len() ==> to.idle@[i] == #[trigger] from.idle@[i],
        from.idle@.len() < from.config.max_size ==> to.idle@.len() == from.idle@.len() + 1
            && to.idle@.last().conn == conn && to.idle@.last().since == now,
        from.idle@.len() >= from.config.max_size ==> to.idle@.len() == from.idle@.len(),
{
}

/// Without a free place an acquisition waits as long as the configuration says,
/// and touches nothing.
pub proof fn law_full_pool_makes_wait<C, L: Clone, T: Clone>(
    from: Pool<C, L, T>,
    now: Instant,
    to: Pool<C, L, T>,
    next: AcquireStage,
    act: AcquireAction<C, T>,
)
    requires
        Pool::goes_on(from, AcquireStage::Permit, AcquireEvent::Ready, now, to, next, act),
        from.available == 0,
    ensures
        act == (AcquireAction::<C, T>::WaitPermit { timeout: from.config.connect_timeout }),
        next == AcquireStage::Permit,
        to == from,
{
}

/// A connection that answers its ping is handed over; in place of one that does
/// not, a new one is opened.
pub proof fn law_ping_decides<C, L: Clone, T: Clone>(
    from: Pool<C, L, T>,
    ev: AcquireEvent<C, L>,
    now: Instant,
    to: Pool<C, L, T>,
    next: AcquireStage,
    act: AcquireAction<C, T>,
)
    requires
        Pool::goes_on(from, AcquireStage::Ping, ev, now, to, next, act),
    ensures
        ev matches AcquireEvent::PingOk { conn } ==> act == (AcquireAction::<C, T>::Use { conn })
            && next == AcquireStage::Over,
        ev is PingFailed ==> act is Connect && next == AcquireStage::Connect,
        to == from,
{
}

/// A new connection goes to the configured address, within the configured time
/// and encrypted exactly if the configuration says so, and is authenticated as
/// the configured user for the configured database before it is handed over.
pub proof fn law_new_connection_is_authenticated<C, L: Clone, T: Clone>(
    from: Pool<C, L, T>,
    stage: AcquireStage,
    ev: AcquireEvent<C, L>,
    now: Instant,
    to: Pool<C, L, T>,
    next: AcquireStage,
    act: AcquireAction<C, T>,
)
    requires
        Pool::goes_on(from, stage, ev, now, to, next, act),
    ensures
        act matches AcquireAction::Connect { addr, tls, timeout } ==> addr@ == from.config.addr@
            && timeout == from.config.connect_timeout && (tls is Some <==> from.config.tls.enabled)
            && next == AcquireStage::Connect,
        stage == AcquireStage::Connect ==> !(act is Use),
        stage == AcquireStage::Connect && ev is Connected ==> act is Authenticate && next
            == AcquireStage::Authenticate,
        act matches AcquireAction::Authenticate { conn, auth, database } ==> {
            &&& ev matches AcquireEvent::Connected { conn: c } && c == conn
            &&& auth matches AuthMethod::Password { username, password } ==> (
            from.config.auth matches AuthMethod::Password { username: u, password: p } && username@
                == u@ && password@ == p@)
            &&& auth matches AuthMethod::Trust { username } ==> (
            from.config.auth matches AuthMethod::Trust { username: u } && username@ == u@)
            &&& database is Some <==> from.config.database is Some
            &&& database is Some ==> database->0@ == from.config.database->0@
        },
        stage == AcquireStage::Authenticate ==> (ev matches AcquireEvent::Authenticated { conn, .. }
            ==> act == (AcquireAction::<C, T>::Use { conn })),
        act is Use ==> stage == AcquireStage::Ping || stage == AcquireStage::Authenticate,
{
}

/// What the first server said at its handshake is kept; a later one does not
/// change it.
pub proof fn law_first_handshake_is_kept<C, L: Clone, T: Clone>(
    from: Pool<C, L, T>,
    conn: C,
    meta: NegotiatedMeta<L>,
    now: Instant,
    to: Pool<C, L, T>,
    next: AcquireStage,
    act: AcquireAction<C, T>,
)
    requires
        Pool::goes_on(
            from,
            AcquireStage::Authenticate,
            AcquireEvent::Authenticated { conn, meta },
            now,
            to,
            next,
            act,
        ),
    ensures
        from.meta is None ==> to.meta == Some(meta),
        from.meta is Some ==> to.meta == from.meta,
{
}

/// An acquisition that fails is told why, and its place, if it held one, is free
/// again.
pub proof fn law_failed_acquisition_is_told_why<C, L: Clone, T: Clone>(
    from: Pool<C, L, T>,
    stage: AcquireStage,
    ev: AcquireEvent<C, L>,
    now: Instant,
    to: Pool<C, L, T>,
    next: AcquireStage,
    act: AcquireAction<C, T>,
)
    requires
        Pool::goes_on(from, stage, ev, now, to, next, act),
        pool::holds_place(stage) ==> from.available < from.config.max_size,
    ensures
        stage == AcquireStage::Permit && ev is PermitTimedOut ==> act == (
        AcquireAction::<C, T>::Fail { error: PoolError::AcquireTimeout }) && to == from,
        stage == AcquireStage::Permit && ev is PermitClosed ==> act == (
        AcquireAction::<C, T>::Fail { error: PoolError::Closed }) && to == from,
        stage == AcquireStage::Connect && ev is ConnectTimedOut ==> act == (
        AcquireAction::<C, T>::Fail { error: PoolError::ConnectTimeout }) && to.available
            == from.available + 1,
        (stage == AcquireStage::Connect || stage == AcquireStage::Authenticate) ==> (ev matches
            AcquireEvent::Failed { detail } ==> act == (AcquireAction::<C, T>::Fail {
            error: PoolError::Connection { detail },
        }) && to.available == from.available + 1),
        act is Fail ==> next == AcquireStage::Over && to.idle@ == from.idle@,
{
}

} // verus!
