//! A bounded pool of connections.
//!
//! The pool hands out idle connections first, each after a health check, and
//! opens new ones up to its bound. Waiting, pinging, connecting and
//! authenticating happen outside; the pool says which of them comes next and
//! keeps the books.

use std::collections::VecDeque;

use vstd::prelude::*;

use crate::time::{Duration, Instant};

verus! {

/// How a client proves who it is.
#[derive(Debug)]
pub enum AuthMethod {
    Trust { username: String },
    Password { username: String, password: String },
}

impl Clone for AuthMethod {
    fn clone(&self) -> (r: AuthMethod)
        ensures
            auth_view(r) == auth_view(*self),
    {
        match self {
            AuthMethod::Trust { username } => AuthMethod::Trust { username: username.clone() },
            AuthMethod::Password { username, password } => AuthMethod::Password {
                username: username.clone(),
                password: password.clone(),
            },
        }
    }
}

/// A way to prove who one is, as values: the user, and the password if there is one.
pub open spec fn auth_view(a: AuthMethod) -> (Seq<char>, Option<Seq<char>>) {
    match a {
        AuthMethod::Trust { username } => (username@, None),
        AuthMethod::Password { username, password } => (username@, Some(password@)),
    }
}

/// How connections are encrypted. `T` stands for the settings, such as
/// certificates.
#[derive(Debug)]
pub struct TlsConfig<T> {
    /// Whether they are.
    pub enabled: bool,
    pub settings: T,
}

impl<T: Clone> Clone for TlsConfig<T> {
    fn clone(&self) -> (r: TlsConfig<T>)
        ensures
            r.enabled == self.enabled,
            cloned(self.settings, r.settings),
    {
        TlsConfig { enabled: self.enabled, settings: self.settings.clone() }
    }
}

impl<T: Default> Default for TlsConfig<T> {
    fn default() -> (r: TlsConfig<T>)
        ensures
            !r.enabled,
            call_ensures(T::default, (), r.settings),
    {
        TlsConfig { enabled: false, settings: T::default() }
    }
}

/// Configuration of a pool.
#[derive(Debug)]
pub struct PoolConfig<T = ()> {
    /// Server address, as host and port.
    pub addr: String,
    /// Largest number of connections in use at a time.
    pub max_size: usize,
    /// How long to wait for a free place, and for a connection.
    pub connect_timeout: Duration,
    /// A connection that was idle for longer is not used again.
    pub idle_timeout: Duration,
    pub auth: AuthMethod,
    /// Database to use; the server's default if not given.
    pub database: Option<String>,
    /// How connections are encrypted; not at all by default.
    pub tls: TlsConfig<T>,
}

impl<T: Clone> Clone for PoolConfig<T> {
    fn clone(&self) -> (r: PoolConfig<T>)
        ensures
            r.addr@ == self.addr@,
            r.max_size == self.max_size,
            r.connect_timeout == self.connect_timeout,
            r.idle_timeout == self.idle_timeout,
            auth_view(r.auth) == auth_view(self.auth),
            name_view(r.database) == name_view(self.database),
            r.tls.enabled == self.tls.enabled,
            cloned(self.tls.settings, r.tls.settings),
    {
        PoolConfig {
            addr: self.addr.clone(),
            max_size: self.max_size,
            connect_timeout: self.connect_timeout,
            idle_timeout: self.idle_timeout,
            auth: self.auth.clone(),
            database: match &self.database {
                Some(d) => Some(d.clone()),
                None => None,
            },
            tls: self.tls.clone(),
        }
    }
}

impl<T: Default> Default for PoolConfig<T> {
    fn default() -> (r: PoolConfig<T>)
        ensures
            r.addr@ == "127.0.0.1:6433"@,
            r.max_size == 10,
            r.connect_timeout.nanos == 5_000_000_000,
            r.idle_timeout.nanos == 300_000_000_000,
            auth_view(r.auth) == ("admin"@, None::<Seq<char>>),
            r.database is None,
            !r.tls.enabled,
            call_ensures(T::default, (), r.tls.settings),
    {
        PoolConfig {
            addr: "127.0.0.1:6433".to_owned(),
            max_size: 10,
            connect_timeout: Duration::from_secs(5),
            idle_timeout: Duration::from_secs(300),
            auth: AuthMethod::Trust { username: "admin".to_owned() },
            database: None,
            tls: TlsConfig::default(),
        }
    }
}

/// What the first handshake of a pool agreed on. `L` stands for the limits that
/// the server set.
#[derive(Debug)]
pub struct NegotiatedMeta<L = ()> {
    pub proto_version: u16,
    pub capabilities: u64,
    pub server_version: String,
    pub limits: L,
}

/// What was agreed on besides the limits, as values.
pub open spec fn meta_view<L>(m: NegotiatedMeta<L>) -> (u16, u64, Seq<char>) {
    (m.proto_version, m.capabilities, m.server_version@)
}

impl<L: Default> Default for NegotiatedMeta<L> {
    fn default() -> (r: NegotiatedMeta<L>)
        ensures
            meta_view(r) == (0u16, 0u64, Seq::<char>::empty()),
            call_ensures(L::default, (), r.limits),
    {
        let r = NegotiatedMeta {
            proto_version: 0,
            capabilities: 0,
            server_version: String::new(),
            limits: L::default(),
        };
        assert(r.server_version@ =~= Seq::<char>::empty());
        r
    }
}

impl<L: Clone> Clone for NegotiatedMeta<L> {
    fn clone(&self) -> (r: NegotiatedMeta<L>)
        ensures
            meta_view(r) == meta_view(*self),
            cloned(self.limits, r.limits),
    {
        NegotiatedMeta {
            proto_version: self.proto_version,
            capabilities: self.capabilities,
            server_version: self.server_version.clone(),
            limits: self.limits.clone(),
        }
    }
}

/// Why no connection came.
#[derive(Debug)]
pub enum PoolError {
    /// No place became free in time.
    AcquireTimeout,
    /// The pool is closed.
    Closed,
    /// The server did not answer in time.
    ConnectTimeout,
    /// The connection or the authentication failed.
    Connection { detail: String },
}

/// A connection that is not in use, and since when.
pub struct IdleConnection<C> {
    pub conn: C,
    pub since: Instant,
}

/// The pool's books. `C` stands for a connection, `L` for the limits that a
/// handshake agrees on, `T` for the settings of encryption.
pub struct Pool<C, L = (), T = ()> {
    pub config: PoolConfig<T>,
    /// Connections not in use, the one that has been idle longest first.
    pub idle: VecDeque<IdleConnection<C>>,
    /// What the first handshake agreed on.
    pub meta: Option<NegotiatedMeta<L>>,
    /// Places that are free.
    pub available: usize,
}

/// What an acquisition waits for.
#[derive(Debug, Clone, Copy, PartialEq, Eq, Structural)]
pub enum AcquireStage {
    /// A free place.
    Permit,
    /// The health check of an idle connection.
    Ping,
    /// A new connection.
    Connect,
    /// Its authentication.
    Authenticate,
    /// Nothing more.
    Over,
}

/// What happened outside.
pub enum AcquireEvent<C, L = ()> {
    /// A free place may be there.
    Ready,
    /// None came in time.
    PermitTimedOut,
    /// None will come.
    PermitClosed,
    /// The idle connection is alive.
    PingOk { conn: C },
    /// The idle connection is dead.
    PingFailed,
    /// The server took a connection, handshake included.
    Connected { conn: C },
    /// The server did not answer in time.
    ConnectTimedOut,
    /// The connection, or its authentication, failed.
    Failed { detail: String },
    /// The server accepted who the client is.
    Authenticated { conn: C, meta: NegotiatedMeta<L> },
}

/// What is to be done outside.
pub enum AcquireAction<C, T = ()> {
    /// Wait for a free place.
    WaitPermit { timeout: Duration },
    /// Check whether the connection is alive.
    Ping { conn: C },
    /// Open a connection, encrypted with these settings if there are any. This
    /// includes the handshake, which is not done again.
    Connect { addr: String, tls: Option<T>, timeout: Duration },
    /// Authenticate on the connection.
    Authenticate { conn: C, auth: AuthMethod, database: Option<String> },
    /// The connection is the caller's.
    Use { conn: C },
    /// There is no connection.
    Fail { error: PoolError },
    /// What happened does not fit the stage; nothing is to be done.
    Ignore,
}

/// Whether a connection has been idle for too long.
pub open spec fn is_stale(since: Instant, limit: Duration, now: Instant) -> bool {
    now.nanos > since.nanos && now.nanos - since.nanos > limit.nanos
}

/// How many connections at the front have been idle for too long.
pub open spec fn stale_front<C>(s: Seq<IdleConnection<C>>, limit: Duration, now: Instant) -> int
    decreases s.len(),
{
    if s.len() == 0 || !is_stale(s[0].since, limit, now) {
        0
    } else {
        1 + stale_front(s.skip(1), limit, now)
    }
}

/// The view of an optional name.
pub open spec fn name_view(o: Option<String>) -> Option<Seq<char>> {
    match o {
        Some(s) => Some(s@),
        None => None,
    }
}

/// Whether an acquisition in this stage holds a place.
pub open spec fn holds_place(stage: AcquireStage) -> bool {
    stage == AcquireStage::Ping || stage == AcquireStage::Connect || stage
        == AcquireStage::Authenticate
}

impl<C, L: Clone, T: Clone> Pool<C, L, T> {
    /// Places in use and idle connections stay within the bound.
    pub open spec fn wf(&self) -> bool {
        self.available <= self.config.max_size && self.idle@.len() <= self.config.max_size
    }

    /// Whether `act` opens a new connection as the configuration says, encrypted
    /// if that is switched on.
    pub open spec fn connects(&self, act: AcquireAction<C, T>) -> bool {
        act matches AcquireAction::Connect { addr, tls, timeout } && addr@ == self.config.addr@
            && timeout == self.config.connect_timeout && (tls is Some
            <==> self.config.tls.enabled) && (tls matches Some(t) ==> cloned(
            self.config.tls.settings,
            t,
        ))
    }

    /// An empty pool, all of whose places are free.
    pub fn new(config: PoolConfig<T>) -> (r: Pool<C, L, T>)
        ensures
            r.wf(),
            r.config == config,
            r.available == config.max_size,
            r.idle@ == Seq::<IdleConnection<C>>::empty(),
            r.meta is None,
    {
        let available: usize = config.max_size;
        Pool { config, idle: VecDeque::new(), meta: None, available }
    }

    /// What the first handshake agreed on; nothing before it.
    pub fn negotiated_meta(&self) -> (r: Option<NegotiatedMeta<L>>)
        ensures
            match self.meta {
                Some(m) => r matches Some(n) && meta_view(n) == meta_view(m) && cloned(
                    m.limits,
                    n.limits,
                ),
                None => r is None,
            },
    {
        match &self.meta {
            Some(m) => Some(m.clone()),
            None => None,
        }
    }

    /// Takes the connection that has been idle longest, past those that have
    /// been idle for too long, which are dropped.
    fn pop_idle(&mut self, now: Instant) -> (r: Option<C>)
        requires
            old(self).wf(),
        ensures
            final(self).wf(),
            final(self).config == old(self).config,
            final(self).meta == old(self).meta,
            final(self).available == old(self).available,
            ({
                let s = old(self).idle@;
                let k = stale_front(s, old(self).config.idle_timeout, now);
                &&& 0 <= k <= s.len()
                &&& if k < s.len() {
                    r == Some(s[k].conn) && final(self).idle@ == s.skip(k + 1)
                } else {
                    r is None && final(self).idle@ == Seq::<IdleConnection<C>>::empty()
                }
            }),
    {
        let ghost s = self.idle@;
        let ghost mut n: int = 0;
        let limit: Duration = self.config.idle_timeout;
        assert(s.skip(0) =~= s);
        while self.idle.len() > 0
            invariant
                0 <= n <= s.len(),
                s == old(self).idle@,
                s.len() <= self.config.max_size,
                limit == self.config.idle_timeout,
                self.idle@ == s.skip(n),
                stale_front(s, limit, now) == n + stale_front(s.skip(n), limit, now),
                self.config == old(self).config,
                self.meta == old(self).meta,
                self.available == old(self).available,
                self.available <= self.config.max_size,
            decreases self.idle@.len(),
        {
            match self.idle.pop_front() {
                Some(c) => {
                    proof {
                        assert(s.skip(n)[0] == s[n]);
                        assert(s.skip(n).skip(1) =~= s.skip(n + 1));
                        assert(self.idle@ =~= s.skip(n + 1));
                    }
                    let stale: bool = now.nanos > c.since.nanos && now.nanos - c.since.nanos
                        > limit.nanos;
                    if !stale {
                        return Some(c.conn);
                    }
                    proof {
                        n = n + 1;
                    }
                },
                None => {},
            }
        }
        assert(s.skip(n) =~= Seq::empty());
        None
    }

    /// The action that opens a new connection.
    fn open_action(&self) -> (act: AcquireAction<C, T>)
        ensures
            self.connects(act),
    {
        AcquireAction::Connect {
            addr: self.config.addr.clone(),
            tls: if self.config.tls.enabled {
                Some(self.config.tls.settings.clone())
            } else {
                None
            },
            timeout: self.config.connect_timeout,
        }
    }

    /// Gives a place back after an acquisition failed.
    fn give_up(&mut self, stage: &mut AcquireStage, error: PoolError) -> (act: AcquireAction<C, T>)
        requires
            old(self).wf(),
            old(self).available < old(self).config.max_size,
        ensures
            final(self).wf(),
            act == (AcquireAction::<C, T>::Fail { error }),
            *final(stage) == AcquireStage::Over,
            *final(self) == (Pool {
                available: (old(self).available + 1) as usize,
                ..*old(self)
            }),
    {
        self.available = self.available + 1;
        *stage = AcquireStage::Over;
        AcquireAction::Fail { error }
    }

    /// Whether an acquisition that waited in `stage` goes on as it should after
    /// `ev`: the pool becomes `to`, the acquisition waits in `next`, and `act`
    /// is to be done.
    pub open spec fn goes_on(
        from: Pool<C, L, T>,
        stage: AcquireStage,
        ev: AcquireEvent<C, L>,
        now: Instant,
        to: Pool<C, L, T>,
        next: AcquireStage,
        act: AcquireAction<C, T>,
    ) -> bool {
        &&& to.config == from.config
        &&& {
            let k = stale_front(from.idle@, from.config.idle_timeout, now);
            match (stage, ev) {
                (AcquireStage::Permit, AcquireEvent::Ready) => if from.available == 0 {
                    &&& act == (AcquireAction::<C, T>::WaitPermit {
                        timeout: from.config.connect_timeout,
                    })
                    &&& next == AcquireStage::Permit && to == from
                } else {
                    &&& to.available == from.available - 1
                    &&& to.meta == from.meta
                    &&& if k < from.idle@.len() {
                        &&& act == (AcquireAction::<C, T>::Ping { conn: from.idle@[k].conn })
                        &&& next == AcquireStage::Ping
                        &&& to.idle@ == from.idle@.skip(k + 1)
                    } else {
                        &&& from.connects(act)
                        &&& next == AcquireStage::Connect
                        &&& to.idle@ == Seq::<IdleConnection<C>>::empty()
                    }
                },
                (AcquireStage::Permit, AcquireEvent::PermitTimedOut) => act == (
                AcquireAction::<C, T>::Fail { error: PoolError::AcquireTimeout }) && next
                    == AcquireStage::Over && to == from,
                (AcquireStage::Permit, AcquireEvent::PermitClosed) => act == (
                AcquireAction::<C, T>::Fail { error: PoolError::Closed }) && next
                    == AcquireStage::Over && to == from,
                (AcquireStage::Ping, AcquireEvent::PingOk { conn }) => act == (
                AcquireAction::<C, T>::Use { conn }) && next == AcquireStage::Over && to
                    == from,
                (AcquireStage::Ping, AcquireEvent::PingFailed) => from.connects(act)
                    && next == AcquireStage::Connect && to == from,
                (AcquireStage::Connect, AcquireEvent::Connected { conn }) => {
                    &&& act matches AcquireAction::Authenticate { conn: c, auth, database } && c
                        == conn && auth_view(auth) == auth_view(from.config.auth) && name_view(
                        database,
                    ) == name_view(from.config.database)
                    &&& next == AcquireStage::Authenticate && to == from
                },
                (AcquireStage::Connect, AcquireEvent::ConnectTimedOut) => act == (
                AcquireAction::<C, T>::Fail { error: PoolError::ConnectTimeout }) && next
                    == AcquireStage::Over && to == (Pool {
                    available: (from.available + 1) as usize,
                    ..from
                }),
                (AcquireStage::Connect, AcquireEvent::Failed { detail }) => act == (
                AcquireAction::<C, T>::Fail { error: PoolError::Connection { detail } })
                    && next == AcquireStage::Over && to == (Pool {
                    available: (from.available + 1) as usize,
                    ..from
                }),
                (AcquireStage::Authenticate, AcquireEvent::Failed { detail }) => act == (
                AcquireAction::<C, T>::Fail { error: PoolError::Connection { detail } })
                    && next == AcquireStage::Over && to == (Pool {
                    available: (from.available + 1) as usize,
                    ..from
                }),
                (AcquireStage::Authenticate, AcquireEvent::Authenticated { conn, meta }) => {
                    &&& act == (AcquireAction::<C, T>::Use { conn })
                    &&& next == AcquireStage::Over
                    &&& to == (Pool {
                        meta: if from.meta is None {
                            Some(meta)
                        } else {
                            from.meta
                        },
                        ..from
                    })
                },
                _ => act is Ignore && next == stage && to == from,
            }
        }
    }

    /// What comes next in an acquisition after something happened outside: a
    /// place, then an idle connection that is alive, else a new one that is
    /// authenticated. A place is given back when the acquisition fails.
    pub fn acquire(
        &mut self,
        stage: &mut AcquireStage,
        ev: AcquireEvent<C, L>,
        now: Instant,
    ) -> (act: AcquireAction<C, T>)
        requires
            old(self).wf(),
            holds_place(*old(stage)) ==> old(self).available < old(self).config.max_size,
        ensures
            final(self).wf(),
            Self::goes_on(*old(self), *old(stage), ev, now, *final(self), *final(stage), act),
    {
        match (*stage, ev) {
            (AcquireStage::Permit, AcquireEvent::Ready) => {
                if self.available == 0 {
                    return AcquireAction::WaitPermit { timeout: self.config.connect_timeout };
                }
                self.available = self.available - 1;
                match self.pop_idle(now) {
                    Some(conn) => {
                        *stage = AcquireStage::Ping;
                        AcquireAction::Ping { conn }
                    },
                    None => {
                        *stage = AcquireStage::Connect;
                        self.open_action()
                    },
                }
            },
            (AcquireStage::Permit, AcquireEvent::PermitTimedOut) => {
                *stage = AcquireStage::Over;
                AcquireAction::Fail { error: PoolError::AcquireTimeout }
            },
            (AcquireStage::Permit, AcquireEvent::PermitClosed) => {
                *stage = AcquireStage::Over;
                AcquireAction::Fail { error: PoolError::Closed }
            },
            (AcquireStage::Ping, AcquireEvent::PingOk { conn }) => {
                *stage = AcquireStage::Over;
                AcquireAction::Use { conn }
            },
            (AcquireStage::Ping, AcquireEvent::PingFailed) => {
                *stage = AcquireStage::Connect;
                self.open_action()
            },
            (AcquireStage::Connect, AcquireEvent::Connected { conn }) => {
                *stage = AcquireStage::Authenticate;
                let database = match &self.config.database {
                    Some(d) => Some(d.clone()),
                    None => None,
                };
                AcquireAction::Authenticate { conn, auth: self.config.auth.clone(), database }
            },
            (AcquireStage::Connect, AcquireEvent::ConnectTimedOut) => {
                self.give_up(stage, PoolError::ConnectTimeout)
            },
            (AcquireStage::Connect, AcquireEvent::Failed { detail }) => {
                self.give_up(stage, PoolError::Connection { detail })
            },
            (AcquireStage::Authenticate, AcquireEvent::Failed { detail }) => {
                self.give_up(stage, PoolError::Connection { detail })
            },
            (AcquireStage::Authenticate, AcquireEvent::Authenticated { conn, meta }) => {
                *stage = AcquireStage::Over;
                if self.meta.is_none() {
                    self.meta = Some(meta);
                }
                AcquireAction::Use { conn }
            },
            _ => AcquireAction::Ignore,
        }
    }

    /// Whether the pool becomes `to` when a connection comes back: its place is
    /// free again, and it goes to the idle ones, unless there are as many as the
    /// pool may hold.
    pub open spec fn takes_back(
        from: Pool<C, L, T>,
        conn: C,
        now: Instant,
        to: Pool<C, L, T>,
    ) -> bool {
        &&& to.config == from.config
        &&& to.meta == from.meta
        &&& to.available == from.available + 1
        &&& to.idle@ == if from.idle@.len() < from.config.max_size {
            from.idle@.push(IdleConnection { conn, since: now })
        } else {
            from.idle@
        }
    }

    /// Takes a connection back from its user, and its place with it. The
    /// connection goes to the idle ones, unless there are as many as the pool
    /// may hold.
    pub fn put_back(&mut self, conn: C, now: Instant)
        requires
            old(self).wf(),
            old(self).available < old(self).config.max_size,
        ensures
            final(self).wf(),
            Self::takes_back(*old(self), conn, now, *final(self)),
    {
        if self.idle.len() < self.config.max_size {
            self.idle.push_back(IdleConnection { conn, since: now });
        }
        self.available = self.available + 1;
    }
}

} // verus!
