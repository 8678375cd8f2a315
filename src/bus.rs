use vstd::prelude::*;

verus! {

/// A bus-level transaction failure (device absent, NACK, transport timeout).
#[derive(Debug, Clone, Copy, PartialEq, Eq, Structural)]
pub struct BusError;

/// One bus transaction as the drivers see it.
pub enum Txn {
    /// A write of `bytes` to `addr`; `ok` tells whether it succeeded.
    Write { addr: u8, bytes: Seq<u8>, ok: bool },
    /// A read of `len` bytes from `addr`; the bytes, or `None` on failure.
    Read { addr: u8, len: usize, reply: Option<Seq<u8>> },
    /// A write of `wr` to `addr` followed by a read of `len` bytes in the same
    /// transaction; the bytes read, or `None` on failure.
    WriteRead { addr: u8, wr: Seq<u8>, len: usize, reply: Option<Seq<u8>> },
}

/// The bytes of a successful read.
pub open spec fn reply_of(r: Result<Vec<u8>, BusError>) -> Option<Seq<u8>> {
    match r {
        Ok(v) => Some(v@),
        Err(_) => None,
    }
}

/// Whether `new` is `old` with transactions appended.
pub open spec fn extends(old: Seq<Txn>, new: Seq<Txn>) -> bool {
    old.len() <= new.len() && new.subrange(0, old.len() as int) == old
}

/// The transactions of `new` after those of `old`.
pub open spec fn added(old: Seq<Txn>, new: Seq<Txn>) -> Seq<Txn> {
    new.subrange(old.len() as int, new.len() as int)
}

/// An I2C controller.
pub trait I2cBus {
    /// Writes `bytes` to the device at `addr`.
    fn write(&mut self, addr: u8, bytes: &[u8]) -> Result<(), BusError>;

    /// Reads `len` bytes from the device at `addr`.
    fn read(&mut self, addr: u8, len: usize) -> Result<Vec<u8>, BusError>;

    /// Writes `wr` to the device at `addr`, then reads `len` bytes back in the
    /// same transaction.
    fn write_read(&mut self, addr: u8, wr: &[u8], len: usize) -> Result<Vec<u8>, BusError>;
}

/// An I2C controller together with the history of the transactions issued
/// through it, each with its outcome. The drivers of this crate work on it,
/// so that their contracts can say what they send and what they do with what
/// comes back.
pub struct TracedBus<B> {
    dev: B,
    log: Ghost<Seq<Txn>>,
}

impl<B: I2cBus> TracedBus<B> {
    /// Every transaction issued so far, oldest first.
    pub closed spec fn log(&self) -> Seq<Txn> {
        self.log@
    }

    /// The controller itself.
    pub closed spec fn device(&self) -> B {
        self.dev
    }

    /// Starts tracing `dev` with an empty history.
    pub fn new(dev: B) -> (r: Self)
        ensures
            r.log() == Seq::<Txn>::empty(),
            r.device() == dev,
    {
        TracedBus { dev, log: Ghost(Seq::empty()) }
    }

    /// The controller, for inspection.
    pub fn dev(&self) -> (r: &B)
        ensures
            *r == self.device(),
    {
        &self.dev
    }

    /// Stops tracing and hands the controller back.
    pub fn into_inner(self) -> (r: B)
        ensures
            r == self.device(),
    {
        self.dev
    }

    pub fn write(&mut self, addr: u8, bytes: &[u8]) -> (r: Result<(), BusError>)
        ensures
            final(self).log() == old(self).log().push(Txn::Write { addr, bytes: bytes@, ok: r is Ok }),
    {
        let r = self.dev.write(addr, bytes);
        self.log = Ghost(self.log@.push(Txn::Write { addr, bytes: bytes@, ok: r is Ok }));
        r
    }

    pub fn read(&mut self, addr: u8, len: usize) -> (r: Result<Vec<u8>, BusError>)
        ensures
            final(self).log() == old(self).log().push(Txn::Read { addr, len, reply: reply_of(r) }),
    {
        let r = self.dev.read(addr, len);
        self.log = Ghost(self.log@.push(Txn::Read { addr, len, reply: reply_of(r) }));
        r
    }

    pub fn write_read(&mut self, addr: u8, wr: &[u8], len: usize) -> (r: Result<Vec<u8>, BusError>)
        ensures
            final(self).log() == old(self).log().push(
                Txn::WriteRead { addr, wr: wr@, len, reply: reply_of(r) },
            ),
    {
        let r = self.dev.write_read(addr, wr, len);
        self.log = Ghost(self.log@.push(Txn::WriteRead { addr, wr: wr@, len, reply: reply_of(r) }));
        r
    }
}

/// A source of blocking pauses for the calling context.
pub trait DelayMs {
    /// Pauses for about `ms` milliseconds.
    fn delay_ms(&mut self, ms: u32);
}

/// The shared bus: one interconnect, lent to one caller at a time.
///
/// The handle is only reachable through a borrow of the whole `SharedBus`
/// (`bus_mut`), so no caller can keep it past its turn, and a caller's
/// transactions run while no other caller can reach the handle.
pub struct SharedBus<B> {
    bus: Option<TracedBus<B>>,
}

impl<B: I2cBus> SharedBus<B> {
    /// The handle, once the bus has been set up.
    pub closed spec fn handle(&self) -> Option<TracedBus<B>> {
        self.bus
    }

    /// A bus that has not been set up yet.
    pub fn new() -> (r: Self)
        ensures
            r.handle() is None,
    {
        SharedBus { bus: None }
    }

    /// Installs the bus, with an empty history.
    pub fn init_shared_i2c(&mut self, bus: B)
        ensures
            final(self).handle() is Some,
            final(self).handle()->0.device() == bus,
            final(self).handle()->0.log() == Seq::<Txn>::empty(),
    {
        self.bus = Some(TracedBus::new(bus));
    }

    /// Whether the bus has been set up.
    pub fn is_initialized(&self) -> (r: bool)
        ensures
            r == self.handle() is Some,
    {
        self.bus.is_some()
    }

    /// Lends the handle for as long as the returned borrow lives; whatever
    /// the borrower leaves in it is what the bus holds afterwards, on every
    /// path out of the borrower.
    pub fn bus_mut(&mut self) -> (r: Option<&mut TracedBus<B>>)
        ensures
            r is None <==> old(self).handle() is None,
            r is Some ==> *r->0 == old(self).handle()->0 && final(self).handle() == Some(*final(r->0)),
            r is None ==> *final(self) == *old(self),
    {
        self.bus.as_mut()
    }
}

} // verus!
