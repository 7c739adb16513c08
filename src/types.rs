use vstd::prelude::*;
use vstd::string::StringExecFns;

verus! {

/// Credit amount of the relay economy.
#[derive(Debug, Clone, Copy, PartialEq, Eq, Structural, PartialOrd, Ord, Hash)]
pub struct Credits(pub u64);

pub const CREDITS_ZERO: u64 = 0;

pub const CREDITS_INITIAL_BALANCE: u64 = 1000;

impl Credits {
    pub fn new(amount: u64) -> (r: Credits)
        ensures
            r.0 == amount,
    {
        Credits(amount)
    }

    pub fn zero() -> (r: Credits)
        ensures
            r.0 == CREDITS_ZERO,
    {
        Credits(CREDITS_ZERO)
    }

    pub fn initial_balance() -> (r: Credits)
        ensures
            r.0 == CREDITS_INITIAL_BALANCE,
    {
        Credits(CREDITS_INITIAL_BALANCE)
    }

    pub fn amount(&self) -> (r: u64)
        ensures
            r == self.0,
    {
        self.0
    }

    pub fn checked_add(&self, other: Credits) -> (r: Option<Credits>)
        ensures
            self.0 + other.0 <= u64::MAX ==> r == Some(Credits((self.0 + other.0) as u64)),
            self.0 + other.0 > u64::MAX ==> r is None,
    {
        match self.0.checked_add(other.0) {
            Some(v) => Some(Credits(v)),
            None => None,
        }
    }

    pub fn checked_sub(&self, other: Credits) -> (r: Option<Credits>)
        ensures
            other.0 <= self.0 ==> r == Some(Credits((self.0 - other.0) as u64)),
            other.0 > self.0 ==> r is None,
    {
        match self.0.checked_sub(other.0) {
            Some(v) => Some(Credits(v)),
            None => None,
        }
    }

    pub fn saturating_add(&self, other: Credits) -> (r: Credits)
        ensures
            r.0 == sat_add(self.0 as int, other.0 as int),
    {
        Credits(self.0.saturating_add(other.0))
    }

    pub fn saturating_sub(&self, other: Credits) -> (r: Credits)
        ensures
            r.0 == sat_sub(self.0 as int, other.0 as int),
    {
        Credits(self.0.saturating_sub(other.0))
    }

    /// Text form, `"<n> credits"`.
    pub fn to_string(&self) -> (r: String)
        ensures
            r@ == decimal_text(self.0 as nat) + " credits"@,
    {
        let mut t = format_u64(self.0);
        t.append(" credits");
        t
    }
}

/// `a + b`, capped at `u64::MAX`.
pub open spec fn sat_add(a: int, b: int) -> int {
    if a + b > u64::MAX {
        u64::MAX as int
    } else {
        a + b
    }
}

/// `a - b`, floored at zero.
pub open spec fn sat_sub(a: int, b: int) -> int {
    if a - b < 0 {
        0
    } else {
        a - b
    }
}

/// The decimal digit of `d < 10`.
pub open spec fn digit_char(d: nat) -> char {
    if d == 0 { '0' } else if d == 1 { '1' } else if d == 2 { '2' } else if d == 3 { '3' } else if d == 4 { '4' }
    else if d == 5 { '5' } else if d == 6 { '6' } else if d == 7 { '7' } else if d == 8 { '8' } else { '9' }
}

/// `n` in decimal, without leading zeros (`"0"` for zero).
pub open spec fn decimal_text(n: nat) -> Seq<char>
    decreases n,
{
    if n < 10 {
        seq![digit_char(n)]
    } else {
        decimal_text(n / 10).push(digit_char(n % 10))
    }
}

/// Relies on `u64::to_string` (std's `Display` for integers): the number
/// in decimal, without sign or leading zeros.
#[verifier::external_body]
fn format_u64(n: u64) -> (r: String)
    ensures
        r@ == decimal_text(n as nat),
{
    n.to_string()
}

/// Adding credits saturates at `u64::MAX` rather than overflowing.
impl std::ops::Add for Credits {
    type Output = Credits;

    fn add(self, other: Credits) -> (r: Credits)
        ensures
            r.0 == sat_add(self.0 as int, other.0 as int),
    {
        Credits(self.0.saturating_add(other.0))
    }
}

impl vstd::std_specs::ops::AddSpecImpl for Credits {
    open spec fn obeys_add_spec() -> bool {
        true
    }

    open spec fn add_req(self, rhs: Credits) -> bool {
        true
    }

    open spec fn add_spec(self, rhs: Credits) -> Credits {
        Credits(sat_add(self.0 as int, rhs.0 as int) as u64)
    }
}

/// Subtracting credits floors at zero rather than underflowing.
impl std::ops::Sub for Credits {
    type Output = Credits;

    fn sub(self, other: Credits) -> (r: Credits)
        ensures
            r.0 == sat_sub(self.0 as int, other.0 as int),
    {
        Credits(self.0.saturating_sub(other.0))
    }
}

impl vstd::std_specs::ops::SubSpecImpl for Credits {
    open spec fn obeys_sub_spec() -> bool {
        true
    }

    open spec fn sub_req(self, rhs: Credits) -> bool {
        true
    }

    open spec fn sub_spec(self, rhs: Credits) -> Credits {
        Credits(sat_sub(self.0 as int, rhs.0 as int) as u64)
    }
}

/// Point in time, in seconds since the Unix epoch.
#[derive(Debug, Clone, Copy, PartialEq, Eq, Structural, PartialOrd, Ord, Hash)]
pub struct Timestamp(pub u64);

/// Relies on std's `SystemTime::now`: whole seconds since the Unix epoch (zero
/// if the clock reads earlier). Nothing is known of the value.
#[verifier::external_body]
fn unix_now_secs() -> u64 {
    std::time::SystemTime::now().duration_since(std::time::UNIX_EPOCH).map(|d| d.as_secs()).unwrap_or(0)
}

/// Relies on std's `Duration::from_secs`.
#[verifier::external_body]
pub(crate) fn duration_from_secs(secs: u64) -> std::time::Duration {
    std::time::Duration::from_secs(secs)
}

impl Timestamp {
    /// The current time of the system clock.
    pub fn now() -> (r: Timestamp) {
        Timestamp(unix_now_secs())
    }

    pub fn from_secs(secs: u64) -> (r: Timestamp)
        ensures
            r.0 == secs,
    {
        Timestamp(secs)
    }

    pub fn as_secs(&self) -> (r: u64)
        ensures
            r == self.0,
    {
        self.0
    }

    /// Seconds from `self` to `now`, zero when `now` is earlier.
    pub fn elapsed_at(&self, now: Timestamp) -> (r: u64)
        ensures
            r == sat_sub(now.0 as int, self.0 as int),
    {
        now.0.saturating_sub(self.0)
    }

    /// Time passed since `self` by the system clock.
    pub fn elapsed(&self) -> std::time::Duration {
        let now = Timestamp::now();
        duration_from_secs(self.elapsed_at(now))
    }
}

/// An address at which a peer can be reached.
#[derive(Debug, Clone, PartialEq, Eq, Hash)]
pub enum NetworkAddress {
    /// An IP address (4 or 16 octets) and a port.
    Socket { ip: Vec<u8>, port: u16 },
    /// A host name and a port.
    Domain { host: String, port: u16 },
}

impl NetworkAddress {
    pub fn from_ip(ip: Vec<u8>, port: u16) -> (r: NetworkAddress)
        ensures
            r == (NetworkAddress::Socket { ip, port }),
    {
        NetworkAddress::Socket { ip, port }
    }

    pub fn from_domain(host: String, port: u16) -> (r: NetworkAddress)
        ensures
            r == (NetworkAddress::Domain { host, port }),
    {
        NetworkAddress::Domain { host, port }
    }
}

/// An amount of data, in bytes.
#[derive(Debug, Clone, Copy, PartialEq, Eq, Structural, PartialOrd, Ord, Hash)]
pub struct Bandwidth(pub u64);

pub const KIB: u64 = 1024;

impl Bandwidth {
    pub fn from_bytes(bytes: u64) -> (r: Bandwidth)
        ensures
            r.0 == bytes,
    {
        Bandwidth(bytes)
    }

    pub fn from_kb(kb: u64) -> (r: Bandwidth)
        requires
            kb * 1024 <= u64::MAX,
        ensures
            r.0 == kb * 1024,
    {
        Bandwidth(kb * KIB)
    }

    pub fn from_mb(mb: u64) -> (r: Bandwidth)
        requires
            mb * 1024 * 1024 <= u64::MAX,
        ensures
            r.0 == mb * 1024 * 1024,
    {
        Bandwidth(mb * KIB * KIB)
    }

    pub fn from_gb(gb: u64) -> (r: Bandwidth)
        requires
            gb * 1024 * 1024 * 1024 <= u64::MAX,
        ensures
            r.0 == gb * 1024 * 1024 * 1024,
    {
        Bandwidth(gb * KIB * KIB * KIB)
    }

    pub fn as_bytes(&self) -> (r: u64)
        ensures
            r == self.0,
    {
        self.0
    }
}

/// Reputation score of a node, between `REPUTATION_MIN` and `REPUTATION_MAX`.
#[derive(Debug, Clone, Copy, PartialEq, Eq, Structural, PartialOrd, Ord, Hash)]
pub struct Reputation(pub u32);

pub const REPUTATION_MIN: u32 = 0;

pub const REPUTATION_MAX: u32 = 10000;

pub const REPUTATION_INITIAL: u32 = 100;

impl Reputation {
    pub open spec fn wf(&self) -> bool {
        self.0 <= REPUTATION_MAX
    }

    /// A score, capped at `REPUTATION_MAX`.
    pub fn new(score: u32) -> (r: Reputation)
        ensures
            r.0 == if score > REPUTATION_MAX { REPUTATION_MAX } else { score },
            r.wf(),
    {
        if score > REPUTATION_MAX {
            Reputation(REPUTATION_MAX)
        } else {
            Reputation(score)
        }
    }

    pub fn max() -> (r: Reputation)
        ensures
            r.0 == REPUTATION_MAX,
            r.wf(),
    {
        Reputation(REPUTATION_MAX)
    }

    pub fn initial() -> (r: Reputation)
        ensures
            r.0 == REPUTATION_INITIAL,
            r.wf(),
    {
        Reputation(REPUTATION_INITIAL)
    }

    pub fn score(&self) -> (r: u32)
        ensures
            r == self.0,
    {
        self.0
    }

    /// Raises the score by `amount`, capped at `REPUTATION_MAX`.
    pub fn increase(&mut self, amount: u32)
        ensures
            final(self).0 == if old(self).0 + amount > REPUTATION_MAX {
                REPUTATION_MAX as int
            } else {
                old(self).0 + amount
            },
    {
        let raised = self.0.saturating_add(amount);
        if raised > REPUTATION_MAX {
            self.0 = REPUTATION_MAX;
        } else {
            self.0 = raised;
        }
    }

    /// Lowers the score by `amount`, floored at zero.
    pub fn decrease(&mut self, amount: u32)
        ensures
            final(self).0 == sat_sub(old(self).0 as int, amount as int),
    {
        self.0 = self.0.saturating_sub(amount);
    }
}

} // verus!
