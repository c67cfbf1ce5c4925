//! The discrete time model: offsets, interval lengths and processor service.

use vstd::prelude::*;
use vstd::std_specs::convert::FromSpecImpl;
use vstd::std_specs::ops::{AddSpecImpl, SubSpecImpl, MulSpecImpl, DivSpecImpl, RemSpecImpl};

verus! {

/// The underlying discrete time base.
pub type Time = u64;

/// A point in time, or a zero-based offset.
#[derive(Clone, Copy, PartialEq, Eq, Structural, PartialOrd, Ord, Debug)]
pub struct Offset {
    pub val: Time,
}

/// The length of an interval.
#[derive(Clone, Copy, PartialEq, Eq, Structural, PartialOrd, Ord, Debug)]
pub struct Duration {
    pub val: Time,
}

/// An amount of processor service.
#[derive(Clone, Copy, PartialEq, Eq, Structural, PartialOrd, Ord, Debug)]
pub struct Service {
    pub val: Time,
}

impl View for Offset {
    type V = nat;

    open spec fn view(&self) -> nat {
        self.val as nat
    }
}

impl View for Duration {
    type V = nat;

    open spec fn view(&self) -> nat {
        self.val as nat
    }
}

impl View for Service {
    type V = nat;

    open spec fn view(&self) -> nat {
        self.val as nat
    }
}

impl Offset {
    /// The offset `X` such that the half-open interval `[0, X)` has length `delta`.
    pub fn from_time_zero(delta: Duration) -> (x: Offset)
        ensures
            x@ == delta@,
    {
        Offset { val: delta.val }
    }

    /// The offset `X` such that the closed interval `[0, X]` has length `delta`.
    pub fn closed_from_time_zero(delta: Duration) -> (x: Offset)
        requires
            delta@ >= 1,
        ensures
            x@ == delta@ - 1,
    {
        Offset { val: delta.val - 1 }
    }

    /// The length of the half-open interval `[0, X)`.
    pub fn since_time_zero(self) -> (delta: Duration)
        ensures
            delta@ == self@,
    {
        Duration { val: self.val }
    }

    /// The length of the closed interval `[0, X]`.
    pub fn closed_since_time_zero(self) -> (delta: Duration)
        requires
            self@ < u64::MAX,
        ensures
            delta@ == self@ + 1,
    {
        Duration { val: self.val + 1 }
    }

    /// The distance to a point in time that is not earlier.
    pub fn distance_to(self, t: Offset) -> (delta: Duration)
        requires
            self@ <= t@,
        ensures
            delta@ == t@ - self@,
    {
        Duration { val: t.val - self.val }
    }
}

impl From<Time> for Offset {
    fn from(val: Time) -> (x: Offset) {
        Offset { val }
    }
}

impl FromSpecImpl<Time> for Offset {
    open spec fn obeys_from_spec() -> bool {
        true
    }

    open spec fn from_spec(val: Time) -> Offset {
        Offset { val }
    }
}

impl From<Offset> for Time {
    fn from(x: Offset) -> (val: Time) {
        x.val
    }
}

impl FromSpecImpl<Offset> for Time {
    open spec fn obeys_from_spec() -> bool {
        true
    }

    open spec fn from_spec(x: Offset) -> Time {
        x.val
    }
}

impl std::ops::Add<Duration> for Offset {
    type Output = Offset;

    fn add(self, delta: Duration) -> (x: Offset) {
        Offset { val: self.val + delta.val }
    }
}

impl AddSpecImpl<Duration> for Offset {
    open spec fn obeys_add_spec() -> bool {
        true
    }

    open spec fn add_req(self, delta: Duration) -> bool {
        self.val + delta.val <= u64::MAX
    }

    open spec fn add_spec(self, delta: Duration) -> Offset {
        Offset { val: (self.val + delta.val) as u64 }
    }
}

impl Duration {
    /// Whether the duration is the length of a non-empty interval.
    pub fn is_non_zero(self) -> (b: bool)
        ensures
            b == (self@ > 0),
    {
        self.val > 0
    }

    /// Whether the duration is the length of the empty interval.
    pub fn is_zero(self) -> (b: bool)
        ensures
            b == (self@ == 0),
    {
        self.val == 0
    }

    /// The length of the empty interval.
    pub fn zero() -> (delta: Duration)
        ensures
            delta@ == 0,
    {
        Duration { val: 0 }
    }

    /// The smallest unit of time.
    pub fn epsilon() -> (delta: Duration)
        ensures
            delta@ == 1,
    {
        Duration { val: 1 }
    }

    /// Subtraction with a floor of zero.
    #[must_use]
    pub fn saturating_sub(&self, rhs: Duration) -> (delta: Duration)
        ensures
            delta@ == if self@ >= rhs@ { self@ - rhs@ } else { 0 },
    {
        if self.val >= rhs.val {
            Duration { val: self.val - rhs.val }
        } else {
            Duration { val: 0 }
        }
    }
}

impl From<Time> for Duration {
    fn from(val: Time) -> (x: Duration) {
        Duration { val }
    }
}

impl FromSpecImpl<Time> for Duration {
    open spec fn obeys_from_spec() -> bool {
        true
    }

    open spec fn from_spec(val: Time) -> Duration {
        Duration { val }
    }
}

impl From<Duration> for Time {
    fn from(x: Duration) -> (val: Time) {
        x.val
    }
}

impl FromSpecImpl<Duration> for Time {
    open spec fn obeys_from_spec() -> bool {
        true
    }

    open spec fn from_spec(x: Duration) -> Time {
        x.val
    }
}

impl std::ops::Add<Duration> for Duration {
    type Output = Duration;

    fn add(self, rhs: Duration) -> (sum: Duration) {
        Duration { val: self.val + rhs.val }
    }
}

impl AddSpecImpl<Duration> for Duration {
    open spec fn obeys_add_spec() -> bool {
        true
    }

    open spec fn add_req(self, rhs: Duration) -> bool {
        self.val + rhs.val <= u64::MAX
    }

    open spec fn add_spec(self, rhs: Duration) -> Duration {
        Duration { val: (self.val + rhs.val) as u64 }
    }
}

impl std::ops::Sub<Duration> for Duration {
    type Output = Duration;

    fn sub(self, rhs: Duration) -> (diff: Duration) {
        Duration { val: self.val - rhs.val }
    }
}

impl SubSpecImpl<Duration> for Duration {
    open spec fn obeys_sub_spec() -> bool {
        true
    }

    open spec fn sub_req(self, rhs: Duration) -> bool {
        rhs.val <= self.val
    }

    open spec fn sub_spec(self, rhs: Duration) -> Duration {
        Duration { val: (self.val - rhs.val) as u64 }
    }
}

impl std::ops::Mul<u64> for Duration {
    type Output = Duration;

    fn mul(self, factor: u64) -> (product: Duration) {
        Duration { val: self.val * factor }
    }
}

impl MulSpecImpl<u64> for Duration {
    open spec fn obeys_mul_spec() -> bool {
        true
    }

    open spec fn mul_req(self, factor: u64) -> bool {
        self.val * factor <= u64::MAX
    }

    open spec fn mul_spec(self, factor: u64) -> Duration {
        Duration { val: (self.val * factor) as u64 }
    }
}

impl From<Service> for Duration {
    fn from(s: Service) -> (delta: Duration) {
        Duration { val: s.val }
    }
}

impl FromSpecImpl<Service> for Duration {
    open spec fn obeys_from_spec() -> bool {
        true
    }

    open spec fn from_spec(s: Service) -> Duration {
        Duration { val: s.val }
    }
}

impl std::ops::Div<Duration> for Duration {
    type Output = u64;

    fn div(self, divisor: Duration) -> (quotient: u64) {
        self.val / divisor.val
    }
}

impl DivSpecImpl<Duration> for Duration {
    open spec fn obeys_div_spec() -> bool {
        true
    }

    open spec fn div_req(self, divisor: Duration) -> bool {
        divisor.val != 0
    }

    open spec fn div_spec(self, divisor: Duration) -> u64 {
        self.val / divisor.val
    }
}

impl std::ops::Rem<Duration> for Duration {
    type Output = Duration;

    fn rem(self, divisor: Duration) -> (rest: Duration) {
        Duration { val: self.val % divisor.val }
    }
}

impl RemSpecImpl<Duration> for Duration {
    open spec fn obeys_rem_spec() -> bool {
        true
    }

    open spec fn rem_req(self, divisor: Duration) -> bool {
        divisor.val != 0
    }

    open spec fn rem_spec(self, divisor: Duration) -> Duration {
        Duration { val: self.val % divisor.val }
    }
}

impl Service {
    /// Zero service.
    pub fn none() -> (s: Service)
        ensures
            s@ == 0,
    {
        Service { val: 0 }
    }

    /// Whether the value stands for zero service.
    pub fn is_none(self) -> (b: bool)
        ensures
            b == (self@ == 0),
    {
        self.val == 0
    }

    /// The service received in an interval of length `d` on a unit-speed processor.
    pub fn in_interval(d: Duration) -> (s: Service)
        ensures
            s@ == d@,
    {
        Service { val: d.val }
    }

    /// The least unit of service.
    pub fn epsilon() -> (s: Service)
        ensures
            s@ == 1,
    {
        Service { val: 1 }
    }

    /// Subtraction with a floor of zero.
    #[must_use]
    pub fn saturating_sub(&self, rhs: Service) -> (s: Service)
        ensures
            s@ == if self@ >= rhs@ { self@ - rhs@ } else { 0 },
    {
        if self.val >= rhs.val {
            Service { val: self.val - rhs.val }
        } else {
            Service { val: 0 }
        }
    }
}

impl From<Time> for Service {
    fn from(val: Time) -> (x: Service) {
        Service { val }
    }
}

impl FromSpecImpl<Time> for Service {
    open spec fn obeys_from_spec() -> bool {
        true
    }

    open spec fn from_spec(val: Time) -> Service {
        Service { val }
    }
}

impl From<Service> for Time {
    fn from(x: Service) -> (val: Time) {
        x.val
    }
}

impl FromSpecImpl<Service> for Time {
    open spec fn obeys_from_spec() -> bool {
        true
    }

    open spec fn from_spec(x: Service) -> Time {
        x.val
    }
}

impl std::ops::Add<Service> for Service {
    type Output = Service;

    fn add(self, rhs: Service) -> (sum: Service) {
        Service { val: self.val + rhs.val }
    }
}

impl AddSpecImpl<Service> for Service {
    open spec fn obeys_add_spec() -> bool {
        true
    }

    open spec fn add_req(self, rhs: Service) -> bool {
        self.val + rhs.val <= u64::MAX
    }

    open spec fn add_spec(self, rhs: Service) -> Service {
        Service { val: (self.val + rhs.val) as u64 }
    }
}

impl std::ops::Sub<Service> for Service {
    type Output = Service;

    fn sub(self, rhs: Service) -> (diff: Service) {
        Service { val: self.val - rhs.val }
    }
}

impl SubSpecImpl<Service> for Service {
    open spec fn obeys_sub_spec() -> bool {
        true
    }

    open spec fn sub_req(self, rhs: Service) -> bool {
        rhs.val <= self.val
    }

    open spec fn sub_spec(self, rhs: Service) -> Service {
        Service { val: (self.val - rhs.val) as u64 }
    }
}

impl std::ops::Mul<u64> for Service {
    type Output = Service;

    fn mul(self, factor: u64) -> (product: Service) {
        Service { val: self.val * factor }
    }
}

impl MulSpecImpl<u64> for Service {
    open spec fn obeys_mul_spec() -> bool {
        true
    }

    open spec fn mul_req(self, factor: u64) -> bool {
        self.val * factor <= u64::MAX
    }

    open spec fn mul_spec(self, factor: u64) -> Service {
        Service { val: (self.val * factor) as u64 }
    }
}

impl From<Duration> for Service {
    fn from(d: Duration) -> (s: Service) {
        Service { val: d.val }
    }
}

impl FromSpecImpl<Duration> for Service {
    open spec fn obeys_from_spec() -> bool {
        true
    }

    open spec fn from_spec(d: Duration) -> Service {
        Service { val: d.val }
    }
}

} // verus!
