//! Identifier generation: tagged, timestamped order and trade identifiers,
//! snowflake-style numeric identifiers, and nonces.
//!
//! Identifiers embed the clock, so their exact text cannot be pinned; each
//! generator states the exact text as a function of whatever millisecond
//! stamp the clock produced, and how the per-generator counter advances.

use vstd::prelude::*;

use crate::book::{wrap_inc};
use crate::time::now_timestamp_ms;
use crate::validation::{spec_upper_char, upper_char};

verus! {

/// The decimal digit character of one digit value.
pub open spec fn digit_char(d: nat) -> char {
    if d == 0 { '0' } else if d == 1 { '1' } else if d == 2 { '2' } else if d == 3 { '3' }
    else if d == 4 { '4' } else if d == 5 { '5' } else if d == 6 { '6' } else if d == 7 { '7' }
    else if d == 8 { '8' } else { '9' }
}

/// The decimal digits of a number, most significant first.
pub open spec fn spec_digits(n: nat) -> Seq<char>
    decreases n,
{
    if n < 10 {
        seq![digit_char(n)]
    } else {
        spec_digits(n / 10) + seq![digit_char(n % 10)]
    }
}

/// The last `w` decimal digits of a number, zero-padded to width `w`.
pub open spec fn spec_fixed_digits(n: nat, w: nat) -> Seq<char>
    decreases w,
{
    if w == 0 {
        Seq::empty()
    } else {
        spec_fixed_digits(n / 10, (w - 1) as nat) + seq![digit_char(n % 10)]
    }
}

/// The text of a tagged identifier: tag, stamp, node and padded counter,
/// joined by hyphens (the tag carries its own trailing hyphen).
pub open spec fn spec_tagged_id(tag: Seq<char>, ts: nat, node: nat, counter: nat) -> Seq<char> {
    tag + spec_digits(ts) + seq!['-'] + spec_digits(node) + seq!['-'] + spec_fixed_digits(
        counter % 1_000_000,
        6,
    )
}

/// One digit as a string slice.
fn digit_str(d: u64) -> (r: &'static str)
    requires
        d < 10,
    ensures
        r@ == seq![digit_char(d as nat)],
{
    proof {
        reveal_strlit("0");
        reveal_strlit("1");
        reveal_strlit("2");
        reveal_strlit("3");
        reveal_strlit("4");
        reveal_strlit("5");
        reveal_strlit("6");
        reveal_strlit("7");
        reveal_strlit("8");
        reveal_strlit("9");
    }
    let r: &'static str = match d {
        0 => "0",
        1 => "1",
        2 => "2",
        3 => "3",
        4 => "4",
        5 => "5",
        6 => "6",
        7 => "7",
        8 => "8",
        _ => "9",
    };
    proof {
        assert(r@ =~= seq![digit_char(d as nat)]);
    }
    r
}

/// The decimal rendering of a number.
pub fn u64_to_string(n: u64) -> (r: String)
    ensures
        r@ == spec_digits(n as nat),
    decreases n,
{
    if n < 10 {
        digit_str(n).to_owned()
    } else {
        let mut s = u64_to_string(n / 10);
        s.append(digit_str(n % 10));
        proof {
            assert(s@ =~= spec_digits(n as nat));
        }
        s
    }
}

/// The zero-padded rendering of a number's last `w` digits.
fn u64_to_fixed_digits(n: u64, w: u32) -> (r: String)
    ensures
        r@ == spec_fixed_digits(n as nat, w as nat),
    decreases w,
{
    if w == 0 {
        String::new()
    } else {
        let mut s = u64_to_fixed_digits(n / 10, w - 1);
        s.append(digit_str(n % 10));
        proof {
            assert(s@ =~= spec_fixed_digits(n as nat, w as nat));
        }
        s
    }
}

/// Relies on uuid::Uuid::new_v4 and its hyphenated rendering: a fresh
/// random identifier whose text is exactly thirty-six characters. Nothing
/// else can be promised of a random value.
#[verifier::external_body]
fn fresh_uuid_string() -> (r: String)
    ensures
        r@.len() == 36,
{
    uuid::Uuid::new_v4().to_string()
}

/// Generates process-unique identifiers from a node number and a counter.
#[derive(Debug, Clone, PartialEq, Eq, Structural)]
pub struct IdGenerator {
    /// Messages issued so far (wraps at the type bound).
    pub counter: u64,
    /// The node stamped into every identifier.
    pub node_id: u16,
}

impl IdGenerator {
    /// A generator for one node, counting from zero.
    pub fn new(node_id: u16) -> (r: IdGenerator)
        ensures
            r.counter == 0,
            r.node_id == node_id,
    {
        IdGenerator { counter: 0, node_id }
    }

    /// A fresh random identifier in canonical hyphenated form.
    pub fn generate_uuid(&self) -> (r: String)
        ensures
            r@.len() == 36,
    {
        fresh_uuid_string()
    }

    /// The tagged identifier built from the given stamp, advancing the
    /// counter once.
    fn tagged_id(&mut self, tag: &str, ts: u64) -> (r: String)
        ensures
            r@ == spec_tagged_id(tag@, ts as nat, old(self).node_id as nat, old(self).counter as nat),
            final(self).counter == wrap_inc(old(self).counter),
            final(self).node_id == old(self).node_id,
    {
        proof {
            reveal_strlit("-");
        }
        let c: u64 = self.counter;
        self.counter = self.counter.wrapping_add(1);
        let mut s: String = tag.to_owned();
        s.append(u64_to_string(ts).as_str());
        s.append("-");
        s.append(u64_to_string(self.node_id as u64).as_str());
        s.append("-");
        s.append(u64_to_fixed_digits(c % 1_000_000, 6).as_str());
        proof {
            assert("-"@ =~= seq!['-']);
            assert(s@ =~= spec_tagged_id(
                tag@,
                ts as nat,
                old(self).node_id as nat,
                old(self).counter as nat,
            ));
        }
        s
    }

    /// A fresh order identifier: the order tag, the clock's stamp, the node
    /// and the advanced counter.
    pub fn generate_order_id(&mut self) -> (r: String)
        ensures
            exists|ts: u64|
                r@ == #[trigger] spec_tagged_id(
                    "ORD-"@,
                    ts as nat,
                    old(self).node_id as nat,
                    old(self).counter as nat,
                ),
            final(self).counter == wrap_inc(old(self).counter),
            final(self).node_id == old(self).node_id,
    {
        let ts = now_timestamp_ms();
        self.tagged_id("ORD-", ts)
    }

    /// A fresh trade identifier.
    pub fn generate_trade_id(&mut self) -> (r: String)
        ensures
            exists|ts: u64|
                r@ == #[trigger] spec_tagged_id(
                    "TRD-"@,
                    ts as nat,
                    old(self).node_id as nat,
                    old(self).counter as nat,
                ),
            final(self).counter == wrap_inc(old(self).counter),
            final(self).node_id == old(self).node_id,
    {
        let ts = now_timestamp_ms();
        self.tagged_id("TRD-", ts)
    }

    /// A fresh opportunity identifier.
    pub fn generate_opportunity_id(&mut self) -> (r: String)
        ensures
            exists|ts: u64|
                r@ == #[trigger] spec_tagged_id(
                    "ARB-"@,
                    ts as nat,
                    old(self).node_id as nat,
                    old(self).counter as nat,
                ),
            final(self).counter == wrap_inc(old(self).counter),
            final(self).node_id == old(self).node_id,
    {
        let ts = now_timestamp_ms();
        self.tagged_id("ARB-", ts)
    }

    /// A fresh execution identifier.
    pub fn generate_execution_id(&mut self) -> (r: String)
        ensures
            exists|ts: u64|
                r@ == #[trigger] spec_tagged_id(
                    "EXE-"@,
                    ts as nat,
                    old(self).node_id as nat,
                    old(self).counter as nat,
                ),
            final(self).counter == wrap_inc(old(self).counter),
            final(self).node_id == old(self).node_id,
    {
        let ts = now_timestamp_ms();
        self.tagged_id("EXE-", ts)
    }

    /// A fresh session identifier.
    pub fn generate_session_id(&mut self) -> (r: String)
        ensures
            exists|ts: u64|
                r@ == #[trigger] spec_tagged_id(
                    "SES-"@,
                    ts as nat,
                    old(self).node_id as nat,
                    old(self).counter as nat,
                ),
            final(self).counter == wrap_inc(old(self).counter),
            final(self).node_id == old(self).node_id,
    {
        let ts = now_timestamp_ms();
        self.tagged_id("SES-", ts)
    }

    /// A snowflake-style identifier: the stamp in the high bits, the node in
    /// the middle, the advanced counter's low twelve bits at the bottom.
    pub fn generate_snowflake_id(&mut self) -> (r: u64)
        ensures
            exists|ts: u64|
                r == #[trigger] ((ts << 22) | ((old(self).node_id as u64) << 12) | (old(
                    self,
                ).counter & 0xfff)),
            final(self).counter == wrap_inc(old(self).counter),
            final(self).node_id == old(self).node_id,
    {
        let ts: u64 = now_timestamp_ms();
        let shifted_ts: u64 = ts << 22u64;
        let node: u64 = (self.node_id as u64) << 12u64;
        let sequence: u64 = self.counter & 0xfff;
        self.counter = self.counter.wrapping_add(1);
        let r = shifted_ts | node | sequence;
        proof {
            assert(r == ((ts << 22) | ((old(self).node_id as u64) << 12) | (old(self).counter
                & 0xfff)));
        }
        r
    }

    /// A fresh client order identifier: the venue raised to upper case, the
    /// stamp, and the advanced counter's last six digits.
    pub fn generate_client_order_id(&mut self, venue: &str) -> (r: String)
        ensures
            exists|ts: u64|
                r@ == #[trigger] spec_client_order_id(
                    venue@,
                    ts as nat,
                    old(self).counter as nat,
                ),
            final(self).counter == wrap_inc(old(self).counter),
            final(self).node_id == old(self).node_id,
    {
        proof {
            reveal_strlit("-");
        }
        let ts: u64 = now_timestamp_ms();
        let c: u64 = self.counter;
        self.counter = self.counter.wrapping_add(1);
        let n: usize = venue.unicode_len();
        let mut s: String = String::new();
        let mut i: usize = 0;
        while i < n
            invariant
                i <= n == venue@.len(),
                s@.len() == i,
                forall|k: int| 0 <= k < i ==> s@[k] == spec_upper_char(#[trigger] venue@[k]),
            decreases n - i,
        {
            push_upper(&mut s, venue.get_char(i));
            i = i + 1;
        }
        s.append("-");
        s.append(u64_to_string(ts).as_str());
        s.append("-");
        s.append(u64_to_fixed_digits(c % 1_000_000, 6).as_str());
        proof {
            assert("-"@ =~= seq!['-']);
            assert(s@ =~= spec_client_order_id(venue@, ts as nat, old(self).counter as nat));
        }
        s
    }

    /// A nonce derived from the stamp and the advanced counter (wrapping).
    pub fn generate_nonce(&mut self) -> (r: u64)
        ensures
            final(self).counter == wrap_inc(old(self).counter),
            final(self).node_id == old(self).node_id,
    {
        let ts: u64 = now_timestamp_ms();
        let c: u64 = self.counter;
        self.counter = self.counter.wrapping_add(1);
        ts.wrapping_mul(1000).wrapping_add(c % 1000)
    }

    /// Resets the counter to zero.
    pub fn reset_counter(&mut self)
        ensures
            final(self).counter == 0,
            final(self).node_id == old(self).node_id,
    {
        self.counter = 0;
    }

    /// The counter's current value.
    pub fn get_counter(&self) -> (r: u64)
        ensures
            r == self.counter,
    {
        self.counter
    }
}

/// The text of a client order identifier: the venue raised character by
/// character, the stamp, and the padded counter.
pub open spec fn spec_client_order_id(venue: Seq<char>, ts: nat, counter: nat) -> Seq<char> {
    venue.map_values(|c: char| spec_upper_char(c)) + seq!['-'] + spec_digits(ts) + seq!['-']
        + spec_fixed_digits(counter % 1_000_000, 6)
}

/// Appends the upper-cased character.
fn push_upper(s: &mut String, c: char)
    ensures
        final(s)@ == old(s)@.push(spec_upper_char(c)),
{
    let u = upper_char(c);
    crate::validation::push_char(s, u);
}

/// A fresh random identifier from a transient generator.
pub fn generate_uuid() -> (r: String)
    ensures
        r@.len() == 36,
{
    fresh_uuid_string()
}

/// A fresh order identifier from a transient single-node generator.
pub fn generate_order_id() -> (r: String)
    ensures
        exists|ts: u64| r@ == #[trigger] spec_tagged_id("ORD-"@, ts as nat, 1, 0),
{
    let mut g = IdGenerator::new(1);
    g.generate_order_id()
}

/// A fresh trade identifier from a transient single-node generator.
pub fn generate_trade_id() -> (r: String)
    ensures
        exists|ts: u64| r@ == #[trigger] spec_tagged_id("TRD-"@, ts as nat, 1, 0),
{
    let mut g = IdGenerator::new(1);
    g.generate_trade_id()
}

/// A fresh opportunity identifier from a transient single-node generator.
pub fn generate_opportunity_id() -> (r: String)
    ensures
        exists|ts: u64| r@ == #[trigger] spec_tagged_id("ARB-"@, ts as nat, 1, 0),
{
    let mut g = IdGenerator::new(1);
    g.generate_opportunity_id()
}

/// A fresh execution identifier from a transient single-node generator.
pub fn generate_execution_id() -> (r: String)
    ensures
        exists|ts: u64| r@ == #[trigger] spec_tagged_id("EXE-"@, ts as nat, 1, 0),
{
    let mut g = IdGenerator::new(1);
    g.generate_execution_id()
}

/// A fresh session identifier from a transient single-node generator.
pub fn generate_session_id() -> (r: String)
    ensures
        exists|ts: u64| r@ == #[trigger] spec_tagged_id("SES-"@, ts as nat, 1, 0),
{
    let mut g = IdGenerator::new(1);
    g.generate_session_id()
}

/// A snowflake-style identifier from a transient single-node generator.
pub fn generate_snowflake_id() -> (r: u64)
    ensures
        exists|ts: u64| r == #[trigger] ((ts << 22) | (1u64 << 12) | 0u64),
{
    let mut g = IdGenerator::new(1);
    let r = g.generate_snowflake_id();
    proof {
        let ts = choose|ts: u64|
            r == ((ts << 22) | ((1u16 as u64) << 12) | (0u64 & 0xfff));
        assert(0u64 & 0xfff == 0u64) by (bit_vector);
        assert(r == ((ts << 22) | (1u64 << 12) | 0u64));
    }
    r
}

/// A fresh client order identifier from a transient single-node generator.
pub fn generate_client_order_id(venue: &str) -> (r: String)
    ensures
        exists|ts: u64| r@ == #[trigger] spec_client_order_id(venue@, ts as nat, 0),
{
    let mut g = IdGenerator::new(1);
    g.generate_client_order_id(venue)
}

/// A nonce from a transient single-node generator.
pub fn generate_nonce() -> (r: u64) {
    let mut g = IdGenerator::new(1);
    g.generate_nonce()
}

} // verus!
