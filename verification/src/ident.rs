//! Identifiers that are never issued twice.
//!
//! An identifier is a random token followed by a hyphen and the sixteen
//! hexadecimal digits of a serial number. The token makes an identifier hard to
//! guess; the serial number alone makes it differ from every identifier that the
//! same source issued before, which is what the rest of the crate relies on.

use vstd::prelude::*;
use vstd::string::StringExecFns;

verus! {

/// The character that stands for one hexadecimal digit.
pub open spec fn hex_char(d: int) -> char {
    if d == 0 { '0' } else if d == 1 { '1' } else if d == 2 { '2' } else if d == 3 { '3' }
    else if d == 4 { '4' } else if d == 5 { '5' } else if d == 6 { '6' } else if d == 7 { '7' }
    else if d == 8 { '8' } else if d == 9 { '9' } else if d == 10 { 'a' } else if d == 11 { 'b' }
    else if d == 12 { 'c' } else if d == 13 { 'd' } else if d == 14 { 'e' } else { 'f' }
}

/// The last `width` hexadecimal digits of `n`, most significant first.
pub open spec fn hex_digits(n: nat, width: nat) -> Seq<char>
    decreases width,
{
    if width == 0 {
        Seq::empty()
    } else {
        hex_digits(n / 16, (width - 1) as nat).push(hex_char((n % 16) as int))
    }
}

/// Whether `n` can be written with `width` hexadecimal digits.
pub open spec fn fits_hex(n: nat, width: nat) -> bool
    decreases width,
{
    if width == 0 {
        n == 0
    } else {
        fits_hex(n / 16, (width - 1) as nat)
    }
}

/// The tail that marks an identifier with its serial number.
pub open spec fn serial_suffix(serial: u64) -> Seq<char> {
    seq!['-'] + hex_digits(serial as nat, 16)
}

/// Whether `id` ends with the mark of `serial`.
pub open spec fn stamped(id: Seq<char>, serial: u64) -> bool {
    id.len() >= 17 && id.subrange(id.len() - 17, id.len() as int) == serial_suffix(serial)
}

/// A number written with `width` digits has `width` characters.
pub proof fn lemma_hex_digits_len(n: nat, width: nat)
    ensures
        hex_digits(n, width).len() == width,
    decreases width,
{
    if width > 0 {
        lemma_hex_digits_len(n / 16, (width - 1) as nat);
    }
}

/// Two numbers that fit the width and are written with the same digits are equal.
pub proof fn lemma_hex_digits_injective(a: nat, b: nat, width: nat)
    requires
        fits_hex(a, width),
        fits_hex(b, width),
        hex_digits(a, width) == hex_digits(b, width),
    ensures
        a == b,
    decreases width,
{
    if width > 0 {
        let w = (width - 1) as nat;
        let da = hex_digits(a / 16, w);
        let db = hex_digits(b / 16, w);
        let ca = hex_char((a % 16) as int);
        let cb = hex_char((b % 16) as int);
        assert(da.push(ca).last() == ca);
        assert(db.push(cb).last() == cb);
        assert(da.push(ca).drop_last() == da);
        assert(db.push(cb).drop_last() == db);
        lemma_hex_digits_injective(a / 16, b / 16, w);
    }
}

/// Every 64-bit number fits sixteen hexadecimal digits.
pub proof fn lemma_u64_fits_hex(n: u64)
    ensures
        fits_hex(n as nat, 16),
{
    reveal_with_fuel(fits_hex, 17);
}

/// An identifier carries at most one serial number.
pub proof fn lemma_stamp_unique(id: Seq<char>, s: u64, t: u64)
    requires
        stamped(id, s),
        stamped(id, t),
    ensures
        s == t,
{
    let hs = hex_digits(s as nat, 16);
    let ht = hex_digits(t as nat, 16);
    lemma_hex_digits_len(s as nat, 16);
    lemma_hex_digits_len(t as nat, 16);
    assert(serial_suffix(s).subrange(1, 17) == hs);
    assert(serial_suffix(t).subrange(1, 17) == ht);
    lemma_u64_fits_hex(s);
    lemma_u64_fits_hex(t);
    lemma_hex_digits_injective(s as nat, t as nat, 16);
}

/// Identifiers stamped with different serial numbers are different: what a
/// source issues later differs from all it issued before.
pub proof fn lemma_stamps_tell_apart(first: Seq<char>, s: u64, second: Seq<char>, t: u64)
    requires
        stamped(first, s),
        stamped(second, t),
        s != t,
    ensures
        first != second,
{
    if first == second {
        lemma_stamp_unique(first, s, t);
    }
}

/// Anything followed by the mark of a serial number is stamped with it.
pub proof fn lemma_suffix_stamps(nonce: Seq<char>, serial: u64)
    ensures
        stamped(nonce + serial_suffix(serial), serial),
        (nonce + serial_suffix(serial)).len() == nonce.len() + 17,
{
    lemma_hex_digits_len(serial as nat, 16);
    let id = nonce + serial_suffix(serial);
    assert(id.subrange(id.len() - 17, id.len() as int) == serial_suffix(serial));
}

fn hex_digit_text(d: u64) -> (r: &'static str)
    requires
        d < 16,
    ensures
        r@ == seq![hex_char(d as int)],
{
    proof {
        reveal_strlit("0"); reveal_strlit("1"); reveal_strlit("2"); reveal_strlit("3");
        reveal_strlit("4"); reveal_strlit("5"); reveal_strlit("6"); reveal_strlit("7");
        reveal_strlit("8"); reveal_strlit("9"); reveal_strlit("a"); reveal_strlit("b");
        reveal_strlit("c"); reveal_strlit("d"); reveal_strlit("e"); reveal_strlit("f");
    }
    let r = if d == 0 { "0" } else if d == 1 { "1" } else if d == 2 { "2" } else if d == 3 { "3" }
    else if d == 4 { "4" } else if d == 5 { "5" } else if d == 6 { "6" } else if d == 7 { "7" }
    else if d == 8 { "8" } else if d == 9 { "9" } else if d == 10 { "a" } else if d == 11 { "b" }
    else if d == 12 { "c" } else if d == 13 { "d" } else if d == 14 { "e" } else { "f" };
    assert(r@ =~= seq![hex_char(d as int)]);
    r
}

fn push_hex(out: &mut String, n: u64, width: u8)
    ensures
        final(out)@ == old(out)@ + hex_digits(n as nat, width as nat),
    decreases width,
{
    if width > 0 {
        push_hex(out, n / 16, width - 1);
        out.append(hex_digit_text(n % 16));
        assert(out@ =~= old(out)@ + hex_digits(n as nat, width as nat));
    } else {
        assert(out@ =~= old(out)@ + hex_digits(n as nat, width as nat));
    }
}

/// A random token: a version 4 UUID in its hyphenated lower-case form, from
/// `uuid::Uuid::new_v4` and its `to_string`. The contract claims only the
/// length of that form, thirty-six characters; nothing is said of which token
/// comes back. The call aborts where the operating system cannot supply random
/// bytes.
#[verifier::external_body]
pub(crate) fn random_token() -> (token: String)
    ensures
        token@.len() == 36,
{
    uuid::Uuid::new_v4().to_string()
}

/// Issues identifiers, each stamped with the next serial number.
pub struct IdSource {
    issued: u64,
}

impl IdSource {
    /// How many identifiers have been issued.
    pub closed spec fn issued(&self) -> u64 {
        self.issued
    }

    /// Whether the serial numbers have run out.
    pub open spec fn exhausted(&self) -> bool {
        self.issued() == u64::MAX
    }

    /// A source that has issued nothing.
    pub fn new() -> (source: IdSource)
        ensures
            source.issued() == 0,
    {
        IdSource { issued: 0 }
    }

    /// A source that goes on where another left off: it counts `issued`
    /// identifiers as issued, and gives the next one that serial number.
    pub fn from_count(issued: u64) -> (source: IdSource)
        ensures
            source.issued() == issued,
    {
        IdSource { issued }
    }

    /// How many identifiers have been issued: the serial number of the next.
    pub fn count(&self) -> (n: u64)
        ensures
            n == self.issued(),
    {
        self.issued
    }

    pub fn is_exhausted(&self) -> (b: bool)
        ensures
            b == self.exhausted(),
    {
        self.issued == u64::MAX
    }

    /// Stamps `nonce` with the next serial number. Nothing is issued, and the
    /// source stays as it was, once the serial numbers have run out.
    pub fn mint(&mut self, nonce: &str) -> (id: Option<String>)
        ensures
            old(self).exhausted() ==> id is None && *final(self) == *old(self),
            !old(self).exhausted() ==> id is Some
                && id->0@ == nonce@ + serial_suffix(old(self).issued())
                && final(self).issued() == old(self).issued() + 1,
    {
        if self.issued == u64::MAX {
            return None;
        }
        let mut id = String::from_str(nonce);
        id.append("-");
        proof {
            reveal_strlit("-");
        }
        push_hex(&mut id, self.issued, 16);
        assert(id@ =~= nonce@ + serial_suffix(self.issued));
        self.issued = self.issued + 1;
        Some(id)
    }

    /// Issues an identifier made of a fresh random token and the next serial
    /// number. Which token it holds is not determined; its stamp is.
    pub fn next(&mut self) -> (id: Option<String>)
        ensures
            old(self).exhausted() ==> id is None && *final(self) == *old(self),
            !old(self).exhausted() ==> id is Some
                && stamped(id->0@, old(self).issued())
                && id->0@.len() == 53
                && final(self).issued() == old(self).issued() + 1,
    {
        let token = random_token();
        let id = self.mint(token.as_str());
        proof {
            if !old(self).exhausted() {
                lemma_suffix_stamps(token@, old(self).issued());
            }
        }
        id
    }
}

} // verus!
