//! AX.25 addresses: a callsign with SSID, plus the four ancillary bits that
//! ride along in the 7-byte wire encoding of an address field.

use vstd::prelude::*;
use vstd::string::StringSliceAdditionalSpecFns;

verus! {

/// Errors from callsign validation and address parsing.
#[derive(Debug, Clone, Copy, PartialEq, Eq)]
pub enum AddrError {
    /// The callsign does not match `[A-Z0-9]{3,6}` with an optional
    /// `-0`..`-15` suffix.
    InvalidCallsign,
    /// A wire-format address field is not exactly seven bytes.
    InvalidLength,
}

pub const DASH: u8 = 45;

pub const SPACE: u8 = 32;

/// A callsign byte: `A`-`Z` or `0`-`9`.
pub open spec fn is_call_byte(b: u8) -> bool {
    (65 <= b <= 90) || (48 <= b <= 57)
}

/// A bare callsign: three to six callsign bytes.
pub open spec fn valid_base(s: Seq<u8>) -> bool {
    &&& 3 <= s.len() <= 6
    &&& forall|i: int| 0 <= i < s.len() ==> is_call_byte(#[trigger] s[i])
}

/// An SSID suffix (the part after the dash): a decimal 0..=9, or 10..=15.
pub open spec fn valid_ssid(t: Seq<u8>) -> bool {
    ||| (t.len() == 1 && 48 <= t[0] <= 57)
    ||| (t.len() == 2 && t[0] == 49 && 48 <= t[1] <= 53)
}

/// The numeric value of a valid SSID suffix.
pub open spec fn ssid_val(t: Seq<u8>) -> int {
    if t.len() == 1 {
        t[0] - 48
    } else {
        10 + (t[1] - 48)
    }
}

/// The display form of a callsign: a base, optionally followed by a dash and
/// an SSID suffix.
pub open spec fn valid_call(s: Seq<u8>) -> bool {
    ||| valid_base(s)
    ||| (exists|k: int|
        0 <= k < s.len() && #[trigger] s[k] == DASH && valid_base(s.subrange(0, k)) && valid_ssid(
            s.subrange(k + 1, s.len() as int),
        ))
}

pub open spec fn has_dash(s: Seq<u8>) -> bool {
    exists|k: int| 0 <= k < s.len() && #[trigger] s[k] == DASH
}

pub open spec fn dash_pos(s: Seq<u8>) -> int {
    choose|k: int| 0 <= k < s.len() && #[trigger] s[k] == DASH
}

/// Length of the base part: up to the dash, or the whole string.
pub open spec fn base_len(s: Seq<u8>) -> int {
    if has_dash(s) {
        dash_pos(s)
    } else {
        s.len() as int
    }
}

/// The SSID carried by a callsign's display form; 0 when there is no suffix.
pub open spec fn ssid_of(s: Seq<u8>) -> int {
    if has_dash(s) {
        ssid_val(s.subrange(dash_pos(s) + 1, s.len() as int))
    } else {
        0
    }
}

/// A valid callsign decomposes uniquely at its single dash.
pub proof fn lemma_valid_call_parts(s: Seq<u8>)
    requires
        valid_call(s),
    ensures
        3 <= base_len(s) <= 6,
        base_len(s) <= s.len(),
        valid_base(s.subrange(0, base_len(s))),
        has_dash(s) ==> base_len(s) < s.len() && s[base_len(s)] == DASH && valid_ssid(
            s.subrange(base_len(s) + 1, s.len() as int),
        ),
        !has_dash(s) ==> valid_base(s) && s.len() == base_len(s),
        0 <= ssid_of(s) <= 15,
        forall|i: int| 0 <= i < s.len() ==> #[trigger] s[i] < 128,
{
    if valid_base(s) {
        assert(!has_dash(s)) by {
            if has_dash(s) {
                let k = dash_pos(s);
                assert(is_call_byte(s[k]));
            }
        }
        assert(s.subrange(0, s.len() as int) =~= s);
    } else {
        let k = choose|k: int|
            0 <= k < s.len() && #[trigger] s[k] == DASH && valid_base(s.subrange(0, k))
                && valid_ssid(s.subrange(k + 1, s.len() as int));
        assert(has_dash(s));
        let kd = dash_pos(s);
        assert(0 <= kd < s.len() && s[kd] == DASH);
        if kd < k {
            assert(s.subrange(0, k)[kd] == DASH);
            assert(is_call_byte(s.subrange(0, k)[kd]));
            assert(false);
        }
        if kd > k {
            let t = s.subrange(k + 1, s.len() as int);
            assert(t[kd - k - 1] == DASH);
            assert(false);
        }
        assert(kd == k);
        let t = s.subrange(k + 1, s.len() as int);
        assert forall|i: int| 0 <= i < s.len() implies #[trigger] s[i] < 128 by {
            if i < k {
                assert(is_call_byte(s.subrange(0, k)[i]));
            } else if i > k {
                assert(t[i - k - 1] == s[i]);
            }
        }
    }
}

/// Exactly what `valid_call` can say of a string whose first dash is at `i`.
proof fn lemma_first_dash_decomp(s: Seq<u8>, i: int)
    requires
        0 <= i < s.len(),
        s[i] == DASH,
        forall|j: int| 0 <= j < i ==> #[trigger] s[j] != DASH,
    ensures
        valid_call(s) <==> (3 <= i <= 6 && valid_base(s.subrange(0, i)) && valid_ssid(
            s.subrange(i + 1, s.len() as int),
        )),
{
    if valid_call(s) {
        if valid_base(s) {
            assert(is_call_byte(s[i]));
            assert(false);
        }
        let k = choose|k: int|
            0 <= k < s.len() && #[trigger] s[k] == DASH && valid_base(s.subrange(0, k))
                && valid_ssid(s.subrange(k + 1, s.len() as int));
        if k < i {
            assert(s[k] != DASH);
            assert(false);
        }
        if k > i {
            assert(s.subrange(0, k)[i] == DASH);
            assert(is_call_byte(s.subrange(0, k)[i]));
            assert(false);
        }
        assert(k == i);
    }
}

/// The view of an address: the callsign display bytes and the four bits.
pub ghost struct AddrV {
    pub call: Seq<u8>,
    pub lowbit: bool,
    pub highbit: bool,
    pub rbit_ext: bool,
    pub rbit_dama: bool,
}

/// An AX.25 address: callsign and SSID in display form (for example
/// `M0THC-1`), together with the four ancillary bits of the wire encoding.
#[derive(Debug, PartialEq, Eq)]
pub struct Addr {
    call: Vec<u8>,
    rbit_ext: bool,
    highbit: bool,
    lowbit: bool,
    rbit_dama: bool,
}

impl View for Addr {
    type V = AddrV;

    closed spec fn view(&self) -> AddrV {
        AddrV {
            call: self.call@,
            lowbit: self.lowbit,
            highbit: self.highbit,
            rbit_ext: self.rbit_ext,
            rbit_dama: self.rbit_dama,
        }
    }
}

impl Clone for Addr {
    fn clone(&self) -> (r: Self)
        ensures
            r@ == self@,
    {
        proof {
            use_type_invariant(self);
        }
        Addr {
            call: copy_bytes_vec(&self.call),
            rbit_ext: self.rbit_ext,
            highbit: self.highbit,
            lowbit: self.lowbit,
            rbit_dama: self.rbit_dama,
        }
    }
}

/// Copy a byte vector, element by element.
pub fn copy_bytes_vec(v: &Vec<u8>) -> (r: Vec<u8>)
    ensures
        r@ == v@,
{
    let mut r: Vec<u8> = Vec::new();
    let mut i: usize = 0;
    while i < v.len()
        invariant
            0 <= i <= v@.len(),
            r@ =~= v@.take(i as int),
        decreases v@.len() - i,
    {
        r.push(v[i]);
        i += 1;
    }
    proof {
        assert(r@ =~= v@);
    }
    r
}

/// Uppercase one ASCII byte.
pub open spec fn to_upper(b: u8) -> u8 {
    if 97 <= b <= 122 {
        (b - 32) as u8
    } else {
        b
    }
}

pub open spec fn upper_bytes(s: Seq<u8>) -> Seq<u8> {
    s.map_values(|b: u8| to_upper(b))
}

/// Check a display-form callsign against the grammar.
fn call_ok(s: &Vec<u8>) -> (b: bool)
    ensures
        b == valid_call(s@),
{
    let n = s.len();
    let mut i: usize = 0;
    while i < n && s[i] != DASH
        invariant
            0 <= i <= n,
            n == s@.len(),
            forall|j: int| 0 <= j < i ==> #[trigger] s@[j] != DASH,
        decreases n - i,
    {
        i += 1;
    }
    if i < 3 || i > 6 {
        proof {
            if i < n {
                lemma_first_dash_decomp(s@, i as int);
            } else {
                assert(!has_dash(s@)) by {
                    if has_dash(s@) {
                        let k = dash_pos(s@);
                        assert(s@[k] != DASH);
                    }
                }
                assert(!valid_call(s@)) by {
                    if valid_call(s@) && !valid_base(s@) {
                        let k = choose|k: int|
                            0 <= k < s@.len() && #[trigger] s@[k] == DASH && valid_base(
                                s@.subrange(0, k),
                            ) && valid_ssid(s@.subrange(k + 1, s@.len() as int));
                        assert(has_dash(s@));
                    }
                }
            }
        }
        return false;
    }
    let mut j: usize = 0;
    while j < i
        invariant
            0 <= j <= i <= n,
            n == s@.len(),
            3 <= i <= 6,
            i < n ==> s@[i as int] == DASH,
            forall|t: int| 0 <= t < i ==> #[trigger] s@[t] != DASH,
            forall|t: int| 0 <= t < j ==> is_call_byte(#[trigger] s@[t]),
        decreases i - j,
    {
        let c = s[j];
        if !((65 <= c && c <= 90) || (48 <= c && c <= 57)) {
            proof {
                if i < n {
                    lemma_first_dash_decomp(s@, i as int);
                    assert(s@.subrange(0, i as int)[j as int] == c);
                } else {
                    assert(!has_dash(s@)) by {
                        if has_dash(s@) {
                            let k = dash_pos(s@);
                            assert(s@[k] != DASH);
                        }
                    }
                    assert(!valid_call(s@)) by {
                        if valid_call(s@) && !valid_base(s@) {
                            let k = choose|k: int|
                                0 <= k < s@.len() && #[trigger] s@[k] == DASH && valid_base(
                                    s@.subrange(0, k),
                                ) && valid_ssid(s@.subrange(k + 1, s@.len() as int));
                            assert(has_dash(s@));
                        }
                    }
                }
            }
            return false;
        }
        j += 1;
    }
    if i == n {
        proof {
            assert(valid_base(s@));
        }
        return true;
    }
    proof {
        lemma_first_dash_decomp(s@, i as int);
    }
    let suffix_len = n - i - 1;
    if suffix_len == 1 {
        let c = s[i + 1];
        proof {
            assert(s@.subrange(i + 1, n as int) =~= seq![s@[i + 1]]);
        }
        return 48 <= c && c <= 57;
    }
    if suffix_len == 2 {
        let c1 = s[i + 1];
        let c2 = s[i + 2];
        proof {
            assert(s@.subrange(i + 1, n as int) =~= seq![s@[i + 1], s@[i + 2]]);
        }
        return c1 == 49 && (48 <= c2 && c2 <= 53);
    }
    proof {
        let t = s@.subrange(i + 1, n as int);
        assert(t.len() != 1 && t.len() != 2);
    }
    false
}

impl Addr {
    /// The callsign grammar that every `Addr` holds to.
    #[verifier::type_invariant]
    pub open spec fn wf(self) -> bool {
        valid_call(self@.call)
    }

    /// Create a new address from a display-form callsign such as `M0THC-1`.
    /// Lowercase input is folded to uppercase; the ancillary bits are clear.
    pub fn new(s: &str) -> (r: Result<Self, AddrError>)
        ensures
            r is Ok <==> valid_call(upper_bytes(s.spec_bytes())),
            r matches Ok(a) ==> a@ == (AddrV {
                call: upper_bytes(s.spec_bytes()),
                lowbit: false,
                highbit: false,
                rbit_ext: false,
                rbit_dama: false,
            }),
            r is Err ==> r == Err::<Addr, AddrError>(AddrError::InvalidCallsign),
    {
        let bytes = s.as_bytes();
        let mut up: Vec<u8> = Vec::new();
        let mut i: usize = 0;
        while i < bytes.len()
            invariant
                0 <= i <= bytes@.len(),
                bytes@ == s.spec_bytes(),
                up@ =~= upper_bytes(bytes@.take(i as int)),
            decreases bytes@.len() - i,
        {
            let c = bytes[i];
            if 97 <= c && c <= 122 {
                up.push(c - 32);
            } else {
                up.push(c);
            }
            proof {
                assert(up@ =~= upper_bytes(bytes@.take(i + 1)));
            }
            i += 1;
        }
        proof {
            assert(bytes@.take(bytes@.len() as int) =~= bytes@);
        }
        if !call_ok(&up) {
            return Err(AddrError::InvalidCallsign);
        }
        Ok(Addr { call: up, rbit_ext: false, highbit: false, lowbit: false, rbit_dama: false })
    }

    /// Create a new address from a callsign and explicit ancillary bits.
    pub fn new_bits(
        s: &str,
        lowbit: bool,
        highbit: bool,
        rbit_ext: bool,
        rbit_dama: bool,
    ) -> (r: Result<Self, AddrError>)
        ensures
            r is Ok <==> valid_call(upper_bytes(s.spec_bytes())),
            r matches Ok(a) ==> a@ == (AddrV {
                call: upper_bytes(s.spec_bytes()),
                lowbit,
                highbit,
                rbit_ext,
                rbit_dama,
            }),
            r is Err ==> r == Err::<Addr, AddrError>(AddrError::InvalidCallsign),
    {
        let mut a = Self::new(s)?;
        a.lowbit = lowbit;
        a.highbit = highbit;
        a.rbit_ext = rbit_ext;
        a.rbit_dama = rbit_dama;
        Ok(a)
    }

    /// The last-address bit of the address list.
    pub fn lowbit(&self) -> (r: bool)
        ensures
            r == self@.lowbit,
    {
        self.lowbit
    }

    /// The command/response bit.
    pub fn highbit(&self) -> (r: bool)
        ensures
            r == self@.highbit,
    {
        self.highbit
    }

    /// The reserved bit that marks extended (mod-128) sequence numbers.
    pub fn rbit_ext(&self) -> (r: bool)
        ensures
            r == self@.rbit_ext,
    {
        self.rbit_ext
    }

    /// The reserved bit used by DAMA.
    pub fn rbit_dama(&self) -> (r: bool)
        ensures
            r == self@.rbit_dama,
    {
        self.rbit_dama
    }

    /// The callsign and SSID as a string, without the ancillary bits.
    pub fn call(&self) -> (r: String)
        ensures
            r@ == self@.call.map_values(|b: u8| b as char),
    {
        proof {
            use_type_invariant(self);
            lemma_valid_call_parts(self.call@);
        }
        let mut v: Vec<u8> = Vec::new();
        let mut i: usize = 0;
        while i < self.call.len()
            invariant
                0 <= i <= self.call@.len(),
                v@ =~= self.call@.take(i as int),
            decreases self.call@.len() - i,
        {
            v.push(self.call[i]);
            i += 1;
        }
        proof {
            assert(v@ =~= self.call@);
        }
        string_from_ascii(v)
    }
}

/// The seventh address byte: SSID shifted up one bit, the complemented
/// reserved bits, the command/response bit on top, the last-address bit at
/// the bottom.
pub open spec fn addr_byte6(
    ssid: u8,
    lowbit: bool,
    highbit: bool,
    rbit_ext: bool,
    rbit_dama: bool,
) -> u8 {
    ((2 * ssid) as u8) | (if rbit_ext {
        0u8
    } else {
        64u8
    }) | (if rbit_dama {
        0u8
    } else {
        32u8
    }) | (if lowbit {
        1u8
    } else {
        0u8
    }) | (if highbit {
        128u8
    } else {
        0u8
    })
}

/// The 7-byte wire form of an address: six callsign bytes shifted up one bit
/// and right-padded with spaces, then the SSID-and-bits byte.
pub open spec fn ser_addr(
    call: Seq<u8>,
    lowbit: bool,
    highbit: bool,
    rbit_ext: bool,
    rbit_dama: bool,
) -> Seq<u8> {
    Seq::new(
        7,
        |i: int|
            if i < 6 {
                if i < base_len(call) {
                    (2 * call[i]) as u8
                } else {
                    (2 * SPACE) as u8
                }
            } else {
                addr_byte6(ssid_of(call) as u8, lowbit, highbit, rbit_ext, rbit_dama)
            },
    )
}

/// The six callsign bytes recovered from a wire address: each byte shifted
/// back down one bit.
pub open spec fn letters_of(b: Seq<u8>) -> Seq<u8> {
    Seq::new(6, |i: int| b[i] / 2)
}

/// The length of `s` once trailing spaces are removed.
pub open spec fn trimmed_len(s: Seq<u8>) -> int
    decreases s.len(),
{
    if s.len() == 0 {
        0
    } else if s.last() == SPACE {
        trimmed_len(s.drop_last())
    } else {
        s.len() as int
    }
}

/// The SSID carried in the seventh wire byte.
pub open spec fn wire_ssid(b6: u8) -> u8 {
    (b6 / 2) & 15
}

/// The decimal display form of an SSID 1..=15.
pub open spec fn decimal_ssid(v: u8) -> Seq<u8> {
    if v < 10 {
        seq![(48 + v) as u8]
    } else {
        seq![49u8, (48 + (v - 10)) as u8]
    }
}

/// The display-form callsign recovered from a 7-byte wire address: trimmed
/// letters, plus a dash and the SSID when the SSID is not zero.
pub open spec fn call_of_wire(b: Seq<u8>) -> Seq<u8> {
    let letters = letters_of(b);
    let base = letters.take(trimmed_len(letters));
    if wire_ssid(b[6]) > 0 {
        base + seq![DASH] + decimal_ssid(wire_ssid(b[6]))
    } else {
        base
    }
}

/// What parsing a 7-byte wire address yields: the recovered callsign, when it
/// is grammatical, and the four ancillary bits.
pub open spec fn spec_parse_addr(b: Seq<u8>) -> Option<AddrV> {
    let call = call_of_wire(b);
    if valid_call(call) {
        Some(
            AddrV {
                call,
                lowbit: b[6] & 1 == 1,
                highbit: b[6] & 128 != 0,
                rbit_ext: b[6] & 64 == 0,
                rbit_dama: b[6] & 32 == 0,
            },
        )
    } else {
        None
    }
}

/// If everything from `k` on is a space and nothing at `k - 1` is, the
/// trimmed length is exactly `k`.
proof fn lemma_trim_at(s: Seq<u8>, k: int)
    requires
        0 <= k <= s.len(),
        forall|i: int| k <= i < s.len() ==> #[trigger] s[i] == SPACE,
        k > 0 ==> s[k - 1] != SPACE,
    ensures
        trimmed_len(s) == k,
    decreases s.len(),
{
    if s.len() == k {
        if k > 0 {
            assert(s.last() != SPACE);
        }
    } else {
        assert(s.last() == SPACE);
        lemma_trim_at(s.drop_last(), k);
    }
}

/// Bit-level facts about the seventh address byte: packing the SSID and the
/// four bits, then unpacking them, gives the fields back.
proof fn lemma_byte6_bits(s: u8, e: u8, d: u8, l: u8, h: u8)
    by (bit_vector)
    requires
        s <= 15,
        e == 0 || e == 64,
        d == 0 || d == 32,
        l == 0 || l == 1,
        h == 0 || h == 128,
    ensures
        ((((2 * s) as u8) | e | d | l | h) / 2) & 15 == s,
        (((2 * s) as u8) | e | d | l | h) & 1 == l,
        (((2 * s) as u8) | e | d | l | h) & 128 == h,
        (((2 * s) as u8) | e | d | l | h) & 64 == e,
        (((2 * s) as u8) | e | d | l | h) & 32 == d,
{
}

/// Find the base length of a valid callsign: the index of its dash, or its
/// whole length.
fn base_length(call: &Vec<u8>) -> (r: usize)
    requires
        valid_call(call@),
    ensures
        r as int == base_len(call@),
        3 <= r <= 6,
        r <= call@.len(),
{
    proof {
        lemma_valid_call_parts(call@);
    }
    let n = call.len();
    let mut i: usize = 0;
    while i < n && call[i] != DASH
        invariant
            0 <= i <= n,
            n == call@.len(),
            forall|j: int| 0 <= j < i ==> #[trigger] call@[j] != DASH,
        decreases n - i,
    {
        i += 1;
    }
    proof {
        lemma_valid_call_parts(call@);
        if i < n {
            assert(has_dash(call@));
            let bl = base_len(call@);
            if (i as int) < bl {
                assert(is_call_byte(call@.subrange(0, bl)[i as int]));
                assert(false);
            }
            if (i as int) > bl {
                assert(call@[bl] != DASH);
                assert(false);
            }
        } else {
            if has_dash(call@) {
                assert(call@[base_len(call@)] == DASH);
                assert(false);
            }
        }
    }
    i
}

/// The SSID value of a valid callsign.
fn ssid_value(call: &Vec<u8>) -> (r: u8)
    requires
        valid_call(call@),
    ensures
        r as int == ssid_of(call@),
        r <= 15,
{
    proof {
        lemma_valid_call_parts(call@);
    }
    let bl = base_length(call);
    if bl == call.len() {
        proof {
            if has_dash(call@) {
                assert(base_len(call@) < call@.len());
            }
        }
        0
    } else {
        proof {
            if !has_dash(call@) {
                assert(base_len(call@) == call@.len());
            }
        }
        let suffix_len = call.len() - bl - 1;
        if suffix_len == 1 {
            proof {
                assert(call@.subrange(bl + 1, call@.len() as int) =~= seq![call@[bl as int + 1]]);
            }
            call[bl + 1] - 48
        } else {
            proof {
                assert(call@.subrange(bl + 1, call@.len() as int) =~= seq![
                    call@[bl as int + 1],
                    call@[bl as int + 2],
                ]);
            }
            10 + (call[bl + 2] - 48)
        }
    }
}

impl Addr {
    /// Serialize the callsign and SSID with explicit ancillary bits into the
    /// 7-byte wire form.
    pub fn serialize(
        &self,
        lowbit: bool,
        highbit: bool,
        rbit_ext: bool,
        rbit_dama: bool,
    ) -> (r: Vec<u8>)
        ensures
            r@ == ser_addr(self@.call, lowbit, highbit, rbit_ext, rbit_dama),
            r@.len() == 7,
    {
        proof {
            use_type_invariant(self);
            lemma_valid_call_parts(self@.call);
        }
        let bl = base_length(&self.call);
        let ssid = ssid_value(&self.call);
        let mut ret: Vec<u8> = Vec::new();
        let mut i: usize = 0;
        while i < 6
            invariant
                0 <= i <= 6,
                valid_call(self@.call),
                bl as int == base_len(self@.call),
                bl <= self@.call.len(),
                ret@.len() == i,
                forall|j: int|
                    0 <= j < i ==> ret@[j] == (if j < base_len(self@.call) {
                        (2 * self@.call[j]) as u8
                    } else {
                        (2 * SPACE) as u8
                    }),
            decreases 6 - i,
        {
            if i < bl {
                proof {
                    lemma_valid_call_parts(self@.call);
                    assert(self@.call.subrange(0, bl as int)[i as int] == self@.call[i as int]);
                    assert(is_call_byte(self@.call[i as int]));
                }
                ret.push(2 * self.call[i]);
            } else {
                ret.push(64);
            }
            i += 1;
        }
        let b6 = (2 * ssid) | (if rbit_ext {
            0
        } else {
            64
        }) | (if rbit_dama {
            0
        } else {
            32
        }) | (if lowbit {
            1
        } else {
            0
        }) | (if highbit {
            128
        } else {
            0
        });
        ret.push(b6);
        proof {
            assert(ret@ =~= ser_addr(self@.call, lowbit, highbit, rbit_ext, rbit_dama));
        }
        ret
    }

    /// Parse a 7-byte wire address into callsign and ancillary bits.
    pub fn parse(bytes: &[u8]) -> (r: Result<Self, AddrError>)
        ensures
            bytes@.len() != 7 ==> r == Err::<Addr, AddrError>(AddrError::InvalidLength),
            bytes@.len() == 7 ==> match spec_parse_addr(bytes@) {
                Some(av) => r matches Ok(a) && a@ == av,
                None => r == Err::<Addr, AddrError>(AddrError::InvalidCallsign),
            },
    {
        if bytes.len() != 7 {
            return Err(AddrError::InvalidLength);
        }
        let mut call: Vec<u8> = Vec::new();
        let mut i: usize = 0;
        while i < 6
            invariant
                0 <= i <= 6,
                bytes@.len() == 7,
                call@ =~= letters_of(bytes@).take(i as int),
            decreases 6 - i,
        {
            let c = bytes[i] / 2;
            call.push(c);
            proof {
                assert(call@ =~= letters_of(bytes@).take(i + 1));
            }
            i += 1;
        }
        proof {
            assert(call@ =~= letters_of(bytes@));
        }
        let mut tl: usize = 6;
        while tl > 0 && call[tl - 1] == SPACE
            invariant
                0 <= tl <= 6,
                call@.len() == 6,
                call@ == letters_of(bytes@),
                bytes@.len() == 7,
                trimmed_len(call@) == trimmed_len(call@.take(tl as int)),
            decreases tl,
        {
            proof {
                let t = call@.take(tl as int);
                assert(t.len() == tl);
                assert(t.last() == call@[tl - 1]);
                assert(t.drop_last() =~= call@.take(tl - 1));
            }
            tl -= 1;
        }
        proof {
            let t = call@.take(tl as int);
            if tl > 0 {
                assert(t.last() == call@[tl - 1]);
                assert(trimmed_len(t) == tl);
            }
            assert(trimmed_len(letters_of(bytes@)) == tl);
        }
        call.truncate(tl);
        let ssid = (bytes[6] / 2) & 15;
        if ssid > 0 {
            call.push(DASH);
            if ssid < 10 {
                call.push(48 + ssid);
            } else {
                proof {
                    let b6 = bytes@[6];
                    assert((b6 / 2) & 15 <= 15) by (bit_vector);
                }
                call.push(49);
                call.push(48 + (ssid - 10));
            }
        }
        proof {
            assert(call@ =~= call_of_wire(bytes@));
        }
        if !call_ok(&call) {
            return Err(AddrError::InvalidCallsign);
        }
        Ok(
            Addr {
                call,
                lowbit: bytes[6] & 1 == 1,
                highbit: bytes[6] & 128 != 0,
                rbit_ext: bytes[6] & 64 == 0,
                rbit_dama: bytes[6] & 32 == 0,
            },
        )
    }
}

/// The address codec round-trips: parsing a serialized address gives back the
/// callsign and the four bits that were serialized. The one callsign form
/// that does not come back verbatim is a `-0` suffix, which serializes to
/// SSID zero and parses back as the bare callsign.
pub proof fn lemma_addr_round_trip(
    call: Seq<u8>,
    lowbit: bool,
    highbit: bool,
    rbit_ext: bool,
    rbit_dama: bool,
)
    requires
        valid_call(call),
        has_dash(call) ==> ssid_of(call) != 0,
    ensures
        spec_parse_addr(ser_addr(call, lowbit, highbit, rbit_ext, rbit_dama)) == Some(
            AddrV { call, lowbit, highbit, rbit_ext, rbit_dama },
        ),
{
    lemma_valid_call_parts(call);
    let b = ser_addr(call, lowbit, highbit, rbit_ext, rbit_dama);
    let bl = base_len(call);
    let base = call.subrange(0, bl);
    let letters = letters_of(b);
    assert forall|i: int| 0 <= i < 6 implies letters[i] == (if i < bl {
        call[i]
    } else {
        SPACE
    }) by {
        if i < bl {
            assert(is_call_byte(base[i]));
        }
    }
    assert(is_call_byte(base[bl - 1]));
    lemma_trim_at(letters, bl);
    // The SSID and bit fields of byte 6 unpack to what was packed.
    let s8 = ssid_of(call) as u8;
    let e: u8 = if rbit_ext { 0 } else { 64 };
    let d: u8 = if rbit_dama { 0 } else { 32 };
    let l: u8 = if lowbit { 1 } else { 0 };
    let h: u8 = if highbit { 128 } else { 0 };
    lemma_byte6_bits(s8, e, d, l, h);
    assert(b[6] == ((2 * s8) as u8) | e | d | l | h);
    assert(wire_ssid(b[6]) == s8);
    assert(letters.take(bl) =~= base);
    if has_dash(call) {
        let suffix = call.subrange(bl + 1, call.len() as int);
        assert(valid_ssid(suffix));
        if suffix.len() == 1 {
            assert(decimal_ssid(s8) =~= suffix);
        } else {
            assert(ssid_of(call) == 10 + (suffix[1] - 48));
            assert(decimal_ssid(s8) =~= suffix);
        }
        assert(call_of_wire(b) =~= call);
    } else {
        assert(s8 == 0);
        assert(call_of_wire(b) =~= call);
    }
}

/// Relies on `String::from_utf8`: ASCII bytes are valid UTF-8 and decode to
/// the chars with the same values.
#[verifier::external_body]
fn string_from_ascii(v: Vec<u8>) -> (r: String)
    requires
        forall|i: int| 0 <= i < v@.len() ==> v@[i] < 128,
    ensures
        r@ == v@.map_values(|b: u8| b as char),
{
    match String::from_utf8(v) {
        Ok(s) => s,
        Err(_) => String::new(),
    }
}

} // verus!
