//! Phone numbers and region records of the load generator's in-memory cache.

use rand::Rng;
use vstd::prelude::*;
use vstd::utf8::*;
use crate::text::{append_decimal, decimal, digit, digit_char, push_char};

verus! {

/// A random integer in `low..=high` (rand `thread_rng().gen_range`).
#[verifier::external_body]
fn random_between(low: u32, high: u32) -> (r: u32)
    requires
        low <= high,
    ensures
        low <= r <= high,
{
    rand::thread_rng().gen_range(low..=high)
}

/// The byte length of the UTF-8 encoding of a string, as `str::len` reports it.
pub open spec fn byte_len(s: Seq<char>) -> usize {
    encode_utf8(s).len() as usize
}

/// Whether a phone number has an accepted length of seven to nine bytes.
pub open spec fn phone_len_ok(phone: Seq<char>) -> bool {
    7 <= byte_len(phone) <= 9
}

pub open spec fn is_ascii_digit(c: char) -> bool {
    '0' <= c <= '9'
}

pub open spec fn all_digits(s: Seq<char>) -> bool {
    forall|i: int| 0 <= i < s.len() ==> is_ascii_digit(#[trigger] s[i])
}

/// The message of a rejected phone number.
pub open spec fn phone_length_error(len: nat) -> Seq<char> {
    "phone length must be 7-9, got: "@ + decimal(len)
}

/// A phone number and the id of its region.
#[derive(Debug, Clone, PartialEq, Eq, Hash)]
pub struct PhoneRegion {
    /// The phone number, seven to nine bytes long.
    pub phone: String,
    /// The region id.
    pub region_id: i32,
}

impl PhoneRegion {
    pub fn new(phone: String, region_id: i32) -> (r: Result<Self, String>)
        ensures
            r is Ok <==> phone_len_ok(phone@),
            r matches Ok(p) ==> p.phone@ == phone@ && p.region_id == region_id,
            r matches Err(e) ==> e@ == phone_length_error(byte_len(phone@) as nat),
    {
        let phone_len: usize = phone.as_str().len();
        if phone_len < 7 || phone_len > 9 {
            let mut message = String::from_str("phone length must be 7-9, got: ");
            append_decimal(&mut message, phone_len as u64);
            return Err(message);
        }
        Ok(PhoneRegion { phone, region_id })
    }

    pub fn is_valid_phone_length(&self) -> (r: bool)
        ensures
            r == phone_len_ok(self.phone@),
    {
        let len: usize = self.phone.as_str().len();
        len >= 7 && len <= 9
    }
}

proof fn lemma_digits_ascii(s: Seq<char>)
    requires
        all_digits(s),
        s.len() <= 64,
    ensures
        byte_len(s) == s.len(),
{
    assert(is_ascii_chars(s)) by {
        assert forall|i: int| 0 <= i < s.len() implies '\0' <= #[trigger] s[i] <= '\u{7f}' by {
            assert(is_ascii_digit(s[i]));
        }
    }
    is_ascii_chars_encode_utf8(s);
}

/// Appends `count` random decimal digits.
fn append_random_digits(s: &mut String, count: u32)
    ensures
        final(s)@.len() == old(s)@.len() + count,
        final(s)@.subrange(0, old(s)@.len() as int) == old(s)@,
        forall|i: int| old(s)@.len() <= i < final(s)@.len() ==> is_ascii_digit(#[trigger] final(s)@[i]),
{
    let ghost start = s@;
    let mut k: u32 = 0;
    while k < count
        invariant
            k <= count,
            s@.len() == start.len() + k,
            s@.subrange(0, start.len() as int) == start,
            forall|i: int| start.len() <= i < s@.len() ==> is_ascii_digit(#[trigger] s@[i]),
        decreases count - k,
    {
        let d = random_between(0, 9);
        let c = digit(d as u64);
        let ghost before = s@;
        push_char(s, c);
        proof {
            assert(s@.subrange(0, start.len() as int) =~= before.subrange(0, start.len() as int));
            assert forall|i: int| start.len() <= i < s@.len() implies is_ascii_digit(#[trigger] s@[i]) by {
                if i < before.len() {
                    assert(s@[i] == before[i]);
                }
            }
        }
        k = k + 1;
    }
}

/// A random eleven-digit mobile number: `1`, a digit from 3 to 9, nine digits.
pub fn generate_random_phone() -> (r: String)
    ensures
        r@.len() == 11,
        byte_len(r@) == 11,
        r@[0] == '1',
        '3' <= r@[1] <= '9',
        all_digits(r@),
{
    let mut phone = String::from_str("1");
    proof { reveal_strlit("1"); }
    let second = random_between(3, 9);
    push_char(&mut phone, digit(second as u64));
    append_random_digits(&mut phone, 9);
    proof {
        assert(phone@[0] == phone@.subrange(0, 2)[0]);
        assert(phone@[1] == phone@.subrange(0, 2)[1]);
        lemma_digits_ascii(phone@);
    }
    phone
}

/// The operator prefixes of the realistic mobile numbers: the 13x, 15x and
/// 18x ranges.
pub open spec fn china_mobile_prefixes() -> Seq<u32> {
    seq![130u32, 131, 132, 133, 134, 135, 136, 137, 138, 139,
        150, 151, 152, 153, 155, 156, 157, 158, 159,
        180, 181, 182, 183, 184, 185, 186, 187, 188, 189]
}

proof fn lemma_three_digit_decimal(n: nat)
    requires
        100 <= n < 1000,
    ensures
        decimal(n).len() == 3,
        all_digits(decimal(n)),
        decimal(n)[0] == digit_char(n / 100),
        decimal(n)[1] == digit_char((n / 10) % 10),
{
    assert(decimal(n / 100) == seq![digit_char(n / 100)]);
    assert(decimal(n / 10) == decimal(n / 10 / 10).push(digit_char((n / 10) % 10)));
}

/// A random eleven-digit mobile number made of a known operator prefix and eight digits.
pub fn generate_realistic_phone() -> (r: String)
    ensures
        r@.len() == 11,
        byte_len(r@) == 11,
        all_digits(r@),
        r@[0] == '1',
        r@[1] == '3' || r@[1] == '5' || r@[1] == '8',
        exists|i: int| 0 <= i < china_mobile_prefixes().len()
            && r@.subrange(0, 3) == decimal(#[trigger] china_mobile_prefixes()[i] as nat),
{
    let prefixes: [u32; 29] = [130, 131, 132, 133, 134, 135, 136, 137, 138, 139,
        150, 151, 152, 153, 155, 156, 157, 158, 159,
        180, 181, 182, 183, 184, 185, 186, 187, 188, 189];
    assert(prefixes@ =~= china_mobile_prefixes());
    let index = random_between(0, 28);
    let prefix = prefixes[index as usize];
    let mut phone = String::new();
    append_decimal(&mut phone, prefix as u64);
    proof {
        lemma_three_digit_decimal(prefix as nat);
        assert(phone@ =~= decimal(prefix as nat));
    }
    let ghost head = phone@;
    append_random_digits(&mut phone, 8);
    proof {
        assert(phone@.subrange(0, 3) == head);
        assert forall|i: int| 0 <= i < phone@.len() implies is_ascii_digit(#[trigger] phone@[i]) by {
            if i < 3 {
                assert(phone@[i] == head[i]);
            }
        }
        assert(phone@[0] == head[0]);
        assert(phone@[1] == head[1]);
        assert(prefix as nat / 100 == 1);
        assert((prefix as nat / 10) % 10 == 3 || (prefix as nat / 10) % 10 == 5 || (prefix as nat / 10) % 10 == 8);
        lemma_digits_ascii(phone@);
        assert(china_mobile_prefixes()[index as int] == prefix);
    }
    phone
}

/// One random record of the mock cache: a phone number of seven to nine random
/// digits and a region id below 1000.
pub fn random_phone_region() -> (r: PhoneRegion)
    ensures
        phone_len_ok(r.phone@),
        7 <= r.phone@.len() <= 9,
        all_digits(r.phone@),
        0 <= r.region_id < 1000,
{
    let phone_len = random_between(7, 9);
    let mut phone = String::new();
    append_random_digits(&mut phone, phone_len);
    let region_id = random_between(0, 999);
    proof { lemma_digits_ascii(phone@); }
    PhoneRegion { phone, region_id: region_id as i32 }
}

} // verus!
